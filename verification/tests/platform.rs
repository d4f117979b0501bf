use phaneros::cli::{
    build_add_drive_params, default_drive_id, prompt_answer, socket_path_in, token_or_none, unescape_shell_path,
    DaemonCommands, MockIpcCaller, SocketIpcCaller,
};
use phaneros::drive_id::DriveIdError;
use phaneros::engine::{EngineConfig, EngineError, SyncEngine};
use phaneros::launchd::{is_installed, plist_contents, plist_path, LoginItemConfig};

#[test]
fn plist_contents_embeds_label_and_path() {
    let config = LoginItemConfig {
        label: "com.example.phanerosd".to_string(),
        daemon_path: "/usr/local/bin/phanerosd".to_string(),
    };
    let xml = plist_contents(&config, "/home/u/.local/share/phaneros");
    assert!(xml.contains("<string>com.example.phanerosd</string>"));
    assert!(xml.contains("<string>/usr/local/bin/phanerosd</string>"));
    assert!(xml.contains("<key>RunAtLoad</key>"));
    assert!(xml.contains("<false/>"));
    assert!(xml.contains("<string>/home/u/.local/share/phaneros/phanerosd.err.log</string>"));
    assert!(xml.starts_with("<?xml version=\"1.0\" encoding=\"UTF-8\"?>\n"));
    assert!(xml.ends_with("</plist>\n"));
}

#[test]
fn the_agent_lives_in_launch_agents() {
    assert_eq!(
        plist_path("com.x.d", Some("/Users/me".to_string())),
        Ok("/Users/me/Library/LaunchAgents/com.x.d.plist".to_string())
    );
    assert_eq!(plist_path("com.x.d", None), Err("Could not determine home directory".to_string()));
    assert_eq!(is_installed(Ok("/p".to_string()), true), Ok(true));
    assert_eq!(is_installed(Err("e".to_string()), true), Err("e".to_string()));
}

#[test]
fn shell_escapes_are_removed() {
    assert_eq!(unescape_shell_path("/Users/me/My\\ Drive"), "/Users/me/My Drive");
    assert_eq!(unescape_shell_path("a\\\\b"), "a\\b");
    assert_eq!(unescape_shell_path("end\\"), "end\\");
    assert_eq!(unescape_shell_path("plain"), "plain");
}

#[test]
fn add_parameters_normalize_the_identifier() {
    let p = build_add_drive_params("My Drive".to_string(), "/tmp/docs".to_string(), None, None, false).unwrap();
    assert_eq!(p.drive_id, "my-drive");
    assert_eq!(p.path, "/tmp/docs");
    assert!(p.enabled);
    let e = build_add_drive_params("!!!".to_string(), "/x".to_string(), None, None, true).err();
    assert_eq!(e, Some(DriveIdError::Empty));
}

#[test]
fn setup_answers() {
    assert_eq!(prompt_answer(Some("  /data \n".to_string()), Some("/d".to_string())), Some("/data".to_string()));
    assert_eq!(prompt_answer(Some(" \n".to_string()), Some("/d".to_string())), Some("/d".to_string()));
    assert_eq!(prompt_answer(None, None), None);
    assert_eq!(default_drive_id(Some("Photos".to_string())), "Photos");
    assert_eq!(default_drive_id(Some(String::new())), "default");
    assert_eq!(default_drive_id(None), "default");
    assert_eq!(token_or_none(Some(String::new())), None);
    assert_eq!(token_or_none(Some("t".to_string())), Some("t".to_string()));
}

#[test]
fn callers_and_commands() {
    assert_eq!(SocketIpcCaller::new("/tmp/s.sock".to_string()).socket_path, "/tmp/s.sock");
    let mock = MockIpcCaller::new(|x: u32| x + 1);
    assert_eq!((mock.handler())(1), 2);
    assert_eq!(socket_path_in("/data"), "/data/phaneros/phaneros.sock");
    assert!(matches!(DaemonCommands::Start { config: None }, DaemonCommands::Start { .. }));
}

#[test]
fn engine_configuration() {
    let c = EngineConfig::new("/v".to_string(), "http://s".to_string(), "d".to_string(), "t".to_string(), None)
        .with_telemetry(true)
        .with_max_concurrent_uploads(3);
    assert!(c.enable_telemetry);
    assert_eq!(c.max_concurrent_uploads, 3);
    assert_eq!(EngineConfig::new(String::new(), String::new(), String::new(), String::new(), None).max_concurrent_uploads, 10);
    let engine = SyncEngine::new(c);
    assert_eq!(engine.config().drive_id, "d");
    assert_eq!(
        EngineError::WatcherFailed("no inotify".to_string()).message(),
        "Failed to start directory watcher: no inotify"
    );
}
