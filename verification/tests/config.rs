use phaneros::config::{
    expand_tilde_with_home, join_path, ConfigError, ConfigSource, DaemonSettings, DriveConfig, DriveTable,
    PhanerosConfig,
};

#[test]
fn defaults() {
    let c = PhanerosConfig::default();
    assert_eq!(c.daemon.store_url, "http://localhost:8080");
    assert_eq!(c.daemon.log_level, "info");
    assert_eq!(c.daemon.max_concurrent_uploads, 4);
    assert_eq!(c.daemon.compression, "zstd");
    assert!(!c.daemon.enable_telemetry);
    assert_eq!(c.drives.len(), 1);
    let d = c.drives.get("default").unwrap();
    assert_eq!(d.path, "~/Documents/Phaneros");
    assert!(d.enabled);
    let s = DaemonSettings::default();
    assert!(s.ipc_socket.is_none());
}

#[test]
fn effective_store_url() {
    let mut d = DriveConfig::new("/x".to_string(), String::new(), None);
    assert_eq!(d.get_effective_store_url("http://daemon"), "http://daemon");
    d.store_url = Some("http://own".to_string());
    assert_eq!(d.get_effective_store_url("http://daemon"), "http://own");
}

#[test]
fn tilde_expansion() {
    assert_eq!(expand_tilde_with_home("~/Documents/Phaneros", Some("/home/u")), "/home/u/Documents/Phaneros");
    assert_eq!(expand_tilde_with_home("~", Some("/home/u")), "/home/u/");
    assert_eq!(expand_tilde_with_home("~user/x", Some("/home/u")), "~user/x");
    assert_eq!(expand_tilde_with_home("/abs", Some("/home/u")), "/abs");
    assert_eq!(expand_tilde_with_home("~/x", None), "~/x");
    assert_eq!(join_path("/a/", "b"), "/a/b");
    assert_eq!(join_path("/a", "/b"), "/b");
}

#[test]
fn the_drive_table_keeps_identifier_order() {
    let mut t = DriveTable::new();
    t.insert("work".to_string(), DriveConfig::new("/w".to_string(), String::new(), None));
    t.insert("archive".to_string(), DriveConfig::new("/a".to_string(), String::new(), None));
    t.insert("notes".to_string(), DriveConfig::new("/n".to_string(), String::new(), None));
    assert_eq!(t.keys(), vec!["archive".to_string(), "notes".to_string(), "work".to_string()]);
    let old = t.insert("work".to_string(), DriveConfig::new("/w2".to_string(), String::new(), None));
    assert_eq!(old.unwrap().path, "/w");
    assert_eq!(t.len(), 3);
    assert!(t.set_enabled("notes", false));
    assert!(!t.get("notes").unwrap().enabled);
    assert!(!t.set_enabled("missing", false));
    assert_eq!(t.remove("archive").unwrap().path, "/a");
    assert!(t.remove("archive").is_none());
    assert_eq!(t.keys(), vec!["notes".to_string(), "work".to_string()]);
}

#[test]
fn loading_falls_back_to_the_default() {
    let (c, path) = PhanerosConfig::load_or_default("/cfg.toml".to_string(), ConfigSource::Missing).unwrap();
    assert_eq!(path, "/cfg.toml");
    assert!(c.drives.contains_key("default"));
    let err = PhanerosConfig::load_or_default(
        "/cfg.toml".to_string(),
        ConfigSource::Failed(ConfigError::ParseFailed { path: "/cfg.toml".to_string(), source: "bad".to_string() }),
    )
    .err()
    .unwrap();
    assert_eq!(err.message(), "Failed to parse TOML configuration at /cfg.toml: bad");
}

#[test]
fn the_given_path_wins() {
    assert_eq!(
        PhanerosConfig::resolve_config_path(Some("/mine".to_string()), Some("/usual".to_string())).unwrap(),
        "/mine"
    );
    assert_eq!(PhanerosConfig::resolve_config_path(None, Some("/usual".to_string())).unwrap(), "/usual");
    assert!(matches!(
        PhanerosConfig::resolve_config_path(None, None),
        Err(ConfigError::ConfigDirNotFound)
    ));
}
