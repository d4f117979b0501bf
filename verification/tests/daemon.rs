use phaneros::config::{DriveConfig, DriveTable, PhanerosConfig};
use phaneros::daemon::{AddDriveParams, DaemonState, ListenError, INTERNAL_ERROR, INVALID_PARAMS};

fn drive(path: &str, enabled: bool) -> DriveConfig {
    DriveConfig { path: path.to_string(), token: String::new(), store_url: None, enabled }
}

fn config(drives: &[(&str, bool)]) -> PhanerosConfig {
    let mut table = DriveTable::new();
    for (id, enabled) in drives {
        table.insert(id.to_string(), drive(&format!("/v/{}", id), *enabled));
    }
    let mut c = PhanerosConfig::default();
    c.drives = table;
    c
}

fn s(x: &str) -> String {
    x.to_string()
}

#[test]
fn enabled_drives_start_in_identifier_order() {
    let state = DaemonState::new(config(&[("work", true), ("archive", false), ("notes", true)]));
    assert_eq!(state.enabled_drives(), vec![s("notes"), s("work")]);
    assert!(state.running_drives().is_empty());
}

#[test]
fn starting_a_drive() {
    let mut state = DaemonState::new(config(&[("notes", false)]));
    assert!(state.begin_start(&s("notes")).is_ok());
    assert!(state.finish_start(&s("notes"), Ok(())).is_ok());
    assert!(state.is_running(&s("notes")));
    assert!(state.config().drives.get("notes").unwrap().enabled);
    let again = state.begin_start(&s("notes")).unwrap_err();
    assert_eq!(again.code, INVALID_PARAMS);
    assert_eq!(again.message, "drive 'notes' is already running");
    let unknown = state.begin_start(&s("nope")).unwrap_err();
    assert_eq!(unknown.message, "unknown drive 'nope'");
}

#[test]
fn a_failed_start_is_an_internal_error() {
    let mut state = DaemonState::new(config(&[("notes", false)]));
    let err = state.finish_start(&s("notes"), Err(s("boom"))).unwrap_err();
    assert_eq!(err.code, INTERNAL_ERROR);
    assert_eq!(err.message, "boom");
    assert!(!state.is_running(&s("notes")));
    assert!(!state.config().drives.get("notes").unwrap().enabled);
}

#[test]
fn stopping_a_drive_disables_it() {
    let mut state = DaemonState::new(config(&[("notes", true)]));
    state.record_started(&s("notes"));
    assert!(state.stop_drive(&s("notes")).is_ok());
    assert!(!state.is_running(&s("notes")));
    assert!(!state.config().drives.get("notes").unwrap().enabled);
    let err = state.stop_drive(&s("notes")).unwrap_err();
    assert_eq!(err.message, "drive 'notes' is not running");
    assert_eq!(state.check_running(&s("notes")).unwrap_err().code, INVALID_PARAMS);
}

#[test]
fn adding_a_drive() {
    let mut state = DaemonState::new(config(&[("notes", true)]));
    let params = AddDriveParams { drive_id: s("work"), path: s("/w"), token: None, store_url: None, enabled: true };
    assert_eq!(state.begin_add(params.clone()).unwrap(), true);
    assert_eq!(state.config().drives.get("work").unwrap().path, "/w");
    assert!(state.finish_add(&s("work"), true, Ok(())).is_ok());
    assert!(state.is_running(&s("work")));
    let dup = state.begin_add(params).unwrap_err();
    assert_eq!(dup.message, "drive 'work' already exists");
}

#[test]
fn a_failed_add_is_rolled_back() {
    let mut state = DaemonState::new(config(&[]));
    let params = AddDriveParams { drive_id: s("work"), path: s("/w"), token: Some(s("t")), store_url: None, enabled: true };
    assert!(state.begin_add(params).unwrap());
    let err = state.finish_add(&s("work"), true, Err(s("no store"))).unwrap_err();
    assert_eq!(err.code, INTERNAL_ERROR);
    assert!(!state.config().drives.contains_key("work"));
}

#[test]
fn removing_a_drive() {
    let mut state = DaemonState::new(config(&[("notes", true)]));
    state.record_started(&s("notes"));
    let (was_running, answer) = state.remove_drive(&s("notes"));
    assert!(was_running);
    assert!(answer.is_ok());
    assert!(!state.is_running(&s("notes")));
    let (was_running, answer) = state.remove_drive(&s("notes"));
    assert!(!was_running);
    assert_eq!(answer.unwrap_err().message, "unknown drive 'notes'");
    assert_eq!(state.check_configured(&s("notes")).unwrap_err().message, "unknown drive 'notes'");
}

#[test]
fn reload_stops_what_is_no_longer_enabled_and_starts_the_rest() {
    let mut state = DaemonState::new(config(&[("a", true), ("b", true), ("c", false)]));
    state.record_started(&s("a"));
    state.record_started(&s("b"));
    let (to_stop, to_start) = state.reload(config(&[("a", true), ("b", false), ("d", true)]));
    assert_eq!(to_stop, vec![s("b")]);
    assert_eq!(to_start, vec![s("d")]);
    assert!(state.is_running(&s("a")));
    assert!(!state.is_running(&s("b")));
}

#[test]
fn shutdown_stops_everything() {
    let mut state = DaemonState::new(config(&[("a", true), ("b", true)]));
    state.record_started(&s("a"));
    state.record_started(&s("b"));
    state.record_started(&s("a"));
    let mut stopped = state.stop_all();
    stopped.sort();
    assert_eq!(stopped, vec![s("a"), s("b")]);
    assert!(state.running_drives().is_empty());
}

#[test]
fn listen_errors_name_the_socket() {
    let e = ListenError::Bind { path: s("/tmp/p.sock"), source: s("in use") };
    assert_eq!(e.message(), "failed to bind IPC socket at /tmp/p.sock: in use");
}
