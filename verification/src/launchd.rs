//! Registering the daemon as a per-user macOS LaunchAgent: the agent's
//! property list and where it lives.
use vstd::prelude::*;

use crate::config::{join_path, join_text};
use crate::text::push_str;

verus! {

/// What to install: the agent's label and the daemon binary to run.
#[derive(Debug, Clone)]
pub struct LoginItemConfig {
    pub label: String,
    pub daemon_path: String,
}

pub const PLIST_HEAD: &'static str = "<?xml version=\"1.0\" encoding=\"UTF-8\"?>\n<!DOCTYPE plist PUBLIC \"-//Apple//DTD PLIST 1.0//EN\" \"http://www.apple.com/DTDs/PropertyList-1.0.dtd\">\n<plist version=\"1.0\">\n<dict>\n    <key>Label</key>\n    <string>";

pub const PLIST_AFTER_LABEL: &'static str = "</string>\n    <key>ProgramArguments</key>\n    <array>\n        <string>";

pub const PLIST_AFTER_PROGRAM: &'static str = "</string>\n    </array>\n    <key>RunAtLoad</key>\n    <true/>\n    <key>KeepAlive</key>\n    <dict>\n        <key>SuccessfulExit</key>\n        <false/>\n    </dict>\n    <key>StandardOutPath</key>\n    <string>";

pub const PLIST_AFTER_STDOUT: &'static str = "</string>\n    <key>StandardErrorPath</key>\n    <string>";

pub const PLIST_TAIL: &'static str = "</string>\n</dict>\n</plist>\n";

/// The agent's property list: it runs the daemon at load, restarts it when
/// it exits with a failure, and sends its output to `phanerosd.log` and
/// `phanerosd.err.log` in `log_dir`.
pub open spec fn plist_text(label: Seq<char>, daemon_path: Seq<char>, log_dir: Seq<char>) -> Seq<char> {
    PLIST_HEAD@ + label + PLIST_AFTER_LABEL@ + daemon_path + PLIST_AFTER_PROGRAM@ + join_text(
        log_dir,
        "phanerosd.log"@,
    ) + PLIST_AFTER_STDOUT@ + join_text(log_dir, "phanerosd.err.log"@) + PLIST_TAIL@
}

/// The property list of the agent for `config`, logging into `log_dir`.
pub fn plist_contents(config: &LoginItemConfig, log_dir: &str) -> (r: String)
    ensures
        r@ == plist_text(config.label@, config.daemon_path@, log_dir@),
{
    let mut r = String::from_str(PLIST_HEAD);
    push_str(&mut r, config.label.as_str());
    push_str(&mut r, PLIST_AFTER_LABEL);
    push_str(&mut r, config.daemon_path.as_str());
    push_str(&mut r, PLIST_AFTER_PROGRAM);
    let out = join_path(log_dir, "phanerosd.log");
    push_str(&mut r, out.as_str());
    push_str(&mut r, PLIST_AFTER_STDOUT);
    let err = join_path(log_dir, "phanerosd.err.log");
    push_str(&mut r, err.as_str());
    push_str(&mut r, PLIST_TAIL);
    r
}

/// Where the agent's property list goes: `Library/LaunchAgents/<label>.plist`
/// in the home directory.
pub open spec fn plist_path_text(home: Seq<char>, label: Seq<char>) -> Seq<char> {
    join_text(join_text(join_text(home, "Library"@), "LaunchAgents"@), label + ".plist"@)
}

/// Where the agent's property list goes, given the home directory; an
/// error when there is none.
pub fn plist_path(label: &str, home: Option<String>) -> (r: Result<String, String>)
    ensures
        match home {
            Some(h) => r matches Ok(p) && p@ == plist_path_text(h@, label@),
            None => r matches Err(e) && e@ == "Could not determine home directory"@,
        },
{
    match home {
        Some(h) => {
            let a = join_path(h.as_str(), "Library");
            let b = join_path(a.as_str(), "LaunchAgents");
            let mut name = String::from_str(label);
            push_str(&mut name, ".plist");
            Ok(join_path(b.as_str(), name.as_str()))
        },
        None => Err(String::from_str("Could not determine home directory")),
    }
}

/// Whether the agent is installed, given where its property list goes and
/// whether a file is there.
pub fn is_installed(plist: Result<String, String>, plist_exists: bool) -> (r: Result<bool, String>)
    ensures
        match plist {
            Ok(_) => r == Ok::<bool, String>(plist_exists),
            Err(e) => r == Err::<bool, String>(e),
        },
{
    match plist {
        Ok(_) => Ok(plist_exists),
        Err(e) => Err(e),
    }
}

} // verus!
