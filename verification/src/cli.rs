//! The command line's view of the daemon: its subcommands and how it finds
//! the daemon's socket.
use vstd::prelude::*;

use crate::config::{join_path, join_text};
use crate::daemon::AddDriveParams;
use crate::drive_id::{kebab_id, normalize_drive_id, DriveIdError};
use crate::text::{chars_of, push_char};

verus! {

/// The `daemon` subcommands.
#[derive(Debug, Clone)]
pub enum DaemonCommands {
    /// Check that the daemon is reachable and responsive.
    Ping,
    /// Report whether the daemon is reachable and registered at login.
    Status,
    /// Start the daemon in the background, with this configuration file.
    Start { config: Option<String> },
    /// Shut the running daemon down.
    Stop,
    /// Register the daemon to start at login.
    Install,
    /// Unregister it.
    Uninstall,
}

/// Talks to the daemon over its socket.
#[derive(Debug, Clone)]
pub struct SocketIpcCaller {
    pub socket_path: String,
}

impl SocketIpcCaller {
    /// A caller for the daemon listening on `socket_path`.
    pub fn new(socket_path: String) -> (r: Self)
        ensures
            r.socket_path == socket_path,
    {
        SocketIpcCaller { socket_path }
    }
}

/// Answers requests with a handler, in place of the daemon.
pub struct MockIpcCaller<F> {
    handler: F,
}

impl<F> MockIpcCaller<F> {
    /// The handler that answers.
    pub closed spec fn spec_handler(&self) -> F {
        self.handler
    }

    /// A caller answered by `handler`.
    pub fn new(handler: F) -> (r: Self)
        ensures
            r.spec_handler() == handler,
    {
        MockIpcCaller { handler }
    }

    /// The handler that answers.
    pub fn handler(&self) -> (r: &F)
        ensures
            *r == self.spec_handler(),
    {
        &self.handler
    }
}

/// `dirs::data_local_dir`: the user's local data directory, if the
/// platform has one; nothing is promised of its value.
#[verifier::external_body]
fn data_local_dir() -> (r: Option<String>) {
    dirs::data_local_dir().map(|p| p.to_string_lossy().to_string())
}

/// The daemon's socket in a data directory: `phaneros/phaneros.sock`.
pub open spec fn socket_path_text(data_dir: Seq<char>) -> Seq<char> {
    join_text(join_text(data_dir, "phaneros"@), "phaneros.sock"@)
}

/// The daemon's socket in a data directory.
pub fn socket_path_in(data_dir: &str) -> (r: String)
    ensures
        r@ == socket_path_text(data_dir@),
{
    let a = join_path(data_dir, "phaneros");
    join_path(a.as_str(), "phaneros.sock")
}

/// The daemon's usual socket, in the user's local data directory.
pub fn default_socket_path() -> (r: Option<String>)
    ensures
        r matches Some(p) ==> exists|d: Seq<char>| p@ == socket_path_text(d),
{
    match data_local_dir() {
        Some(d) => Some(socket_path_in(d.as_str())),
        None => None,
    }
}

/// A path typed into a shell prompt with its backslash escapes removed:
/// a backslash keeps the character after it (a last lone backslash stays).
pub open spec fn unescaped(s: Seq<char>) -> Seq<char>
    decreases s.len(),
{
    if s.len() == 0 {
        Seq::empty()
    } else if s[0] == '\\' && s.len() >= 2 {
        seq![s[1]] + unescaped(s.subrange(2, s.len() as int))
    } else {
        seq![s[0]] + unescaped(s.drop_first())
    }
}

/// Removes the backslash escapes of a path typed at a prompt.
pub fn unescape_shell_path(input: &str) -> (r: String)
    ensures
        r@ == unescaped(input@),
{
    let v = chars_of(input);
    let mut r = String::new();
    let mut i: usize = 0;
    proof {
        assert(v@.subrange(0, v@.len() as int) =~= v@);
        assert(r@ + unescaped(v@) =~= unescaped(v@));
    }
    while i < v.len()
        invariant
            v@ == input@,
            0 <= i <= v.len(),
            r@ + unescaped(v@.subrange(i as int, v@.len() as int)) == unescaped(v@),
        decreases v.len() - i,
    {
        let ghost rest = v@.subrange(i as int, v@.len() as int);
        if v[i] == '\\' && i + 1 < v.len() {
            proof {
                assert(rest.subrange(2, rest.len() as int) =~= v@.subrange(i + 2, v@.len() as int));
                assert(rest[1] == v@[i + 1]);
            }
            push_char(&mut r, v[i + 1]);
            proof {
                assert(r@ + unescaped(v@.subrange(i + 2, v@.len() as int)) =~= (r@.drop_last() + seq![v@[i + 1]])
                    + unescaped(v@.subrange(i + 2, v@.len() as int)));
            }
            i = i + 2;
        } else {
            proof {
                assert(rest.drop_first() =~= v@.subrange(i + 1, v@.len() as int));
                assert(rest[0] == v@[i as int]);
            }
            push_char(&mut r, v[i]);
            i = i + 1;
        }
    }
    proof {
        assert(v@.subrange(v@.len() as int, v@.len() as int) =~= Seq::<char>::empty());
        assert(r@ + Seq::<char>::empty() =~= r@);
    }
    r
}

/// The parameters of an add request: the identifier normalized to
/// kebab-case, and the drive enabled unless `disabled`.
pub fn build_add_drive_params(
    drive_id: String,
    path: String,
    store_url: Option<String>,
    token: Option<String>,
    disabled: bool,
) -> (r: Result<AddDriveParams, DriveIdError>)
    ensures
        r is Ok <==> normalize_drive_id_ok(drive_id@),
        r matches Ok(p) ==> p.drive_id@ == kebab_id(drive_id@) && p.path == path && p.token == token
            && p.store_url == store_url && p.enabled == !disabled,
        r matches Err(e) ==> e == DriveIdError::Empty,
{
    let id = normalize_drive_id(drive_id.as_str())?;
    Ok(AddDriveParams { drive_id: id, path, token, store_url, enabled: !disabled })
}

/// Whether an identifier normalizes, that is holds a letter or digit.
pub open spec fn normalize_drive_id_ok(s: Seq<char>) -> bool {
    crate::drive_id::has_alnum(s)
}

/// What a prompt's answer gives: the answer without surrounding spaces,
/// or the default when that leaves nothing (or when reading failed).
pub fn prompt_answer(read: Option<String>, default: Option<String>) -> (r: Option<String>)
    ensures
        read is None ==> r == default,
        read matches Some(a) ==> (if crate::text::trim_spaces(a@).len() == 0 {
            r == default
        } else {
            r matches Some(x) && x@ == crate::text::trim_spaces(a@)
        }),
{
    match read {
        None => default,
        Some(a) => {
            let t = crate::text::trim_whitespace(a.as_str());
            if t.as_str().unicode_len() == 0 {
                default
            } else {
                Some(t)
            }
        },
    }
}

/// The drive identifier that setup proposes for a folder: the folder's
/// name, or `default` when it has none.
pub fn default_drive_id(folder_name: Option<String>) -> (r: String)
    ensures
        match folder_name {
            Some(n) => if n@.len() > 0 {
                r@ == n@
            } else {
                r@ == "default"@
            },
            None => r@ == "default"@,
        },
{
    match folder_name {
        Some(n) => if n.as_str().unicode_len() > 0 {
            n
        } else {
            String::from_str("default")
        },
        None => String::from_str("default"),
    }
}

/// A token left blank counts as none.
pub fn token_or_none(token: Option<String>) -> (r: Option<String>)
    ensures
        match token {
            Some(t) => if t@.len() > 0 {
                r == Some(t)
            } else {
                r is None
            },
            None => r is None,
        },
{
    match token {
        Some(t) => if t.as_str().unicode_len() > 0 {
            Some(t)
        } else {
            None
        },
        None => None,
    }
}

} // verus!
