//! The daemon's decisions on its control commands: which drives run, what
//! the configuration becomes, and what each request is answered. Starting
//! and stopping engines, saving the configuration and replying are left to
//! the caller, which reports each outcome back.
use vstd::prelude::*;

use crate::config::{text_less, DaemonSettings, DriveConfig, DriveConfigView, DriveTable, PhanerosConfig};
use crate::model::{
    contains_hash, hashes_view, lemma_hashes_push, lemma_prefix_step, lemma_push_contains,
    lemma_push_fresh,
};
use crate::text::push_str;

verus! {

/// The JSON-RPC code for a request with bad parameters.
pub const INVALID_PARAMS: i64 = -32602;

/// The JSON-RPC code for a failure inside the daemon.
pub const INTERNAL_ERROR: i64 = -32603;

/// An error answer to a control request.
#[derive(Debug, Clone)]
pub struct RpcError {
    pub code: i64,
    pub message: String,
}

/// The daemon's command line.
#[derive(Debug, Clone)]
pub struct DaemonCli {
    /// A configuration file to use in place of the usual one.
    pub config: Option<String>,
}

/// Why the daemon could not listen on its socket.
#[derive(Debug, Clone)]
pub enum ListenError {
    Bind { path: String, source: String },
}

impl ListenError {
    /// The error as text.
    pub fn message(&self) -> (r: String)
        ensures
            self matches ListenError::Bind { path, source } ==> r@ == "failed to bind IPC socket at "@ + path@
                + ": "@ + source@,
    {
        match self {
            ListenError::Bind { path, source } => {
                let mut r = String::from_str("failed to bind IPC socket at ");
                push_str(&mut r, path.as_str());
                push_str(&mut r, ": ");
                push_str(&mut r, source.as_str());
                r
            },
        }
    }
}

/// The parameters of a request to add a drive.
#[derive(Debug, Clone)]
pub struct AddDriveParams {
    pub drive_id: String,
    pub path: String,
    pub token: Option<String>,
    pub store_url: Option<String>,
    pub enabled: bool,
}

/// `prefix`, the identifier in quotes, then `suffix`.
pub open spec fn quoted_text(prefix: Seq<char>, id: Seq<char>, suffix: Seq<char>) -> Seq<char> {
    prefix + seq!['\''] + id + seq!['\''] + suffix
}

pub open spec fn unknown_drive_text(id: Seq<char>) -> Seq<char> {
    quoted_text("unknown drive "@, id, Seq::empty())
}

pub open spec fn already_running_text(id: Seq<char>) -> Seq<char> {
    quoted_text("drive "@, id, " is already running"@)
}

pub open spec fn not_running_text(id: Seq<char>) -> Seq<char> {
    quoted_text("drive "@, id, " is not running"@)
}

pub open spec fn already_exists_text(id: Seq<char>) -> Seq<char> {
    quoted_text("drive "@, id, " already exists"@)
}

/// The configuration that an add request describes.
pub open spec fn added_drive(params: AddDriveParams) -> DriveConfigView {
    DriveConfigView {
        path: params.path@,
        token: match params.token {
            Some(t) => t@,
            None => Seq::empty(),
        },
        store_url: match params.store_url {
            Some(u) => Some(u@),
            None => None,
        },
        enabled: params.enabled,
    }
}

/// Whether a drive of `drives` is enabled.
pub open spec fn enabled_in(drives: Map<Seq<char>, DriveConfigView>, k: Seq<char>) -> bool {
    drives.contains_key(k) && drives[k].enabled
}

fn quoted(prefix: &str, id: &str, suffix: &str) -> (r: String)
    ensures
        r@ == quoted_text(prefix@, id@, suffix@),
{
    let mut r = String::from_str(prefix);
    push_str(&mut r, "'");
    push_str(&mut r, id);
    push_str(&mut r, "'");
    push_str(&mut r, suffix);
    proof {
        reveal_strlit("'");
        assert("'"@ =~= seq!['\'']);
    }
    r
}

/// An error for a request with bad parameters.
pub fn invalid_params(message: String) -> (r: RpcError)
    ensures
        r.code == INVALID_PARAMS,
        r.message == message,
{
    RpcError { code: INVALID_PARAMS, message }
}

/// An error for a failure inside the daemon.
pub fn internal_error(message: String) -> (r: RpcError)
    ensures
        r.code == INTERNAL_ERROR,
        r.message == message,
{
    RpcError { code: INTERNAL_ERROR, message }
}

fn unknown_drive(id: &str) -> (r: RpcError)
    ensures
        r.code == INVALID_PARAMS,
        r.message@ == unknown_drive_text(id@),
{
    proof {
        reveal_strlit("");
    }
    invalid_params(quoted("unknown drive ", id, ""))
}

/// The running list is valid for the configured drives: no drive twice,
/// and only configured drives.
pub open spec fn running_valid(drives: Map<Seq<char>, DriveConfigView>, running: Seq<Seq<char>>) -> bool {
    &&& running.no_duplicates()
    &&& forall|k: Seq<char>| #[trigger] running.contains(k) ==> drives.contains_key(k)
}

/// `v` without `x`.
fn without(v: &Vec<String>, x: &String) -> (r: Vec<String>)
    requires
        hashes_view(v@).no_duplicates(),
    ensures
        hashes_view(r@).no_duplicates(),
        forall|k: Seq<char>| #[trigger] hashes_view(r@).contains(k) <==> hashes_view(v@).contains(k) && k != x@,
{
    let ghost rv = hashes_view(v@);
    let mut r: Vec<String> = Vec::new();
    let mut i: usize = 0;
    while i < v.len()
        invariant
            rv == hashes_view(v@),
            rv.no_duplicates(),
            0 <= i <= rv.len(),
            hashes_view(r@).no_duplicates(),
            forall|k: Seq<char>| #[trigger]
                hashes_view(r@).contains(k) <==> rv.subrange(0, i as int).contains(k) && k != x@,
        decreases rv.len() - i,
    {
        proof {
            lemma_prefix_step(rv, i as int);
            lemma_push_contains(rv.subrange(0, i as int), rv[i as int]);
        }
        if v[i] != *x {
            let ghost pre = r@;
            r.push(v[i].clone());
            proof {
                lemma_hashes_push(pre, r@.last());
                lemma_push_fresh(hashes_view(pre), rv[i as int]);
                lemma_push_contains(hashes_view(pre), rv[i as int]);
            }
        }
        i = i + 1;
    }
    proof {
        assert(rv.subrange(0, rv.len() as int) =~= rv);
    }
    r
}

/// Splits `v` into the drives that `table` enables and the others.
fn split_enabled(v: &Vec<String>, table: &DriveTable) -> (r: (Vec<String>, Vec<String>))
    requires
        hashes_view(v@).no_duplicates(),
    ensures
        hashes_view(r.0@).no_duplicates(),
        forall|k: Seq<char>| #[trigger]
            hashes_view(r.0@).contains(k) <==> hashes_view(v@).contains(k) && enabled_in(table.map(), k),
        forall|k: Seq<char>| #[trigger]
            hashes_view(r.1@).contains(k) <==> hashes_view(v@).contains(k) && !enabled_in(table.map(), k),
{
    let ghost rv = hashes_view(v@);
    let mut kept: Vec<String> = Vec::new();
    let mut dropped: Vec<String> = Vec::new();
    let mut i: usize = 0;
    while i < v.len()
        invariant
            rv == hashes_view(v@),
            rv.no_duplicates(),
            0 <= i <= rv.len(),
            hashes_view(kept@).no_duplicates(),
            forall|k: Seq<char>| #[trigger]
                hashes_view(kept@).contains(k) <==> rv.subrange(0, i as int).contains(k) && enabled_in(
                    table.map(),
                    k,
                ),
            forall|k: Seq<char>| #[trigger]
                hashes_view(dropped@).contains(k) <==> rv.subrange(0, i as int).contains(k) && !enabled_in(
                    table.map(),
                    k,
                ),
        decreases rv.len() - i,
    {
        proof {
            lemma_prefix_step(rv, i as int);
            lemma_push_contains(rv.subrange(0, i as int), rv[i as int]);
        }
        let on = match table.get(v[i].as_str()) {
            Some(d) => d.enabled,
            None => false,
        };
        if on {
            let ghost pre = kept@;
            kept.push(v[i].clone());
            proof {
                lemma_hashes_push(pre, kept@.last());
                lemma_push_fresh(hashes_view(pre), rv[i as int]);
                lemma_push_contains(hashes_view(pre), rv[i as int]);
            }
        } else {
            let ghost pre = dropped@;
            dropped.push(v[i].clone());
            proof {
                lemma_hashes_push(pre, dropped@.last());
                lemma_push_contains(hashes_view(pre), rv[i as int]);
            }
        }
        i = i + 1;
    }
    proof {
        assert(rv.subrange(0, rv.len() as int) =~= rv);
    }
    (kept, dropped)
}

/// The configuration and the set of running drives, as the daemon sees them.
/// A running drive is always a configured one.
pub struct DaemonState {
    config: PhanerosConfig,
    running: Vec<String>,
}

impl DaemonState {
    #[verifier::type_invariant]
    closed spec fn well_formed(&self) -> bool {
        running_valid(self.config.drives.map(), hashes_view(self.running@))
    }

    /// The configured drives.
    pub closed spec fn drives(&self) -> Map<Seq<char>, DriveConfigView> {
        self.config.drives.map()
    }

    /// The daemon's own settings.
    pub closed spec fn settings(&self) -> DaemonSettings {
        self.config.daemon
    }

    /// The identifiers of the running drives.
    pub closed spec fn running_set(&self) -> Set<Seq<char>> {
        hashes_view(self.running@).to_set()
    }

    /// A daemon with `config` loaded and no drive running yet.
    pub fn new(config: PhanerosConfig) -> (r: Self)
        ensures
            r.drives() == config.drives.map(),
            r.settings() == config.daemon,
            r.running_set() == Set::<Seq<char>>::empty(),
    {
        let r = DaemonState { config, running: Vec::new() };
        proof {
            assert(hashes_view(r.running@).to_set() =~= Set::<Seq<char>>::empty());
        }
        r
    }

    /// Takes the configuration and the running list out, leaving a daemon
    /// with neither.
    fn take_parts(&mut self) -> (r: (PhanerosConfig, Vec<String>))
        ensures
            r.0.drives.map() == old(self).drives(),
            r.0.daemon == old(self).settings(),
            hashes_view(r.1@).to_set() == old(self).running_set(),
            running_valid(r.0.drives.map(), hashes_view(r.1@)),
    {
        let mut st = DaemonState::new(
            PhanerosConfig { daemon: DaemonSettings::default(), drives: DriveTable::new() },
        );
        std::mem::swap(&mut st, self);
        proof {
            use_type_invariant(&st);
        }
        let DaemonState { config, running } = st;
        (config, running)
    }

    /// Puts a configuration and a running list valid for it in place.
    fn put_parts(&mut self, config: PhanerosConfig, running: Vec<String>)
        requires
            running_valid(config.drives.map(), hashes_view(running@)),
        ensures
            final(self).drives() == config.drives.map(),
            final(self).settings() == config.daemon,
            final(self).running_set() == hashes_view(running@).to_set(),
    {
        *self = DaemonState { config, running };
    }

    /// The current configuration, as it is to be saved.
    pub fn config(&self) -> (r: &PhanerosConfig)
        ensures
            r.drives.map() == self.drives(),
            r.daemon == self.settings(),
    {
        &self.config
    }

    /// Whether the drive is running.
    pub fn is_running(&self, drive_id: &String) -> (r: bool)
        ensures
            r == self.running_set().contains(drive_id@),
    {
        contains_hash(&self.running, drive_id)
    }

    /// The identifiers of the running drives, each once; all of them are
    /// configured.
    pub fn running_drives(&self) -> (r: Vec<String>)
        ensures
            hashes_view(r@).to_set() == self.running_set(),
            hashes_view(r@).no_duplicates(),
            self.running_set().subset_of(self.drives().dom()),
    {
        proof {
            use_type_invariant(self);
        }
        let mut r: Vec<String> = Vec::new();
        let mut i: usize = 0;
        while i < self.running.len()
            invariant
                0 <= i <= self.running@.len(),
                r@.len() == i,
                forall|k: int| 0 <= k < i ==> (#[trigger] r@[k])@ == self.running@[k]@,
            decreases self.running@.len() - i,
        {
            r.push(self.running[i].clone());
            i = i + 1;
        }
        proof {
            assert(hashes_view(r@) =~= hashes_view(self.running@));
        }
        r
    }

    /// The enabled drives, each once and in identifier order: those to
    /// start when the daemon comes up.
    pub fn enabled_drives(&self) -> (r: Vec<String>)
        ensures
            forall|k: Seq<char>| #[trigger] hashes_view(r@).contains(k) <==> enabled_in(self.drives(), k),
            hashes_view(r@).no_duplicates(),
            forall|i: int, j: int|
                0 <= i < j < r@.len() ==> text_less(#[trigger] r@[i]@, #[trigger] r@[j]@),
    {
        let keys = self.config.drives.keys();
        let ghost kv = hashes_view(keys@);
        let ghost m = self.config.drives.map();
        let mut r: Vec<String> = Vec::new();
        let mut i: usize = 0;
        while i < keys.len()
            invariant
                kv == hashes_view(keys@),
                m == self.config.drives.map(),
                0 <= i <= kv.len(),
                kv.no_duplicates(),
                forall|k: Seq<char>| #[trigger] m.contains_key(k) <==> kv.contains(k),
                forall|a: int, b: int| 0 <= a < b < kv.len() ==> text_less(#[trigger] kv[a], #[trigger] kv[b]),
                hashes_view(r@).no_duplicates(),
                forall|k: Seq<char>| #[trigger]
                    hashes_view(r@).contains(k) <==> kv.subrange(0, i as int).contains(k) && enabled_in(m, k),
                forall|a: int, b: int|
                    0 <= a < b < r@.len() ==> text_less(#[trigger] r@[a]@, #[trigger] r@[b]@),
            decreases kv.len() - i,
        {
            proof {
                lemma_prefix_step(kv, i as int);
                lemma_push_contains(kv.subrange(0, i as int), kv[i as int]);
                assert(kv.contains(kv[i as int]));
            }
            let d = self.config.drives.get(keys[i].as_str()).unwrap();
            if d.enabled {
                let ghost pre = r@;
                r.push(keys[i].clone());
                proof {
                    lemma_hashes_push(pre, r@.last());
                    lemma_push_fresh(hashes_view(pre), kv[i as int]);
                    lemma_push_contains(hashes_view(pre), kv[i as int]);
                    assert forall|a: int, b: int| 0 <= a < b < r@.len() implies text_less(
                        #[trigger] r@[a]@,
                        #[trigger] r@[b]@,
                    ) by {
                        if b == pre.len() {
                            assert(hashes_view(pre)[a] == r@[a]@);
                            assert(hashes_view(pre).contains(r@[a]@));
                            let j = choose|j: int|
                                0 <= j < i && #[trigger] kv.subrange(0, i as int)[j] == r@[a]@;
                            assert(kv[j] == r@[a]@);
                        } else {
                            assert(r@[a] == pre[a] && r@[b] == pre[b]);
                        }
                    }
                }
            }
            i = i + 1;
        }
        proof {
            assert(kv.subrange(0, kv.len() as int) =~= kv);
        }
        r
    }

    /// Notes that the engine of a configured drive is now running.
    pub fn record_started(&mut self, drive_id: &String)
        requires
            old(self).drives().contains_key(drive_id@),
        ensures
            final(self).drives() == old(self).drives(),
            final(self).settings() == old(self).settings(),
            final(self).running_set() == old(self).running_set().insert(drive_id@),
    {
        let (config, mut running) = self.take_parts();
        if !contains_hash(&running, drive_id) {
            let ghost pre = running@;
            running.push(drive_id.clone());
            proof {
                lemma_hashes_push(pre, running@.last());
                lemma_push_fresh(hashes_view(pre), drive_id@);
                lemma_push_contains(hashes_view(pre), drive_id@);
            }
        } else {
            proof {
                assert(hashes_view(running@).to_set().insert(drive_id@) =~= hashes_view(running@).to_set());
            }
        }
        self.put_parts(config, running);
    }

    /// Takes `drive_id` off the running list.
    fn forget_running(&mut self, drive_id: &String)
        ensures
            final(self).drives() == old(self).drives(),
            final(self).settings() == old(self).settings(),
            final(self).running_set() == old(self).running_set().remove(drive_id@),
    {
        let (config, running) = self.take_parts();
        let kept = without(&running, drive_id);
        proof {
            assert(hashes_view(kept@).to_set() =~= hashes_view(running@).to_set().remove(drive_id@));
        }
        self.put_parts(config, kept);
    }

    /// Turns a configured drive on or off, keeping the running list valid.
    fn set_enabled(&mut self, drive_id: &String, enabled: bool)
        requires
            old(self).drives().contains_key(drive_id@),
        ensures
            final(self).running_set() == old(self).running_set(),
            final(self).settings() == old(self).settings(),
            final(self).drives() == old(self).drives().insert(
                drive_id@,
                DriveConfigView { enabled, ..old(self).drives()[drive_id@] },
            ),
    {
        let (mut config, running) = self.take_parts();
        config.drives.set_enabled(drive_id.as_str(), enabled);
        self.put_parts(config, running);
    }

    /// Checks a status request: the drive must be configured.
    pub fn check_configured(&self, drive_id: &String) -> (r: Result<(), RpcError>)
        ensures
            r is Ok <==> self.drives().contains_key(drive_id@),
            r matches Err(e) ==> e.code == INVALID_PARAMS && e.message@ == unknown_drive_text(drive_id@),
    {
        if self.config.drives.contains_key(drive_id.as_str()) {
            Ok(())
        } else {
            Err(unknown_drive(drive_id.as_str()))
        }
    }

    /// Checks a start request: the drive must be configured and stopped.
    /// On `Ok` the caller starts its engine and reports with
    /// [`DaemonState::finish_start`].
    pub fn begin_start(&self, drive_id: &String) -> (r: Result<(), RpcError>)
        ensures
            r is Ok <==> !self.running_set().contains(drive_id@) && self.drives().contains_key(drive_id@),
            r matches Err(e) ==> e.code == INVALID_PARAMS && (if self.running_set().contains(drive_id@) {
                e.message@ == already_running_text(drive_id@)
            } else {
                e.message@ == unknown_drive_text(drive_id@)
            }),
    {
        if self.is_running(drive_id) {
            Err(invalid_params(quoted("drive ", drive_id.as_str(), " is already running")))
        } else if !self.config.drives.contains_key(drive_id.as_str()) {
            Err(unknown_drive(drive_id.as_str()))
        } else {
            Ok(())
        }
    }

    /// Records how starting a drive went: a started drive runs and is
    /// enabled (the caller then saves the configuration); a failure is
    /// answered as an internal error and changes nothing.
    pub fn finish_start(&mut self, drive_id: &String, started: Result<(), String>) -> (r: Result<(), RpcError>)
        requires
            old(self).drives().contains_key(drive_id@),
        ensures
            final(self).settings() == old(self).settings(),
            started is Ok ==> r is Ok && final(self).running_set() == old(self).running_set().insert(
                drive_id@,
            ) && final(self).drives() == old(self).drives().insert(
                drive_id@,
                DriveConfigView { enabled: true, ..old(self).drives()[drive_id@] },
            ),
            started matches Err(msg) ==> r matches Err(e) && e.code == INTERNAL_ERROR && e.message == msg
                && final(self).drives() == old(self).drives() && final(self).running_set() == old(
                self,
            ).running_set(),
    {
        match started {
            Ok(()) => {
                self.record_started(drive_id);
                self.set_enabled(drive_id, true);
                Ok(())
            },
            Err(msg) => Err(internal_error(msg)),
        }
    }

    /// Stops a running drive: it no longer runs and is disabled (the caller
    /// shuts its engine down and saves the configuration).
    pub fn stop_drive(&mut self, drive_id: &String) -> (r: Result<(), RpcError>)
        ensures
            final(self).settings() == old(self).settings(),
            r is Ok <==> old(self).running_set().contains(drive_id@),
            r is Ok ==> final(self).running_set() == old(self).running_set().remove(drive_id@)
                && final(self).drives() == old(self).drives().insert(
                drive_id@,
                DriveConfigView { enabled: false, ..old(self).drives()[drive_id@] },
            ),
            r matches Err(e) ==> e.code == INVALID_PARAMS && e.message@ == not_running_text(drive_id@)
                && final(self).drives() == old(self).drives() && final(self).running_set() == old(
                self,
            ).running_set(),
    {
        proof {
            use_type_invariant(&*self);
        }
        if !self.is_running(drive_id) {
            return Err(invalid_params(quoted("drive ", drive_id.as_str(), " is not running")));
        }
        self.forget_running(drive_id);
        self.set_enabled(drive_id, false);
        Ok(())
    }

    /// Checks a sync request: the drive must be running.
    pub fn check_running(&self, drive_id: &String) -> (r: Result<(), RpcError>)
        ensures
            r is Ok <==> self.running_set().contains(drive_id@),
            r matches Err(e) ==> e.code == INVALID_PARAMS && e.message@ == not_running_text(drive_id@),
    {
        if self.is_running(drive_id) {
            Ok(())
        } else {
            Err(invalid_params(quoted("drive ", drive_id.as_str(), " is not running")))
        }
    }

    /// Adds a drive to the configuration unless one with that identifier
    /// exists. On `Ok(start)` the caller starts its engine when `start` is
    /// set, and reports with [`DaemonState::finish_add`].
    pub fn begin_add(&mut self, params: AddDriveParams) -> (r: Result<bool, RpcError>)
        ensures
            final(self).settings() == old(self).settings(),
            final(self).running_set() == old(self).running_set(),
            r is Ok <==> !old(self).drives().contains_key(params.drive_id@),
            r matches Ok(start) ==> start == params.enabled && final(self).drives() == old(
                self,
            ).drives().insert(params.drive_id@, added_drive(params)),
            r matches Err(e) ==> e.code == INVALID_PARAMS && e.message@ == already_exists_text(
                params.drive_id@,
            ) && final(self).drives() == old(self).drives(),
    {
        if self.config.drives.contains_key(params.drive_id.as_str()) {
            return Err(invalid_params(quoted("drive ", params.drive_id.as_str(), " already exists")));
        }
        let ghost p = params;
        let start = params.enabled;
        let token = match params.token {
            Some(t) => t,
            None => String::new(),
        };
        let drive = DriveConfig {
            path: params.path,
            token,
            store_url: params.store_url,
            enabled: params.enabled,
        };
        proof {
            assert(drive@ == added_drive(p));
        }
        let (mut config, running) = self.take_parts();
        config.drives.insert(params.drive_id, drive);
        self.put_parts(config, running);
        Ok(start)
    }

    /// Records how starting an added drive went: on success the drive runs
    /// if it was to start; on failure it leaves the configuration again and
    /// the request is answered as an internal error.
    pub fn finish_add(&mut self, drive_id: &String, start: bool, started: Result<(), String>) -> (r:
        Result<(), RpcError>)
        requires
            old(self).drives().contains_key(drive_id@),
            !old(self).running_set().contains(drive_id@),
        ensures
            final(self).settings() == old(self).settings(),
            started is Ok ==> r is Ok && final(self).drives() == old(self).drives()
                && final(self).running_set() == (if start {
                old(self).running_set().insert(drive_id@)
            } else {
                old(self).running_set()
            }),
            started matches Err(msg) ==> r matches Err(e) && e.code == INTERNAL_ERROR && e.message == msg
                && final(self).drives() == old(self).drives().remove(drive_id@)
                && final(self).running_set() == old(self).running_set(),
    {
        match started {
            Ok(()) => {
                if start {
                    self.record_started(drive_id);
                }
                Ok(())
            },
            Err(msg) => {
                let (mut config, running) = self.take_parts();
                config.drives.remove(drive_id.as_str());
                proof {
                    assert(!hashes_view(running@).contains(drive_id@)) by {
                        if hashes_view(running@).contains(drive_id@) {
                            assert(hashes_view(running@).to_set().contains(drive_id@));
                        }
                    }
                }
                self.put_parts(config, running);
                Err(internal_error(msg))
            },
        }
    }

    /// Removes a drive from the configuration. Returns whether it was
    /// running (the caller then shuts its engine down first), and the
    /// answer: an error when the drive was not configured.
    pub fn remove_drive(&mut self, drive_id: &String) -> (r: (bool, Result<(), RpcError>))
        ensures
            final(self).settings() == old(self).settings(),
            r.0 == old(self).running_set().contains(drive_id@),
            r.1 is Ok <==> old(self).drives().contains_key(drive_id@),
            final(self).drives() == old(self).drives().remove(drive_id@),
            final(self).running_set() == old(self).running_set().remove(drive_id@),
            r.1 matches Err(e) ==> e.code == INVALID_PARAMS && e.message@ == unknown_drive_text(drive_id@),
    {
        let was_running = self.is_running(drive_id);
        let (mut config, running) = self.take_parts();
        let kept = without(&running, drive_id);
        let removed = config.drives.remove(drive_id.as_str());
        proof {
            assert(hashes_view(kept@).to_set() =~= hashes_view(running@).to_set().remove(drive_id@));
        }
        self.put_parts(config, kept);
        if removed.is_some() {
            (was_running, Ok(()))
        } else {
            (was_running, Err(unknown_drive(drive_id.as_str())))
        }
    }

    /// Stops every drive (for shutdown): returns the drives that were
    /// running, each once, none of which runs afterwards.
    pub fn stop_all(&mut self) -> (r: Vec<String>)
        ensures
            hashes_view(r@).to_set() == old(self).running_set(),
            hashes_view(r@).no_duplicates(),
            final(self).running_set() == Set::<Seq<char>>::empty(),
            final(self).drives() == old(self).drives(),
            final(self).settings() == old(self).settings(),
    {
        let (config, running) = self.take_parts();
        let none: Vec<String> = Vec::new();
        proof {
            assert(hashes_view(none@).to_set() =~= Set::<Seq<char>>::empty());
        }
        self.put_parts(config, none);
        running
    }

    /// Loads a fresh configuration: returns the running drives that it no
    /// longer enables (the caller shuts them down), then the enabled drives
    /// that are not running (the caller starts them and reports each with
    /// [`DaemonState::record_started`]).
    pub fn reload(&mut self, fresh: PhanerosConfig) -> (r: (Vec<String>, Vec<String>))
        ensures
            final(self).drives() == fresh.drives.map(),
            final(self).settings() == fresh.daemon,
            forall|k: Seq<char>| #[trigger]
                hashes_view(r.0@).contains(k) <==> old(self).running_set().contains(k) && !enabled_in(
                    fresh.drives.map(),
                    k,
                ),
            final(self).running_set() == old(self).running_set().filter(
                |k: Seq<char>| enabled_in(fresh.drives.map(), k),
            ),
            forall|k: Seq<char>| #[trigger]
                hashes_view(r.1@).contains(k) <==> enabled_in(fresh.drives.map(), k)
                    && !final(self).running_set().contains(k),
    {
        let ghost fm = fresh.drives.map();
        let (_, running) = self.take_parts();
        let (kept, to_stop) = split_enabled(&running, &fresh.drives);
        proof {
            assert(hashes_view(kept@).to_set() =~= hashes_view(running@).to_set().filter(
                |k: Seq<char>| enabled_in(fm, k),
            ));
            assert forall|k: Seq<char>| #[trigger] hashes_view(kept@).contains(k) implies fm.contains_key(k) by {
            }
            assert forall|k: Seq<char>| #[trigger]
                hashes_view(to_stop@).contains(k) <==> hashes_view(running@).to_set().contains(k) && !enabled_in(
                    fm,
                    k,
                ) by {
            }
        }
        self.put_parts(fresh, kept);
        let enabled = self.enabled_drives();
        let ghost ev = hashes_view(enabled@);
        let mut to_start: Vec<String> = Vec::new();
        let mut j: usize = 0;
        while j < enabled.len()
            invariant
                ev == hashes_view(enabled@),
                0 <= j <= ev.len(),
                forall|k: Seq<char>| #[trigger]
                    hashes_view(to_start@).contains(k) <==> ev.subrange(0, j as int).contains(k)
                        && !self.running_set().contains(k),
            decreases ev.len() - j,
        {
            proof {
                lemma_prefix_step(ev, j as int);
                lemma_push_contains(ev.subrange(0, j as int), ev[j as int]);
            }
            if !self.is_running(&enabled[j]) {
                let ghost pre = to_start@;
                to_start.push(enabled[j].clone());
                proof {
                    lemma_hashes_push(pre, to_start@.last());
                    lemma_push_contains(hashes_view(pre), ev[j as int]);
                }
            }
            j = j + 1;
        }
        proof {
            assert(ev.subrange(0, ev.len() as int) =~= ev);
        }
        (to_stop, to_start)
    }
}

} // verus!
