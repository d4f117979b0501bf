//! The daemon's configuration: global settings and the configured drives.
use vstd::prelude::*;

use crate::text::{chars_of, push_str};

verus! {

/// Settings of the daemon itself.
#[derive(Debug, Clone)]
pub struct DaemonSettings {
    pub store_url: String,
    pub log_level: String,
    pub ipc_socket: Option<String>,
    pub max_concurrent_uploads: usize,
    pub compression: String,
    pub enable_telemetry: bool,
}

/// One configured drive: a local folder kept in sync with a remote store.
#[derive(Debug, Clone)]
pub struct DriveConfig {
    pub path: String,
    pub token: String,
    pub store_url: Option<String>,
    pub enabled: bool,
}

pub open spec fn default_store_url_text() -> Seq<char> {
    "http://localhost:8080"@
}

pub open spec fn default_log_level_text() -> Seq<char> {
    "info"@
}

pub open spec fn default_compression_text() -> Seq<char> {
    "zstd"@
}

pub open spec fn default_drive_path_text() -> Seq<char> {
    "~/Documents/Phaneros"@
}

pub fn default_false() -> (r: bool)
    ensures
        !r,
{
    false
}

pub fn default_true() -> (r: bool)
    ensures
        r,
{
    true
}

pub fn default_store_url() -> (r: String)
    ensures
        r@ == default_store_url_text(),
{
    String::from_str("http://localhost:8080")
}

pub fn default_log_level() -> (r: String)
    ensures
        r@ == default_log_level_text(),
{
    String::from_str("info")
}

pub fn default_max_concurrent_uploads() -> (r: usize)
    ensures
        r == 4,
{
    4
}

pub fn default_compression() -> (r: String)
    ensures
        r@ == default_compression_text(),
{
    String::from_str("zstd")
}

impl Default for DaemonSettings {
    fn default() -> (r: Self)
        ensures
            r.store_url@ == default_store_url_text(),
            r.log_level@ == default_log_level_text(),
            r.ipc_socket is None,
            r.max_concurrent_uploads == 4,
            r.compression@ == default_compression_text(),
            !r.enable_telemetry,
    {
        DaemonSettings {
            store_url: default_store_url(),
            log_level: default_log_level(),
            ipc_socket: None,
            max_concurrent_uploads: default_max_concurrent_uploads(),
            compression: default_compression(),
            enable_telemetry: false,
        }
    }
}

impl DriveConfig {
    /// An enabled drive.
    pub fn new(path: String, token: String, store_url: Option<String>) -> (r: Self)
        ensures
            r.path == path,
            r.token == token,
            r.store_url == store_url,
            r.enabled,
    {
        DriveConfig { path, token, store_url, enabled: true }
    }

    /// The store URL of this drive: its own if it has one, the daemon's
    /// otherwise.
    pub fn get_effective_store_url<'a>(&'a self, daemon_store_url: &'a str) -> (r: &'a str)
        ensures
            r@ == (match self.store_url {
                Some(u) => u@,
                None => daemon_store_url@,
            }),
    {
        match &self.store_url {
            Some(u) => u.as_str(),
            None => daemon_store_url,
        }
    }

    /// The local path with a leading `~` replaced by `home`, when a home
    /// directory is known.
    pub fn expanded_path_with_home(&self, home: Option<&str>) -> (r: String)
        ensures
            r@ == expand_tilde_text(self.path@, match home {
                Some(h) => Some(h@),
                None => None,
            }),
    {
        expand_tilde_with_home(self.path.as_str(), home)
    }

    /// The local path with a leading `~` replaced by the user's home
    /// directory.
    pub fn expanded_path(&self) -> (r: String)
        ensures
            exists|home: Option<Seq<char>>| r@ == expand_tilde_text(self.path@, home),
    {
        expand_tilde(self.path.as_str())
    }
}

/// Whether the path starts with the component `~`.
pub open spec fn starts_with_tilde(p: Seq<char>) -> bool {
    p.len() > 0 && p[0] == '~' && (p.len() == 1 || p[1] == '/')
}

/// `p` without its leading separators.
pub open spec fn trim_leading_separators(p: Seq<char>) -> Seq<char>
    decreases p.len(),
{
    if p.len() > 0 && p[0] == '/' {
        trim_leading_separators(p.drop_first())
    } else {
        p
    }
}

/// `rest` joined onto `base`: an absolute `rest` replaces `base`; otherwise
/// a separator goes between them unless `base` is empty or already ends in
/// one.
pub open spec fn join_text(base: Seq<char>, rest: Seq<char>) -> Seq<char> {
    if rest.len() > 0 && rest[0] == '/' {
        rest
    } else if base.len() > 0 && base.last() != '/' {
        base + seq!['/'] + rest
    } else {
        base + rest
    }
}

/// The path with a leading `~` component replaced by `home`.
pub open spec fn expand_tilde_text(p: Seq<char>, home: Option<Seq<char>>) -> Seq<char> {
    match home {
        Some(h) => if starts_with_tilde(p) {
            join_text(h, trim_leading_separators(p.subrange(1, p.len() as int)))
        } else {
            p
        },
        None => p,
    }
}

/// Joins `rest` onto `base` as paths are joined.
pub fn join_path(base: &str, rest: &str) -> (r: String)
    ensures
        r@ == join_text(base@, rest@),
{
    let b = chars_of(base);
    let t = chars_of(rest);
    if t.len() > 0 && t[0] == '/' {
        return String::from_str(rest);
    }
    let mut r = String::from_str(base);
    if b.len() > 0 && b[b.len() - 1] != '/' {
        push_str(&mut r, "/");
        proof {
            reveal_strlit("/");
            assert("/"@ =~= seq!['/']);
        }
    }
    push_str(&mut r, rest);
    r
}

/// Replaces a leading `~` component of `path` by `home`, if given.
pub fn expand_tilde_with_home(path: &str, home: Option<&str>) -> (r: String)
    ensures
        r@ == expand_tilde_text(path@, match home {
            Some(h) => Some(h@),
            None => None,
        }),
{
    let p = chars_of(path);
    match home {
        Some(h) => {
            if p.len() > 0 && p[0] == '~' && (p.len() == 1 || p[1] == '/') {
                let mut i: usize = 1;
                while i < p.len() && p[i] == '/'
                    invariant
                        1 <= i <= p@.len(),
                        p@ == path@,
                        trim_leading_separators(p@.subrange(i as int, p@.len() as int))
                            == trim_leading_separators(p@.subrange(1, p@.len() as int)),
                    decreases p@.len() - i,
                {
                    proof {
                        assert(p@.subrange(i as int, p@.len() as int).drop_first() =~= p@.subrange(
                            i + 1,
                            p@.len() as int,
                        ));
                    }
                    i = i + 1;
                }
                let mut rest: Vec<char> = Vec::new();
                let mut k = i;
                while k < p.len()
                    invariant
                        i <= k <= p@.len(),
                        rest@ == p@.subrange(i as int, k as int),
                    decreases p@.len() - k,
                {
                    rest.push(p[k]);
                    proof {
                        assert(p@.subrange(i as int, k + 1) =~= p@.subrange(i as int, k as int).push(
                            p@[k as int],
                        ));
                    }
                    k = k + 1;
                }
                let rest_text = crate::text::string_from_chars(&rest);
                proof {
                    let tail = p@.subrange(i as int, p@.len() as int);
                    assert(tail.len() == 0 || tail[0] != '/');
                    assert(trim_leading_separators(tail) == tail);
                }
                join_path(h, rest_text.as_str())
            } else {
                String::from_str(path)
            }
        },
        None => String::from_str(path),
    }
}

/// The user's home directory, as the platform reports it.
#[verifier::external_body]
fn home_dir() -> (r: Option<String>) {
    dirs::home_dir().map(|p| p.to_string_lossy().to_string())
}

/// Expands a leading `~` in a path to the user's home directory.
pub fn expand_tilde(path: &str) -> (r: String)
    ensures
        exists|home: Option<Seq<char>>| r@ == expand_tilde_text(path@, home),
{
    let home = home_dir();
    let r = match &home {
        Some(h) => expand_tilde_with_home(path, Some(h.as_str())),
        None => expand_tilde_with_home(path, None),
    };
    proof {
        let w: Option<Seq<char>> = match home {
            Some(h) => Some(h@),
            None => None,
        };
        assert(r@ == expand_tilde_text(path@, w));
    }
    r
}

/// The mathematical value of a [`DriveConfig`].
pub struct DriveConfigView {
    pub path: Seq<char>,
    pub token: Seq<char>,
    pub store_url: Option<Seq<char>>,
    pub enabled: bool,
}

impl View for DriveConfig {
    type V = DriveConfigView;

    open spec fn view(&self) -> DriveConfigView {
        DriveConfigView {
            path: self.path@,
            token: self.token@,
            store_url: match self.store_url {
                Some(u) => Some(u@),
                None => None,
            },
            enabled: self.enabled,
        }
    }
}

/// Strict lexicographic order of texts by character code, the order of
/// `str` comparison.
pub open spec fn text_less(a: Seq<char>, b: Seq<char>) -> bool
    decreases a.len(),
{
    if b.len() == 0 {
        false
    } else if a.len() == 0 {
        true
    } else if a[0] != b[0] {
        (a[0] as int) < (b[0] as int)
    } else {
        text_less(a.drop_first(), b.drop_first())
    }
}

pub proof fn lemma_text_less_irreflexive(a: Seq<char>)
    ensures
        !text_less(a, a),
    decreases a.len(),
{
    if a.len() > 0 {
        lemma_text_less_irreflexive(a.drop_first());
    }
}

pub proof fn lemma_text_less_total(a: Seq<char>, b: Seq<char>)
    ensures
        a == b || text_less(a, b) || text_less(b, a),
        !(text_less(a, b) && text_less(b, a)),
    decreases a.len(),
{
    if a.len() > 0 && b.len() > 0 {
        lemma_text_less_total(a.drop_first(), b.drop_first());
        if a[0] == b[0] && a.drop_first() == b.drop_first() {
            assert(a =~= seq![a[0]] + a.drop_first());
            assert(b =~= seq![b[0]] + b.drop_first());
        }
        if a[0] != b[0] {
            assert((a[0] as int) != (b[0] as int));
        }
    } else if a.len() == 0 && b.len() == 0 {
        assert(a =~= b);
    }
}

pub proof fn lemma_text_less_transitive(a: Seq<char>, b: Seq<char>, c: Seq<char>)
    requires
        text_less(a, b),
        text_less(b, c),
    ensures
        text_less(a, c),
    decreases a.len(),
{
    if a.len() > 0 && b.len() > 0 && c.len() > 0 && a[0] == b[0] && b[0] == c[0] {
        lemma_text_less_transitive(a.drop_first(), b.drop_first(), c.drop_first());
    }
}

/// Compares two texts: negative, zero or positive as `a` sorts before,
/// equal to, or after `b`.
pub fn text_order(a: &str, b: &str) -> (r: i8)
    ensures
        r < 0 <==> text_less(a@, b@),
        r == 0 <==> a@ == b@,
        r > 0 <==> text_less(b@, a@),
{
    let x = chars_of(a);
    let y = chars_of(b);
    let mut i: usize = 0;
    proof {
        assert(a@.skip(0) =~= a@);
        assert(b@.skip(0) =~= b@);
    }
    while i < x.len() && i < y.len()
        invariant
            x@ == a@,
            y@ == b@,
            0 <= i <= x@.len(),
            i <= y@.len(),
            a@.subrange(0, i as int) == b@.subrange(0, i as int),
            text_less(a@, b@) == text_less(a@.skip(i as int), b@.skip(i as int)),
            text_less(b@, a@) == text_less(b@.skip(i as int), a@.skip(i as int)),
        decreases x@.len() - i,
    {
        let ca = x[i];
        let cb = y[i];
        proof {
            assert(a@.skip(i as int)[0] == ca);
            assert(b@.skip(i as int)[0] == cb);
        }
        if ca != cb {
            if ca < cb {
                return -1;
            } else {
                return 1;
            }
        }
        proof {
            assert(a@.skip(i as int).drop_first() =~= a@.skip(i + 1));
            assert(b@.skip(i as int).drop_first() =~= b@.skip(i + 1));
            assert(a@.subrange(0, i + 1) =~= a@.subrange(0, i as int).push(ca));
            assert(b@.subrange(0, i + 1) =~= b@.subrange(0, i as int).push(cb));
        }
        i = i + 1;
    }
    if x.len() == y.len() {
        proof {
            assert(a@ =~= a@.subrange(0, i as int));
            assert(b@ =~= b@.subrange(0, i as int));
            lemma_text_less_irreflexive(a@);
        }
        0
    } else if i == x.len() {
        proof {
            assert(a@.skip(i as int).len() == 0);
            assert(a@ != b@);
        }
        -1
    } else {
        proof {
            assert(b@.skip(i as int).len() == 0);
            assert(a@ != b@);
        }
        1
    }
}

/// Keys in strictly increasing order.
pub open spec fn sorted_keys<V>(s: Seq<(String, V)>) -> bool {
    forall|i: int, j: int| 0 <= i < j < s.len() ==> text_less((#[trigger] s[i]).0@, (#[trigger] s[j]).0@)
}

/// The configured drives, by identifier, in identifier order.
#[derive(Debug)]
pub struct DriveTable {
    entries: Vec<(String, DriveConfig)>,
}

impl DriveTable {
    #[verifier::type_invariant]
    closed spec fn is_sorted(&self) -> bool {
        sorted_keys(self.entries@)
    }

    /// The drives, by identifier.
    pub closed spec fn map(&self) -> Map<Seq<char>, DriveConfigView> {
        crate::store::entries_map(self.entries@)
    }

    /// The identifiers, in order.
    pub closed spec fn key_seq(&self) -> Seq<Seq<char>> {
        self.entries@.map_values(|e: (String, DriveConfig)| e.0@)
    }

    proof fn lemma_distinct(&self)
        requires
            sorted_keys(self.entries@),
        ensures
            crate::store::keys_distinct(self.entries@),
    {
        assert forall|i: int, j: int| 0 <= i < j < self.entries@.len() implies (
        #[trigger] self.entries@[i]).0@ != (#[trigger] self.entries@[j]).0@ by {
            lemma_text_less_irreflexive(self.entries@[i].0@);
        }
    }

    /// No drives.
    pub fn new() -> (r: Self)
        ensures
            r.map() == Map::<Seq<char>, DriveConfigView>::empty(),
    {
        DriveTable { entries: Vec::new() }
    }

    /// The number of drives.
    pub fn len(&self) -> (r: usize)
        ensures
            r == self.map().dom().len(),
    {
        proof {
            use_type_invariant(self);
            self.lemma_distinct();
            crate::store::lemma_entries_map_len(self.entries@);
        }
        self.entries.len()
    }

    /// Where `key` is, or where it would go.
    fn locate(&self, key: &str) -> (r: (usize, bool))
        ensures
            r.0 <= self.entries@.len(),
            r.1 ==> r.0 < self.entries@.len() && self.entries@[r.0 as int].0@ == key@,
            r.1 <==> self.map().contains_key(key@),
            r.1 ==> self.map()[key@] == self.entries@[r.0 as int].1@,
            forall|i: int| 0 <= i < r.0 ==> text_less((#[trigger] self.entries@[i]).0@, key@),
            forall|i: int|
                r.0 <= i < self.entries@.len() ==> !r.1 ==> text_less(key@, (#[trigger] self.entries@[i]).0@),
    {
        proof {
            use_type_invariant(self);
            self.lemma_distinct();
            crate::store::lemma_entries_map_dom(self.entries@);
        }
        let mut i: usize = 0;
        while i < self.entries.len()
            invariant
                sorted_keys(self.entries@),
                0 <= i <= self.entries@.len(),
                forall|k: int| 0 <= k < i ==> text_less((#[trigger] self.entries@[k]).0@, key@),
            decreases self.entries@.len() - i,
        {
            let o = text_order(self.entries[i].0.as_str(), key);
            if o == 0 {
                proof {
                    self.lemma_distinct();
                    crate::store::lemma_entries_map_index(self.entries@, i as int);
                }
                return (i, true);
            }
            if o > 0 {
                proof {
                    assert forall|k: int| i <= k < self.entries@.len() implies text_less(
                        key@,
                        (#[trigger] self.entries@[k]).0@,
                    ) by {
                        if k > i {
                            lemma_text_less_transitive(key@, self.entries@[i as int].0@, self.entries@[k].0@);
                        }
                    }
                    crate::store::lemma_entries_map_dom(self.entries@);
                    if self.map().contains_key(key@) {
                        let k = choose|k: int| 0 <= k < self.entries@.len() && (#[trigger] self.entries@[k]).0@ == key@;
                        lemma_text_less_irreflexive(key@);
                        if k < i {
                            assert(text_less(self.entries@[k].0@, key@));
                        } else {
                            assert(text_less(key@, self.entries@[k].0@));
                        }
                    }
                }
                return (i, false);
            }
            i = i + 1;
        }
        proof {
            crate::store::lemma_entries_map_dom(self.entries@);
            if self.map().contains_key(key@) {
                let k = choose|k: int| 0 <= k < self.entries@.len() && (#[trigger] self.entries@[k]).0@ == key@;
                lemma_text_less_irreflexive(key@);
                assert(text_less(self.entries@[k].0@, key@));
            }
        }
        (i, false)
    }

    /// Whether a drive with this identifier is configured.
    pub fn contains_key(&self, key: &str) -> (r: bool)
        ensures
            r == self.map().contains_key(key@),
    {
        self.locate(key).1
    }

    /// The configuration of the drive with this identifier.
    pub fn get(&self, key: &str) -> (r: Option<&DriveConfig>)
        ensures
            r is Some <==> self.map().contains_key(key@),
            r matches Some(d) ==> d@ == self.map()[key@],
    {
        let (i, found) = self.locate(key);
        if found {
            Some(&self.entries[i].1)
        } else {
            None
        }
    }

    /// Stores `value` under `key`, returning what was stored there before.
    pub fn insert(&mut self, key: String, value: DriveConfig) -> (r: Option<DriveConfig>)
        ensures
            final(self).map() == old(self).map().insert(key@, value@),
            r is Some <==> old(self).map().contains_key(key@),
            r matches Some(p) ==> p@ == old(self).map()[key@],
    {
        proof {
            use_type_invariant(&*self);
            self.lemma_distinct();
            crate::store::lemma_entries_map_dom(self.entries@);
        }
        let (i, found) = self.locate(key.as_str());
        let ghost before = self.entries@;
        let ghost k = key@;
        let ghost v = value@;
        let mut entries = Vec::new();
        std::mem::swap(&mut entries, &mut self.entries);
        if found {
            let ghost prev_value = before[i as int].1@;
            let (_, prev) = entries.remove(i);
            entries.insert(i, (key, value));
            proof {
                assert(entries@ =~= before.update(i as int, entries@[i as int]));
                assert(entries@[i as int].0@ == k && entries@[i as int].1@ == v);
                assert(sorted_keys(entries@)) by {
                    assert forall|a: int, b: int| 0 <= a < b < entries@.len() implies text_less(
                        (#[trigger] entries@[a]).0@,
                        (#[trigger] entries@[b]).0@,
                    ) by {
                        assert(text_less(before[a].0@, before[b].0@));
                    }
                }
                lemma_entries_map_update(before, i as int, entries@[i as int]);
            }
            self.entries = entries;
            Some(prev)
        } else {
            entries.insert(i, (key, value));
            proof {
                assert(entries@.len() == before.len() + 1);
                assert(sorted_keys(entries@)) by {
                    assert forall|a: int, b: int| 0 <= a < b < entries@.len() implies text_less(
                        (#[trigger] entries@[a]).0@,
                        (#[trigger] entries@[b]).0@,
                    ) by {
                        if b < i {
                            assert(entries@[a] == before[a] && entries@[b] == before[b]);
                        } else if b == i {
                            assert(entries@[a] == before[a]);
                        } else if a < i {
                            assert(entries@[a] == before[a] && entries@[b] == before[b - 1]);
                            assert(text_less(before[a].0@, k));
                            assert(text_less(k, before[b - 1].0@));
                            lemma_text_less_transitive(before[a].0@, k, before[b - 1].0@);
                        } else if a == i {
                            assert(entries@[b] == before[b - 1]);
                        } else {
                            assert(entries@[a] == before[a - 1] && entries@[b] == before[b - 1]);
                        }
                    }
                }
                lemma_entries_map_insert_at(before, i as int, entries@[i as int]);
                assert(entries@ =~= before.insert(i as int, entries@[i as int]));
            }
            self.entries = entries;
            None
        }
    }

    /// Removes the drive with this identifier, returning its configuration.
    pub fn remove(&mut self, key: &str) -> (r: Option<DriveConfig>)
        ensures
            final(self).map() == old(self).map().remove(key@),
            r is Some <==> old(self).map().contains_key(key@),
            r matches Some(p) ==> p@ == old(self).map()[key@],
    {
        proof {
            use_type_invariant(&*self);
            self.lemma_distinct();
            crate::store::lemma_entries_map_dom(self.entries@);
        }
        let (i, found) = self.locate(key);
        if !found {
            proof {
                assert(old(self).map().remove(key@) =~= old(self).map());
            }
            return None;
        }
        let ghost before = self.entries@;
        let mut entries = Vec::new();
        std::mem::swap(&mut entries, &mut self.entries);
        let (_, prev) = entries.remove(i);
        proof {
            assert(entries@ =~= before.remove(i as int));
            assert(sorted_keys(entries@)) by {
                assert forall|a: int, b: int| 0 <= a < b < entries@.len() implies text_less(
                    (#[trigger] entries@[a]).0@,
                    (#[trigger] entries@[b]).0@,
                ) by {
                    if b < i {
                        assert(entries@[a] == before[a] && entries@[b] == before[b]);
                    } else if a < i {
                        assert(entries@[a] == before[a] && entries@[b] == before[b + 1]);
                    } else {
                        assert(entries@[a] == before[a + 1] && entries@[b] == before[b + 1]);
                    }
                }
            }
            lemma_entries_map_remove_at(before, i as int);
        }
        self.entries = entries;
        Some(prev)
    }

    /// Turns a configured drive on or off; returns whether it is configured.
    pub fn set_enabled(&mut self, key: &str, enabled: bool) -> (r: bool)
        ensures
            r == old(self).map().contains_key(key@),
            r ==> final(self).map() == old(self).map().insert(
                key@,
                DriveConfigView { enabled, ..old(self).map()[key@] },
            ),
            !r ==> final(self).map() == old(self).map(),
    {
        match self.get(key) {
            Some(d) => {
                let mut d2 = d.clone_config();
                d2.enabled = enabled;
                let k = String::from_str(key);
                self.insert(k, d2);
                true
            },
            None => false,
        }
    }

    /// The identifiers, in order.
    pub fn keys(&self) -> (r: Vec<String>)
        ensures
            crate::model::hashes_view(r@) == self.key_seq(),
            self.key_seq().no_duplicates(),
            self.key_seq().len() == self.map().dom().len(),
            self.map().dom().finite(),
            forall|k: Seq<char>| #[trigger] self.map().contains_key(k) <==> self.key_seq().contains(k),
            forall|i: int, j: int|
                0 <= i < j < self.key_seq().len() ==> text_less(
                    #[trigger] self.key_seq()[i],
                    #[trigger] self.key_seq()[j],
                ),
    {
        proof {
            use_type_invariant(self);
            self.lemma_distinct();
            crate::store::lemma_entries_map_dom(self.entries@);
            crate::store::lemma_entries_map_len(self.entries@);
            assert forall|k: Seq<char>| #[trigger] self.map().contains_key(k) <==> self.key_seq().contains(k) by {
                if self.map().contains_key(k) {
                    let i = choose|i: int| 0 <= i < self.entries@.len() && (#[trigger] self.entries@[i]).0@ == k;
                    assert(self.key_seq()[i] == k);
                }
                if self.key_seq().contains(k) {
                    let i = choose|i: int| 0 <= i < self.key_seq().len() && self.key_seq()[i] == k;
                    assert(self.entries@[i].0@ == k);
                }
            }
            assert forall|i: int, j: int|
                0 <= i < self.key_seq().len() && 0 <= j < self.key_seq().len() && i != j implies self.key_seq()[i]
                    != self.key_seq()[j] by {
                if i < j {
                    assert(self.entries@[i].0@ != self.entries@[j].0@);
                } else {
                    assert(self.entries@[j].0@ != self.entries@[i].0@);
                }
            }
            assert forall|i: int, j: int|
                0 <= i < j < self.key_seq().len() implies text_less(
                    #[trigger] self.key_seq()[i],
                    #[trigger] self.key_seq()[j],
                ) by {
                assert(text_less(self.entries@[i].0@, self.entries@[j].0@));
            }
        }
        let mut r: Vec<String> = Vec::new();
        let mut i: usize = 0;
        while i < self.entries.len()
            invariant
                0 <= i <= self.entries@.len(),
                r@.len() == i,
                forall|k: int| 0 <= k < i ==> (#[trigger] r@[k])@ == self.entries@[k].0@,
            decreases self.entries@.len() - i,
        {
            r.push(self.entries[i].0.clone());
            i = i + 1;
        }
        proof {
            assert(crate::model::hashes_view(r@) =~= self.key_seq());
        }
        r
    }
}

proof fn lemma_entries_map_update<V: View>(s: Seq<(String, V)>, i: int, x: (String, V))
    requires
        crate::store::keys_distinct(s),
        0 <= i < s.len(),
        x.0@ == s[i].0@,
    ensures
        crate::store::entries_map(s.update(i, x)) == crate::store::entries_map(s).insert(x.0@, x.1@),
    decreases s.len(),
{
    let t = s.update(i, x);
    if i == s.len() - 1 {
        assert(t.drop_last() =~= s.drop_last());
        assert(crate::store::entries_map(t) =~= crate::store::entries_map(s).insert(x.0@, x.1@));
    } else {
        let sd = s.drop_last();
        assert(crate::store::keys_distinct(sd)) by {
            assert forall|a: int, b: int| 0 <= a < b < sd.len() implies (#[trigger] sd[a]).0@ != (
            #[trigger] sd[b]).0@ by {
                assert(sd[a] == s[a] && sd[b] == s[b]);
            }
        }
        lemma_entries_map_update(sd, i, x);
        assert(t.drop_last() =~= sd.update(i, x));
        assert(s[i].0@ != s.last().0@);
        assert(crate::store::entries_map(t) =~= crate::store::entries_map(s).insert(x.0@, x.1@));
    }
}

proof fn lemma_entries_map_insert_at<V: View>(s: Seq<(String, V)>, i: int, x: (String, V))
    requires
        crate::store::keys_distinct(s),
        0 <= i <= s.len(),
        forall|k: int| 0 <= k < s.len() ==> (#[trigger] s[k]).0@ != x.0@,
    ensures
        crate::store::entries_map(s.insert(i, x)) == crate::store::entries_map(s).insert(x.0@, x.1@),
    decreases s.len(),
{
    let t = s.insert(i, x);
    if i == s.len() {
        assert(t =~= s.push(x));
        assert(t.drop_last() =~= s);
    } else {
        let sd = s.drop_last();
        assert(crate::store::keys_distinct(sd)) by {
            assert forall|a: int, b: int| 0 <= a < b < sd.len() implies (#[trigger] sd[a]).0@ != (
            #[trigger] sd[b]).0@ by {
                assert(sd[a] == s[a] && sd[b] == s[b]);
            }
        }
        lemma_entries_map_insert_at(sd, i, x);
        assert(t.drop_last() =~= sd.insert(i, x));
        assert(t.last() == s.last());
        assert(crate::store::entries_map(t) =~= crate::store::entries_map(s).insert(x.0@, x.1@));
    }
}

proof fn lemma_entries_map_remove_at<V: View>(s: Seq<(String, V)>, i: int)
    requires
        crate::store::keys_distinct(s),
        0 <= i < s.len(),
    ensures
        crate::store::entries_map(s.remove(i)) == crate::store::entries_map(s).remove(s[i].0@),
    decreases s.len(),
{
    let t = s.remove(i);
    if i == s.len() - 1 {
        assert(t =~= s.drop_last());
        crate::store::lemma_entries_map_dom(t);
        assert(!crate::store::entries_map(t).contains_key(s[i].0@)) by {
            if crate::store::entries_map(t).contains_key(s[i].0@) {
                let k = choose|k: int| 0 <= k < t.len() && (#[trigger] t[k]).0@ == s[i].0@;
                assert(t[k] == s[k]);
            }
        }
        assert(crate::store::entries_map(t) =~= crate::store::entries_map(s).remove(s[i].0@));
    } else {
        let sd = s.drop_last();
        assert(crate::store::keys_distinct(sd)) by {
            assert forall|a: int, b: int| 0 <= a < b < sd.len() implies (#[trigger] sd[a]).0@ != (
            #[trigger] sd[b]).0@ by {
                assert(sd[a] == s[a] && sd[b] == s[b]);
            }
        }
        lemma_entries_map_remove_at(sd, i);
        assert(t.drop_last() =~= sd.remove(i));
        assert(t.last() == s.last());
        assert(s[i].0@ != s.last().0@);
        assert(crate::store::entries_map(t) =~= crate::store::entries_map(s).remove(s[i].0@));
    }
}

impl DriveTable {
    /// An independent copy of this table.
    pub fn clone_table(&self) -> (r: DriveTable)
        ensures
            r.map() == self.map(),
    {
        let mut t = DriveTable::new();
        let keys = self.keys();
        let mut i: usize = 0;
        while i < keys.len()
            invariant
                0 <= i <= keys@.len(),
                crate::model::hashes_view(keys@) == self.key_seq(),
                forall|k: Seq<char>| #[trigger] self.map().contains_key(k) <==> self.key_seq().contains(k),
                forall|k: Seq<char>| #[trigger] t.map().contains_key(k) <==> self.key_seq().subrange(0, i as int).contains(k),
                forall|k: Seq<char>| #[trigger] t.map().contains_key(k) ==> t.map()[k] == self.map()[k],
            decreases keys@.len() - i,
        {
            let ghost ks = self.key_seq();
            proof {
                assert(ks[i as int] == keys@[i as int]@);
                assert(ks.contains(ks[i as int]));
            }
            let d = self.get(keys[i].as_str()).unwrap().clone_config();
            t.insert(keys[i].clone(), d);
            proof {
                let s0 = ks.subrange(0, i as int);
                let s1 = ks.subrange(0, i + 1);
                assert(s1 =~= s0.push(ks[i as int]));
                assert forall|k: Seq<char>| #[trigger] t.map().contains_key(k) <==> s1.contains(k) by {
                    if s0.contains(k) {
                        let j = choose|j: int| 0 <= j < s0.len() && s0[j] == k;
                        assert(s1[j] == k);
                    }
                    if s1.contains(k) && k != ks[i as int] {
                        let j = choose|j: int| 0 <= j < s1.len() && s1[j] == k;
                        assert(s0[j] == k);
                    }
                    if k == ks[i as int] {
                        assert(s1[i as int] == k);
                    }
                }
            }
            i = i + 1;
        }
        proof {
            assert(self.key_seq().subrange(0, i as int) =~= self.key_seq());
            assert(t.map() =~= self.map());
        }
        t
    }
}

impl DriveConfig {
    /// An independent copy of this configuration.
    pub fn clone_config(&self) -> (r: DriveConfig)
        ensures
            r@ == self@,
    {
        DriveConfig {
            path: self.path.clone(),
            token: self.token.clone(),
            store_url: match &self.store_url {
                Some(u) => Some(u.clone()),
                None => None,
            },
            enabled: self.enabled,
        }
    }
}

/// The whole configuration: daemon settings and drives.
#[derive(Debug)]
pub struct PhanerosConfig {
    pub daemon: DaemonSettings,
    pub drives: DriveTable,
}

impl Default for PhanerosConfig {
    /// Default daemon settings and one enabled drive, `default`, syncing
    /// `~/Documents/Phaneros`.
    fn default() -> (r: Self)
        ensures
            r.daemon.store_url@ == default_store_url_text(),
            r.daemon.log_level@ == default_log_level_text(),
            r.daemon.ipc_socket is None,
            r.daemon.max_concurrent_uploads == 4,
            r.daemon.compression@ == default_compression_text(),
            !r.daemon.enable_telemetry,
            r.drives.map() == Map::<Seq<char>, DriveConfigView>::empty().insert(
                "default"@,
                DriveConfigView {
                    path: default_drive_path_text(),
                    token: Seq::empty(),
                    store_url: None,
                    enabled: true,
                },
            ),
    {
        let mut drives = DriveTable::new();
        drives.insert(
            String::from_str("default"),
            DriveConfig {
                path: String::from_str("~/Documents/Phaneros"),
                token: String::new(),
                store_url: None,
                enabled: true,
            },
        );
        PhanerosConfig { daemon: DaemonSettings::default(), drives }
    }
}

/// Why the configuration could not be read or written.
#[derive(Debug, Clone)]
pub enum ConfigError {
    ConfigDirNotFound,
    ReadFileFailed { path: String, source: String },
    ParseFailed { path: String, source: String },
    SerializeFailed(String),
    WriteFileFailed { path: String, source: String },
}

pub open spec fn config_error_text(e: ConfigError) -> Seq<char> {
    match e {
        ConfigError::ConfigDirNotFound => "Failed to determine standard system configuration directory"@,
        ConfigError::ReadFileFailed { path, source } => "Failed to read configuration file at "@ + path@ + ": "@
            + source@,
        ConfigError::ParseFailed { path, source } => "Failed to parse TOML configuration at "@ + path@ + ": "@
            + source@,
        ConfigError::SerializeFailed(m) => "Failed to serialize configuration to TOML: "@ + m@,
        ConfigError::WriteFileFailed { path, source } => "Failed to write configuration file at "@ + path@
            + ": "@ + source@,
    }
}

impl ConfigError {
    /// The error as text.
    pub fn message(&self) -> (r: String)
        ensures
            r@ == config_error_text(*self),
    {
        match self {
            ConfigError::ConfigDirNotFound => String::from_str(
                "Failed to determine standard system configuration directory",
            ),
            ConfigError::ReadFileFailed { path, source } => {
                let mut r = String::from_str("Failed to read configuration file at ");
                push_str(&mut r, path.as_str());
                push_str(&mut r, ": ");
                push_str(&mut r, source.as_str());
                r
            },
            ConfigError::ParseFailed { path, source } => {
                let mut r = String::from_str("Failed to parse TOML configuration at ");
                push_str(&mut r, path.as_str());
                push_str(&mut r, ": ");
                push_str(&mut r, source.as_str());
                r
            },
            ConfigError::SerializeFailed(m) => {
                let mut r = String::from_str("Failed to serialize configuration to TOML: ");
                push_str(&mut r, m.as_str());
                r
            },
            ConfigError::WriteFileFailed { path, source } => {
                let mut r = String::from_str("Failed to write configuration file at ");
                push_str(&mut r, path.as_str());
                push_str(&mut r, ": ");
                push_str(&mut r, source.as_str());
                r
            },
        }
    }
}

/// `dirs::config_dir`: the user's configuration directory, if the
/// platform has one; nothing is promised of its value.
#[verifier::external_body]
fn config_dir() -> (r: Option<String>) {
    dirs::config_dir().map(|p| p.to_string_lossy().to_string())
}

/// The configuration file in a configuration directory:
/// `phaneros/config.toml`.
pub open spec fn config_path_text(dir: Seq<char>) -> Seq<char> {
    join_text(join_text(dir, "phaneros"@), "config.toml"@)
}

/// What was found at the configuration path.
pub enum ConfigSource {
    /// No file is there.
    Missing,
    /// The file was read and parsed.
    Loaded(PhanerosConfig),
    /// The file could not be read or parsed.
    Failed(ConfigError),
}

impl PhanerosConfig {
    /// The usual configuration file, in the user's configuration directory.
    pub fn default_config_path() -> (r: Option<String>)
        ensures
            r matches Some(p) ==> exists|d: Seq<char>| p@ == config_path_text(d),
    {
        match config_dir() {
            Some(d) => {
                let a = join_path(d.as_str(), "phaneros");
                let p = join_path(a.as_str(), "config.toml");
                proof {
                    assert(p@ == config_path_text(d@));
                }
                Some(p)
            },
            None => None,
        }
    }

    /// The file to use: the one given, else the usual one; an error when
    /// there is neither.
    pub fn resolve_config_path(custom_path: Option<String>, default_path: Option<String>) -> (r: Result<
        String,
        ConfigError,
    >)
        ensures
            custom_path matches Some(p) ==> r == Ok::<String, ConfigError>(p),
            custom_path is None ==> match default_path {
                Some(d) => r == Ok::<String, ConfigError>(d),
                None => r matches Err(ConfigError::ConfigDirNotFound),
            },
    {
        match custom_path {
            Some(p) => Ok(p),
            None => match default_path {
                Some(d) => Ok(d),
                None => Err(ConfigError::ConfigDirNotFound),
            },
        }
    }

    /// The configuration at `target_path`: what was loaded from it, the
    /// default one when no file is there, or the error that reading gave;
    /// with the path it belongs to.
    pub fn load_or_default(target_path: String, found: ConfigSource) -> (r: Result<(PhanerosConfig, String), ConfigError>)
        ensures
            found is Missing ==> (r matches Ok((c, p)) && p == target_path && c.drives.map() == default_drives()
                && c.daemon.store_url@ == default_store_url_text() && c.daemon.log_level@ == default_log_level_text()
                && c.daemon.ipc_socket is None && c.daemon.max_concurrent_uploads == 4
                && c.daemon.compression@ == default_compression_text() && !c.daemon.enable_telemetry),
            found matches ConfigSource::Loaded(l) ==> (r matches Ok((c, p)) && p == target_path && c == l),
            found matches ConfigSource::Failed(e) ==> r == Err::<(PhanerosConfig, String), ConfigError>(e),
    {
        match found {
            ConfigSource::Missing => Ok((PhanerosConfig::default(), target_path)),
            ConfigSource::Loaded(c) => Ok((c, target_path)),
            ConfigSource::Failed(e) => Err(e),
        }
    }
}

/// The drives of the default configuration: one enabled drive, `default`,
/// syncing `~/Documents/Phaneros`.
pub open spec fn default_drives() -> Map<Seq<char>, DriveConfigView> {
    Map::<Seq<char>, DriveConfigView>::empty().insert(
        "default"@,
        DriveConfigView { path: default_drive_path_text(), token: Seq::empty(), store_url: None, enabled: true },
    )
}

} // verus!
