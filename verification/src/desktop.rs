//! What the desktop app shows: sizes and times in short form, the summary
//! of a sync session, the state of a vault, and the conflicts that a merge
//! left on disk (`name.conflict` beside a modified file, `name.conflict-delete`
//! for a file that one side deleted and the other edited, each with an
//! optional `.N` after it).
use vstd::prelude::*;

use crate::clock::epoch_seconds;
use crate::config::{lemma_text_less_irreflexive, lemma_text_less_total, lemma_text_less_transitive, text_less, text_order};
use crate::digest::{blake3_digest, blake3_hex, hex_text};
use crate::remote_listener::{all_digits, is_ascii_digit};
use crate::telemetry::{DriveStatus, SyncSummary};
use crate::text::{chars_of, push_char, push_str, string_from_range};
use crate::units::{fixed_text, nat_text, push_decimal, push_fixed};

verus! {

// ---------------------------------------------------------------------
// Sizes and times

pub open spec fn kib() -> nat {
    1024
}

/// A byte count in B, KB, MB or GB (powers of 1024), one decimal past
/// bytes.
pub open spec fn short_bytes_text(b: nat) -> Seq<char> {
    if b >= kib() * kib() * kib() {
        fixed_text(b, kib() * kib() * kib(), 1) + " GB"@
    } else if b >= kib() * kib() {
        fixed_text(b, kib() * kib(), 1) + " MB"@
    } else if b >= kib() {
        fixed_text(b, kib(), 1) + " KB"@
    } else {
        nat_text(b) + " B"@
    }
}

/// A byte count in short form, such as `4.2 MB`.
pub fn format_bytes(bytes: u64) -> (r: String)
    ensures
        r@ == short_bytes_text(bytes as nat),
{
    let kb: u128 = 1024;
    let mb: u128 = 1024 * kb;
    let gb: u128 = 1024 * mb;
    let b = bytes as u128;
    let mut r = String::new();
    if b >= gb {
        push_fixed(&mut r, b, gb, 1);
        push_str(&mut r, " GB");
    } else if b >= mb {
        push_fixed(&mut r, b, mb, 1);
        push_str(&mut r, " MB");
    } else if b >= kb {
        push_fixed(&mut r, b, kb, 1);
        push_str(&mut r, " KB");
    } else {
        push_decimal(&mut r, b);
        push_str(&mut r, " B");
    }
    proof {
        assert(r@ =~= short_bytes_text(bytes as nat));
    }
    r
}

/// How long ago `epoch_sec` was at `now`: `Never` without a time, then
/// `just now`, minutes, hours or days (whole units, rounded down).
pub open spec fn relative_time_text(epoch_sec: Option<u64>, now: u64) -> Seq<char> {
    match epoch_sec {
        None => "Never"@,
        Some(ts) => {
            let elapsed: nat = if now >= ts {
                (now - ts) as nat
            } else {
                0
            };
            if elapsed < 60 {
                "just now"@
            } else if elapsed < 3600 {
                nat_text(elapsed / 60) + "m ago"@
            } else if elapsed < 86400 {
                nat_text(elapsed / 3600) + "h ago"@
            } else {
                nat_text(elapsed / 86400) + "d ago"@
            }
        },
    }
}

/// How long ago a time was, seen at `now` (seconds since the Unix epoch).
pub fn relative_time_at(epoch_sec: Option<u64>, now: u64) -> (r: String)
    ensures
        r@ == relative_time_text(epoch_sec, now),
{
    match epoch_sec {
        None => String::from_str("Never"),
        Some(ts) => {
            let elapsed = now.saturating_sub(ts);
            if elapsed < 60 {
                String::from_str("just now")
            } else {
                let mut r = String::new();
                if elapsed < 3600 {
                    push_decimal(&mut r, (elapsed / 60) as u128);
                    push_str(&mut r, "m ago");
                } else if elapsed < 86400 {
                    push_decimal(&mut r, (elapsed / 3600) as u128);
                    push_str(&mut r, "h ago");
                } else {
                    push_decimal(&mut r, (elapsed / 86400) as u128);
                    push_str(&mut r, "d ago");
                }
                proof {
                    assert(r@ =~= relative_time_text(epoch_sec, now));
                }
                r
            }
        },
    }
}

/// How long ago a time was, now.
pub fn format_relative_time(epoch_sec: Option<u64>) -> (r: String)
    ensures
        exists|now: u64| r@ == relative_time_text(epoch_sec, now),
{
    let now = epoch_seconds();
    relative_time_at(epoch_sec, now)
}

/// The summary of a session: the bytes synced, and when compression and
/// deduplication sent fewer bytes, what went over the wire and how much
/// smaller that was, in whole percent (rounded ties to even).
pub open spec fn activity_text(raw: nat, wire: nat) -> Seq<char> {
    if wire == 0 || wire >= raw {
        "Synced "@ + short_bytes_text(raw)
    } else {
        "Synced "@ + short_bytes_text(raw) + " \u{2192} "@ + short_bytes_text(wire) + " ("@ + fixed_text(
            ((raw - wire) * 100) as nat,
            raw,
            0,
        ) + "% smaller)"@
    }
}

/// A one-line summary of a finished sync session.
pub fn format_activity_summary(summary: &SyncSummary) -> (r: String)
    ensures
        r@ == activity_text(
            summary.compression.total_raw_bytes as nat,
            summary.transfer.wire_bytes_sent as nat,
        ),
{
    let raw_bytes = summary.compression.total_raw_bytes;
    let wire_bytes = summary.transfer.wire_bytes_sent;
    let mut r = String::from_str("Synced ");
    let raw_text = format_bytes(raw_bytes);
    push_str(&mut r, raw_text.as_str());
    if wire_bytes == 0 || wire_bytes >= raw_bytes {
        return r;
    }
    push_str(&mut r, " \u{2192} ");
    let wire_text = format_bytes(wire_bytes);
    push_str(&mut r, wire_text.as_str());
    push_str(&mut r, " (");
    push_fixed(&mut r, ((raw_bytes - wire_bytes) as u128) * 100, raw_bytes as u128, 0);
    push_str(&mut r, "% smaller)");
    proof {
        assert(r@ =~= activity_text(raw_bytes as nat, wire_bytes as nat));
    }
    r
}

/// How much deduplication shrank the data: the raw bytes over the bytes
/// left after it (at least 1), two decimals, then `×`.
pub open spec fn dedup_ratio_text(raw: nat, dedup: nat) -> Seq<char> {
    let left: nat = if raw > dedup {
        (raw - dedup) as nat
    } else {
        1
    };
    fixed_text(raw, left, 2) + "\u{d7}"@
}

/// The deduplication ratio as shown in the telemetry panel.
pub fn format_dedup_ratio(raw_bytes: u64, dedup_bytes: u64) -> (r: String)
    ensures
        r@ == dedup_ratio_text(raw_bytes as nat, dedup_bytes as nat),
{
    let left = raw_bytes.saturating_sub(dedup_bytes);
    let denominator = if left < 1 {
        1
    } else {
        left
    };
    let mut r = String::new();
    push_fixed(&mut r, raw_bytes as u128, denominator as u128, 2);
    push_str(&mut r, "\u{d7}");
    proof {
        assert(r@ =~= dedup_ratio_text(raw_bytes as nat, dedup_bytes as nat));
    }
    r
}

// ---------------------------------------------------------------------
// Vaults

/// A vault as the app lists it.
#[derive(Debug, Clone)]
pub struct DriveVaultDto {
    pub id: String,
    pub name: String,
    pub path: String,
    pub status: String,
    pub used_bytes: Option<u64>,
    pub quota_bytes: Option<u64>,
    pub file_count: Option<u64>,
}

/// The telemetry panel's figures.
#[derive(Debug, Clone)]
pub struct TelemetryMetricsDto {
    pub last_synced: String,
    pub deduplication_ratio: String,
    pub compression_ratio: String,
    pub transfer_speed: String,
}

/// The vault state that a drive status shows as.
pub open spec fn vault_status_text(s: DriveStatus) -> Seq<char> {
    match s {
        DriveStatus::Idle => "synced"@,
        DriveStatus::Reconciling => "syncing"@,
        DriveStatus::Materializing => "syncing"@,
        DriveStatus::Stopped => "paused"@,
        DriveStatus::Error(_) => "conflict"@,
    }
}

/// The vault state of a drive: an engine in error shows as needing
/// attention, as a conflict does.
pub fn map_status(status: &DriveStatus) -> (r: &'static str)
    ensures
        r@ == vault_status_text(*status),
{
    match status {
        DriveStatus::Idle => "synced",
        DriveStatus::Reconciling => "syncing",
        DriveStatus::Materializing => "syncing",
        DriveStatus::Stopped => "paused",
        DriveStatus::Error(_) => "conflict",
    }
}

/// A vault entry for a drive, with the size and file count of its folder.
pub fn vault_dto(drive_id: String, path: String, status: &DriveStatus, used_bytes: u64, file_count: u64) -> (r:
    DriveVaultDto)
    ensures
        r.id == drive_id,
        r.name@ == drive_id@,
        r.path == path,
        r.status@ == vault_status_text(*status),
        r.used_bytes == Some(used_bytes),
        r.quota_bytes is None,
        r.file_count == Some(file_count),
{
    DriveVaultDto {
        name: drive_id.clone(),
        status: String::from_str(map_status(status)),
        id: drive_id,
        path,
        used_bytes: Some(used_bytes),
        quota_bytes: None,
        file_count: Some(file_count),
    }
}

/// The telemetry figures, seen at `now`; the compression ratio comes
/// already written.
pub fn telemetry_dto(
    last_sync: Option<u64>,
    raw_bytes: u64,
    dedup_bytes: u64,
    compression_ratio: String,
    avg_rate_bps: u64,
    now: u64,
) -> (r: TelemetryMetricsDto)
    ensures
        r.last_synced@ == relative_time_text(last_sync, now),
        r.deduplication_ratio@ == dedup_ratio_text(raw_bytes as nat, dedup_bytes as nat),
        r.compression_ratio == compression_ratio,
        r.transfer_speed@ == short_bytes_text(avg_rate_bps as nat) + "/s"@,
{
    let mut speed = format_bytes(avg_rate_bps);
    push_str(&mut speed, "/s");
    TelemetryMetricsDto {
        last_synced: relative_time_at(last_sync, now),
        deduplication_ratio: format_dedup_ratio(raw_bytes, dedup_bytes),
        compression_ratio,
        transfer_speed: speed,
    }
}

// ---------------------------------------------------------------------
// Files

/// An entry of a vault's file tree.
#[derive(Debug)]
pub struct FileNodeDto {
    pub id: String,
    pub name: String,
    pub ext: String,
    pub is_dir: bool,
    pub size: Option<String>,
    pub modified: Option<String>,
    pub children: Option<Vec<FileNodeDto>>,
    pub badge: Option<String>,
}

/// `p` is the position of the last dot of `s`.
pub open spec fn last_dot_at(s: Seq<char>, p: int) -> bool {
    &&& 0 <= p < s.len()
    &&& s[p] == '.'
    &&& forall|j: int| p < j < s.len() ==> s[j] != '.'
}

/// A file name split into stem and extension at its last dot, when the
/// stem is not empty; a folder, or a name without such a dot, has no
/// extension.
pub open spec fn name_ext(s: Seq<char>, is_dir: bool) -> (Seq<char>, Seq<char>) {
    if !is_dir && exists|p: int| last_dot_at(s, p) && p > 0 {
        let p = choose|p: int| last_dot_at(s, p);
        (s.subrange(0, p), s.subrange(p + 1, s.len() as int))
    } else {
        (s, Seq::empty())
    }
}

proof fn lemma_last_dot_unique(s: Seq<char>, p: int, q: int)
    requires
        last_dot_at(s, p),
        last_dot_at(s, q),
    ensures
        p == q,
{
    if p < q {
        assert(s[q] != '.');
    } else if q < p {
        assert(s[p] != '.');
    }
}

/// Splits a file name into stem and extension.
pub fn split_name_ext(file_name: &str, is_dir: bool) -> (r: (String, String))
    ensures
        (r.0@, r.1@) == name_ext(file_name@, is_dir),
{
    let v = chars_of(file_name);
    if is_dir {
        return (string_from_range(&v, 0, v.len()), String::new());
    }
    let mut i = v.len();
    while i > 0 && v[i - 1] != '.'
        invariant
            i <= v.len(),
            forall|j: int| i <= j < v.len() ==> v@[j] != '.',
        decreases i,
    {
        i = i - 1;
    }
    if i == 0 {
        proof {
            assert(!exists|p: int| last_dot_at(file_name@, p) && p > 0) by {
                if exists|p: int| last_dot_at(file_name@, p) && p > 0 {
                    let p = choose|p: int| last_dot_at(file_name@, p) && p > 0;
                    assert(file_name@[p] != '.');
                }
            }
        }
        return (string_from_range(&v, 0, v.len()), String::new());
    }
    let p = i - 1;
    proof {
        assert(last_dot_at(file_name@, p as int));
        assert forall|q: int| last_dot_at(file_name@, q) implies q == p by {
            lemma_last_dot_unique(file_name@, p as int, q);
        }
    }
    if p == 0 {
        proof {
            assert(!exists|q: int| last_dot_at(file_name@, q) && q > 0);
        }
        return (string_from_range(&v, 0, v.len()), String::new());
    }
    (string_from_range(&v, 0, p), string_from_range(&v, p + 1, v.len()))
}

/// `str::to_uppercase` (Unicode upper case) of a text.
pub uninterp spec fn upper_case(s: Seq<char>) -> Seq<char>;

/// `str::to_uppercase`: the text in Unicode upper case.
#[verifier::external_body]
fn to_upper(s: &str) -> (r: String)
    ensures
        r@ == upper_case(s@),
{
    s.to_uppercase()
}

/// An entry of the file tree, for a file or folder named `file_name` at
/// `path`, seen at `now`: hidden names (those starting with a dot) are
/// left out; a file shows its size and its extension as a badge, a folder
/// its children.
pub fn file_node(
    path: String,
    file_name: &str,
    is_dir: bool,
    len: u64,
    modified_secs: Option<u64>,
    now: u64,
    children: Vec<FileNodeDto>,
) -> (r: Option<FileNodeDto>)
    ensures
        r is None <==> file_name@.len() > 0 && file_name@[0] == '.',
        r matches Some(n) ==> {
            &&& n.id == path
            &&& (n.name@, n.ext@) == name_ext(file_name@, is_dir)
            &&& n.is_dir == is_dir
            &&& (n.badge is Some <==> !is_dir)
            &&& (n.badge matches Some(b) ==> b@ == upper_case(n.ext@))
            &&& (n.size is Some <==> !is_dir)
            &&& (n.size matches Some(sz) ==> sz@ == short_bytes_text(len as nat))
            &&& (n.modified is Some <==> modified_secs is Some)
            &&& (n.modified matches Some(m) ==> m@ == relative_time_text(modified_secs, now))
            &&& (n.children is Some <==> is_dir)
            &&& (n.children matches Some(c) ==> c == children)
        },
{
    let n = file_name.unicode_len();
    if n > 0 && file_name.get_char(0) == '.' {
        return None;
    }
    let (name, ext) = split_name_ext(file_name, is_dir);
    let modified = match modified_secs {
        Some(s) => Some(relative_time_at(Some(s), now)),
        None => None,
    };
    Some(
        FileNodeDto {
            id: path,
            badge: if is_dir {
                None
            } else {
                Some(to_upper(ext.as_str()))
            },
            name,
            ext,
            is_dir,
            size: if is_dir {
                None
            } else {
                Some(format_bytes(len))
            },
            modified,
            children: if is_dir {
                Some(children)
            } else {
                None
            },
        },
    )
}

/// `str::to_lowercase`: the text in Unicode lower case.
pub uninterp spec fn lower_case(s: Seq<char>) -> Seq<char>;

/// `str::to_lowercase`.
#[verifier::external_body]
fn to_lower(s: &str) -> (r: String)
    ensures
        r@ == lower_case(s@),
{
    s.to_lowercase()
}

/// What a listing sorts an entry by: whether it is a folder, and its name
/// in lower case.
pub open spec fn listing_key(n: FileNodeDto) -> (bool, Seq<char>) {
    (n.is_dir, lower_case(n.name@))
}

/// Key `a` comes strictly before key `b`: folders before files, then names
/// in character order.
pub open spec fn key_before(a: (bool, Seq<char>), b: (bool, Seq<char>)) -> bool {
    (a.0 && !b.0) || (a.0 == b.0 && text_less(a.1, b.1))
}

proof fn lemma_key_order(a: (bool, Seq<char>), b: (bool, Seq<char>), c: (bool, Seq<char>))
    ensures
        !key_before(a, a),
        a == b || key_before(a, b) || key_before(b, a),
        key_before(a, b) && key_before(b, c) ==> key_before(a, c),
{
    lemma_text_less_irreflexive(a.1);
    lemma_text_less_total(a.1, b.1);
    if key_before(a, b) && key_before(b, c) && a.0 == b.0 && b.0 == c.0 {
        lemma_text_less_transitive(a.1, b.1, c.1);
    }
}

/// `order` picks entries of `s` below `n`, each once, sorted by key, and
/// entries with the same key in the order they come in `s`.
pub open spec fn sorted_picks(s: Seq<FileNodeDto>, order: Seq<int>, n: int) -> bool {
    &&& forall|i: int| 0 <= i < order.len() ==> 0 <= #[trigger] order[i] < n
    &&& forall|i: int, j: int| 0 <= i < j < order.len() ==> order[i] != order[j]
    &&& forall|i: int, j: int|
        0 <= i < j < order.len() ==> !key_before(listing_key(s[order[j]]), listing_key(s[order[i]]))
    &&& forall|i: int, j: int|
        0 <= i < j < order.len() && listing_key(s[order[i]]) == listing_key(s[order[j]]) ==> order[i] < order[j]
}

/// `order` lists every position of `s` once, in the order the listing
/// shows them: folders first, then by name in lower case, ties kept in the
/// order they came.
pub open spec fn listing_order(s: Seq<FileNodeDto>, order: Seq<int>) -> bool {
    order.len() == s.len() && sorted_picks(s, order, s.len() as int)
}

proof fn lemma_insert_pick(s: Seq<FileNodeDto>, order: Seq<int>, k: int, p: int)
    requires
        sorted_picks(s, order, k),
        0 <= k < s.len(),
        0 <= p <= order.len(),
        forall|q: int| 0 <= q < p ==> !key_before(listing_key(s[k]), #[trigger] listing_key(s[order[q]])),
        p < order.len() ==> key_before(listing_key(s[k]), listing_key(s[order[p]])),
    ensures
        sorted_picks(s, order.insert(p, k), k + 1),
{
    let o2 = order.insert(p, k);
    let xk = listing_key(s[k]);
    assert forall|i: int, j: int| 0 <= i < j < o2.len() implies !key_before(
        listing_key(s[o2[j]]),
        listing_key(s[o2[i]]),
    ) by {
        if j == p {
            assert(o2[i] == order[i]);
        } else if i == p {
            let b = listing_key(s[order[j - 1]]);
            let a = listing_key(s[order[p]]);
            if j - 1 > p {
                assert(!key_before(b, a));
                lemma_key_order(a, b, b);
                lemma_key_order(xk, a, b);
            }
            lemma_key_order(b, xk, a);
            lemma_key_order(xk, b, b);
        } else {
            let i0 = if i < p { i } else { i - 1 };
            let j0 = if j < p { j } else { j - 1 };
            assert(o2[i] == order[i0] && o2[j] == order[j0]);
        }
    }
    assert forall|i: int, j: int|
        0 <= i < j < o2.len() && listing_key(s[o2[i]]) == listing_key(s[o2[j]]) implies o2[i] < o2[j] by {
        if j == p {
            assert(o2[i] == order[i]);
        } else if i == p {
            let a = listing_key(s[order[p]]);
            let b = listing_key(s[order[j - 1]]);
            if j - 1 > p {
                assert(!key_before(b, a));
                lemma_key_order(a, b, b);
            }
            lemma_key_order(xk, xk, xk);
        } else {
            let i0 = if i < p { i } else { i - 1 };
            let j0 = if j < p { j } else { j - 1 };
            assert(o2[i] == order[i0] && o2[j] == order[j0]);
        }
    }
    assert forall|i: int, j: int| 0 <= i < j < o2.len() implies o2[i] != o2[j] by {
        if i != p && j != p {
            let i0 = if i < p { i } else { i - 1 };
            let j0 = if j < p { j } else { j - 1 };
            assert(o2[i] == order[i0] && o2[j] == order[j0]);
        } else if i == p {
            assert(o2[j] == order[j - 1]);
        } else {
            assert(o2[i] == order[i]);
        }
    }
    assert forall|i: int| 0 <= i < o2.len() implies 0 <= #[trigger] o2[i] < k + 1 by {
        if i < p {
            assert(o2[i] == order[i]);
        } else if i > p {
            assert(o2[i] == order[i - 1]);
        }
    }
}

/// Key `(ad, an)` comes strictly before key `(bd, bn)`.
fn key_precedes(ad: bool, an: &String, bd: bool, bn: &String) -> (r: bool)
    ensures
        r == key_before((ad, an@), (bd, bn@)),
{
    if ad && !bd {
        true
    } else if ad == bd {
        text_order(an.as_str(), bn.as_str()) < 0
    } else {
        false
    }
}

/// Sorts the entries of a folder for display: folders first, then by name
/// in lower case; entries with the same key keep their order.
pub fn sort_listing(nodes: Vec<FileNodeDto>) -> (r: Vec<FileNodeDto>)
    ensures
        exists|order: Seq<int>|
            listing_order(nodes@, order) && r@ == Seq::new(order.len(), |i: int| nodes@[order[i]]),
{
    let ghost orig = nodes@;
    let n = nodes.len();
    let mut rest = nodes;
    let mut sorted: Vec<FileNodeDto> = Vec::new();
    let mut keys: Vec<(bool, String)> = Vec::new();
    let ghost mut order: Seq<int> = Seq::empty();
    let mut k: usize = 0;
    while rest.len() > 0
        invariant
            k + rest@.len() == orig.len(),
            orig.len() == n,
            rest@ == orig.subrange(k as int, orig.len() as int),
            sorted@.len() == order.len() == keys@.len() == k,
            sorted_picks(orig, order, k as int),
            forall|i: int| 0 <= i < k ==> #[trigger] sorted@[i] == orig[order[i]],
            forall|i: int| 0 <= i < k ==> (#[trigger] keys@[i]).0 == sorted@[i].is_dir && keys@[i].1@ == lower_case(
                sorted@[i].name@,
            ),
        decreases rest@.len(),
    {
        let x = rest.remove(0);
        proof {
            assert(x == orig[k as int]);
            assert(rest@ =~= orig.subrange(k + 1, orig.len() as int));
        }
        let xd = x.is_dir;
        let xn = to_lower(x.name.as_str());
        let mut p: usize = 0;
        while p < keys.len() && !key_precedes(xd, &xn, keys[p].0, &keys[p].1)
            invariant
                p <= keys@.len() == sorted@.len() == order.len() == k,
                forall|i: int| 0 <= i < k ==> #[trigger] sorted@[i] == orig[order[i]],
                forall|i: int| 0 <= i < k ==> (#[trigger] keys@[i]).0 == sorted@[i].is_dir && keys@[i].1@
                    == lower_case(sorted@[i].name@),
                forall|q: int| 0 <= q < p ==> !key_before((xd, xn@), #[trigger] listing_key(orig[order[q]])),
            decreases k - p,
        {
            proof {
                assert(keys@[p as int].0 == sorted@[p as int].is_dir);
            }
            p = p + 1;
        }
        proof {
            if p < k {
                assert(keys@[p as int].0 == sorted@[p as int].is_dir);
            }
            lemma_insert_pick(orig, order, k as int, p as int);
        }
        let ghost pre_sorted = sorted@;
        let ghost pre_keys = keys@;
        sorted.insert(p, x);
        keys.insert(p, (xd, xn));
        proof {
            let o2 = order.insert(p as int, k as int);
            assert forall|i: int| 0 <= i < k + 1 implies #[trigger] sorted@[i] == orig[o2[i]] by {
                if i < p {
                    assert(sorted@[i] == pre_sorted[i]);
                } else if i > p {
                    assert(sorted@[i] == pre_sorted[i - 1]);
                }
            }
            assert forall|i: int| 0 <= i < k + 1 implies (#[trigger] keys@[i]).0 == sorted@[i].is_dir
                && keys@[i].1@ == lower_case(sorted@[i].name@) by {
                if i < p {
                    assert(keys@[i] == pre_keys[i] && sorted@[i] == pre_sorted[i]);
                } else if i > p {
                    assert(keys@[i] == pre_keys[i - 1] && sorted@[i] == pre_sorted[i - 1]);
                }
            }
            order = o2;
        }
        k = k + 1;
    }
    proof {
        assert(sorted@ =~= Seq::new(order.len(), |i: int| orig[order[i]]));
        assert(listing_order(orig, order));
    }
    sorted
}

// ---------------------------------------------------------------------
// Conflicts

/// A conflict as the app lists it.
#[derive(Debug, Clone)]
pub struct ConflictSummaryDto {
    pub id: String,
    pub filename: String,
    pub is_binary: bool,
    pub conflict_kind: String,
}

/// One line of a text diff: `same`, `delete` or `add`.
#[derive(Debug, Clone)]
pub struct CodeDiffLineDto {
    pub kind: &'static str,
    pub text: String,
}

#[derive(Debug, Clone)]
pub struct CodeDiffChunkDto {
    pub old_start: u32,
    pub new_start: u32,
    pub lines: Vec<CodeDiffLineDto>,
}

#[derive(Debug, Clone)]
pub struct CodeDiffDto {
    pub filename: String,
    pub path: String,
    pub lines_added: u32,
    pub lines_removed: u32,
    pub chunks: Vec<CodeDiffChunkDto>,
}

/// One side of a binary conflict.
#[derive(Debug, Clone)]
pub struct FileSideDto {
    pub size: String,
    pub modified: String,
    pub hash: String,
}

#[derive(Debug, Clone)]
pub struct BinaryMetadataDiffDto {
    pub filename: String,
    pub path: String,
    pub is_binary: bool,
    pub local: FileSideDto,
    pub store: FileSideDto,
    pub recommended_action: &'static str,
}

/// What the app shows of a conflict.
#[derive(Debug, Clone)]
pub enum ConflictDiffDto {
    Text { diff: CodeDiffDto },
    Binary { diff: BinaryMetadataDiffDto },
}

pub open spec fn modify_marker() -> Seq<char> {
    ".conflict"@
}

pub open spec fn delete_marker() -> Seq<char> {
    ".conflict-delete"@
}

/// `m` occurs in `s` at `i`.
pub open spec fn occurs_at(s: Seq<char>, m: Seq<char>, i: int) -> bool {
    0 <= i && i + m.len() <= s.len() && s.subrange(i, i + m.len()) == m
}

/// `i` is where `m` last occurs in `s`.
pub open spec fn last_occurrence_at(s: Seq<char>, m: Seq<char>, i: int) -> bool {
    occurs_at(s, m, i) && forall|j: int| i < j ==> !occurs_at(s, m, j)
}

/// What may follow a marker: nothing, or a dot and a number.
pub open spec fn valid_tail(t: Seq<char>) -> bool {
    t.len() == 0 || (t[0] == '.' && t.len() > 1 && all_digits(t.drop_first()))
}

/// The name before the last occurrence of `m`, when what follows that
/// occurrence is a valid tail.
pub open spec fn before_marker(s: Seq<char>, m: Seq<char>) -> Option<Seq<char>> {
    if exists|i: int| last_occurrence_at(s, m, i) {
        let i = choose|i: int| last_occurrence_at(s, m, i);
        if valid_tail(s.subrange(i + m.len(), s.len() as int)) {
            Some(s.subrange(0, i))
        } else {
            None
        }
    } else {
        None
    }
}

/// The original name of a conflict file and whether it records a deletion;
/// `None` for a file that is no conflict file.
pub open spec fn conflict_original(s: Seq<char>) -> Option<(Seq<char>, bool)> {
    match before_marker(s, delete_marker()) {
        Some(b) => Some((b, true)),
        None => match before_marker(s, modify_marker()) {
            Some(b) => Some((b, false)),
            None => None,
        },
    }
}

proof fn lemma_last_occurrence_unique(s: Seq<char>, m: Seq<char>, i: int, j: int)
    requires
        last_occurrence_at(s, m, i),
        last_occurrence_at(s, m, j),
    ensures
        i == j,
{
}

fn matches_at(v: &Vec<char>, m: &Vec<char>, i: usize) -> (r: bool)
    requires
        i + m.len() <= v.len(),
    ensures
        r == occurs_at(v@, m@, i as int),
{
    let mut k: usize = 0;
    while k < m.len()
        invariant
            i + m.len() <= v.len(),
            0 <= k <= m.len(),
            forall|j: int| 0 <= j < k ==> v@[i + j] == m@[j],
        decreases m.len() - k,
    {
        if v[i + k] != m[k] {
            proof {
                assert(v@.subrange(i as int, i + m@.len())[k as int] != m@[k as int]);
            }
            return false;
        }
        k = k + 1;
    }
    proof {
        assert(v@.subrange(i as int, i + m@.len()) =~= m@);
    }
    true
}

fn strip_marker(v: &Vec<char>, marker: &str) -> (r: Option<String>)
    ensures
        match r {
            Some(b) => before_marker(v@, marker@) == Some(b@),
            None => before_marker(v@, marker@) is None,
        },
{
    let m = chars_of(marker);
    if m.len() > v.len() {
        proof {
            assert forall|i: int| !last_occurrence_at(v@, marker@, i) by {}
        }
        return None;
    }
    let top = v.len() - m.len();
    let mut i = top;
    let mut found = matches_at(v, &m, i);
    while !found && i > 0
        invariant
            m@ == marker@,
            m.len() <= v.len(),
            top == v.len() - m.len(),
            i <= top,
            forall|j: int| i < j ==> !occurs_at(v@, m@, j),
            found == occurs_at(v@, m@, i as int),
        decreases i,
    {
        i = i - 1;
        found = matches_at(v, &m, i);
    }
    if !found {
        proof {
            assert forall|j: int| !last_occurrence_at(v@, marker@, j) by {
                if j >= 0 {
                    assert(!occurs_at(v@, m@, j));
                }
            }
        }
        return None;
    }
    let at = i;
    proof {
        assert(last_occurrence_at(v@, marker@, at as int));
        assert forall|j: int| last_occurrence_at(v@, marker@, j) implies j == at by {
            lemma_last_occurrence_unique(v@, marker@, at as int, j);
        }
    }
    let tail_start = at + m.len();
    let tail_len = v.len() - tail_start;
    let ghost tail = v@.subrange(tail_start as int, v@.len() as int);
    let valid = if tail_len == 0 {
        true
    } else if v[tail_start] != '.' || tail_len <= 1 {
        proof {
            assert(tail[0] == v@[tail_start as int]);
        }
        false
    } else {
        let mut k = tail_start + 1;
        let mut ok = true;
        while k < v.len()
            invariant
                tail_start + 1 <= k <= v.len(),
                tail == v@.subrange(tail_start as int, v@.len() as int),
                ok ==> forall|j: int| tail_start + 1 <= j < k ==> is_ascii_digit(v@[j]),
                !ok ==> !all_digits(tail.drop_first()),
            decreases v.len() - k,
        {
            if ok && !('0' <= v[k] && v[k] <= '9') {
                proof {
                    assert(tail.drop_first()[k - tail_start - 1] == v@[k as int]);
                }
                ok = false;
            }
            k = k + 1;
        }
        proof {
            if ok {
                assert forall|j: int| 0 <= j < tail.drop_first().len() implies is_ascii_digit(
                    #[trigger] tail.drop_first()[j],
                ) by {
                    assert(tail.drop_first()[j] == v@[tail_start + 1 + j]);
                }
            }
            assert(tail[0] == v@[tail_start as int]);
        }
        ok
    };
    if valid {
        Some(string_from_range(v, 0, at))
    } else {
        None
    }
}

/// Reads a conflict file's name: its original name and whether it records
/// a deletion (a `.conflict-delete` file) rather than two edits (a
/// `.conflict` file).
pub fn strip_conflict_suffix(file_name: &str) -> (r: Option<(String, bool)>)
    ensures
        match r {
            Some((b, d)) => conflict_original(file_name@) == Some((b@, d)),
            None => conflict_original(file_name@) is None,
        },
{
    let v = chars_of(file_name);
    proof {
        reveal_strlit(".conflict-delete");
        reveal_strlit(".conflict");
    }
    match strip_marker(&v, ".conflict-delete") {
        Some(b) => Some((b, true)),
        None => match strip_marker(&v, ".conflict") {
            Some(b) => Some((b, false)),
            None => None,
        },
    }
}

/// The kind of a conflict as the app names it.
pub fn conflict_kind(is_delete: bool) -> (r: &'static str)
    ensures
        r@ == (if is_delete {
            "delete"@
        } else {
            "modify"@
        }),
{
    if is_delete {
        "delete"
    } else {
        "modify"
    }
}

/// The side of a conflict that was deleted.
pub fn deleted_side() -> (r: FileSideDto)
    ensures
        r.size@ == "Deleted"@,
        r.modified@ == "\u{2014}"@,
        r.hash@ == "\u{2014}"@,
{
    FileSideDto {
        size: String::from_str("Deleted"),
        modified: String::from_str("\u{2014}"),
        hash: String::from_str("\u{2014}"),
    }
}

/// What reading one file gave: its size and modification time (when its
/// metadata could be read) and its bytes (when it could be read).
#[derive(Debug, Clone)]
pub struct FileFacts {
    pub size: Option<u64>,
    pub modified_secs: Option<u64>,
    pub bytes: Option<Vec<u8>>,
}

/// A side of a binary conflict: size, age and the first 16 hexadecimal
/// digits of the BLAKE3 digest of the content, each `Unknown` when it could
/// not be read.
pub open spec fn side_size_text(f: FileFacts) -> Seq<char> {
    match f.size {
        Some(n) => short_bytes_text(n as nat),
        None => "Unknown"@,
    }
}

pub open spec fn side_modified_text(f: FileFacts, now: u64) -> Seq<char> {
    match f.modified_secs {
        Some(s) => relative_time_text(Some(s), now),
        None => "Unknown"@,
    }
}

pub open spec fn side_hash_text(f: FileFacts) -> Seq<char> {
    match f.bytes {
        Some(b) => hex_text(blake3_digest(b@)).subrange(0, 16),
        None => "Unknown"@,
    }
}

/// `side` shows the file read as `facts` at time `now`: its size, its age
/// and the start of its hash.
pub open spec fn shows_side(side: FileSideDto, facts: FileFacts, now: u64) -> bool {
    &&& side.size@ == side_size_text(facts)
    &&& side.modified@ == side_modified_text(facts, now)
    &&& side.hash@ == side_hash_text(facts)
}

/// One side of a binary conflict, seen at `now`.
pub fn file_side(facts: &FileFacts, now: u64) -> (r: FileSideDto)
    ensures
        r.size@ == side_size_text(*facts),
        r.modified@ == side_modified_text(*facts, now),
        r.hash@ == side_hash_text(*facts),
{
    let size = match facts.size {
        Some(n) => format_bytes(n),
        None => String::from_str("Unknown"),
    };
    let modified = match facts.modified_secs {
        Some(s) => relative_time_at(Some(s), now),
        None => String::from_str("Unknown"),
    };
    let hash = match &facts.bytes {
        Some(b) => {
            let hex = blake3_hex(b.as_slice());
            string_from_range(&chars_of(hex.as_str()), 0, 16)
        },
        None => String::from_str("Unknown"),
    };
    FileSideDto { size, modified, hash }
}

/// `std::str::from_utf8(bytes).is_ok()`: whether the bytes are UTF-8.
#[verifier::external_body]
fn is_utf8(bytes: &[u8]) -> (r: bool)
    ensures
        r == vstd::utf8::valid_utf8(bytes@),
{
    std::str::from_utf8(bytes).is_ok()
}

/// A file counts as binary when it cannot be read, or when its first 8192
/// bytes hold a zero byte or are not UTF-8.
pub open spec fn looks_binary(bytes: Option<Seq<u8>>) -> bool {
    match bytes {
        None => true,
        Some(b) => {
            let sample = b.subrange(0, if b.len() < 8192 {
                b.len() as int
            } else {
                8192
            });
            sample.contains(0u8) || !vstd::utf8::valid_utf8(sample)
        },
    }
}

pub open spec fn bytes_opt_view(b: Option<Vec<u8>>) -> Option<Seq<u8>> {
    match b {
        Some(v) => Some(v@),
        None => None,
    }
}

/// Whether a file's content is binary.
pub fn is_binary_content(bytes: &Option<Vec<u8>>) -> (r: bool)
    ensures
        r == looks_binary(bytes_opt_view(*bytes)),
{
    match bytes {
        None => true,
        Some(b) => {
            let n = if b.len() < 8192 {
                b.len()
            } else {
                8192
            };
            let ghost sample = b@.subrange(0, n as int);
            proof {
                assert(bytes_opt_view(*bytes) == Some(b@));
            }
            let mut i: usize = 0;
            while i < n
                invariant
                    n <= b.len(),
                    n == (if b@.len() < 8192 {
                        b@.len() as int
                    } else {
                        8192
                    }),
                    bytes_opt_view(*bytes) == Some(b@),
                    sample == b@.subrange(0, n as int),
                    0 <= i <= n,
                    forall|j: int| 0 <= j < i ==> b@[j] != 0u8,
                decreases n - i,
            {
                if b[i] == 0u8 {
                    proof {
                        assert(sample[i as int] == 0u8);
                        assert(sample.contains(0u8));
                    }
                    return true;
                }
                i = i + 1;
            }
            proof {
                assert(!sample.contains(0u8)) by {
                    if sample.contains(0u8) {
                        let j = choose|j: int| 0 <= j < sample.len() && sample[j] == 0u8;
                        assert(b@[j] == 0u8);
                    }
                }
            }
            let slice = b.as_slice();
            !is_utf8(vstd::slice::slice_subrange(slice, 0, n))
        },
    }
}

/// The tag of a line in a line diff.
#[derive(Debug, Clone, Copy, PartialEq, Eq, Structural)]
pub enum LineTag {
    Equal,
    Delete,
    Insert,
}

/// The changes of `similar`'s line diff of `old` into `new`
/// (`TextDiff::from_lines(old, new).iter_all_changes()`): each line with
/// its tag, in order.
pub uninterp spec fn line_changes(old: Seq<char>, new: Seq<char>) -> Seq<(LineTag, Seq<char>)>;

pub open spec fn changes_view(v: Seq<(LineTag, String)>) -> Seq<(LineTag, Seq<char>)> {
    v.map_values(|c: (LineTag, String)| (c.0, c.1@))
}

/// `similar::TextDiff::from_lines(old, new).iter_all_changes()`, each
/// change taken as its tag and its value.
#[verifier::external_body]
fn diff_lines(old: &str, new: &str) -> (r: Vec<(LineTag, String)>)
    ensures
        changes_view(r@) == line_changes(old@, new@),
{
    similar::TextDiff::from_lines(old, new).iter_all_changes().map(
        |c| {
            let tag = match c.tag() {
                similar::ChangeTag::Equal => LineTag::Equal,
                similar::ChangeTag::Delete => LineTag::Delete,
                similar::ChangeTag::Insert => LineTag::Insert,
            };
            (tag, c.value().to_string())
        },
    ).collect()
}

pub open spec fn trim_newlines(s: Seq<char>) -> Seq<char>
    decreases s.len(),
{
    if s.len() > 0 && s.last() == '\n' {
        trim_newlines(s.drop_last())
    } else {
        s
    }
}

/// A diff line as the app shows it: its kind, and the line without its
/// line ending, marked `- ` when removed and `+ ` when added.
pub open spec fn diff_line(c: (LineTag, Seq<char>)) -> (Seq<char>, Seq<char>) {
    match c.0 {
        LineTag::Equal => ("same"@, trim_newlines(c.1)),
        LineTag::Delete => ("delete"@, "- "@ + trim_newlines(c.1)),
        LineTag::Insert => ("add"@, "+ "@ + trim_newlines(c.1)),
    }
}

pub open spec fn count_tag(s: Seq<(LineTag, Seq<char>)>, t: LineTag) -> nat
    decreases s.len(),
{
    if s.len() == 0 {
        0
    } else {
        count_tag(s.drop_last(), t) + if s.last().0 == t {
            1nat
        } else {
            0nat
        }
    }
}

pub open spec fn diff_lines_view(v: Seq<CodeDiffLineDto>) -> Seq<(Seq<char>, Seq<char>)> {
    v.map_values(|l: CodeDiffLineDto| (l.kind@, l.text@))
}

/// The lines the app shows for a list of changes.
pub open spec fn diff_lines_of(s: Seq<(LineTag, Seq<char>)>) -> Seq<(Seq<char>, Seq<char>)> {
    s.map_values(|c: (LineTag, Seq<char>)| diff_line(c))
}

fn trim_line_newlines(s: &String) -> (r: String)
    ensures
        r@ == trim_newlines(s@),
{
    let v = chars_of(s.as_str());
    let mut end = v.len();
    proof {
        assert(v@.subrange(0, v@.len() as int) =~= v@);
    }
    while end > 0 && v[end - 1] == '\n'
        invariant
            end <= v.len(),
            trim_newlines(v@.subrange(0, end as int)) == trim_newlines(v@),
        decreases end,
    {
        proof {
            assert(v@.subrange(0, end as int).drop_last() =~= v@.subrange(0, end - 1));
        }
        end = end - 1;
    }
    string_from_range(&v, 0, end)
}

/// The text diff of a modify conflict between the local file and the
/// store's version, as one chunk starting at line 1 on both sides. The
/// counts of added and removed lines saturate at `u32::MAX`.
pub fn text_diff(original_name: &str, local_path: &str, local_text: &str, store_text: &str) -> (r: CodeDiffDto)
    ensures
        r.filename@ == original_name@,
        r.path@ == local_path@,
        r.chunks@.len() == 1,
        r.chunks@[0].old_start == 1,
        r.chunks@[0].new_start == 1,
        diff_lines_view(r.chunks@[0].lines@) == diff_lines_of(line_changes(local_text@, store_text@)),
        r.lines_added as nat == min_nat(count_tag(line_changes(local_text@, store_text@), LineTag::Insert), u32::MAX as nat),
        r.lines_removed as nat == min_nat(count_tag(line_changes(local_text@, store_text@), LineTag::Delete), u32::MAX as nat),
{
    let changes = diff_lines(local_text, store_text);
    text_diff_of_changes(original_name, local_path, &changes)
}

/// The text diff the app shows for a list of line changes (see
/// [`text_diff`]): one chunk starting at line 1 on both sides, a line per
/// change, and the saturating counts of added and removed lines.
pub fn text_diff_of_changes(original_name: &str, local_path: &str, changes: &Vec<(LineTag, String)>) -> (r:
    CodeDiffDto)
    ensures
        r.filename@ == original_name@,
        r.path@ == local_path@,
        r.chunks@.len() == 1,
        r.chunks@[0].old_start == 1,
        r.chunks@[0].new_start == 1,
        diff_lines_view(r.chunks@[0].lines@) == diff_lines_of(changes_view(changes@)),
        r.lines_added as nat == min_nat(count_tag(changes_view(changes@), LineTag::Insert), u32::MAX as nat),
        r.lines_removed as nat == min_nat(count_tag(changes_view(changes@), LineTag::Delete), u32::MAX as nat),
{
    let ghost cv = changes_view(changes@);
    let mut lines: Vec<CodeDiffLineDto> = Vec::new();
    let mut added: u32 = 0;
    let mut removed: u32 = 0;
    let mut i: usize = 0;
    while i < changes.len()
        invariant
            cv == changes_view(changes@),
            0 <= i <= changes@.len(),
            diff_lines_view(lines@) == diff_lines_of(cv.subrange(0, i as int)),
            added as nat == min_nat(count_tag(cv.subrange(0, i as int), LineTag::Insert), u32::MAX as nat),
            removed as nat == min_nat(count_tag(cv.subrange(0, i as int), LineTag::Delete), u32::MAX as nat),
        decreases changes@.len() - i,
    {
        let ghost pre = lines@;
        proof {
            assert(cv.subrange(0, i + 1).drop_last() =~= cv.subrange(0, i as int));
            assert(cv.subrange(0, i + 1).last() == cv[i as int]);
        }
        let (tag, value) = (changes[i].0, &changes[i].1);
        let text = trim_line_newlines(value);
        let line = match tag {
            LineTag::Equal => CodeDiffLineDto { kind: "same", text },
            LineTag::Delete => {
                if removed < u32::MAX {
                    removed = removed + 1;
                }
                let mut t = String::from_str("- ");
                push_str(&mut t, text.as_str());
                CodeDiffLineDto { kind: "delete", text: t }
            },
            LineTag::Insert => {
                if added < u32::MAX {
                    added = added + 1;
                }
                let mut t = String::from_str("+ ");
                push_str(&mut t, text.as_str());
                CodeDiffLineDto { kind: "add", text: t }
            },
        };
        lines.push(line);
        proof {
            assert(diff_lines_view(lines@) =~= diff_lines_view(pre).push(
                (lines@.last().kind@, lines@.last().text@),
            ));
            assert(diff_lines_of(cv.subrange(0, i + 1)) =~= diff_lines_of(cv.subrange(0, i as int)).push(
                diff_line(cv[i as int]),
            ));
        }
        i = i + 1;
    }
    proof {
        assert(cv.subrange(0, changes@.len() as int) =~= cv);
    }
    let chunk = CodeDiffChunkDto { old_start: 1, new_start: 1, lines };
    CodeDiffDto {
        filename: String::from_str(original_name),
        path: String::from_str(local_path),
        lines_added: added,
        lines_removed: removed,
        chunks: vec![chunk],
    }
}

pub open spec fn min_nat(a: nat, b: nat) -> nat {
    if a < b {
        a
    } else {
        b
    }
}

/// The action the app suggests for a binary conflict: keep the local file
/// when both sides show the same age, the store's otherwise.
pub fn recommended_action(local: &FileSideDto, store: &FileSideDto) -> (r: &'static str)
    ensures
        r@ == (if local.modified@ == store.modified@ {
            "Keep Local"@
        } else {
            "Keep Store"@
        }),
{
    if local.modified == store.modified {
        "Keep Local"
    } else {
        "Keep Store"
    }
}

/// The files of a conflict, as read from disk: the conflict file, and the
/// file under the original name beside it.
#[derive(Debug)]
pub struct ConflictFiles {
    pub conflict_path: String,
    pub original_path: String,
    pub original_exists: bool,
    pub conflict: FileFacts,
    pub original: FileFacts,
    pub conflict_text: Result<String, String>,
    pub original_text: Result<String, String>,
}

/// What a binary modify conflict shows: the local side is the original
/// file and the store's side the conflict file, and keeping the local file
/// is suggested when both show the same age.
pub open spec fn modify_conflict_shown(
    diff: BinaryMetadataDiffDto,
    name: Seq<char>,
    files: ConflictFiles,
    now: u64,
) -> bool {
    &&& diff.filename@ == name
    &&& diff.path == files.original_path
    &&& diff.is_binary
    &&& shows_side(diff.local, files.original, now)
    &&& shows_side(diff.store, files.conflict, now)
    &&& diff.recommended_action@ == (if side_modified_text(files.original, now) == side_modified_text(
        files.conflict,
        now,
    ) {
        "Keep Local"@
    } else {
        "Keep Store"@
    })
}

/// In a binary modify conflict each side describes its own file: the local
/// side the original's size, age and hash, the store's side the conflict
/// file's; the local file is suggested exactly when both show the same age.
pub proof fn lemma_modify_conflict_sides(diff: BinaryMetadataDiffDto, name: Seq<char>, files: ConflictFiles, now: u64)
    requires
        modify_conflict_shown(diff, name, files, now),
    ensures
        diff.local.modified@ == (match files.original.modified_secs {
            Some(s) => relative_time_text(Some(s), now),
            None => "Unknown"@,
        }),
        diff.store.modified@ == (match files.conflict.modified_secs {
            Some(s) => relative_time_text(Some(s), now),
            None => "Unknown"@,
        }),
        diff.local.size@ == (match files.original.size {
            Some(n) => short_bytes_text(n as nat),
            None => "Unknown"@,
        }),
        diff.store.size@ == (match files.conflict.size {
            Some(n) => short_bytes_text(n as nat),
            None => "Unknown"@,
        }),
        diff.local.hash@ == (match files.original.bytes {
            Some(b) => hex_text(blake3_digest(b@)).subrange(0, 16),
            None => "Unknown"@,
        }),
        diff.store.hash@ == (match files.conflict.bytes {
            Some(b) => hex_text(blake3_digest(b@)).subrange(0, 16),
            None => "Unknown"@,
        }),
        diff.recommended_action@ == "Keep Local"@ <==> diff.local.modified@ == diff.store.modified@,
{
    reveal_strlit("Keep Local");
    reveal_strlit("Keep Store");
    assert("Keep Local"@[5] != "Keep Store"@[5]);
}

/// What the app shows of a conflict file named `file_name`, seen at `now`:
/// a deletion shows the surviving edit against a deleted side; a modify
/// conflict whose original is gone cannot be shown; binary content shows
/// both sides' metadata; text shows a line diff from the local file (the
/// original) to the store's version (the conflict file).
pub fn diff(file_name: &str, files: &ConflictFiles, now: u64) -> (r: Result<ConflictDiffDto, String>)
    ensures
        conflict_original(file_name@) is None ==> r is Err,
        conflict_original(file_name@) matches Some((name, true)) ==> (r matches Ok(
            ConflictDiffDto::Binary { diff },
        ) && diff.filename@ == name && diff.path == files.conflict_path && diff.is_binary && shows_side(
            diff.local,
            files.conflict,
            now,
        ) && diff.store.size@ == "Deleted"@ && diff.store.modified@ == "\u{2014}"@ && diff.store.hash@
            == "\u{2014}"@ && diff.recommended_action@ == "Keep Local"@),
        conflict_original(file_name@) matches Some((name, false)) ==> {
            &&& (!files.original_exists ==> r is Err)
            &&& (files.original_exists && (looks_binary(bytes_opt_view(files.original.bytes)) || looks_binary(
                bytes_opt_view(files.conflict.bytes),
            ))) ==> (r matches Ok(ConflictDiffDto::Binary { diff }) && modify_conflict_shown(
                diff,
                name,
                *files,
                now,
            ))
            &&& (files.original_exists && !looks_binary(bytes_opt_view(files.original.bytes)) && !looks_binary(
                bytes_opt_view(files.conflict.bytes),
            )) ==> match (files.original_text, files.conflict_text) {
                (Ok(a), Ok(b)) => (r matches Ok(ConflictDiffDto::Text { diff }) && diff.filename@ == name
                    && diff.path@ == files.original_path@ && diff.chunks@.len() == 1 && diff.chunks@[0].old_start
                    == 1 && diff.chunks@[0].new_start == 1 && diff_lines_view(diff.chunks@[0].lines@)
                    == diff_lines_of(line_changes(a@, b@)) && diff.lines_added as nat == min_nat(
                    count_tag(line_changes(a@, b@), LineTag::Insert),
                    u32::MAX as nat,
                ) && diff.lines_removed as nat == min_nat(
                    count_tag(line_changes(a@, b@), LineTag::Delete),
                    u32::MAX as nat,
                )),
                (Err(e), _) => r == Err::<ConflictDiffDto, String>(e),
                (Ok(_), Err(e)) => r == Err::<ConflictDiffDto, String>(e),
            }
        },
{
    let (original_name, is_delete) = match strip_conflict_suffix(file_name) {
        Some(p) => p,
        None => {
            let mut m = String::from_str("'");
            push_str(&mut m, file_name);
            push_str(&mut m, "' is not a conflict file");
            return Err(m);
        },
    };
    if is_delete {
        return Ok(
            ConflictDiffDto::Binary {
                diff: BinaryMetadataDiffDto {
                    filename: original_name,
                    path: files.conflict_path.clone(),
                    is_binary: true,
                    local: file_side(&files.conflict, now),
                    store: deleted_side(),
                    recommended_action: "Keep Local",
                },
            },
        );
    }
    if !files.original_exists {
        let mut m = String::from_str("original file '");
        push_str(&mut m, original_name.as_str());
        push_str(&mut m, "' is missing; cannot diff");
        return Err(m);
    }
    if is_binary_content(&files.original.bytes) || is_binary_content(&files.conflict.bytes) {
        let local = file_side(&files.original, now);
        let store = file_side(&files.conflict, now);
        let recommended_action = recommended_action(&local, &store);
        return Ok(
            ConflictDiffDto::Binary {
                diff: BinaryMetadataDiffDto {
                    filename: original_name,
                    path: files.original_path.clone(),
                    is_binary: true,
                    local,
                    store,
                    recommended_action,
                },
            },
        );
    }
    let local_text = match &files.original_text {
        Ok(t) => t,
        Err(e) => return Err(e.clone()),
    };
    let store_text = match &files.conflict_text {
        Ok(t) => t,
        Err(e) => return Err(e.clone()),
    };
    let d = text_diff(original_name.as_str(), files.original_path.as_str(), local_text.as_str(), store_text.as_str());
    Ok(ConflictDiffDto::Text { diff: d })
}

/// What resolving a conflict does on disk.
#[derive(Debug, Clone, Copy, PartialEq, Eq, Structural)]
pub enum ResolveAction {
    /// Rename the conflict file back to the original name.
    RestoreOriginal,
    /// Delete the conflict file.
    RemoveConflict,
    /// Copy the conflict file over the original, then delete it.
    ReplaceOriginal,
}

/// How to resolve a conflict file named `file_name`: keeping the local
/// side of a deletion restores the surviving edit, keeping the store's side
/// drops it; keeping the local side of a modify conflict drops the store's
/// version, keeping the store's side puts it in place of the original.
pub fn resolve_action(file_name: &str, keep_local: bool) -> (r: Result<(String, ResolveAction), String>)
    ensures
        r is Ok <==> conflict_original(file_name@) is Some,
        r matches Ok((name, action)) ==> conflict_original(file_name@) matches Some((orig, is_delete)) && name@
            == orig && action == (if is_delete {
            if keep_local {
                ResolveAction::RestoreOriginal
            } else {
                ResolveAction::RemoveConflict
            }
        } else {
            if keep_local {
                ResolveAction::RemoveConflict
            } else {
                ResolveAction::ReplaceOriginal
            }
        }),
{
    match strip_conflict_suffix(file_name) {
        None => {
            let mut m = String::from_str("'");
            push_str(&mut m, file_name);
            push_str(&mut m, "' is not a conflict file");
            Err(m)
        },
        Some((name, is_delete)) => {
            let action = if is_delete {
                if keep_local {
                    ResolveAction::RestoreOriginal
                } else {
                    ResolveAction::RemoveConflict
                }
            } else {
                if keep_local {
                    ResolveAction::RemoveConflict
                } else {
                    ResolveAction::ReplaceOriginal
                }
            };
            Ok((name, action))
        },
    }
}

/// A conflict file found by a scan, with what it says of its files'
/// content.
pub fn conflict_summary(id: String, file_name: &str, conflict_binary: bool, original_binary: Option<bool>) -> (r:
    Option<ConflictSummaryDto>)
    ensures
        r is Some <==> conflict_original(file_name@) is Some,
        r matches Some(c) ==> conflict_original(file_name@) matches Some((orig, is_delete)) && c.id == id
            && c.filename@ == orig && c.is_binary == (if is_delete {
            conflict_binary
        } else {
            conflict_binary || original_binary == Some(true)
        }) && c.conflict_kind@ == (if is_delete {
            "delete"@
        } else {
            "modify"@
        }),
{
    match strip_conflict_suffix(file_name) {
        None => None,
        Some((original_name, is_delete)) => {
            let is_binary = if is_delete {
                conflict_binary
            } else {
                conflict_binary || match original_binary {
                    Some(b) => b,
                    None => false,
                }
            };
            Some(
                ConflictSummaryDto {
                    id,
                    filename: original_name,
                    is_binary,
                    conflict_kind: String::from_str(conflict_kind(is_delete)),
                },
            )
        },
    }
}

// ---------------------------------------------------------------------
// The daemon binary

/// Where the daemon binary is: the one bundled beside the app when it
/// exists, else `phanerosd` found on the `PATH`; otherwise an error that
/// says where it looked.
pub fn locate_daemon_binary(bundled: Option<String>, bundled_exists: bool, on_path: bool) -> (r: Result<String, String>)
    ensures
        bundled is Some && bundled_exists ==> r == Ok::<String, String>(bundled->0),
        !(bundled is Some && bundled_exists) && on_path ==> (r matches Ok(p) && p@ == "phanerosd"@),
        !(bundled is Some && bundled_exists) && !on_path ==> r is Err,
{
    if let Some(b) = &bundled {
        if bundled_exists {
            return Ok(b.clone());
        }
    }
    if on_path {
        return Ok(String::from_str("phanerosd"));
    }
    let mut m = String::from_str("Could not locate the phanerosd binary (checked ");
    match &bundled {
        Some(b) => push_str(&mut m, b.as_str()),
        None => push_str(&mut m, "<bundle path unavailable>"),
    }
    push_str(&mut m, " and $PATH). Is phaneros-daemon installed?");
    Err(m)
}

} // verus!
