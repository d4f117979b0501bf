//! Small rules of the vault on disk: where a file is written before it is
//! renamed into place, which entries belong to Phaneros itself, where
//! removed files go, and how blobs are compressed.
use vstd::prelude::*;

use crate::clock::{millis_since_unix_epoch, system_now};
use crate::config::{join_path, join_text};
use crate::text::{chars_of, push_char, push_str};
use crate::units::{nat_text, push_decimal};

verus! {

/// What a file being written is called until it is complete: its name
/// with this suffix.
pub const TEMP_SUFFIX: &'static str = ".phaneros-tmp";

/// The folder of a vault that holds Phaneros's own state.
pub const INTERNAL_DIR: &'static str = ".phaneros";

pub open spec fn temp_suffix_text() -> Seq<char> {
    ".phaneros-tmp"@
}

pub open spec fn internal_dir_text() -> Seq<char> {
    ".phaneros"@
}

/// `Path::file_name` of a path: its last component, if it is a name.
pub uninterp spec fn path_file_name(p: Seq<char>) -> Option<Seq<char>>;

/// `Path::with_file_name`: the path with its last component replaced by
/// `name`.
pub uninterp spec fn path_with_file_name(p: Seq<char>, name: Seq<char>) -> Seq<char>;

/// `Path::file_name`, as text (lossy).
#[verifier::external_body]
pub(crate) fn file_name_of(path: &str) -> (r: Option<String>)
    ensures
        match r {
            Some(n) => path_file_name(path@) == Some(n@),
            None => path_file_name(path@) is None,
        },
{
    std::path::Path::new(path).file_name().map(|n| n.to_string_lossy().to_string())
}

/// `Path::with_file_name`, as text (lossy).
#[verifier::external_body]
fn with_file_name(path: &str, name: &str) -> (r: String)
    ensures
        r@ == path_with_file_name(path@, name@),
{
    std::path::Path::new(path).with_file_name(name).to_string_lossy().to_string()
}

/// The name of `path`, empty when it has none.
pub open spec fn name_or_empty(p: Seq<char>) -> Seq<char> {
    match path_file_name(p) {
        Some(n) => n,
        None => Seq::empty(),
    }
}

/// Where a file is written before it is renamed to `path`: beside it, with
/// the temporary suffix appended to its whole name.
pub fn temp_path_for(path: &str) -> (r: String)
    ensures
        r@ == path_with_file_name(path@, name_or_empty(path@) + temp_suffix_text()),
{
    let mut name = match file_name_of(path) {
        Some(n) => n,
        None => String::new(),
    };
    push_str(&mut name, TEMP_SUFFIX);
    with_file_name(path, name.as_str())
}

pub open spec fn ends_with(s: Seq<char>, suffix: Seq<char>) -> bool {
    s.len() >= suffix.len() && s.subrange(s.len() - suffix.len(), s.len() as int) == suffix
}

/// Whether a directory entry belongs to Phaneros: its state folder, or a
/// file still being written.
pub fn is_internal_entry(name: &str) -> (r: bool)
    ensures
        r == (name@ == internal_dir_text() || ends_with(name@, temp_suffix_text())),
{
    let v = chars_of(name);
    let internal = chars_of(INTERNAL_DIR);
    let suffix = chars_of(TEMP_SUFFIX);
    proof {
        reveal_strlit(".phaneros");
        reveal_strlit(".phaneros-tmp");
    }
    let mut same = v.len() == internal.len();
    let mut i: usize = 0;
    while same && i < v.len()
        invariant
            0 <= i <= v.len(),
            same ==> v.len() == internal.len(),
            same ==> forall|j: int| 0 <= j < i ==> v@[j] == internal@[j],
            !same ==> v@ != internal@,
        decreases v.len() - i,
    {
        if v[i] != internal[i] {
            same = false;
        }
        i = i + 1;
    }
    if same {
        proof {
            assert(v@ =~= internal@);
        }
        return true;
    }
    if v.len() < suffix.len() {
        return false;
    }
    let start = v.len() - suffix.len();
    let mut k: usize = 0;
    while k < suffix.len()
        invariant
            v@ == name@,
            v@ != internal@,
            internal@ == internal_dir_text(),
            suffix@ == temp_suffix_text(),
            start + suffix.len() == v.len(),
            0 <= k <= suffix.len(),
            forall|j: int| 0 <= j < k ==> v@[start + j] == suffix@[j],
        decreases suffix.len() - k,
    {
        if v[start + k] != suffix[k] {
            proof {
                assert(v@.subrange(start as int, v@.len() as int)[k as int] != suffix@[k as int]);
            }
            return false;
        }
        k = k + 1;
    }
    proof {
        assert(v@.subrange(start as int, v@.len() as int) =~= suffix@);
    }
    true
}

/// The trash folder of a batch of removals made at `millis` (milliseconds
/// since the Unix epoch): `.phaneros/trash/<millis>` in the vault.
pub open spec fn trash_batch_text(vault: Seq<char>, millis: nat) -> Seq<char> {
    join_text(join_text(join_text(vault, internal_dir_text()), "trash"@), nat_text(millis))
}

/// The trash folder of a batch made at `millis`.
pub fn trash_batch_path_at(vault_path: &str, millis: u128) -> (r: String)
    ensures
        r@ == trash_batch_text(vault_path@, millis as nat),
{
    let a = join_path(vault_path, INTERNAL_DIR);
    let b = join_path(a.as_str(), "trash");
    let mut stamp = String::new();
    push_decimal(&mut stamp, millis);
    proof {
        reveal_strlit(".phaneros");
        assert(stamp@ =~= nat_text(millis as nat));
    }
    join_path(b.as_str(), stamp.as_str())
}

/// The trash folder of a batch of removals made now.
pub fn trash_batch_path(vault_path: &str) -> (r: String)
    ensures
        exists|millis: nat| r@ == trash_batch_text(vault_path@, millis),
{
    let now = system_now();
    let millis = match millis_since_unix_epoch(&now) {
        Some(m) => m,
        None => 0,
    };
    trash_batch_path_at(vault_path, millis)
}

/// The `index`-th other name to try when `candidate` is taken in the
/// trash: its name followed by `-` and the index.
pub fn trash_candidate(candidate: &str, index: usize) -> (r: String)
    ensures
        r@ == path_with_file_name(candidate@, name_or_empty(candidate@) + seq!['-'] + nat_text(index as nat)),
{
    let mut name = match file_name_of(candidate) {
        Some(n) => n,
        None => String::new(),
    };
    let ghost base = name@;
    push_char(&mut name, '-');
    push_decimal(&mut name, index as u128);
    proof {
        assert(base == name_or_empty(candidate@));
        assert(name@ =~= name_or_empty(candidate@) + seq!['-'] + nat_text(index as nat));
    }
    with_file_name(candidate, name.as_str())
}

// ---------------------------------------------------------------------
// Compression

/// The zstd frame that `zstd::encode_all` writes for `raw` at `level`;
/// `None` when it fails.
pub uninterp spec fn zstd_encoded(raw: Seq<u8>, level: i32) -> Option<Seq<u8>>;

/// What `zstd::decode_all` reads from `frame`; `None` when it fails.
pub uninterp spec fn zstd_decoded(frame: Seq<u8>) -> Option<Seq<u8>>;

/// `zstd::encode_all(raw, level)`. zstd is lossless: a frame it wrote
/// decodes to the input again.
#[verifier::external_body]
fn zstd_encode(raw: &[u8], level: i32) -> (r: Option<Vec<u8>>)
    ensures
        match r {
            Some(c) => zstd_encoded(raw@, level) == Some(c@) && zstd_decoded(c@) == Some(raw@),
            None => zstd_encoded(raw@, level) is None,
        },
{
    zstd::encode_all(raw, level).ok()
}

/// `zstd::decode_all(frame)`, with the error as text.
#[verifier::external_body]
fn zstd_decode(frame: &[u8]) -> (r: Result<Vec<u8>, String>)
    ensures
        match r {
            Ok(v) => zstd_decoded(frame@) == Some(v@),
            Err(_) => zstd_decoded(frame@) is None,
        },
{
    zstd::decode_all(frame).map_err(|e| e.to_string())
}

/// The algorithm a blob was stored with.
pub open spec fn none_text() -> Seq<char> {
    "none"@
}

pub open spec fn zstd_text() -> Seq<char> {
    "zstd"@
}

proof fn lemma_algorithm_names()
    ensures
        zstd_text() != none_text(),
        zstd_text().len() == 4,
        none_text().len() == 4,
{
    reveal_strlit("zstd");
    reveal_strlit("none");
    assert(zstd_text()[0] != none_text()[0]);
}

/// What compressing a blob gives: nothing for an empty blob; the zstd
/// frame (level 3) when it is smaller than the blob; the blob itself
/// otherwise.
pub open spec fn compressed_blob(raw: Seq<u8>) -> (Seq<u8>, Seq<char>) {
    if raw.len() == 0 {
        (Seq::empty(), none_text())
    } else {
        match zstd_encoded(raw, 3) {
            Some(c) => if c.len() < raw.len() {
                (c, zstd_text())
            } else {
                (raw, none_text())
            },
            None => (raw, none_text()),
        }
    }
}

/// Compresses a blob with zstd when that makes it smaller; returns the
/// bytes to store and the algorithm (`zstd` or `none`).
pub fn compress_blob(raw_bytes: &[u8]) -> (r: (Vec<u8>, String))
    ensures
        (r.0@, r.1@) == compressed_blob(raw_bytes@),
        r.1@ == zstd_text() ==> zstd_decoded(r.0@) == Some(raw_bytes@),
        r.1@ == none_text() ==> r.0@ == raw_bytes@ || raw_bytes@.len() == 0 && r.0@.len() == 0,
{
    proof {
        lemma_algorithm_names();
    }
    if raw_bytes.len() == 0 {
        return (Vec::new(), String::from_str("none"));
    }
    match zstd_encode(raw_bytes, 3) {
        Some(c) => {
            if c.len() < raw_bytes.len() {
                (c, String::from_str("zstd"))
            } else {
                (vstd::slice::slice_to_vec(raw_bytes), String::from_str("none"))
            }
        },
        None => (vstd::slice::slice_to_vec(raw_bytes), String::from_str("none")),
    }
}

/// Why a blob could not be decompressed.
#[derive(Debug, Clone)]
pub enum DecompressError {
    /// The zstd frame did not decode; the decoder's message.
    Corrupt(String),
    /// The algorithm is not one Phaneros writes.
    Unsupported(String),
}

impl DecompressError {
    /// The error as text.
    pub fn message(&self) -> (r: String)
        ensures
            self matches DecompressError::Unsupported(a) ==> r@ == "Unsupported compression algorithm: "@ + a@,
            self matches DecompressError::Corrupt(m) ==> r@ == m@,
    {
        match self {
            DecompressError::Corrupt(m) => m.clone(),
            DecompressError::Unsupported(a) => {
                let mut r = String::from_str("Unsupported compression algorithm: ");
                push_str(&mut r, a.as_str());
                r
            },
        }
    }
}

/// Decompresses a stored blob: `zstd` frames decode, `none` (or no
/// algorithm) is the blob itself, anything else is refused.
pub fn decompress_blob(bytes: &[u8], compression: &str) -> (r: Result<Vec<u8>, DecompressError>)
    ensures
        compression@ == zstd_text() ==> match r {
            Ok(v) => zstd_decoded(bytes@) == Some(v@),
            Err(e) => zstd_decoded(bytes@) is None && e is Corrupt,
        },
        compression@ == none_text() || compression@.len() == 0 ==> (r matches Ok(v) && v@ == bytes@),
        !(compression@ == zstd_text() || compression@ == none_text() || compression@.len() == 0) ==> (r matches Err(
            DecompressError::Unsupported(a),
        ) && a@ == compression@),
{
    let algo = String::from_str(compression);
    proof {
        lemma_algorithm_names();
        if compression@.len() == 0 {
            assert(compression@ =~= Seq::<char>::empty());
        }
    }
    if algo == String::from_str("zstd") {
        match zstd_decode(bytes) {
            Ok(v) => Ok(v),
            Err(m) => Err(DecompressError::Corrupt(m)),
        }
    } else if algo == String::from_str("none") || algo == String::new() {
        Ok(vstd::slice::slice_to_vec(bytes))
    } else {
        Err(DecompressError::Unsupported(algo))
    }
}

} // verus!
