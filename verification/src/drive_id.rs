//! Drive identifiers: free-form names turned into kebab-case.
use vstd::prelude::*;

use crate::text::{chars_of, string_from_chars};

verus! {

/// Why a drive identifier was refused.
#[derive(Debug, Clone, PartialEq, Eq, Structural)]
pub enum DriveIdError {
    /// The identifier holds no ASCII letter or digit.
    Empty,
}

impl DriveIdError {
    /// The message shown to users.
    pub fn message(&self) -> (r: String)
        ensures
            r@ == drive_id_error_message(),
    {
        String::from_str("drive id must contain at least one letter or digit")
    }
}

/// The text of [`DriveIdError::Empty`].
pub open spec fn drive_id_error_message() -> Seq<char> {
    "drive id must contain at least one letter or digit"@
}

pub open spec fn is_ascii_digit(c: char) -> bool {
    '0' <= c && c <= '9'
}

pub open spec fn is_ascii_upper(c: char) -> bool {
    'A' <= c && c <= 'Z'
}

pub open spec fn is_ascii_lower(c: char) -> bool {
    'a' <= c && c <= 'z'
}

pub open spec fn is_ascii_alnum(c: char) -> bool {
    is_ascii_digit(c) || is_ascii_upper(c) || is_ascii_lower(c)
}

/// ASCII lowercasing; every other character is left alone.
pub open spec fn ascii_lower(c: char) -> char {
    if is_ascii_upper(c) {
        ((c as u32) + 32) as char
    } else {
        c
    }
}

/// Reads `s` left to right: a letter or digit is copied (lowercased), and a
/// run of other characters becomes one `-`, except at the very start. The
/// flag says whether the output so far ends in a separator (or is empty).
pub open spec fn kebab_scan(s: Seq<char>) -> (Seq<char>, bool)
    decreases s.len(),
{
    if s.len() == 0 {
        (Seq::empty(), true)
    } else {
        let (out, prev_dash) = kebab_scan(s.drop_last());
        let c = s.last();
        if is_ascii_alnum(c) {
            (out.push(ascii_lower(c)), false)
        } else if !prev_dash {
            (out.push('-'), true)
        } else {
            (out, true)
        }
    }
}

/// `s` without the `-` characters at its end.
pub open spec fn trim_trailing_dashes(s: Seq<char>) -> Seq<char>
    decreases s.len(),
{
    if s.len() > 0 && s.last() == '-' {
        trim_trailing_dashes(s.drop_last())
    } else {
        s
    }
}

/// The kebab-case form of a free-form identifier.
pub open spec fn kebab_id(s: Seq<char>) -> Seq<char> {
    trim_trailing_dashes(kebab_scan(s).0)
}

/// A well-formed kebab-case identifier: lowercase letters and digits in
/// groups separated by single dashes, with no dash at either end.
pub open spec fn is_kebab(s: Seq<char>) -> bool {
    &&& forall|i: int| 0 <= i < s.len() ==> (is_ascii_digit(#[trigger] s[i]) || is_ascii_lower(s[i])
        || s[i] == '-')
    &&& forall|i: int| 0 <= i < s.len() - 1 ==> !(#[trigger] s[i] == '-' && s[i + 1] == '-')
    &&& s.len() > 0 ==> s[0] != '-' && s.last() != '-'
}

/// Whether some character of `s` is an ASCII letter or digit.
pub open spec fn has_alnum(s: Seq<char>) -> bool {
    exists|i: int| 0 <= i < s.len() && is_ascii_alnum(#[trigger] s[i])
}

/// What the scan keeps true of its output.
proof fn lemma_kebab_scan_shape(s: Seq<char>)
    ensures
        ({
            let (out, prev_dash) = kebab_scan(s);
            &&& forall|i: int| 0 <= i < out.len() ==> (is_ascii_digit(#[trigger] out[i])
                || is_ascii_lower(out[i]) || out[i] == '-')
            &&& forall|i: int| 0 <= i < out.len() - 1 ==> !(#[trigger] out[i] == '-' && out[i + 1]
                == '-')
            &&& out.len() > 0 ==> out[0] != '-'
            &&& prev_dash <==> (out.len() == 0 || out.last() == '-')
            &&& (out.len() > 0 <==> has_alnum(s))
        }),
    decreases s.len(),
{
    if s.len() > 0 {
        lemma_kebab_scan_shape(s.drop_last());
        let (out0, p0) = kebab_scan(s.drop_last());
        let c = s.last();
        if has_alnum(s.drop_last()) {
            let w = choose|i: int| 0 <= i < s.drop_last().len() && is_ascii_alnum(#[trigger] s.drop_last()[i]);
            assert(s[w] == s.drop_last()[w]);
        }
        if is_ascii_alnum(c) {
            assert(s[s.len() - 1] == c);
            let (out, _) = kebab_scan(s);
            assert(out == out0.push(ascii_lower(c)));
            assert(is_ascii_digit(ascii_lower(c)) || is_ascii_lower(ascii_lower(c)));
        } else {
            if has_alnum(s) {
                let w = choose|i: int| 0 <= i < s.len() && is_ascii_alnum(#[trigger] s[i]);
                assert(w < s.len() - 1);
                assert(s.drop_last()[w] == s[w]);
            }
        }
    }
}

/// Removing trailing dashes from scan output leaves a kebab identifier.
proof fn lemma_trim_trailing_dashes(s: Seq<char>)
    requires
        forall|i: int| 0 <= i < s.len() ==> (is_ascii_digit(#[trigger] s[i]) || is_ascii_lower(s[i])
            || s[i] == '-'),
        forall|i: int| 0 <= i < s.len() - 1 ==> !(#[trigger] s[i] == '-' && s[i + 1] == '-'),
        s.len() > 0 ==> s[0] != '-',
    ensures
        is_kebab(trim_trailing_dashes(s)),
        trim_trailing_dashes(s).len() <= s.len(),
        trim_trailing_dashes(s) == s.subrange(0, trim_trailing_dashes(s).len() as int),
        (trim_trailing_dashes(s).len() == 0) <==> (s.len() == 0),
    decreases s.len(),
{
    if s.len() > 0 && s.last() == '-' {
        let t = s.drop_last();
        assert forall|i: int| 0 <= i < t.len() - 1 implies !(#[trigger] t[i] == '-' && t[i + 1] == '-') by {
            assert(t[i] == s[i] && t[i + 1] == s[i + 1]);
        }
        assert forall|i: int| 0 <= i < t.len() implies (is_ascii_digit(#[trigger] t[i]) || is_ascii_lower(t[i])
            || t[i] == '-') by {
            assert(t[i] == s[i]);
        }
        lemma_trim_trailing_dashes(t);
        let r = trim_trailing_dashes(t);
        assert(r =~= s.subrange(0, r.len() as int));
        if s.len() >= 2 {
            assert(!(s[s.len() - 2] == '-' && s[s.len() - 1] == '-'));
        }
    } else {
        assert(s.subrange(0, s.len() as int) =~= s);
    }
}

/// Scanning a kebab identifier reproduces it, with the flag off when it is
/// not empty.
proof fn lemma_kebab_scan_of_kebab_prefix(s: Seq<char>, n: int)
    requires
        is_kebab(s),
        0 <= n <= s.len(),
    ensures
        kebab_scan(s.subrange(0, n)).0 == s.subrange(0, n),
        kebab_scan(s.subrange(0, n)).1 <==> (n == 0 || s[n - 1] == '-'),
    decreases n,
{
    if n > 0 {
        lemma_kebab_scan_of_kebab_prefix(s, n - 1);
        let p = s.subrange(0, n);
        assert(p.drop_last() =~= s.subrange(0, n - 1));
        assert(p.last() == s[n - 1]);
        let c = s[n - 1];
        if c == '-' {
            assert(n - 1 > 0) by {
                if n - 1 == 0 {
                    assert(s[0] != '-');
                }
            }
            assert(!(s[n - 2] == '-' && s[n - 1] == '-'));
            assert(s.subrange(0, n - 1).push('-') =~= p);
        } else {
            assert(is_ascii_digit(c) || is_ascii_lower(c));
            assert(ascii_lower(c) == c);
            assert(s.subrange(0, n - 1).push(c) =~= p);
        }
    }
}

/// A kebab-case identifier is its own normal form.
pub proof fn lemma_kebab_id_fixes_kebab(s: Seq<char>)
    requires
        is_kebab(s),
    ensures
        kebab_id(s) == s,
{
    lemma_kebab_scan_of_kebab_prefix(s, s.len() as int);
    assert(s.subrange(0, s.len() as int) =~= s);
    if s.len() > 0 {
        assert(s.last() != '-');
    }
}

/// Normalizing twice gives the same identifier as normalizing once.
pub proof fn lemma_kebab_id_idempotent(s: Seq<char>)
    ensures
        is_kebab(kebab_id(s)),
        kebab_id(kebab_id(s)) == kebab_id(s),
{
    lemma_kebab_scan_shape(s);
    lemma_trim_trailing_dashes(kebab_scan(s).0);
    lemma_kebab_id_fixes_kebab(kebab_id(s));
}

/// Scanning on after a point where the output ends a word (or is empty)
/// appends the scan of the rest as if it stood alone.
proof fn lemma_scan_after_break(s: Seq<char>, t: Seq<char>)
    requires
        kebab_scan(s).1,
    ensures
        kebab_scan(s + t) == (kebab_scan(s).0 + kebab_scan(t).0, kebab_scan(t).1),
    decreases t.len(),
{
    if t.len() == 0 {
        assert(s + t =~= s);
        assert(kebab_scan(s).0 + Seq::<char>::empty() =~= kebab_scan(s).0);
    } else {
        lemma_scan_after_break(s, t.drop_last());
        assert((s + t).drop_last() =~= s + t.drop_last());
        assert((s + t).last() == t.last());
        let a0 = kebab_scan(s).0;
        let t0 = kebab_scan(t.drop_last()).0;
        assert((a0 + t0).push(ascii_lower(t.last())) =~= a0 + t0.push(ascii_lower(t.last())));
        assert((a0 + t0).push('-') =~= a0 + t0.push('-'));
    }
}

/// Scan output loses at most one trailing dash to trimming.
proof fn lemma_trim_scan_output(o: Seq<char>)
    requires
        o.len() > 0,
        o[0] != '-',
        forall|i: int| 0 <= i < o.len() - 1 ==> !(#[trigger] o[i] == '-' && o[i + 1] == '-'),
    ensures
        trim_trailing_dashes(o) == (if o.last() == '-' {
            o.drop_last()
        } else {
            o
        }),
{
    if o.last() == '-' {
        assert(o.len() >= 2);
        assert(!(o[o.len() - 2] == '-' && o[o.len() - 1] == '-'));
        assert(o.drop_last().last() == o[o.len() - 2]);
        assert(trim_trailing_dashes(o.drop_last()) == o.drop_last());
    }
}

/// Trimming only reaches into the last part when that part holds a
/// character other than a dash.
proof fn lemma_trim_append(x: Seq<char>, t: Seq<char>, k: int)
    requires
        0 <= k < t.len(),
        t[k] != '-',
    ensures
        trim_trailing_dashes(x + t) == x + trim_trailing_dashes(t),
    decreases t.len(),
{
    assert((x + t).last() == t.last());
    if t.last() == '-' {
        assert((x + t).drop_last() =~= x + t.drop_last());
        assert(t.drop_last()[k] == t[k]);
        lemma_trim_append(x, t.drop_last(), k);
    }
}

/// A letter or digit never ends up as a dash.
proof fn lemma_lower_not_dash(c: char)
    requires
        is_ascii_alnum(c),
    ensures
        ascii_lower(c) != '-',
        is_ascii_digit(ascii_lower(c)) || is_ascii_lower(ascii_lower(c)),
{
}

/// Any ASCII character other than a letter or digit separates words: the
/// identifier of `s`, a separator and `t` is the identifier of `s`, one
/// dash, and the identifier of `t`, whenever both hold a letter or digit.
pub proof fn lemma_kebab_id_separator(s: Seq<char>, c: char, t: Seq<char>)
    requires
        exists|i: int| #![trigger s[i]] 0 <= i < s.len() && ('0' <= s[i] <= '9' || 'a' <= s[i] <= 'z' || 'A' <= s[i] <= 'Z'),
        exists|j: int| #![trigger t[j]] 0 <= j < t.len() && ('0' <= t[j] <= '9' || 'a' <= t[j] <= 'z' || 'A' <= t[j] <= 'Z'),
        !('0' <= c <= '9' || 'a' <= c <= 'z' || 'A' <= c <= 'Z'),
    ensures
        kebab_id(s + seq![c] + t) == kebab_id(s) + seq!['-'] + kebab_id(t),
{
    let i = choose|i: int| #![trigger s[i]] 0 <= i < s.len() && ('0' <= s[i] <= '9' || 'a' <= s[i] <= 'z' || 'A' <= s[i] <= 'Z');
    let j = choose|j: int| #![trigger t[j]] 0 <= j < t.len() && ('0' <= t[j] <= '9' || 'a' <= t[j] <= 'z' || 'A' <= t[j] <= 'Z');
    assert(is_ascii_alnum(s[i]));
    assert(is_ascii_alnum(t[j]));
    lemma_kebab_scan_shape(s);
    lemma_kebab_scan_shape(t);
    let o = kebab_scan(s).0;
    let sc = s.push(c);
    assert(sc.drop_last() =~= s);
    assert(sc.last() == c);
    lemma_trim_scan_output(o);
    assert(kebab_scan(sc).0 =~= kebab_id(s).push('-'));
    lemma_scan_after_break(sc, t);
    let tt = kebab_scan(t).0;
    assert(tt[0] != '-');
    lemma_trim_append(kebab_id(s).push('-'), tt, 0);
    assert(s + seq![c] + t =~= sc + t);
    assert(kebab_id(s).push('-') =~= kebab_id(s) + seq!['-']);
}

/// A separator at the end adds nothing.
pub proof fn lemma_kebab_id_trailing_separator(s: Seq<char>, c: char)
    requires
        !('0' <= c <= '9' || 'a' <= c <= 'z' || 'A' <= c <= 'Z'),
    ensures
        kebab_id(s + seq![c]) == kebab_id(s),
{
    let sc = s + seq![c];
    assert(sc.drop_last() =~= s);
    assert(sc.last() == c);
    let o = kebab_scan(s).0;
    assert(o.push('-').drop_last() =~= o);
}

/// A letter or digit after a letter or digit (or at the start) joins the
/// word, lowercased.
pub proof fn lemma_kebab_id_letter_or_digit(s: Seq<char>, a: char)
    requires
        ('0' <= a <= '9' || 'a' <= a <= 'z' || 'A' <= a <= 'Z'),
        s.len() == 0 || ('0' <= s.last() <= '9' || 'a' <= s.last() <= 'z' || 'A' <= s.last() <= 'Z'),
    ensures
        kebab_id(s + seq![a]) == kebab_id(s) + seq![if 'A' <= a <= 'Z' {
            ((a as u32) + 32) as char
        } else {
            a
        }],
{
    let sa = s + seq![a];
    assert(sa.drop_last() =~= s);
    assert(sa.last() == a);
    lemma_lower_not_dash(a);
    if s.len() > 0 {
        lemma_lower_not_dash(s.last());
        assert(kebab_scan(s).0 == kebab_scan(s.drop_last()).0.push(ascii_lower(s.last())));
        assert(kebab_scan(s).0.last() != '-');
    }
    assert(kebab_scan(s).0.push(ascii_lower(a)) =~= kebab_id(s) + seq![ascii_lower(a)]);
}

/// What comes before the first letter or digit is dropped.
pub proof fn lemma_kebab_id_leading_separators(s: Seq<char>, t: Seq<char>)
    requires
        forall|i: int| #![trigger s[i]] 0 <= i < s.len() ==> !('0' <= s[i] <= '9' || 'a' <= s[i] <= 'z' || 'A' <= s[i] <= 'Z'),
    ensures
        kebab_id(s + t) == kebab_id(t),
{
    lemma_kebab_scan_shape(s);
    assert(!has_alnum(s));
    lemma_scan_after_break(s, t);
    assert(kebab_scan(s).0 + kebab_scan(t).0 =~= kebab_scan(t).0);
}

/// Normalizes a free-form drive identifier into kebab-case: lowercases,
/// collapses any run of non-alphanumeric characters (spaces, underscores,
/// punctuation) into a single `-`, and trims leading/trailing `-`.
pub fn normalize_drive_id(input: &str) -> (r: Result<String, DriveIdError>)
    ensures
        has_alnum(input@) <==> r is Ok,
        r matches Ok(id) ==> id@ == kebab_id(input@) && is_kebab(id@) && id@.len() > 0,
        r matches Err(e) ==> e == DriveIdError::Empty,
{
    let chars = chars_of(input);
    let mut out: Vec<char> = Vec::new();
    let mut prev_dash = true;
    let mut i: usize = 0;
    while i < chars.len()
        invariant
            chars@ == input@,
            0 <= i <= chars.len(),
            (out@, prev_dash) == kebab_scan(input@.subrange(0, i as int)),
        decreases chars.len() - i,
    {
        let c = chars[i];
        proof {
            let p = input@.subrange(0, i + 1);
            assert(p.drop_last() =~= input@.subrange(0, i as int));
            assert(p.last() == c);
        }
        if ('0' <= c && c <= '9') || ('a' <= c && c <= 'z') {
            out.push(c);
            prev_dash = false;
        } else if 'A' <= c && c <= 'Z' {
            let lower = ((c as u8) + 32) as char;
            assert(lower == ascii_lower(c));
            out.push(lower);
            prev_dash = false;
        } else if !prev_dash {
            out.push('-');
            prev_dash = true;
        }
        i = i + 1;
    }
    proof {
        assert(input@.subrange(0, input@.len() as int) =~= input@);
        lemma_kebab_scan_shape(input@);
        lemma_trim_trailing_dashes(out@);
    }
    let ghost scanned = out@;
    while out.len() > 0 && out[out.len() - 1] == '-'
        invariant
            trim_trailing_dashes(out@) == trim_trailing_dashes(scanned),
        decreases out.len(),
    {
        let ghost before = out@;
        out.pop();
        assert(out@ =~= before.drop_last());
    }
    if out.len() == 0 {
        Err(DriveIdError::Empty)
    } else {
        let id = string_from_chars(&out);
        Ok(id)
    }
}

} // verus!
