//! Verified string helpers: equality, character scans, decimal
//! rendering, and the engine's identifier and path constructions.

use vstd::prelude::*;
use vstd::string::StrSliceExecFns;
use vstd::string::StringExecFns;

verus! {

// ───────────────────────────────────────────────────────────────────
// Character classes
// ───────────────────────────────────────────────────────────────────

pub open spec fn is_dec_digit(c: char) -> bool {
    '0' <= c && c <= '9'
}

pub open spec fn is_lower_hex_digit(c: char) -> bool {
    is_dec_digit(c) || ('a' <= c && c <= 'f')
}

/// Whether std's `char::is_alphanumeric` accepts the character: the
/// Unicode Alphabetic and Numeric classes.
pub uninterp spec fn is_alnum(c: char) -> bool;

/// Relies on std's `char::is_alphanumeric`: a pure classification of
/// the character.
#[verifier::external_body]
pub(crate) fn char_is_alphanumeric(c: char) -> (r: bool)
    ensures
        r == is_alnum(c),
{
    c.is_alphanumeric()
}

/// Unicode letters and digits, hyphen and underscore: the characters
/// a username may hold.
pub open spec fn is_username_char(c: char) -> bool {
    is_alnum(c) || c == '_' || c == '-'
}

// ───────────────────────────────────────────────────────────────────
// String scans
// ───────────────────────────────────────────────────────────────────

/// Character-level string equality.
pub fn str_eq(a: &str, b: &str) -> (r: bool)
    ensures
        r == (a@ == b@),
{
    let alen = a.unicode_len();
    let blen = b.unicode_len();
    if alen != blen {
        return false;
    }
    let mut i: usize = 0;
    while i < alen
        invariant
            i <= alen,
            alen == a@.len(),
            blen == b@.len(),
            alen == blen,
            forall|j: int| 0 <= j < i ==> a@[j] == b@[j],
        decreases alen - i,
    {
        if a.get_char(i) != b.get_char(i) {
            return false;
        }
        i = i + 1;
    }
    proof {
        assert(a@ =~= b@);
    }
    true
}

/// Whether the string holds the character anywhere.
pub fn contains_char(s: &str, c: char) -> (r: bool)
    ensures
        r == s@.contains(c),
{
    let len = s.unicode_len();
    let mut i: usize = 0;
    while i < len
        invariant
            i <= len,
            len == s@.len(),
            forall|j: int| 0 <= j < i ==> s@[j] != c,
        decreases len - i,
    {
        if s.get_char(i) == c {
            return true;
        }
        i = i + 1;
    }
    false
}

/// The path-traversal shapes the engine rejects in a file id: a
/// slash, a backslash, or two dots in a row.
pub open spec fn has_traversal(s: Seq<char>) -> bool {
    ||| exists|i: int| 0 <= i < s.len() && (s[i] == '/' || s[i] == '\\')
    ||| exists|i: int| 0 <= i && i + 1 < s.len() && #[trigger] s[i] == '.' && s[i + 1] == '.'
}

/// Whether the string holds a path-traversal shape.
pub fn contains_traversal(s: &str) -> (r: bool)
    ensures
        r == has_traversal(s@),
{
    let len = s.unicode_len();
    let mut i: usize = 0;
    while i < len
        invariant
            i <= len,
            len == s@.len(),
            forall|j: int| 0 <= j < i ==> s@[j] != '/' && s@[j] != '\\',
            forall|j: int| 0 <= j && j + 1 < i ==> !(#[trigger] s@[j] == '.' && s@[j + 1] == '.'),
        decreases len - i,
    {
        let c = s.get_char(i);
        if c == '/' || c == '\\' {
            return true;
        }
        if c == '.' && i > 0 {
            if s.get_char(i - 1) == '.' {
                return true;
            }
        }
        i = i + 1;
    }
    false
}

// ───────────────────────────────────────────────────────────────────
// Decimal rendering
// ───────────────────────────────────────────────────────────────────

pub open spec fn digit_char(d: int) -> char {
    if d == 0 {
        '0'
    } else if d == 1 {
        '1'
    } else if d == 2 {
        '2'
    } else if d == 3 {
        '3'
    } else if d == 4 {
        '4'
    } else if d == 5 {
        '5'
    } else if d == 6 {
        '6'
    } else if d == 7 {
        '7'
    } else if d == 8 {
        '8'
    } else {
        '9'
    }
}

/// The decimal rendering of a non-negative integer.
pub open spec fn dec_str(n: int) -> Seq<char>
    decreases n,
{
    if n < 10 {
        seq![digit_char(n)]
    } else {
        dec_str(n / 10).push(digit_char(n % 10))
    }
}

fn digit_str(d: u32) -> (r: &'static str)
    requires
        d < 10,
    ensures
        r@ =~= seq![digit_char(d as int)],
{
    proof {
        reveal_strlit("0");
        reveal_strlit("1");
        reveal_strlit("2");
        reveal_strlit("3");
        reveal_strlit("4");
        reveal_strlit("5");
        reveal_strlit("6");
        reveal_strlit("7");
        reveal_strlit("8");
        reveal_strlit("9");
    }
    match d {
        0 => "0",
        1 => "1",
        2 => "2",
        3 => "3",
        4 => "4",
        5 => "5",
        6 => "6",
        7 => "7",
        8 => "8",
        _ => "9",
    }
}

/// Renders a `u32` in decimal.
pub fn u32_dec(n: u32) -> (r: String)
    ensures
        r@ == dec_str(n as int),
    decreases n,
{
    if n < 10 {
        String::from_str(digit_str(n))
    } else {
        let mut s = u32_dec(n / 10);
        s.append(digit_str(n % 10));
        proof {
            assert(s@ =~= dec_str(n as int));
        }
        s
    }
}

pub proof fn lemma_dec_str_digits(n: int)
    requires
        0 <= n,
    ensures
        dec_str(n).len() >= 1,
        forall|i: int| 0 <= i < dec_str(n).len() ==> is_dec_digit(#[trigger] dec_str(n)[i]),
    decreases n,
{
    if n >= 10 {
        lemma_dec_str_digits(n / 10);
    }
}

pub proof fn lemma_dec_str_injective(a: int, b: int)
    requires
        0 <= a,
        0 <= b,
        dec_str(a) == dec_str(b),
    ensures
        a == b,
    decreases a + b,
{
    lemma_dec_str_digits(a);
    lemma_dec_str_digits(b);
    if a < 10 && b < 10 {
        assert(dec_str(a) =~= seq![digit_char(a)]);
        assert(dec_str(b) =~= seq![digit_char(b)]);
        assert(dec_str(a)[0] == digit_char(a));
        assert(dec_str(b)[0] == digit_char(b));
        assert(digit_char(a) == digit_char(b));
    } else if a < 10 {
        assert(dec_str(b) =~= dec_str(b / 10).push(digit_char(b % 10)));
        assert(dec_str(b).len() >= 2) by {
            lemma_dec_str_digits(b / 10);
        }
    } else if b < 10 {
        assert(dec_str(a) =~= dec_str(a / 10).push(digit_char(a % 10)));
        assert(dec_str(a).len() >= 2) by {
            lemma_dec_str_digits(a / 10);
        }
    } else {
        assert(dec_str(a) =~= dec_str(a / 10).push(digit_char(a % 10)));
        assert(dec_str(b) =~= dec_str(b / 10).push(digit_char(b % 10)));
        assert(dec_str(a).last() == digit_char(a % 10));
        assert(dec_str(b).last() == digit_char(b % 10));
        assert(0 <= a % 10 < 10);
        assert(0 <= b % 10 < 10);
        assert(a % 10 == b % 10);
        assert(dec_str(a / 10) =~= dec_str(b / 10)) by {
            assert(dec_str(a).drop_last() =~= dec_str(a / 10));
            assert(dec_str(b).drop_last() =~= dec_str(b / 10));
        }
        lemma_dec_str_injective(a / 10, b / 10);
        assert(a == 10 * (a / 10) + a % 10);
        assert(b == 10 * (b / 10) + b % 10);
    }
}

// ───────────────────────────────────────────────────────────────────
// Identifier and path construction
// ───────────────────────────────────────────────────────────────────

/// The composite id of a chunk row: `<file_id>_<index>`.
pub open spec fn chunk_id_spec(fid: Seq<char>, idx: int) -> Seq<char> {
    fid + "_"@ + dec_str(idx)
}

/// Builds the composite chunk id.
pub fn make_chunk_id(file_id: &str, idx: u32) -> (r: String)
    ensures
        r@ == chunk_id_spec(file_id@, idx as int),
{
    let mut s = String::from_str(file_id);
    s.append("_");
    let d = u32_dec(idx);
    s.append(d.as_str());
    proof {
        assert(s@ =~= chunk_id_spec(file_id@, idx as int));
    }
    s
}

/// Two composite chunk ids agree only on the same file id and index:
/// the suffix after the last underscore is all digits, so the split
/// is unambiguous.
pub proof fn lemma_chunk_id_injective(f1: Seq<char>, i1: int, f2: Seq<char>, i2: int)
    requires
        0 <= i1,
        0 <= i2,
        chunk_id_spec(f1, i1) == chunk_id_spec(f2, i2),
    ensures
        f1 == f2,
        i1 == i2,
{
    reveal_strlit("_");
    lemma_dec_str_digits(i1);
    lemma_dec_str_digits(i2);
    let s = chunk_id_spec(f1, i1);
    let d1 = dec_str(i1);
    let d2 = dec_str(i2);
    assert(s.len() == f1.len() + 1 + d1.len());
    assert(s.len() == f2.len() + 1 + d2.len());
    assert(s[f1.len() as int] == '_');
    assert(s[f2.len() as int] == '_');
    assert(!is_dec_digit('_'));
    if f1.len() < f2.len() {
        // the underscore of the second split would land inside the
        // digit suffix of the first
        let k = f2.len() - f1.len() - 1;
        assert(0 <= k < d1.len());
        assert(s[f2.len() as int] == d1[k as int]);
        assert(false);
    }
    if f2.len() < f1.len() {
        let k = f1.len() - f2.len() - 1;
        assert(0 <= k < d2.len());
        assert(s[f1.len() as int] == d2[k as int]);
        assert(false);
    }
    assert forall|j: int| 0 <= j < f1.len() implies f1[j] == f2[j] by {
        assert(f1[j] == (f1 + "_"@ + d1)[j]);
        assert(f2[j] == (f2 + "_"@ + d2)[j]);
    }
    assert(f1 =~= f2);
    assert forall|j: int| 0 <= j < d1.len() implies d1[j] == d2[j] by {
        assert(d1[j] == (f1 + "_"@ + d1)[f1.len() + 1 + j]);
        assert(d2[j] == (f2 + "_"@ + d2)[f2.len() + 1 + j]);
    }
    assert(d1 =~= d2);
    lemma_dec_str_injective(i1, i2);
}

/// The blob-store path of a chunk payload.
pub open spec fn chunk_path_spec(fid: Seq<char>, idx: int) -> Seq<char> {
    "./Privafile/Chunks/"@ + fid + "/"@ + dec_str(idx) + ".stchunk"@
}

/// Builds the blob-store path of a chunk payload.
pub fn make_chunk_path(file_id: &str, idx: u32) -> (r: String)
    ensures
        r@ == chunk_path_spec(file_id@, idx as int),
{
    let mut s = String::from_str("./Privafile/Chunks/");
    s.append(file_id);
    s.append("/");
    let d = u32_dec(idx);
    s.append(d.as_str());
    s.append(".stchunk");
    proof {
        assert(s@ =~= chunk_path_spec(file_id@, idx as int));
    }
    s
}

/// The blob-store directory that holds a file's chunk payloads.
pub open spec fn chunks_dir_spec(fid: Seq<char>) -> Seq<char> {
    "./Privafile/Chunks/"@ + fid
}

/// Builds the chunk directory path of a file.
pub fn make_chunks_dir(file_id: &str) -> (r: String)
    ensures
        r@ == chunks_dir_spec(file_id@),
{
    let mut s = String::from_str("./Privafile/Chunks/");
    s.append(file_id);
    s
}

/// The legacy blob-store path of a whole-file payload.
pub open spec fn whole_path_spec(fid: Seq<char>) -> Seq<char> {
    "./Privafile/Uploads/"@ + fid + ".st"@
}

/// Builds the legacy whole-file path.
pub fn make_whole_path(file_id: &str) -> (r: String)
    ensures
        r@ == whole_path_spec(file_id@),
{
    let mut s = String::from_str("./Privafile/Uploads/");
    s.append(file_id);
    s.append(".st");
    proof {
        assert(s@ =~= whole_path_spec(file_id@));
    }
    s
}

} // verus!
