//! Content hashing: the Blake2b-512 digest behind a trusted wrapper,
//! and verified lowercase-hex rendering over it.

use blake2::Digest;
use vstd::prelude::*;
use vstd::string::StrSliceExecFns;
use vstd::string::StringExecFns;

use crate::strutil::{is_dec_digit, is_lower_hex_digit};

verus! {

/// The Blake2b-512 digest of a byte sequence.
pub uninterp spec fn blake2b_of(b: Seq<u8>) -> Seq<u8>;

/// Relies on blake2's `Blake2b512`: the digest is 64 bytes and
/// depends on the input bytes alone.
#[verifier::external_body]
fn blake2b512_digest(data: &[u8]) -> (r: Vec<u8>)
    ensures
        r@ == blake2b_of(data@),
        r@.len() == 64,
{
    let mut h = blake2::Blake2b512::new();
    h.update(data);
    h.finalize().as_slice().to_vec()
}

// ───────────────────────────────────────────────────────────────────
// Lowercase hex rendering
// ───────────────────────────────────────────────────────────────────

pub open spec fn hex_digit(d: int) -> char {
    if d == 0 {
        '0'
    } else if d == 1 {
        '1'
    } else if d == 2 {
        '2'
    } else if d == 3 {
        '3'
    } else if d == 4 {
        '4'
    } else if d == 5 {
        '5'
    } else if d == 6 {
        '6'
    } else if d == 7 {
        '7'
    } else if d == 8 {
        '8'
    } else if d == 9 {
        '9'
    } else if d == 10 {
        'a'
    } else if d == 11 {
        'b'
    } else if d == 12 {
        'c'
    } else if d == 13 {
        'd'
    } else if d == 14 {
        'e'
    } else {
        'f'
    }
}

/// The two hex digits of one byte.
pub open spec fn hex_pair(b: u8) -> Seq<char> {
    seq![hex_digit(b as int / 16), hex_digit(b as int % 16)]
}

/// The lowercase hex rendering of a byte sequence.
pub open spec fn hex_str(b: Seq<u8>) -> Seq<char>
    decreases b.len(),
{
    if b.len() == 0 {
        Seq::empty()
    } else {
        hex_str(b.drop_last()) + hex_pair(b.last())
    }
}

pub proof fn lemma_hex_str_props(b: Seq<u8>)
    ensures
        hex_str(b).len() == 2 * b.len(),
        forall|i: int| 0 <= i < hex_str(b).len() ==> is_lower_hex_digit(#[trigger] hex_str(b)[i]),
    decreases b.len(),
{
    if b.len() > 0 {
        lemma_hex_str_props(b.drop_last());
        let out = hex_str(b);
        let pre = hex_str(b.drop_last());
        assert forall|i: int| 0 <= i < out.len() implies is_lower_hex_digit(
            #[trigger] out[i],
        ) by {
            if i < pre.len() {
                assert(out[i] == pre[i]);
            } else {
                assert(out[i] == hex_pair(b.last())[i - pre.len()]);
            }
        }
    }
}

fn hex_digit_str(d: u8) -> (r: &'static str)
    requires
        d < 16,
    ensures
        r@ =~= seq![hex_digit(d as int)],
{
    proof {
        reveal_strlit("0");
        reveal_strlit("1");
        reveal_strlit("2");
        reveal_strlit("3");
        reveal_strlit("4");
        reveal_strlit("5");
        reveal_strlit("6");
        reveal_strlit("7");
        reveal_strlit("8");
        reveal_strlit("9");
        reveal_strlit("a");
        reveal_strlit("b");
        reveal_strlit("c");
        reveal_strlit("d");
        reveal_strlit("e");
        reveal_strlit("f");
    }
    match d {
        0 => "0",
        1 => "1",
        2 => "2",
        3 => "3",
        4 => "4",
        5 => "5",
        6 => "6",
        7 => "7",
        8 => "8",
        9 => "9",
        10 => "a",
        11 => "b",
        12 => "c",
        13 => "d",
        14 => "e",
        _ => "f",
    }
}

/// Renders bytes as lowercase hex.
pub fn to_lower_hex(data: &[u8]) -> (r: String)
    ensures
        r@ == hex_str(data@),
{
    let n = data.len();
    let mut out = String::new();
    let mut i: usize = 0;
    while i < n
        invariant
            i <= n,
            n == data@.len(),
            out@ == hex_str(data@.take(i as int)),
        decreases n - i,
    {
        let ghost pre = out@;
        let b = data[i];
        out.append(hex_digit_str(b / 16));
        out.append(hex_digit_str(b % 16));
        proof {
            assert(data@.take(i + 1).drop_last() =~= data@.take(i as int));
            assert(data@.take(i + 1).last() == data@[i as int]);
            assert(hex_str(data@.take(i + 1)) == hex_str(data@.take(i as int)) + hex_pair(
                data@[i as int],
            ));
            assert(out@ =~= hex_str(data@.take(i + 1)));
        }
        i = i + 1;
    }
    proof {
        assert(data@.take(n as int) =~= data@);
    }
    out
}

// ───────────────────────────────────────────────────────────────────
// The engine's two digests
// ───────────────────────────────────────────────────────────────────

/// The hex digest recorded for a payload: lowercase hex of its
/// Blake2b-512 digest.
pub open spec fn content_hash_spec(bytes: Seq<u8>) -> Seq<char> {
    hex_str(blake2b_of(bytes))
}

/// Computes the hex digest of a payload.
pub fn content_hash(data: &[u8]) -> (r: String)
    ensures
        r@ == content_hash_spec(data@),
        r@.len() == 128,
        forall|i: int| 0 <= i < r@.len() ==> is_lower_hex_digit(#[trigger] r@[i]),
{
    let digest = blake2b512_digest(data);
    proof {
        lemma_hex_str_props(digest@);
    }
    to_lower_hex(digest.as_slice())
}

/// The bytes of a character sequence that holds only ASCII.
pub open spec fn ascii_bytes(s: Seq<char>) -> Seq<u8> {
    s.map_values(|c: char| c as u8)
}

/// The concatenated bytes of a sequence of hash strings.
pub open spec fn chain_bytes(hs: Seq<Seq<char>>) -> Seq<u8>
    decreases hs.len(),
{
    if hs.len() == 0 {
        Seq::empty()
    } else {
        chain_bytes(hs.drop_last()) + ascii_bytes(hs.last())
    }
}

/// The summary digest of a finalized upload: the digest of its
/// chunks' hex hash strings, concatenated in ascending index order.
pub open spec fn final_digest(hs: Seq<Seq<char>>) -> Seq<char> {
    content_hash_spec(chain_bytes(hs))
}

/// Hex digits are ASCII, so a hex hash string turns into bytes
/// character by character.
pub proof fn lemma_hex_chars_ascii(s: Seq<char>)
    requires
        forall|i: int| 0 <= i < s.len() ==> is_lower_hex_digit(#[trigger] s[i]),
    ensures
        vstd::utf8::is_ascii_chars(s),
{
    assert forall|i: int| 0 <= i < s.len() implies '\0' <= (#[trigger] s[i]) && s[i] <= '\u{7f}' by {
        let c = s[i];
        assert(is_lower_hex_digit(c));
        if is_dec_digit(c) {
            assert('\0' <= '0' && '9' <= '\u{7f}');
            assert('\0' <= c && c <= '\u{7f}');
        } else {
            assert('\0' <= 'a' && 'f' <= '\u{7f}');
            assert('\0' <= c && c <= '\u{7f}');
        }
    }
    assert(vstd::utf8::is_ascii_chars(s));
}

/// Computes the summary digest over the hash strings of a chunk run.
/// Each hash must hold only lowercase hex digits, as recorded hashes
/// do.
pub fn final_digest_of(hashes: &Vec<String>) -> (r: String)
    requires
        forall|k: int, i: int|
            0 <= k < hashes.deep_view().len() && 0 <= i < hashes.deep_view()[k].len()
                ==> is_lower_hex_digit(#[trigger] hashes.deep_view()[k][i]),
    ensures
        r@ == final_digest(hashes.deep_view()),
        r@.len() == 128,
        forall|i: int| 0 <= i < r@.len() ==> is_lower_hex_digit(#[trigger] r@[i]),
{
    broadcast use vstd::string::group_string_axioms;

    let ghost hs = hashes.deep_view();
    let n = hashes.len();
    let mut all: Vec<u8> = Vec::new();
    let mut i: usize = 0;
    while i < n
        invariant
            i <= n,
            n == hs.len(),
            hs == hashes.deep_view(),
            n == hashes.len(),
            forall|k: int, j: int|
                0 <= k < hs.len() && 0 <= j < hs[k].len() ==> is_lower_hex_digit(
                    #[trigger] hs[k][j],
                ),
            all@ == chain_bytes(hs.take(i as int)),
        decreases n - i,
    {
        let ghost pre = all@;
        proof {
            assert(hs[i as int] == hashes@[i as int]@);
            lemma_hex_chars_ascii(hs[i as int]);
            assert(hashes@[i as int].is_ascii());
        }
        let mut part = hashes[i].as_str().as_bytes_vec();
        proof {
            assert(part@ =~= ascii_bytes(hs[i as int])) by {
                vstd::utf8::is_ascii_chars_encode_utf8(hs[i as int]);
            }
        }
        all.append(&mut (part));
        proof {
            assert(hs.take(i + 1).drop_last() =~= hs.take(i as int));
            assert(hs.take(i + 1).last() == hs[i as int]);
            assert(chain_bytes(hs.take(i + 1)) == chain_bytes(hs.take(i as int)) + ascii_bytes(
                hs[i as int],
            ));
            assert(all@ =~= chain_bytes(hs.take(i + 1)));
        }
        i = i + 1;
    }
    proof {
        assert(hs.take(n as int) =~= hs);
    }
    content_hash(all.as_slice())
}

} // verus!
