//! Lossy decoding of bytes as UTF-8, one character at a time.
//!
//! A byte sequence is read as a run of *tokens*: a well-formed encoding stands
//! for its character, and each maximal ill-formed subsequence stands for one
//! replacement character.
use vstd::prelude::*;

verus! {

/// What an ill-formed byte sequence is shown as.
pub const REPLACEMENT: char = '\u{fffd}';

/// Whether `second` may follow the leading byte `first` in a well-formed
/// encoding: the rows of Unicode's table of well-formed byte sequences. The
/// narrowed ranges rule out overlong forms, surrogates and values past the last
/// code point.
pub open spec fn second_byte_ok(first: u8, second: u8) -> bool {
    ||| 0xc2 <= first <= 0xdf && 0x80 <= second <= 0xbf
    ||| first == 0xe0 && 0xa0 <= second <= 0xbf
    ||| 0xe1 <= first <= 0xec && 0x80 <= second <= 0xbf
    ||| first == 0xed && 0x80 <= second <= 0x9f
    ||| 0xee <= first <= 0xef && 0x80 <= second <= 0xbf
    ||| first == 0xf0 && 0x90 <= second <= 0xbf
    ||| 0xf1 <= first <= 0xf3 && 0x80 <= second <= 0xbf
    ||| first == 0xf4 && 0x80 <= second <= 0x8f
}

/// How many bytes a leading byte announces; 0 for a byte that leads nothing.
pub open spec fn announced_len(first: u8) -> int {
    if first <= 0x7f {
        1
    } else if 0xc2 <= first <= 0xdf {
        2
    } else if 0xe0 <= first <= 0xef {
        3
    } else if 0xf0 <= first <= 0xf4 {
        4
    } else {
        0
    }
}

/// How many leading bytes of `s` could be the beginning of one well-formed
/// encoding, never counting past the length that the first byte announces.
pub open spec fn well_formed_prefix(s: Seq<u8>) -> int {
    let n = announced_len(s[0]);
    if n == 0 {
        0
    } else if n == 1 || s.len() < 2 || !second_byte_ok(s[0], s[1]) {
        1
    } else if n == 2 || s.len() < 3 || !vstd::utf8::is_continuation_byte(s[2]) {
        2
    } else if n == 3 || s.len() < 4 || !vstd::utf8::is_continuation_byte(s[3]) {
        3
    } else {
        4
    }
}

/// How many bytes of the non-empty `s` its first token takes.
pub open spec fn token_len(s: Seq<u8>) -> nat {
    if vstd::utf8::valid_first_scalar(s) {
        vstd::utf8::length_of_first_scalar(s) as nat
    } else if well_formed_prefix(s) == 0 {
        1
    } else {
        well_formed_prefix(s) as nat
    }
}

/// The character that the first token of the non-empty `s` stands for.
pub open spec fn token_char(s: Seq<u8>) -> char {
    if vstd::utf8::valid_first_scalar(s) {
        vstd::utf8::decode_first_scalar(s) as char
    } else {
        REPLACEMENT
    }
}


/// `char::from_u32` converts exactly the Unicode scalar values, each to the
/// character with that number, and nothing else.
pub assume_specification[ char::from_u32 ](i: u32) -> (r: Option<char>)
    ensures
        r is Some <==> vstd::utf8::is_scalar(i),
        r matches Some(c) ==> c as u32 == i,
;

/// The table of well-formed byte sequences agrees with the arithmetic reading
/// of the same bytes: exactly the sequences whose announced bytes are all
/// admissible decode to a scalar value.
proof fn lemma_table_is_well_formedness(s: Seq<u8>)
    requires
        s.len() > 0,
    ensures
        vstd::utf8::valid_first_scalar(s) <==> announced_len(s[0]) > 0 && well_formed_prefix(s)
            == announced_len(s[0]),
        vstd::utf8::valid_first_scalar(s) ==> vstd::utf8::length_of_first_scalar(s) == announced_len(s[0]),
        vstd::utf8::valid_first_scalar(s) ==> vstd::utf8::is_scalar(vstd::utf8::decode_first_scalar(s)),
{
    let a = s[0];
    if a <= 0x7f {
        assert(a <= 0x7f ==> (a & 0x7f) == a) by (bit_vector);
    } else if s.len() >= 2 && 0xc0 <= a <= 0xdf {
        let b = s[1];
        assert(0xc0 <= a <= 0xdf && 0x80 <= b <= 0xbf ==> {
            let v = (((a & 0x1f) as u32) << 6) | ((b & 0x3f) as u32);
            &&& v <= 0x7ff
            &&& (0x80 <= v <==> 0xc2 <= a)
        }) by (bit_vector);
    } else if s.len() >= 3 && 0xe0 <= a <= 0xef {
        let b = s[1];
        let c = s[2];
        assert(0xe0 <= a <= 0xef && 0x80 <= b <= 0xbf && 0x80 <= c <= 0xbf ==> {
            let v = (((a & 0x0f) as u32) << 12) | (((b & 0x3f) as u32) << 6) | ((c & 0x3f) as u32);
            &&& v <= 0xffff
            &&& (0x800 <= v <==> (a != 0xe0 || 0xa0 <= b))
            &&& ((0xd800 <= v <= 0xdfff) <==> (a == 0xed && 0xa0 <= b))
        }) by (bit_vector);
    } else if s.len() >= 4 && 0xf0 <= a <= 0xf7 {
        let b = s[1];
        let c = s[2];
        let d = s[3];
        assert(0xf0 <= a <= 0xf7 && 0x80 <= b <= 0xbf && 0x80 <= c <= 0xbf && 0x80 <= d <= 0xbf ==> {
            let v = (((a & 0x07) as u32) << 18) | (((b & 0x3f) as u32) << 12) | (((c & 0x3f) as u32)
                << 6) | ((d & 0x3f) as u32);
            &&& (0x10000 <= v <==> (a != 0xf0 || 0x90 <= b))
            &&& (v <= 0x10ffff <==> (a < 0xf4 || (a == 0xf4 && b <= 0x8f)))
        }) by (bit_vector);
    }
}

/// A token is never empty and never reaches past the bytes it is read from.
pub proof fn lemma_token_len_bounds(s: Seq<u8>)
    requires
        s.len() > 0,
    ensures
        1 <= token_len(s) <= s.len(),
        token_len(s) <= 4,
{
    lemma_table_is_well_formedness(s);
}

/// A byte below 0x80 is a token by itself, and no other token shows an ASCII
/// character.
pub proof fn lemma_ascii_token(s: Seq<u8>)
    requires
        s.len() > 0,
    ensures
        s[0] <= 0x7f ==> token_len(s) == 1 && token_char(s) as u32 == s[0],
        s[0] > 0x7f ==> token_char(s) as u32 > 0x7f,
{
    lemma_table_is_well_formedness(s);
    let a = s[0];
    assert(a <= 0x7f ==> (a & 0x7f) == a) by (bit_vector);
}

/// Only continuation bytes follow the first byte of a token.
pub(crate) proof fn lemma_token_tail(s: Seq<u8>, i: int)
    requires
        s.len() > 0,
        1 <= i < token_len(s),
    ensures
        s[i] > 0x7f,
{
    lemma_table_is_well_formedness(s);
}

/// An ASCII byte at the end of a text changes none of the tokens before it.
pub(crate) proof fn lemma_ascii_ends_a_token(s: Seq<u8>, b: u8)
    requires
        s.len() > 0,
        b <= 0x7f,
    ensures
        token_len(s.push(b)) == token_len(s),
        token_char(s.push(b)) == token_char(s),
{
    lemma_table_is_well_formedness(s);
    lemma_table_is_well_formedness(s.push(b));
}

/// `s` is the beginning of a text that begins with a well-formed encoding.
pub open spec fn begins_scalar(s: Seq<u8>) -> bool {
    exists|more: Seq<u8>| vstd::utf8::valid_first_scalar(#[trigger] (s + more))
}

/// Where no well-formed encoding begins, one replacement character stands for a
/// maximal ill-formed sequence: its bytes are a single byte or the beginning of
/// an encoding, and with the byte after them they are no longer the beginning of
/// one.
pub proof fn law_a_replacement_stands_for_a_maximal_sequence(s: Seq<u8>, k: int)
    requires
        s.len() > 0,
        !vstd::utf8::valid_first_scalar(s),
        token_len(s) < k <= s.len(),
    ensures
        token_char(s) == REPLACEMENT,
        token_len(s) == 1 || begins_scalar(s.take(token_len(s) as int)),
        !begins_scalar(s.take(k)),
{
    if token_len(s) > 1 {
        lemma_begins_scalar(s);
    }
    lemma_table_is_well_formedness(s);
    assert forall|more: Seq<u8>| !vstd::utf8::valid_first_scalar(#[trigger] (s.take(k) + more)) by {
        let t = s.take(k) + more;
        assert(t.len() >= k);
        assert forall|i: int| 0 <= i < k implies t[i] == s[i] by {}
        lemma_table_is_well_formedness(t);
        assert(t[0] == s[0]);
        assert(k >= 2 ==> t[1] == s[1]);
        assert(k >= 3 ==> t[2] == s[2]);
        assert(k >= 4 ==> t[3] == s[3]);
    }
}

/// A token of more than one byte is the beginning of an encoding, also where the
/// text ends with it.
proof fn lemma_begins_scalar(s: Seq<u8>)
    requires
        s.len() > 0,
        token_len(s) > 1,
    ensures
        begins_scalar(s.take(token_len(s) as int)),
{
    let p = s.take(token_len(s) as int);
    let t = p + seq![0x80u8, 0x80u8];
    lemma_table_is_well_formedness(s);
    lemma_table_is_well_formedness(t);
    assert(vstd::utf8::valid_first_scalar(t));
}

/// Reads the token that starts at `pos`: its character and how many bytes it
/// takes.
pub fn decode_at(bytes: &[u8], pos: usize) -> (r: (char, usize))
    requires
        pos < bytes@.len(),
    ensures
        r.0 == token_char(bytes@.skip(pos as int)),
        r.1 == token_len(bytes@.skip(pos as int)),
{
    let ghost s = bytes@.skip(pos as int);
    proof {
        lemma_table_is_well_formedness(s);
    }
    let left: usize = bytes.len() - pos;
    let a: u8 = bytes[pos];
    let n: usize = if a <= 0x7f {
        1
    } else if 0xc2 <= a && a <= 0xdf {
        2
    } else if 0xe0 <= a && a <= 0xef {
        3
    } else if 0xf0 <= a && a <= 0xf4 {
        4
    } else {
        0
    };
    if n == 0 {
        return (REPLACEMENT, 1);
    }
    if n == 1 {
        assert(a <= 0x7f ==> (a & 0x7f) == a) by (bit_vector);
        return (scalar(a as u32), 1);
    }
    if left < 2 || !may_follow(a, bytes[pos + 1]) {
        return (REPLACEMENT, 1);
    }
    let b: u8 = bytes[pos + 1];
    if n == 2 {
        return (scalar((((a & 0x1f) as u32) << 6) | ((b & 0x3f) as u32)), 2);
    }
    if left < 3 || bytes[pos + 2] < 0x80 || bytes[pos + 2] > 0xbf {
        return (REPLACEMENT, 2);
    }
    let c: u8 = bytes[pos + 2];
    if n == 3 {
        return (
            scalar((((a & 0x0f) as u32) << 12) | (((b & 0x3f) as u32) << 6) | ((c & 0x3f) as u32)),
            3,
        );
    }
    if left < 4 || bytes[pos + 3] < 0x80 || bytes[pos + 3] > 0xbf {
        return (REPLACEMENT, 3);
    }
    let d: u8 = bytes[pos + 3];
    (
        scalar(
            (((a & 0x07) as u32) << 18) | (((b & 0x3f) as u32) << 12) | (((c & 0x3f) as u32) << 6)
                | ((d & 0x3f) as u32),
        ),
        4,
    )
}

/// The character with the scalar value `v`.
fn scalar(v: u32) -> (c: char)
    requires
        vstd::utf8::is_scalar(v),
    ensures
        c == v as char,
{
    match char::from_u32(v) {
        Some(c) => {
            proof {
                vstd::utf8::char_u32_cast(c, v);
            }
            c
        },
        None => REPLACEMENT,
    }
}

fn may_follow(first: u8, second: u8) -> (ok: bool)
    ensures
        ok == second_byte_ok(first, second),
{
    let lo: u8 = match first {
        0xe0 => 0xa0,
        0xf0 => 0x90,
        _ => 0x80,
    };
    let hi: u8 = match first {
        0xed => 0x9f,
        0xf4 => 0x8f,
        _ => 0xbf,
    };
    0xc2 <= first && first <= 0xf4 && lo <= second && second <= hi
}

/// Every beginning of a text shows one character: that of the well-formed
/// encoding which begins there, with all the bytes of it; else the replacement
/// character, for the longest run of bytes that begins an encoding, or for a
/// single byte where none does.
pub proof fn law_a_token_is_an_encoding_or_a_replacement(s: Seq<u8>)
    requires
        s.len() > 0,
    ensures
        vstd::utf8::valid_first_scalar(s) ==> {
            &&& token_char(s) as u32 == vstd::utf8::decode_first_scalar(s)
            &&& token_len(s) == vstd::utf8::length_of_first_scalar(s)
        },
        !vstd::utf8::valid_first_scalar(s) ==> {
            &&& token_char(s) as u32 == 0xfffd
            &&& token_len(s) == 1 || begins_scalar(s.take(token_len(s) as int))
            &&& forall|k: int| token_len(s) < k <= s.len() ==> !begins_scalar(#[trigger] s.take(k))
        },
{
    lemma_table_is_well_formedness(s);
    if vstd::utf8::valid_first_scalar(s) {
        vstd::utf8::char_u32_cast(token_char(s), vstd::utf8::decode_first_scalar(s));
    } else {
        if token_len(s) > 1 {
            lemma_begins_scalar(s);
        }
        assert forall|k: int| token_len(s) < k <= s.len() implies !begins_scalar(
            #[trigger] s.take(k),
        ) by {
            law_a_replacement_stands_for_a_maximal_sequence(s, k);
        }
    }
}

}
