//! Texts passed to the elevated helper that prepares the data directory: paths written as
//! hexadecimal, and quoting for the shell and AppleScript.
use vstd::prelude::*;
use vstd::utf8::{decode_utf8, encode_utf8, valid_utf8};

use crate::provider::{hex_digit, hex_of};
use crate::text::{chars_of, concat, lit, replace, replace_all, string_of};

verus! {

broadcast use vstd::string::group_string_axioms;

/// The name of the data directory next to the launcher.
pub const DATA_DIR_NAME: &'static str = "CodexLocalSync.data";

/// The UTF-8 bytes of a text, each as two lowercase hexadecimal digits.
pub fn encode_utf8_hex(value: &str) -> (r: String)
    ensures
        r@ == hex_of(encode_utf8(value@)),
{
    crate::provider::hex_encode(value.as_bytes())
}

/// The value of a hexadecimal digit (either case).
pub open spec fn digit_value(c: char) -> Option<u8> {
    if '0' <= c && c <= '9' {
        Some(((c as u32) - ('0' as u32)) as u8)
    } else if 'a' <= c && c <= 'f' {
        Some(((c as u32) - ('a' as u32) + 10) as u8)
    } else if 'A' <= c && c <= 'F' {
        Some(((c as u32) - ('A' as u32) + 10) as u8)
    } else {
        None
    }
}

/// The byte two characters stand for, as `u8::from_str_radix(_, 16)` reads them: two
/// digits, or `+` and one digit.
pub open spec fn pair_value(a: char, b: char) -> Option<u8> {
    match (digit_value(a), digit_value(b)) {
        (Some(x), Some(y)) => Some((x * 16 + y) as u8),
        (None, Some(y)) => if a == '+' {
            Some(y)
        } else {
            None
        },
        _ => None,
    }
}

/// The bytes a text of hexadecimal pairs stands for; `None` for an odd length, a
/// character outside ASCII, or a pair that is not a byte.
pub open spec fn hex_decoded(v: Seq<char>) -> Option<Seq<u8>>
    decreases v.len(),
{
    if v.len() % 2 != 0 {
        None
    } else if v.len() == 0 {
        Some(seq![])
    } else {
        match (hex_decoded(v.take(v.len() - 2)), pair_value(v[v.len() - 2], v[v.len() - 1])) {
            (Some(prefix), Some(b)) => Some(prefix.push(b)),
            _ => None,
        }
    }
}

fn digit_of(c: char) -> (r: Option<u8>)
    ensures
        r == digit_value(c),
{
    if '0' <= c && c <= '9' {
        Some(((c as u32) - ('0' as u32)) as u8)
    } else if 'a' <= c && c <= 'f' {
        Some(((c as u32) - ('a' as u32) + 10) as u8)
    } else if 'A' <= c && c <= 'F' {
        Some(((c as u32) - ('A' as u32) + 10) as u8)
    } else {
        None
    }
}

fn pair_of(a: char, b: char) -> (r: Option<u8>)
    ensures
        r == pair_value(a, b),
{
    match (digit_of(a), digit_of(b)) {
        (Some(x), Some(y)) => {
            assert(x < 16 && y < 16);
            Some(x * 16 + y)
        },
        (None, Some(y)) => if a == '+' {
            Some(y)
        } else {
            None
        },
        _ => None,
    }
}

pub proof fn lemma_hex_decoded_prefix(v: Seq<char>, n: int)
    requires
        0 <= n <= v.len(),
        n % 2 == 0,
        v.len() % 2 == 0,
        hex_decoded(v.take(n)) is None,
    ensures
        hex_decoded(v) is None,
    decreases v.len() - n,
{
    if n < v.len() {
        let w = v.take(n + 2);
        assert(w.take(w.len() - 2) =~= v.take(n));
        lemma_hex_decoded_prefix(v, n + 2);
    } else {
        assert(v.take(n) =~= v);
    }
}

/// The bytes written as hexadecimal pairs (see [`hex_decoded`]). A text of an odd number of
/// UTF-8 bytes gives none.
pub fn decode_hex(value: &str) -> (r: Option<Vec<u8>>)
    ensures
        encode_utf8(value@).len() % 2 != 0 ==> r is None,
        encode_utf8(value@).len() % 2 == 0 ==> match r {
            Some(b) => hex_decoded(value@) == Some(b@),
            None => hex_decoded(value@) is None,
        },
{
    if value.as_bytes().len() % 2 != 0 {
        return None;
    }
    let v = chars_of(value);
    if v.len() % 2 != 0 {
        return None;
    }
    let mut out: Vec<u8> = Vec::new();
    let mut i: usize = 0;
    assert(v@.take(0) =~= seq![]);
    while i < v.len()
        invariant
            v@ == value@,
            i <= v@.len(),
            i % 2 == 0,
            v@.len() % 2 == 0,
            hex_decoded(v@.take(i as int)) == Some(out@),
        decreases v@.len() - i,
    {
        let w = Ghost(v@.take(i + 2));
        proof {
            assert(w@.take(w@.len() - 2) =~= v@.take(i as int));
        }
        match pair_of(v[i], v[i + 1]) {
            Some(b) => {
                out.push(b);
            },
            None => {
                proof {
                    lemma_hex_decoded_prefix(v@, i + 2);
                }
                return None;
            },
        }
        i = i + 2;
    }
    assert(v@.take(v@.len() as int) =~= v@);
    Some(out)
}

/// The text whose UTF-8 bytes a hexadecimal text writes, when it is valid UTF-8. A text of
/// an odd number of UTF-8 bytes gives none.
pub fn decode_utf8_hex(value: &str) -> (r: Option<String>)
    ensures
        encode_utf8(value@).len() % 2 != 0 ==> r is None,
        encode_utf8(value@).len() % 2 == 0 ==> match r {
            Some(s) => hex_decoded(value@) matches Some(b) && valid_utf8(b) && s@ == decode_utf8(b),
            None => hex_decoded(value@) matches Some(b) ==> !valid_utf8(b),
        },
{
    match decode_hex(value) {
        Some(b) => match crate::agents::utf8_text(b.as_slice()) {
            Ok(s) => Some(s),
            Err(_) => None,
        },
        None => None,
    }
}

pub proof fn lemma_hex_roundtrip(b: Seq<u8>)
    ensures
        hex_decoded(hex_of(b)) == Some(b),
    decreases b.len(),
{
    if b.len() > 0 {
        lemma_hex_roundtrip(b.drop_last());
        let h = hex_of(b);
        assert(h.take(h.len() - 2) =~= hex_of(b.drop_last()));
        let x = b.last();
        let hi = x / 16;
        let lo = x % 16;
        assert(pair_value(hex_digit(hi), hex_digit(lo)) == Some(x));
        assert(b.drop_last().push(x) =~= b);
    }
}

/// A path written by [`encode_utf8_hex`] reads back as the same text.
pub proof fn law_hex_path_roundtrip(s: Seq<char>)
    ensures
        hex_decoded(hex_of(encode_utf8(s))) == Some(encode_utf8(s)),
        valid_utf8(encode_utf8(s)),
        decode_utf8(encode_utf8(s)) == s,
{
    lemma_hex_roundtrip(encode_utf8(s));
    vstd::utf8::encode_utf8_valid_utf8(s);
    vstd::utf8::encode_utf8_decode_utf8(s);
}

proof fn lemma_hex_ascii(b: Seq<u8>)
    ensures
        vstd::utf8::is_ascii_chars(hex_of(b)),
        hex_of(b).len() == 2 * b.len(),
    decreases b.len(),
{
    if b.len() > 0 {
        lemma_hex_ascii(b.drop_last());
        let x = b.last();
        let (hi, lo) = (x / 16, x % 16);
        assert(hex_digit(hi) <= '\u{7f}' && hex_digit(lo) <= '\u{7f}') by {
            assert(hi < 16 && lo < 16);
        }
        let h = hex_of(b);
        assert(h =~= hex_of(b.drop_last()) + seq![hex_digit(hi), hex_digit(lo)]);
        assert forall|i: int| 0 <= i < h.len() implies '\0' <= #[trigger] h[i] <= '\u{7f}' by {
            if i >= hex_of(b.drop_last()).len() {
            } else {
                assert(h[i] == hex_of(b.drop_last())[i]);
            }
        }
    }
}

/// What [`decode_utf8_hex`] gives for a text written by [`encode_utf8_hex`] is the text
/// itself: the hexadecimal text has an even number of UTF-8 bytes, its pairs give the text's
/// UTF-8 bytes back, and those are valid UTF-8 that decodes to the text.
pub proof fn law_utf8_hex_roundtrip(s: Seq<char>)
    ensures
        encode_utf8(hex_of(encode_utf8(s))).len() % 2 == 0,
        hex_decoded(hex_of(encode_utf8(s))) == Some(encode_utf8(s)),
        valid_utf8(encode_utf8(s)),
        decode_utf8(encode_utf8(s)) == s,
{
    let h = hex_of(encode_utf8(s));
    lemma_hex_ascii(encode_utf8(s));
    vstd::utf8::is_ascii_chars_encode_utf8(h);
    law_hex_path_roundtrip(s);
}

/// A text quoted for a POSIX shell: in single quotes, each `'` written `'\''`.
pub fn shell_quote(value: &str) -> (r: String)
    ensures
        r@ == seq!['\''] + replace_all(value@, seq!['\''], "'\\''"@) + seq!['\''],
{
    let q: Vec<char> = vec!['\''];
    assert(q@ =~= seq!['\'']);
    let inner = replace(&chars_of(value), &q, &lit("'\\''"));
    string_of(&concat(&concat(&q, &inner), &q))
}

/// A text quoted for AppleScript: in double quotes, with `\` and `"` escaped.
pub fn apple_quote(value: &str) -> (r: String)
    ensures
        r@ == seq!['"'] + replace_all(replace_all(value@, seq!['\\'], "\\\\"@), seq!['"'], "\\\""@)
            + seq!['"'],
{
    let bs: Vec<char> = vec!['\\'];
    let dq: Vec<char> = vec!['"'];
    assert(bs@ =~= seq!['\\']);
    assert(dq@ =~= seq!['"']);
    let a = replace(&chars_of(value), &bs, &lit("\\\\"));
    let b = replace(&a, &dq, &lit("\\\""));
    string_of(&concat(&concat(&dq, &b), &dq))
}

} // verus!
