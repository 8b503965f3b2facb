//! Rendering raw attribute values as text under a selectable policy.
//!
//! A value is either rendered as a string or dropped ("unrepresentable");
//! no policy ever raises a hard error.

use vstd::prelude::*;
use vstd::utf8::{decode_utf8, valid_utf8};

verus! {

/// How a raw attribute value is rendered as text.
#[derive(Clone, Copy, PartialEq, Eq, Structural, Debug)]
pub enum EncodingPolicy {
    /// Escape every byte as printable ASCII, in the conventional
    /// backslash style (control and non-ASCII bytes become `\xNN`).
    Escaped,
    /// Standard base64 with `+` and `/` for values 62 and 63, `=` padding.
    Base64,
    /// The value must already be valid UTF-8 text; otherwise it is dropped.
    Utf8,
}

/// The lowercase hexadecimal digit for a value below sixteen.
pub open spec fn hex_digit_char(v: int) -> char
    recommends
        0 <= v < 16,
{
    if v < 10 {
        ((48 + v) as u8) as char
    } else {
        ((87 + v) as u8) as char
    }
}

/// The base64 alphabet character for a six-bit value.
pub open spec fn b64_char(v: int) -> char
    recommends
        0 <= v < 64,
{
    if v < 26 {
        ((65 + v) as u8) as char
    } else if v < 52 {
        ((71 + v) as u8) as char
    } else if v < 62 {
        ((v - 4) as u8) as char
    } else if v == 62 {
        '+'
    } else {
        '/'
    }
}

/// The six-bit value a base64 alphabet character stands for,
/// or a negative number for a character outside the alphabet.
pub open spec fn b64_val(c: char) -> int {
    let u = c as u32;
    if 65 <= u <= 90 {
        u - 65
    } else if 97 <= u <= 122 {
        u - 71
    } else if 48 <= u <= 57 {
        u + 4
    } else if u == 43 {
        62
    } else if u == 47 {
        63
    } else {
        -1
    }
}

/// Standard base64 of a byte sequence: each group of three bytes becomes
/// four alphabet characters; a final group of one or two bytes is padded
/// with `=`.
pub open spec fn b64_encode(bytes: Seq<u8>) -> Seq<char>
    decreases bytes.len(),
{
    if bytes.len() == 0 {
        Seq::empty()
    } else if bytes.len() == 1 {
        let b0 = bytes[0] as int;
        seq![b64_char(b0 / 4), b64_char((b0 % 4) * 16), '=', '=']
    } else if bytes.len() == 2 {
        let b0 = bytes[0] as int;
        let b1 = bytes[1] as int;
        seq![
            b64_char(b0 / 4),
            b64_char((b0 % 4) * 16 + b1 / 16),
            b64_char((b1 % 16) * 4),
            '=',
        ]
    } else {
        let b0 = bytes[0] as int;
        let b1 = bytes[1] as int;
        let b2 = bytes[2] as int;
        seq![
            b64_char(b0 / 4),
            b64_char((b0 % 4) * 16 + b1 / 16),
            b64_char((b1 % 16) * 4 + b2 / 64),
            b64_char(b2 % 64),
        ] + b64_encode(bytes.skip(3))
    }
}

/// Standard base64 decoding: the inverse of [`b64_encode`] on well-formed
/// input, and nothing on input that is not a padded base64 text.
pub open spec fn b64_decode(s: Seq<char>) -> Option<Seq<u8>>
    decreases s.len(),
{
    if s.len() == 0 {
        Some(Seq::empty())
    } else if s.len() < 4 {
        None
    } else {
        let c0 = b64_val(s[0]);
        let c1 = b64_val(s[1]);
        if c0 < 0 || c1 < 0 {
            None
        } else if s[2] == '=' && s[3] == '=' {
            if s.len() == 4 {
                Some(seq![(c0 * 4 + c1 / 16) as u8])
            } else {
                None
            }
        } else if s[3] == '=' {
            let c2 = b64_val(s[2]);
            if c2 < 0 {
                None
            } else if s.len() == 4 {
                Some(seq![(c0 * 4 + c1 / 16) as u8, ((c1 % 16) * 16 + c2 / 4) as u8])
            } else {
                None
            }
        } else {
            let c2 = b64_val(s[2]);
            let c3 = b64_val(s[3]);
            if c2 < 0 || c3 < 0 {
                None
            } else {
                match b64_decode(s.skip(4)) {
                    Some(rest) => Some(
                        seq![
                            (c0 * 4 + c1 / 16) as u8,
                            ((c1 % 16) * 16 + c2 / 4) as u8,
                            ((c2 % 4) * 64 + c3) as u8,
                        ] + rest,
                    ),
                    None => None,
                }
            }
        }
    }
}

/// Every alphabet character decodes back to the six-bit value it stands for.
pub proof fn lemma_b64_char_val(v: int)
    requires
        0 <= v < 64,
    ensures
        b64_val(b64_char(v)) == v,
        b64_char(v) != '=',
{
}

/// Decoding a base64 encoding with standard base64 reproduces the
/// original bytes exactly.
pub proof fn lemma_b64_round_trip(bytes: Seq<u8>)
    ensures
        b64_decode(b64_encode(bytes)) == Some(bytes),
    decreases bytes.len(),
{
    if bytes.len() == 0 {
        assert(b64_encode(bytes) =~= Seq::<char>::empty());
        assert(b64_decode(b64_encode(bytes)) == Some(Seq::<u8>::empty()));
        assert(bytes =~= Seq::<u8>::empty());
    } else if bytes.len() == 1 {
        let b0 = bytes[0] as int;
        lemma_b64_char_val(b0 / 4);
        lemma_b64_char_val((b0 % 4) * 16);
        let s = b64_encode(bytes);
        assert(s.len() == 4);
        assert(b64_val(s[0]) * 4 + b64_val(s[1]) / 16 == b0);
        assert(b64_decode(s).unwrap() =~= bytes);
    } else if bytes.len() == 2 {
        let b0 = bytes[0] as int;
        let b1 = bytes[1] as int;
        lemma_b64_char_val(b0 / 4);
        lemma_b64_char_val((b0 % 4) * 16 + b1 / 16);
        lemma_b64_char_val((b1 % 16) * 4);
        let s = b64_encode(bytes);
        assert(s.len() == 4);
        let c1 = (b0 % 4) * 16 + b1 / 16;
        assert(b64_val(s[0]) * 4 + c1 / 16 == b0);
        assert((c1 % 16) * 16 + b64_val(s[2]) / 4 == b1);
        assert(b64_decode(s).unwrap() =~= bytes);
    } else {
        let b0 = bytes[0] as int;
        let b1 = bytes[1] as int;
        let b2 = bytes[2] as int;
        lemma_b64_char_val(b0 / 4);
        lemma_b64_char_val((b0 % 4) * 16 + b1 / 16);
        lemma_b64_char_val((b1 % 16) * 4 + b2 / 64);
        lemma_b64_char_val(b2 % 64);
        let s = b64_encode(bytes);
        let rest = bytes.skip(3);
        lemma_b64_round_trip(rest);
        assert(s.skip(4) =~= b64_encode(rest));
        let c1 = (b0 % 4) * 16 + b1 / 16;
        let c2 = (b1 % 16) * 4 + b2 / 64;
        assert(b64_val(s[0]) * 4 + c1 / 16 == b0);
        assert((c1 % 16) * 16 + c2 / 4 == b1);
        assert((c2 % 4) * 64 + b64_val(s[3]) == b2);
        assert(b64_decode(s).unwrap() =~= bytes);
    }
}

/// The conventional printable-ASCII escape of one byte: tab, carriage
/// return, newline, backslash and both quotes become two-character
/// escapes, other printable ASCII stands for itself, and everything else
/// becomes `\xNN` with lowercase hexadecimal digits.
pub open spec fn escape_byte(b: u8) -> Seq<char> {
    if b == 9 {
        seq!['\\', 't']
    } else if b == 13 {
        seq!['\\', 'r']
    } else if b == 10 {
        seq!['\\', 'n']
    } else if b == 92 {
        seq!['\\', '\\']
    } else if b == 39 {
        seq!['\\', '\'']
    } else if b == 34 {
        seq!['\\', '"']
    } else if 32 <= b && b <= 126 {
        seq![b as char]
    } else {
        seq!['\\', 'x', hex_digit_char(b as int / 16), hex_digit_char(b as int % 16)]
    }
}

/// The printable-ASCII escape of a whole byte sequence, byte by byte.
pub open spec fn escape_bytes(bytes: Seq<u8>) -> Seq<char>
    decreases bytes.len(),
{
    if bytes.len() == 0 {
        Seq::empty()
    } else {
        escape_bytes(bytes.drop_last()) + escape_byte(bytes.last())
    }
}

/// What [`encode_value`] returns: the rendering of a raw value under a
/// policy, or nothing when the value is unrepresentable under it.
/// Only the `Utf8` policy can drop a value.
pub open spec fn spec_encode(value: Seq<u8>, policy: EncodingPolicy) -> Option<Seq<char>> {
    match policy {
        EncodingPolicy::Escaped => Some(escape_bytes(value)),
        EncodingPolicy::Base64 => Some(b64_encode(value)),
        EncodingPolicy::Utf8 => if valid_utf8(value) {
            Some(decode_utf8(value))
        } else {
            None
        },
    }
}

/// Relies on `base64::engine::general_purpose::STANDARD` and
/// `base64::Engine::encode`: standard RFC 4648 base64 of the input bytes,
/// with the `+`/`/` alphabet and `=` padding.
#[verifier::external_body]
fn base64_encode(value: &Vec<u8>) -> (r: String)
    ensures
        r@ == b64_encode(value@),
{
    base64::Engine::encode(&base64::engine::general_purpose::STANDARD, value)
}

/// Relies on `String::from_utf8`: returns the bytes as a string exactly
/// when they are valid UTF-8, and the string holds those bytes decoded.
#[verifier::external_body]
fn utf8_decode(value: &Vec<u8>) -> (r: Option<String>)
    ensures
        r is Some <==> valid_utf8(value@),
        r is Some ==> r.unwrap()@ == decode_utf8(value@),
{
    String::from_utf8(value.clone()).ok()
}

/// Relies on `String::push`: appends one character to the string.
#[verifier::external_body]
pub(crate) fn push_char(s: &mut String, c: char)
    ensures
        final(s)@ == old(s)@.push(c),
{
    s.push(c)
}

/// The lowercase hexadecimal digit for a value below sixteen.
pub(crate) fn hex_digit(v: u8) -> (c: char)
    requires
        v < 16,
    ensures
        c == hex_digit_char(v as int),
{
    if v < 10 {
        (48 + v) as char
    } else {
        (87 + v) as char
    }
}

/// Renders a whole byte sequence as printable ASCII, escaping what is not.
fn escape_value(value: &Vec<u8>) -> (r: String)
    ensures
        r@ == escape_bytes(value@),
{
    let mut out = String::new();
    let mut i: usize = 0;
    while i < value.len()
        invariant
            i <= value@.len(),
            out@ == escape_bytes(value@.take(i as int)),
        decreases value@.len() - i,
    {
        let b = value[i];
        if b == 9 {
            push_char(&mut out, '\\');
            push_char(&mut out, 't');
        } else if b == 13 {
            push_char(&mut out, '\\');
            push_char(&mut out, 'r');
        } else if b == 10 {
            push_char(&mut out, '\\');
            push_char(&mut out, 'n');
        } else if b == 92 {
            push_char(&mut out, '\\');
            push_char(&mut out, '\\');
        } else if b == 39 {
            push_char(&mut out, '\\');
            push_char(&mut out, '\'');
        } else if b == 34 {
            push_char(&mut out, '\\');
            push_char(&mut out, '"');
        } else if 32 <= b && b <= 126 {
            push_char(&mut out, b as char);
        } else {
            push_char(&mut out, '\\');
            push_char(&mut out, 'x');
            push_char(&mut out, hex_digit(b / 16));
            push_char(&mut out, hex_digit(b % 16));
        }
        proof {
            let pre = value@.take(i as int);
            assert(value@.take(i + 1).drop_last() =~= pre);
            assert(value@.take(i + 1).last() == value@[i as int]);
            assert(out@ =~= escape_bytes(pre) + escape_byte(value@[i as int]));
        }
        i = i + 1;
    }
    proof {
        assert(value@.take(value@.len() as int) =~= value@);
    }
    out
}

/// Renders a raw attribute value under the given policy, or reports it
/// unrepresentable. The `Escaped` and `Base64` policies succeed on every
/// byte sequence; `Utf8` succeeds exactly on valid UTF-8.
pub fn encode_value(value: &Vec<u8>, policy: EncodingPolicy) -> (r: Option<String>)
    ensures
        r is Some <==> spec_encode(value@, policy) is Some,
        r is Some ==> r.unwrap()@ == spec_encode(value@, policy).unwrap(),
{
    match policy {
        EncodingPolicy::Escaped => Some(escape_value(value)),
        EncodingPolicy::Base64 => Some(base64_encode(value)),
        EncodingPolicy::Utf8 => utf8_decode(value),
    }
}

} // verus!
