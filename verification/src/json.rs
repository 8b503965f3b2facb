//! JSON text for per-file results: string escaping and the
//! `{"file_name": ..., "attrs": {...}}` object, character by character.

use vstd::prelude::*;
use vstd::string::StrSliceExecFns;
use vstd::string::StringExecFns;

use crate::encoding::hex_digit_char;
use crate::encoding::push_char;
use crate::encoding::hex_digit;
use crate::model::AttrPair;
use crate::model::FileAttrs;
use crate::model::pairs_view;

verus! {

/// How one character appears inside a JSON string literal: quote and
/// backslash are escaped, the common control characters get their short
/// escapes, the remaining control characters become `\u00NN`, and every
/// other character stands for itself.
pub open spec fn json_escape_char(c: char) -> Seq<char> {
    if c == '"' {
        seq!['\\', '"']
    } else if c == '\\' {
        seq!['\\', '\\']
    } else if c == '\u{8}' {
        seq!['\\', 'b']
    } else if c == '\u{c}' {
        seq!['\\', 'f']
    } else if c == '\n' {
        seq!['\\', 'n']
    } else if c == '\r' {
        seq!['\\', 'r']
    } else if c == '\t' {
        seq!['\\', 't']
    } else if (c as u32) < 32 {
        seq![
            '\\',
            'u',
            '0',
            '0',
            hex_digit_char((c as u32) as int / 16),
            hex_digit_char((c as u32) as int % 16),
        ]
    } else {
        seq![c]
    }
}

/// The body of a JSON string literal for a character sequence.
pub open spec fn json_escape(s: Seq<char>) -> Seq<char>
    decreases s.len(),
{
    if s.len() == 0 {
        Seq::empty()
    } else {
        json_escape(s.drop_last()) + json_escape_char(s.last())
    }
}

/// A JSON string literal: the escaped characters between double quotes.
pub open spec fn json_string(s: Seq<char>) -> Seq<char> {
    seq!['"'] + json_escape(s) + seq!['"']
}

/// One member of the attribute object: `"name":"value"`.
pub open spec fn json_member(e: (Seq<char>, Seq<char>)) -> Seq<char> {
    json_string(e.0) + seq![':'] + json_string(e.1)
}

/// The members of the attribute object, comma-separated, no trailing comma.
pub open spec fn json_members(entries: Seq<(Seq<char>, Seq<char>)>) -> Seq<char>
    decreases entries.len(),
{
    if entries.len() == 0 {
        Seq::empty()
    } else if entries.len() == 1 {
        json_member(entries[0])
    } else {
        json_members(entries.drop_last()) + seq![','] + json_member(entries.last())
    }
}

/// The JSON object mapping attribute names to their encoded values.
pub open spec fn json_attrs_object(entries: Seq<(Seq<char>, Seq<char>)>) -> Seq<char> {
    seq!['{'] + json_members(entries) + seq!['}']
}

/// The JSON object emitted for one file.
pub open spec fn json_file_object(file: Seq<char>, entries: Seq<(Seq<char>, Seq<char>)>) -> Seq<
    char,
> {
    "{\"file_name\":"@ + json_string(file) + ",\"attrs\":"@ + json_attrs_object(entries)
        + seq!['}']
}

/// Appends the escaped body of a JSON string literal for `s`.
fn append_escaped(out: &mut String, s: &str)
    ensures
        final(out)@ == old(out)@ + json_escape(s@),
{
    let n = s.unicode_len();
    let mut i: usize = 0;
    while i < n
        invariant
            i <= n,
            n == s@.len(),
            out@ == old(out)@ + json_escape(s@.take(i as int)),
        decreases n - i,
    {
        let c = s.get_char(i);
        if c == '"' {
            push_char(out, '\\');
            push_char(out, '"');
        } else if c == '\\' {
            push_char(out, '\\');
            push_char(out, '\\');
        } else if c == '\u{8}' {
            push_char(out, '\\');
            push_char(out, 'b');
        } else if c == '\u{c}' {
            push_char(out, '\\');
            push_char(out, 'f');
        } else if c == '\n' {
            push_char(out, '\\');
            push_char(out, 'n');
        } else if c == '\r' {
            push_char(out, '\\');
            push_char(out, 'r');
        } else if c == '\t' {
            push_char(out, '\\');
            push_char(out, 't');
        } else {
            let u = c as u32;
            if u < 32 {
                push_char(out, '\\');
                push_char(out, 'u');
                push_char(out, '0');
                push_char(out, '0');
                push_char(out, hex_digit((u / 16) as u8));
                push_char(out, hex_digit((u % 16) as u8));
            } else {
                push_char(out, c);
            }
        }
        proof {
            let pre = s@.take(i as int);
            assert(s@.take(i + 1).drop_last() =~= pre);
            assert(s@.take(i + 1).last() == s@[i as int]);
            assert(out@ =~= old(out)@ + (json_escape(pre) + json_escape_char(s@[i as int])));
        }
        i = i + 1;
    }
    proof {
        assert(s@.take(n as int) =~= s@);
    }
}

/// Appends the JSON string literal for `s`.
fn append_json_string(out: &mut String, s: &str)
    ensures
        final(out)@ == old(out)@ + json_string(s@),
{
    push_char(out, '"');
    append_escaped(out, s);
    push_char(out, '"');
    proof {
        assert(final(out)@ =~= old(out)@ + json_string(s@));
    }
}

/// Builds the JSON object emitted for one file's collected attributes.
pub fn file_object_json(fa: &FileAttrs) -> (r: String)
    ensures
        r@ == json_file_object(fa.file_name@, pairs_view(fa.attrs@)),
{
    let ghost pairs = pairs_view(fa.attrs@);
    let mut out = String::new();
    out.append("{\"file_name\":");
    append_json_string(&mut out, fa.file_name.as_str());
    out.append(",\"attrs\":");
    push_char(&mut out, '{');
    let ghost open_prefix = "{\"file_name\":"@ + json_string(fa.file_name@) + ",\"attrs\":"@
        + seq!['{'];
    proof {
        assert(out@ =~= open_prefix);
    }
    let mut i: usize = 0;
    while i < fa.attrs.len()
        invariant
            i <= fa.attrs@.len(),
            pairs == pairs_view(fa.attrs@),
            pairs.len() == fa.attrs@.len(),
            open_prefix == ("{\"file_name\":"@ + json_string(fa.file_name@) + ",\"attrs\":"@
                + seq!['{']),
            out@ == open_prefix + json_members(pairs.take(i as int)),
        decreases fa.attrs@.len() - i,
    {
        if i > 0 {
            push_char(&mut out, ',');
        }
        let p = &fa.attrs[i];
        append_json_string(&mut out, p.name.as_str());
        push_char(&mut out, ':');
        append_json_string(&mut out, p.value.as_str());
        proof {
            let pre = pairs.take(i as int);
            assert(pairs.take(i + 1).drop_last() =~= pre);
            assert(pairs.take(i + 1).last() == pairs[i as int]);
            assert(pairs[i as int] == (fa.attrs@[i as int].name@, fa.attrs@[i as int].value@));
            if i == 0 {
                assert(out@ =~= open_prefix + json_member(pairs[0]));
            } else {
                assert(out@ =~= open_prefix + (json_members(pre) + seq![','] + json_member(
                    pairs[i as int],
                )));
            }
        }
        i = i + 1;
    }
    push_char(&mut out, '}');
    push_char(&mut out, '}');
    proof {
        assert(pairs.take(fa.attrs@.len() as int) =~= pairs);
        assert(out@ =~= json_file_object(fa.file_name@, pairs));
    }
    out
}

} // verus!
