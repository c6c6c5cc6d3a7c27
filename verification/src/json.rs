//! JSON string literals, as `serde_json` writes them.
use vstd::prelude::*;

verus! {

#[verifier::external_type_specification]
#[verifier::external_body]
pub struct ExSerdeJsonError(serde_json::Error);

/// The hexadecimal digit for `d`, lower case.
pub open spec fn hex_digit(d: u32) -> char {
    if d < 10 {
        (('0' as u32) + d) as char
    } else {
        (('a' as u32) + d - 10) as char
    }
}

/// How one character is written inside a JSON string literal.
pub open spec fn json_escape_char(c: char) -> Seq<char> {
    if c == '"' {
        seq!['\\', '"']
    } else if c == '\\' {
        seq!['\\', '\\']
    } else if c == '\u{8}' {
        seq!['\\', 'b']
    } else if c == '\t' {
        seq!['\\', 't']
    } else if c == '\n' {
        seq!['\\', 'n']
    } else if c == '\u{c}' {
        seq!['\\', 'f']
    } else if c == '\r' {
        seq!['\\', 'r']
    } else if (c as u32) < 0x20 {
        seq!['\\', 'u', '0', '0', hex_digit((c as u32) / 16), hex_digit((c as u32) % 16)]
    } else {
        seq![c]
    }
}

/// The characters of `s`, each written as inside a JSON string literal.
pub open spec fn json_escaped(s: Seq<char>) -> Seq<char>
    decreases s.len(),
{
    if s.len() == 0 {
        seq![]
    } else {
        json_escaped(s.drop_last()) + json_escape_char(s.last())
    }
}

/// The JSON string literal for `s`: `s` escaped, between double quotes.
pub open spec fn json_string(s: Seq<char>) -> Seq<char> {
    seq!['"'] + json_escaped(s) + seq!['"']
}

/// The character that a one-letter escape `\e` stands for in a JSON string.
pub open spec fn short_escape(e: char) -> Option<char> {
    if e == '"' {
        Some('"')
    } else if e == '\\' {
        Some('\\')
    } else if e == '/' {
        Some('/')
    } else if e == 'b' {
        Some('\u{8}')
    } else if e == 'f' {
        Some('\u{c}')
    } else if e == 'n' {
        Some('\n')
    } else if e == 'r' {
        Some('\r')
    } else if e == 't' {
        Some('\t')
    } else {
        None
    }
}

/// The value of a hexadecimal digit of either case.
pub open spec fn hex_value(c: char) -> Option<nat> {
    let u = c as u32;
    if 48 <= u <= 57 {
        Some((u - 48) as nat)
    } else if 97 <= u <= 102 {
        Some((u - 87) as nat)
    } else if 65 <= u <= 70 {
        Some((u - 55) as nat)
    } else {
        None
    }
}

/// The code written by the four hexadecimal digits of a `\u` escape that
/// starts `s`, where they are digits.
pub open spec fn unicode_escape(s: Seq<char>) -> Option<nat> {
    if s.len() >= 6 && hex_value(s[2]) is Some && hex_value(s[3]) is Some && hex_value(s[4]) is Some
        && hex_value(s[5]) is Some {
        Some(((hex_value(s[2])->0 * 16 + hex_value(s[3])->0) * 16 + hex_value(s[4])->0) * 16
            + hex_value(s[5])->0)
    } else {
        None
    }
}

/// Reads a JSON string literal whose opening quote has been read: the
/// characters it stands for, and the text after its closing quote; none where
/// it is not well formed. A `\u` escape is read where it writes a code outside
/// the surrogates.
pub open spec fn read_string_rest(s: Seq<char>) -> Option<(Seq<char>, Seq<char>)>
    decreases s.len(),
{
    if s.len() == 0 {
        None
    } else if s[0] == '"' {
        Some((seq![], s.drop_first()))
    } else if s[0] == '\\' {
        if s.len() >= 2 && short_escape(s[1]) is Some {
            match read_string_rest(s.skip(2)) {
                Some(r) => Some((seq![short_escape(s[1])->0] + r.0, r.1)),
                None => None,
            }
        } else if s.len() >= 6 && s[1] == 'u' && unicode_escape(s) is Some && (unicode_escape(s)->0
            < 0xD800 || unicode_escape(s)->0 >= 0xE000) {
            match read_string_rest(s.skip(6)) {
                Some(r) => Some((seq![((unicode_escape(s)->0) as u32) as char] + r.0, r.1)),
                None => None,
            }
        } else {
            None
        }
    } else if (s[0] as u32) < 0x20 {
        None
    } else {
        match read_string_rest(s.drop_first()) {
            Some(r) => Some((seq![s[0]] + r.0, r.1)),
            None => None,
        }
    }
}

/// Reads a JSON string literal at the start of `s`: the characters it stands
/// for and the text after it; none where `s` does not start with one.
pub open spec fn read_string(s: Seq<char>) -> Option<(Seq<char>, Seq<char>)> {
    if s.len() > 0 && s[0] == '"' {
        read_string_rest(s.drop_first())
    } else {
        None
    }
}

proof fn lemma_json_escaped_concat(a: Seq<char>, b: Seq<char>)
    ensures
        json_escaped(a + b) == json_escaped(a) + json_escaped(b),
    decreases b.len(),
{
    if b.len() == 0 {
        assert(a + b =~= a);
        assert(json_escaped(b) =~= Seq::<char>::empty());
        assert(json_escaped(a) + json_escaped(b) =~= json_escaped(a));
    } else {
        lemma_json_escaped_concat(a, b.drop_last());
        assert((a + b).drop_last() =~= a + b.drop_last());
        assert((a + b).last() == b.last());
        assert(json_escaped(a + b) =~= json_escaped(a) + json_escaped(b));
    }
}

proof fn lemma_hex_digit_value(d: u32)
    requires
        d < 16,
    ensures
        hex_value(hex_digit(d)) == Some(d as nat),
{
    assert(('0' as u32) == 48);
    assert(('a' as u32) == 97);
}

/// Reading one escaped character, then the rest.
proof fn lemma_read_escape_char(c: char, x: Seq<char>)
    ensures
        read_string_rest(json_escape_char(c) + x) == (match read_string_rest(x) {
            Some(r) => Some((seq![c] + r.0, r.1)),
            None => None,
        }),
{
    let s = json_escape_char(c) + x;
    let e = json_escape_char(c);
    if c == '"' || c == '\\' || c == '\u{8}' || c == '\t' || c == '\n' || c == '\u{c}' || c == '\r' {
        assert(s[0] == '\\');
        assert(s[1] == e[1]);
        assert(s.skip(2) =~= x);
    } else if (c as u32) < 0x20 {
        let u = c as u32;
        lemma_hex_digit_value(u / 16);
        lemma_hex_digit_value(u % 16);
        assert(('0' as u32) == 48);
        assert(s[0] == '\\');
        assert(s[1] == 'u');
        assert(s[2] == '0' && s[3] == '0');
        assert(s[4] == hex_digit(u / 16));
        assert(s[5] == hex_digit(u % 16));
        assert(short_escape('u') is None);
        assert(unicode_escape(s) == Some(u as nat));
        assert(s.skip(6) =~= x);
        vstd::utf8::char_u32_cast(c, u);
    } else {
        assert(e =~= seq![c]);
        assert(s[0] == c);
        assert(s.drop_first() =~= x);
    }
}

/// The JSON string literal of `t`, followed by any text, reads back as `t`
/// and that text.
pub proof fn lemma_json_string_reads_back(t: Seq<char>, rest: Seq<char>)
    ensures
        read_string(json_string(t) + rest) == Some((t, rest)),
    decreases t.len(),
{
    let s = json_string(t) + rest;
    assert(s[0] == '"');
    assert(s.drop_first() =~= json_escaped(t) + seq!['"'] + rest);
    lemma_escaped_reads_back(t, rest);
}

proof fn lemma_escaped_reads_back(t: Seq<char>, rest: Seq<char>)
    ensures
        read_string_rest(json_escaped(t) + seq!['"'] + rest) == Some((t, rest)),
    decreases t.len(),
{
    if t.len() == 0 {
        assert(json_escaped(t) =~= Seq::<char>::empty());
        let s = json_escaped(t) + seq!['"'] + rest;
        assert(s[0] == '"');
        assert(s.drop_first() =~= rest);
        assert(t =~= Seq::<char>::empty());
    } else {
        let c = t[0];
        let tail = t.drop_first();
        assert(t =~= seq![c] + tail);
        lemma_json_escaped_concat(seq![c], tail);
        assert(seq![c].drop_last() =~= Seq::<char>::empty());
        assert(json_escaped(Seq::<char>::empty()) =~= Seq::<char>::empty());
        assert(seq![c].last() == c);
        assert(json_escaped(seq![c]) == json_escaped(seq![c].drop_last()) + json_escape_char(c));
        assert(json_escaped(seq![c]) =~= json_escape_char(c));
        lemma_escaped_reads_back(tail, rest);
        let x = json_escaped(tail) + seq!['"'] + rest;
        assert(json_escaped(t) + seq!['"'] + rest =~= json_escape_char(c) + x);
        lemma_read_escape_char(c, x);
        assert(seq![c] + tail =~= t);
    }
}

/// `serde_json::to_string` on a string slice. It writes the JSON string literal
/// for `s`: a double quote, each character with `"`, `\`, and the control
/// characters below 0x20 escaped (`\b`, `\t`, `\n`, `\f`, `\r`, and `\u00xx` with
/// lower-case hex digits for the others), then a double quote. It writes into
/// a `Vec<u8>`, which never fails, so the result is always `Ok`.
#[verifier::external_body]
pub(crate) fn json_string_literal(s: &str) -> (res: Result<String, serde_json::Error>)
    ensures
        res is Ok,
        res matches Ok(t) ==> t@ == json_string(s@),
{
    serde_json::to_string(s)
}

} // verus!
