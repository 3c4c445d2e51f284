//! JSON text: how a string is written as a JSON string, and reading a JSON
//! array of strings.
use vstd::prelude::*;
use vstd::utf8::*;

verus! {

pub const QUOTE: u8 = 0x22;

pub const BACKSLASH: u8 = 0x5C;

/// The lowercase hexadecimal digit of `d` (`0 <= d < 16`).
pub open spec fn hex_digit(d: int) -> u8 {
    if d < 10 {
        (0x30 + d) as u8
    } else {
        (0x61 + d - 10) as u8
    }
}

/// How one byte of a string's UTF-8 encoding appears inside a JSON string:
/// `"` and `\` and the control bytes below 0x20 are escaped (with the short
/// forms `\b \t \n \f \r` where they exist, else `\u00XX` with lowercase
/// hex digits); every other byte stands for itself.
pub open spec fn escape_byte(x: u8) -> Seq<u8> {
    if x == QUOTE {
        seq![BACKSLASH, QUOTE]
    } else if x == BACKSLASH {
        seq![BACKSLASH, BACKSLASH]
    } else if x == 0x08 {
        seq![BACKSLASH, 0x62u8]
    } else if x == 0x09 {
        seq![BACKSLASH, 0x74u8]
    } else if x == 0x0A {
        seq![BACKSLASH, 0x6Eu8]
    } else if x == 0x0C {
        seq![BACKSLASH, 0x66u8]
    } else if x == 0x0D {
        seq![BACKSLASH, 0x72u8]
    } else if x < 0x20 {
        seq![BACKSLASH, 0x75u8, 0x30u8, 0x30u8, hex_digit((x / 16) as int), hex_digit((x % 16) as int)]
    } else {
        seq![x]
    }
}

/// The escaped form of a byte sequence, byte by byte.
pub open spec fn json_escape(bytes: Seq<u8>) -> Seq<u8>
    decreases bytes.len(),
{
    if bytes.len() == 0 {
        Seq::empty()
    } else {
        json_escape(bytes.drop_last()) + escape_byte(bytes.last())
    }
}

/// A string written as a JSON string: its escaped UTF-8 bytes between
/// double quotes.
pub open spec fn json_string(s: Seq<char>) -> Seq<u8> {
    seq![QUOTE] + json_escape(encode_utf8(s)) + seq![QUOTE]
}

/// The value of a lowercase hexadecimal digit.
pub open spec fn hex_value(c: u8) -> int {
    if c < 0x61 {
        c - 0x30
    } else {
        c - 0x61 + 10
    }
}

/// Reads escaped bytes back: a backslash and one letter or `u00XX` stand for
/// the byte they escape, any other byte for itself.
pub open spec fn json_unescape(s: Seq<u8>) -> Seq<u8>
    decreases s.len(),
{
    if s.len() == 0 {
        Seq::empty()
    } else if s[0] != BACKSLASH || s.len() < 2 {
        seq![s[0]] + json_unescape(s.drop_first())
    } else if s[1] == 0x75 && s.len() >= 6 {
        seq![(hex_value(s[4]) * 16 + hex_value(s[5])) as u8] + json_unescape(
            s.subrange(6, s.len() as int),
        )
    } else {
        let c = s[1];
        let b: u8 = if c == 0x62 {
            0x08
        } else if c == 0x74 {
            0x09
        } else if c == 0x6E {
            0x0A
        } else if c == 0x66 {
            0x0C
        } else if c == 0x72 {
            0x0D
        } else {
            c
        };
        seq![b] + json_unescape(s.subrange(2, s.len() as int))
    }
}

/// Escaping a concatenation escapes each part.
pub proof fn lemma_json_escape_concat(a: Seq<u8>, b: Seq<u8>)
    ensures
        json_escape(a + b) == json_escape(a) + json_escape(b),
    decreases b.len(),
{
    if b.len() == 0 {
        assert(a + b =~= a);
        assert(json_escape(a) + json_escape(b) =~= json_escape(a));
    } else {
        lemma_json_escape_concat(a, b.drop_last());
        assert((a + b).drop_last() =~= a + b.drop_last());
        assert((a + b).last() == b.last());
        assert(json_escape(a + b) =~= json_escape(a) + json_escape(b));
    }
}

proof fn lemma_unescape_escape_byte(x: u8, rest: Seq<u8>)
    ensures
        json_unescape(escape_byte(x) + rest) == seq![x] + json_unescape(rest),
{
    let e = escape_byte(x);
    let s = e + rest;
    if x == QUOTE || x == BACKSLASH || x == 0x08 || x == 0x09 || x == 0x0A || x == 0x0C || x
        == 0x0D {
        assert(s.subrange(2, s.len() as int) =~= rest);
    } else if x < 0x20 {
        assert(s.subrange(6, s.len() as int) =~= rest);
        let hi = (x / 16) as int;
        let lo = (x % 16) as int;
        assert(hex_value(hex_digit(hi)) == hi);
        assert(hex_value(hex_digit(lo)) == lo);
        assert(hi * 16 + lo == x);
    } else {
        assert(s.drop_first() =~= rest);
    }
}

/// Reading back what was escaped gives the original bytes.
pub proof fn lemma_unescape_escape(b: Seq<u8>)
    ensures
        json_unescape(json_escape(b)) == b,
    decreases b.len(),
{
    if b.len() > 0 {
        let first = seq![b[0]];
        let rest = b.drop_first();
        assert(first + rest =~= b);
        lemma_json_escape_concat(first, rest);
        assert(first.drop_last() =~= Seq::<u8>::empty());
        assert(first.last() == b[0]);
        assert(json_escape(first.drop_last()) =~= Seq::<u8>::empty());
        assert(json_escape(first) == json_escape(first.drop_last()) + escape_byte(b[0]));
        assert(json_escape(first) =~= escape_byte(b[0]));
        lemma_unescape_escape_byte(b[0], json_escape(rest));
        lemma_unescape_escape(rest);
        assert(seq![b[0]] + rest =~= b);
    }
}

/// Different strings are written as different JSON strings.
pub proof fn lemma_json_string_injective(a: Seq<char>, b: Seq<char>)
    ensures
        json_string(a) == json_string(b) <==> a == b,
{
    if json_string(a) == json_string(b) {
        let ja = json_string(a);
        let ea = json_escape(encode_utf8(a));
        let eb = json_escape(encode_utf8(b));
        assert(ja.subrange(1, ja.len() - 1) =~= ea);
        assert(json_string(b).subrange(1, ja.len() - 1) =~= eb);
        lemma_unescape_escape(encode_utf8(a));
        lemma_unescape_escape(encode_utf8(b));
        encode_utf8_decode_utf8(a);
        encode_utf8_decode_utf8(b);
    }
}

/// Writes `s` as a JSON string at the end of `writer`, with
/// `serde_json::to_writer`. The contract claims that exactly the bytes of
/// `json_string(s@)` are appended: serde_json's compact serializer writes a
/// quote, the string's bytes escaped through its `ESCAPE` table, and a quote;
/// writing into a `Vec<u8>` cannot fail.
#[verifier::external_body]
pub(crate) fn write_json_string(writer: &mut Vec<u8>, s: &str)
    ensures
        final(writer)@ == old(writer)@ + json_string(s@),
{
    serde_json::to_writer(&mut *writer, s).unwrap();
}

/// What `serde_json::from_str::<Vec<String>>` gives for a text: the strings
/// of the JSON array the text holds, or `None` when the text is not a JSON
/// array of strings.
pub uninterp spec fn json_string_array_of_str(text: Seq<char>) -> Option<Seq<Seq<char>>>;

/// What `serde_json::from_slice::<Vec<String>>` gives for bytes: the strings
/// of the JSON array they hold, or `None` when they are not one.
pub uninterp spec fn json_string_array_of_bytes(bytes: Seq<u8>) -> Option<Seq<Seq<char>>>;

/// Reads a JSON array of strings from a text with `serde_json::from_str`.
/// The contract claims only that the result is the one named by
/// `json_string_array_of_str` for this text; what JSON texts are accepted is
/// left to that name.
#[verifier::external_body]
pub(crate) fn parse_string_array_str(text: &str) -> (res: Option<Vec<String>>)
    ensures
        match res {
            Some(v) => json_string_array_of_str(text@) == Some(v.deep_view()),
            None => json_string_array_of_str(text@) is None,
        },
{
    serde_json::from_str::<Vec<String>>(text).ok()
}

/// Reads a JSON array of strings from bytes with `serde_json::from_slice`.
/// The contract claims only that the result is the one named by
/// `json_string_array_of_bytes` for these bytes.
#[verifier::external_body]
pub(crate) fn parse_string_array_bytes(bytes: &[u8]) -> (res: Option<Vec<String>>)
    ensures
        match res {
            Some(v) => json_string_array_of_bytes(bytes@) == Some(v.deep_view()),
            None => json_string_array_of_bytes(bytes@) is None,
        },
{
    serde_json::from_slice::<Vec<String>>(bytes).ok()
}

/// Why an input could not be read.
#[derive(Clone, Copy, Debug, PartialEq, Eq, Structural)]
pub enum InputError {
    /// The input is not a JSON array of strings.
    NotAStringArray,
}

/// Reads the texts given as a JSON array of strings. An empty input holds
/// no texts (`Ok(None)`); any other input must be a JSON array of strings.
pub fn read_json_input(input: &[u8]) -> (res: Result<Option<Vec<String>>, InputError>)
    ensures
        input@.len() == 0 ==> res matches Ok(None),
        input@.len() > 0 ==> match json_string_array_of_bytes(input@) {
            None => res == Err::<Option<Vec<String>>, InputError>(InputError::NotAStringArray),
            Some(texts) => res matches Ok(Some(v)) && v.deep_view() == texts,
        },
{
    if input.len() == 0 {
        return Ok(None);
    }
    match parse_string_array_bytes(input) {
        None => Err(InputError::NotAStringArray),
        Some(texts) => Ok(Some(texts)),
    }
}

} // verus!
