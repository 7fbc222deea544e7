//! Percent-encoding and URL-safe base64.
use base64::engine::general_purpose::URL_SAFE_NO_PAD;
use base64::Engine;
use vstd::prelude::*;
use vstd::string::*;
use vstd::utf8::*;

verus! {

/// Whether a byte stands for itself in a URL: letters, digits, `-`, `.`, `_` and `~`.
pub open spec fn is_plain(b: u8) -> bool {
    ||| 48 <= b <= 57
    ||| 65 <= b <= 90
    ||| 97 <= b <= 122
    ||| b == 45
    ||| b == 46
    ||| b == 95
    ||| b == 126
}

/// The hexadecimal digit of a value, in upper case.
pub open spec fn hex_digit(d: int) -> u8 {
    if d < 10 {
        (48 + d) as u8
    } else {
        (55 + d) as u8
    }
}

/// A byte in a URL: itself, or a percent sign and two hexadecimal digits.
pub open spec fn escape(b: u8) -> Seq<u8> {
    if is_plain(b) {
        seq![b]
    } else {
        seq![37, hex_digit(b as int / 16), hex_digit(b as int % 16)]
    }
}

/// Bytes in a URL.
pub open spec fn escaped(bytes: Seq<u8>) -> Seq<u8>
    decreases bytes.len(),
{
    if bytes.len() == 0 {
        Seq::empty()
    } else {
        escape(bytes[0]) + escaped(bytes.skip(1))
    }
}

/// ASCII bytes as text.
pub open spec fn ascii(bytes: Seq<u8>) -> Seq<char> {
    bytes.map_values(|b: u8| b as char)
}

/// A text in a URL.
pub open spec fn url_text(s: Seq<char>) -> Seq<char> {
    ascii(escaped(encode_utf8(s)))
}

/// Writes a text for a URL, by `urlencoding::encode`: every byte of its UTF-8 form but
/// letters, digits, `-`, `.`, `_` and `~` becomes a percent sign and two hexadecimal
/// digits in upper case.
#[verifier::external_body]
pub(crate) fn url_encode(s: &str) -> (r: String)
    ensures
        r@ == url_text(s@),
{
    urlencoding::encode(s).into_owned()
}

/// The value of a hexadecimal digit, in either case.
pub open spec fn hex_value(b: u8) -> Option<int> {
    if 48 <= b <= 57 {
        Some(b - 48)
    } else if 65 <= b <= 70 {
        Some(b - 55)
    } else if 97 <= b <= 102 {
        Some(b - 87)
    } else {
        None
    }
}

/// The byte that is written at the beginning of some bytes of a URL by a percent sign and
/// two hexadecimal digits.
pub open spec fn escape_at(bytes: Seq<u8>) -> Option<u8> {
    if bytes.len() >= 3 && bytes[0] == 37 {
        match (hex_value(bytes[1]), hex_value(bytes[2])) {
            (Some(h), Some(l)) => Some((16 * h + l) as u8),
            _ => None,
        }
    } else {
        None
    }
}

/// The bytes that are written in a URL. What is no escape stands for itself.
pub open spec fn unescaped(bytes: Seq<u8>) -> Seq<u8>
    decreases bytes.len(),
{
    if bytes.len() == 0 {
        Seq::empty()
    } else {
        match escape_at(bytes) {
            Some(b) => seq![b] + unescaped(bytes.skip(3)),
            None => seq![bytes[0]] + unescaped(bytes.skip(1)),
        }
    }
}

/// The text that is written in a URL, where it is one.
pub open spec fn url_value(s: Seq<char>) -> Option<Seq<char>> {
    let bytes = unescaped(encode_utf8(s));
    if valid_utf8(bytes) {
        Some(decode_utf8(bytes))
    } else {
        None
    }
}

/// Reads a text from a URL, by `urlencoding::decode`: a percent sign and two hexadecimal
/// digits are a byte, all else stands for itself, and the bytes are text where they are
/// valid UTF-8.
#[verifier::external_body]
pub(crate) fn url_decode(s: &str) -> (r: Option<String>)
    ensures
        crate::text::opt_text(r) == url_value(s@),
{
    urlencoding::decode(s).map(|c| c.into_owned()).ok()
}

/// The character that stands for a value of six bits.
pub open spec fn b64_char(v: int) -> char {
    if v < 26 {
        (65 + v) as char
    } else if v < 52 {
        (71 + v) as char
    } else if v < 62 {
        (v - 4) as char
    } else if v == 62 {
        '-'
    } else {
        '_'
    }
}

/// Bytes in URL-safe base64 without padding: three bytes are four characters, each of six
/// bits; one byte left over is two characters, and two are three, filled up with zeros.
pub open spec fn b64(bytes: Seq<u8>) -> Seq<char>
    decreases bytes.len(),
{
    if bytes.len() == 0 {
        Seq::empty()
    } else {
        let x = bytes[0] as int;
        if bytes.len() == 1 {
            seq![b64_char(x / 4), b64_char(x % 4 * 16)]
        } else {
            let y = bytes[1] as int;
            if bytes.len() == 2 {
                seq![b64_char(x / 4), b64_char(x % 4 * 16 + y / 16), b64_char(y % 16 * 4)]
            } else {
                let z = bytes[2] as int;
                seq![
                    b64_char(x / 4),
                    b64_char(x % 4 * 16 + y / 16),
                    b64_char(y % 16 * 4 + z / 64),
                    b64_char(z % 64),
                ] + b64(bytes.skip(3))
            }
        }
    }
}

/// How many characters `n` bytes are in base64.
pub open spec fn b64_len(n: int) -> int {
    (4 * n + 2) / 3
}

/// Writes bytes in base64, by the `encode` of `base64`'s `URL_SAFE_NO_PAD` engine, which
/// cannot be asked for a text longer than memory can hold.
#[verifier::external_body]
fn b64_encode(bytes: &[u8]) -> (r: String)
    requires
        b64_len(bytes@.len() as int) <= isize::MAX,
    ensures
        r@ == b64(bytes@),
{
    URL_SAFE_NO_PAD.encode(bytes)
}

/// Bytes in URL-safe base64 without padding.
pub fn b64_text(bytes: &[u8]) -> (r: String)
    requires
        b64_len(bytes@.len() as int) <= isize::MAX,
    ensures
        r@ == b64(bytes@),
{
    b64_encode(bytes)
}

proof fn lemma_hex_digit(d: int)
    requires
        0 <= d < 16,
    ensures
        hex_value(hex_digit(d)) == Some(d),
        is_plain(hex_digit(d)),
{
}

proof fn lemma_escaped_is_ascii(bytes: Seq<u8>)
    ensures
        forall|i: int| 0 <= i < escaped(bytes).len() ==> #[trigger] escaped(bytes)[i] < 128,
    decreases bytes.len(),
{
    if bytes.len() > 0 {
        lemma_escaped_is_ascii(bytes.skip(1));
        let head = escape(bytes[0]);
        let tail = escaped(bytes.skip(1));
        assert forall|i: int| 0 <= i < escaped(bytes).len() implies #[trigger] escaped(bytes)[i] < 128 by {
            if i >= head.len() {
                assert(escaped(bytes)[i] == tail[i - head.len()]);
            } else {
                lemma_hex_digit(bytes[0] as int / 16);
                lemma_hex_digit(bytes[0] as int % 16);
                assert(escaped(bytes)[i] == head[i]);
            }
        }
    }
}

/// ASCII bytes as text, as bytes, are the same bytes.
proof fn lemma_ascii_bytes(bytes: Seq<u8>)
    requires
        forall|i: int| 0 <= i < bytes.len() ==> #[trigger] bytes[i] < 128,
    ensures
        encode_utf8(ascii(bytes)) == bytes,
{
    let t = ascii(bytes);
    assert forall|i: int| 0 <= i < t.len() implies '\0' <= #[trigger] t[i] <= '\u{7f}' && t[i] as u8
        == bytes[i] by {
        assert(bytes[i] < 128);
    }
    assert(is_ascii_chars(t));
    is_ascii_chars_encode_utf8(t);
    assert(encode_utf8(t) =~= bytes);
}

proof fn lemma_unescape_first(b: u8, rest: Seq<u8>)
    ensures
        unescaped(escape(b) + rest) == seq![b] + unescaped(rest),
{
    let s = escape(b) + rest;
    if is_plain(b) {
        assert(s[0] == b);
        assert(s.skip(1) =~= rest);
        assert(escape_at(s) is None);
    } else {
        lemma_hex_digit(b as int / 16);
        lemma_hex_digit(b as int % 16);
        assert(s[0] == 37 && s[1] == hex_digit(b as int / 16) && s[2] == hex_digit(b as int % 16));
        assert(s.skip(3) =~= rest);
        assert(escape_at(s) == Some(b));
    }
}

proof fn lemma_unescape_escaped(bytes: Seq<u8>)
    ensures
        unescaped(escaped(bytes)) == bytes,
    decreases bytes.len(),
{
    if bytes.len() > 0 {
        lemma_unescape_escaped(bytes.skip(1));
        lemma_unescape_first(bytes[0], escaped(bytes.skip(1)));
        assert(seq![bytes[0]] + bytes.skip(1) =~= bytes);
    }
}

/// What is written into a URL is read from it again, whatever the text.
pub proof fn url_text_reads_back(s: Seq<char>)
    ensures
        url_value(url_text(s)) == Some(s),
{
    let bytes = encode_utf8(s);
    lemma_escaped_is_ascii(bytes);
    lemma_ascii_bytes(escaped(bytes));
    lemma_unescape_escaped(bytes);
    encode_utf8_valid_utf8(s);
    encode_utf8_decode_utf8(s);
}

/// What is written into a URL holds nothing but letters, digits, `-`, `.`, `_`, `~` and
/// percent signs: it can never end a value or begin another.
pub proof fn url_text_is_harmless(s: Seq<char>, i: int)
    requires
        0 <= i < url_text(s).len(),
    ensures
        is_plain(url_text(s)[i] as u8) || url_text(s)[i] == '%',
        url_text(s)[i] != '&' && url_text(s)[i] != '=' && url_text(s)[i] != '/' && url_text(s)[i]
            != '?' && url_text(s)[i] != '#' && !crate::text::is_whitespace(url_text(s)[i]),
{
    let bytes = encode_utf8(s);
    lemma_escaped_plain(bytes);
    assert(url_text(s)[i] == escaped(bytes)[i] as char);
}

proof fn lemma_escaped_plain(bytes: Seq<u8>)
    ensures
        forall|i: int|
            0 <= i < escaped(bytes).len() ==> is_plain(#[trigger] escaped(bytes)[i])
                || escaped(bytes)[i] == 37,
    decreases bytes.len(),
{
    if bytes.len() > 0 {
        lemma_escaped_plain(bytes.skip(1));
        let head = escape(bytes[0]);
        let tail = escaped(bytes.skip(1));
        assert forall|i: int| 0 <= i < escaped(bytes).len() implies is_plain(
            #[trigger] escaped(bytes)[i],
        ) || escaped(bytes)[i] == 37 by {
            if i >= head.len() {
                assert(escaped(bytes)[i] == tail[i - head.len()]);
            } else {
                lemma_hex_digit(bytes[0] as int / 16);
                lemma_hex_digit(bytes[0] as int % 16);
                assert(escaped(bytes)[i] == head[i]);
            }
        }
    }
}

proof fn lemma_b64_char(v: int)
    requires
        0 <= v < 64,
    ensures
        '\0' <= b64_char(v) <= '\u{7f}',
        is_plain(b64_char(v) as u8),
{
}

/// Base64 has the length that it is said to have, and every character of it stands for
/// itself in a URL.
pub proof fn b64_is_plain(bytes: Seq<u8>)
    ensures
        b64(bytes).len() == b64_len(bytes.len() as int),
        forall|i: int|
            0 <= i < b64(bytes).len() ==> '\0' <= (#[trigger] b64(bytes)[i]) <= '\u{7f}' && is_plain(
                b64(bytes)[i] as u8,
            ),
    decreases bytes.len(),
{
    if bytes.len() > 0 {
        let x = bytes[0] as int;
        lemma_b64_char(x / 4);
        lemma_b64_char(x % 4 * 16);
        if bytes.len() > 1 {
            let y = bytes[1] as int;
            lemma_b64_char(x % 4 * 16 + y / 16);
            lemma_b64_char(y % 16 * 4);
            if bytes.len() > 2 {
                let z = bytes[2] as int;
                lemma_b64_char(y % 16 * 4 + z / 64);
                lemma_b64_char(z % 64);
                let tail = b64(bytes.skip(3));
                b64_is_plain(bytes.skip(3));
                assert(b64_len(bytes.len() as int) == 4 + b64_len(bytes.len() - 3));
                assert forall|i: int| 0 <= i < b64(bytes).len() implies '\0' <= (
                #[trigger] b64(bytes)[i]) <= '\u{7f}' && is_plain(b64(bytes)[i] as u8) by {
                    if i >= 4 {
                        assert(b64(bytes)[i] == tail[i - 4]);
                    }
                }
            }
        }
    }
}

proof fn lemma_escaped_of_plain(bytes: Seq<u8>)
    requires
        forall|i: int| 0 <= i < bytes.len() ==> is_plain(#[trigger] bytes[i]),
    ensures
        escaped(bytes) == bytes,
    decreases bytes.len(),
{
    if bytes.len() > 0 {
        let t = bytes.skip(1);
        assert forall|i: int| 0 <= i < t.len() implies is_plain(#[trigger] t[i]) by {
            assert(t[i] == bytes[i + 1]);
        }
        lemma_escaped_of_plain(t);
        assert(is_plain(bytes[0]));
        assert(seq![bytes[0]] + t =~= bytes);
    }
}

/// Base64 is written into a URL as it is.
pub proof fn b64_needs_no_escape(bytes: Seq<u8>)
    ensures
        url_text(b64(bytes)) == b64(bytes),
{
    b64_is_plain(bytes);
    let t = b64(bytes);
    assert forall|i: int| 0 <= i < t.len() implies '\0' <= #[trigger] t[i] <= '\u{7f}' by {
        assert(b64(bytes)[i] <= '\u{7f}');
    }
    assert(is_ascii_chars(t));
    is_ascii_chars_encode_utf8(t);
    let e = encode_utf8(t);
    assert forall|i: int| 0 <= i < e.len() implies is_plain(#[trigger] e[i]) by {
        assert(e[i] == t[i] as u8);
    }
    lemma_escaped_of_plain(e);
    assert forall|i: int| 0 <= i < t.len() implies ascii(e)[i] == t[i] by {
        assert(e[i] == t[i] as u8);
        assert(t[i] <= '\u{7f}');
    }
    assert(ascii(e) =~= t);
}

} // verus!
