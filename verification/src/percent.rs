//! Percent-encoding: file names on their way into a header, and links on
//! their way out of a document.

use vstd::prelude::*;
use vstd::string::*;
use vstd::utf8::*;

use crate::text::{lemma_ascii_byte, utf8_text};

verus! {

/// The byte that starts an escape.
pub const PERCENT: u8 = 37;

/// Whether `byte` is a hexadecimal digit, in either case.
pub open spec fn is_hex(byte: u8) -> bool {
    48 <= byte <= 57 || 65 <= byte <= 70 || 97 <= byte <= 102
}

/// What the hexadecimal digit `byte` counts.
pub open spec fn hex_value(byte: u8) -> int {
    if byte <= 57 {
        byte - 48
    } else if byte <= 70 {
        byte - 55
    } else {
        byte - 87
    }
}

/// Whether `bytes` start with an escape: `%` and two hexadecimal digits.
pub open spec fn starts_escape(bytes: Seq<u8>) -> bool {
    bytes.len() >= 3 && bytes[0] == PERCENT && is_hex(bytes[1]) && is_hex(bytes[2])
}

/// `bytes` with each escape replaced by the byte that it stands for. A `%`
/// that starts no escape stays.
pub open spec fn unescaped(bytes: Seq<u8>) -> Seq<u8>
    decreases bytes.len(),
{
    if bytes.len() == 0 {
        seq![]
    } else if starts_escape(bytes) {
        seq![(hex_value(bytes[1]) * 16 + hex_value(bytes[2])) as u8] + unescaped(bytes.skip(3))
    } else {
        seq![bytes[0]] + unescaped(bytes.skip(1))
    }
}

/// What a text with escapes stands for, unless that is not UTF-8.
pub open spec fn decoded(text: Seq<char>) -> Option<Seq<char>> {
    let bytes = unescaped(encode_utf8(text));
    if valid_utf8(bytes) {
        Some(decode_utf8(bytes))
    } else {
        None
    }
}

/// Whether `byte` stands for itself: a letter, a digit, or one of `-._~`.
pub open spec fn is_plain(byte: u8) -> bool {
    ||| 48 <= byte <= 57
    ||| 65 <= byte <= 90
    ||| 97 <= byte <= 122
    ||| byte == 45
    ||| byte == 46
    ||| byte == 95
    ||| byte == 126
}

/// The upper-case hexadecimal digit for `value`, which is below 16.
pub open spec fn hex_digit(value: int) -> char {
    if value < 10 {
        (48 + value) as char
    } else {
        (55 + value) as char
    }
}

/// How `byte` is written: as itself, or as `%` and its two digits.
pub open spec fn escaped_byte(byte: u8) -> Seq<char> {
    if is_plain(byte) {
        seq![byte as char]
    } else {
        seq!['%', hex_digit(byte as int / 16), hex_digit(byte as int % 16)]
    }
}

/// `bytes` with every byte that does not stand for itself escaped.
pub open spec fn escaped(bytes: Seq<u8>) -> Seq<char>
    decreases bytes.len(),
{
    if bytes.len() == 0 {
        seq![]
    } else {
        escaped_byte(bytes[0]) + escaped(bytes.skip(1))
    }
}

/// A text with every byte of its UTF-8 that does not stand for itself escaped.
pub open spec fn encoded(text: Seq<char>) -> Seq<char> {
    escaped(encode_utf8(text))
}

/// What the hexadecimal digit `byte` counts.
fn value_of_hex(byte: u8) -> (value: u8)
    requires
        is_hex(byte),
    ensures
        value == hex_value(byte),
        value < 16,
{
    if byte <= 57 {
        byte - 48
    } else if byte <= 70 {
        byte - 55
    } else {
        byte - 87
    }
}

/// Whether `byte` is a hexadecimal digit.
fn byte_is_hex(byte: u8) -> (hex: bool)
    ensures
        hex == is_hex(byte),
{
    (48 <= byte && byte <= 57) || (65 <= byte && byte <= 70) || (97 <= byte && byte <= 102)
}

/// Decode `%XY` escapes. A `%` that starts no escape is kept as written;
/// `None` if the result is not UTF-8.
pub fn percent_decode(text: &str) -> (plain: Option<String>)
    ensures
        plain is Some <==> decoded(text@) is Some,
        plain is Some ==> decoded(text@) == Some(plain->0@),
{
    let bytes = text.as_bytes();
    let mut out: Vec<u8> = Vec::with_capacity(bytes.len());
    let mut i: usize = 0;
    assert(bytes@.skip(0) == bytes@);
    while i < bytes.len()
        invariant
            i <= bytes@.len(),
            unescaped(bytes@) == out@ + unescaped(bytes@.skip(i as int)),
        decreases bytes@.len() - i,
    {
        let ghost rest = bytes@.skip(i as int);
        let ghost before = out@;
        if bytes[i] == PERCENT && bytes.len() - i >= 3 && byte_is_hex(bytes[i + 1])
            && byte_is_hex(bytes[i + 2]) {
            let byte = value_of_hex(bytes[i + 1]) * 16 + value_of_hex(bytes[i + 2]);
            out.push(byte);
            assert(starts_escape(rest));
            assert(rest.skip(3) == bytes@.skip(i + 3));
            assert(out@ + unescaped(bytes@.skip(i + 3)) == before + unescaped(rest));
            i += 3;
        } else {
            out.push(bytes[i]);
            assert(!starts_escape(rest));
            assert(rest.skip(1) == bytes@.skip(i + 1));
            assert(out@ + unescaped(bytes@.skip(i + 1)) == before + unescaped(rest));
            i += 1;
        }
    }
    assert(out@ == unescaped(bytes@));
    utf8_text(out)
}

/// The upper-case hexadecimal digit for `value`.
fn digit_of_hex(value: u8) -> (digit: char)
    requires
        value < 16,
    ensures
        digit == hex_digit(value as int),
{
    if value < 10 {
        (48 + value) as char
    } else {
        (55 + value) as char
    }
}

/// Percent-encode a file name for a header, which is ASCII only.
pub fn percent_encode(name: &str) -> (text: String)
    ensures
        text@ == encoded(name@),
{
    let bytes = name.as_bytes();
    let mut out = String::new();
    let mut i: usize = 0;
    assert(bytes@.skip(0) == bytes@);
    while i < bytes.len()
        invariant
            i <= bytes@.len(),
            escaped(bytes@) == out@ + escaped(bytes@.skip(i as int)),
        decreases bytes@.len() - i,
    {
        let byte = bytes[i];
        let ghost before = out@;
        assert(bytes@.skip(i as int).skip(1) == bytes@.skip(i + 1));
        if (48 <= byte && byte <= 57) || (65 <= byte && byte <= 90) || (97 <= byte && byte <= 122)
            || byte == 45 || byte == 46 || byte == 95 || byte == 126 {
            out.push(byte as char);
        } else {
            out.push('%');
            out.push(digit_of_hex(byte / 16));
            out.push(digit_of_hex(byte % 16));
        }
        assert(out@ == before + escaped_byte(byte));
        assert(out@ + escaped(bytes@.skip(i + 1)) == before + escaped(bytes@.skip(i as int)));
        i += 1;
    }
    assert(out@ == escaped(bytes@));
    out
}

/// Whether `ch` is `%`, or ASCII and stands for itself.
pub open spec fn is_encoded(ch: char) -> bool {
    ch == '%' || (ch as u32) < 128 && is_plain(ch as u8)
}

/// An escaped byte is ASCII and stands for the byte.
proof fn lemma_escaped_byte(byte: u8)
    ensures
        forall|i: int| 0 <= i < escaped_byte(byte).len() ==> is_encoded(escaped_byte(byte)[i]),
        is_ascii_chars(escaped_byte(byte)),
        is_plain(byte) ==> escaped_byte(byte)[0] as u8 == byte,
        !is_plain(byte) ==> {
            let digits = escaped_byte(byte);
            &&& is_hex(digits[1] as u8)
            &&& is_hex(digits[2] as u8)
            &&& hex_value(digits[1] as u8) * 16 + hex_value(digits[2] as u8) == byte
        },
{
    assert(0 <= byte as int / 16 < 16);
}

/// Escaped bytes are ASCII, and no characters but those of the encoding.
proof fn lemma_escaped_ascii(bytes: Seq<u8>)
    ensures
        is_ascii_chars(escaped(bytes)),
        forall|i: int| 0 <= i < escaped(bytes).len() ==> is_encoded(#[trigger] escaped(bytes)[i]),
    decreases bytes.len(),
{
    if bytes.len() > 0 {
        let head = escaped_byte(bytes[0]);
        let tail = escaped(bytes.skip(1));
        lemma_escaped_byte(bytes[0]);
        lemma_escaped_ascii(bytes.skip(1));
        assert forall|i: int| 0 <= i < escaped(bytes).len() implies is_encoded(
            #[trigger] escaped(bytes)[i],
        ) by {
            if i < head.len() {
                assert(escaped(bytes)[i] == head[i]);
            } else {
                assert(escaped(bytes)[i] == tail[i - head.len()]);
            }
        }
    }
}

/// The bytes of an ASCII text.
spec fn ascii_bytes(chars: Seq<char>) -> Seq<u8> {
    Seq::new(chars.len(), |i: int| chars[i] as u8)
}

/// Escaping and then unescaping gives the bytes back.
proof fn lemma_unescaped_escaped(bytes: Seq<u8>)
    ensures
        unescaped(ascii_bytes(escaped(bytes))) == bytes,
    decreases bytes.len(),
{
    if bytes.len() > 0 {
        let byte = bytes[0];
        let head = escaped_byte(byte);
        let tail = escaped(bytes.skip(1));
        let all = ascii_bytes(escaped(bytes));
        lemma_escaped_byte(byte);
        lemma_unescaped_escaped(bytes.skip(1));
        assert(all.skip(head.len() as int) == ascii_bytes(tail));
        if is_plain(byte) {
            assert(all[0] == byte);
            assert(!starts_escape(all));
        } else {
            assert(all[0] == PERCENT);
            assert(all[1] == head[1] as u8);
            assert(all[2] == head[2] as u8);
            assert(starts_escape(all));
        }
        assert(unescaped(all) == seq![byte] + bytes.skip(1));
        assert(bytes == seq![byte] + bytes.skip(1));
    }
}

/// An encoded text is ASCII: it holds only characters that stand for
/// themselves, and `%`.
pub proof fn encoding_is_ascii(text: Seq<char>)
    ensures
        is_ascii_chars(encoded(text)),
        forall|i: int| 0 <= i < encoded(text).len() ==> is_encoded(#[trigger] encoded(text)[i]),
{
    lemma_escaped_ascii(encode_utf8(text));
}

/// Decoding undoes encoding, for every text.
pub proof fn decoding_undoes_encoding(text: Seq<char>)
    ensures
        decoded(encoded(text)) == Some(text),
{
    let bytes = encode_utf8(text);
    let out = encoded(text);
    encoding_is_ascii(text);
    is_ascii_chars_encode_utf8(out);
    assert(encode_utf8(out) == ascii_bytes(out));
    lemma_unescaped_escaped(bytes);
    encode_utf8_valid_utf8(text);
    encode_utf8_decode_utf8(text);
}

/// Bytes without a `%` are left as they are.
proof fn lemma_no_escapes(bytes: Seq<u8>)
    requires
        !bytes.contains(PERCENT),
    ensures
        unescaped(bytes) == bytes,
    decreases bytes.len(),
{
    if bytes.len() > 0 {
        assert(bytes.contains(bytes[0]));
        assert forall|i: int| 0 <= i < bytes.len() - 1 implies bytes.skip(1)[i] != PERCENT by {
            assert(bytes.contains(bytes[i + 1]));
        }
        lemma_no_escapes(bytes.skip(1));
        assert(bytes == seq![bytes[0]] + bytes.skip(1));
    }
}

/// A text without `%` decodes to itself.
pub proof fn text_without_escapes_is_unchanged(text: Seq<char>)
    requires
        !text.contains('%'),
    ensures
        decoded(text) == Some(text),
{
    lemma_ascii_byte(text, '%');
    lemma_no_escapes(encode_utf8(text));
    encode_utf8_valid_utf8(text);
    encode_utf8_decode_utf8(text);
}

/// An escape stands for the byte that its two digits count, each in upper or in
/// lower case, and what follows it is read on its own.
pub proof fn an_escape_stands_for_its_byte(
    high: u8,
    low: u8,
    high_letter: bool,
    low_letter: bool,
    rest: Seq<u8>,
)
    requires
        high < 16,
        low < 16,
    ensures
        ({
            let digit = |value: u8, upper: bool|
                if value < 10 {
                    '0' as int + value
                } else if upper {
                    'A' as int - 10 + value
                } else {
                    'a' as int - 10 + value
                };
            unescaped(
                seq!['%' as u8, digit(high, high_letter) as u8, digit(low, low_letter) as u8] + rest,
            ) == seq![(high * 16 + low) as u8] + unescaped(rest)
        }),
{
    let digit = |value: u8, upper: bool|
        if value < 10 {
            48 + value
        } else if upper {
            55 + value
        } else {
            87 + value
        };
    let bytes = seq![37u8, digit(high, high_letter) as u8, digit(low, low_letter) as u8] + rest;
    assert(bytes.skip(3) == rest);
    assert(bytes[1] == digit(high, high_letter) && bytes[2] == digit(low, low_letter));
    assert(starts_escape(bytes));
}

/// A byte that starts no escape stands for itself: any but `%`, and a `%` that
/// two hexadecimal digits do not follow.
pub proof fn other_bytes_stand_for_themselves(byte: u8, rest: Seq<u8>)
    requires
        byte != '%' as u8 || rest.len() < 2 || !({
            let is_digit = |b: u8|
                '0' as u8 <= b <= '9' as u8 || 'A' as u8 <= b <= 'F' as u8 || 'a' as u8 <= b
                    <= 'f' as u8;
            is_digit(rest[0]) && is_digit(rest[1])
        }),
    ensures
        unescaped(Seq::<u8>::empty()) == Seq::<u8>::empty(),
        unescaped(seq![byte] + rest) == seq![byte] + unescaped(rest),
{
    let bytes = seq![byte] + rest;
    assert(bytes.skip(1) == rest);
}

/// A text is decoded from all of its bytes, and to all of what they stand for.
pub proof fn a_text_is_decoded_whole(text: Seq<char>)
    ensures
        decoded(text) is Some <==> valid_utf8(unescaped(encode_utf8(text))),
        decoded(text) matches Some(plain) ==> encode_utf8(plain) == unescaped(encode_utf8(text)),
{
    let bytes = unescaped(encode_utf8(text));
    if valid_utf8(bytes) {
        decode_utf8_encode_utf8(bytes);
    }
}

/// Encoding goes byte by byte: letters, digits and `-._~` stay, and any other
/// byte becomes `%` and its two upper-case hexadecimal digits.
pub proof fn each_byte_is_encoded_alone(before: Seq<u8>, byte: u8, after: Seq<u8>)
    ensures
        escaped(Seq::<u8>::empty()) == Seq::<char>::empty(),
        escaped(before + seq![byte] + after) == escaped(before) + escaped(seq![byte]) + escaped(after),
        ('0' as u8 <= byte <= '9' as u8 || 'A' as u8 <= byte <= 'Z' as u8 || 'a' as u8 <= byte
            <= 'z' as u8 || byte == '-' as u8 || byte == '.' as u8 || byte == '_' as u8 || byte
            == '~' as u8) <==> escaped(seq![byte]) == seq![byte as char],
        escaped(seq![byte]) != seq![byte as char] ==> {
            let digit = |v: int|
                if v < 10 {
                    ('0' as int + v) as char
                } else {
                    ('A' as int - 10 + v) as char
                };
            escaped(seq![byte]) == seq!['%', digit(byte as int / 16), digit(byte as int % 16)]
        },
{
    lemma_escaped_concat(before + seq![byte], after);
    lemma_escaped_concat(before, seq![byte]);
    assert(seq![byte].skip(1) == Seq::<u8>::empty());
    assert(escaped(seq![byte]) == escaped_byte(byte) + escaped(Seq::<u8>::empty()));
    assert(escaped(seq![byte]) == escaped_byte(byte));
}

/// Bytes are escaped one behind the other.
proof fn lemma_escaped_concat(a: Seq<u8>, b: Seq<u8>)
    ensures
        escaped(a + b) == escaped(a) + escaped(b),
    decreases a.len(),
{
    if a.len() > 0 {
        lemma_escaped_concat(a.skip(1), b);
        assert((a + b).skip(1) == a.skip(1) + b);
    } else {
        assert(a + b == b);
    }
}

/// A text is encoded from all of its bytes.
pub proof fn a_text_is_encoded_whole(text: Seq<char>)
    ensures
        encoded(text) == escaped(encode_utf8(text)),
{
}

} // verus!
