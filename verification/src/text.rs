//! Text as sequences of characters, and bytes as text: comparing, splitting and
//! trimming.

use vstd::prelude::*;
use vstd::string::*;
use vstd::utf8::*;

verus! {

/// `String::push`: the character goes to the end of the text.
pub assume_specification[ String::push ](text: &mut String, ch: char)
    ensures
        final(text)@ == old(text)@.push(ch),
;

/// Calls `String::from_utf8`: the bytes make a text exactly when they are
/// valid UTF-8, and it is then the text that they encode.
#[verifier::external_body]
pub(crate) fn utf8_text(bytes: Vec<u8>) -> (text: Option<String>)
    ensures
        text is Some <==> valid_utf8(bytes@),
        text is Some ==> text->0@ == decode_utf8(bytes@),
{
    String::from_utf8(bytes).ok()
}

/// What `String::from_utf8_lossy` makes of `bytes`.
pub uninterp spec fn lossy_text(bytes: Seq<u8>) -> Seq<char>;

/// Calls `String::from_utf8_lossy`: valid UTF-8 is decoded unchanged, and what
/// is not valid becomes replacement characters, how many is not said here.
#[verifier::external_body]
pub(crate) fn utf8_text_lossy(bytes: &[u8]) -> (text: String)
    ensures
        text@ == lossy_text(bytes@),
        valid_utf8(bytes@) ==> text@ == decode_utf8(bytes@),
{
    String::from_utf8_lossy(bytes).into_owned()
}

/// The characters of `text`.
pub fn chars_of(text: &str) -> (chars: Vec<char>)
    ensures
        chars@ == text@,
{
    let mut chars: Vec<char> = Vec::new();
    for ch in it: text.chars()
        invariant
            it.seq() == text@,
            chars@ == text@.take(it.index()),
    {
        chars.push(ch);
    }
    assert(text@.take(text@.len() as int) == text@);
    chars
}

/// The text made of `chars`.
pub fn text_of(chars: &[char]) -> (text: String)
    ensures
        text@ == chars@,
{
    let mut text = String::new();
    let mut i: usize = 0;
    while i < chars.len()
        invariant
            i <= chars@.len(),
            text@ == chars@.take(i as int),
        decreases chars@.len() - i,
    {
        text.push(chars[i]);
        i += 1;
    }
    assert(chars@.take(i as int) == chars@);
    text
}

/// Whether two byte strings are equal.
pub fn same_bytes(a: &[u8], b: &[u8]) -> (same: bool)
    ensures
        same == (a@ == b@),
{
    if a.len() != b.len() {
        return false;
    }
    let mut i: usize = 0;
    while i < a.len()
        invariant
            i <= a@.len() == b@.len(),
            forall|j: int| 0 <= j < i ==> a@[j] == b@[j],
        decreases a@.len() - i,
    {
        if a[i] != b[i] {
            return false;
        }
        i += 1;
    }
    assert(a@ =~= b@);
    true
}

/// Whether two texts are equal.
pub fn same_text(a: &str, b: &str) -> (same: bool)
    ensures
        same == (a@ == b@),
{
    proof {
        encode_utf8_decode_utf8(a@);
        encode_utf8_decode_utf8(b@);
    }
    same_bytes(a.as_bytes(), b.as_bytes())
}

/// The bytes of a scalar are its own one, if it is ASCII, or all above ASCII.
proof fn lemma_scalar_bytes(scalar: u32)
    requires
        is_scalar(scalar),
    ensures
        scalar < 128 ==> encode_scalar(scalar) == seq![scalar as u8],
        scalar >= 128 ==> forall|i: int|
            0 <= i < encode_scalar(scalar).len() ==> encode_scalar(scalar)[i] >= 128,
{
    let a = (scalar & 0x3F) as u8;
    let b = ((scalar >> 6) & 0x3F) as u8;
    let c = ((scalar >> 12) & 0x3F) as u8;
    let d = ((scalar >> 6) & 0x1F) as u8;
    let e = ((scalar >> 12) & 0x0F) as u8;
    let f = ((scalar >> 18) & 0x7) as u8;
    assert(0x80 | a >= 128u8) by (bit_vector);
    assert(0x80 | b >= 128u8) by (bit_vector);
    assert(0x80 | c >= 128u8) by (bit_vector);
    assert(0xC0 | d >= 128u8) by (bit_vector);
    assert(0xE0 | e >= 128u8) by (bit_vector);
    assert(0xF0 | f >= 128u8) by (bit_vector);
    assert(scalar < 128 ==> scalar & 0x7F == scalar) by (bit_vector);
}

/// The UTF-8 of a text starts with the byte of an ASCII character only if the
/// text starts with the character.
pub proof fn lemma_first_byte(text: Seq<char>, ch: char)
    requires
        (ch as u32) < 128,
        text.len() > 0 ==> text[0] != ch,
    ensures
        encode_utf8(text).len() > 0 ==> encode_utf8(text)[0] != ch as u8,
{
    if text.len() > 0 {
        let scalar = text[0] as u32;
        char_is_scalar(text[0]);
        char_u32_cast(text[0], scalar);
        char_u32_cast(ch, ch as u32);
        lemma_scalar_bytes(scalar);
        assert(encode_utf8(text)[0] == encode_scalar(scalar)[0]);
    }
}

/// The byte of an ASCII character occurs in the UTF-8 of a text only if the
/// character occurs in the text.
pub proof fn lemma_ascii_byte(text: Seq<char>, ch: char)
    requires
        (ch as u32) < 128,
        !text.contains(ch),
    ensures
        !encode_utf8(text).contains(ch as u8),
    decreases text.len(),
{
    if text.len() > 0 {
        assert(text.contains(text[0]));
        assert forall|i: int| 0 <= i < text.len() - 1 implies text.drop_first()[i] != ch by {
            assert(text.contains(text[i + 1]));
        }
        lemma_ascii_byte(text.drop_first(), ch);
        let scalar = text[0] as u32;
        char_is_scalar(text[0]);
        char_u32_cast(text[0], scalar);
        char_u32_cast(ch, ch as u32);
        lemma_scalar_bytes(scalar);
        assert forall|i: int| 0 <= i < encode_utf8(text).len() implies encode_utf8(text)[i]
            != ch as u8 by {
            if i >= encode_scalar(scalar).len() {
                let j = i - encode_scalar(scalar).len();
                assert(encode_utf8(text.drop_first()).contains(encode_utf8(text.drop_first())[j]));
            }
        }
    }
}

/// Where `item` first stands in `items`, or their length where it does not.
pub open spec fn first_index<T>(items: Seq<T>, item: T) -> int
    decreases items.len(),
{
    if items.len() == 0 || items[0] == item {
        0
    } else {
        1 + first_index(items.skip(1), item)
    }
}

/// The pieces of `items` between the occurrences of `sep`, one more than
/// there are of them.
pub open spec fn pieces<T>(items: Seq<T>, sep: T) -> Seq<Seq<T>>
    decreases items.len(),
{
    let i = first_index(items, sep);
    if 0 <= i < items.len() {
        seq![items.take(i)] + pieces(items.skip(i + 1), sep)
    } else {
        seq![items]
    }
}

/// `i` is the first index of `item` exactly when the item stands there, or
/// the sequence ends there, and nothing before it equals the item.
pub proof fn lemma_first_index<T>(items: Seq<T>, item: T, i: int)
    requires
        0 <= i <= items.len(),
        forall|j: int| 0 <= j < i ==> items[j] != item,
        i < items.len() ==> items[i] == item,
    ensures
        first_index(items, item) == i,
    decreases items.len(),
{
    if i > 0 {
        assert forall|j: int| 0 <= j < i - 1 implies items.skip(1)[j] != item by {
            assert(items.skip(1)[j] == items[j + 1]);
        }
        lemma_first_index(items.skip(1), item, i - 1);
    }
}

/// What [`first_index`] says of the items around it.
pub proof fn lemma_first_index_is_first<T>(items: Seq<T>, item: T)
    ensures
        0 <= first_index(items, item) <= items.len(),
        first_index(items, item) < items.len() ==> items[first_index(items, item)] == item,
        forall|j: int| 0 <= j < first_index(items, item) ==> items[j] != item,
    decreases items.len(),
{
    if items.len() > 0 && items[0] != item {
        lemma_first_index_is_first(items.skip(1), item);
        assert forall|j: int| 0 <= j < first_index(items, item) implies items[j] != item by {
            if j > 0 {
                assert(items.skip(1)[j - 1] == items[j]);
            }
        }
    }
}

/// A sequence without the separator is its own only piece.
pub proof fn lemma_one_piece<T>(items: Seq<T>, sep: T)
    requires
        !items.contains(sep),
    ensures
        pieces(items, sep) == seq![items],
{
    lemma_first_index(items, sep, items.len() as int);
}

/// A first piece without the separator, then the separator, then the rest.
pub proof fn lemma_first_piece<T>(first: Seq<T>, sep: T, rest: Seq<T>)
    requires
        !first.contains(sep),
    ensures
        pieces(first.push(sep) + rest, sep) == seq![first] + pieces(rest, sep),
{
    let items = first.push(sep) + rest;
    assert forall|j: int| 0 <= j < first.len() implies items[j] != sep by {
        assert(first.contains(first[j]));
    }
    lemma_first_index(items, sep, first.len() as int);
    assert(items.take(first.len() as int) == first);
    assert(items.skip((first.len() + 1) as int) == rest);
}

/// Where `ch` first stands in `chars` at `from` or later, or their length.
fn find_char(chars: &[char], from: usize, ch: char) -> (i: usize)
    requires
        from <= chars@.len(),
    ensures
        from <= i <= chars@.len(),
        i - from == first_index(chars@.skip(from as int), ch),
{
    let mut i: usize = from;
    while i < chars.len() && chars[i] != ch
        invariant
            from <= i <= chars@.len(),
            forall|j: int| from <= j < i ==> chars@[j] != ch,
        decreases chars@.len() - i,
    {
        i += 1;
    }
    proof {
        lemma_first_index(chars@.skip(from as int), ch, i - from);
    }
    i
}

/// The view of a list of texts.
pub open spec fn texts(list: Seq<String>) -> Seq<Seq<char>> {
    list.map_values(|text: String| text@)
}

/// The pieces of `text` between the occurrences of `sep`.
pub fn split_text(text: &str, sep: char) -> (parts: Vec<String>)
    ensures
        texts(parts@) == pieces(text@, sep),
{
    let chars = chars_of(text);
    let mut parts: Vec<String> = Vec::new();
    let mut from: usize = 0;
    assert(text@.skip(0) == text@);
    assert(texts(parts@) == Seq::<Seq<char>>::empty());
    loop
        invariant_except_break
            pieces(text@, sep) == texts(parts@) + pieces(text@.skip(from as int), sep),
        invariant
            chars@ == text@,
            from <= chars@.len(),
        ensures
            texts(parts@) == pieces(text@, sep),
        decreases chars@.len() - from,
    {
        let i = find_char(chars.as_slice(), from, sep);
        let ghost rest = text@.skip(from as int);
        let ghost before = parts@;
        let part = text_of(vstd::slice::slice_subrange(chars.as_slice(), from, i));
        assert(part@ == rest.take(i - from));
        parts.push(part);
        assert(texts(parts@) == texts(before).push(part@));
        if i == chars.len() {
            proof {
                lemma_first_index_is_first(rest, sep);
                assert(rest.take(i - from) == rest);
                assert(pieces(rest, sep) == seq![rest]);
            }
            break;
        }
        assert(rest.skip(i - from + 1) == text@.skip(i + 1));
        assert(texts(parts@) + pieces(text@.skip(i + 1), sep) == texts(before) + (seq![rest.take(
            i - from,
        )] + pieces(text@.skip(i + 1), sep)));
        from = i + 1;
    }
    parts
}

/// Whether `ch` is white space: a character with the Unicode property
/// `White_Space`.
pub open spec fn is_white(ch: char) -> bool {
    ||| '\u{9}' <= ch <= '\u{d}'
    ||| ch == ' '
    ||| ch == '\u{85}'
    ||| ch == '\u{a0}'
    ||| ch == '\u{1680}'
    ||| '\u{2000}' <= ch <= '\u{200a}'
    ||| ch == '\u{2028}'
    ||| ch == '\u{2029}'
    ||| ch == '\u{202f}'
    ||| ch == '\u{205f}'
    ||| ch == '\u{3000}'
}

/// Whether `ch` is white space.
pub fn char_is_white(ch: char) -> (white: bool)
    ensures
        white == is_white(ch),
        white <==> (0x9 <= ch as u32 <= 0xd) || ch as u32 == 0x20 || ch as u32 == 0x85 || ch as u32
            == 0xa0 || ch as u32 == 0x1680 || (0x2000 <= ch as u32 <= 0x200a) || ch as u32 == 0x2028 || ch as u32
            == 0x2029 || ch as u32 == 0x202f || ch as u32 == 0x205f || ch as u32 == 0x3000,
{
    ('\u{9}' <= ch && ch <= '\u{d}') || ch == ' ' || ch == '\u{85}' || ch == '\u{a0}' || ch
        == '\u{1680}' || ('\u{2000}' <= ch && ch <= '\u{200a}') || ch == '\u{2028}' || ch
        == '\u{2029}' || ch == '\u{202f}' || ch == '\u{205f}' || ch == '\u{3000}'
}

/// What is trimmed off the ends of a text.
#[derive(Debug, Clone, Copy, PartialEq, Eq)]
pub enum Margin {
    /// White space of any kind.
    White,
    /// Newlines alone.
    Newlines,
}

/// Whether `ch` belongs to the margin.
pub open spec fn in_margin(margin: Margin, ch: char) -> bool {
    match margin {
        Margin::White => is_white(ch),
        Margin::Newlines => ch == '\n',
    }
}

/// `text` without the margin at its start.
pub open spec fn trim_start(text: Seq<char>, margin: Margin) -> Seq<char>
    decreases text.len(),
{
    if text.len() > 0 && in_margin(margin, text[0]) {
        trim_start(text.skip(1), margin)
    } else {
        text
    }
}

/// `text` without the margin at its end.
pub open spec fn trim_end(text: Seq<char>, margin: Margin) -> Seq<char>
    decreases text.len(),
{
    if text.len() > 0 && in_margin(margin, text.last()) {
        trim_end(text.drop_last(), margin)
    } else {
        text
    }
}

/// `text` without the margin at its ends.
pub open spec fn trim(text: Seq<char>, margin: Margin) -> Seq<char> {
    trim_end(trim_start(text, margin), margin)
}

/// Whether `ch` belongs to the margin.
fn char_in_margin(margin: Margin, ch: char) -> (inside: bool)
    ensures
        inside == in_margin(margin, ch),
{
    match margin {
        Margin::White => char_is_white(ch),
        Margin::Newlines => ch == '\n',
    }
}

/// `text` without the margin at its ends.
pub fn trim_text(text: &str, margin: Margin) -> (inner: &str)
    ensures
        inner@ == trim(text@, margin),
{
    let chars = chars_of(text);
    let mut from: usize = 0;
    assert(text@.skip(0) == text@);
    while from < chars.len() && char_in_margin(margin, chars[from])
        invariant
            from <= chars@.len(),
            chars@ == text@,
            trim_start(text@.skip(from as int), margin) == trim_start(text@, margin),
        decreases chars@.len() - from,
    {
        assert(text@.skip(from as int).skip(1) == text@.skip(from + 1));
        from += 1;
    }
    let ghost tail = text@.skip(from as int);
    assert(tail == trim_start(text@, margin));
    let mut to: usize = chars.len();
    assert(tail.take(to - from) == tail);
    while to > from && char_in_margin(margin, chars[to - 1])
        invariant
            from <= to <= chars@.len(),
            chars@ == text@,
            tail == text@.skip(from as int),
            trim_end(tail.take(to - from), margin) == trim_end(tail, margin),
        decreases to,
    {
        assert(tail.take(to - from).drop_last() == tail.take(to - from - 1));
        to -= 1;
    }
    assert(text@.subrange(from as int, to as int) == tail.take(to - from));
    text.substring_char(from, to)
}

/// `text` without `prefix` at its start, if it starts with it.
pub open spec fn strip_prefix<T>(text: Seq<T>, prefix: Seq<T>) -> Option<Seq<T>> {
    if prefix.len() <= text.len() && text.take(prefix.len() as int) == prefix {
        Some(text.skip(prefix.len() as int))
    } else {
        None
    }
}

/// `text` without `suffix` at its end, if it ends with it.
pub open spec fn strip_suffix<T>(text: Seq<T>, suffix: Seq<T>) -> Option<Seq<T>> {
    if suffix.len() <= text.len() && text.skip(text.len() - suffix.len()) == suffix {
        Some(text.take(text.len() - suffix.len()))
    } else {
        None
    }
}

/// `text` without `prefix` at its start, if it starts with it.
pub fn text_behind<'a>(text: &'a str, prefix: &str) -> (rest: Option<&'a str>)
    ensures
        rest is Some <==> strip_prefix(text@, prefix@) is Some,
        rest is Some ==> strip_prefix(text@, prefix@) == Some(rest->0@),
{
    let len = text.unicode_len();
    let n = prefix.unicode_len();
    if n <= len && same_text(text.substring_char(0, n), prefix) {
        assert(text@.take(n as int) == text@.subrange(0, n as int));
        assert(text@.skip(n as int) == text@.subrange(n as int, len as int));
        Some(text.substring_char(n, len))
    } else {
        assert(n <= len ==> text@.take(n as int) == text@.subrange(0, n as int));
        None
    }
}

/// `text` without `suffix` at its end, if it ends with it.
pub fn text_before<'a>(text: &'a str, suffix: &str) -> (rest: Option<&'a str>)
    ensures
        rest is Some <==> strip_suffix(text@, suffix@) is Some,
        rest is Some ==> strip_suffix(text@, suffix@) == Some(rest->0@),
{
    let len = text.unicode_len();
    let n = suffix.unicode_len();
    if n <= len && same_text(text.substring_char(len - n, len), suffix) {
        assert(text@.skip(len - n) == text@.subrange(len - n, len as int));
        assert(text@.take(len - n) == text@.subrange(0, len - n));
        Some(text.substring_char(0, len - n))
    } else {
        assert(n <= len ==> text@.skip(len - n) == text@.subrange(len - n, len as int));
        None
    }
}

/// Whether `ch` occurs in `text`.
pub fn contains_char(text: &str, ch: char) -> (found: bool)
    ensures
        found == text@.contains(ch),
{
    let chars = chars_of(text);
    let mut i: usize = 0;
    while i < chars.len()
        invariant
            i <= chars@.len(),
            chars@ == text@,
            forall|j: int| 0 <= j < i ==> chars@[j] != ch,
        decreases chars@.len() - i,
    {
        if chars[i] == ch {
            assert(text@[i as int] == ch);
            return true;
        }
        i += 1;
    }
    false
}

/// What stands before and behind the first `sep` in `text`.
pub open spec fn split_once(text: Seq<char>, sep: char) -> Option<(Seq<char>, Seq<char>)> {
    let i = first_index(text, sep);
    if i < text.len() {
        Some((text.take(i), text.skip(i + 1)))
    } else {
        None
    }
}

/// What stands before and behind the first `sep` in `text`.
pub fn split_at_char(text: &str, sep: char) -> (halves: Option<(&str, &str)>)
    ensures
        halves is Some <==> split_once(text@, sep) is Some,
        halves matches Some((before, after)) ==> split_once(text@, sep) == Some(
            (before@, after@),
        ),
{
    let chars = chars_of(text);
    let mut i: usize = 0;
    while i < chars.len() && chars[i] != sep
        invariant
            i <= chars@.len(),
            chars@ == text@,
            forall|j: int| 0 <= j < i ==> chars@[j] != sep,
        decreases chars@.len() - i,
    {
        i += 1;
    }
    proof {
        lemma_first_index(text@, sep, i as int);
    }
    if i < chars.len() {
        let before = text.substring_char(0, i);
        let after = text.substring_char(i + 1, chars.len());
        assert(before@ == text@.take(i as int));
        assert(after@ == text@.skip(i + 1));
        Some((before, after))
    } else {
        None
    }
}

/// A first half without the separator, then the separator, then the rest.
pub proof fn lemma_split_once(first: Seq<char>, sep: char, rest: Seq<char>)
    requires
        !first.contains(sep),
    ensures
        split_once(first.push(sep) + rest, sep) == Some((first, rest)),
{
    let text = first.push(sep) + rest;
    assert forall|j: int| 0 <= j < first.len() implies text[j] != sep by {
        assert(first.contains(first[j]));
    }
    lemma_first_index(text, sep, first.len() as int);
    assert(text.take(first.len() as int) == first);
    assert(text.skip(first.len() as int + 1) == rest);
}

/// `bytes` with the ASCII letters in lower case.
pub open spec fn lower(bytes: Seq<u8>) -> Seq<u8> {
    bytes.map_values(
        |byte: u8|
            if 65 <= byte <= 90 {
                (byte + 32) as u8
            } else {
                byte
            },
    )
}

/// `bytes` with the ASCII letters in lower case.
pub fn to_lower(bytes: &[u8]) -> (lowered: Vec<u8>)
    ensures
        lowered@ == lower(bytes@),
{
    let mut lowered: Vec<u8> = Vec::new();
    let mut i: usize = 0;
    while i < bytes.len()
        invariant
            i <= bytes@.len(),
            lowered@ == lower(bytes@).take(i as int),
        decreases bytes@.len() - i,
    {
        let byte = bytes[i];
        lowered.push(
            if 65 <= byte && byte <= 90 {
                byte + 32
            } else {
                byte
            },
        );
        i += 1;
    }
    assert(lower(bytes@).take(i as int) == lower(bytes@));
    lowered
}

/// A text without the separator has no two halves, and one with it comes apart
/// at its first occurrence: the halves and the separator make the text again.
pub proof fn halves_make_the_text(text: Seq<char>, sep: char)
    ensures
        split_once(text, sep) is None <==> !text.contains(sep),
        split_once(text, sep) matches Some((before, after)) ==> text == before + seq![sep] + after
            && !before.contains(sep),
{
    lemma_first_index_is_first(text, sep);
    let i = first_index(text, sep);
    if i < text.len() {
        assert(text.contains(text[i]));
        assert(text == text.take(i) + seq![sep] + text.skip(i + 1));
    }
}

/// The pieces between separators hold none of them, there is one more of them
/// than there are separators on the way, and they make the text again.
pub proof fn pieces_make_the_text(text: Seq<char>, sep: char)
    ensures
        pieces(text, sep).len() > 0,
        pieces(text, sep).len() == 1 <==> !text.contains(sep),
        forall|i: int| 0 <= i < pieces(text, sep).len() ==> !(#[trigger] pieces(text, sep)[i]).contains(
            sep,
        ),
        pieces(text, sep).len() > 1 ==> exists|rest: Seq<char>| #[trigger]
            pieces(rest, sep) == pieces(text, sep).skip(1) && text == pieces(text, sep)[0] + seq![
                sep,
            ] + rest,
        pieces(text, sep).len() == 1 ==> pieces(text, sep)[0] == text,
    decreases text.len(),
{
    lemma_first_index_is_first(text, sep);
    let i = first_index(text, sep);
    if i < text.len() {
        let rest = text.skip(i + 1);
        pieces_make_the_text(rest, sep);
        assert(text.contains(text[i]));
        assert(pieces(text, sep).skip(1) == pieces(rest, sep));
        assert(text == text.take(i) + seq![sep] + rest);
        assert forall|k: int| 0 <= k < pieces(text, sep).len() implies !(#[trigger] pieces(
            text,
            sep,
        )[k]).contains(sep) by {
            if k > 0 {
                assert(pieces(text, sep)[k] == pieces(rest, sep)[k - 1]);
            }
        }
    }
}

/// The view of a list of texts is the texts, one for one.
pub proof fn texts_are_one_for_one(list: Seq<String>)
    ensures
        texts(list).len() == list.len(),
        forall|i: int| 0 <= i < list.len() ==> #[trigger] texts(list)[i] == list[i]@,
{
}

/// What is left without a prefix, and the prefix before it, make the text; what
/// does not start with the prefix is not made so by anything.
pub proof fn a_prefix_and_the_rest_make_the_text(text: Seq<char>, prefix: Seq<char>, rest: Seq<char>)
    ensures
        strip_prefix(text, prefix) == Some(rest) <==> text == prefix + rest,
        strip_suffix(text, prefix) == Some(rest) <==> text == rest + prefix,
{
    let n = prefix.len() as int;
    if text == prefix + rest {
        assert(text.take(n) == prefix);
        assert(text.skip(n) == rest);
    }
    if strip_prefix(text, prefix) == Some(rest) {
        assert(text == text.take(n) + text.skip(n));
    }
    if text == rest + prefix {
        assert(text.skip(text.len() - n) == prefix);
        assert(text.take(text.len() - n) == rest);
    }
    if strip_suffix(text, prefix) == Some(rest) {
        assert(text == text.take(text.len() - n) + text.skip(text.len() - n));
    }
}

/// Trimming takes only the margin, and all of it: what is left stands between
/// two margins, and neither starts nor ends with a character of the margin.
pub proof fn trimming_takes_the_margin(text: Seq<char>, margin: Margin)
    ensures
        in_margin(Margin::Newlines, '\n'),
        forall|ch: char| in_margin(Margin::Newlines, ch) ==> ch == '\n',
        forall|ch: char| #[trigger]
            in_margin(Margin::White, ch) <==> is_white(ch),
        trim(text, margin).len() > 0 ==> !in_margin(margin, trim(text, margin)[0]) && !in_margin(
            margin,
            trim(text, margin).last(),
        ),
        exists|from: int, to: int|
            0 <= from <= to <= text.len() && trim(text, margin) == #[trigger] text.subrange(
                from,
                to,
            ) && (forall|i: int| 0 <= i < from || to <= i < text.len() ==> in_margin(
                margin,
                #[trigger] text[i],
            )),
{
    let from = lemma_trim_start(text, margin);
    let tail = text.skip(from);
    let to = lemma_trim_end_at(tail, margin);
    assert(trim(text, margin) == text.subrange(from, from + to));
    assert forall|i: int| 0 <= i < from || from + to <= i < text.len() implies in_margin(
        margin,
        #[trigger] text[i],
    ) by {
        if i >= from + to {
            assert(tail[i - from] == text[i]);
        }
    }
}

/// Where the margin at the start of a text ends.
proof fn lemma_trim_start(text: Seq<char>, margin: Margin) -> (from: int)
    ensures
        0 <= from <= text.len(),
        trim_start(text, margin) == text.skip(from),
        forall|i: int| 0 <= i < from ==> in_margin(margin, #[trigger] text[i]),
        from < text.len() ==> !in_margin(margin, text[from]),
    decreases text.len(),
{
    if text.len() > 0 && in_margin(margin, text[0]) {
        let from = lemma_trim_start(text.skip(1), margin);
        assert(text.skip(1).skip(from) == text.skip(from + 1));
        assert forall|i: int| 0 <= i < from + 1 implies in_margin(margin, #[trigger] text[i]) by {
            if i > 0 {
                assert(text.skip(1)[i - 1] == text[i]);
            }
        }
        from + 1
    } else {
        assert(text.skip(0) == text);
        0
    }
}

/// Where the margin at the end of a text starts.
proof fn lemma_trim_end_at(text: Seq<char>, margin: Margin) -> (to: int)
    ensures
        0 <= to <= text.len(),
        trim_end(text, margin) == text.take(to),
        forall|i: int| to <= i < text.len() ==> in_margin(margin, #[trigger] text[i]),
        to > 0 ==> !in_margin(margin, text[to - 1]),
    decreases text.len(),
{
    if text.len() > 0 && in_margin(margin, text.last()) {
        let to = lemma_trim_end_at(text.drop_last(), margin);
        assert(text.drop_last().take(to) == text.take(to));
        assert forall|i: int| to <= i < text.len() implies in_margin(margin, #[trigger] text[i]) by {
            if i < text.len() - 1 {
                assert(text.drop_last()[i] == text[i]);
            }
        }
        to
    } else {
        assert(text.take(text.len() as int) == text);
        text.len() as int
    }
}

/// Lower case changes only the ASCII letters, each to its own small letter, and
/// nothing that is lower already.
pub proof fn lower_case_changes_letters_only(bytes: Seq<u8>)
    ensures
        lower(bytes).len() == bytes.len(),
        forall|i: int|
            0 <= i < bytes.len() ==> #[trigger] lower(bytes)[i] == if 65 <= bytes[i] <= 90 {
                bytes[i] + 32
            } else {
                bytes[i] as int
            },
        lower(lower(bytes)) == lower(bytes),
{
    assert(lower(lower(bytes)) =~= lower(bytes));
}

/// White space is what Unicode calls so.
pub proof fn white_space_is_as_in_unicode(ch: char)
    ensures
        is_white(ch) <==> (0x9 <= ch as u32 <= 0xd) || ch as u32 == 0x20 || ch as u32 == 0x85 || ch
            as u32 == 0xa0 || ch as u32 == 0x1680 || (0x2000 <= ch as u32 <= 0x200a) || ch as u32
            == 0x2028 || ch as u32 == 0x2029 || ch as u32 == 0x202f || ch as u32 == 0x205f || ch
            as u32 == 0x3000,
{
}

} // verus!
