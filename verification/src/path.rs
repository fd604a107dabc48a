//! Unix paths as byte strings: joining, taking apart, and comparing by the
//! names they are made of.

use vstd::prelude::*;
use vstd::std_specs::cmp::PartialEqSpec;
use vstd::string::*;
use vstd::utf8::*;

use crate::text::{
    first_index, lemma_first_index, lemma_first_index_is_first, lemma_first_piece, lemma_one_piece,
    lossy_text, pieces, same_bytes, utf8_text, utf8_text_lossy,
};

verus! {

/// The byte that separates the names of a path.
pub const SLASH: u8 = 47;

/// The byte that the names `.` and `..` and an extension are written with.
pub const DOT: u8 = 46;

/// Whether a path starts at the root directory.
pub open spec fn has_root(path: Seq<u8>) -> bool {
    path.len() > 0 && path[0] == SLASH
}

/// Whether `part` names nothing by itself: it is empty, or `.`.
pub open spec fn is_void(part: Seq<u8>) -> bool {
    part.len() == 0 || part == seq![DOT]
}

/// `parts` without those that name nothing.
pub open spec fn without_void(parts: Seq<Seq<u8>>) -> Seq<Seq<u8>>
    decreases parts.len(),
{
    if parts.len() == 0 {
        seq![]
    } else if is_void(parts.last()) {
        without_void(parts.drop_last())
    } else {
        without_void(parts.drop_last()).push(parts.last())
    }
}

/// The names on a path from its start. A `.` counts only as the first of a
/// relative path.
pub open spec fn names(path: Seq<u8>) -> Seq<Seq<u8>> {
    names_of(pieces(path, SLASH))
}

/// The names that `parts`, the pieces of a path from its start, contribute.
pub open spec fn names_of(parts: Seq<Seq<u8>>) -> Seq<Seq<u8>> {
    if parts.len() > 0 && parts[0] == seq![DOT] {
        seq![parts[0]] + without_void(parts.skip(1))
    } else {
        without_void(parts)
    }
}

/// Whether two paths are the same, name by name.
pub open spec fn same_path(a: Seq<u8>, b: Seq<u8>) -> bool {
    has_root(a) == has_root(b) && names(a) == names(b)
}

/// `base` extended by `rest`, which takes its place if it starts at the root.
pub open spec fn join(base: Seq<u8>, rest: Seq<u8>) -> Seq<u8> {
    if has_root(rest) {
        rest
    } else if base.len() > 0 && base.last() != SLASH {
        base.push(SLASH) + rest
    } else {
        base + rest
    }
}

/// The last name on a path, unless it is `.` or `..`.
pub open spec fn file_name(path: Seq<u8>) -> Option<Seq<u8>> {
    let all = names(path);
    if all.len() == 0 || all.last() == seq![DOT] || all.last() == seq![DOT, DOT] {
        None
    } else {
        Some(all.last())
    }
}

/// Where `item` last stands in `items`, or -1.
pub open spec fn last_index<T>(items: Seq<T>, item: T) -> int
    decreases items.len(),
{
    if items.len() == 0 || items.last() == item {
        items.len() - 1
    } else {
        last_index(items.drop_last(), item)
    }
}

/// What follows the last dot of the file name, unless that dot starts it.
pub open spec fn extension(path: Seq<u8>) -> Option<Seq<u8>> {
    match file_name(path) {
        Some(name) => {
            let dot = last_index(name, DOT);
            if dot > 0 {
                Some(name.skip(dot + 1))
            } else {
                None
            }
        },
        None => None,
    }
}

/// How much of a path the root or a leading `.` takes.
pub open spec fn start_len(path: Seq<u8>) -> int {
    if has_root(path) {
        1
    } else if path.len() > 0 && path[0] == DOT && (path.len() == 1 || path[1] == SLASH) {
        1
    } else {
        0
    }
}

/// Where the last part of a path begins: behind the last slash at `start` or
/// later, or at `start`.
pub open spec fn last_part(path: Seq<u8>, start: int) -> int
    decreases path.len(),
{
    if path.len() == 0 || path.len() <= start {
        start
    } else if path.last() == SLASH {
        path.len() as int
    } else {
        last_part(path.drop_last(), start)
    }
}

/// A path without its last part and the slash before it.
pub open spec fn without_last(path: Seq<u8>, start: int) -> Seq<u8> {
    let from = last_part(path, start);
    if from > start {
        path.take(from - 1)
    } else {
        path.take(start)
    }
}

/// A path without the parts at its end that name nothing.
pub open spec fn trimmed(path: Seq<u8>, start: int) -> Seq<u8>
    decreases path.len(),
{
    if path.len() <= start || start < 0 {
        path
    } else {
        proof {
            lemma_last_part(path, start);
        }
        if is_void(path.skip(last_part(path, start))) {
            trimmed(without_last(path, start), start)
        } else {
            path
        }
    }
}

/// A path without its last name: `None` where it has no name.
pub open spec fn parent(path: Seq<u8>) -> Option<Seq<u8>> {
    let start = start_len(path);
    let whole = trimmed(path, start);
    if whole.len() > start {
        Some(trimmed(without_last(whole, start), start))
    } else if start > 0 && !has_root(path) {
        Some(seq![])
    } else {
        None
    }
}

/// The last part lies within the path and holds no slash.
pub proof fn lemma_last_part(path: Seq<u8>, start: int)
    requires
        0 <= start <= path.len(),
    ensures
        start <= last_part(path, start) <= path.len(),
        last_part(path, start) > start ==> path[last_part(path, start) - 1] == SLASH,
        !path.skip(last_part(path, start)).contains(SLASH),
    decreases path.len(),
{
    let from = last_part(path, start);
    if path.len() > start && path.last() != SLASH {
        lemma_last_part(path.drop_last(), start);
        assert forall|i: int| 0 <= i < path.len() - from implies path.skip(from)[i] != SLASH by {
            if i < path.len() - from - 1 {
                assert(path.skip(from)[i] == path.drop_last().skip(from)[i]);
                assert(path.drop_last().skip(from).contains(path.skip(from)[i]));
            }
        }
    }
}

/// A last part without a slash is the last piece.
proof fn lemma_last_piece(base: Seq<u8>, last: Seq<u8>)
    requires
        !last.contains(SLASH),
    ensures
        pieces(base.push(SLASH) + last, SLASH) == pieces(base, SLASH).push(last),
        pieces(base, SLASH).len() > 0,
    decreases base.len(),
{
    lemma_first_index_is_first(base, SLASH);
    let i = first_index(base, SLASH);
    let whole = base.push(SLASH) + last;
    if i < base.len() {
        let first = base.take(i);
        let rest = base.skip(i + 1);
        lemma_last_piece(rest, last);
        assert(!first.contains(SLASH));
        lemma_first_piece(first, SLASH, rest.push(SLASH) + last);
        assert(whole == first.push(SLASH) + (rest.push(SLASH) + last));
    } else {
        assert(!base.contains(SLASH));
        lemma_one_piece(base, SLASH);
        lemma_first_piece(base, SLASH, last);
        lemma_one_piece(last, SLASH);
    }
}

/// The last part of a path adds its name, if it is one, to those before it.
pub proof fn lemma_last_name(base: Seq<u8>, last: Seq<u8>)
    requires
        !last.contains(SLASH),
    ensures
        names(base.push(SLASH) + last) == if is_void(last) {
            names(base)
        } else {
            names(base).push(last)
        },
{
    lemma_last_piece(base, last);
    let parts = pieces(base, SLASH);
    let more = pieces(base.push(SLASH) + last, SLASH);
    assert(more.drop_last() == parts);
    assert(more[0] == parts[0]);
    assert(more.skip(1).drop_last() == parts.skip(1));
    if parts[0] == seq![DOT] {
        assert(more.skip(1).last() == last);
    }
}

/// Taking the last part away takes its name away, if it is one, and keeps
/// how the path starts.
proof fn lemma_without_last(path: Seq<u8>)
    requires
        path.len() > start_len(path),
    ensures
        ({
            let start = start_len(path);
            let base = without_last(path, start);
            let last = path.skip(last_part(path, start));
            &&& start <= base.len() < path.len()
            &&& base == path.take(base.len() as int)
            &&& start_len(base) == start
            &&& has_root(base) == has_root(path)
            &&& names(path) == if is_void(last) {
                names(base)
            } else {
                names(base).push(last)
            }
        }),
{
    let start = start_len(path);
    let from = last_part(path, start);
    let base = without_last(path, start);
    let last = path.skip(from);
    let empty = Seq::<u8>::empty();
    lemma_last_part(path, start);
    lemma_one_piece(empty, SLASH);
    reveal_with_fuel(without_void, 2);
    if from > start {
        assert(path == base.push(SLASH) + last);
        lemma_last_name(base, last);
    } else if has_root(path) {
        assert(path == empty.push(SLASH) + last);
        assert(base == empty.push(SLASH) + empty);
        lemma_last_name(empty, last);
        lemma_last_name(empty, empty);
    } else if start == 1 {
        assert(last[0] == SLASH);
        assert(last.contains(SLASH));
    } else {
        assert(path == last);
        assert(base == empty);
        lemma_one_piece(path, SLASH);
        assert(seq![path].drop_last() == Seq::<Seq<u8>>::empty());
        assert(seq![empty].drop_last() == Seq::<Seq<u8>>::empty());
        if path == seq![DOT] {
            assert(path[0] == DOT);
        }
        assert(seq![DOT].len() == 1);
    }
}

/// Trimming keeps the names and how the path starts, and ends in a name.
proof fn lemma_trimmed(path: Seq<u8>)
    ensures
        ({
            let start = start_len(path);
            let short = trimmed(path, start);
            &&& start <= short.len() <= path.len()
            &&& short == path.take(short.len() as int)
            &&& start_len(short) == start
            &&& has_root(short) == has_root(path)
            &&& names(short) == names(path)
            &&& short.len() > start ==> !is_void(short.skip(last_part(short, start)))
        }),
    decreases path.len(),
{
    let start = start_len(path);
    if path.len() > start {
        lemma_without_last(path);
        if is_void(path.skip(last_part(path, start))) {
            lemma_trimmed(without_last(path, start));
        }
    }
    assert(path.take(path.len() as int) == path);
}

/// A path has a parent exactly when it has a name. The parent is a leading
/// part of the path, starts where the path starts, and has the same names but
/// for the last.
pub proof fn parent_drops_the_last_name(path: Seq<u8>)
    ensures
        parent(path) is Some <==> names(path).len() > 0,
        parent(path) matches Some(up) ==> {
            &&& up == path.take(up.len() as int)
            &&& up.len() < path.len()
            &&& has_root(up) == has_root(path)
            &&& names(up) == names(path).drop_last()
        },
{
    let start = start_len(path);
    let whole = trimmed(path, start);
    lemma_trimmed(path);
    let empty = Seq::<u8>::empty();
    lemma_one_piece(empty, SLASH);
    reveal_with_fuel(without_void, 2);
    assert(seq![empty].drop_last() == Seq::<Seq<u8>>::empty());
    if whole.len() > start {
        lemma_without_last(whole);
        lemma_trimmed(without_last(whole, start));
        assert(names(path).drop_last() == names(without_last(whole, start)));
    } else if has_root(path) {
        assert(whole == empty.push(SLASH) + empty);
        lemma_last_name(empty, empty);
    } else if start == 1 {
        assert(whole == seq![DOT]);
        assert(!whole.contains(SLASH));
        lemma_one_piece(whole, SLASH);
        assert(names(path).drop_last() == names(empty));
    } else {
        assert(whole == empty);
    }
}

/// A file name joined to a path becomes its last name.
pub proof fn join_appends_the_name(base: Seq<u8>, name: Seq<u8>)
    requires
        !name.contains(SLASH),
        !is_void(name),
    ensures
        names(join(base, name)) == names(base).push(name),
        has_root(join(base, name)) == has_root(base),
{
    let empty = Seq::<u8>::empty();
    assert(name.contains(name[0]));
    if base.len() == 0 {
        assert(base == empty);
        assert(base + name == name);
        lemma_one_piece(empty, SLASH);
        lemma_one_piece(name, SLASH);
        reveal_with_fuel(without_void, 2);
        assert(seq![empty].drop_last() == Seq::<Seq<u8>>::empty());
        assert(seq![name].drop_last() == Seq::<Seq<u8>>::empty());
    } else if base.last() == SLASH {
        let shorter = base.drop_last();
        assert(base + name == shorter.push(SLASH) + name);
        assert(base == shorter.push(SLASH) + empty);
        lemma_last_name(shorter, name);
        lemma_last_name(shorter, empty);
    } else {
        lemma_last_name(base, name);
    }
}

/// No piece between separators holds one.
proof fn lemma_pieces_hold_no_separator(path: Seq<u8>)
    ensures
        forall|part: Seq<u8>| #[trigger]
            pieces(path, SLASH).contains(part) ==> !part.contains(SLASH),
    decreases path.len(),
{
    lemma_first_index_is_first(path, SLASH);
    let i = first_index(path, SLASH);
    let parts = pieces(path, SLASH);
    if i < path.len() {
        lemma_pieces_hold_no_separator(path.skip(i + 1));
        assert forall|part: Seq<u8>| #[trigger] parts.contains(part) implies !part.contains(
            SLASH,
        ) by {
            let w = choose|w: int| 0 <= w < parts.len() && parts[w] == part;
            if w > 0 {
                assert(pieces(path.skip(i + 1), SLASH)[w - 1] == part);
                assert(pieces(path.skip(i + 1), SLASH).contains(part));
            }
        }
    }
}

/// What is left without the void parts was there, and is not void.
proof fn lemma_without_void(parts: Seq<Seq<u8>>)
    ensures
        forall|part: Seq<u8>| #[trigger]
            without_void(parts).contains(part) ==> parts.contains(part) && !is_void(part),
    decreases parts.len(),
{
    if parts.len() > 0 {
        let fewer = parts.drop_last();
        lemma_without_void(fewer);
        assert forall|part: Seq<u8>| #[trigger] without_void(parts).contains(part) implies
            parts.contains(part) && !is_void(part) by {
            let w = choose|w: int|
                0 <= w < without_void(parts).len() && without_void(parts)[w] == part;
            if w < without_void(fewer).len() {
                assert(without_void(fewer)[w] == part);
                assert(without_void(fewer).contains(part));
                let v = choose|v: int| 0 <= v < fewer.len() && fewer[v] == part;
                assert(parts[v] == part);
            } else {
                assert(parts[parts.len() - 1] == part);
            }
        }
    }
}

/// The names on a path hold no slash, and are not empty.
pub proof fn lemma_names_are_names(path: Seq<u8>)
    ensures
        forall|name: Seq<u8>| #[trigger]
            names(path).contains(name) ==> !name.contains(SLASH) && name.len() > 0,
{
    let parts = pieces(path, SLASH);
    lemma_pieces_hold_no_separator(path);
    lemma_without_void(parts);
    lemma_without_void(parts.skip(1));
    assert forall|name: Seq<u8>| #[trigger] names(path).contains(name) implies !name.contains(SLASH)
        && name.len() > 0 by {
        let w = choose|w: int| 0 <= w < names(path).len() && names(path)[w] == name;
        if parts.len() > 0 && parts[0] == seq![DOT] {
            if w > 0 {
                assert(without_void(parts.skip(1))[w - 1] == name);
                assert(without_void(parts.skip(1)).contains(name));
                let v = choose|v: int| 0 <= v < parts.skip(1).len() && parts.skip(1)[v] == name;
                assert(parts[v + 1] == name);
                assert(parts.contains(name));
            } else {
                assert(parts[0] == name);
                assert(parts.contains(name));
                assert(name.len() == 1);
            }
        } else {
            assert(without_void(parts).contains(name));
        }
    }
}

/// A path, as the bytes that the system knows it by. Two of them are equal
/// when they are made of the same names.
#[derive(Debug)]
pub struct FilePath {
    bytes: Vec<u8>,
}

impl View for FilePath {
    type V = Seq<u8>;

    closed spec fn view(&self) -> Seq<u8> {
        self.bytes@
    }
}

impl Clone for FilePath {
    fn clone(&self) -> (copy: FilePath)
        ensures
            copy@ == self@,
    {
        FilePath { bytes: self.bytes.clone() }
    }
}

impl PartialEq for FilePath {
    fn eq(&self, other: &FilePath) -> (same: bool) {
        self.is_same(other)
    }
}

impl vstd::std_specs::cmp::PartialEqSpecImpl for FilePath {
    open spec fn obeys_eq_spec() -> bool {
        true
    }

    open spec fn eq_spec(&self, other: &FilePath) -> bool {
        same_path(self@, other@)
    }
}

impl Eq for FilePath {

}

/// One more part adds its name, if it is one.
proof fn lemma_names_of_more(parts: Seq<Seq<u8>>)
    requires
        parts.len() > 0,
    ensures
        names_of(parts) == if is_void(parts.last()) && !(parts.len() == 1 && parts[0] == seq![DOT]) {
            names_of(parts.drop_last())
        } else {
            names_of(parts.drop_last()).push(parts.last())
        },
{
    if parts[0] == seq![DOT] {
        if parts.len() > 1 {
            assert(parts.skip(1).drop_last() == parts.drop_last().skip(1));
        } else {
            assert(parts.skip(1) == Seq::<Seq<u8>>::empty());
        }
    }
}

/// The view of a list of byte strings.
pub open spec fn byte_strings(list: Seq<Vec<u8>>) -> Seq<Seq<u8>> {
    list.map_values(|bytes: Vec<u8>| bytes@)
}

/// The bytes from `from` up to `to`.
fn bytes_between(bytes: &[u8], from: usize, to: usize) -> (part: Vec<u8>)
    requires
        from <= to <= bytes@.len(),
    ensures
        part@ == bytes@.subrange(from as int, to as int),
{
    let mut part: Vec<u8> = Vec::new();
    let mut i: usize = from;
    while i < to
        invariant
            from <= i <= to <= bytes@.len(),
            part@ == bytes@.subrange(from as int, i as int),
        decreases to - i,
    {
        part.push(bytes[i]);
        i += 1;
    }
    part
}

/// Whether `part` names nothing by itself.
fn part_is_void(part: &[u8]) -> (void: bool)
    ensures
        void == is_void(part@),
{
    let void = part.len() == 0 || (part.len() == 1 && part[0] == DOT);
    assert(part@.len() == 1 && part@[0] == DOT ==> part@ =~= seq![DOT]);
    assert(part@ == seq![DOT] ==> part@.len() == 1 && part@[0] == DOT);
    void
}

/// The names on a path.
fn path_names(path: &[u8]) -> (list: Vec<Vec<u8>>)
    ensures
        byte_strings(list@) == names(path@),
{
    let mut list: Vec<Vec<u8>> = Vec::new();
    let mut from: usize = 0;
    let ghost parts = pieces(path@, SLASH);
    let ghost mut done: int = 0;
    assert(path@.skip(0) == path@);
    assert(parts.skip(0) == parts);
    assert(byte_strings(list@) == Seq::<Seq<u8>>::empty());
    loop
        invariant_except_break
            pieces(path@.skip(from as int), SLASH) == parts.skip(done),
            byte_strings(list@) == names_of(parts.take(done)),
        invariant
            from <= path@.len(),
            0 <= done <= parts.len(),
            parts == pieces(path@, SLASH),
            (from == 0) == (done == 0),
        ensures
            byte_strings(list@) == names(path@),
        decreases path@.len() - from,
    {
        let ghost rest = path@.skip(from as int);
        let mut i: usize = from;
        while i < path.len() && path[i] != SLASH
            invariant
                from <= i <= path@.len(),
                forall|j: int| from <= j < i ==> path@[j] != SLASH,
            decreases path@.len() - i,
        {
            i += 1;
        }
        let part = bytes_between(path, from, i);
        let ghost before = list@;
        proof {
            lemma_first_index(rest, SLASH, i - from);
            assert(part@ == rest.take(i - from));
            assert(pieces(rest, SLASH)[0] == part@) by {
                if i == path@.len() {
                    assert(rest.take(i - from) == rest);
                }
            }
            assert(parts.skip(done).len() == parts.len() - done);
            assert(parts[done] == part@) by {
                assert(parts.skip(done)[0] == parts[done]);
            }
            assert(parts.take(done + 1).drop_last() == parts.take(done));
            assert(parts.take(done + 1).last() == part@);
            lemma_names_of_more(parts.take(done + 1));
        }
        let first = from == 0;
        if first && part.len() == 1 && part[0] == DOT {
            assert(part@ =~= seq![DOT]);
            list.push(part);
            assert(byte_strings(list@) == byte_strings(before).push(part@));
        } else if !part_is_void(part.as_slice()) {
            list.push(part);
            assert(byte_strings(list@) == byte_strings(before).push(part@));
        } else {
            assert(done == 0 ==> part@ != seq![DOT]) by {
                if part@ == seq![DOT] {
                    assert(part@.len() == 1 && part@[0] == DOT);
                }
            }
        }
        assert(byte_strings(list@) == names_of(parts.take(done + 1)));
        if i == path.len() {
            proof {
                assert(parts.skip(done).len() == 1);
                assert(parts.take(done + 1) == parts);
            }
            break;
        }
        proof {
            assert(rest.skip(i - from + 1) == path@.skip(i + 1));
            assert(parts.skip(done).skip(1) == parts.skip(done + 1));
            assert(pieces(rest, SLASH).skip(1) == pieces(path@.skip(i + 1), SLASH));
            done = done + 1;
        }
        from = i + 1;
    }
    list
}

/// Whether two lists hold the same byte strings in the same order.
fn same_names(a: &Vec<Vec<u8>>, b: &Vec<Vec<u8>>) -> (same: bool)
    ensures
        same == (byte_strings(a@) == byte_strings(b@)),
{
    if a.len() != b.len() {
        assert(byte_strings(a@).len() != byte_strings(b@).len());
        return false;
    }
    let mut i: usize = 0;
    while i < a.len()
        invariant
            i <= a@.len() == b@.len(),
            forall|j: int| 0 <= j < i ==> a@[j]@ == b@[j]@,
        decreases a@.len() - i,
    {
        if !same_bytes(a[i].as_slice(), b[i].as_slice()) {
            assert(byte_strings(a@)[i as int] != byte_strings(b@)[i as int]);
            return false;
        }
        i += 1;
    }
    assert(byte_strings(a@) =~= byte_strings(b@));
    true
}

/// Where the last part of the first `end` bytes of `path` begins.
fn last_part_of(path: &[u8], end: usize, start: usize) -> (from: usize)
    requires
        start <= end <= path@.len(),
    ensures
        from == last_part(path@.take(end as int), start as int),
        start <= from <= end,
{
    let mut from: usize = end;
    while from > start && path[from - 1] != SLASH
        invariant
            start <= from <= end <= path@.len(),
            last_part(path@.take(from as int), start as int) == last_part(
                path@.take(end as int),
                start as int,
            ),
        decreases from,
    {
        assert(path@.take(from as int).drop_last() == path@.take(from - 1));
        from -= 1;
    }
    from
}

/// How many bytes are left of the first `end` bytes of `path` without the
/// parts at their end that name nothing.
fn trimmed_len(path: &[u8], end: usize, start: usize) -> (len: usize)
    requires
        start <= end <= path@.len(),
    ensures
        start <= len <= end,
        path@.take(len as int) == trimmed(path@.take(end as int), start as int),
{
    let mut len: usize = end;
    while len > start
        invariant
            start <= len <= end <= path@.len(),
            trimmed(path@.take(len as int), start as int) == trimmed(
                path@.take(end as int),
                start as int,
            ),
        ensures
            start <= len <= end,
            path@.take(len as int) == trimmed(path@.take(end as int), start as int),
        decreases len,
    {
        let from = last_part_of(path, len, start);
        let part = bytes_between(path, from, len);
        assert(part@ == path@.take(len as int).skip(from as int));
        if !part_is_void(part.as_slice()) {
            break;
        }
        let shorter: usize = if from > start {
            from - 1
        } else {
            start
        };
        assert(path@.take(shorter as int) == without_last(path@.take(len as int), start as int));
        len = shorter;
    }
    len
}

impl FilePath {
    /// The path with these bytes.
    pub fn from_bytes(bytes: Vec<u8>) -> (path: FilePath)
        ensures
            path@ == bytes@,
    {
        FilePath { bytes }
    }

    /// The path with this text.
    pub fn from_text(text: &str) -> (path: FilePath)
        ensures
            path@ == encode_utf8(text@),
    {
        FilePath { bytes: text.as_bytes_vec() }
    }

    /// The bytes of the path.
    pub fn as_bytes(&self) -> (bytes: &[u8])
        ensures
            bytes@ == self@,
    {
        self.bytes.as_slice()
    }

    /// The text of the path, if it is UTF-8.
    pub fn to_text(&self) -> (text: Option<String>)
        ensures
            text is Some <==> valid_utf8(self@),
            text is Some ==> text->0@ == decode_utf8(self@),
    {
        utf8_text(self.bytes.clone())
    }

    /// The path for showing to a person: its text, with replacement
    /// characters where it is not UTF-8.
    pub fn display(&self) -> (text: String)
        ensures
            text@ == lossy_text(self@),
            valid_utf8(self@) ==> text@ == decode_utf8(self@),
    {
        utf8_text_lossy(self.bytes.as_slice())
    }

    /// Whether the path starts at the root directory.
    pub fn has_root(&self) -> (rooted: bool)
        ensures
            rooted == has_root(self@),
    {
        self.bytes.len() > 0 && self.bytes[0] == SLASH
    }

    /// Whether the two paths are made of the same names.
    pub fn is_same(&self, other: &FilePath) -> (same: bool)
        ensures
            same == same_path(self@, other@),
    {
        self.has_root() == other.has_root() && same_names(
            &path_names(self.bytes.as_slice()),
            &path_names(other.bytes.as_slice()),
        )
    }

    /// This path extended by `rest`.
    pub fn join(&self, rest: &FilePath) -> (joined: FilePath)
        ensures
            joined@ == join(self@, rest@),
    {
        if rest.has_root() {
            return FilePath { bytes: rest.bytes.clone() };
        }
        let mut bytes = self.bytes.clone();
        if bytes.len() > 0 && bytes[bytes.len() - 1] != SLASH {
            bytes.push(SLASH);
        }
        bytes.extend_from_slice(rest.bytes.as_slice());
        assert(bytes@ == join(self@, rest@));
        FilePath { bytes }
    }

    /// The last name on the path, unless it is `.` or `..`.
    pub fn file_name(&self) -> (name: Option<Vec<u8>>)
        ensures
            name is Some <==> file_name(self@) is Some,
            name is Some ==> file_name(self@) == Some(name->0@),
    {
        let mut list = path_names(self.bytes.as_slice());
        let ghost all = names(self@);
        assert(byte_strings(list@) == all);
        match list.pop() {
            None => None,
            Some(last) => {
                assert(all.last() == last@);
                let dot = last.len() == 1 && last[0] == DOT;
                let dots = last.len() == 2 && last[0] == DOT && last[1] == DOT;
                proof {
                    assert(dot ==> last@ =~= seq![DOT]);
                    assert(dots ==> last@ =~= seq![DOT, DOT]);
                    assert(last@ == seq![DOT] ==> last@.len() == 1 && last@[0] == DOT);
                    assert(last@ == seq![DOT, DOT] ==> last@.len() == 2 && last@[0] == DOT
                        && last@[1] == DOT);
                }
                if dot || dots {
                    None
                } else {
                    Some(last)
                }
            },
        }
    }

    /// What follows the last dot of the file name, unless that dot starts it.
    pub fn extension(&self) -> (ext: Option<Vec<u8>>)
        ensures
            ext is Some <==> extension(self@) is Some,
            ext is Some ==> extension(self@) == Some(ext->0@),
    {
        let name = match self.file_name() {
            None => return None,
            Some(name) => name,
        };
        let mut i: usize = name.len();
        assert(name@.take(i as int) == name@);
        while i > 0 && name[i - 1] != DOT
            invariant
                i <= name@.len(),
                last_index(name@.take(i as int), DOT) == last_index(name@, DOT),
            decreases i,
        {
            assert(name@.take(i as int).drop_last() == name@.take(i - 1));
            i -= 1;
        }
        assert(last_index(name@, DOT) == i - 1);
        if i > 1 {
            let ext = bytes_between(name.as_slice(), i, name.len());
            assert(ext@ == name@.skip(i as int));
            Some(ext)
        } else {
            None
        }
    }

    /// The path without its last name, or `None` if it has no name.
    pub fn parent(&self) -> (up: Option<FilePath>)
        ensures
            up is Some <==> parent(self@) is Some,
            up is Some ==> parent(self@) == Some(up->0@),
    {
        let path = self.bytes.as_slice();
        let rooted = self.has_root();
        let dotted = path.len() > 0 && path[0] == DOT && (path.len() == 1 || path[1] == SLASH);
        let start: usize = if rooted || dotted {
            1
        } else {
            0
        };
        assert(start == start_len(self@));
        assert(path@.take(path@.len() as int) == path@);
        let len = trimmed_len(path, path.len(), start);
        if len > start {
            let from = last_part_of(path, len, start);
            let shorter: usize = if from > start {
                from - 1
            } else {
                start
            };
            assert(path@.take(shorter as int) == without_last(
                path@.take(len as int),
                start as int,
            ));
            let up = bytes_between(path, 0, trimmed_len(path, shorter, start));
            Some(FilePath { bytes: up })
        } else if dotted {
            let bytes: Vec<u8> = Vec::new();
            assert(bytes@ == Seq::<u8>::empty());
            Some(FilePath { bytes })
        } else {
            None
        }
    }
}

/// The view of a list of paths.
pub open spec fn paths(list: Seq<FilePath>) -> Seq<Seq<u8>> {
    list.map_values(|path: FilePath| path@)
}

/// Whether `path` is in `list`, by its names.
pub open spec fn lists(list: Seq<Seq<u8>>, path: Seq<u8>) -> bool {
    exists|i: int| 0 <= i < list.len() && same_path(#[trigger] list[i], path)
}

/// Whether no path is in `list` twice.
pub open spec fn distinct(list: Seq<Seq<u8>>) -> bool {
    forall|i: int, j: int|
        0 <= i < j < list.len() ==> !same_path(#[trigger] list[i], #[trigger] list[j])
}

/// A list stays without doubles when a path is added that was not in it, and
/// holds the path.
pub proof fn lemma_lists_more(list: Seq<Seq<u8>>, path: Seq<u8>)
    ensures
        lists(list.push(path), path),
        distinct(list) && !lists(list, path) ==> distinct(list.push(path)),
{
    assert(list.push(path)[list.len() as int] == path);
}

/// What is in a list is in it when a path is added.
pub proof fn lemma_still_lists(list: Seq<Seq<u8>>, path: Seq<u8>, other: Seq<u8>)
    requires
        lists(list, other),
    ensures
        lists(list.push(path), other),
{
    let w = choose|i: int| 0 <= i < list.len() && same_path(#[trigger] list[i], other);
    assert(list.push(path)[w] == list[w]);
}

/// Whether `path` is in `list`, by its names.
pub fn list_holds(list: &Vec<FilePath>, path: &FilePath) -> (found: bool)
    ensures
        found == lists(paths(list@), path@),
{
    let mut i: usize = 0;
    while i < list.len()
        invariant
            i <= list@.len(),
            forall|j: int| 0 <= j < i ==> !same_path(#[trigger] paths(list@)[j], path@),
        decreases list@.len() - i,
    {
        assert(paths(list@)[i as int] == list@[i as int]@);
        if list[i].is_same(path) {
            return true;
        }
        i += 1;
    }
    false
}

/// Being the same path is an equivalence, and a path starts at the root exactly
/// if a slash starts it.
pub proof fn sameness_is_an_equivalence(a: Seq<u8>, b: Seq<u8>, c: Seq<u8>)
    ensures
        same_path(a, a),
        same_path(a, b) ==> same_path(b, a),
        same_path(a, b) && same_path(b, c) ==> same_path(a, c),
        has_root(a) <==> a.len() > 0 && a[0] == '/' as u8,
{
}

/// Two paths are the same exactly if both start at the root or neither does, and
/// they have the same names in the same order.
pub proof fn paths_are_told_apart_by_their_names(a: Seq<u8>, b: Seq<u8>)
    ensures
        same_path(a, b) <==> {
            &&& a.len() > 0 && a[0] == '/' as u8 <==> b.len() > 0 && b[0] == '/' as u8
            &&& names(a) == names(b)
        },
{
}

/// The names of a path are its parts between slashes: a part behind a slash adds
/// itself as the last name, unless it is empty or `.`; a path without a slash is
/// its own only name, unless it is empty.
pub proof fn the_last_part_adds_its_name(base: Seq<u8>, last: Seq<u8>)
    requires
        !last.contains('/' as u8),
    ensures
        last.len() == 0 || last == seq!['.' as u8] ==> names(base + seq!['/' as u8] + last)
            == names(base),
        last.len() > 0 && last != seq!['.' as u8] ==> names(base + seq!['/' as u8] + last)
            == names(base).push(last),
        last.len() == 0 ==> names(last) == Seq::<Seq<u8>>::empty(),
        last.len() > 0 ==> names(last) == seq![last],
{
    assert(base + seq!['/' as u8] == base.push(SLASH));
    lemma_last_name(base, last);
    lemma_one_piece(last, SLASH);
    reveal_with_fuel(without_void, 2);
    assert(seq![last].drop_last() == Seq::<Seq<u8>>::empty());
    assert(seq![last].skip(1) == Seq::<Seq<u8>>::empty());
    if last == seq![DOT] {
        assert(names(last) == seq![last] + Seq::<Seq<u8>>::empty());
    }
    assert(seq![last].drop_last().push(last) == seq![last]);
}

/// Joining keeps both paths, byte for byte, with one slash between them where
/// the first does not end in one; a rooted path takes the place of the first.
pub proof fn joining_keeps_both_paths(base: Seq<u8>, rest: Seq<u8>)
    ensures
        rest.len() > 0 && rest[0] == '/' as u8 ==> join(base, rest) == rest,
        !(rest.len() > 0 && rest[0] == '/' as u8) ==> {
            &&& base.len() == 0 || base.last() == '/' as u8 ==> join(base, rest) == base + rest
            &&& base.len() > 0 && base.last() != '/' as u8 ==> join(base, rest) == base + seq![
                '/' as u8,
            ] + rest
        },
{
    assert(base.push(SLASH) == base + seq!['/' as u8]);
}

/// The file name of a path is the last of its names, unless that is `.` or `..`.
pub proof fn the_file_name_is_the_last_name(path: Seq<u8>)
    ensures
        file_name(path) is Some <==> names(path).len() > 0 && names(path).last() != seq!['.' as u8]
            && names(path).last() != seq!['.' as u8, '.' as u8],
        file_name(path) matches Some(name) ==> name == names(path).last(),
{
}

/// The extension is what follows the last dot of the file name. A name without
/// a dot, or whose only dot starts it, has none.
pub proof fn the_extension_follows_the_last_dot(path: Seq<u8>, stem: Seq<u8>, ext: Seq<u8>)
    requires
        !ext.contains('.' as u8),
    ensures
        file_name(path) == Some(stem + seq!['.' as u8] + ext) && stem.len() > 0 ==> extension(path)
            == Some(ext),
        file_name(path) == Some(seq!['.' as u8] + ext) ==> extension(path) is None,
        file_name(path) == Some(ext) ==> extension(path) is None,
        file_name(path) is None ==> extension(path) is None,
{
    lemma_last_index(stem + seq!['.' as u8], ext);
    lemma_last_index(seq!['.' as u8], ext);
    lemma_last_index(Seq::<u8>::empty(), ext);
    assert(Seq::<u8>::empty() + ext == ext);
    let name = stem + seq!['.' as u8] + ext;
    assert(name.skip(stem.len() as int + 1) == ext);
}

/// What follows the last dot holds none.
proof fn lemma_last_index(before: Seq<u8>, after: Seq<u8>)
    requires
        before.len() > 0 ==> before.last() == DOT,
        !after.contains(DOT),
    ensures
        last_index(before + after, DOT) == before.len() - 1,
    decreases after.len(),
{
    if after.len() > 0 {
        assert(after.contains(after[after.len() - 1]));
        assert forall|i: int| 0 <= i < after.len() - 1 implies after.drop_last()[i] != DOT by {
            assert(after.contains(after[i]));
        }
        lemma_last_index(before, after.drop_last());
        assert((before + after).drop_last() == before + after.drop_last());
        assert((before + after).last() == after.last());
    } else {
        assert(before + after == before);
    }
}

/// A parent ends in a name: beyond the root, no slash ends it, nor a part that
/// is just a dot.
pub proof fn a_parent_ends_in_a_name(path: Seq<u8>)
    ensures
        parent(path) matches Some(up) ==> up.len() > 1 ==> up.last() != '/' as u8 && !(up.last()
            == '.' as u8 && up[up.len() - 2] == '/' as u8),
{
    let start = start_len(path);
    let whole = trimmed(path, start);
    lemma_trimmed(path);
    if whole.len() > start {
        lemma_without_last(whole);
        let base = without_last(whole, start);
        lemma_trimmed(base);
        let up = trimmed(base, start);
        if up.len() > 1 && up.last() == SLASH {
            assert(up.len() > start);
            assert(last_part(up, start) == up.len());
            assert(up.skip(up.len() as int).len() == 0);
        }
        if up.len() > 1 && up.last() == DOT && up[up.len() - 2] == SLASH {
            assert(up.len() > start);
            reveal_with_fuel(last_part, 3);
            assert(up.drop_last().last() == SLASH);
            assert(last_part(up, start) == up.len() - 1);
            assert(up.skip(up.len() - 1) == seq![DOT]);
        }
    }
}

/// A path and its parent: joined, the parent and the last name are the path.
pub proof fn parent_and_last_name_make_the_path(path: Seq<u8>)
    requires
        names(path).len() > 0,
        names(path).last() != seq!['.' as u8],
    ensures
        parent(path) is Some && same_path(join(parent(path)->0, names(path).last()), path),
{
    parent_drops_the_last_name(path);
    let name = names(path).last();
    lemma_names_are_names(path);
    assert(names(path).contains(name));
    join_appends_the_name(parent(path)->0, name);
    assert(names(path).drop_last().push(name) == names(path));
}

/// The view of a list of paths is the paths, one for one; a path is in a list
/// where one of them is the same path; and a list is distinct where no two at
/// different places are.
pub proof fn lists_go_by_sameness(list: Seq<FilePath>, path: Seq<u8>, i: int, j: int)
    ensures
        paths(list).len() == list.len(),
        forall|k: int| 0 <= k < list.len() ==> #[trigger] paths(list)[k] == list[k]@,
        0 <= i < list.len() && same_path(list[i]@, path) ==> lists(paths(list), path),
        (forall|k: int| 0 <= k < list.len() ==> !same_path((#[trigger] list[k])@, path)) ==> !lists(
            paths(list),
            path,
        ),
        distinct(paths(list)) && 0 <= i < j < list.len() ==> !same_path(list[i]@, list[j]@),
{
    if 0 <= i < list.len() {
        assert(paths(list)[i] == list[i]@);
    }
    if 0 <= j < list.len() {
        assert(paths(list)[j] == list[j]@);
    }
    if lists(paths(list), path) {
        let w = choose|w: int| 0 <= w < paths(list).len() && same_path(#[trigger] paths(list)[w], path);
        assert(same_path(list[w]@, path));
    }
}

/// Two paths compare as equal exactly if they are the same path.
pub proof fn equal_paths_are_the_same_path(a: FilePath, b: FilePath)
    ensures
        <FilePath as PartialEqSpec>::obeys_eq_spec(),
        a.eq_spec(&b) <==> same_path(a@, b@),
{
}

} // verus!
