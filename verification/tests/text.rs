//! Text, numbers and paths, held against the standard library's.

use std::path::Path;

use mdpreviewer::decimal::{push_decimal, read_number};
use mdpreviewer::path::{list_holds, FilePath};
use mdpreviewer::text::{
    char_is_white, chars_of, same_text, split_text, text_before, text_behind, text_of, trim_text,
    Margin,
};

fn path(text: &str) -> FilePath {
    FilePath::from_text(text)
}

fn shown(path: Option<FilePath>) -> Option<String> {
    path.map(|path| path.display())
}

/// Every text of up to `len` characters of `alphabet`.
fn words(alphabet: &[&str], len: usize) -> Vec<String> {
    let mut all: Vec<String> = vec![String::new()];
    let mut last: Vec<String> = all.clone();
    for _ in 0..len {
        let mut next: Vec<String> = Vec::new();
        for word in &last {
            for letter in alphabet {
                next.push(format!("{word}{letter}"));
            }
        }
        all.extend(next.iter().cloned());
        last = next;
    }
    all
}

#[test]
fn paths_come_apart_as_in_std() {
    for word in words(&["/", ".", "a"], 7) {
        let ours = path(&word);
        let theirs = Path::new(&word);
        assert_eq!(
            shown(ours.parent()).as_deref(),
            theirs.parent().and_then(Path::to_str),
            "parent of {word:?}"
        );
        let name = ours.file_name().map(|name| String::from_utf8(name).unwrap());
        assert_eq!(
            name.as_deref(),
            theirs.file_name().and_then(|name| name.to_str()),
            "file name of {word:?}"
        );
        let ext = ours.extension().map(|ext| String::from_utf8(ext).unwrap());
        assert_eq!(
            ext.as_deref(),
            theirs.extension().and_then(|ext| ext.to_str()),
            "extension of {word:?}"
        );
        assert_eq!(ours.has_root(), theirs.has_root());
        assert_eq!(ours.has_root(), theirs.is_absolute());
    }
}

#[test]
fn paths_compare_and_join_as_in_std() {
    let all = words(&["/", ".", "a"], 4);
    for a in &all {
        for b in &all {
            let ours = path(a) == path(b);
            assert_eq!(ours, Path::new(a) == Path::new(b), "{a:?} and {b:?}");
            let joined = path(a).join(&path(b));
            assert_eq!(
                joined.to_text().as_deref(),
                Path::new(a).join(b).to_str(),
                "{a:?} and {b:?}"
            );
        }
    }
}

#[test]
fn a_parent_lacks_the_last_name_only() {
    let file = path("/notes//docs/./a.md/");
    let dir = file.parent().unwrap();
    assert_eq!(dir.as_bytes(), "/notes//docs".as_bytes());
    let name = FilePath::from_bytes(file.file_name().unwrap());
    assert_eq!(dir.join(&name), file);
}

#[test]
fn paths_that_are_not_text_are_shown_with_replacements() {
    let odd = FilePath::from_bytes(vec![97, 255, 98]);
    assert_eq!(odd.display(), "a\u{fffd}b");
    assert_eq!(odd.to_text(), None);
    assert_eq!(path("é").to_text().as_deref(), Some("é"));
    assert_eq!(path("é").display(), "é");
    assert_eq!(odd.clone(), odd);
}

#[test]
fn lists_hold_paths_by_their_names() {
    let list = vec![path("/a/b"), path("c")];
    assert!(list_holds(&list, &path("/a//b/")));
    assert!(list_holds(&list, &path("c/.")));
    assert!(!list_holds(&list, &path("./c")));
    assert!(!list_holds(&list, &path("a/b")));
}

#[test]
fn numbers_are_read_as_in_std() {
    for text in [
        "", "+", "-", "0", "007", "+5", "++5", "-0", "-1", "12a", " 1", "1 ", "4294967295",
        "4294967296", "99999999999999999999999999", "１", "1_000", "0x1",
    ] {
        assert_eq!(
            read_number(text, u32::MAX as u64),
            text.parse::<u32>().ok().map(u64::from),
            "{text:?}"
        );
        assert_eq!(
            read_number(text, u64::MAX),
            text.parse::<u64>().ok(),
            "{text:?}"
        );
    }
    assert_eq!(read_number("18446744073709551615", u64::MAX), Some(u64::MAX));
    assert_eq!(read_number("18446744073709551616", u64::MAX), None);
}

#[test]
fn numbers_are_written_as_in_std_and_read_back() {
    for n in [0, 7, 10, 42, 99, 100, 4294967295, u64::MAX] {
        let mut text = String::from("n=");
        push_decimal(&mut text, n);
        assert_eq!(text, format!("n={n}"));
        assert_eq!(read_number(&text[2..], u64::MAX), Some(n));
    }
}

#[test]
fn white_space_is_as_in_std() {
    for ch in '\u{0}'..=char::MAX {
        assert_eq!(char_is_white(ch), ch.is_whitespace(), "{ch:?}");
    }
}

#[test]
fn margins_are_trimmed_as_in_std() {
    for text in ["", " ", "\n\n", " a b ", "\n a \n", "\u{3000}x\u{85}", "ab"] {
        assert_eq!(trim_text(text, Margin::White), text.trim());
        assert_eq!(trim_text(text, Margin::Newlines), text.trim_matches('\n'));
    }
}

#[test]
fn texts_come_apart_as_in_std() {
    for text in ["", "\t", "a", "a\tb", "a\t\tb\t", "é\tü"] {
        let theirs: Vec<&str> = text.split('\t').collect();
        assert_eq!(split_text(text, '\t'), theirs);
        assert_eq!(text_of(&chars_of(text)), text);
        for part in ["", "a", "a\t", "b", "\t", "é"] {
            assert_eq!(text_behind(text, part), text.strip_prefix(part));
            assert_eq!(text_before(text, part), text.strip_suffix(part));
            assert_eq!(same_text(text, part), text == part);
        }
    }
}
