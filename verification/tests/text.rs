//! Texts, numbers and paths, beside what the standard library makes of them.

use ccore::path::FilePath;
use ccore::text::number::parse_u32;
use ccore::text::{ops, order};
use std::path::Path;

const TEXTS: [&str; 14] = [
    "",
    " ",
    "a",
    "a b",
    "  a\tb\n",
    "a,b;;c.",
    "line one\nline two\r\n\nlast",
    "\n",
    "x\r\ny\r",
    "中文 text，混合\u{3000}空白",
    "aXbXXc",
    "XX",
    "ends with X",
    "é\u{a0}ü\u{2028}z",
];

fn chars(s: &str) -> Vec<char> {
    s.chars().collect()
}

fn text(s: &[char]) -> String {
    s.iter().collect()
}

fn texts(v: &[&[char]]) -> Vec<String> {
    v.iter().map(|s| text(s)).collect()
}

#[test]
fn white_space_is_known() {
    for c in '\0'..=char::MAX {
        assert_eq!(ops::is_white(c), c.is_whitespace(), "{:?}", c);
        assert_eq!(ops::is_ascii_punctuation(c), c.is_ascii_punctuation(), "{:?}", c);
        assert_eq!(ops::is_ascii_digit(c), c.is_ascii_digit(), "{:?}", c);
        assert_eq!(ops::width(c), c.len_utf8(), "{:?}", c);
    }
}

#[test]
fn texts_are_trimmed_and_cut() {
    for s in TEXTS {
        let c = chars(s);
        assert_eq!(text(ops::trim(&c)), s.trim());
        assert_eq!(text(ops::trim_start(&c)), s.trim_start());
        assert_eq!(text(ops::trim_end(&c)), s.trim_end());
        assert_eq!(texts(&ops::lines(&c)), s.lines().collect::<Vec<_>>());
        assert_eq!(texts(&ops::split(&c, "X")), s.split('X').collect::<Vec<_>>());
        assert_eq!(
            texts(&ops::split_whitespace(&c)),
            s.split_whitespace().collect::<Vec<_>>()
        );
        assert_eq!(texts(&ops::split_any(&c, ",;")), s.split([',', ';']).collect::<Vec<_>>());
        assert_eq!(
            texts(&ops::split_inclusive_any(&c, ".,;")),
            s.split_inclusive(['.', ',', ';']).collect::<Vec<_>>()
        );
        assert_eq!(ops::replace(&c, "X", "yy"), s.replace('X', "yy"));
        assert_eq!(ops::byte_len(&c), s.len());
        assert_eq!(ops::is_empty(s), s.is_empty());
    }
}

#[test]
fn texts_are_searched() {
    for s in TEXTS {
        let c = chars(s);
        for p in ["X", "b", "line", "文", "zz"] {
            assert_eq!(ops::contains(&c, p), s.contains(p));
            assert_eq!(ops::starts_with(&c, p), s.starts_with(p));
            assert_eq!(ops::ends_with(&c, p), s.ends_with(p));
            let place = |i: usize| s[..i].chars().count();
            assert_eq!(ops::find(&c, p), s.find(p).map(place));
            assert_eq!(ops::rfind(&c, p), s.rfind(p).map(place));
        }
    }
}

#[test]
fn texts_are_put_together() {
    assert_eq!(ops::concat3("a", "", "中"), "a中");
    let parts = vec!["a".to_string(), "b".to_string()];
    assert_eq!(ops::join_texts(&parts, ", "), "a, b");
    assert_eq!(ops::join_texts(&[], ", "), "");
    assert_eq!(ops::decimal(0), "0");
    assert_eq!(ops::decimal_u64(u64::MAX), u64::MAX.to_string());
}

#[test]
fn numbers_are_read() {
    for s in ["0", "7", "007", "4294967295", "4294967296", "", "+5", "-1", "1a", "99999999999"] {
        assert_eq!(parse_u32(&chars(s)), s.parse::<u32>().ok(), "{}", s);
    }
}

#[test]
fn texts_are_put_in_order() {
    let names = ["b", "a", "", "中", "ab", "B", "a"];
    let mut wanted: Vec<String> = names.iter().map(|s| s.to_string()).collect();
    let sorted = order::sort(wanted.clone());
    wanted.sort();
    assert_eq!(sorted, wanted);
}

const PATHS: [&str; 18] = [
    "", ".", "..", "/", "a", "a/b", "/a/b", "a/b.rs", "a/.hidden", "a/b.tar.gz", "./a", "a/./b",
    "a//b", "a/b/", "a/..", "/a", "a/b.", "src/mod.rs",
];

#[test]
fn paths_are_taken_apart() {
    for s in PATHS {
        let (ours, std) = (FilePath::new(s), Path::new(s));
        let shown = |p: Option<&Path>| p.map(|p| p.display().to_string());
        assert_eq!(ours.file_name(), shown(std.file_name().map(Path::new)), "{}", s);
        assert_eq!(ours.file_stem(), shown(std.file_stem().map(Path::new)), "{}", s);
        assert_eq!(ours.extension(), shown(std.extension().map(Path::new)), "{}", s);
        let parent = std.parent().map(|p| p.display().to_string());
        assert_eq!(ours.parent().map(|p| p.as_text().to_string()), parent, "{}", s);
    }
}

#[test]
fn paths_are_compared_and_joined() {
    for a in PATHS {
        for b in PATHS {
            let (x, y) = (FilePath::new(a), FilePath::new(b));
            assert_eq!(x.same(&y), Path::new(a) == Path::new(b), "{} {}", a, b);
            assert_eq!(x.join(b).as_text(), Path::new(a).join(b).display().to_string());
            let rest = Path::new(a).strip_prefix(b).ok().map(|p| p.display().to_string());
            let ours = x.strip_prefix(&y).map(|p| p.as_text().to_string());
            assert_eq!(ours, rest, "{} {}", a, b);
        }
    }
}
