use itools_plugin::codec::{hex, hex_of, push_le};
use itools_plugin::entry::split_entry_name;
use itools_plugin::order::{at_most, sort};
use itools_plugin::path::{extension, is_within, is_within_any, name_in, named_parts, plain_parts};
use itools_plugin::table::Table;
use itools_plugin::text::{
    char_is_space, decimal, find, is_blank, join, parse_u32, parse_u64, replace_char, signed, split, split_once, trim_str,
};
use itools_plugin::{utf16, utf8};

fn chars(s: &str) -> Vec<char> {
    s.chars().collect()
}

fn joined(v: &[char]) -> String {
    v.iter().collect()
}

#[test]
fn spaces_are_those_of_unicode() {
    for n in 0..=0x10FFFFu32 {
        if let Some(c) = char::from_u32(n) {
            assert_eq!(char_is_space(c), c.is_whitespace(), "{n:x}");
        }
    }
}

#[test]
fn texts_are_trimmed_and_split() {
    assert_eq!(joined(&trim_str(" \u{3000}a b\n")), "a b");
    assert!(is_blank("\t "));
    let v = split(&chars("a//b"), '/');
    assert_eq!(v, vec![chars("a"), chars(""), chars("b")]);
    assert_eq!(joined(&join(&v, "-")), "a--b");
    let s = chars("k=v=w");
    let (a, b) = split_once(&s, "=").unwrap();
    assert_eq!((joined(a), joined(b)), ("k".to_string(), "v=w".to_string()));
    assert_eq!(find(&chars("abcabc"), &chars("ca")), Some(2));
    assert_eq!(find(&chars("abc"), &chars("x")), None);
    assert_eq!(joined(&replace_char(&chars("a\\b"), '\\', '/')), "a/b");
}

#[test]
fn numbers_are_written_and_read() {
    assert_eq!(decimal(0), "0");
    assert_eq!(decimal(u64::MAX), u64::MAX.to_string());
    assert_eq!(signed(i64::MIN), i64::MIN.to_string());
    assert_eq!(signed(-7), "-7");
    assert_eq!(parse_u32(&chars("4294967295")), Some(u32::MAX));
    assert_eq!(parse_u32(&chars("4294967296")), None);
    assert_eq!(parse_u32(&chars("")), None);
    assert_eq!(parse_u64(&chars("18446744073709551615")), Some(u64::MAX));
    assert_eq!(parse_u64(&chars("1a")), None);
    assert_eq!(hex(&[0, 255, 16]), "00ff10");
    assert_eq!(hex_of(0), "0");
    assert_eq!(hex_of(u128::MAX), format!("{:x}", u128::MAX));
    let mut v = vec![9];
    push_le(&mut v, 0x0102_0304, 4);
    push_le(&mut v, 0x1_0000_0001, 4);
    assert_eq!(v, vec![9, 4, 3, 2, 1, 1, 0, 0, 0]);
}

#[test]
fn utf16_is_that_of_std() {
    for s in ["", "abc", "中文", "a😀b"] {
        let units: Vec<u16> = s.encode_utf16().collect();
        assert_eq!(utf16::encode(&chars(s)), units);
        assert_eq!(joined(&utf16::decode_lossy(&units)), s);
        assert!(utf16::check(&units));
    }
    let bad = [0xD800u16, 0x41, 0xDC00];
    assert_eq!(joined(&utf16::decode_lossy(&bad)), String::from_utf16_lossy(&bad));
    assert!(!utf16::check(&bad));
}

#[test]
fn utf8_is_that_of_std() {
    let samples: Vec<Vec<u8>> = vec![
        b"plain".to_vec(),
        "中文😀".as_bytes().to_vec(),
        vec![0xE4, 0xB8],
        vec![0xFF, b'a', 0xC0, 0x80],
        vec![0xED, 0xA0, 0x80],
        vec![0xF0, 0x9F, 0x98, b'x'],
        vec![0xF4, 0x90, 0x80, 0x80],
        vec![],
    ];
    for b in samples {
        assert_eq!(joined(&utf8::read_lossy(&b)), String::from_utf8_lossy(&b), "{b:?}");
    }
}

#[test]
fn utf8_pairs_are_read_like_std() {
    for a in 0..=255u8 {
        for b in (0..=255u8).step_by(5) {
            for c in [0x00u8, 0x41, 0x80, 0xBF, 0xC3, 0xE2, 0xF1, 0xFF] {
                let s = [a, b, c];
                assert_eq!(joined(&utf8::read_lossy(&s)), String::from_utf8_lossy(&s));
            }
        }
    }
}

#[test]
fn whole_characters_are_told_from_cut_ones() {
    let (n, text, cut) = utf8::read_whole(&[b'a', 0xE4, 0xB8]);
    assert_eq!((n, joined(&text)), (1, "a".to_string()));
    let (m, all, more) = utf8::read_whole("中".as_bytes());
    assert_eq!((m, joined(&all)), (3, "中".to_string()));
    assert_ne!(cut, more);
}

#[test]
fn texts_sort_like_their_bytes() {
    let mut names = vec!["b", "a", "\u{FF21}", "\u{1F600}", "a/b", "", "中"];
    let sorted: Vec<String> = sort(&names.iter().map(|s| chars(s)).collect()).iter().map(|v| joined(v)).collect();
    names.sort();
    assert_eq!(sorted, names);
    assert!(at_most(&chars("a"), &chars("a")));
    assert!(!at_most(&chars("b"), &chars("a")));
}

#[test]
fn paths_are_taken_apart() {
    assert_eq!(plain_parts("a/b").unwrap(), vec!["a".to_string(), "b".to_string()]);
    assert!(plain_parts("a/../b").is_none());
    assert_eq!(named_parts("a//./b").len(), 2);
    assert_eq!(joined(&name_in("a/b.txt").unwrap()), "b.txt");
    assert!(name_in("a/..").is_none());
    assert_eq!(joined(&extension("a/b.TAR.Gz")), "gz");
    assert!(extension(".gitignore").is_empty());
    let dir = vec!["a".to_string()];
    let sub = vec!["a".to_string(), "b".to_string()];
    assert!(is_within(&dir, &sub) && !is_within(&sub, &dir));
    assert!(is_within_any(&vec![sub.clone(), dir.clone()], &dir));
    assert!(split_entry_name("a/b").is_ok());
    assert!(split_entry_name("a/../b").is_err());
}

#[test]
fn tables_keep_one_value_for_a_name() {
    let mut t: Table<u8> = Table::new();
    t.insert("a".to_string(), 1);
    t.insert("b".to_string(), 2);
    t.insert("a".to_string(), 3);
    assert_eq!(t.len(), 2);
    assert_eq!(t.get("a"), Some(&3));
    assert_eq!(t.row(0).0, "b");
    assert_eq!(t.remove("b"), Some(2));
    assert_eq!(t.remove("b"), None);
    assert!(!t.contains("b"));
}
