//! Tests of the regex API on byte texts.

use lre::{Regex, RegexFlags};

fn all_match_bytes<'t>(re: &Regex, text: &'t [u8], is_wide: bool) -> Vec<&'t [u8]> {
    let mut it = re.find_iter(text, 0, is_wide);
    let mut out = Vec::new();
    while let Some(m) = it.next() {
        out.push(m.as_bytes());
    }
    out
}

fn all_pieces<'t>(re: &Regex, text: &'t [u8], is_wide: bool) -> Vec<&'t [u8]> {
    let mut it = re.split(text, is_wide);
    let mut out = Vec::new();
    while let Some(p) = it.next() {
        out.push(p);
    }
    out
}

#[test]
fn test_regex_new() {
    let re = Regex::from_bytes(br"\d+", RegexFlags::empty()).unwrap();
    assert_eq!(re.captures_len(), 1);
}

#[test]
fn test_is_match() {
    let re = Regex::from_bytes(br"\d+", RegexFlags::empty()).unwrap();
    assert!(re.is_match(b"123", false));
    assert!(!re.is_match(b"abc", false));
    assert!(re.is_match(b"abc123def", false));
}

#[test]
fn regex_test_find() {
    let re = Regex::from_bytes(br"\d+", RegexFlags::empty()).unwrap();
    let text = b"abc123def456";

    let mat = re.find(text, false).unwrap().unwrap();
    assert_eq!(mat.as_bytes(), b"123");
    assert_eq!(mat.start(), 3);
    assert_eq!(mat.end(), 6);
}

#[test]
fn regex_test_find_iter() {
    let re = Regex::from_bytes(br"\d+", RegexFlags::empty()).unwrap();
    let text = b"123 abc 456 def 789";

    let matches: Vec<&[u8]> = all_match_bytes(&re, text, false);
    assert_eq!(matches, vec![b"123", b"456", b"789"]);
}

#[test]
fn regex_test_captures() {
    let re = Regex::from_bytes(br"(\d+)-(\d+)", RegexFlags::empty()).unwrap();
    let text = b"123-456";

    let caps = re.captures(text, false).unwrap().unwrap();
    assert_eq!(caps.len(), 3);
    assert_eq!(caps.get(0).unwrap().as_bytes(), b"123-456");
    assert_eq!(caps.get(1).unwrap().as_bytes(), b"123");
    assert_eq!(caps.get(2).unwrap().as_bytes(), b"456");
    assert!(caps.get(3).is_none());
}

#[test]
fn regex_test_replace_all() {
    let re = Regex::from_bytes(br"\d+", RegexFlags::empty()).unwrap();
    let result = re.replace_all(b"123 abc 456", false, b"NUM");
    assert_eq!(result.iter().as_slice(), "NUM abc NUM".as_bytes());
}

#[test]
fn regex_test_split() {
    let re = Regex::from_bytes(br"\s+", RegexFlags::empty()).unwrap();
    let parts: Vec<&[u8]> = all_pieces(&re, b"a b  c   d", false);
    assert_eq!(parts, vec![b"a", b"b", b"c", b"d"]);
}

#[test]
fn test_with_flags_unicode_support() {
    // Test non-BMP characters
    let pattern1 = "𠮷";
    let flags1 = RegexFlags::empty().unicode();
    let re1 = Regex::from_bytes(pattern1.as_bytes(), flags1).unwrap();
    assert_eq!(re1.captures_len(), 1);
    assert!(re1.flags().contains(RegexFlags::UNICODE));

    // Test Japanese moji characters
    let pattern2 = "日";
    let flags2 = RegexFlags::empty().unicode();
    let re2 = Regex::from_str(pattern2, flags2).unwrap();
    assert_eq!(re2.captures_len(), 1);
    assert!(re2.flags().contains(RegexFlags::UNICODE));

    // Test mixed characters (ASCII + non-BMP)
    let pattern3 = "[a-z𠮷]";
    let flags3 = RegexFlags::empty().unicode();
    let re3 = Regex::from_bytes(pattern3.as_bytes(), flags3).unwrap();
    assert_eq!(re3.captures_len(), 1);

    // Test ignore case flag with Unicode
    let pattern4 = "a";
    let flags4 = RegexFlags::empty().ignore_case().unicode();
    let re4 = Regex::from_bytes(pattern4.as_bytes(), flags4).unwrap();
    assert!(re4.flags().contains(RegexFlags::IGNORE_CASE));
    assert!(re4.flags().contains(RegexFlags::UNICODE));

    // Test matching with ignore case
    assert!(re4.is_match("A".as_bytes(), false));
    assert!(re4.is_match("a".as_bytes(), false));

    // Test capture groups with non-BMP characters
    let pattern5 = "(𠮷+)";
    let flags5 = RegexFlags::empty();
    let re5 = Regex::from_str(pattern5, flags5).unwrap();
    assert_eq!(re5.captures_len(), 2); // Group 0 (full match) + Group 1
}

#[test]
fn test_unicode_operations() {
    let pattern1 = "日";
    let re1 = Regex::from_bytes(pattern1.as_bytes(), RegexFlags::empty().unicode()).unwrap();

    let pattern2 = "日";
    let re2 = Regex::from_bytes(pattern2.as_bytes(), RegexFlags::empty()).unwrap();

    assert!(re1.captures_len() >= 1);
    assert!(re2.captures_len() >= 1);
}
