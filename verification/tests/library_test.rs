//! Further tests of the library: the laws on concrete values, the errors and
//! the edge cases of iteration over byte and wide texts.

use lre::{
    compile, decode_pattern, encode_utf8_surrogate, exec_bytes, Captures, Match, Regex,
    RegexError, RegexFlags, LRE_FLAG_NAMED_GROUPS,
};
use lre::regex::bytes_advance_char;
use std::borrow::Cow;

fn wide(s: &str) -> Vec<u8> {
    let mut out = Vec::new();
    for u in s.encode_utf16() {
        out.extend_from_slice(&u.to_le_bytes());
    }
    out
}

fn units_to_bytes(units: &[u16]) -> Vec<u8> {
    let mut out = Vec::new();
    for u in units {
        out.extend_from_slice(&u.to_le_bytes());
    }
    out
}

fn spans(re: &Regex, text: &[u8], offset: usize, is_wide: bool) -> Vec<(usize, usize)> {
    let mut it = re.find_iter(text, offset, is_wide);
    let mut out = Vec::new();
    while let Some(m) = it.next() {
        out.push((m.start(), m.end()));
    }
    out
}

fn pieces<'t>(re: &Regex, text: &'t [u8], is_wide: bool) -> Vec<&'t [u8]> {
    let mut it = re.split(text, is_wide);
    let mut out = Vec::new();
    while let Some(p) = it.next() {
        out.push(p);
    }
    out
}

#[test]
fn empty_pattern_has_one_more_match_than_bytes() {
    let re = Regex::from_str("", RegexFlags::empty()).unwrap();
    let text = b"abcde";
    let found = spans(&re, text, 0, false);
    assert_eq!(found, vec![(0, 0), (1, 1), (2, 2), (3, 3), (4, 4), (5, 5)]);
    assert_eq!(found.len(), text.len() + 1);
}

#[test]
fn matches_are_ordered_and_disjoint() {
    let re = Regex::from_str(r"a*", RegexFlags::empty()).unwrap();
    let text = b"baaac";
    let found = spans(&re, text, 0, false);
    assert_eq!(found, vec![(0, 0), (1, 4), (4, 4), (5, 5)]);
    for w in found.windows(2) {
        assert!(w[0].1 <= w[1].0);
        assert!(w[0].0 < w[1].0);
    }
}

#[test]
fn find_iter_from_offset() {
    let re = Regex::from_str(r"\d", RegexFlags::empty()).unwrap();
    assert_eq!(spans(&re, b"1a2b3", 1, false), vec![(2, 3), (4, 5)]);
    assert_eq!(spans(&re, b"1a2b3", 9, false), vec![]);
}

#[test]
fn split_pieces_rejoin_to_text() {
    let re = Regex::from_str(r",+", RegexFlags::empty()).unwrap();
    let text = b",a,,b,";
    let parts = pieces(&re, text, false);
    assert_eq!(parts, vec![&b""[..], &b"a"[..], &b"b"[..], &b""[..]]);
    let matches = spans(&re, text, 0, false);
    assert_eq!(parts.len(), matches.len() + 1);
    let mut rebuilt = Vec::new();
    for (i, p) in parts.iter().enumerate() {
        rebuilt.extend_from_slice(p);
        if i < matches.len() {
            rebuilt.extend_from_slice(&text[matches[i].0..matches[i].1]);
        }
    }
    assert_eq!(rebuilt, text.to_vec());
}

#[test]
fn replace_all_is_split_joined_with_replacement() {
    let re = Regex::from_str(r"\s+", RegexFlags::empty()).unwrap();
    let text = b" a  b c ";
    let replaced = re.replace_all(text, false, b"_");
    let joined = pieces(&re, text, false).join(&b"_"[..]);
    assert_eq!(replaced.as_ref(), joined.as_slice());
    assert_eq!(replaced.as_ref(), b"_a_b_c_");
}

#[test]
fn replace_all_without_matches_keeps_text() {
    let re = Regex::from_str(r"\d", RegexFlags::empty()).unwrap();
    assert_eq!(re.replace_all(b"abc", false, b"X").as_ref(), b"abc");
    assert_eq!(re.replace_all(b"", false, b"X").as_ref(), b"");
}

#[test]
fn replace_all_with_uses_the_captures() {
    let re = Regex::from_str(r"(\w+)@(\w+)", RegexFlags::empty()).unwrap();
    let text = b"ann@x, bob@y";
    let out = re.replace_all_with(text, false, |caps: &Captures| {
        let user = caps.get(1).unwrap().as_bytes();
        let host = caps.get(2).unwrap().as_bytes();
        let mut v = host.to_vec();
        v.push(b':');
        v.extend_from_slice(user);
        Cow::Owned(v)
    });
    assert_eq!(out.as_ref(), b"x:ann, y:bob");
    let same = re.replace_all_with(text, false, |_caps: &Captures| Cow::Borrowed(&b"#"[..]));
    assert_eq!(same.as_ref(), b"#, #");
}

#[test]
fn captures_iter_yields_every_match() {
    let re = Regex::from_str(r"(\d)(\w)?", RegexFlags::empty()).unwrap();
    let text = b"1a 2 3c";
    let mut it = re.captures_iter(text, false);
    let mut seen: Vec<(Vec<u8>, Option<Vec<u8>>)> = Vec::new();
    while let Some(caps) = it.next() {
        assert_eq!(caps.len(), re.captures_len());
        let whole = caps.get(0).unwrap();
        assert_eq!(caps.get(1).unwrap().start(), whole.start());
        seen.push((
            caps.get(1).unwrap().as_bytes().to_vec(),
            caps.get(2).map(|m| m.as_bytes().to_vec()),
        ));
    }
    assert_eq!(
        seen,
        vec![
            (b"1".to_vec(), Some(b"a".to_vec())),
            (b"2".to_vec(), None),
            (b"3".to_vec(), Some(b"c".to_vec())),
        ]
    );
}

#[test]
fn captures_iter_on_empty_matches_moves_on() {
    let re = Regex::from_str(r"x*", RegexFlags::empty()).unwrap();
    let mut it = re.captures_iter(b"ab", false);
    let mut starts = Vec::new();
    while let Some(caps) = it.next() {
        starts.push(caps.get(0).unwrap().start());
    }
    assert_eq!(starts, vec![0, 1, 2]);
}

#[test]
fn captures_helpers() {
    let re = Regex::from_str(r"(a)|(b)", RegexFlags::empty()).unwrap();
    let caps = re.captures(b"xb", false).unwrap().unwrap();
    assert!(!caps.is_empty());
    assert_eq!(caps.len(), 3);
    let all: Vec<Option<Match>> = caps.iter();
    assert_eq!(all.len(), 3);
    assert_eq!(all[0].unwrap().range(), 1..2);
    assert!(all[1].is_none());
    assert_eq!(all[2].unwrap().as_bytes(), b"b");
    assert!(caps.get(7).is_none());
    let copy = caps.clone();
    assert_eq!(copy.len(), 3);
    assert_eq!(copy.get(0).unwrap().range(), 1..2);
    assert!(copy.get(1).is_none());
    assert!(re.captures(b"xyz", false).unwrap().is_none());
}

#[test]
fn find_agrees_with_is_match_and_captures() {
    let re = Regex::from_str(r"o+", RegexFlags::empty()).unwrap();
    for text in [&b"foo"[..], &b"bar"[..], &b""[..], &b"ooo"[..]] {
        let found = re.find(text, false).unwrap();
        assert_eq!(found.is_some(), re.is_match(text, false));
        let caps = re.captures(text, false).unwrap();
        assert_eq!(caps.is_some(), found.is_some());
        if let (Some(m), Some(c)) = (found, caps) {
            assert_eq!(c.get(0).unwrap().range(), m.range());
        }
    }
}

#[test]
fn sticky_matches_only_at_the_start() {
    let re = Regex::from_str(r"\d", RegexFlags::empty().sticky()).unwrap();
    assert!(re.find_at(b"a1", 0, false).unwrap().is_none());
    let m = re.find_at(b"a1", 1, false).unwrap().unwrap();
    assert_eq!((m.start(), m.end()), (1, 2));
    let r = re.exec(b"ab1", 0, false).unwrap();
    assert!(!r.success);
    assert_eq!(r.captures, vec![None]);
}

#[test]
fn exec_reports_every_group() {
    let re = Regex::from_str(r"(x)?(\d+)", RegexFlags::empty()).unwrap();
    let r = re.exec(b"ab12", 0, false).unwrap();
    assert!(r.success);
    assert_eq!(r.captures, vec![Some((2, 4)), None, Some((2, 4))]);
    let r = re.exec(b"ab12", 3, false).unwrap();
    assert_eq!(r.captures, vec![Some((3, 4)), None, Some((3, 4))]);
    let r = re.exec(b"ab", 0, false).unwrap();
    assert!(!r.success);
    assert_eq!(r.captures, vec![None, None, None]);
}

#[test]
fn wide_positions_are_in_bytes() {
    let re = Regex::from_str("世", RegexFlags::empty()).unwrap();
    let text = wide("a世b世");
    assert_eq!(spans(&re, &text, 0, true), vec![(2, 4), (6, 8)]);
    let m = re.find(&text, true).unwrap().unwrap();
    assert_eq!(m.as_bytes(), &text[2..4]);
}

#[test]
fn wide_unicode_empty_matches_skip_surrogate_pairs() {
    let re = Regex::from_str("", RegexFlags::empty().unicode()).unwrap();
    let text = units_to_bytes(&[0xd834, 0xdf06, 0x0041]);
    assert_eq!(spans(&re, &text, 0, true), vec![(0, 0), (4, 4), (6, 6)]);
    // Outside a Unicode mode every code unit is a character of its own.
    let plain = Regex::from_str("", RegexFlags::empty()).unwrap();
    assert_eq!(spans(&plain, &text, 0, true), vec![(0, 0), (2, 2), (4, 4), (6, 6)]);
}

#[test]
fn compile_error_variants() {
    match Regex::from_str("a(", RegexFlags::empty()) {
        Err(RegexError::CompileError(msg)) => assert!(!msg.is_empty()),
        other => panic!("unexpected {:?}", other),
    }
    match Regex::from_bytes(&[b'a', 0xFF], RegexFlags::empty()) {
        Err(RegexError::CompileError(msg)) => assert_eq!(msg, "malformed unicode char"),
        other => panic!("unexpected {:?}", other),
    }
    match Regex::from_bytes("𠮷".as_bytes(), RegexFlags::empty()) {
        Err(RegexError::CompileError(msg)) => assert_eq!(msg, "malformed unicode char"),
        other => panic!("unexpected {:?}", other),
    }
    let many = "(a)".repeat(255);
    match Regex::from_str(&many, RegexFlags::empty()) {
        Err(RegexError::CompileError(msg)) => assert_eq!(msg, "too many captures"),
        other => panic!("unexpected {:?}", other),
    }
    let most = "(a)".repeat(254);
    assert_eq!(Regex::from_str(&most, RegexFlags::empty()).unwrap().captures_len(), 255);
}

#[test]
fn from_c_error_codes() {
    assert_eq!(RegexError::from_c_error(-1), RegexError::MemoryError);
    assert_eq!(RegexError::from_c_error(-2), RegexError::TimeoutError);
    assert_eq!(
        RegexError::from_c_error(-3),
        RegexError::InternalError("unknown error code: -3".to_string())
    );
    assert_eq!(
        RegexError::from_c_error(0),
        RegexError::InternalError("unknown error code: 0".to_string())
    );
    assert_eq!(
        RegexError::from_c_error(1234),
        RegexError::InternalError("unknown error code: 1234".to_string())
    );
    assert_eq!(
        RegexError::from_c_error(i32::MIN),
        RegexError::InternalError("unknown error code: -2147483648".to_string())
    );
}

#[test]
fn named_groups_flag_follows_the_pattern() {
    let re = Regex::from_str(r"(?<y>\d+)", RegexFlags::empty()).unwrap();
    assert!(re.flags().contains(LRE_FLAG_NAMED_GROUPS));
    let names = re.group_names().unwrap();
    assert_eq!(names.to_vec(), vec!["y".to_string()]);
    let plain = Regex::from_str(r"(\d+)", RegexFlags::empty().ignore_case()).unwrap();
    assert!(!plain.flags().contains(LRE_FLAG_NAMED_GROUPS));
    assert_eq!(plain.flags().bits(), RegexFlags::empty().ignore_case().bits());
    assert!(plain.group_names().is_none());
}

#[test]
fn group_names_skip_unnamed_groups() {
    let re = Regex::from_str(r"(?<a>x)(?<b>y)(z)(?<c>w)", RegexFlags::empty()).unwrap();
    let names = re.group_names().unwrap();
    assert_eq!(names.to_vec(), vec!["a".to_string(), "b".to_string(), "c".to_string()]);
    let caps = re.captures(b"xyzw", false).unwrap().unwrap();
    assert_eq!(caps.get(4).unwrap().as_bytes(), b"w");
    let first_unnamed = Regex::from_str(r"(\d{4})-(?<month>\d{2})-(\d{2})", RegexFlags::empty())
        .unwrap();
    assert_eq!(first_unnamed.group_names().unwrap().to_vec(), vec!["month".to_string()]);
}

#[test]
fn group_names_in_classes_and_escapes_are_not_groups() {
    let re = Regex::from_str(r"[(]\((?<n>a)", RegexFlags::empty()).unwrap();
    assert_eq!(re.captures_len(), 2);
    assert_eq!(re.group_names().unwrap().to_vec(), vec!["n".to_string()]);
}

#[test]
fn flag_builders_set_one_flag_each() {
    let f = RegexFlags::empty().dotall();
    assert!(f.has_dotall());
    assert!(!f.has_global() && !f.has_unicode() && !f.has_sticky());
    assert_eq!(f.to_u32(), 8);
    let g = f.sticky().sticky();
    assert_eq!(g.to_u32(), 8 | 32);
    assert!(RegexFlags::empty().unicode_sets().is_unicode());
    assert!(RegexFlags::empty().unicode().is_unicode());
    assert!(!RegexFlags::empty().global().is_unicode());
    assert_eq!(RegexFlags::default(), RegexFlags::empty());
}

#[test]
fn from_str_encodes_non_bmp_for_non_unicode_patterns() {
    let re = Regex::from_str("𠮷", RegexFlags::empty()).unwrap();
    let text = wide("a𠮷");
    let m = re.find(&text, true).unwrap().unwrap();
    assert_eq!((m.start(), m.end()), (2, 6));
    let re_u = Regex::from_str("𠮷", RegexFlags::empty().unicode()).unwrap();
    let m = re_u.find(&text, true).unwrap().unwrap();
    assert_eq!((m.start(), m.end()), (2, 6));
}

#[test]
fn decode_pattern_reads_surrogate_encoding() {
    let bytes = encode_utf8_surrogate("a𠮷");
    assert_eq!(decode_pattern(&bytes), Some(vec![0x61, 0xD842, 0xDFB7]));
    assert_eq!(decode_pattern("a𠮷".as_bytes()), Some(vec![0x61, 0x20BB7]));
    assert_eq!(decode_pattern(&[0xC0, 0x80]), None);
    assert_eq!(decode_pattern(&[0xE4, 0xB8]), None);
}

#[test]
fn compile_and_exec_directly() {
    let info = compile(br"b+", RegexFlags::empty()).unwrap();
    assert_eq!(info.capture_count(), 1);
    let r = exec_bytes(&info, b"abbc", 0, false).unwrap();
    assert_eq!(r.captures, vec![Some((1, 3))]);
    let r = exec_bytes(&info, b"abbc", 5, false).unwrap();
    assert!(!r.success);
}

#[test]
fn replace_all_with_replaces_a_lookahead_match_once() {
    let re = Regex::from_str(r"(?=b)", RegexFlags::empty()).unwrap();
    assert_eq!(re.replace_all(b"ab", false, b"X").as_ref(), b"aXb");
    let out = re.replace_all_with(b"ab", false, |_c: &Captures| Cow::Borrowed(&b"X"[..]));
    assert_eq!(out.as_ref(), b"aXb");
}

#[test]
fn captures_iter_agrees_with_find_iter() {
    for (pat, text) in [("$", &b"ab"[..]), (r"(?=b)", &b"abab"[..]), (r"a*", &b"baaac"[..])] {
        let re = Regex::from_str(pat, RegexFlags::empty()).unwrap();
        let mut it = re.captures_iter(text, false);
        let mut got = Vec::new();
        while let Some(c) = it.next() {
            let m = c.get(0).unwrap();
            got.push((m.start(), m.end()));
        }
        assert_eq!(got, spans(&re, text, 0, false));
    }
}

#[test]
fn replacing_every_match_by_itself_keeps_text() {
    let re = Regex::from_str(r"\w*", RegexFlags::empty()).unwrap();
    let text = b"ab, c";
    let out = re.replace_all_with(text, false, |c: &Captures| {
        Cow::Owned(c.get(0).unwrap().as_bytes().to_vec())
    });
    assert_eq!(out.as_ref(), text);
}

#[test]
fn replace_all_length() {
    let re = Regex::from_str(r"\d+", RegexFlags::empty()).unwrap();
    let text = b"a12b3c";
    let out = re.replace_all(text, false, b"<>");
    assert_eq!(out.as_ref(), b"a<>b<>c");
    assert_eq!(out.len(), text.len() + 2 * 2 - 3);
}

#[test]
fn exhausted_iterators_stay_exhausted() {
    let re = Regex::from_str(r"\d", RegexFlags::empty()).unwrap();
    let mut it = re.find_iter(b"a1", 0, false);
    assert_eq!(it.next().map(|m| m.range()), Some(1..2));
    assert!(it.next().is_none());
    assert!(it.next().is_none());
    let mut caps = re.captures_iter(b"a1", false);
    assert!(caps.next().is_some());
    assert!(caps.next().is_none());
    assert!(caps.next().is_none());
}

#[test]
fn surrogate_encoding_length() {
    for s in ["", "abc", "世界", "𠮷", "a世𠮷b𠮷"] {
        let non_bmp = s.chars().filter(|c| *c as u32 > 0xFFFF).count();
        assert_eq!(encode_utf8_surrogate(s).len(), s.len() + 2 * non_bmp);
    }
}

#[test]
fn wide_cursor_stays_on_code_units() {
    let re = Regex::from_str(r"x*", RegexFlags::empty()).unwrap();
    let text = wide("ab");
    let mut it = re.captures_iter(&text, true);
    let mut starts = Vec::new();
    while let Some(c) = it.next() {
        starts.push(c.get(0).unwrap().start());
    }
    assert_eq!(starts, vec![0, 2, 4]);
}

#[test]
fn split_stays_finished() {
    let re = Regex::from_str(r",", RegexFlags::empty()).unwrap();
    let mut it = re.split(b"a,b", false);
    assert_eq!(it.next(), Some(&b"a"[..]));
    assert_eq!(it.next(), Some(&b"b"[..]));
    assert_eq!(it.next(), None);
    assert_eq!(it.next(), None);
}

#[test]
fn advance_steps_whole_code_units_in_wide_texts() {
    let text = units_to_bytes(&[0xd834, 0xdf06, 0x0041]);
    assert_eq!(bytes_advance_char(&text, 0, true, RegexFlags::empty().unicode()), 4);
    assert_eq!(bytes_advance_char(&text, 0, true, RegexFlags::empty()), 2);
    assert_eq!(bytes_advance_char(&text, 4, true, RegexFlags::empty().unicode()), 6);
    assert_eq!(bytes_advance_char(&text, 6, true, RegexFlags::empty()), 7);
    assert_eq!(bytes_advance_char(b"ab", 0, false, RegexFlags::empty().unicode()), 1);
}
