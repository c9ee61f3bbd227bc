//! Tests of the flags, the pattern encoding, compilation and execution.

use lre::{
    compile, encode_utf8, encode_utf8_surrogate, exec_bytes, get_group_names, MatchResult,
    RegexError, RegexFlags, RegexInfo, Result, LRE_FLAG_DOTALL, LRE_FLAG_GLOBAL,
    LRE_FLAG_IGNORECASE, LRE_FLAG_INDICES, LRE_FLAG_MULTILINE, LRE_FLAG_NAMED_GROUPS,
    LRE_FLAG_STICKY, LRE_FLAG_UNICODE, LRE_FLAG_UNICODE_SETS,
};

/// Runs a compiled regex on ASCII text; other text is refused.
fn exec_ascii(info: &RegexInfo, text: &str, start_pos: usize) -> Result<MatchResult> {
    if text.is_ascii() {
        exec_bytes(info, text.as_bytes(), start_pos, false)
    } else {
        Err(RegexError::InvalidBytecode)
    }
}

#[test]
fn test_lre_flags_comprehensive() {
    // Test flag building and checking
    let flags = RegexFlags::empty()
        .global()
        .ignore_case()
        .multi_line()
        .dotall()
        .unicode()
        .sticky()
        .indices()
        .named_groups()
        .unicode_sets();

    // Test all builder methods set the correct flags
    assert!(flags.has_global());
    assert!(flags.has_ignore_case());
    assert!(flags.has_multi_line());
    assert!(flags.has_dotall());
    assert!(flags.has_unicode());
    assert!(flags.has_sticky());
    assert!(flags.has_indices());
    assert!(flags.has_named_groups());
    assert!(flags.has_unicode_sets());

    // Test conversion to raw flag bits
    let c_flags = flags.to_u32();
    assert_ne!(c_flags, 0);
    assert!(c_flags & LRE_FLAG_GLOBAL != 0);
    assert!(c_flags & LRE_FLAG_IGNORECASE != 0);
    assert!(c_flags & LRE_FLAG_MULTILINE != 0);
    assert!(c_flags & LRE_FLAG_DOTALL != 0);
    assert!(c_flags & LRE_FLAG_UNICODE != 0);
    assert!(c_flags & LRE_FLAG_STICKY != 0);
    assert!(c_flags & LRE_FLAG_INDICES != 0);
    assert!(c_flags & LRE_FLAG_NAMED_GROUPS != 0);
    assert!(c_flags & LRE_FLAG_UNICODE_SETS != 0);

    // Test default flags have no flags set
    let default_flags = RegexFlags::empty();
    assert_eq!(default_flags.to_u32(), 0);
    assert!(!default_flags.has_global());
    assert!(!default_flags.has_ignore_case());
    assert!(!default_flags.has_multi_line());
    assert!(!default_flags.has_dotall());
    assert!(!default_flags.has_unicode());
    assert!(!default_flags.has_sticky());
    assert!(!default_flags.has_indices());
    assert!(!default_flags.has_named_groups());
    assert!(!default_flags.has_unicode_sets());
}

#[test]
fn test_convert_pattern_for_lre() {
    // Test ASCII characters - should remain unchanged
    let ascii_pattern = "abc";
    let converted = encode_utf8_surrogate(ascii_pattern);
    assert_eq!(&*converted, b"abc");

    // Test BMP Unicode characters - should remain unchanged
    let bmp_pattern = "世界";
    let converted = encode_utf8_surrogate(bmp_pattern);
    assert_eq!(&*converted, "世界".as_bytes());

    // "𠮷" should be converted to surrogate pair 0xD842 and 0xDFB7,
    // each encoded as three bytes
    let non_bmp_pattern = "𠮷";
    let converted = encode_utf8_surrogate(non_bmp_pattern);
    assert_eq!(&*converted, vec![0xED, 0xA1, 0x82, 0xED, 0xBE, 0xB7]);

    // Test mixed pattern
    let mixed_pattern = "a世𠮷b";
    let converted = encode_utf8_surrogate(mixed_pattern);
    let mut expected = Vec::new();
    expected.extend_from_slice(b"a");
    expected.extend_from_slice("世".as_bytes());
    expected.extend_from_slice(&[0xED, 0xA1, 0x82, 0xED, 0xBE, 0xB7]);
    expected.extend_from_slice(b"b");
    assert_eq!(&*converted, expected);
}

#[test]
fn test_exec_ascii_comprehensive() {
    let pattern = br"\d+";
    let flags = RegexFlags::empty();

    let compile_result = compile(pattern, flags);
    assert!(compile_result.is_ok(), "Compilation should succeed");

    let regex_info = compile_result.unwrap();

    // Pure ASCII string
    let text = "abc123def";
    let exec_result = exec_ascii(&regex_info, text, 0);
    assert!(exec_result.is_ok(), "Execution should succeed for pure ASCII");
    let match_result = exec_result.unwrap();
    assert!(match_result.success, "Should find a match in pure ASCII text");
    if let Some((start, end)) = match_result.captures[0] {
        assert_eq!(&text[start..end], "123", "Should match '123'");
    } else {
        panic!("Expected Some capture, got None");
    }

    // UTF-8 string containing non-ASCII characters
    let text = "abc123世界def";
    match exec_ascii(&regex_info, text, 0) {
        Ok(match_result) => {
            if match_result.success {
                if let Some((start, end)) = match_result.captures[0] {
                    assert_eq!(&text[start..end], "123", "Should match '123'");
                }
            }
        }
        Err(err) => {
            println!("exec_ascii returned error: {:?}", err);
        }
    }

    // UTF-8 string with emoji
    let pattern = br"[A-Z]+";
    let compile_result = compile(pattern, flags);
    assert!(compile_result.is_ok(), "Compilation should succeed");
    let regex_info = compile_result.unwrap();
    let text = "HELLO😊WORLD";
    match exec_ascii(&regex_info, text, 0) {
        Ok(match_result) => {
            if match_result.success {
                if let Some((start, end)) = match_result.captures[0] {
                    let matched = &text[start..end];
                    assert!(
                        matched == "HELLO" || matched == "WORLD",
                        "Should match either 'HELLO' or 'WORLD'"
                    );
                }
            }
        }
        Err(err) => {
            println!("exec_ascii returned error with emoji: {:?}", err);
        }
    }

    // Byte-level position verification
    let pattern = br"b";
    let compile_result = compile(pattern, flags);
    assert!(compile_result.is_ok(), "Compilation should succeed");
    let regex_info = compile_result.unwrap();
    let text = "a中b文c";
    match exec_ascii(&regex_info, text, 0) {
        Ok(match_result) => {
            if match_result.success {
                if let Some((start, end)) = match_result.captures[0] {
                    assert_eq!(start, 4, "'b' should be at byte position 4");
                    assert_eq!(end, 5, "'b' should be 1 byte long");
                    assert_eq!(&text[start..end], "b", "Should match 'b'");
                }
            }
        }
        Err(err) => {
            println!("exec_ascii returned error: {:?}", err);
        }
    }

    // Character class behaviour at byte level
    let pattern = br"\w";
    let compile_result = compile(pattern, flags);
    assert!(compile_result.is_ok(), "Compilation should succeed");
    let regex_info = compile_result.unwrap();
    let test_cases = vec![("a", "ASCII letter"), ("1", "ASCII digit"), ("_", "underscore")];
    for (text, description) in test_cases {
        match exec_ascii(&regex_info, text, 0) {
            Ok(_match_result) => {
                assert!(true, "{} should be processed", description);
            }
            Err(err) => {
                println!("Error for {}: {:?}", description, err);
            }
        }
    }

    // Invalid UTF-8 at byte level
    let pattern = br".";
    let compile_result = compile(pattern, flags);
    assert!(compile_result.is_ok(), "Compilation should succeed");
    let regex_info = compile_result.unwrap();
    let invalid_utf8: Vec<u8> = vec![0xC0, 0x80, 0x41];
    match exec_bytes(&regex_info, &invalid_utf8, 0, false) {
        Ok(_match_result) => {
            assert!(true, "exec_ascii should handle invalid UTF-8 at byte level");
        }
        Err(err) => {
            println!("Error with invalid UTF-8: {:?}", err);
        }
    }
}

#[test]
fn test_compile_comprehensive() {
    // Basic compilation success
    let pattern = br"\d+";
    let flags = RegexFlags::empty();
    let result = compile(pattern, flags);
    assert!(result.is_ok(), "Basic compilation should succeed");
    let regex_info = result.unwrap();
    assert_eq!(regex_info.capture_count(), 1, "Should have 1 capture group");
    assert_eq!(regex_info.flags().to_u32(), 0, "Flags should be 0");

    // Compilation with flags
    let pattern = b"hello";
    let flags = RegexFlags::empty().ignore_case().global();
    let result = compile(pattern, flags);
    assert!(result.is_ok(), "Compilation with flags should succeed");
    let regex_info = result.unwrap();
    let expected_flags = LRE_FLAG_IGNORECASE | LRE_FLAG_GLOBAL;
    assert_eq!(
        regex_info.flags().to_u32(),
        expected_flags,
        "Flags should match compiled flags"
    );

    // Compilation error handling
    let pattern = b"(";
    let flags = RegexFlags::empty();
    let result = compile(pattern, flags);
    assert!(result.is_err(), "Invalid pattern should fail compilation");
    if let Err(err) = result {
        match err {
            RegexError::CompileError(msg) => {
                assert!(!msg.is_empty(), "Error message should not be empty");
            }
            _ => panic!("Expected CompileError, got {:?}", err),
        }
    }

    // Non-BMP character compilation
    let pattern = "𠮷";
    let flags = RegexFlags::empty();
    let b = encode_utf8_surrogate(pattern);
    let result = compile(&b, flags);
    assert!(result.is_ok(), "Non-BMP character compilation should succeed");
    let info = result.unwrap();
    assert_eq!(info.capture_count(), 1);

    // Character class with non-BMP, BMP and ASCII
    let pattern = "[𠮷中]";
    let flags = RegexFlags::empty();
    let b = encode_utf8_surrogate(pattern);
    let info = compile(&b, flags).unwrap();
    assert_eq!(info.capture_count(), 1);
}

#[test]
fn test_utility_functions_comprehensive() {
    let pattern = br"(\d+)-(\w+)";
    let flags = RegexFlags::empty().ignore_case().multi_line();
    let compile_result = compile(pattern, flags);
    assert!(compile_result.is_ok(), "Compilation should succeed");
    let regex_info = compile_result.unwrap();

    assert_eq!(regex_info.capture_count(), 3, "Should have 3 capture groups");

    let retrieved_flags = regex_info.flags().to_u32();
    let expected_flags = LRE_FLAG_IGNORECASE | LRE_FLAG_MULTILINE;
    assert_eq!(retrieved_flags, expected_flags, "Flags should match");

    let group_names = get_group_names(&regex_info);
    assert_eq!(group_names.len(), 0, "Should have no named groups");
}

#[test]
fn test_exec_comprehensive() {
    let pattern = br"(\d+)-(\w+)";
    let flags = RegexFlags::empty();
    let compile_result = compile(pattern, flags);
    assert!(compile_result.is_ok(), "Compilation should succeed");
    let regex_info = compile_result.unwrap();

    // Successful match
    let text = "123-apple";
    let exec_result = exec_ascii(&regex_info, text, 0);
    assert!(exec_result.is_ok(), "Execution should succeed");
    let match_result = exec_result.unwrap();
    assert!(match_result.success, "Should find a match");
    assert_eq!(match_result.captures.len(), 3, "Should have 3 capture groups");
    if let Some((start, end)) = match_result.captures[0] {
        assert_eq!(&text[start..end], "123-apple", "Full match should be correct");
    } else {
        panic!("Expected Some capture for group 0");
    }
    if let Some((start, end)) = match_result.captures[1] {
        assert_eq!(&text[start..end], "123", "Group 1 should match digits");
    } else {
        panic!("Expected Some capture for group 1");
    }
    if let Some((start, end)) = match_result.captures[2] {
        assert_eq!(&text[start..end], "apple", "Group 2 should match word");
    } else {
        panic!("Expected Some capture for group 2");
    }

    // No match
    let text = "abc";
    let exec_result = exec_ascii(&regex_info, text, 0);
    assert!(exec_result.is_ok(), "Execution should succeed");
    let match_result = exec_result.unwrap();
    assert!(!match_result.success, "Should not find a match");

    // Match with start position
    let pattern = br"\d";
    let compile_result = compile(pattern, flags);
    assert!(compile_result.is_ok(), "Compilation should succeed");
    let regex_info = compile_result.unwrap();
    let text = "a1b2c3";
    let exec_result = exec_ascii(&regex_info, text, 1);
    assert!(exec_result.is_ok(), "Execution should succeed");
    let match_result = exec_result.unwrap();
    assert!(match_result.success, "Should find a match");
    if let Some((start, end)) = match_result.captures[0] {
        assert_eq!(&text[start..end], "1", "Should find digit at position 1");
    } else {
        panic!("Expected Some capture");
    }
}

#[test]
fn test_full_workflow() {
    let pattern = br"(\d{4})-(\d{2})-(\d{2})";
    let flags = RegexFlags::empty();
    let compile_result = compile(pattern, flags);
    assert!(compile_result.is_ok(), "Compilation should succeed");
    let regex_info = compile_result.unwrap();
    assert_eq!(regex_info.capture_count(), 4, "Should have 4 capture groups");

    let text = "Date: 2023-12-25";
    let exec_result = exec_ascii(&regex_info, text, 0);
    assert!(exec_result.is_ok(), "Execution should succeed");
    let match_result = exec_result.unwrap();
    assert!(match_result.success, "Should find a match");
    if let Some((start, end)) = match_result.captures[0] {
        assert_eq!(&text[start..end], "2023-12-25", "Full match should be correct");
    }
    if let Some((start, end)) = match_result.captures[1] {
        assert_eq!(&text[start..end], "2023", "Year capture should be correct");
    }
    if let Some((start, end)) = match_result.captures[2] {
        assert_eq!(&text[start..end], "12", "Month capture should be correct");
    }
    if let Some((start, end)) = match_result.captures[3] {
        assert_eq!(&text[start..end], "25", "Day capture should be correct");
    }
}

#[test]
fn test_flag_behaviors_comprehensive() {
    // Unicode pattern compilation
    let pattern = br"[\\p{L}]+";
    let flags = RegexFlags::empty().unicode();
    let result = compile(pattern, flags);
    assert!(result.is_ok(), "Unicode pattern compilation should succeed");
    let regex_info = result.unwrap();
    assert!(
        regex_info.flags().to_u32() & LRE_FLAG_UNICODE != 0,
        "Unicode flag should be set"
    );

    // Case insensitive matching
    let pattern = br"hello";
    let flags = RegexFlags::empty().ignore_case();
    let compile_result = compile(pattern, flags);
    assert!(compile_result.is_ok(), "Compilation should succeed");
    let regex_info = compile_result.unwrap();
    let test_cases = vec!["hello", "HELLO", "Hello", "hElLo"];
    for text in test_cases {
        let exec_result = exec_ascii(&regex_info, text, 0);
        assert!(exec_result.is_ok(), "Execution should succeed for '{}'", text);
        let match_result = exec_result.unwrap();
        assert!(match_result.success, "Should match '{}' case-insensitively", text);
    }

    // Multi-line pattern matching
    let pattern = b"^hello";
    let flags = RegexFlags::empty().multi_line();
    let compile_result = compile(pattern, flags);
    assert!(compile_result.is_ok(), "Compilation should succeed");
    let regex_info = compile_result.unwrap();
    let text = "hello\nworld\nhello";
    let mut match_count = 0;
    let mut pos = 0;
    while pos < text.len() {
        let exec_result = exec_ascii(&regex_info, text, pos);
        if let Ok(match_result) = exec_result {
            if match_result.success {
                match_count += 1;
                if let Some((start, _)) = match_result.captures[0] {
                    pos = start + 1;
                } else {
                    break;
                }
            } else {
                break;
            }
        } else {
            break;
        }
    }
    assert_eq!(match_count, 2, "Should match at start of 2 lines");

    // Global flag behaviour
    let pattern = br"\d+";
    let flags = RegexFlags::empty().global();
    let compile_result = compile(pattern, flags);
    assert!(compile_result.is_ok(), "Compilation should succeed");
    let regex_info = compile_result.unwrap();
    let text = "1a2b3c";
    let mut match_count = 0;
    let mut pos = 0;
    while pos < text.len() {
        match exec_ascii(&regex_info, text, pos) {
            Ok(match_result) => {
                if match_result.success {
                    match_count += 1;
                    if let Some((_, end)) = match_result.captures[0] {
                        pos = end;
                    } else {
                        break;
                    }
                } else {
                    break;
                }
            }
            Err(_) => break,
        }
    }
    assert_eq!(match_count, 3, "Should find all 3 digits with global flag");

    // Sticky flag behaviour
    let pattern = br"\d";
    let flags = RegexFlags::empty().sticky();
    let compile_result = compile(pattern, flags);
    assert!(compile_result.is_ok(), "Compilation should succeed");
    let regex_info = compile_result.unwrap();
    let text = "a1b2c3";
    let exec_result = exec_ascii(&regex_info, text, 1);
    assert!(exec_result.is_ok(), "Execution should succeed");
    let match_result = exec_result.unwrap();
    assert!(match_result.success, "Should match at sticky position");
    if let Some((start, end)) = match_result.captures[0] {
        assert_eq!(&text[start..end], "1", "Should match digit at position 1");
    }
}

#[test]
fn test_capture_alloc_count_multiple_registers() {
    let cases: &[(&[u8], &str)] = &[
        (b"abc", "abc"),
        (b"a+", "aaa"),
        (b"a*", "aaa"),
        (b"a{1,5}", "aaa"),
        (b"a{0,5}", "aaa"),
        (b"(?:a{0,5}){0,5}", "aaa"),
        (b"(?:(?:a{0,5}){0,5}){0,5}", "aaa"),
    ];

    for (i, &(pattern, text)) in cases.iter().enumerate() {
        let info = compile(pattern, RegexFlags::empty())
            .unwrap_or_else(|e| panic!("case {}: compile failed: {:?}", i, e));
        let result = exec_ascii(&info, text, 0)
            .unwrap_or_else(|e| panic!("case {}: exec failed: {:?}", i, e));
        assert!(
            result.success,
            "case {}: pattern {:?} should match '{}'",
            i, pattern, text,
        );
    }
}

#[test]
fn encode_utf8_widths() {
    assert_eq!(encode_utf8(0x41), vec![0x41]);
    assert_eq!(encode_utf8(0xE9), vec![0xC3, 0xA9]);
    assert_eq!(encode_utf8(0x4E16), vec![0xE4, 0xB8, 0x96]);
    assert_eq!(encode_utf8(0x20BB7), vec![0xF0, 0xA0, 0xAE, 0xB7]);
}
