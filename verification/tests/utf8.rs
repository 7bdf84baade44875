use sockudo_ws::utf8::{validate_utf8, validate_utf8_incomplete};

#[test]
fn test_valid_ascii() {
    assert!(validate_utf8(b"Hello, World!"));
    assert!(validate_utf8(b""));
    assert!(validate_utf8(b"0123456789"));
}

#[test]
fn test_valid_utf8() {
    assert!(validate_utf8("Hello, 世界!".as_bytes()));
    assert!(validate_utf8("émoji: 🎉".as_bytes()));
    assert!(validate_utf8("Ñoño".as_bytes()));
    assert!(validate_utf8("日本語".as_bytes()));
}

#[test]
fn test_invalid_utf8() {
    // Invalid continuation byte
    assert!(!validate_utf8(&[0xC0, 0x00]));

    // Overlong encoding
    assert!(!validate_utf8(&[0xC0, 0x80])); // Overlong NUL
    assert!(!validate_utf8(&[0xC1, 0xBF])); // Overlong

    // Invalid leading byte
    assert!(!validate_utf8(&[0xFF]));
    assert!(!validate_utf8(&[0xFE]));

    // Surrogate halves (invalid in UTF-8)
    assert!(!validate_utf8(&[0xED, 0xA0, 0x80])); // U+D800
    assert!(!validate_utf8(&[0xED, 0xBF, 0xBF])); // U+DFFF

    // Truncated sequences
    assert!(!validate_utf8(&[0xE0, 0x80])); // Missing byte
    assert!(!validate_utf8(&[0xF0, 0x80, 0x80])); // Missing byte

    // Invalid continuation
    assert!(!validate_utf8(&[0xE0, 0x80, 0x00]));
}

#[test]
fn test_validate_utf8_incomplete() {
    // Complete ASCII
    let (valid, incomplete) = validate_utf8_incomplete(b"hello");
    assert!(valid);
    assert_eq!(incomplete, 0);

    // Incomplete 2-byte sequence
    let (valid, incomplete) = validate_utf8_incomplete(&[0xC2]);
    assert!(valid);
    assert_eq!(incomplete, 1);

    // Incomplete 3-byte sequence
    let (valid, incomplete) = validate_utf8_incomplete(&[0xE4, 0xB8]);
    assert!(valid);
    assert_eq!(incomplete, 2);

    // Complete followed by incomplete
    let mut data = b"hi".to_vec();
    data.push(0xE4);
    data.push(0xB8);
    let (valid, incomplete) = validate_utf8_incomplete(&data);
    assert!(valid);
    assert_eq!(incomplete, 2);
}

#[test]
fn test_long_utf8() {
    // Test with longer strings to exercise SIMD paths
    let long_ascii = "a".repeat(1000);
    assert!(validate_utf8(long_ascii.as_bytes()));

    let long_unicode = "日本語".repeat(100);
    assert!(validate_utf8(long_unicode.as_bytes()));

    let mixed = format!("{}日本語{}", "a".repeat(100), "b".repeat(100));
    assert!(validate_utf8(mixed.as_bytes()));
}

fn samples() -> Vec<Vec<u8>> {
    vec![
        vec![],
        b"plain ascii".to_vec(),
        "Hello, 世界! émoji: 🎉 Ñoño".as_bytes().to_vec(),
        vec![0xC0, 0x00],
        vec![0xC0, 0x80],
        vec![0xC1, 0xBF],
        vec![0xC2, 0x80],
        vec![0xDF, 0xBF],
        vec![0xE0, 0xA0, 0x80],
        vec![0xE0, 0x9F, 0xBF],
        vec![0xED, 0x9F, 0xBF],
        vec![0xED, 0xA0, 0x80],
        vec![0xEF, 0xBF, 0xBF],
        vec![0xF0, 0x90, 0x80, 0x80],
        vec![0xF0, 0x8F, 0xBF, 0xBF],
        vec![0xF4, 0x8F, 0xBF, 0xBF],
        vec![0xF4, 0x90, 0x80, 0x80],
        vec![0xF5, 0x80, 0x80, 0x80],
        vec![0xFF],
        vec![0x80],
        vec![b'a', 0xE4, 0xB8, 0xAD, b'b'],
        vec![b'a', 0xE4, 0xB8],
        vec![0xF0, 0x9F, 0x8E],
        vec![0xF0, 0x9F, 0x8E, 0x89, 0xF0],
    ]
}

#[test]
fn validate_utf8_agrees_with_std() {
    for s in samples() {
        assert_eq!(validate_utf8(&s), std::str::from_utf8(&s).is_ok(), "{:?}", s);
    }
}

#[test]
fn valid_input_has_no_pending_bytes() {
    for s in samples() {
        if std::str::from_utf8(&s).is_ok() {
            assert_eq!(validate_utf8_incomplete(&s), (true, 0), "{:?}", s);
        }
    }
}

#[test]
fn reported_prefix_is_valid_and_tail_short() {
    for s in samples() {
        let (valid, pending) = validate_utf8_incomplete(&s);
        if valid {
            assert!(pending <= 3);
            assert!(std::str::from_utf8(&s[..s.len() - pending]).is_ok(), "{:?}", s);
        } else {
            assert_eq!(pending, 0);
        }
    }
}

#[test]
fn every_cut_of_valid_text_is_accepted() {
    let text = "aé日🎉b".as_bytes();
    for cut in 0..=text.len() {
        let (valid, pending) = validate_utf8_incomplete(&text[..cut]);
        assert!(valid, "cut at {}", cut);
        assert!(std::str::from_utf8(&text[..cut - pending]).is_ok());
    }
    assert_eq!(validate_utf8_incomplete(&text[..4]), (true, 1));
    assert_eq!(validate_utf8_incomplete(&text[..5]), (true, 2));
    assert_eq!(validate_utf8_incomplete(&text[..8]), (true, 2));
}

#[test]
fn incomplete_rejects_what_cannot_be_completed() {
    assert_eq!(validate_utf8_incomplete(&[0x80]), (false, 0));
    assert_eq!(validate_utf8_incomplete(&[0xC2, 0x41]), (false, 0));
    assert_eq!(validate_utf8_incomplete(&[0xC1, 0x80]), (false, 0));
    assert_eq!(validate_utf8_incomplete(&[0xE0, 0x80]), (false, 0));
    assert_eq!(validate_utf8_incomplete(&[0xED, 0xA0]), (false, 0));
    assert_eq!(validate_utf8_incomplete(&[0xF0, 0x80]), (false, 0));
    assert_eq!(validate_utf8_incomplete(&[0xF4, 0x90]), (false, 0));
    assert_eq!(validate_utf8_incomplete(&[0xF0, 0x90, 0x41]), (false, 0));
    assert_eq!(validate_utf8_incomplete(&[0xF5]), (false, 0));
    // 0xC0 and 0xC1 can never begin a valid character, even at the end.
    assert_eq!(validate_utf8_incomplete(&[0xC0]), (false, 0));
    assert_eq!(validate_utf8_incomplete(&[b'x', 0xC1]), (false, 0));
    assert_eq!(validate_utf8_incomplete(&[0xED, 0xA0, 0x80]), (false, 0));
    assert_eq!(validate_utf8_incomplete(&[b'o', b'k', 0xFF, 0xE4]), (false, 0));
}

#[test]
fn incomplete_accepts_pending_lead_bytes() {
    assert_eq!(validate_utf8_incomplete(&[0xE0]), (true, 1));
    assert_eq!(validate_utf8_incomplete(&[0xE0, 0xA0]), (true, 2));
    assert_eq!(validate_utf8_incomplete(&[0xF0, 0x90, 0x80]), (true, 3));
    assert_eq!(validate_utf8_incomplete(&[0xF4, 0x8F]), (true, 2));
    assert_eq!(validate_utf8_incomplete(&[b'x', 0xDF]), (true, 1));
}

#[test]
fn validation_resumes_from_pending_bytes() {
    let text = "fragmented: 日本語 🎉".as_bytes();
    for cut in 0..=text.len() {
        let (first, second) = text.split_at(cut);
        let (valid, pending) = validate_utf8_incomplete(first);
        assert!(valid);
        let mut resumed = first[first.len() - pending..].to_vec();
        resumed.extend_from_slice(second);
        assert_eq!(validate_utf8(&resumed), validate_utf8(text));
    }
    let bad_tail = [0xE6u8, 0x97, 0x41];
    let (valid, pending) = validate_utf8_incomplete(&bad_tail[..2]);
    assert_eq!((valid, pending), (true, 2));
    assert!(!validate_utf8(&bad_tail));
}
