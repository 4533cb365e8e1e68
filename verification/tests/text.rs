use laser::text::{is_whitespace, str_eq, trim, trim_nul};

#[test]
fn whitespace_agrees_with_std() {
    for u in 0u32..=0x10FFFF {
        if let Some(c) = char::from_u32(u) {
            assert_eq!(is_whitespace(c), c.is_whitespace(), "{:x}", u);
        }
    }
}

#[test]
fn trim_agrees_with_std() {
    let samples = [
        "", " ", "ok", " ok ", "\t\r\nok\r\n", "\u{3000}start\u{85}", "a b", "  a b  ", "\u{200B}x",
        "é ", " \u{2028}",
    ];
    for s in samples {
        assert_eq!(trim(s), s.trim());
    }
}

#[test]
fn trim_twice_is_trim_once() {
    for s in [" a ", "\n\n", "x", " \u{a0}y z\t"] {
        assert_eq!(trim(trim(s)), trim(s));
    }
}

#[test]
fn trim_nul_agrees_with_std() {
    for s in ["", "\0", "\0a\0", "a\0b", " \0 "] {
        assert_eq!(trim_nul(s), s.trim_matches(|c| c == '\0'));
    }
}

#[test]
fn str_eq_compares_characters() {
    assert!(str_eq("ok", "ok"));
    assert!(!str_eq("ok", "ok "));
    assert!(!str_eq("ok", "oK"));
    assert!(str_eq("", ""));
}
