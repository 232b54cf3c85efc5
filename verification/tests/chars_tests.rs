use cbeta_pdf_creator::chars::{
    char_is_ascii_alphanumeric, char_is_ascii_punctuation, char_is_vowel, char_is_whitespace,
    chars_to_string, is_cjk_class, str_is_blank, string_to_chars, ScriptClass,
};

#[test]
fn chars_round_trip() {
    let v = string_to_chars("héllo 世界");
    assert_eq!(v.len(), 8);
    assert_eq!(v[1], 'é');
    assert_eq!(v[7], '界');
    assert_eq!(chars_to_string(&v), "héllo 世界");
}

#[test]
fn empty_string_has_no_chars() {
    assert!(string_to_chars("").is_empty());
    assert_eq!(chars_to_string(&Vec::new()), "");
}

#[test]
fn whitespace_agrees_with_std() {
    let mut code: u32 = 0;
    while code <= 0x3100 {
        if let Some(c) = char::from_u32(code) {
            assert_eq!(char_is_whitespace(c), c.is_whitespace(), "code {:x}", code);
        }
        code += 1;
    }
}

#[test]
fn ascii_classes_agree_with_std() {
    let mut code: u32 = 0;
    while code <= 0x400 {
        if let Some(c) = char::from_u32(code) {
            assert_eq!(char_is_ascii_punctuation(c), c.is_ascii_punctuation(), "code {:x}", code);
            assert_eq!(char_is_ascii_alphanumeric(c), c.is_ascii_alphanumeric(), "code {:x}", code);
        }
        code += 1;
    }
}

#[test]
fn vowels_are_the_six_lower_case_letters() {
    for c in ['a', 'e', 'i', 'o', 'u', 'y'] {
        assert!(char_is_vowel(c));
    }
    for c in ['A', 'E', 'b', 'z', ' ', 'é', 'w'] {
        assert!(!char_is_vowel(c));
    }
}

#[test]
fn blank_texts() {
    assert!(str_is_blank(""));
    assert!(str_is_blank("  \t\n\u{3000}"));
    assert!(!str_is_blank("  a "));
    assert!(!str_is_blank("。"));
}

#[test]
fn cjk_classes() {
    assert!(is_cjk_class(ScriptClass::Han));
    assert!(is_cjk_class(ScriptClass::Hiragana));
    assert!(is_cjk_class(ScriptClass::Katakana));
    assert!(is_cjk_class(ScriptClass::Bopomofo));
    assert!(!is_cjk_class(ScriptClass::Other));
}
