use schema_compiler::text::{
    char_is_ascii_space, char_is_space, chars_to_string, eq_ignore_case, has_prefix, index_of,
    index_of_arrow, split_chars, split_words, str_to_chars, to_lower, trim_chars,
};

fn chars(s: &str) -> Vec<char> {
    s.chars().collect()
}

fn text(s: &[char]) -> String {
    s.iter().collect()
}

#[test]
fn white_space_agrees_with_std() {
    for n in 0u32..0x11_0000 {
        if let Some(c) = char::from_u32(n) {
            assert_eq!(char_is_space(c), c.is_whitespace());
            assert_eq!(char_is_ascii_space(c), c.is_ascii_whitespace());
        }
    }
}

#[test]
fn lowering_agrees_with_std() {
    for n in 0u32..0x3000 {
        if let Some(c) = char::from_u32(n) {
            assert_eq!(to_lower(c), c.to_ascii_lowercase());
        }
    }
    assert_eq!(to_lower('A'), 'a');
    assert_eq!(to_lower('Z'), 'z');
    assert_eq!(to_lower('@'), '@');
    assert_eq!(to_lower('['), '[');
    assert_eq!(to_lower('É'), 'É');
}

#[test]
fn conversions_keep_every_character() {
    let s = "a→b ✓ {x: y}";
    assert_eq!(str_to_chars(s), chars(s));
    assert_eq!(chars_to_string(&chars(s)), s);
    assert_eq!(str_to_chars(""), Vec::<char>::new());
    assert_eq!(chars_to_string(&[]), "");
}

#[test]
fn trimming() {
    assert_eq!(text(trim_chars(&chars("  a b  "))), "a b");
    assert_eq!(text(trim_chars(&chars("\t\n\x0b\x0c\r a\u{a0}\u{3000}"))), "a");
    assert_eq!(text(trim_chars(&chars("   "))), "");
    assert_eq!(text(trim_chars(&chars(""))), "");
    assert_eq!(text(trim_chars(&chars("a"))), "a");
    assert_eq!(text(trim_chars(&chars("\u{200b}a"))), "\u{200b}a");
    for s in ["", " ", " x", "x ", " x y ", "\u{2028}x\u{1680}", "\u{85}", "x\u{feff}"] {
        assert_eq!(text(trim_chars(&chars(s))), s.trim());
    }
}

#[test]
fn finding() {
    assert_eq!(index_of(&chars("a:b:c"), ':'), 1);
    assert_eq!(index_of(&chars(":"), ':'), 0);
    assert_eq!(index_of(&chars("abc"), ':'), 3);
    assert_eq!(index_of(&chars(""), ':'), 0);
    assert_eq!(index_of_arrow(&chars("a => b => c")), 2);
    assert_eq!(index_of_arrow(&chars("=>")), 0);
    assert_eq!(index_of_arrow(&chars("a=")), 2);
    assert_eq!(index_of_arrow(&chars("a= >")), 4);
    assert_eq!(index_of_arrow(&chars("==>")), 1);
    assert_eq!(index_of_arrow(&chars(">=")), 2);
    assert_eq!(index_of_arrow(&chars("")), 0);
}

#[test]
fn splitting() {
    let split = |s: &str| -> Vec<String> {
        split_chars(&chars(s), ',').iter().map(|p| text(p)).collect()
    };
    assert_eq!(split("a,b,c"), vec!["a", "b", "c"]);
    assert_eq!(split(""), vec![""]);
    assert_eq!(split(","), vec!["", ""]);
    assert_eq!(split("a,"), vec!["a", ""]);
    assert_eq!(split(",a,,b"), vec!["", "a", "", "b"]);
    assert_eq!(split("abc"), vec!["abc"]);
    for s in ["", ",", "a,b", ",,", "x, y ,z,"] {
        let expected: Vec<&str> = s.split(',').collect();
        assert_eq!(split(s), expected);
    }
}

#[test]
fn splitting_words() {
    let words = |s: &str| -> Vec<String> {
        split_words(&chars(s)).iter().map(|p| text(p)).collect()
    };
    assert_eq!(words("a b  c"), vec!["a", "b", "c"]);
    assert_eq!(words("  a\tb\nc\r\x0cd "), vec!["a", "b", "c", "d"]);
    assert_eq!(words(""), Vec::<String>::new());
    assert_eq!(words(" \t "), Vec::<String>::new());
    assert_eq!(words("a\u{a0}b\x0bc"), vec!["a\u{a0}b\x0bc"]);
    for s in ["", " ", "a", " a", "a ", "a  b", "\ta\x0bb\x0cc\u{2003}d "] {
        let expected: Vec<&str> = s.split_ascii_whitespace().collect();
        assert_eq!(words(s), expected);
    }
}

#[test]
fn comparing_without_case() {
    assert!(eq_ignore_case(&chars("notempty"), "notempty"));
    assert!(eq_ignore_case(&chars("NotEmpty"), "notempty"));
    assert!(eq_ignore_case(&chars(""), ""));
    assert!(!eq_ignore_case(&chars("notempt"), "notempty"));
    assert!(!eq_ignore_case(&chars("notemptyy"), "notempty"));
    assert!(!eq_ignore_case(&chars("notempty"), "NotEmpty"));
    assert!(!eq_ignore_case(&chars("ınt"), "int"));
}

#[test]
fn prefixes() {
    assert!(has_prefix(&chars("min(5)"), "min("));
    assert!(has_prefix(&chars("min("), "min("));
    assert!(has_prefix(&chars("x"), ""));
    assert!(!has_prefix(&chars("min"), "min("));
    assert!(!has_prefix(&chars("Min(5)"), "min("));
    assert!(!has_prefix(&chars(""), "min("));
}
