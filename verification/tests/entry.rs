use schema_compiler::entry::{read_clause, read_constraint, KeyValue, RawEntry};
use schema_compiler::error::CompileError;
use schema_compiler::validators::Constraint;

fn entry_chars(s: &str) -> Vec<char> {
    s.chars().collect()
}

#[test]
fn entry_with_clause() {
    let kv = KeyValue::from_str("age: int => min(0) optional").unwrap();
    assert_eq!(
        kv,
        KeyValue {
            key: "age".to_string(),
            ty: "int".to_string(),
            constraints: Some(vec![Constraint::Min(0), Constraint::Optional]),
        }
    );
}

#[test]
fn entry_without_clause() {
    let kv = KeyValue::from_str("  flag :  Bool ").unwrap();
    assert_eq!(kv, KeyValue { key: "flag".to_string(), ty: "Bool".to_string(), constraints: None });
}

#[test]
fn entry_with_empty_clause() {
    let kv = KeyValue::from_str("flag: bool =>   ").unwrap();
    assert_eq!(
        kv,
        KeyValue { key: "flag".to_string(), ty: "bool".to_string(), constraints: Some(vec![]) }
    );
}

#[test]
fn entry_without_colon() {
    assert_eq!(
        KeyValue::from_str("flag bool"),
        Err(CompileError::Grammar { entry: "flag bool".to_string() })
    );
    assert_eq!(KeyValue::from_str(""), Err(CompileError::Grammar { entry: String::new() }));
    assert_eq!(
        KeyValue::from_str("a => b"),
        Err(CompileError::Grammar { entry: "a => b".to_string() })
    );
}

#[test]
fn entry_keeps_duplicates_in_order() {
    let kv = KeyValue::from_str("n: long => max(5) min(1) max(6) OPTIONAL NotEmpty").unwrap();
    assert_eq!(
        kv.constraints,
        Some(vec![
            Constraint::Max(5),
            Constraint::Min(1),
            Constraint::Max(6),
            Constraint::Optional,
            Constraint::NotEmpty,
        ])
    );
}

#[test]
fn split_at_first_colon_and_first_arrow() {
    let raw = RawEntry::from_chars(&entry_chars(" k : a:b => x => y ")).unwrap();
    assert_eq!(
        raw,
        RawEntry {
            key: "k".to_string(),
            type_text: "a:b".to_string(),
            clause: Some(" x => y ".to_string()),
        }
    );
    let raw = RawEntry::from_chars(&entry_chars("k => v : t")).unwrap();
    assert_eq!(
        raw,
        RawEntry { key: "k => v".to_string(), type_text: "t".to_string(), clause: None }
    );
    let raw = RawEntry::from_chars(&entry_chars(":")).unwrap();
    assert_eq!(raw, RawEntry { key: String::new(), type_text: String::new(), clause: None });
    let raw = RawEntry::from_chars(&entry_chars("k:t=>")).unwrap();
    assert_eq!(
        raw,
        RawEntry { key: "k".to_string(), type_text: "t".to_string(), clause: Some(String::new()) }
    );
    let raw = RawEntry::from_chars(&entry_chars("k:t=")).unwrap();
    assert_eq!(raw, RawEntry { key: "k".to_string(), type_text: "t=".to_string(), clause: None });
    let raw = RawEntry::from_chars(&entry_chars("k:=>")).unwrap();
    assert_eq!(
        raw,
        RawEntry { key: "k".to_string(), type_text: String::new(), clause: Some(String::new()) }
    );
}

#[test]
fn constraint_literals() {
    assert_eq!(read_constraint(&entry_chars("min(5)")), Some(Constraint::Min(5)));
    assert_eq!(read_constraint(&entry_chars("max(-5)")), Some(Constraint::Max(-5)));
    assert_eq!(read_constraint(&entry_chars("min(+5)")), Some(Constraint::Min(5)));
    assert_eq!(read_constraint(&entry_chars("min(007)")), Some(Constraint::Min(7)));
    assert_eq!(read_constraint(&entry_chars("min(\u{a0}5\u{2003})")), Some(Constraint::Min(5)));
    assert_eq!(
        read_constraint(&entry_chars("max(9223372036854775807)")),
        Some(Constraint::Max(i64::MAX))
    );
    assert_eq!(
        read_constraint(&entry_chars("min(-9223372036854775808)")),
        Some(Constraint::Min(i64::MIN))
    );
    assert_eq!(read_constraint(&entry_chars("notEmpty")), Some(Constraint::NotEmpty));
    assert_eq!(read_constraint(&entry_chars("NOTEMPTY")), Some(Constraint::NotEmpty));
    assert_eq!(read_constraint(&entry_chars("optional")), Some(Constraint::Optional));
    assert_eq!(read_constraint(&entry_chars("OpTiOnAl")), Some(Constraint::Optional));
    assert_eq!(read_constraint(&entry_chars("")), None);
    assert_eq!(read_constraint(&entry_chars("min")), None);
    assert_eq!(read_constraint(&entry_chars("min(")), None);
    assert_eq!(read_constraint(&entry_chars("min()")), None);
    assert_eq!(read_constraint(&entry_chars("min(5")), None);
    assert_eq!(read_constraint(&entry_chars("min(5))")), None);
    assert_eq!(read_constraint(&entry_chars("Min(5)")), None);
    assert_eq!(read_constraint(&entry_chars("max(--5)")), None);
    assert_eq!(read_constraint(&entry_chars("max(-9223372036854775809)")), None);
    assert_eq!(read_constraint(&entry_chars("optional,")), None);
    assert_eq!(read_constraint(&entry_chars("not_empty")), None);
}

#[test]
fn clause_is_split_at_ascii_white_space() {
    assert_eq!(
        read_clause("k", &entry_chars(" \t min(1)\n\rmax(2)\x0coptional  ")),
        Ok(vec![Constraint::Min(1), Constraint::Max(2), Constraint::Optional])
    );
    assert_eq!(read_clause("k", &entry_chars("")), Ok(vec![]));
    assert_eq!(read_clause("k", &entry_chars("   ")), Ok(vec![]));
    // A no-break space separates nothing, but is trimmed off a literal.
    assert_eq!(read_clause("k", &entry_chars("optional\u{a0}")), Ok(vec![Constraint::Optional]));
    assert_eq!(
        read_clause("k", &entry_chars("optional\u{a0}notEmpty")),
        Err(CompileError::ConstraintSyntax {
            key: "k".to_string(),
            literal: "optional\u{a0}notEmpty".to_string(),
        })
    );
    // A vertical tab is no ASCII white space, but trimming removes it.
    assert_eq!(read_clause("k", &entry_chars("\x0boptional")), Ok(vec![Constraint::Optional]));
}

#[test]
fn clause_fails_at_first_bad_literal() {
    assert_eq!(
        read_clause("k", &entry_chars("min(1) one max(x) two")),
        Err(CompileError::ConstraintSyntax { key: "k".to_string(), literal: "one".to_string() })
    );
    assert_eq!(
        read_clause("k", &entry_chars("min(1) min( 2)")),
        Err(CompileError::ConstraintSyntax { key: "k".to_string(), literal: "min(".to_string() })
    );
}
