use schema_compiler::mask::{generate_mask, read_bound, read_flag, ConstraintSet};
use schema_compiler::validators::Constraint;

fn set(max: Option<i64>, min: Option<i64>, optional: bool, not_empty: bool) -> ConstraintSet {
    ConstraintSet { max, min, optional, not_empty }
}

#[test]
fn mask_of_no_clause_is_empty() {
    assert_eq!(generate_mask(&None), "");
}

#[test]
fn mask_of_empty_clause() {
    assert_eq!(generate_mask(&Some(vec![])), ",,,");
}

#[test]
fn mask_slots_in_order() {
    let cs = vec![
        Constraint::NotEmpty,
        Constraint::Optional,
        Constraint::Min(-2),
        Constraint::Max(300),
    ];
    assert_eq!(generate_mask(&Some(cs)), "300,-2,1,1");
    assert_eq!(generate_mask(&Some(vec![Constraint::Max(4)])), "4,,,");
    assert_eq!(generate_mask(&Some(vec![Constraint::Min(4)])), ",4,,");
    assert_eq!(generate_mask(&Some(vec![Constraint::Optional])), ",,1,");
    assert_eq!(generate_mask(&Some(vec![Constraint::NotEmpty])), ",,,1");
}

#[test]
fn mask_keeps_first_bound() {
    assert_eq!(generate_mask(&Some(vec![Constraint::Min(1), Constraint::Min(2)])), ",1,,");
    assert_eq!(generate_mask(&Some(vec![Constraint::Max(1), Constraint::Max(2)])), "1,,,");
    assert_eq!(
        generate_mask(&Some(vec![Constraint::Optional, Constraint::Optional])),
        ",,1,"
    );
}

#[test]
fn mask_of_extreme_bounds() {
    let cs = vec![Constraint::Max(i64::MAX), Constraint::Min(i64::MIN)];
    assert_eq!(generate_mask(&Some(cs)), "9223372036854775807,-9223372036854775808,,");
    assert_eq!(generate_mask(&Some(vec![Constraint::Min(0)])), ",0,,");
}

#[test]
fn collecting_constraints() {
    assert_eq!(ConstraintSet::from_constraints(&[]), set(None, None, false, false));
    assert_eq!(ConstraintSet::new(), set(None, None, false, false));
    assert_eq!(
        ConstraintSet::from_constraints(&[
            Constraint::Min(1),
            Constraint::Max(9),
            Constraint::Min(2),
            Constraint::NotEmpty,
        ]),
        set(Some(9), Some(1), false, true)
    );
    assert_eq!(
        ConstraintSet::new().with(Constraint::Max(3)).with(Constraint::Max(4)),
        set(Some(3), None, false, false)
    );
}

#[test]
fn encoding_round_trip() {
    let bounds = [None, Some(0), Some(1), Some(-1), Some(10), Some(-907), Some(i64::MAX), Some(i64::MIN)];
    for max in bounds {
        for min in bounds {
            for optional in [false, true] {
                for not_empty in [false, true] {
                    let s = set(max, min, optional, not_empty);
                    assert_eq!(ConstraintSet::decode(&s.encode()), Some(s));
                }
            }
        }
    }
}

#[test]
fn mask_round_trip() {
    let cs = vec![Constraint::Min(5), Constraint::Optional, Constraint::Min(6)];
    let mask = generate_mask(&Some(cs.clone()));
    assert_eq!(ConstraintSet::decode(&mask), Some(ConstraintSet::from_constraints(&cs)));
    assert_eq!(ConstraintSet::decode(&generate_mask(&None)), Some(ConstraintSet::new()));
}

#[test]
fn decoding() {
    assert_eq!(ConstraintSet::decode(""), Some(set(None, None, false, false)));
    assert_eq!(ConstraintSet::decode(",,,"), Some(set(None, None, false, false)));
    assert_eq!(ConstraintSet::decode(",0,1,"), Some(set(None, Some(0), true, false)));
    assert_eq!(ConstraintSet::decode("12,-3,,1"), Some(set(Some(12), Some(-3), false, true)));
    assert_eq!(ConstraintSet::decode(",,"), None);
    assert_eq!(ConstraintSet::decode(",,,,"), None);
    assert_eq!(ConstraintSet::decode("1"), None);
    assert_eq!(ConstraintSet::decode("x,,,"), None);
    assert_eq!(ConstraintSet::decode(",,2,"), None);
    assert_eq!(ConstraintSet::decode(",,,11"), None);
    assert_eq!(ConstraintSet::decode(",,, "), None);
    assert_eq!(ConstraintSet::decode("9223372036854775808,,,"), None);
}

#[test]
fn reading_slots() {
    let digits: Vec<char> = "-45".chars().collect();
    assert_eq!(read_bound(&digits), Some(Some(-45)));
    assert_eq!(read_bound(&[]), Some(None));
    assert_eq!(read_bound(&['-']), None);
    assert_eq!(read_flag(&[]), Some(false));
    assert_eq!(read_flag(&['1']), Some(true));
    assert_eq!(read_flag(&['0']), None);
    assert_eq!(read_flag(&['1', '1']), None);
}
