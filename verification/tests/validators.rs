use schema_compiler::error::CompileError;
use schema_compiler::validators::{
    is_allowed, validate_bool_constraints, validate_constraints, validate_num_constraints,
    Constraint, TypeTag,
};

fn rejected(key: &str, constraint: Constraint) -> Result<(), CompileError> {
    Err(CompileError::ConstraintCompatibility { key: key.to_string(), constraint })
}

#[test]
fn table_of_admitted_constraints() {
    let all = [Constraint::Min(1), Constraint::Max(1), Constraint::NotEmpty, Constraint::Optional];
    let table = [
        (TypeTag::Int, [true, true, false, true]),
        (TypeTag::Long, [true, true, false, true]),
        (TypeTag::Str, [true, true, true, true]),
        (TypeTag::Bool, [false, false, false, true]),
        (TypeTag::Float, [true, true, true, true]),
    ];
    for (ty, row) in table {
        for (c, admitted) in all.iter().zip(row) {
            assert_eq!(is_allowed(ty, *c), admitted);
            assert_eq!(validate_constraints("k", ty, &[*c]).is_ok(), admitted);
        }
    }
}

#[test]
fn bool_admits_only_optional() {
    assert_eq!(validate_bool_constraints("b", &[]), Ok(()));
    assert_eq!(validate_bool_constraints("b", &[Constraint::Optional]), Ok(()));
    assert_eq!(
        validate_bool_constraints("b", &[Constraint::Optional, Constraint::Optional]),
        Ok(())
    );
    assert_eq!(validate_bool_constraints("b", &[Constraint::Min(1)]), rejected("b", Constraint::Min(1)));
    assert_eq!(validate_bool_constraints("b", &[Constraint::Max(1)]), rejected("b", Constraint::Max(1)));
    assert_eq!(
        validate_bool_constraints("b", &[Constraint::NotEmpty]),
        rejected("b", Constraint::NotEmpty)
    );
}

#[test]
fn bool_fails_with_first_offender() {
    assert_eq!(
        validate_bool_constraints(
            "b",
            &[Constraint::Optional, Constraint::Max(2), Constraint::Min(3)]
        ),
        rejected("b", Constraint::Max(2))
    );
}

#[test]
fn number_admits_all_but_not_empty() {
    assert_eq!(validate_num_constraints("n", &[]), Ok(()));
    assert_eq!(
        validate_num_constraints(
            "n",
            &[Constraint::Min(1), Constraint::Max(2), Constraint::Optional, Constraint::Min(3)]
        ),
        Ok(())
    );
    assert_eq!(
        validate_num_constraints("n", &[Constraint::Min(1), Constraint::NotEmpty]),
        rejected("n", Constraint::NotEmpty)
    );
}

#[test]
fn validation_by_type() {
    let cs = [Constraint::Optional, Constraint::NotEmpty, Constraint::Min(4)];
    assert_eq!(validate_constraints("k", TypeTag::Int, &cs), rejected("k", Constraint::NotEmpty));
    assert_eq!(validate_constraints("k", TypeTag::Long, &cs), rejected("k", Constraint::NotEmpty));
    assert_eq!(validate_constraints("k", TypeTag::Bool, &cs), rejected("k", Constraint::NotEmpty));
    assert_eq!(validate_constraints("k", TypeTag::Str, &cs), Ok(()));
    assert_eq!(validate_constraints("k", TypeTag::Float, &cs), Ok(()));
    let cs = [Constraint::Min(4), Constraint::NotEmpty];
    assert_eq!(validate_constraints("k", TypeTag::Bool, &cs), rejected("k", Constraint::Min(4)));
}
