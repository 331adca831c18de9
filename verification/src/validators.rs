//! Constraints, type tags, and which constraint each type admits.

use crate::error::{result_view, CompileError, CompileErrorView};
use vstd::prelude::*;

verus! {

/// One validation rule of a field.
#[derive(Clone, Copy, Debug, PartialEq, Eq, Structural)]
pub enum Constraint {
    /// A lower bound.
    Min(i64),
    /// An upper bound.
    Max(i64),
    /// The value may not be empty.
    NotEmpty,
    /// The field may be absent.
    Optional,
}

/// The type of a field. `Float` is kept for schemas that name it; no rule
/// restricts its constraints.
#[derive(Clone, Copy, Debug, PartialEq, Eq, Structural)]
pub enum TypeTag {
    Int,
    Long,
    Str,
    Bool,
    Float,
}

/// Whether a field of type `ty` admits the constraint `c`.
///
/// Numeric fields admit everything but `NotEmpty`; text fields admit
/// everything; boolean fields admit only `Optional`. Nothing is checked for
/// floating-point fields, which admit everything.
pub open spec fn allowed(ty: TypeTag, c: Constraint) -> bool {
    match ty {
        TypeTag::Int | TypeTag::Long => !(c is NotEmpty),
        TypeTag::Str => true,
        TypeTag::Bool => c is Optional,
        TypeTag::Float => true,
    }
}

/// Whether a field of type `ty` admits every constraint of `cs`.
pub open spec fn all_allowed(ty: TypeTag, cs: Seq<Constraint>) -> bool {
    forall|i: int| 0 <= i < cs.len() ==> allowed(ty, #[trigger] cs[i])
}

/// The position of the first constraint of `cs` that `ty` does not admit, or
/// the length of `cs` if it admits them all.
pub open spec fn first_disallowed(ty: TypeTag, cs: Seq<Constraint>) -> nat
    decreases cs.len(),
{
    if cs.len() == 0 || !allowed(ty, cs[0]) {
        0
    } else {
        1 + first_disallowed(ty, cs.drop_first())
    }
}

/// What checking `cs` against `ty` yields for the field `key`: nothing if
/// every constraint is admitted, else the first one that is not.
pub open spec fn check_constraints(key: Seq<char>, ty: TypeTag, cs: Seq<Constraint>) -> Result<
    (),
    CompileErrorView,
> {
    if all_allowed(ty, cs) {
        Ok(())
    } else {
        Err(
            CompileErrorView::ConstraintCompatibility {
                key,
                constraint: cs[first_disallowed(ty, cs) as int],
            },
        )
    }
}

/// `first_disallowed` yields the least position of a constraint that is not
/// admitted.
pub proof fn lemma_first_disallowed(ty: TypeTag, cs: Seq<Constraint>)
    ensures
        first_disallowed(ty, cs) <= cs.len(),
        first_disallowed(ty, cs) < cs.len() ==> !allowed(ty, cs[first_disallowed(ty, cs) as int]),
        forall|j: int| 0 <= j < first_disallowed(ty, cs) ==> allowed(ty, #[trigger] cs[j]),
        all_allowed(ty, cs) <==> first_disallowed(ty, cs) == cs.len(),
    decreases cs.len(),
{
    if cs.len() == 0 || !allowed(ty, cs[0]) {
    } else {
        let t = cs.drop_first();
        lemma_first_disallowed(ty, t);
        assert forall|j: int| 0 <= j < first_disallowed(ty, cs) implies allowed(
            ty,
            #[trigger] cs[j],
        ) by {
            if j > 0 {
                assert(cs[j] == t[j - 1]);
            }
        }
        if first_disallowed(ty, cs) < cs.len() {
            assert(cs[first_disallowed(ty, cs) as int] == t[first_disallowed(ty, t) as int]);
        }
    }
}

/// Decides `allowed`.
pub fn is_allowed(ty: TypeTag, c: Constraint) -> (b: bool)
    ensures
        b == allowed(ty, c),
{
    match ty {
        TypeTag::Int | TypeTag::Long => match c {
            Constraint::NotEmpty => false,
            _ => true,
        },
        TypeTag::Str => true,
        TypeTag::Bool => match c {
            Constraint::Optional => true,
            _ => false,
        },
        TypeTag::Float => true,
    }
}

/// Two types that admit the same constraints reject the same one first.
pub proof fn lemma_same_rules(a: TypeTag, b: TypeTag, cs: Seq<Constraint>)
    requires
        forall|c: Constraint| allowed(a, c) == allowed(b, c),
    ensures
        first_disallowed(a, cs) == first_disallowed(b, cs),
        all_allowed(a, cs) == all_allowed(b, cs),
    decreases cs.len(),
{
    if cs.len() > 0 && allowed(a, cs[0]) {
        lemma_same_rules(a, b, cs.drop_first());
    }
    assert(all_allowed(a, cs) == all_allowed(b, cs)) by {
        if all_allowed(a, cs) {
            assert forall|i: int| 0 <= i < cs.len() implies allowed(b, #[trigger] cs[i]) by {
                assert(allowed(a, cs[i]));
            }
        }
        if all_allowed(b, cs) {
            assert forall|i: int| 0 <= i < cs.len() implies allowed(a, #[trigger] cs[i]) by {
                assert(allowed(b, cs[i]));
            }
        }
    }
}

/// Goes through `constraints` and fails with the first that `ty` does not
/// admit.
fn check_each(key: &str, ty: TypeTag, constraints: &[Constraint]) -> (r: Result<(), CompileError>)
    ensures
        result_view(r) == check_constraints(key@, ty, constraints@),
{
    let mut i: usize = 0;
    while i < constraints.len()
        invariant
            i <= constraints.len(),
            forall|j: int| 0 <= j < i ==> allowed(ty, #[trigger] constraints@[j]),
        decreases constraints.len() - i,
    {
        if !is_allowed(ty, constraints[i]) {
            proof {
                lemma_first_disallowed(ty, constraints@);
                let k = first_disallowed(ty, constraints@) as int;
                if k > i {
                    assert(allowed(ty, constraints@[i as int]));
                }
            }
            return Err(
                CompileError::ConstraintCompatibility {
                    key: key.to_owned(),
                    constraint: constraints[i],
                },
            );
        }
        i += 1;
    }
    Ok(())
}

/// Checks the constraints of a boolean field: only `Optional` is admitted.
/// Fails with the first constraint that is another.
pub fn validate_bool_constraints(key: &str, constraints: &[Constraint]) -> (r: Result<
    (),
    CompileError,
>)
    ensures
        r is Ok <==> forall|i: int| 0 <= i < constraints@.len() ==> constraints@[i] is Optional,
        result_view(r) == check_constraints(key@, TypeTag::Bool, constraints@),
{
    check_each(key, TypeTag::Bool, constraints)
}

/// Checks the constraints of an integer field, of either width: everything
/// but `NotEmpty` is admitted. Fails with the first `NotEmpty`.
pub fn validate_num_constraints(key: &str, constraints: &[Constraint]) -> (r: Result<
    (),
    CompileError,
>)
    ensures
        r is Ok <==> forall|i: int|
            0 <= i < constraints@.len() ==> !(constraints@[i] is NotEmpty),
        result_view(r) == check_constraints(key@, TypeTag::Int, constraints@),
        result_view(r) == check_constraints(key@, TypeTag::Long, constraints@),
{
    proof {
        lemma_same_rules(TypeTag::Int, TypeTag::Long, constraints@);
    }
    check_each(key, TypeTag::Int, constraints)
}

/// Checks the constraints of the field `key` against its type. Fails with the
/// first constraint that the type does not admit.
pub fn validate_constraints(key: &str, ty: TypeTag, constraints: &[Constraint]) -> (r: Result<
    (),
    CompileError,
>)
    ensures
        r is Ok <==> all_allowed(ty, constraints@),
        result_view(r) == check_constraints(key@, ty, constraints@),
{
    match ty {
        TypeTag::Int | TypeTag::Long => validate_num_constraints(key, constraints),
        TypeTag::Bool => validate_bool_constraints(key, constraints),
        TypeTag::Str | TypeTag::Float => Ok(()),
    }
}

} // verus!
