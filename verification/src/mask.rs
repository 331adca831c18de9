//! The four-slot encoding of a field's constraints.
//!
//! The slots hold, in this order, the upper bound, the lower bound, the
//! optional flag and the not-empty flag. A present bound is written as its
//! decimal value, a set flag as `1`, and an absent one as nothing; commas
//! join the slots.

use crate::number::{
    int_to_decimal, lemma_decimal_chars, lemma_decimal_round_trip, parse_decimal, parse_i64,
    push_i64,
};
use crate::text::{
    lemma_split_first, lemma_split_single, slice_views, split, split_chars, str_to_chars,
};
use crate::validators::Constraint;
use vstd::prelude::*;

verus! {

/// What a list of constraints comes to: at most one bound of each kind, and
/// two flags.
#[derive(Clone, Copy, Debug, PartialEq, Eq, Structural)]
pub struct ConstraintSet {
    pub max: Option<i64>,
    pub min: Option<i64>,
    pub optional: bool,
    pub not_empty: bool,
}

/// The set without any constraint.
pub open spec fn empty_set() -> ConstraintSet {
    ConstraintSet { max: None, min: None, optional: false, not_empty: false }
}

/// `set` with `c` added. A bound of a kind that `set` already has is ignored.
pub open spec fn add_constraint(set: ConstraintSet, c: Constraint) -> ConstraintSet {
    match c {
        Constraint::Max(v) => if set.max is None {
            ConstraintSet { max: Some(v), ..set }
        } else {
            set
        },
        Constraint::Min(v) => if set.min is None {
            ConstraintSet { min: Some(v), ..set }
        } else {
            set
        },
        Constraint::Optional => ConstraintSet { optional: true, ..set },
        Constraint::NotEmpty => ConstraintSet { not_empty: true, ..set },
    }
}

/// The set that the constraints `cs` come to, taken from first to last: of
/// several bounds of one kind the first counts.
pub open spec fn collect(cs: Seq<Constraint>) -> ConstraintSet
    decreases cs.len(),
{
    if cs.len() == 0 {
        empty_set()
    } else {
        add_constraint(collect(cs.drop_last()), cs.last())
    }
}

/// The text of a bound's slot.
pub open spec fn bound_slot(b: Option<i64>) -> Seq<char> {
    match b {
        Some(v) => int_to_decimal(v as int),
        None => Seq::empty(),
    }
}

/// The text of a flag's slot.
pub open spec fn flag_slot(b: bool) -> Seq<char> {
    if b {
        seq!['1']
    } else {
        Seq::empty()
    }
}

/// The encoding of `set`: its four slots joined by commas.
pub open spec fn encode_set(set: ConstraintSet) -> Seq<char> {
    bound_slot(set.max) + seq![','] + bound_slot(set.min) + seq![','] + flag_slot(set.optional)
        + seq![','] + flag_slot(set.not_empty)
}

/// The encoding of a field's constraints: nothing at all for a field without
/// a constraint clause, else the encoding of the set that the clause comes to.
pub open spec fn encode_constraints(constraints: Option<Seq<Constraint>>) -> Seq<char> {
    match constraints {
        Some(cs) => encode_set(collect(cs)),
        None => Seq::empty(),
    }
}

/// The bound that a slot holds, or `None` if the slot's text is no number.
pub open spec fn decode_bound(slot: Seq<char>) -> Option<Option<i64>> {
    if slot.len() == 0 {
        Some(None)
    } else {
        match parse_decimal(slot) {
            Some(v) => Some(Some(v)),
            None => None,
        }
    }
}

/// The flag that a slot holds, or `None` if the slot's text is neither empty
/// nor `1`.
pub open spec fn decode_flag(slot: Seq<char>) -> Option<bool> {
    if slot.len() == 0 {
        Some(false)
    } else if slot =~= seq!['1'] {
        Some(true)
    } else {
        None
    }
}

/// The set that the four slots hold, if each of them is well formed.
pub open spec fn decode_slots(slots: Seq<Seq<char>>) -> Option<ConstraintSet> {
    if slots.len() != 4 {
        None
    } else {
        match (
            decode_bound(slots[0]),
            decode_bound(slots[1]),
            decode_flag(slots[2]),
            decode_flag(slots[3]),
        ) {
            (Some(max), Some(min), Some(optional), Some(not_empty)) => Some(
                ConstraintSet { max, min, optional, not_empty },
            ),
            _ => None,
        }
    }
}

/// The set that an encoding stands for. The empty text stands for the set
/// without any constraint; any other text must hold four well-formed slots.
pub open spec fn decode_set(text: Seq<char>) -> Option<ConstraintSet> {
    if text.len() == 0 {
        Some(empty_set())
    } else {
        decode_slots(split(text, ','))
    }
}

/// The slot of a bound holds no comma, and reads back as the bound.
pub proof fn lemma_bound_slot(b: Option<i64>)
    ensures
        forall|j: int| 0 <= j < bound_slot(b).len() ==> bound_slot(b)[j] != ',',
        decode_bound(bound_slot(b)) == Some(b),
{
    if let Some(v) = b {
        lemma_decimal_chars(v as int);
        lemma_decimal_round_trip(v);
    }
}

/// The slot of a flag holds no comma, and reads back as the flag.
pub proof fn lemma_flag_slot(b: bool)
    ensures
        forall|j: int| 0 <= j < flag_slot(b).len() ==> flag_slot(b)[j] != ',',
        decode_flag(flag_slot(b)) == Some(b),
{
}

/// Splitting an encoding at its commas gives the four slots back.
pub proof fn lemma_encoding_slots(set: ConstraintSet)
    ensures
        split(encode_set(set), ',') == seq![
            bound_slot(set.max),
            bound_slot(set.min),
            flag_slot(set.optional),
            flag_slot(set.not_empty),
        ],
{
    let a = bound_slot(set.max);
    let b = bound_slot(set.min);
    let c = flag_slot(set.optional);
    let d = flag_slot(set.not_empty);
    lemma_bound_slot(set.max);
    lemma_bound_slot(set.min);
    lemma_flag_slot(set.optional);
    lemma_flag_slot(set.not_empty);
    let r3 = c + seq![','] + d;
    let r2 = b + seq![','] + r3;
    assert(encode_set(set) =~= a + seq![','] + r2);
    lemma_split_first(a, r2, ',');
    lemma_split_first(b, r3, ',');
    lemma_split_first(c, d, ',');
    lemma_split_single(d, ',');
    assert(seq![a] + (seq![b] + (seq![c] + seq![d])) =~= seq![a, b, c, d]);
}

/// Round trip: decoding the encoding of a set gives the set back, bounds and
/// flags alike.
pub proof fn lemma_encode_decode(set: ConstraintSet)
    ensures
        decode_set(encode_set(set)) == Some(set),
{
    lemma_encoding_slots(set);
    lemma_bound_slot(set.max);
    lemma_bound_slot(set.min);
    lemma_flag_slot(set.optional);
    lemma_flag_slot(set.not_empty);
    assert(encode_set(set).len() > 0);
}

/// Round trip for a field: decoding the encoding of its constraints gives the
/// set that they come to; for a field without a clause, the set without any
/// constraint.
pub proof fn lemma_constraints_round_trip(constraints: Option<Seq<Constraint>>)
    ensures
        decode_set(encode_constraints(constraints)) == Some(
            match constraints {
                Some(cs) => collect(cs),
                None => empty_set(),
            },
        ),
{
    if let Some(cs) = constraints {
        lemma_encode_decode(collect(cs));
    }
}

/// What a list of constraints comes to, said of the list as a whole: each
/// bound is that of the first constraint of its kind, and a flag is set if
/// and only if the list holds it.
pub proof fn lemma_collect(cs: Seq<Constraint>)
    ensures
        collect(cs).max is None <==> forall|i: int| 0 <= i < cs.len() ==> !(#[trigger] cs[i] is Max),
        collect(cs).min is None <==> forall|i: int| 0 <= i < cs.len() ==> !(#[trigger] cs[i] is Min),
        forall|i: int|
            0 <= i < cs.len() && #[trigger] cs[i] is Max && (forall|j: int|
                0 <= j < i ==> !(#[trigger] cs[j] is Max)) ==> collect(cs).max == Some(cs[i]->Max_0),
        forall|i: int|
            0 <= i < cs.len() && #[trigger] cs[i] is Min && (forall|j: int|
                0 <= j < i ==> !(#[trigger] cs[j] is Min)) ==> collect(cs).min == Some(cs[i]->Min_0),
        collect(cs).optional <==> exists|i: int| 0 <= i < cs.len() && #[trigger] cs[i] is Optional,
        collect(cs).not_empty <==> exists|i: int| 0 <= i < cs.len() && #[trigger] cs[i] is NotEmpty,
    decreases cs.len(),
{
    if cs.len() > 0 {
        let init = cs.drop_last();
        lemma_collect(init);
        assert(forall|i: int| 0 <= i < init.len() ==> init[i] == cs[i]);
        if collect(init).optional {
            let k = choose|i: int| 0 <= i < init.len() && #[trigger] init[i] is Optional;
            assert(cs[k] is Optional);
        }
        if collect(init).not_empty {
            let k = choose|i: int| 0 <= i < init.len() && #[trigger] init[i] is NotEmpty;
            assert(cs[k] is NotEmpty);
        }
        if cs.last() is Optional {
            assert(cs[cs.len() - 1] is Optional);
        }
        if cs.last() is NotEmpty {
            assert(cs[cs.len() - 1] is NotEmpty);
        }
        assert forall|i: int|
            0 <= i < cs.len() && #[trigger] cs[i] is Max && (forall|j: int|
                0 <= j < i ==> !(#[trigger] cs[j] is Max)) implies collect(cs).max == Some(
            cs[i]->Max_0,
        ) by {
            if i < init.len() {
                assert(init[i] is Max);
                assert(forall|j: int| 0 <= j < i ==> !(#[trigger] init[j] is Max));
            }
        }
        assert forall|i: int|
            0 <= i < cs.len() && #[trigger] cs[i] is Min && (forall|j: int|
                0 <= j < i ==> !(#[trigger] cs[j] is Min)) implies collect(cs).min == Some(
            cs[i]->Min_0,
        ) by {
            if i < init.len() {
                assert(init[i] is Min);
                assert(forall|j: int| 0 <= j < i ==> !(#[trigger] init[j] is Min));
            }
        }
    }
}

/// First wins: a later bound of a kind leaves the set unchanged.
pub proof fn lemma_first_bound_wins(cs: Seq<Constraint>, c: Constraint)
    requires
        (c is Min && collect(cs).min is Some) || (c is Max && collect(cs).max is Some),
    ensures
        collect(cs.push(c)) == collect(cs),
{
    assert(cs.push(c).drop_last() =~= cs);
}

impl ConstraintSet {
    /// The set without any constraint.
    pub fn new() -> (set: ConstraintSet)
        ensures
            set == empty_set(),
    {
        ConstraintSet { max: None, min: None, optional: false, not_empty: false }
    }

    /// This set with `c` added; a bound of a kind already present is ignored.
    pub fn with(self, c: Constraint) -> (set: ConstraintSet)
        ensures
            set == add_constraint(self, c),
    {
        let mut set = self;
        match c {
            Constraint::Max(v) => {
                if set.max.is_none() {
                    set.max = Some(v);
                }
            },
            Constraint::Min(v) => {
                if set.min.is_none() {
                    set.min = Some(v);
                }
            },
            Constraint::Optional => {
                set.optional = true;
            },
            Constraint::NotEmpty => {
                set.not_empty = true;
            },
        }
        set
    }

    /// The set that `constraints` come to, the first bound of each kind
    /// counting.
    pub fn from_constraints(constraints: &[Constraint]) -> (set: ConstraintSet)
        ensures
            set == collect(constraints@),
    {
        let mut set = ConstraintSet::new();
        let mut i: usize = 0;
        while i < constraints.len()
            invariant
                i <= constraints.len(),
                set == collect(constraints@.take(i as int)),
            decreases constraints.len() - i,
        {
            assert(constraints@.take(i + 1).drop_last() =~= constraints@.take(i as int));
            set = set.with(constraints[i]);
            i += 1;
        }
        assert(constraints@.take(i as int) =~= constraints@);
        set
    }

    /// The four-slot encoding of this set.
    pub fn encode(&self) -> (text: String)
        ensures
            text@ == encode_set(*self),
    {
        let mut text = String::new();
        if let Some(v) = self.max {
            push_i64(&mut text, v);
        }
        text.push(',');
        if let Some(v) = self.min {
            push_i64(&mut text, v);
        }
        text.push(',');
        if self.optional {
            text.push('1');
        }
        text.push(',');
        if self.not_empty {
            text.push('1');
        }
        assert(text@ =~= encode_set(*self));
        text
    }

    /// Reads an encoding back. `None` if `text` is not empty and does not hold
    /// four well-formed slots.
    pub fn decode(text: &str) -> (r: Option<ConstraintSet>)
        ensures
            r == decode_set(text@),
    {
        let chars = str_to_chars(text);
        if chars.len() == 0 {
            return Some(ConstraintSet::new());
        }
        let slots = split_chars(chars.as_slice(), ',');
        if slots.len() != 4 {
            return None;
        }
        proof {
            let views = slice_views(slots@);
            assert(views[0] == slots@[0]@);
            assert(views[1] == slots@[1]@);
            assert(views[2] == slots@[2]@);
            assert(views[3] == slots@[3]@);
        }
        let max = match read_bound(slots[0]) {
            Some(b) => b,
            None => {
                return None;
            },
        };
        let min = match read_bound(slots[1]) {
            Some(b) => b,
            None => {
                return None;
            },
        };
        let optional = match read_flag(slots[2]) {
            Some(b) => b,
            None => {
                return None;
            },
        };
        let not_empty = match read_flag(slots[3]) {
            Some(b) => b,
            None => {
                return None;
            },
        };
        Some(ConstraintSet { max, min, optional, not_empty })
    }
}

/// Reads the slot of a bound.
pub fn read_bound(slot: &[char]) -> (r: Option<Option<i64>>)
    ensures
        r == decode_bound(slot@),
{
    if slot.len() == 0 {
        Some(None)
    } else {
        match parse_i64(slot) {
            Some(v) => Some(Some(v)),
            None => None,
        }
    }
}

/// Reads the slot of a flag.
pub fn read_flag(slot: &[char]) -> (r: Option<bool>)
    ensures
        r == decode_flag(slot@),
{
    if slot.len() == 0 {
        Some(false)
    } else if slot.len() == 1 && slot[0] == '1' {
        Some(true)
    } else {
        None
    }
}

/// Encodes the constraints of a field: the empty string for a field without
/// a constraint clause, else the four slots of the set that the clause comes
/// to.
pub fn generate_mask(constraints: &Option<Vec<Constraint>>) -> (mask: String)
    ensures
        mask@ == encode_constraints(
            match *constraints {
                Some(cs) => Some(cs@),
                None => None,
            },
        ),
{
    match constraints {
        Some(cs) => ConstraintSet::from_constraints(cs.as_slice()).encode(),
        None => String::new(),
    }
}

} // verus!
