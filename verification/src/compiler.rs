//! The compiler: from the text of a schema to one descriptor per field.
//!
//! Compilation runs in three passes. The first splits the text into entries
//! and each entry into its texts; the second reads each constraint clause;
//! the third resolves each type, checks the constraints against it and
//! encodes them. A pass runs over all entries before the next one starts, and
//! the first failure ends the compilation without any output.

use crate::entry::{
    parse_entry, parse_raw, split_entry, KeyValue, KeyValueView, RawEntry, RawEntryView,
};
use crate::error::{result_view, views, CompileError, CompileErrorView};
use crate::mask::{
    collect, decode_set, empty_set, encode_constraints, generate_mask,
    lemma_constraints_round_trip,
};
use crate::text::{
    eq_ignore_case, find_char, lower, slice_views, split, split_chars, str_to_chars, trim,
    trim_chars,
};
use crate::validators::{
    all_allowed, allowed, check_constraints, first_disallowed, lemma_first_disallowed,
    validate_constraints, Constraint, TypeTag,
};
use vstd::prelude::*;
use vstd::slice::slice_subrange;

verus! {

/// The descriptor of one field: its key, its type and the encoding of its
/// constraints.
#[derive(Clone, Debug, PartialEq, Eq)]
pub struct Field {
    pub key: String,
    pub ty: TypeTag,
    pub encoded: String,
}

/// A `Field` with its texts as character sequences.
pub ghost struct FieldView {
    pub key: Seq<char>,
    pub ty: TypeTag,
    pub encoded: Seq<char>,
}

impl View for Field {
    type V = FieldView;

    open spec fn view(&self) -> FieldView {
        FieldView { key: self.key@, ty: self.ty, encoded: self.encoded@ }
    }
}

/// The text of a schema without the white space around it and without the
/// pair of braces that may enclose it. A brace without its partner stays.
pub open spec fn strip_braces(input: Seq<char>) -> Seq<char> {
    let t = trim(input);
    if t.len() >= 2 && t[0] == '{' && t.last() == '}' {
        trim(t.subrange(1, t.len() - 1))
    } else {
        t
    }
}

/// The type that a name denotes, in any mix of upper and lower case.
pub open spec fn resolve_type(name: Seq<char>) -> Option<TypeTag> {
    let n = lower(name);
    if n == "int"@ || n == "integer"@ || n == "i32"@ {
        Some(TypeTag::Int)
    } else if n == "long"@ || n == "i64"@ {
        Some(TypeTag::Long)
    } else if n == "str"@ || n == "string"@ {
        Some(TypeTag::Str)
    } else if n == "bool"@ || n == "boolean"@ {
        Some(TypeTag::Bool)
    } else if n == "float"@ || n == "f32"@ {
        Some(TypeTag::Float)
    } else {
        None
    }
}

/// The descriptor of a read entry: its type resolved, its constraints checked
/// against the type and encoded. Fails if the type name is unknown, else with
/// the first constraint that the type does not admit.
pub open spec fn encode_field(kv: KeyValueView) -> Result<FieldView, CompileErrorView> {
    match resolve_type(kv.ty) {
        None => Err(CompileErrorView::UnknownType { key: kv.key, type_text: kv.ty }),
        Some(ty) => {
            let checked = match kv.constraints {
                Some(cs) => check_constraints(kv.key, ty, cs),
                None => Ok(()),
            };
            match checked {
                Err(e) => Err(e),
                Ok(_) => Ok(
                    FieldView { key: kv.key, ty, encoded: encode_constraints(kv.constraints) },
                ),
            }
        },
    }
}

/// `f` applied to each item of `xs` in order, up to the first failure: the
/// results if every item succeeds, else the failure of the first that does
/// not.
pub open spec fn try_map<A, B, E>(xs: Seq<A>, f: spec_fn(A) -> Result<B, E>) -> Result<Seq<B>, E>
    decreases xs.len(),
{
    if xs.len() == 0 {
        Ok(Seq::empty())
    } else {
        match try_map(xs.drop_last(), f) {
            Err(e) => Err(e),
            Ok(ys) => match f(xs.last()) {
                Ok(y) => Ok(ys.push(y)),
                Err(e) => Err(e),
            },
        }
    }
}

/// The first pass on one piece of the text: trimmed, then split.
pub open spec fn split_piece() -> spec_fn(Seq<char>) -> Result<RawEntryView, CompileErrorView> {
    |piece: Seq<char>| split_entry(trim(piece))
}

/// The second pass on one entry.
pub open spec fn read_raw() -> spec_fn(RawEntryView) -> Result<KeyValueView, CompileErrorView> {
    |raw: RawEntryView| parse_raw(raw)
}

/// The third pass on one entry.
pub open spec fn encode_one() -> spec_fn(KeyValueView) -> Result<FieldView, CompileErrorView> {
    |kv: KeyValueView| encode_field(kv)
}

/// The entries of a schema: the pieces between the commas of its text, braces
/// stripped.
pub open spec fn entries(input: Seq<char>) -> Seq<Seq<char>> {
    split(strip_braces(input), ',')
}

/// What compiling `input` yields: the descriptors of its fields in the order
/// of the text, or the first failure of the first pass that fails.
pub open spec fn compile(input: Seq<char>) -> Result<Seq<FieldView>, CompileErrorView> {
    match try_map(entries(input), split_piece()) {
        Err(e) => Err(e),
        Ok(raws) => match try_map(raws, read_raw()) {
            Err(e) => Err(e),
            Ok(kvs) => try_map(kvs, encode_one()),
        },
    }
}

/// What compiling one entry by itself yields.
pub open spec fn compile_entry(entry: Seq<char>) -> Result<FieldView, CompileErrorView> {
    match parse_entry(trim(entry)) {
        Err(e) => Err(e),
        Ok(kv) => encode_field(kv),
    }
}

/// The view of what `convert` returns.
pub open spec fn compiled_view(r: Result<Vec<Field>, CompileError>) -> Result<
    Seq<FieldView>,
    CompileErrorView,
> {
    match r {
        Ok(fields) => Ok(views(fields@)),
        Err(e) => Err(e@),
    }
}

/// A failure among the first items is the failure of the whole sequence.
pub proof fn lemma_try_map_prefix<A, B, E>(xs: Seq<A>, f: spec_fn(A) -> Result<B, E>, k: int)
    requires
        0 <= k <= xs.len(),
        try_map(xs.take(k), f) is Err,
    ensures
        try_map(xs, f) == try_map(xs.take(k), f),
    decreases xs.len() - k,
{
    if k == xs.len() {
        assert(xs.take(k) =~= xs);
    } else {
        assert(xs.drop_last().take(k) =~= xs.take(k));
        lemma_try_map_prefix(xs.drop_last(), f, k);
    }
}

/// A sequence maps successfully if and only if each item does, and then to
/// the results of its items, one for one and in order.
pub proof fn lemma_try_map_items<A, B, E>(xs: Seq<A>, f: spec_fn(A) -> Result<B, E>)
    ensures
        try_map(xs, f) is Ok <==> forall|i: int| 0 <= i < xs.len() ==> f(#[trigger] xs[i]) is Ok,
        try_map(xs, f) matches Ok(ys) ==> ys.len() == xs.len() && forall|i: int|
            0 <= i < xs.len() ==> f(xs[i]) == Ok::<B, E>(#[trigger] ys[i]),
    decreases xs.len(),
{
    if xs.len() > 0 {
        let init = xs.drop_last();
        lemma_try_map_items(init, f);
        assert(forall|i: int| 0 <= i < init.len() ==> init[i] == xs[i]);
        if try_map(xs, f) is Ok {
            assert forall|i: int| 0 <= i < xs.len() implies f(#[trigger] xs[i]) is Ok by {
                if i < init.len() {
                    assert(f(init[i]) is Ok);
                }
            }
        }
        if forall|i: int| 0 <= i < xs.len() ==> f(#[trigger] xs[i]) is Ok {
            assert forall|i: int| 0 <= i < init.len() implies f(#[trigger] init[i]) is Ok by {
                assert(f(xs[i]) is Ok);
            }
            assert(f(xs[xs.len() - 1]) is Ok);
        }
    }
}

/// Order and atomicity: a schema compiles if and only if each of its entries
/// compiles by itself, and then to one descriptor per entry, the descriptor
/// at each position being that of the entry at the same position of the text.
pub proof fn lemma_compile_in_order(input: Seq<char>)
    ensures
        compile(input) is Ok <==> forall|i: int|
            0 <= i < entries(input).len() ==> compile_entry(#[trigger] entries(input)[i]) is Ok,
        compile(input) matches Ok(fields) ==> fields.len() == entries(input).len() && forall|i: int|
            0 <= i < fields.len() ==> compile_entry(entries(input)[i]) == Ok::<
                FieldView,
                CompileErrorView,
            >(#[trigger] fields[i]),
{
    let pieces = entries(input);
    lemma_try_map_items(pieces, split_piece());
    match try_map(pieces, split_piece()) {
        Err(_) => {
            let k = choose|i: int| 0 <= i < pieces.len() && !(split_piece()(#[trigger] pieces[i]) is Ok);
            assert(!(compile_entry(pieces[k]) is Ok));
        },
        Ok(raws) => {
            lemma_try_map_items(raws, read_raw());
            assert forall|i: int| 0 <= i < pieces.len() implies parse_entry(
                trim(#[trigger] pieces[i]),
            ) == parse_raw(raws[i]) by {
                assert(split_piece()(pieces[i]) == Ok::<RawEntryView, CompileErrorView>(raws[i]));
            }
            match try_map(raws, read_raw()) {
                Err(_) => {
                    let k = choose|i: int| 0 <= i < raws.len() && !(read_raw()(#[trigger] raws[i]) is Ok);
                    assert(parse_entry(trim(pieces[k])) == parse_raw(raws[k]));
                    assert(!(compile_entry(pieces[k]) is Ok));
                },
                Ok(kvs) => {
                    lemma_try_map_items(kvs, encode_one());
                    assert forall|i: int| 0 <= i < pieces.len() implies compile_entry(
                        #[trigger] pieces[i],
                    ) == encode_field(kvs[i]) by {
                        assert(parse_entry(trim(pieces[i])) == parse_raw(raws[i]));
                        assert(read_raw()(raws[i]) == Ok::<KeyValueView, CompileErrorView>(kvs[i]));
                    }
                    match try_map(kvs, encode_one()) {
                        Err(_) => {
                            let k = choose|i: int|
                                0 <= i < kvs.len() && !(encode_one()(#[trigger] kvs[i]) is Ok);
                            assert(compile_entry(pieces[k]) == encode_field(kvs[k]));
                            assert(!(compile_entry(pieces[k]) is Ok));
                        },
                        Ok(fields) => {
                            assert forall|i: int| 0 <= i < fields.len() implies compile_entry(
                                pieces[i],
                            ) == Ok::<FieldView, CompileErrorView>(#[trigger] fields[i]) by {
                                assert(compile_entry(pieces[i]) == encode_field(kvs[i]));
                                assert(encode_one()(kvs[i]) == Ok::<FieldView, CompileErrorView>(
                                    fields[i],
                                ));
                            }
                            assert forall|i: int| 0 <= i < pieces.len() implies compile_entry(
                                #[trigger] pieces[i],
                            ) is Ok by {
                                assert(compile_entry(pieces[i]) == Ok::<FieldView, CompileErrorView>(
                                    fields[i],
                                ));
                            }
                        },
                    }
                },
            }
        },
    }
}

/// Keys keep their order: the key of the descriptor at each position is the
/// trimmed text before the first `:` of the entry at the same position.
pub proof fn lemma_keys_in_order(input: Seq<char>, i: int)
    requires
        compile(input) is Ok,
        0 <= i < entries(input).len(),
    ensures
        compile(input)->Ok_0.len() == entries(input).len(),
        compile(input)->Ok_0[i].key == trim(
            trim(entries(input)[i]).take(find_char(trim(entries(input)[i]), ':') as int),
        ),
{
    lemma_compile_in_order(input);
    let fields = compile(input)->Ok_0;
    assert(compile_entry(entries(input)[i]) == Ok::<FieldView, CompileErrorView>(fields[i]));
}

/// Compiling is repeatable: two results of `convert` on one input have the
/// same view, character for character.
pub proof fn lemma_convert_repeatable(
    input: &str,
    first: Result<Vec<Field>, CompileError>,
    second: Result<Vec<Field>, CompileError>,
)
    requires
        compiled_view(first) == compile(input@),
        compiled_view(second) == compile(input@),
    ensures
        compiled_view(first) == compiled_view(second),
        first is Ok <==> second is Ok,
        first matches Ok(a) ==> second matches Ok(b) && a@.len() == b@.len() && forall|i: int|
            0 <= i < a@.len() ==> a@[i].key@ == b@[i].key@ && a@[i].ty == b@[i].ty
                && a@[i].encoded@ == b@[i].encoded@,
{
    if let Ok(a) = first {
        let b = second->Ok_0;
        assert(views(a@) == views(b@));
        assert(views(a@).len() == a@.len());
        assert(views(b@).len() == b@.len());
        assert forall|i: int| 0 <= i < a@.len() implies a@[i].key@ == b@[i].key@ && a@[i].ty
            == b@[i].ty && a@[i].encoded@ == b@[i].encoded@ by {
            assert(views(a@)[i] == a@[i]@);
            assert(views(b@)[i] == b@[i]@);
        }
    }
}

/// Type gating: an entry whose type name is known compiles if and only if
/// the type admits each of its constraints; if not, the failure names the
/// key and the first constraint that is not admitted. An entry without a
/// constraint clause has nothing to admit.
pub proof fn lemma_type_gating(kv: KeyValueView, ty: TypeTag)
    requires
        resolve_type(kv.ty) == Some(ty),
    ensures
        kv.constraints is None ==> encode_field(kv) is Ok,
        kv.constraints matches Some(cs) ==> (encode_field(kv) is Ok <==> all_allowed(ty, cs)),
        kv.constraints matches Some(cs) ==> !all_allowed(ty, cs) ==> first_disallowed(ty, cs)
            < cs.len() && !allowed(ty, cs[first_disallowed(ty, cs) as int]) && encode_field(kv)
            == Err::<FieldView, CompileErrorView>(
            CompileErrorView::ConstraintCompatibility {
                key: kv.key,
                constraint: cs[first_disallowed(ty, cs) as int],
            },
        ),
{
    if let Some(cs) = kv.constraints {
        lemma_first_disallowed(ty, cs);
    }
}

/// Type gating for a single constraint: a type accepts it if and only if the
/// table of the types admits it.
pub proof fn lemma_single_constraint(key: Seq<char>, ty: TypeTag, c: Constraint)
    ensures
        check_constraints(key, ty, seq![c]) is Ok <==> allowed(ty, c),
        !allowed(ty, c) ==> check_constraints(key, ty, seq![c]) == Err::<(), CompileErrorView>(
            CompileErrorView::ConstraintCompatibility { key, constraint: c },
        ),
        allowed(ty, c) <==> match ty {
            TypeTag::Int | TypeTag::Long => c is Min || c is Max || c is Optional,
            TypeTag::Str => true,
            TypeTag::Bool => c is Optional,
            TypeTag::Float => true,
        },
{
    let cs = seq![c];
    lemma_first_disallowed(ty, cs);
    if allowed(ty, c) {
        assert forall|i: int| 0 <= i < cs.len() implies allowed(ty, #[trigger] cs[i]) by {}
    } else {
        assert(!allowed(ty, cs[0]));
    }
}

/// Round trip for a compiled field: its encoding decodes to the set that its
/// constraints come to.
pub proof fn lemma_field_round_trip(kv: KeyValueView)
    requires
        encode_field(kv) is Ok,
    ensures
        decode_set(encode_field(kv)->Ok_0.encoded) == Some(
            match kv.constraints {
                Some(cs) => collect(cs),
                None => empty_set(),
            },
        ),
{
    lemma_constraints_round_trip(kv.constraints);
}

/// Removes the white space around a schema and the pair of braces that may
/// enclose it.
pub fn strip_braces_chars(input: &[char]) -> (r: &[char])
    ensures
        r@ == strip_braces(input@),
{
    let t = trim_chars(input);
    let n = t.len();
    if n >= 2 && t[0] == '{' && t[n - 1] == '}' {
        trim_chars(slice_subrange(t, 1, n - 1))
    } else {
        t
    }
}

/// Resolves a type name.
pub fn resolve_type_name(name: &[char]) -> (r: Option<TypeTag>)
    ensures
        r == resolve_type(name@),
{
    if eq_ignore_case(name, "int") || eq_ignore_case(name, "integer") || eq_ignore_case(
        name,
        "i32",
    ) {
        Some(TypeTag::Int)
    } else if eq_ignore_case(name, "long") || eq_ignore_case(name, "i64") {
        Some(TypeTag::Long)
    } else if eq_ignore_case(name, "str") || eq_ignore_case(name, "string") {
        Some(TypeTag::Str)
    } else if eq_ignore_case(name, "bool") || eq_ignore_case(name, "boolean") {
        Some(TypeTag::Bool)
    } else if eq_ignore_case(name, "float") || eq_ignore_case(name, "f32") {
        Some(TypeTag::Float)
    } else {
        None
    }
}

impl Field {
    /// Builds the descriptor of a read entry: resolves its type, checks its
    /// constraints against the type and encodes them.
    pub fn from_key_value(kv: &KeyValue) -> (r: Result<Field, CompileError>)
        ensures
            result_view(r) == encode_field(kv@),
    {
        let name = str_to_chars(kv.ty.as_str());
        let ty = match resolve_type_name(name.as_slice()) {
            Some(ty) => ty,
            None => {
                return Err(
                    CompileError::UnknownType { key: kv.key.clone(), type_text: kv.ty.clone() },
                );
            },
        };
        if let Some(cs) = &kv.constraints {
            if let Err(e) = validate_constraints(kv.key.as_str(), ty, cs.as_slice()) {
                return Err(e);
            }
        }
        Ok(Field { key: kv.key.clone(), ty, encoded: generate_mask(&kv.constraints) })
    }
}

/// The first pass: splits each piece of the text into the texts of an entry.
pub fn split_all(pieces: &Vec<&[char]>) -> (r: Result<Vec<RawEntry>, CompileError>)
    ensures
        match r {
            Ok(raws) => try_map(slice_views(pieces@), split_piece()) == Ok::<
                Seq<RawEntryView>,
                CompileErrorView,
            >(views(raws@)),
            Err(e) => try_map(slice_views(pieces@), split_piece()) == Err::<
                Seq<RawEntryView>,
                CompileErrorView,
            >(e@),
        },
{
    let ghost all = slice_views(pieces@);
    let mut out: Vec<RawEntry> = Vec::new();
    let mut i: usize = 0;
    assert(all.take(0) =~= Seq::<Seq<char>>::empty());
    assert(views(out@) =~= Seq::<RawEntryView>::empty());
    while i < pieces.len()
        invariant
            i <= pieces.len(),
            all == slice_views(pieces@),
            try_map(all.take(i as int), split_piece()) == Ok::<Seq<RawEntryView>, CompileErrorView>(
                views(out@),
            ),
        decreases pieces.len() - i,
    {
        proof {
            assert(all[i as int] == pieces@[i as int]@);
            assert(all.take(i + 1).drop_last() =~= all.take(i as int));
            assert(all.take(i + 1).last() == all[i as int]);
        }
        match RawEntry::from_chars(trim_chars(pieces[i])) {
            Ok(raw) => {
                assert(views(out@.push(raw)) =~= views(out@).push(raw@));
                out.push(raw);
            },
            Err(e) => {
                proof {
                    lemma_try_map_prefix(all, split_piece(), i + 1);
                }
                return Err(e);
            },
        }
        i += 1;
    }
    assert(all.take(i as int) =~= all);
    Ok(out)
}

/// The second pass: reads the constraint clause of each entry.
pub fn read_all(raws: &Vec<RawEntry>) -> (r: Result<Vec<KeyValue>, CompileError>)
    ensures
        match r {
            Ok(kvs) => try_map(views(raws@), read_raw()) == Ok::<
                Seq<KeyValueView>,
                CompileErrorView,
            >(views(kvs@)),
            Err(e) => try_map(views(raws@), read_raw()) == Err::<
                Seq<KeyValueView>,
                CompileErrorView,
            >(e@),
        },
{
    let ghost all = views(raws@);
    let mut out: Vec<KeyValue> = Vec::new();
    let mut i: usize = 0;
    assert(all.take(0) =~= Seq::<RawEntryView>::empty());
    assert(views(out@) =~= Seq::<KeyValueView>::empty());
    while i < raws.len()
        invariant
            i <= raws.len(),
            all == views(raws@),
            try_map(all.take(i as int), read_raw()) == Ok::<Seq<KeyValueView>, CompileErrorView>(
                views(out@),
            ),
        decreases raws.len() - i,
    {
        proof {
            assert(all[i as int] == raws@[i as int]@);
            assert(all.take(i + 1).drop_last() =~= all.take(i as int));
            assert(all.take(i + 1).last() == all[i as int]);
        }
        match KeyValue::from_raw(&raws[i]) {
            Ok(kv) => {
                assert(views(out@.push(kv)) =~= views(out@).push(kv@));
                out.push(kv);
            },
            Err(e) => {
                proof {
                    lemma_try_map_prefix(all, read_raw(), i + 1);
                }
                return Err(e);
            },
        }
        i += 1;
    }
    assert(all.take(i as int) =~= all);
    Ok(out)
}

/// The third pass: builds the descriptor of each entry.
pub fn encode_all(kvs: &Vec<KeyValue>) -> (r: Result<Vec<Field>, CompileError>)
    ensures
        compiled_view(r) == try_map(views(kvs@), encode_one()),
{
    let ghost all = views(kvs@);
    let mut out: Vec<Field> = Vec::new();
    let mut i: usize = 0;
    assert(all.take(0) =~= Seq::<KeyValueView>::empty());
    assert(views(out@) =~= Seq::<FieldView>::empty());
    while i < kvs.len()
        invariant
            i <= kvs.len(),
            all == views(kvs@),
            try_map(all.take(i as int), encode_one()) == Ok::<Seq<FieldView>, CompileErrorView>(
                views(out@),
            ),
        decreases kvs.len() - i,
    {
        proof {
            assert(all[i as int] == kvs@[i as int]@);
            assert(all.take(i + 1).drop_last() =~= all.take(i as int));
            assert(all.take(i + 1).last() == all[i as int]);
        }
        match Field::from_key_value(&kvs[i]) {
            Ok(field) => {
                assert(views(out@.push(field)) =~= views(out@).push(field@));
                out.push(field);
            },
            Err(e) => {
                proof {
                    lemma_try_map_prefix(all, encode_one(), i + 1);
                }
                return Err(e);
            },
        }
        i += 1;
    }
    assert(all.take(i as int) =~= all);
    Ok(out)
}

/// Compiles a schema: one descriptor per entry, in the order of the text, or
/// the first failure, without any output.
///
/// Every piece between two commas must be an entry, so an empty schema and a
/// trailing comma are malformed. Keys need not differ: entries that share a
/// key give one descriptor each.
pub fn convert(input: &str) -> (r: Result<Vec<Field>, CompileError>)
    ensures
        compiled_view(r) == compile(input@),
{
    let chars = str_to_chars(input);
    let pieces = split_chars(strip_braces_chars(chars.as_slice()), ',');
    let raws = match split_all(&pieces) {
        Ok(raws) => raws,
        Err(e) => {
            return Err(e);
        },
    };
    let kvs = match read_all(&raws) {
        Ok(kvs) => kvs,
        Err(e) => {
            return Err(e);
        },
    };
    encode_all(&kvs)
}

} // verus!
