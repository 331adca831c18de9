//! One entry of a schema: `key: type`, or `key: type => constraints`.

use crate::error::{result_view, CompileError, CompileErrorView};
use crate::number::{parse_decimal, parse_i64};
use crate::text::{
    chars_to_string, eq_ignore_case, find_arrow, find_char, has_prefix, index_of, index_of_arrow,
    lower, slice_views, split_words, str_to_chars, trim, trim_chars, words,
};
use crate::validators::Constraint;
use vstd::prelude::*;
use vstd::slice::slice_subrange;

verus! {

/// The three texts of an entry, before anything is read from them. `clause`
/// is the text after `=>`, and `None` where the entry has no `=>`.
#[derive(Clone, Debug, PartialEq, Eq)]
pub struct RawEntry {
    pub key: String,
    pub type_text: String,
    pub clause: Option<String>,
}

/// A `RawEntry` with its texts as character sequences.
pub ghost struct RawEntryView {
    pub key: Seq<char>,
    pub type_text: Seq<char>,
    pub clause: Option<Seq<char>>,
}

impl View for RawEntry {
    type V = RawEntryView;

    open spec fn view(&self) -> RawEntryView {
        RawEntryView {
            key: self.key@,
            type_text: self.type_text@,
            clause: match self.clause {
                Some(text) => Some(text@),
                None => None,
            },
        }
    }
}

/// An entry with its constraints read. `constraints` is `None` where the
/// entry has no constraint clause, which differs from a clause that holds
/// nothing.
#[derive(Clone, Debug, PartialEq, Eq)]
pub struct KeyValue {
    pub key: String,
    pub ty: String,
    pub constraints: Option<Vec<Constraint>>,
}

/// A `KeyValue` with its texts and its list as sequences.
pub ghost struct KeyValueView {
    pub key: Seq<char>,
    pub ty: Seq<char>,
    pub constraints: Option<Seq<Constraint>>,
}

impl View for KeyValue {
    type V = KeyValueView;

    open spec fn view(&self) -> KeyValueView {
        KeyValueView {
            key: self.key@,
            ty: self.ty@,
            constraints: match self.constraints {
                Some(cs) => Some(cs@),
                None => None,
            },
        }
    }
}

/// The texts of an entry. The key is what stands before the first `:`; what
/// follows it is the type, up to the first `=>` if there is one, and then the
/// constraint clause. Key and type are trimmed. An entry without `:` is
/// malformed.
pub open spec fn split_entry(entry: Seq<char>) -> Result<RawEntryView, CompileErrorView> {
    let colon = find_char(entry, ':') as int;
    if colon >= entry.len() {
        Err(CompileErrorView::Grammar { entry })
    } else {
        let rest = entry.skip(colon + 1);
        let arrow = find_arrow(rest) as int;
        if arrow >= rest.len() {
            Ok(RawEntryView { key: trim(entry.take(colon)), type_text: trim(rest), clause: None })
        } else {
            Ok(
                RawEntryView {
                    key: trim(entry.take(colon)),
                    type_text: trim(rest.take(arrow)),
                    clause: Some(rest.skip(arrow + 2)),
                },
            )
        }
    }
}

/// The text between `prefix` and a closing `)`, if `literal` begins with the
/// one and ends with the other.
pub open spec fn bound_text(literal: Seq<char>, prefix: Seq<char>) -> Option<Seq<char>> {
    if prefix.is_prefix_of(literal) && literal.len() > prefix.len() && literal.last() == ')' {
        Some(literal.subrange(prefix.len() as int, literal.len() - 1))
    } else {
        None
    }
}

/// The bound that the argument of `min(..)` or `max(..)` denotes, after
/// trimming.
pub open spec fn parse_bound(argument: Seq<char>) -> Option<i64> {
    parse_decimal(trim(argument))
}

/// The constraint that a literal denotes: `min(n)` or `max(n)` with a signed
/// decimal `n`, or, in any mix of upper and lower case, `notEmpty` or
/// `optional`. `None` for any other literal.
pub open spec fn parse_constraint(literal: Seq<char>) -> Option<Constraint> {
    if let Some(argument) = bound_text(literal, "min("@) {
        match parse_bound(argument) {
            Some(v) => Some(Constraint::Min(v)),
            None => None,
        }
    } else if let Some(argument) = bound_text(literal, "max("@) {
        match parse_bound(argument) {
            Some(v) => Some(Constraint::Max(v)),
            None => None,
        }
    } else if lower(literal) == "notempty"@ {
        Some(Constraint::NotEmpty)
    } else if lower(literal) == "optional"@ {
        Some(Constraint::Optional)
    } else {
        None
    }
}

/// The constraints that the literals `literals` denote, each trimmed first.
/// Fails with the first literal that denotes none, naming the field `key`.
pub open spec fn parse_literals(key: Seq<char>, literals: Seq<Seq<char>>) -> Result<
    Seq<Constraint>,
    CompileErrorView,
>
    decreases literals.len(),
{
    if literals.len() == 0 {
        Ok(Seq::empty())
    } else {
        match parse_literals(key, literals.drop_last()) {
            Err(e) => Err(e),
            Ok(cs) => match parse_constraint(trim(literals.last())) {
                Some(c) => Ok(cs.push(c)),
                None => Err(
                    CompileErrorView::ConstraintSyntax { key, literal: trim(literals.last()) },
                ),
            },
        }
    }
}

/// The constraints of a clause: those of its literals, which ASCII white
/// space separates.
pub open spec fn parse_clause(key: Seq<char>, clause: Seq<char>) -> Result<
    Seq<Constraint>,
    CompileErrorView,
> {
    parse_literals(key, words(clause))
}

/// A split entry with its constraint clause read, if it has one.
pub open spec fn parse_raw(raw: RawEntryView) -> Result<KeyValueView, CompileErrorView> {
    match raw.clause {
        None => Ok(KeyValueView { key: raw.key, ty: raw.type_text, constraints: None }),
        Some(clause) => match parse_clause(raw.key, clause) {
            Ok(cs) => Ok(KeyValueView { key: raw.key, ty: raw.type_text, constraints: Some(cs) }),
            Err(e) => Err(e),
        },
    }
}

/// An entry split and then read.
pub open spec fn parse_entry(entry: Seq<char>) -> Result<KeyValueView, CompileErrorView> {
    match split_entry(entry) {
        Ok(raw) => parse_raw(raw),
        Err(e) => Err(e),
    }
}

/// A failure among the first literals is the failure of the whole list.
pub proof fn lemma_parse_literals_prefix(key: Seq<char>, literals: Seq<Seq<char>>, k: int)
    requires
        0 <= k <= literals.len(),
        parse_literals(key, literals.take(k)) is Err,
    ensures
        parse_literals(key, literals) == parse_literals(key, literals.take(k)),
    decreases literals.len() - k,
{
    if k == literals.len() {
        assert(literals.take(k) =~= literals);
    } else {
        assert(literals.drop_last().take(k) =~= literals.take(k));
        lemma_parse_literals_prefix(key, literals.drop_last(), k);
    }
}

impl RawEntry {
    /// Splits an entry into its texts.
    pub fn from_chars(entry: &[char]) -> (r: Result<RawEntry, CompileError>)
        ensures
            result_view(r) == split_entry(entry@),
    {
        let colon = index_of(entry, ':');
        if colon >= entry.len() {
            return Err(CompileError::Grammar { entry: chars_to_string(entry) });
        }
        let key = chars_to_string(trim_chars(slice_subrange(entry, 0, colon)));
        let rest = slice_subrange(entry, colon + 1, entry.len());
        let arrow = index_of_arrow(rest);
        if arrow >= rest.len() {
            Ok(RawEntry { key, type_text: chars_to_string(trim_chars(rest)), clause: None })
        } else {
            let type_text = chars_to_string(trim_chars(slice_subrange(rest, 0, arrow)));
            let clause = chars_to_string(slice_subrange(rest, arrow + 2, rest.len()));
            Ok(RawEntry { key, type_text, clause: Some(clause) })
        }
    }
}

/// The argument of a bound literal that begins with `prefix`.
pub fn bound_argument<'a>(literal: &'a [char], prefix: &str) -> (r: Option<&'a [char]>)
    ensures
        match r {
            Some(argument) => bound_text(literal@, prefix@) == Some(argument@),
            None => bound_text(literal@, prefix@) is None,
        },
{
    let n = literal.len();
    let p = prefix.unicode_len();
    if has_prefix(literal, prefix) && n > p && literal[n - 1] == ')' {
        Some(slice_subrange(literal, p, n - 1))
    } else {
        None
    }
}

/// Reads one constraint literal.
pub fn read_constraint(literal: &[char]) -> (r: Option<Constraint>)
    ensures
        r == parse_constraint(literal@),
{
    if let Some(argument) = bound_argument(literal, "min(") {
        match parse_i64(trim_chars(argument)) {
            Some(v) => Some(Constraint::Min(v)),
            None => None,
        }
    } else if let Some(argument) = bound_argument(literal, "max(") {
        match parse_i64(trim_chars(argument)) {
            Some(v) => Some(Constraint::Max(v)),
            None => None,
        }
    } else if eq_ignore_case(literal, "notempty") {
        Some(Constraint::NotEmpty)
    } else if eq_ignore_case(literal, "optional") {
        Some(Constraint::Optional)
    } else {
        None
    }
}

/// Reads the constraint clause of the field `key`.
pub fn read_clause(key: &str, clause: &[char]) -> (r: Result<Vec<Constraint>, CompileError>)
    ensures
        result_view(r) == parse_clause(key@, clause@),
{
    let literals = split_words(clause);
    let ghost all = slice_views(literals@);
    let mut out: Vec<Constraint> = Vec::new();
    let mut i: usize = 0;
    assert(all.take(0) =~= Seq::<Seq<char>>::empty());
    while i < literals.len()
        invariant
            i <= literals.len(),
            all == slice_views(literals@),
            all == words(clause@),
            parse_literals(key@, all.take(i as int)) == Ok::<Seq<Constraint>, CompileErrorView>(
                out@,
            ),
        decreases literals.len() - i,
    {
        let literal = trim_chars(literals[i]);
        proof {
            assert(all[i as int] == literals@[i as int]@);
            assert(all.take(i + 1).drop_last() =~= all.take(i as int));
            assert(all.take(i + 1).last() == all[i as int]);
        }
        match read_constraint(literal) {
            Some(c) => {
                out.push(c);
            },
            None => {
                proof {
                    lemma_parse_literals_prefix(key@, all, i + 1);
                }
                return Err(
                    CompileError::ConstraintSyntax {
                        key: key.to_owned(),
                        literal: chars_to_string(literal),
                    },
                );
            },
        }
        i += 1;
    }
    assert(all.take(i as int) =~= all);
    Ok(out)
}

impl KeyValue {
    /// Reads the constraint clause of a split entry, if it has one.
    pub fn from_raw(raw: &RawEntry) -> (r: Result<KeyValue, CompileError>)
        ensures
            result_view(r) == parse_raw(raw@),
    {
        let constraints = match &raw.clause {
            None => None,
            Some(clause) => {
                let chars = str_to_chars(clause.as_str());
                match read_clause(raw.key.as_str(), chars.as_slice()) {
                    Ok(cs) => Some(cs),
                    Err(e) => {
                        return Err(e);
                    },
                }
            },
        };
        Ok(KeyValue { key: raw.key.clone(), ty: raw.type_text.clone(), constraints })
    }

    /// Reads one entry: splits it into key, type and constraint clause, and
    /// reads the clause. Fails if the entry has no `:`, or with the first
    /// constraint literal that denotes no constraint.
    pub fn from_str(s: &str) -> (r: Result<KeyValue, CompileError>)
        ensures
            result_view(r) == parse_entry(s@),
    {
        let chars = str_to_chars(s);
        match RawEntry::from_chars(chars.as_slice()) {
            Ok(raw) => KeyValue::from_raw(&raw),
            Err(e) => Err(e),
        }
    }
}

} // verus!
