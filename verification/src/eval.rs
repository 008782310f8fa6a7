//! Evaluation of a filter on a record.

use vstd::prelude::*;
use crate::filter::{folded_literals, ConditionType, Filter};
use crate::record::{
    array_values, embedded_at, json_value, list_values, resolve, JsonValue, Property, Record,
    Resolved,
};
use crate::text::{
    contains, ends_with, folded_chars, has_infix, has_prefix, has_suffix, starts_with, wild_match,
    wild_matches,
};
use crate::value::{bound, folded, value_le, value_lt, IsarValue, Value};

verus! {

/// Literal `i` of a leaf; a literal that the leaf lacks reads as `None`.
pub open spec fn literal_at(lits: Seq<Option<Value>>, i: int) -> Option<Value> {
    if 0 <= i < lits.len() {
        lits[i]
    } else {
        None
    }
}

/// A text predicate on a value and a literal: both are text, and the literal
/// stands in the value as the comparison asks.
pub open spec fn text_holds(ct: ConditionType, v: Value, l: Option<Value>) -> bool {
    match (v, l) {
        (Value::Text(s), Some(Value::Text(p))) => match ct {
            ConditionType::StringStartsWith => starts_with(s, p),
            ConditionType::StringEndsWith => ends_with(s, p),
            ConditionType::StringContains => contains(s, p),
            ConditionType::StringMatches => wild_matches(s, p),
            _ => false,
        },
        _ => false,
    }
}

/// A value within a range: at or above the lower bound, at or below the
/// upper one, where `None` leaves a side open.
pub open spec fn within(v: Value, lower: Option<Value>, upper: Option<Value>) -> bool {
    &&& (lower is Some ==> value_le(lower->0, v))
    &&& (upper is Some ==> value_le(v, upper->0))
}

/// Whether one value satisfies a comparison with literals; the value and the
/// literals are taken as they stand, case already folded where it is to be.
pub open spec fn holds(ct: ConditionType, v: Value, lits: Seq<Option<Value>>) -> bool {
    let first = literal_at(lits, 0);
    match ct {
        ConditionType::IsNull => v is Null,
        ConditionType::Equal => v == bound(first),
        ConditionType::Greater => value_lt(bound(first), v),
        ConditionType::GreaterOrEqual => value_le(bound(first), v),
        ConditionType::Less => value_lt(v, bound(first)),
        ConditionType::LessOrEqual => value_le(v, bound(first)),
        ConditionType::Between => within(v, first, literal_at(lits, 1)),
        _ => text_holds(ct, v, first),
    }
}

/// Whether what a leaf resolved to satisfies its comparison. A single value
/// is judged itself. Of a list, one element has to satisfy the comparison;
/// a list is never null, whatever its elements are.
pub open spec fn resolved_matches(
    r: Resolved,
    ct: ConditionType,
    lits: Seq<Option<Value>>,
    fold: bool,
) -> bool {
    match r {
        Resolved::One(v) => holds(ct, folded(v, fold), lits),
        Resolved::Many(vs) => ct != ConditionType::IsNull && exists|i: int|
            0 <= i < vs.len() && holds(ct, folded(#[trigger] vs[i], fold), lits),
    }
}

/// Whether a filter matches a record; `None` is the record of which every
/// property is absent.
pub open spec fn filter_matches(f: Filter, rec: Option<Record>) -> bool
    decreases f,
{
    match f {
        Filter::Condition(c) => resolved_matches(
            resolve(rec, c.property_index, Seq::empty()),
            c.condition_type,
            folded_literals(c.values@, !c.case_sensitive),
            !c.case_sensitive,
        ),
        Filter::Json(c) => resolved_matches(
            resolve(rec, c.property_index, c.path@),
            c.condition_type,
            folded_literals(c.values@, false),
            !c.case_sensitive,
        ),
        Filter::Embedded(e) => filter_matches(*e.filter, embedded_at(rec, e.property_index)),
        Filter::And(fs) => forall|i: int| 0 <= i < fs.len() ==> filter_matches(#[trigger] fs[i], rec),
        Filter::Or(fs) => exists|i: int| 0 <= i < fs.len() && filter_matches(#[trigger] fs[i], rec),
        Filter::Not(g) => !filter_matches(*g, rec),
    }
}

/// One side of a comparison: a value, or something present that compares
/// with nothing.
pub enum Operand<'a> {
    Value(&'a IsarValue),
    Composite,
}

impl<'a> Operand<'a> {
    /// The operand to the comparison rules.
    pub open spec fn value(self) -> Value {
        match self {
            Operand::Value(v) => v@,
            Operand::Composite => Value::Composite,
        }
    }

    /// The operand that stands for a nested structure.
    pub fn of_json(j: &'a JsonValue) -> (r: Self)
        ensures
            r.value() == json_value(*j),
    {
        match j {
            JsonValue::Scalar(v) => Operand::Value(v),
            _ => Operand::Composite,
        }
    }

    /// Whether the operand equals a literal.
    pub fn equals(&self, fold: bool, l: &IsarValue, fold_l: bool) -> (r: bool)
        ensures
            r == (folded(self.value(), fold) == folded(l@, fold_l)),
    {
        match self {
            Operand::Value(v) => v.equals(fold, l, fold_l),
            Operand::Composite => false,
        }
    }

    /// Whether the operand comes strictly before a literal.
    pub fn below(&self, fold: bool, l: &IsarValue, fold_l: bool) -> (r: bool)
        ensures
            r == value_lt(folded(self.value(), fold), folded(l@, fold_l)),
    {
        match self {
            Operand::Value(v) => v.less(fold, l, fold_l),
            Operand::Composite => false,
        }
    }

    /// Whether the operand comes strictly after a literal.
    pub fn above(&self, fold: bool, l: &IsarValue, fold_l: bool) -> (r: bool)
        ensures
            r == value_lt(folded(l@, fold_l), folded(self.value(), fold)),
    {
        match self {
            Operand::Value(v) => l.less(fold_l, v, fold),
            Operand::Composite => match l {
                IsarValue::Null => true,
                _ => false,
            },
        }
    }

    /// Whether the operand is text in which a text literal stands as the
    /// comparison asks.
    pub fn text_test(&self, ct: ConditionType, fold: bool, l: Option<&IsarValue>, fold_l: bool) -> (r:
        bool)
        ensures
            r == text_holds(
                ct,
                folded(self.value(), fold),
                match l {
                    Some(x) => Some(folded(x@, fold_l)),
                    None => None,
                },
            ),
    {
        match (self, l) {
            (Operand::Value(IsarValue::String(s)), Some(IsarValue::String(p))) => {
                let sc = folded_chars(s.as_str(), fold);
                let pc = folded_chars(p.as_str(), fold_l);
                match ct {
                    ConditionType::StringStartsWith => has_prefix(&sc, &pc),
                    ConditionType::StringEndsWith => has_suffix(&sc, &pc),
                    ConditionType::StringContains => has_infix(&sc, &pc),
                    ConditionType::StringMatches => wild_match(&sc, &pc),
                    _ => false,
                }
            },
            _ => false,
        }
    }
}

/// Literal `i` of a leaf, if the leaf has it and it is not the null literal.
pub fn literal_ref(values: &Vec<Option<IsarValue>>, i: usize) -> (r: Option<&IsarValue>)
    ensures
        forall|fold: bool|
            #![trigger folded_literals(values@, fold)]
            literal_at(folded_literals(values@, fold), i as int) == (match r {
                Some(x) => Some(folded(x@, fold)),
                None => None,
            }),
{
    if i < values.len() {
        values[i].as_ref()
    } else {
        None
    }
}

/// Whether one operand satisfies a comparison with the literals of a leaf.
/// The operand's text is put in lowercase where `fold` is set, the text of
/// the literals where `fold_literals` is.
pub fn condition_holds(
    ct: ConditionType,
    v: &Operand,
    fold: bool,
    values: &Vec<Option<IsarValue>>,
    fold_literals: bool,
) -> (r: bool)
    ensures
        r == holds(ct, folded(v.value(), fold), folded_literals(values@, fold_literals)),
{
    let null = IsarValue::Null;
    let first = literal_ref(values, 0);
    let ghost lits = folded_literals(values@, fold_literals);
    let b: &IsarValue = match first {
        Some(x) => x,
        None => &null,
    };
    assert(bound(literal_at(lits, 0)) == folded(b@, fold_literals));
    match ct {
        ConditionType::IsNull => match v {
            Operand::Value(IsarValue::Null) => true,
            _ => false,
        },
        ConditionType::Equal => v.equals(fold, b, fold_literals),
        ConditionType::Greater => v.above(fold, b, fold_literals),
        ConditionType::GreaterOrEqual => v.equals(fold, b, fold_literals) || v.above(
            fold,
            b,
            fold_literals,
        ),
        ConditionType::Less => v.below(fold, b, fold_literals),
        ConditionType::LessOrEqual => v.equals(fold, b, fold_literals) || v.below(
            fold,
            b,
            fold_literals,
        ),
        ConditionType::Between => {
            let second = literal_ref(values, 1);
            let low = match first {
                Some(x) => v.equals(fold, x, fold_literals) || v.above(fold, x, fold_literals),
                None => true,
            };
            let high = match second {
                Some(x) => v.equals(fold, x, fold_literals) || v.below(fold, x, fold_literals),
                None => true,
            };
            low && high
        },
        _ => v.text_test(ct, fold, first, fold_literals),
    }
}

/// What a leaf found in a record.
pub enum Found<'a> {
    Absent,
    Value(&'a IsarValue),
    List(&'a Vec<IsarValue>),
    Elements(&'a Vec<JsonValue>),
    Composite,
}

impl<'a> Found<'a> {
    /// What the leaf is judged on.
    pub open spec fn resolved(self) -> Resolved {
        match self {
            Found::Absent => Resolved::One(Value::Null),
            Found::Value(v) => Resolved::One(v@),
            Found::List(vs) => Resolved::Many(list_values(vs@)),
            Found::Elements(a) => Resolved::Many(array_values(a@)),
            Found::Composite => Resolved::One(Value::Composite),
        }
    }
}

/// The record that an optional reference stands for.
pub open spec fn record_of(rec: Option<&Record>) -> Option<Record> {
    match rec {
        Some(r) => Some(*r),
        None => None,
    }
}

/// Resolves the property at `index`, and inside it `path`, in a record.
pub fn find<'a>(rec: Option<&'a Record>, index: u16, path: &Vec<String>) -> (r: Found<'a>)
    ensures
        r.resolved() == resolve(record_of(rec), index, path@),
{
    let property = match rec {
        Some(record) => record.resolve_property(index),
        None => None,
    };
    match property {
        None => Found::Absent,
        Some(Property::Json(j)) => match j.resolve_path(path) {
            None => Found::Absent,
            Some(JsonValue::Scalar(v)) => Found::Value(v),
            Some(JsonValue::Array(a)) => Found::Elements(a),
            Some(JsonValue::Object(_)) => Found::Composite,
        },
        Some(p) => if path.len() > 0 {
            Found::Absent
        } else {
            match p {
                Property::Value(v) => Found::Value(v),
                Property::List(vs) => Found::List(vs),
                _ => Found::Composite,
            }
        },
    }
}

/// The embedded object at `index` of a record, if it holds one there.
pub fn find_embedded<'a>(rec: Option<&'a Record>, index: u16) -> (r: Option<&'a Record>)
    ensures
        record_of(r) == embedded_at(record_of(rec), index),
{
    match rec {
        Some(record) => match record.resolve_property(index) {
            Some(Property::Embedded(inner)) => Some(inner),
            _ => None,
        },
        None => None,
    }
}

/// Whether what a leaf found satisfies its comparison.
pub fn found_matches(
    found: &Found,
    ct: ConditionType,
    fold: bool,
    values: &Vec<Option<IsarValue>>,
    fold_literals: bool,
) -> (r: bool)
    ensures
        r == resolved_matches(
            found.resolved(),
            ct,
            folded_literals(values@, fold_literals),
            fold,
        ),
{
    let ghost lits = folded_literals(values@, fold_literals);
    match found {
        Found::Absent => {
            let null = IsarValue::Null;
            condition_holds(ct, &Operand::Value(&null), fold, values, fold_literals)
        },
        Found::Value(v) => condition_holds(ct, &Operand::Value(v), fold, values, fold_literals),
        Found::Composite => condition_holds(ct, &Operand::Composite, fold, values, fold_literals),
        Found::List(vs) => {
            if ct == ConditionType::IsNull {
                return false;
            }
            let ghost all = list_values(vs@);
            let mut i: usize = 0;
            while i < vs.len()
                invariant
                    i <= vs.len(),
                    all == list_values(vs@),
                    found.resolved() == Resolved::Many(all),
                    ct != ConditionType::IsNull,
                    lits == folded_literals(values@, fold_literals),
                    forall|j: int| 0 <= j < i ==> !holds(ct, folded(#[trigger] all[j], fold), lits),
                decreases vs.len() - i,
            {
                if condition_holds(ct, &Operand::Value(&vs[i]), fold, values, fold_literals) {
                    assert(holds(ct, folded(all[i as int], fold), lits));
                    return true;
                }
                i += 1;
            }
            false
        },
        Found::Elements(a) => {
            if ct == ConditionType::IsNull {
                return false;
            }
            let ghost all = array_values(a@);
            let mut i: usize = 0;
            while i < a.len()
                invariant
                    i <= a.len(),
                    all == array_values(a@),
                    found.resolved() == Resolved::Many(all),
                    ct != ConditionType::IsNull,
                    lits == folded_literals(values@, fold_literals),
                    forall|j: int| 0 <= j < i ==> !holds(ct, folded(#[trigger] all[j], fold), lits),
                decreases a.len() - i,
            {
                let element = Operand::of_json(&a[i]);
                if condition_holds(ct, &element, fold, values, fold_literals) {
                    assert(holds(ct, folded(all[i as int], fold), lits));
                    return true;
                }
                i += 1;
            }
            false
        },
    }
}

/// Whether a filter matches a record, or, for `None`, the record of which
/// every property is absent.
pub fn matches_in(filter: &Filter, rec: Option<&Record>) -> (r: bool)
    ensures
        r == filter_matches(*filter, record_of(rec)),
    decreases filter,
{
    match filter {
        Filter::Condition(c) => {
            let path: Vec<String> = Vec::new();
            assert(path@ =~= Seq::empty());
            let found = find(rec, c.property_index, &path);
            found_matches(&found, c.condition_type, !c.case_sensitive, &c.values, !c.case_sensitive)
        },
        Filter::Json(c) => {
            let found = find(rec, c.property_index, &c.path);
            found_matches(&found, c.condition_type, !c.case_sensitive, &c.values, false)
        },
        Filter::Embedded(e) => matches_in(&e.filter, find_embedded(rec, e.property_index)),
        Filter::And(fs) => all_match(fs, rec),
        Filter::Or(fs) => any_matches(fs, rec),
        Filter::Not(g) => !matches_in(g, rec),
    }
}

/// Whether each of `filters` matches the record.
pub fn all_match(filters: &Vec<Filter>, rec: Option<&Record>) -> (r: bool)
    ensures
        r == (forall|i: int|
            0 <= i < filters.len() ==> filter_matches(#[trigger] filters[i], record_of(rec))),
    decreases filters,
{
    let mut i: usize = 0;
    while i < filters.len()
        invariant
            i <= filters.len(),
            forall|j: int| 0 <= j < i ==> filter_matches(#[trigger] filters[j], record_of(rec)),
        decreases filters.len() - i,
    {
        if !matches_in(&filters[i], rec) {
            return false;
        }
        i += 1;
    }
    true
}

/// Whether one of `filters` matches the record.
pub fn any_matches(filters: &Vec<Filter>, rec: Option<&Record>) -> (r: bool)
    ensures
        r == (exists|i: int|
            0 <= i < filters.len() && filter_matches(#[trigger] filters[i], record_of(rec))),
    decreases filters,
{
    let mut i: usize = 0;
    while i < filters.len()
        invariant
            i <= filters.len(),
            forall|j: int| 0 <= j < i ==> !filter_matches(#[trigger] filters[j], record_of(rec)),
        decreases filters.len() - i,
    {
        if matches_in(&filters[i], rec) {
            return true;
        }
        i += 1;
    }
    false
}

/// Whether a filter matches a record.
pub fn matches(filter: &Filter, record: &Record) -> (r: bool)
    ensures
        r == filter_matches(*filter, Some(*record)),
{
    matches_in(filter, Some(record))
}

} // verus!
