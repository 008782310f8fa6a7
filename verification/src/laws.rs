//! Laws of filter evaluation.

use vstd::prelude::*;
use crate::eval::{filter_matches, holds, resolved_matches};
use crate::filter::{
    folded_literals, same_filter, same_literals, same_path, ConditionType, Filter, FilterCondition,
    FilterEmbedded, FilterJson,
};
use crate::record::{
    embedded_at, json_resolve, json_step, property_at, resolve, JsonValue, Property, Record,
    Resolved,
};
use crate::text::lowercase;
use crate::value::{bound, folded, folded_literal, literal, IsarValue, Value};

verus! {

/// Two comparisons that agree on every single value agree on whatever a leaf
/// resolves to, if both or neither ask for null.
pub proof fn lemma_same_on_values(
    r: Resolved,
    fold: bool,
    ct1: ConditionType,
    lits1: Seq<Option<Value>>,
    ct2: ConditionType,
    lits2: Seq<Option<Value>>,
)
    requires
        (ct1 == ConditionType::IsNull) == (ct2 == ConditionType::IsNull),
        forall|v: Value| #[trigger] holds(ct1, v, lits1) == holds(ct2, v, lits2),
    ensures
        resolved_matches(r, ct1, lits1, fold) == resolved_matches(r, ct2, lits2, fold),
{
    match r {
        Resolved::One(v) => {},
        Resolved::Many(vs) => {
            if resolved_matches(r, ct1, lits1, fold) {
                let i = choose|i: int|
                    0 <= i < vs.len() && holds(ct1, folded(#[trigger] vs[i], fold), lits1);
                assert(holds(ct2, folded(vs[i], fold), lits2));
            }
            if resolved_matches(r, ct2, lits2, fold) {
                let i = choose|i: int|
                    0 <= i < vs.len() && holds(ct2, folded(#[trigger] vs[i], fold), lits2);
                assert(holds(ct1, folded(vs[i], fold), lits1));
            }
        },
    }
}

/// An equality leaf matches a record whose property is the literal's own
/// value, the null literal and a null or absent property included, whether or
/// not case counts.
pub proof fn law_equal_matches_same_value(
    c: FilterCondition,
    rec: Option<Record>,
    x: Option<IsarValue>,
)
    requires
        c.condition_type == ConditionType::Equal,
        c.values@ == seq![x],
        resolve(rec, c.property_index, Seq::empty()) == Resolved::One(bound(literal(x))),
    ensures
        filter_matches(Filter::Condition(c), rec),
{
}

/// An equality leaf on a path matches a record in which the path leads to
/// the value that the leaf was built with.
pub proof fn law_equal_on_path_matches_same_value(
    c: FilterJson,
    rec: Option<Record>,
    x: Option<IsarValue>,
)
    requires
        c.condition_type == ConditionType::Equal,
        folded_literals(c.values@, false) == folded_literals(seq![x], !c.case_sensitive),
        resolve(rec, c.property_index, c.path@) == Resolved::One(bound(literal(x))),
    ensures
        filter_matches(Filter::Json(c), rec),
{
    assert(folded_literals(c.values@, false)[0] == folded_literals(seq![x], !c.case_sensitive)[0]);
}

/// An equality leaf matches a list property one of whose elements is the
/// literal's value.
pub proof fn law_equal_matches_list_element(
    c: FilterCondition,
    rec: Option<Record>,
    x: Option<IsarValue>,
    elements: Seq<Value>,
    i: int,
)
    requires
        c.condition_type == ConditionType::Equal,
        c.values@ == seq![x],
        resolve(rec, c.property_index, Seq::empty()) == Resolved::Many(elements),
        0 <= i < elements.len(),
        elements[i] == bound(literal(x)),
    ensures
        filter_matches(Filter::Condition(c), rec),
{
    let lits = folded_literals(c.values@, !c.case_sensitive);
    assert(holds(ConditionType::Equal, folded(elements[i], !c.case_sensitive), lits));
}

/// A filter negated twice matches the records that the filter matches.
pub proof fn law_double_negation(f: Filter, rec: Option<Record>)
    ensures
        filter_matches(Filter::Not(Box::new(Filter::Not(Box::new(f)))), rec) == filter_matches(
            f,
            rec,
        ),
{
    let inner = Filter::Not(Box::new(f));
    assert(filter_matches(inner, rec) == !filter_matches(f, rec));
    assert(filter_matches(Filter::Not(Box::new(inner)), rec) == !filter_matches(inner, rec));
}

/// A conjunction of no filters matches every record; a disjunction of none
/// matches no record.
pub proof fn law_empty_combinators(filters: Vec<Filter>, rec: Option<Record>)
    requires
        filters@.len() == 0,
    ensures
        filter_matches(Filter::And(filters), rec),
        !filter_matches(Filter::Or(filters), rec),
{
}

/// A range with an open lower side, and an upper bound, matches what "less
/// or equal" matches with that bound.
pub proof fn law_between_open_below(
    range: FilterCondition,
    upper: FilterCondition,
    rec: Option<Record>,
)
    requires
        range.condition_type == ConditionType::Between,
        range.values@.len() == 2,
        range.values@[0] is None,
        range.values@[1] is Some,
        upper.condition_type == ConditionType::LessOrEqual,
        upper.values@ == seq![range.values@[1]],
        upper.property_index == range.property_index,
        upper.case_sensitive == range.case_sensitive,
    ensures
        filter_matches(Filter::Condition(range), rec) == filter_matches(
            Filter::Condition(upper),
            rec,
        ),
{
    let fold = !range.case_sensitive;
    let lits1 = folded_literals(range.values@, fold);
    let lits2 = folded_literals(upper.values@, fold);
    assert(lits2[0] == lits1[1]);
    lemma_same_on_values(
        resolve(rec, range.property_index, Seq::empty()),
        fold,
        ConditionType::Between,
        lits1,
        ConditionType::LessOrEqual,
        lits2,
    );
}

/// A range with an open upper side matches what "greater or equal" matches
/// with the lower bound, whatever that bound is.
pub proof fn law_between_open_above(
    range: FilterCondition,
    lower: FilterCondition,
    rec: Option<Record>,
)
    requires
        range.condition_type == ConditionType::Between,
        range.values@.len() == 2,
        range.values@[1] is None,
        lower.condition_type == ConditionType::GreaterOrEqual,
        lower.values@ == seq![range.values@[0]],
        lower.property_index == range.property_index,
        lower.case_sensitive == range.case_sensitive,
    ensures
        filter_matches(Filter::Condition(range), rec) == filter_matches(
            Filter::Condition(lower),
            rec,
        ),
{
    let fold = !range.case_sensitive;
    let lits1 = folded_literals(range.values@, fold);
    let lits2 = folded_literals(lower.values@, fold);
    assert(lits2[0] == lits1[0]);
    lemma_same_on_values(
        resolve(rec, range.property_index, Seq::empty()),
        fold,
        ConditionType::Between,
        lits1,
        ConditionType::GreaterOrEqual,
        lits2,
    );
}

/// A range that is open on both sides matches every record in which its
/// property is a single value, a null or absent one too, or a list with an
/// element.
pub proof fn law_between_open_both(range: FilterCondition, rec: Option<Record>)
    requires
        range.condition_type == ConditionType::Between,
        range.values@.len() == 2,
        range.values@[0] is None,
        range.values@[1] is None,
        match resolve(rec, range.property_index, Seq::empty()) {
            Resolved::One(_) => true,
            Resolved::Many(vs) => vs.len() > 0,
        },
    ensures
        filter_matches(Filter::Condition(range), rec),
{
    let fold = !range.case_sensitive;
    let lits = folded_literals(range.values@, fold);
    assert(lits[0] is None && lits[1] is None);
    match resolve(rec, range.property_index, Seq::empty()) {
        Resolved::One(_) => {},
        Resolved::Many(vs) => {
            assert(holds(ConditionType::Between, folded(vs[0], fold), lits));
        },
    }
}

/// Where case does not count, a leaf gives one answer on texts that differ
/// in case alone, and with literals that differ in case alone: the answer
/// depends on the lowercase forms only.
pub proof fn law_case_insensitive(
    c1: FilterCondition,
    rec1: Option<Record>,
    c2: FilterCondition,
    rec2: Option<Record>,
    s1: Seq<char>,
    s2: Seq<char>,
    p1: IsarValue,
    p2: IsarValue,
)
    requires
        !c1.case_sensitive,
        !c2.case_sensitive,
        c1.condition_type == c2.condition_type,
        c1.values@ == seq![Some(p1)],
        c2.values@ == seq![Some(p2)],
        p1 is String,
        p2 is String,
        lowercase(p1->String_0@) == lowercase(p2->String_0@),
        resolve(rec1, c1.property_index, Seq::empty()) == Resolved::One(Value::Text(s1)),
        resolve(rec2, c2.property_index, Seq::empty()) == Resolved::One(Value::Text(s2)),
        lowercase(s1) == lowercase(s2),
    ensures
        filter_matches(Filter::Condition(c1), rec1) == filter_matches(Filter::Condition(c2), rec2),
{
    let lits1 = folded_literals(c1.values@, true);
    let lits2 = folded_literals(c2.values@, true);
    assert(lits1[0] == lits2[0]);
    assert(lits1 =~= lits2);
}

/// A leaf on a path that was built without regard to case, with a text
/// literal, gives one answer on texts that differ in case alone.
pub proof fn law_case_insensitive_on_path(
    c: FilterJson,
    rec1: Option<Record>,
    rec2: Option<Record>,
    s1: Seq<char>,
    s2: Seq<char>,
)
    requires
        !c.case_sensitive,
        resolve(rec1, c.property_index, c.path@) == Resolved::One(Value::Text(s1)),
        resolve(rec2, c.property_index, c.path@) == Resolved::One(Value::Text(s2)),
        lowercase(s1) == lowercase(s2),
    ensures
        filter_matches(Filter::Json(c), rec1) == filter_matches(Filter::Json(c), rec2),
{
}

/// The first literal of a leaf is a value other than null.
pub open spec fn first_literal_not_null(values: Seq<Option<IsarValue>>) -> bool {
    values.len() == 1 && values[0] is Some && !(values[0]->0 is Null)
}

/// Where the record holds no embedded object at the property of an embedded
/// filter, a nested null test matches, on whatever property or path it asks.
pub proof fn law_absent_embedded_is_null(index: u16, nested: Filter, rec: Option<Record>)
    requires
        embedded_at(rec, index) is None,
        match nested {
            Filter::Condition(c) => c.condition_type == ConditionType::IsNull,
            Filter::Json(c) => c.condition_type == ConditionType::IsNull,
            _ => false,
        },
    ensures
        filter_matches(
            Filter::Embedded((FilterEmbedded { property_index: index, filter: Box::new(nested) })),
            rec,
        ),
{
    assert(filter_matches(nested, None));
}

/// Where the record holds no embedded object at the property of an embedded
/// filter, a nested equality with a literal that is not null does not match.
pub proof fn law_absent_embedded_equals_nothing(index: u16, nested: Filter, rec: Option<Record>)
    requires
        embedded_at(rec, index) is None,
        match nested {
            Filter::Condition(c) => c.condition_type == ConditionType::Equal
                && first_literal_not_null(c.values@),
            Filter::Json(c) => c.condition_type == ConditionType::Equal && first_literal_not_null(
                c.values@,
            ),
            _ => false,
        },
    ensures
        !filter_matches(
            Filter::Embedded((FilterEmbedded { property_index: index, filter: Box::new(nested) })),
            rec,
        ),
{
    match nested {
        Filter::Condition(c) => {
            let lits = folded_literals(c.values@, !c.case_sensitive);
            assert(lits[0] == folded_literal(literal(c.values@[0]), !c.case_sensitive));
        },
        Filter::Json(c) => {
            let lits = folded_literals(c.values@, false);
            assert(lits[0] == folded_literal(literal(c.values@[0]), false));
        },
        _ => {},
    }
    assert(!filter_matches(nested, None));
}

/// Paths with the same segments lead to the same place.
pub proof fn lemma_same_path_same_place(j: JsonValue, a: Seq<String>, b: Seq<String>, from: int)
    requires
        same_path(a, b),
    ensures
        json_resolve(j, a, from) == json_resolve(j, b, from),
    decreases a.len() - from,
{
    if 0 <= from < a.len() {
        match json_step(j, a[from]@) {
            None => {},
            Some(inner) => {
                lemma_same_path_same_place(inner, a, b, from + 1);
            },
        }
    }
}

/// Lists of the same literals are the same after folding.
pub proof fn lemma_same_literals_fold(
    a: Seq<Option<IsarValue>>,
    b: Seq<Option<IsarValue>>,
    fold: bool,
)
    requires
        same_literals(a, b),
    ensures
        folded_literals(a, fold) == folded_literals(b, fold),
{
    assert(folded_literals(a, fold) =~= folded_literals(b, fold));
}

/// Filters that are the same tree match the same records: a copy of a filter
/// decides as the filter does.
pub proof fn law_same_filter_same_matches(a: Filter, b: Filter, rec: Option<Record>)
    requires
        same_filter(a, b),
    ensures
        filter_matches(a, rec) == filter_matches(b, rec),
    decreases a,
{
    match (a, b) {
        (Filter::Condition(x), Filter::Condition(y)) => {
            lemma_same_literals_fold(x.values@, y.values@, !x.case_sensitive);
        },
        (Filter::Json(x), Filter::Json(y)) => {
            lemma_same_literals_fold(x.values@, y.values@, false);
            match property_at(rec, x.property_index) {
                Some(Property::Json(j)) => {
                    lemma_same_path_same_place(j, x.path@, y.path@, 0);
                },
                _ => {},
            }
            assert(resolve(rec, x.property_index, x.path@) == resolve(
                rec,
                y.property_index,
                y.path@,
            ));
        },
        (Filter::Embedded(x), Filter::Embedded(y)) => {
            law_same_filter_same_matches(*x.filter, *y.filter, embedded_at(rec, x.property_index));
        },
        (Filter::And(xs), Filter::And(ys)) => {
            assert forall|i: int| 0 <= i < xs.len() implies filter_matches(#[trigger] xs[i], rec)
                == filter_matches(ys[i], rec) by {
                law_same_filter_same_matches(xs[i], ys[i], rec);
            }
            if filter_matches(a, rec) {
                assert forall|i: int| 0 <= i < ys.len() implies filter_matches(
                    #[trigger] ys[i],
                    rec,
                ) by {
                    assert(filter_matches(xs[i], rec));
                }
            }
        },
        (Filter::Or(xs), Filter::Or(ys)) => {
            assert forall|i: int| 0 <= i < xs.len() implies filter_matches(#[trigger] xs[i], rec)
                == filter_matches(ys[i], rec) by {
                law_same_filter_same_matches(xs[i], ys[i], rec);
            }
            if filter_matches(a, rec) {
                let i = choose|i: int| 0 <= i < xs.len() && filter_matches(#[trigger] xs[i], rec);
                assert(filter_matches(ys[i], rec));
            }
            if filter_matches(b, rec) {
                let i = choose|i: int| 0 <= i < ys.len() && filter_matches(#[trigger] ys[i], rec);
                assert(filter_matches(xs[i], rec));
            }
        },
        (Filter::Not(x), Filter::Not(y)) => {
            law_same_filter_same_matches(*x, *y, rec);
        },
        _ => {},
    }
}

} // verus!
