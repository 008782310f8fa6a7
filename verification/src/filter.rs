//! The predicate tree of a query and the constructors of its nodes.

use vstd::prelude::*;
use crate::value::{folded, folded_literal, literal, IsarValue, Value};

verus! {

/// The comparison that a leaf of a filter makes.
#[derive(Clone, Copy, PartialEq, Eq, Debug, Structural)]
pub enum ConditionType {
    IsNull,
    Equal,
    Greater,
    GreaterOrEqual,
    Less,
    LessOrEqual,
    Between,
    StringStartsWith,
    StringEndsWith,
    StringContains,
    StringMatches,
}

/// A comparison of the property at `property_index` with literals.
#[derive(Debug, PartialEq)]
pub struct FilterCondition {
    pub property_index: u16,
    pub condition_type: ConditionType,
    pub values: Vec<Option<IsarValue>>,
    pub case_sensitive: bool,
}

/// A comparison of what `path` reaches inside the property at
/// `property_index`. Where `case_sensitive` is false the text literals are
/// held in lowercase.
#[derive(Debug, PartialEq)]
pub struct FilterJson {
    pub property_index: u16,
    pub path: Vec<String>,
    pub condition_type: ConditionType,
    pub values: Vec<Option<IsarValue>>,
    pub case_sensitive: bool,
}

/// A filter on the embedded object at `property_index`.
#[derive(Debug, PartialEq)]
pub struct FilterEmbedded {
    pub property_index: u16,
    pub filter: Box<Filter>,
}

/// A query predicate: a tree of leaves and logical combinators.
#[derive(Debug, PartialEq)]
pub enum Filter {
    Condition(FilterCondition),
    Json(FilterJson),
    Embedded(FilterEmbedded),
    And(Vec<Filter>),
    Or(Vec<Filter>),
    Not(Box<Filter>),
}

/// The literals of a leaf, each text among them in lowercase where `fold` is set.
pub open spec fn folded_literals(vs: Seq<Option<IsarValue>>, fold: bool) -> Seq<Option<Value>> {
    Seq::new(vs.len(), |i: int| folded_literal(literal(vs[i]), fold))
}

/// The number of literals that a comparison takes: two bounds for a range,
/// one literal for every other.
pub open spec fn literal_count(condition_type: ConditionType) -> nat {
    if condition_type == ConditionType::Between {
        2
    } else {
        1
    }
}

/// Lowercases the text of a literal; any other literal is handed back.
pub fn lowercase_literal(value: Option<IsarValue>) -> (r: Option<IsarValue>)
    ensures
        literal(r) == folded_literal(literal(value), true),
{
    match value {
        Some(v) => Some(v.to_lowercase()),
        None => None,
    }
}

/// Lowercases every text among the literals and keeps their order.
pub fn lowercase_literals(values: Vec<Option<IsarValue>>) -> (r: Vec<Option<IsarValue>>)
    ensures
        folded_literals(r@, false) == folded_literals(values@, true),
{
    let ghost given = values@;
    let mut values = values;
    let mut back: Vec<Option<IsarValue>> = Vec::new();
    while values.len() > 0
        invariant
            values.len() + back.len() == given.len(),
            values@ == given.take(values.len() as int),
            forall|j: int|
                0 <= j < back.len() ==> literal(#[trigger] back@[j]) == folded_literal(
                    literal(given[given.len() - 1 - j]),
                    true,
                ),
        decreases values.len(),
    {
        let v = values.pop().unwrap();
        back.push(lowercase_literal(v));
        assert(values@ =~= given.take(values.len() as int));
    }
    let ghost turned = back@;
    let mut out: Vec<Option<IsarValue>> = Vec::new();
    while back.len() > 0
        invariant
            back.len() + out.len() == given.len(),
            turned.len() == given.len(),
            back@ == turned.take(back.len() as int),
            forall|j: int|
                0 <= j < turned.len() ==> literal(#[trigger] turned[j]) == folded_literal(
                    literal(given[given.len() - 1 - j]),
                    true,
                ),
            forall|j: int|
                0 <= j < out.len() ==> literal(#[trigger] out@[j]) == folded_literal(
                    literal(given[j]),
                    true,
                ),
        decreases back.len(),
    {
        let ghost m = back.len() - 1;
        let v = back.pop().unwrap();
        assert(v == turned[m]);
        out.push(v);
        assert(back@ =~= turned.take(back.len() as int));
    }
    assert(folded_literals(out@, false) =~= folded_literals(given, true)) by {
        assert forall|i: int| 0 <= i < out.len() implies folded_literal(literal(out@[i]), false)
            == folded_literal(literal(given[i]), true) by {
            assert(literal(out@[i]) == folded_literal(literal(given[i]), true));
            lemma_fold_none(literal(out@[i]));
        }
    }
    out
}

/// Folding with the flag unset changes nothing.
pub proof fn lemma_fold_none(l: Option<Value>)
    ensures
        folded_literal(l, false) == l,
{
    match l {
        Some(v) => {
            assert(folded(v, false) == v);
        },
        None => {},
    }
}

impl FilterCondition {
    /// A comparison with the literals as given.
    pub fn new(
        property_index: u16,
        condition_type: ConditionType,
        values: Vec<Option<IsarValue>>,
        case_sensitive: bool,
    ) -> (r: Self)
        ensures
            r == (FilterCondition { property_index, condition_type, values, case_sensitive }),
    {
        Self { property_index, condition_type, values, case_sensitive }
    }

    /// The comparison has the number of literals that its type takes.
    pub open spec fn well_formed(self) -> bool {
        self.values@.len() == literal_count(self.condition_type)
    }
}

impl FilterJson {
    /// A comparison along a path. Where `case_sensitive` is false every text
    /// literal is put in lowercase; the others, and all of them where it is
    /// true, are kept as given.
    pub fn new(
        property_index: u16,
        path: Vec<String>,
        condition_type: ConditionType,
        values: Vec<Option<IsarValue>>,
        case_sensitive: bool,
    ) -> (r: Self)
        ensures
            r.property_index == property_index,
            r.path == path,
            r.condition_type == condition_type,
            r.case_sensitive == case_sensitive,
            case_sensitive ==> r.values == values,
            folded_literals(r.values@, false) == folded_literals(values@, !case_sensitive),
    {
        let values = if case_sensitive {
            values
        } else {
            lowercase_literals(values)
        };
        Self { property_index, path, condition_type, values, case_sensitive }
    }

    /// The comparison has the number of literals that its type takes.
    pub open spec fn well_formed(self) -> bool {
        self.values@.len() == literal_count(self.condition_type)
    }
}

impl FilterEmbedded {
    /// A filter on the embedded object at `property_index`.
    pub fn new(property_index: u16, filter: Filter) -> (r: Self)
        ensures
            r == (FilterEmbedded { property_index, filter: Box::new(filter) }),
    {
        FilterEmbedded { property_index, filter: Box::new(filter) }
    }
}

impl Filter {
    /// A leaf that compares a property with literals.
    pub fn new_condition(
        property_index: u16,
        condition_type: ConditionType,
        values: Vec<Option<IsarValue>>,
        case_sensitive: bool,
    ) -> (r: Self)
        ensures
            r == Filter::Condition(
                FilterCondition { property_index, condition_type, values, case_sensitive },
            ),
    {
        Filter::Condition(FilterCondition::new(property_index, condition_type, values, case_sensitive))
    }

    /// A leaf that compares what a path reaches inside a property. Where
    /// `case_sensitive` is false every text literal is put in lowercase.
    pub fn new_json(
        property_index: u16,
        path: Vec<String>,
        condition_type: ConditionType,
        values: Vec<Option<IsarValue>>,
        case_sensitive: bool,
    ) -> (r: Self)
        ensures
            r is Json,
            r->Json_0.property_index == property_index,
            r->Json_0.path == path,
            r->Json_0.condition_type == condition_type,
            r->Json_0.case_sensitive == case_sensitive,
            case_sensitive ==> r->Json_0.values == values,
            folded_literals(r->Json_0.values@, false) == folded_literals(values@, !case_sensitive),
    {
        Filter::Json(FilterJson::new(property_index, path, condition_type, values, case_sensitive))
    }

    /// A filter on the embedded object at `property_index`.
    pub fn new_embedded(property_index: u16, filter: Filter) -> (r: Self)
        ensures
            r == Filter::Embedded(FilterEmbedded { property_index, filter: Box::new(filter) }),
    {
        Filter::Embedded(FilterEmbedded::new(property_index, filter))
    }

    /// The conjunction of `filters`.
    pub fn new_and(filters: Vec<Filter>) -> (r: Self)
        ensures
            r == Filter::And(filters),
    {
        Filter::And(filters)
    }

    /// The disjunction of `filters`.
    pub fn new_or(filters: Vec<Filter>) -> (r: Self)
        ensures
            r == Filter::Or(filters),
    {
        Filter::Or(filters)
    }

    /// The negation of `filter`.
    pub fn new_not(filter: Filter) -> (r: Self)
        ensures
            r == Filter::Not(Box::new(filter)),
    {
        Filter::Not(Box::new(filter))
    }

    /// Every leaf of the tree has the number of literals that its comparison
    /// takes.
    pub open spec fn well_formed(self) -> bool
        decreases self,
    {
        match self {
            Filter::Condition(c) => c.well_formed(),
            Filter::Json(c) => c.well_formed(),
            Filter::Embedded(e) => e.filter.well_formed(),
            Filter::And(fs) => forall|i: int| 0 <= i < fs.len() ==> (#[trigger] fs[i]).well_formed(),
            Filter::Or(fs) => forall|i: int| 0 <= i < fs.len() ==> (#[trigger] fs[i]).well_formed(),
            Filter::Not(f) => f.well_formed(),
        }
    }

    /// Whether every leaf of the tree has the number of literals that its
    /// comparison takes.
    pub fn is_well_formed(&self) -> (r: bool)
        ensures
            r == self.well_formed(),
        decreases self,
    {
        match self {
            Filter::Condition(c) => c.values.len() == expected_literals(c.condition_type),
            Filter::Json(c) => c.values.len() == expected_literals(c.condition_type),
            Filter::Embedded(e) => e.filter.is_well_formed(),
            Filter::And(fs) => all_well_formed(fs),
            Filter::Or(fs) => all_well_formed(fs),
            Filter::Not(f) => f.is_well_formed(),
        }
    }
}

/// Two paths have the same segments.
pub open spec fn same_path(a: Seq<String>, b: Seq<String>) -> bool {
    a.len() == b.len() && forall|i: int| 0 <= i < a.len() ==> (#[trigger] a[i])@ == b[i]@
}

/// Two lists hold the same literals.
pub open spec fn same_literals(a: Seq<Option<IsarValue>>, b: Seq<Option<IsarValue>>) -> bool {
    a.len() == b.len() && forall|i: int| 0 <= i < a.len() ==> literal(#[trigger] a[i]) == literal(b[i])
}

/// Two filters are the same tree: node by node the same kind, the same
/// property, comparison and flag, the same path and the same literals.
pub open spec fn same_filter(a: Filter, b: Filter) -> bool
    decreases a,
{
    match (a, b) {
        (Filter::Condition(x), Filter::Condition(y)) => {
            &&& x.property_index == y.property_index
            &&& x.condition_type == y.condition_type
            &&& x.case_sensitive == y.case_sensitive
            &&& same_literals(x.values@, y.values@)
        },
        (Filter::Json(x), Filter::Json(y)) => {
            &&& x.property_index == y.property_index
            &&& x.condition_type == y.condition_type
            &&& x.case_sensitive == y.case_sensitive
            &&& same_path(x.path@, y.path@)
            &&& same_literals(x.values@, y.values@)
        },
        (Filter::Embedded(x), Filter::Embedded(y)) => {
            &&& x.property_index == y.property_index
            &&& same_filter(*x.filter, *y.filter)
        },
        (Filter::And(xs), Filter::And(ys)) => {
            &&& xs.len() == ys.len()
            &&& forall|i: int| 0 <= i < xs.len() ==> same_filter(#[trigger] xs[i], ys[i])
        },
        (Filter::Or(xs), Filter::Or(ys)) => {
            &&& xs.len() == ys.len()
            &&& forall|i: int| 0 <= i < xs.len() ==> same_filter(#[trigger] xs[i], ys[i])
        },
        (Filter::Not(x), Filter::Not(y)) => same_filter(*x, *y),
        _ => false,
    }
}

/// A copy of the literals of a leaf.
pub fn copy_literals(values: &Vec<Option<IsarValue>>) -> (r: Vec<Option<IsarValue>>)
    ensures
        same_literals(values@, r@),
{
    let mut out: Vec<Option<IsarValue>> = Vec::new();
    let mut i: usize = 0;
    while i < values.len()
        invariant
            i <= values.len(),
            out.len() == i,
            forall|j: int| 0 <= j < i ==> literal(#[trigger] values@[j]) == literal(out@[j]),
        decreases values.len() - i,
    {
        let v = match &values[i] {
            Some(x) => Some(x.clone()),
            None => None,
        };
        out.push(v);
        i += 1;
    }
    out
}

/// A copy of a path.
pub fn copy_path(path: &Vec<String>) -> (r: Vec<String>)
    ensures
        same_path(path@, r@),
{
    let mut out: Vec<String> = Vec::new();
    let mut i: usize = 0;
    while i < path.len()
        invariant
            i <= path.len(),
            out.len() == i,
            forall|j: int| 0 <= j < i ==> (#[trigger] path@[j])@ == out@[j]@,
        decreases path.len() - i,
    {
        out.push(path[i].clone());
        i += 1;
    }
    out
}

impl Clone for FilterCondition {
    /// A copy that is the same leaf.
    fn clone(&self) -> (r: Self)
        ensures
            r.property_index == self.property_index,
            r.condition_type == self.condition_type,
            r.case_sensitive == self.case_sensitive,
            same_literals(self.values@, r.values@),
    {
        FilterCondition {
            property_index: self.property_index,
            condition_type: self.condition_type,
            values: copy_literals(&self.values),
            case_sensitive: self.case_sensitive,
        }
    }
}

impl Clone for FilterJson {
    /// A copy that is the same leaf.
    fn clone(&self) -> (r: Self)
        ensures
            r.property_index == self.property_index,
            r.condition_type == self.condition_type,
            r.case_sensitive == self.case_sensitive,
            same_path(self.path@, r.path@),
            same_literals(self.values@, r.values@),
    {
        FilterJson {
            property_index: self.property_index,
            path: copy_path(&self.path),
            condition_type: self.condition_type,
            values: copy_literals(&self.values),
            case_sensitive: self.case_sensitive,
        }
    }
}

impl Clone for FilterEmbedded {
    /// A copy that is the same filter on the same property.
    fn clone(&self) -> (r: Self)
        ensures
            r.property_index == self.property_index,
            same_filter(*self.filter, *r.filter),
    {
        FilterEmbedded { property_index: self.property_index, filter: Box::new(copy_of(&self.filter)) }
    }
}

impl Clone for Filter {
    /// A copy that is the same tree.
    fn clone(&self) -> (r: Self)
        ensures
            same_filter(*self, r),
    {
        copy_of(self)
    }
}

/// A copy of a filter, node by node.
pub fn copy_of(filter: &Filter) -> (r: Filter)
    ensures
        same_filter(*filter, r),
    decreases filter,
{
    match filter {
        Filter::Condition(c) => Filter::Condition(c.clone()),
        Filter::Json(c) => Filter::Json(c.clone()),
        Filter::Embedded(e) => Filter::Embedded(
            FilterEmbedded { property_index: e.property_index, filter: Box::new(copy_of(&e.filter)) },
        ),
        Filter::And(fs) => Filter::And(copies_of(fs)),
        Filter::Or(fs) => Filter::Or(copies_of(fs)),
        Filter::Not(f) => Filter::Not(Box::new(copy_of(f))),
    }
}

/// Copies of filters, in their order.
pub fn copies_of(filters: &Vec<Filter>) -> (r: Vec<Filter>)
    ensures
        r.len() == filters.len(),
        forall|i: int| 0 <= i < filters.len() ==> same_filter(#[trigger] filters[i], r[i]),
    decreases filters,
{
    let mut out: Vec<Filter> = Vec::new();
    let mut i: usize = 0;
    while i < filters.len()
        invariant
            i <= filters.len(),
            out.len() == i,
            forall|j: int| 0 <= j < i ==> same_filter(#[trigger] filters[j], out[j]),
        decreases filters.len() - i,
    {
        out.push(copy_of(&filters[i]));
        i += 1;
    }
    out
}

/// The number of literals that a comparison takes.
pub fn expected_literals(condition_type: ConditionType) -> (n: usize)
    ensures
        n == literal_count(condition_type),
{
    match condition_type {
        ConditionType::Between => 2,
        _ => 1,
    }
}

/// Whether each of `filters` is well formed.
pub fn all_well_formed(filters: &Vec<Filter>) -> (r: bool)
    ensures
        r == (forall|i: int| 0 <= i < filters.len() ==> (#[trigger] filters[i]).well_formed()),
    decreases filters,
{
    let mut i: usize = 0;
    while i < filters.len()
        invariant
            i <= filters.len(),
            forall|j: int| 0 <= j < i ==> (#[trigger] filters[j]).well_formed(),
        decreases filters.len() - i,
    {
        if !filters[i].is_well_formed() {
            return false;
        }
        i += 1;
    }
    true
}

} // verus!
