//! Records as the evaluation reads them: properties by index, embedded
//! objects, and nested structures reached by a path of segments.

use vstd::prelude::*;
use crate::text::{chars_of, text_equal};
use crate::value::{IsarValue, Value};

verus! {

/// A nested structure of values, arrays and keyed objects.
#[derive(Debug, PartialEq)]
pub enum JsonValue {
    Scalar(IsarValue),
    Array(Vec<JsonValue>),
    Object(Vec<JsonField>),
}

/// One entry of an object. Where a key stands twice, the first entry counts.
#[derive(Debug, PartialEq)]
pub struct JsonField {
    pub key: String,
    pub value: JsonValue,
}

/// What a record holds at one property index.
#[derive(Debug, PartialEq)]
pub enum Property {
    Value(IsarValue),
    List(Vec<IsarValue>),
    Embedded(Record),
    Json(JsonValue),
}

/// A snapshot of one record: its properties, by index.
#[derive(Debug, PartialEq)]
pub struct Record {
    pub properties: Vec<Property>,
}

/// What a leaf of a filter is judged on: one value, or the elements of a list.
pub ghost enum Resolved {
    One(Value),
    Many(Seq<Value>),
}

/// A decimal digit.
pub open spec fn is_digit(c: char) -> bool {
    48 <= c as u32 <= 57
}

/// The number that a digit stands for; 0 for any other character.
pub open spec fn digit_value(c: char) -> nat {
    if is_digit(c) {
        (c as u32 - 48) as nat
    } else {
        0
    }
}

/// The number that a run of decimal digits writes.
pub open spec fn decimal_value(s: Seq<char>) -> nat
    decreases s.len(),
{
    if s.len() == 0 {
        0
    } else {
        decimal_value(s.drop_last()) * 10 + digit_value(s.last())
    }
}

/// The array index that a path segment writes: the segment is a non-empty run
/// of decimal digits.
pub open spec fn array_index(seg: Seq<char>) -> Option<nat> {
    if seg.len() > 0 && (forall|i: int| 0 <= i < seg.len() ==> is_digit(#[trigger] seg[i])) {
        Some(decimal_value(seg))
    } else {
        None
    }
}

/// Entry `i` is the first of `fields` with the key `key`.
pub open spec fn first_with_key(fields: Seq<JsonField>, key: Seq<char>, i: int) -> bool {
    &&& 0 <= i < fields.len()
    &&& fields[i].key@ == key
    &&& forall|j: int| 0 <= j < i ==> (#[trigger] fields[j]).key@ != key
}

/// Some entry of `fields` has the key `key`.
pub open spec fn has_key(fields: Seq<JsonField>, key: Seq<char>) -> bool {
    exists|i: int| first_with_key(fields, key, i)
}

/// The position of the first entry of `fields` with the key `key`.
pub open spec fn key_position(fields: Seq<JsonField>, key: Seq<char>) -> int {
    choose|i: int| first_with_key(fields, key, i)
}

/// One step into a nested structure: an array is entered by an index within
/// its length, an object by the key of one of its entries, a scalar not at all.
pub open spec fn json_step(j: JsonValue, seg: Seq<char>) -> Option<JsonValue> {
    match j {
        JsonValue::Scalar(_) => None,
        JsonValue::Array(a) => match array_index(seg) {
            Some(n) => if n < a.len() {
                Some(a[n as int])
            } else {
                None
            },
            None => None,
        },
        JsonValue::Object(fields) => if has_key(fields@, seg) {
            Some(fields@[key_position(fields@, seg)].value)
        } else {
            None
        },
    }
}

/// The structure reached from `j` by the segments of `path` from position
/// `from` on, or `None` where a segment leads nowhere.
pub open spec fn json_resolve(j: JsonValue, path: Seq<String>, from: int) -> Option<JsonValue>
    decreases path.len() - from,
{
    if from < 0 || from >= path.len() {
        Some(j)
    } else {
        match json_step(j, path[from]@) {
            None => None,
            Some(inner) => json_resolve(inner, path, from + 1),
        }
    }
}

/// The value that a nested structure is compared as.
pub open spec fn json_value(j: JsonValue) -> Value {
    match j {
        JsonValue::Scalar(v) => v@,
        _ => Value::Composite,
    }
}

/// The values of a list property.
pub open spec fn list_values(vs: Seq<IsarValue>) -> Seq<Value> {
    Seq::new(vs.len(), |i: int| vs[i]@)
}

/// The values of the elements of an array.
pub open spec fn array_values(a: Seq<JsonValue>) -> Seq<Value> {
    Seq::new(a.len(), |i: int| json_value(a[i]))
}

/// The property of a record at an index; `None` for a record that is absent
/// and for an index that the record does not have.
pub open spec fn property_at(rec: Option<Record>, index: u16) -> Option<Property> {
    match rec {
        Some(r) => if (index as int) < r.properties.len() {
            Some(r.properties[index as int])
        } else {
            None
        },
        None => None,
    }
}

/// What a leaf with this property index and path is judged on. Whatever
/// cannot be found is null: a missing record or index, a path that leads
/// nowhere, a path into what is no nested structure.
pub open spec fn resolve(rec: Option<Record>, index: u16, path: Seq<String>) -> Resolved {
    match property_at(rec, index) {
        None => Resolved::One(Value::Null),
        Some(Property::Json(j)) => match json_resolve(j, path, 0) {
            None => Resolved::One(Value::Null),
            Some(JsonValue::Array(a)) => Resolved::Many(array_values(a@)),
            Some(inner) => Resolved::One(json_value(inner)),
        },
        Some(p) => if path.len() > 0 {
            Resolved::One(Value::Null)
        } else {
            match p {
                Property::Value(v) => Resolved::One(v@),
                Property::List(vs) => Resolved::Many(list_values(vs@)),
                _ => Resolved::One(Value::Composite),
            }
        },
    }
}

/// The embedded object at a property index, if the record holds one there.
pub open spec fn embedded_at(rec: Option<Record>, index: u16) -> Option<Record> {
    match property_at(rec, index) {
        Some(Property::Embedded(r)) => Some(r),
        _ => None,
    }
}

/// A prefix of a text writes no larger a number than the whole.
pub proof fn lemma_decimal_prefix(s: Seq<char>, k: int)
    requires
        0 <= k <= s.len(),
    ensures
        decimal_value(s.take(k)) <= decimal_value(s),
    decreases s.len() - k,
{
    if k == s.len() {
        assert(s.take(k) =~= s);
    } else {
        lemma_decimal_prefix(s.drop_last(), k);
        assert(s.drop_last().take(k) =~= s.take(k));
        assert(decimal_value(s.drop_last()) * 10 >= decimal_value(s.drop_last()))
            by (nonlinear_arith);
    }
}

/// The element of an array of `len` elements that a path segment addresses.
pub fn element_index(len: usize, seg: &str) -> (r: Option<usize>)
    ensures
        r == (match array_index(seg@) {
            Some(n) => if n < len {
                Some(n as usize)
            } else {
                None
            },
            None => None,
        }),
{
    let cs = chars_of(seg);
    if cs.len() == 0 {
        return None;
    }
    let mut all: bool = true;
    let mut i: usize = 0;
    while i < cs.len()
        invariant
            i <= cs.len(),
            all == (forall|k: int| 0 <= k < i ==> is_digit(#[trigger] cs@[k])),
        decreases cs.len() - i,
    {
        let c = cs[i];
        if !(48 <= c as u32 && c as u32 <= 57) {
            all = false;
        }
        i += 1;
    }
    if !all || len == 0 {
        return None;
    }
    let mut acc: usize = 0;
    let mut i: usize = 0;
    while i < cs.len()
        invariant
            i <= cs.len(),
            cs@ == seg@,
            forall|k: int| 0 <= k < cs.len() ==> is_digit(#[trigger] cs@[k]),
            acc == decimal_value(cs@.take(i as int)),
            acc < len,
        decreases cs.len() - i,
    {
        let d: u128 = (cs[i] as u32 - 48) as u128;
        let next: u128 = acc as u128 * 10 + d;
        proof {
            assert(cs@.take(i + 1).drop_last() =~= cs@.take(i as int));
            assert(cs@.take(i + 1).last() == cs@[i as int]);
            assert(next == decimal_value(cs@.take(i + 1)));
            lemma_decimal_prefix(cs@, i + 1);
        }
        if next >= len as u128 {
            return None;
        }
        acc = next as usize;
        i += 1;
    }
    assert(cs@.take(cs.len() as int) =~= cs@);
    Some(acc)
}

impl JsonValue {
    /// One step into the structure by a path segment.
    pub fn step(&self, seg: &str) -> (r: Option<&JsonValue>)
        ensures
            r == (match json_step(*self, seg@) {
                Some(inner) => Some(&inner),
                None => None,
            }),
    {
        match self {
            JsonValue::Scalar(_) => None,
            JsonValue::Array(a) => match element_index(a.len(), seg) {
                Some(n) => Some(&a[n]),
                None => None,
            },
            JsonValue::Object(fields) => {
                let key = chars_of(seg);
                let mut i: usize = 0;
                while i < fields.len()
                    invariant
                        i <= fields.len(),
                        key@ == seg@,
                        *self == JsonValue::Object(*fields),
                        forall|j: int| 0 <= j < i ==> (#[trigger] fields@[j]).key@ != seg@,
                    decreases fields.len() - i,
                {
                    let k = chars_of(fields[i].key.as_str());
                    if text_equal(&k, &key) {
                        proof {
                            assert(first_with_key(fields@, seg@, i as int));
                            assert(key_position(fields@, seg@) == i);
                        }
                        return Some(&fields[i].value);
                    }
                    i += 1;
                }
                assert(forall|c: int| !first_with_key(fields@, seg@, c));
                assert(!has_key(fields@, seg@));
                None
            },
        }
    }

    /// The structure reached by a path, or `None` where a segment leads nowhere.
    pub fn resolve_path(&self, path: &Vec<String>) -> (r: Option<&JsonValue>)
        ensures
            r == (match json_resolve(*self, path@, 0) {
                Some(inner) => Some(&inner),
                None => None,
            }),
    {
        let mut cur: &JsonValue = self;
        let mut i: usize = 0;
        while i < path.len()
            invariant
                i <= path.len(),
                json_resolve(*self, path@, 0) == json_resolve(*cur, path@, i as int),
            decreases path.len() - i,
        {
            match cur.step(path[i].as_str()) {
                None => {
                    return None;
                },
                Some(inner) => {
                    cur = inner;
                },
            }
            i += 1;
        }
        Some(cur)
    }
}

impl Record {
    /// The property at an index, or `None` where the record has none there.
    pub fn resolve_property(&self, index: u16) -> (r: Option<&Property>)
        ensures
            r == (match property_at(Some(*self), index) {
                Some(p) => Some(&p),
                None => None,
            }),
    {
        if (index as usize) < self.properties.len() {
            Some(&self.properties[index as usize])
        } else {
            None
        }
    }
}

} // verus!
