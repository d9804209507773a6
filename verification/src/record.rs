//! Records read from JSON.
//!
//! A record is an object with named members, of which unknown ones are
//! ignored, or an array with the members in their order. A member that may be
//! absent may also be `null`.

use vstd::prelude::*;

use crate::json::{
    json_views, member, wording, wording_of, wrong_type, wrong_type_text, Json, JsonView,
};
use crate::text::{concat, concat3, decimal, decimal_of, opt_view};

verus! {

/// Whether a value can be a record of at most `n` members.
pub open spec fn is_record(json: JsonView, n: nat) -> bool {
    match json {
        JsonView::Object(_) => true,
        JsonView::Array(items) => items.len() <= n,
        _ => false,
    }
}

/// The member `name` of a record, which is the one at `index` in an array.
pub open spec fn part(json: JsonView, index: int, name: Seq<char>) -> Option<JsonView> {
    match json {
        JsonView::Array(items) => if index < items.len() {
            Some(items[index])
        } else {
            None
        },
        _ => member(json, name),
    }
}

/// A text that has to be there.
pub open spec fn text_at(json: JsonView, index: int, name: Seq<char>) -> Option<Seq<char>> {
    match part(json, index, name) {
        Some(JsonView::Text(text)) => Some(text),
        _ => None,
    }
}

/// A text that may be absent.
pub open spec fn opt_text_at(json: JsonView, index: int, name: Seq<char>) -> Option<
    Option<Seq<char>>,
> {
    match part(json, index, name) {
        None => Some(None),
        Some(JsonView::Null) => Some(None),
        Some(JsonView::Text(text)) => Some(Some(text)),
        _ => None,
    }
}

/// An unsigned number that has to be there and fit 32 bits.
pub open spec fn count_at(json: JsonView, index: int, name: Seq<char>) -> Option<u32> {
    match part(json, index, name) {
        Some(JsonView::Unsigned(n)) => if n <= u32::MAX {
            Some(n as u32)
        } else {
            None
        },
        _ => None,
    }
}

/// All items read by `read`, when it can read each of them.
pub open spec fn read_all<V>(items: Seq<JsonView>, read: spec_fn(JsonView) -> Option<V>) -> Option<
    Seq<V>,
>
    decreases items.len(),
{
    if items.len() == 0 {
        Some(Seq::empty())
    } else {
        match (read_all(items.drop_last(), read), read(items.last())) {
            (Some(values), Some(value)) => Some(values.push(value)),
            _ => None,
        }
    }
}

/// A list that was read has a value for each item, the one that the item reads
/// as.
pub proof fn law_each_item_is_read<V>(items: Seq<JsonView>, read: spec_fn(JsonView) -> Option<V>)
    ensures
        read_all(items, read) matches Some(values) ==> values.len() == items.len() && forall|i: int|
            0 <= i < items.len() ==> read(#[trigger] items[i]) == Some(values[i]),
        (forall|i: int| 0 <= i < items.len() ==> read(#[trigger] items[i]) is Some) ==> read_all(
            items,
            read,
        ) is Some,
    decreases items.len(),
{
    if items.len() > 0 {
        let rest = items.drop_last();
        law_each_item_is_read(rest, read);
        if read_all(items, read) is Some {
            let values = read_all(items, read)->0;
            assert forall|i: int| 0 <= i < items.len() implies read(#[trigger] items[i]) == Some(
                values[i],
            ) by {
                if i < rest.len() {
                    assert(rest[i] == items[i]);
                }
            }
        }
        if forall|i: int| 0 <= i < items.len() ==> read(#[trigger] items[i]) is Some {
            assert forall|i: int| 0 <= i < rest.len() implies read(#[trigger] rest[i]) is Some by {
                assert(rest[i] == items[i]);
            }
            assert(read(items[items.len() - 1]) is Some);
        }
    }
}

pub proof fn lemma_unreadable<V>(
    items: Seq<JsonView>,
    read: spec_fn(JsonView) -> Option<V>,
    n: int,
)
    requires
        0 <= n <= items.len(),
        read_all(items.take(n), read) is None,
    ensures
        read_all(items, read) is None,
    decreases items.len() - n,
{
    if n == items.len() {
        assert(items.take(n) =~= items);
    } else {
        assert(items.take(n + 1).drop_last() =~= items.take(n));
        lemma_unreadable(items, read, n + 1);
    }
}

pub(crate) fn is_record_of(json: &Json, n: usize) -> (r: bool)
    ensures
        r == is_record(json@, n as nat),
{
    match json.as_array() {
        Some(items) => {
            assert(json_views(items@).len() == items@.len());
            items.len() <= n
        },
        None => json.as_object().is_some(),
    }
}

pub(crate) fn part_of<'a>(json: &'a Json, index: usize, name: &str) -> (r: Option<&'a Json>)
    ensures
        match r {
            Some(value) => part(json@, index as int, name@) == Some(value@),
            None => part(json@, index as int, name@) is None,
        },
{
    match json.as_array() {
        Some(items) => {
            assert(json_views(items@).len() == items@.len());
            if index < items.len() {
                assert(json_views(items@)[index as int] == items@[index as int]@);
                Some(&items[index])
            } else {
                None
            }
        },
        None => json.get(name),
    }
}

pub(crate) fn text_of(json: &Json, index: usize, name: &str) -> (r: Option<String>)
    ensures
        opt_view(r) == text_at(json@, index as int, name@),
{
    match part_of(json, index, name) {
        Some(value) => match value.as_str() {
            Some(text) => Some(text.to_owned()),
            None => None,
        },
        None => None,
    }
}

/// An optional text that was read, by its characters.
pub open spec fn opt_opt_view(text: Option<Option<String>>) -> Option<Option<Seq<char>>> {
    match text {
        Some(text) => Some(opt_view(text)),
        None => None,
    }
}

pub(crate) fn opt_text_of(json: &Json, index: usize, name: &str) -> (r: Option<Option<String>>)
    ensures
        opt_opt_view(r) == opt_text_at(json@, index as int, name@),
{
    match part_of(json, index, name) {
        Some(value) => if value.is_null() {
            Some(None)
        } else {
            match value.as_str() {
                Some(text) => Some(Some(text.to_owned())),
                None => None,
            }
        },
        None => Some(None),
    }
}

pub(crate) fn count_of(json: &Json, index: usize, name: &str) -> (r: Option<u32>)
    ensures
        r == count_at(json@, index as int, name@),
{
    match part_of(json, index, name) {
        Some(value) => match value.as_u64() {
            Some(n) => if n <= 0xffff_ffff {
                Some(n as u32)
            } else {
                None
            },
            None => None,
        },
        None => None,
    }
}

/// What a member of a record has to be.
#[derive(Debug, Clone, Copy, PartialEq, Eq, Structural)]
pub enum Shape {
    /// Any value.
    Value,
    /// Any value, or none.
    OptionalValue,
    Text,
    /// A text, or none.
    OptionalText,
    /// An object.
    Members,
}

/// The names of members and what they have to be.
pub open spec fn field_views(fields: Seq<(&str, Shape)>) -> Seq<(Seq<char>, Shape)> {
    fields.map_values(|f: (&str, Shape)| (f.0@, f.1))
}

/// What is wrong with the value of a member.
pub open spec fn shape_fault(shape: Shape, value: JsonView) -> Option<Seq<char>> {
    match (shape, value) {
        (Shape::Text, JsonView::Text(_)) => None,
        (Shape::Text, _) => Some(wrong_type(wording(value), "a string"@)),
        (Shape::OptionalText, JsonView::Null) => None,
        (Shape::OptionalText, JsonView::Text(_)) => None,
        (Shape::OptionalText, _) => Some(wrong_type(wording(value), "a string"@)),
        (Shape::Members, JsonView::Object(_)) => None,
        (Shape::Members, _) => Some(wrong_type(wording(value), "a map"@)),
        _ => None,
    }
}

/// The error for an array of the wrong length.
pub open spec fn wrong_length(len: nat, expected: Seq<char>) -> Seq<char> {
    "invalid length "@ + decimal(len) + ", expected "@ + expected
}

/// A record's name and size, as an error gives them.
pub open spec fn sized_record(name: Seq<char>, n: nat) -> Seq<char> {
    if n == 1 {
        "struct "@ + name + " with 1 element"@
    } else {
        "struct "@ + name + " with "@ + decimal(n) + " elements"@
    }
}

/// The first thing that is wrong with an array, from the item at `i` on: an
/// item of the wrong shape, one that is not there, or one too many.
pub open spec fn items_fault(
    name: Seq<char>,
    fields: Seq<(Seq<char>, Shape)>,
    items: Seq<JsonView>,
    i: nat,
) -> Option<Seq<char>>
    decreases fields.len() - i,
{
    if i >= fields.len() {
        if items.len() > fields.len() {
            Some(wrong_length(items.len(), "fewer elements in array"@))
        } else {
            None
        }
    } else if i >= items.len() {
        Some(wrong_length(i, sized_record(name, fields.len())))
    } else if shape_fault(fields[i as int].1, items[i as int]) is Some {
        shape_fault(fields[i as int].1, items[i as int])
    } else {
        items_fault(name, fields, items, i + 1)
    }
}

/// The first member of the wrong shape, from the field at `i` on.
pub open spec fn members_fault(
    fields: Seq<(Seq<char>, Shape)>,
    json: JsonView,
    i: nat,
) -> Option<Seq<char>>
    decreases fields.len() - i,
{
    if i >= fields.len() {
        None
    } else {
        match member(json, fields[i as int].0) {
            Some(value) => if shape_fault(fields[i as int].1, value) is Some {
                shape_fault(fields[i as int].1, value)
            } else {
                members_fault(fields, json, i + 1)
            },
            None => members_fault(fields, json, i + 1),
        }
    }
}

/// The first member that is missing, from the field at `i` on.
pub open spec fn missing_fault(
    fields: Seq<(Seq<char>, Shape)>,
    json: JsonView,
    i: nat,
) -> Option<Seq<char>>
    decreases fields.len() - i,
{
    if i >= fields.len() {
        None
    } else {
        let (name, shape) = fields[i as int];
        if member(json, name) is None && !(shape is OptionalValue || shape is OptionalText) {
            Some("missing field `"@ + name + "`"@)
        } else {
            missing_fault(fields, json, i + 1)
        }
    }
}

/// What is wrong with a value that has to be the record `name`. The members of
/// an object are read in the order of their names, `by_name`; which of them are
/// missing is looked for afterwards, in the order of the record.
pub open spec fn record_fault(
    name: Seq<char>,
    fields: Seq<(Seq<char>, Shape)>,
    by_name: Seq<(Seq<char>, Shape)>,
    json: JsonView,
) -> Option<Seq<char>> {
    match json {
        JsonView::Array(items) => items_fault(name, fields, items, 0),
        JsonView::Object(_) => match members_fault(by_name, json, 0) {
            Some(fault) => Some(fault),
            None => missing_fault(fields, json, 0),
        },
        _ => Some(wrong_type(wording(json), "struct "@ + name)),
    }
}

fn shape_fault_of(shape: Shape, value: &Json) -> (r: Option<String>)
    ensures
        opt_view(r) == shape_fault(shape, value@),
{
    match shape {
        Shape::Value => None,
        Shape::OptionalValue => None,
        Shape::Text => if value.as_str().is_some() {
            None
        } else {
            Some(wrong_type_text(wording_of(value).as_str(), "a string"))
        },
        Shape::OptionalText => if value.is_null() || value.as_str().is_some() {
            None
        } else {
            Some(wrong_type_text(wording_of(value).as_str(), "a string"))
        },
        Shape::Members => if value.as_object().is_some() {
            None
        } else {
            Some(wrong_type_text(wording_of(value).as_str(), "a map"))
        },
    }
}

fn wrong_length_of(len: usize, expected: &str) -> (r: String)
    ensures
        r@ == wrong_length(len as nat, expected@),
{
    let head = concat3("invalid length ", decimal_of(len as u128).as_str(), ", expected ");
    concat(head.as_str(), expected)
}

fn sized_record_of(name: &str, n: usize) -> (r: String)
    ensures
        r@ == sized_record(name@, n as nat),
{
    if n == 1 {
        concat3("struct ", name, " with 1 element")
    } else {
        let head = concat3("struct ", name, " with ");
        concat3(head.as_str(), decimal_of(n as u128).as_str(), " elements")
    }
}

fn items_fault_of(name: &str, fields: &[(&str, Shape)], items: &Vec<Json>) -> (r: Option<String>)
    ensures
        opt_view(r) == items_fault(name@, field_views(fields@), json_views(items@), 0),
{
    let ghost all = field_views(fields@);
    let ghost values = json_views(items@);
    let mut i: usize = 0;
    while i < fields.len()
        invariant
            i <= fields@.len(),
            all == field_views(fields@),
            values == json_views(items@),
            items_fault(name@, all, values, 0) == items_fault(name@, all, values, i as nat),
        decreases fields@.len() - i,
    {
        if i >= items.len() {
            let record = sized_record_of(name, fields.len());
            return Some(wrong_length_of(i, record.as_str()));
        }
        assert(all[i as int].1 == fields@[i as int].1);
        assert(values[i as int] == items@[i as int]@);
        let fault = shape_fault_of(fields[i].1, &items[i]);
        if fault.is_some() {
            return fault;
        }
        i = i + 1;
    }
    if items.len() > fields.len() {
        Some(wrong_length_of(items.len(), "fewer elements in array"))
    } else {
        None
    }
}

fn members_fault_of(fields: &[(&str, Shape)], json: &Json) -> (r: Option<String>)
    ensures
        opt_view(r) == members_fault(field_views(fields@), json@, 0),
{
    let ghost all = field_views(fields@);
    let mut i: usize = 0;
    while i < fields.len()
        invariant
            i <= fields@.len(),
            all == field_views(fields@),
            members_fault(all, json@, 0) == members_fault(all, json@, i as nat),
        decreases fields@.len() - i,
    {
        assert(all[i as int] == (fields@[i as int].0@, fields@[i as int].1));
        if let Some(value) = json.get(fields[i].0) {
            let fault = shape_fault_of(fields[i].1, value);
            if fault.is_some() {
                return fault;
            }
        }
        i = i + 1;
    }
    None
}

fn missing_fault_of(fields: &[(&str, Shape)], json: &Json) -> (r: Option<String>)
    ensures
        opt_view(r) == missing_fault(field_views(fields@), json@, 0),
{
    let ghost all = field_views(fields@);
    let mut i: usize = 0;
    while i < fields.len()
        invariant
            i <= fields@.len(),
            all == field_views(fields@),
            missing_fault(all, json@, 0) == missing_fault(all, json@, i as nat),
        decreases fields@.len() - i,
    {
        assert(all[i as int] == (fields@[i as int].0@, fields@[i as int].1));
        let optional = match fields[i].1 {
            Shape::OptionalValue => true,
            Shape::OptionalText => true,
            _ => false,
        };
        if !optional && json.get(fields[i].0).is_none() {
            return Some(concat3("missing field `", fields[i].0, "`"));
        }
        i = i + 1;
    }
    None
}

/// What is wrong with a value that has to be the record `name`, if anything is.
pub fn record_fault_of(
    name: &str,
    fields: &[(&str, Shape)],
    by_name: &[(&str, Shape)],
    json: &Json,
) -> (r: Option<String>)
    ensures
        opt_view(r) == record_fault(
            name@,
            field_views(fields@),
            field_views(by_name@),
            json@,
        ),
{
    match json.as_array() {
        Some(items) => items_fault_of(name, fields, items),
        None => if json.as_object().is_some() {
            match members_fault_of(by_name, json) {
                Some(fault) => Some(fault),
                None => missing_fault_of(fields, json),
            }
        } else {
            let record = concat("struct ", name);
            Some(wrong_type_text(wording_of(json).as_str(), record.as_str()))
        },
    }
}

/// A value of any shape that may be absent.
pub open spec fn present(json: Option<JsonView>) -> Option<JsonView> {
    match json {
        Some(JsonView::Null) => None,
        other => other,
    }
}

/// A member of a record is the one of that name in an object, and the one at
/// its place in an array.
pub proof fn law_members_of_records(json: JsonView, items: Seq<JsonView>, i: int, name: Seq<char>)
    ensures
        json is Object ==> part(json, i, name) == member(json, name),
        0 <= i < items.len() ==> part(JsonView::Array(items), i, name) == Some(items[i]),
        i >= items.len() ==> part(JsonView::Array(items), i, name) is None,
{
}

/// A record is refused for the first thing that is wrong with it: a member of
/// the wrong shape is told with what it is and what it should be, and a member
/// that is missing with its name.
pub proof fn law_faults_tell_the_member(
    name: Seq<char>,
    field: Seq<char>,
    json: JsonView,
    value: JsonView,
)
    requires
        json is Object,
    ensures
        ({
            let fields = seq![(field, Shape::Text)];
            let fault = record_fault(name, fields, fields, json);
            &&& member(json, field) is None ==> fault == Some("missing field `"@ + field + "`"@)
            &&& member(json, field) == Some(value) && value is Text ==> fault is None
            &&& member(json, field) == Some(value) && !(value is Text) ==> fault == Some(
                "invalid type: "@ + wording(value) + ", expected "@ + "a string"@,
            )
        }),
{
    reveal_with_fuel(members_fault, 2);
    reveal_with_fuel(missing_fault, 2);
}

} // verus!
