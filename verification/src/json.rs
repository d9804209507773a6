//! JSON values. Text becomes a value, and a value text, through `serde_json`.

use vstd::prelude::*;

use crate::order::{lemma_less_irreflexive, lemma_less_total, lemma_less_transitive, less, less_of};
use crate::text::{chars_of, concat, concat3, str_eq, string_of};
use vstd::slice::slice_subrange;

verus! {

/// `serde_json::Value`, carried between the calls into `serde_json`.
#[verifier::external_type_specification]
#[verifier::external_body]
pub struct ExValue(serde_json::Value);

/// `serde_json::Number`, carried by values that hold a number other than an
/// unsigned integer.
#[verifier::external_type_specification]
#[verifier::external_body]
pub struct ExNumber(serde_json::Number);

/// `serde_json::Map`, the members of an object on their way into or out of a
/// `serde_json::Value`.
#[verifier::external_type_specification]
#[verifier::external_body]
#[verifier::reject_recursive_types(K)]
#[verifier::reject_recursive_types(V)]
pub struct ExMap<K, V>(serde_json::Map<K, V>);

/// A JSON value.
#[derive(Debug, PartialEq)]
pub struct Json {
    node: Node,
}

#[derive(Debug, PartialEq)]
enum Node {
    Null,
    Bool(bool),
    Unsigned(u64),
    Number(serde_json::Number),
    Text(String),
    Array(Vec<Json>),
    Object(JsonMap),
}

/// The members of a JSON object, or any other values under distinct names,
/// kept in the order of the names.
#[derive(Debug, PartialEq)]
pub struct JsonMap {
    entries: Vec<(String, Json)>,
}

/// What a JSON value holds. An integer from 0 to `u64::MAX` is `Unsigned`; any
/// other number is carried as it is.
pub enum JsonView {
    Null,
    Bool(bool),
    Unsigned(u64),
    Number(serde_json::Number),
    Text(Seq<char>),
    Array(Seq<JsonView>),
    Object(Map<Seq<char>, JsonView>),
}

spec fn entry_at(entries: Seq<(String, Json)>, key: Seq<char>) -> int {
    choose|i: int| 0 <= i < entries.len() && (#[trigger] entries[i]).0@ == key
}

spec fn has_entry(entries: Seq<(String, Json)>, key: Seq<char>) -> bool {
    exists|i: int| 0 <= i < entries.len() && (#[trigger] entries[i]).0@ == key
}

spec fn json_view(json: Json) -> JsonView
    decreases json,
{
    match json.node {
        Node::Null => JsonView::Null,
        Node::Bool(b) => JsonView::Bool(b),
        Node::Unsigned(n) => JsonView::Unsigned(n),
        Node::Number(n) => JsonView::Number(n),
        Node::Text(s) => JsonView::Text(s@),
        Node::Array(items) => JsonView::Array(
            Seq::new(
                items@.len(),
                |i: int|
                    if 0 <= i < items@.len() {
                        json_view(items@[i])
                    } else {
                        JsonView::Null
                    },
            ),
        ),
        Node::Object(map) => JsonView::Object(
            Map::new(
                |key: Seq<char>| has_entry(map.entries@, key),
                |key: Seq<char>|
                    {
                        let i = entry_at(map.entries@, key);
                        if 0 <= i < map.entries@.len() {
                            json_view(map.entries@[i].1)
                        } else {
                            JsonView::Null
                        }
                    },
            ),
        ),
    }
}

impl View for Json {
    type V = JsonView;

    closed spec fn view(&self) -> JsonView {
        json_view(*self)
    }
}

/// What a list of JSON values holds.
pub open spec fn json_views(items: Seq<Json>) -> Seq<JsonView> {
    items.map_values(|j: Json| j@)
}

spec fn map_view(entries: Seq<(String, Json)>) -> Map<Seq<char>, JsonView> {
    Map::new(
        |key: Seq<char>| has_entry(entries, key),
        |key: Seq<char>| entries[entry_at(entries, key)].1@,
    )
}

spec fn in_key_order(entries: Seq<(String, Json)>) -> bool {
    forall|i: int, j: int|
        0 <= i < j < entries.len() ==> less(
            (#[trigger] entries[i]).0@,
            (#[trigger] entries[j]).0@,
            false,
        )
}

impl View for JsonMap {
    type V = Map<Seq<char>, JsonView>;

    closed spec fn view(&self) -> Map<Seq<char>, JsonView> {
        map_view(self.entries@)
    }
}

proof fn lemma_entry_at(entries: Seq<(String, Json)>, i: int)
    requires
        in_key_order(entries),
        0 <= i < entries.len(),
    ensures
        has_entry(entries, entries[i].0@),
        entry_at(entries, entries[i].0@) == i,
        map_view(entries).contains_key(entries[i].0@),
        map_view(entries)[entries[i].0@] == entries[i].1@,
{
    let key = entries[i].0@;
    assert(entries[i].0@ == key);
    let k = entry_at(entries, key);
    lemma_less_irreflexive(key, false);
    if k < i {
        assert(less(entries[k].0@, entries[i].0@, false));
    } else if i < k {
        assert(less(entries[i].0@, entries[k].0@, false));
    }
}

proof fn lemma_object_view(map: JsonMap)
    ensures
        json_view(Json { node: Node::Object(map) }) == JsonView::Object(map@),
{
    let full = json_view(Json { node: Node::Object(map) })->Object_0;
    assert(full =~= map@);
}

proof fn lemma_array_view(items: Vec<Json>)
    ensures
        json_view(Json { node: Node::Array(items) }) == JsonView::Array(json_views(items@)),
{
    let full = json_view(Json { node: Node::Array(items) })->Array_0;
    assert(full =~= json_views(items@));
}

impl JsonMap {
    #[verifier::type_invariant]
    spec fn well_formed(self) -> bool {
        in_key_order(self.entries@)
    }

    /// A map without entries.
    pub fn new() -> (r: JsonMap)
        ensures
            r@ == Map::<Seq<char>, JsonView>::empty(),
    {
        let entries: Vec<(String, Json)> = Vec::new();
        assert(map_view(entries@) =~= Map::empty());
        JsonMap { entries }
    }

    /// The map with `value` under `key`, in place of an earlier value.
    pub fn put(self, key: String, value: Json) -> (r: JsonMap)
        ensures
            r@ == self@.insert(key@, value@),
    {
        proof {
            use_type_invariant(&self);
        }
        let ghost old_entries = self.entries@;
        let mut entries = self.entries;
        let n: usize = entries.len();
        let mut at: usize = 0;
        while at < n && less_of(entries[at].0.as_str(), key.as_str(), false)
            invariant
                at <= n,
                n == entries@.len(),
                entries@ == old_entries,
                forall|j: int| 0 <= j < at ==> less((#[trigger] entries@[j]).0@, key@, false),
            decreases n - at,
        {
            at = at + 1;
        }
        let ghost k = key@;
        let ghost v = value@;
        let replaces = at < n && str_eq(entries[at].0.as_str(), key.as_str());
        if replaces {
            entries.set(at, (key, value));
            proof {
                assert(in_key_order(entries@)) by {
                    assert forall|i: int, j: int| 0 <= i < j < entries@.len() implies less(
                        (#[trigger] entries@[i]).0@,
                        (#[trigger] entries@[j]).0@,
                        false,
                    ) by {
                        assert(less(old_entries[i].0@, old_entries[j].0@, false));
                    }
                }
                lemma_put(old_entries, entries@, at as int, k, v);
            }
        } else {
            proof {
                if at < n {
                    lemma_less_total(entries@[at as int].0@, k, false);
                }
            }
            entries.insert(at, (key, value));
            proof {
                assert(in_key_order(entries@)) by {
                    assert forall|i: int, j: int| 0 <= i < j < entries@.len() implies less(
                        (#[trigger] entries@[i]).0@,
                        (#[trigger] entries@[j]).0@,
                        false,
                    ) by {
                        if i < at && j > at {
                            assert(less(old_entries[i].0@, old_entries[j - 1].0@, false));
                        } else if i == at {
                            assert(entries@[j] == old_entries[j - 1]);
                            if j - 1 > at {
                                assert(less(
                                    old_entries[at as int].0@,
                                    old_entries[j - 1].0@,
                                    false,
                                ));
                                lemma_less_transitive(
                                    k,
                                    old_entries[at as int].0@,
                                    old_entries[j - 1].0@,
                                    false,
                                );
                            }
                        } else if j < at {
                            assert(less(old_entries[i].0@, old_entries[j].0@, false));
                        } else if i > at {
                            assert(less(old_entries[i - 1].0@, old_entries[j - 1].0@, false));
                        }
                    }
                }
                lemma_put(old_entries, entries@, at as int, k, v);
            }
        }
        JsonMap { entries }
    }

    /// The value under `key`.
    pub fn get(&self, key: &str) -> (r: Option<&Json>)
        ensures
            match r {
                Some(json) => self@.contains_key(key@) && self@[key@] == json@,
                None => !self@.contains_key(key@),
            },
    {
        proof {
            use_type_invariant(self);
        }
        let mut i: usize = 0;
        while i < self.entries.len()
            invariant
                i <= self.entries@.len(),
                in_key_order(self.entries@),
                forall|j: int| 0 <= j < i ==> (#[trigger] self.entries@[j]).0@ != key@,
            decreases self.entries@.len() - i,
        {
            if str_eq(self.entries[i].0.as_str(), key) {
                proof {
                    lemma_entry_at(self.entries@, i as int);
                }
                return Some(&self.entries[i].1);
            }
            i = i + 1;
        }
        None
    }

    /// The entries, in the order of the keys.
    pub fn entries(&self) -> (r: &[(String, Json)])
        ensures
            forall|i: int|
                0 <= i < r@.len() ==> self@.contains_key((#[trigger] r@[i]).0@) && self@[r@[i].0@]
                    == r@[i].1@,
            forall|key: Seq<char>| #[trigger]
                self@.contains_key(key) ==> exists|i: int|
                    0 <= i < r@.len() && (#[trigger] r@[i]).0@ == key,
            forall|i: int, j: int|
                0 <= i < j < r@.len() ==> less((#[trigger] r@[i]).0@, (#[trigger] r@[j]).0@, false),
            r@.len() == self@.len(),
    {
        proof {
            use_type_invariant(self);
            assert forall|i: int| 0 <= i < self.entries@.len() implies self@.contains_key(
                (#[trigger] self.entries@[i]).0@,
            ) && self@[self.entries@[i].0@] == self.entries@[i].1@ by {
                lemma_entry_at(self.entries@, i);
            }
            lemma_map_len(self.entries@);
        }
        self.entries.as_slice()
    }

    /// The number of entries.
    pub fn len(&self) -> (n: usize)
        ensures
            n == self@.len(),
    {
        self.entries().len()
    }
}

proof fn lemma_map_len(entries: Seq<(String, Json)>)
    requires
        in_key_order(entries),
    ensures
        map_view(entries).dom().finite(),
        map_view(entries).len() == entries.len(),
{
    let keys = entries.map_values(|e: (String, Json)| e.0@);
    assert(keys.no_duplicates()) by {
        assert forall|i: int, j: int| 0 <= i < keys.len() && 0 <= j < keys.len() && i
            != j implies keys[i] != keys[j] by {
            lemma_less_irreflexive(keys[i], false);
            if i < j {
                assert(less(entries[i].0@, entries[j].0@, false));
            } else {
                assert(less(entries[j].0@, entries[i].0@, false));
            }
        }
    }
    keys.unique_seq_to_set();
    assert(keys.to_set() =~= map_view(entries).dom()) by {
        assert forall|key: Seq<char>| keys.to_set().contains(key) == map_view(
            entries,
        ).dom().contains(key) by {
            if keys.contains(key) {
                let i = choose|i: int| 0 <= i < keys.len() && keys[i] == key;
                assert(entries[i].0@ == key);
            }
            if has_entry(entries, key) {
                let i = entry_at(entries, key);
                assert(keys[i] == key);
            }
        }
    }
}

/// Replacing or inserting the entry of `key` at `at` is an insertion into the
/// map.
proof fn lemma_put(
    old_entries: Seq<(String, Json)>,
    entries: Seq<(String, Json)>,
    at: int,
    key: Seq<char>,
    value: JsonView,
)
    requires
        in_key_order(old_entries),
        in_key_order(entries),
        0 <= at < entries.len(),
        entries[at].0@ == key,
        entries[at].1@ == value,
        entries =~= old_entries.update(at, entries[at]) && at < old_entries.len()
            && old_entries[at].0@ == key || entries =~= old_entries.insert(at, entries[at]) && at
            <= old_entries.len(),
    ensures
        map_view(entries) == map_view(old_entries).insert(key, value),
{
    let inserted = entries.len() > old_entries.len();
    lemma_entry_at(entries, at);
    let a = map_view(entries);
    let b = map_view(old_entries).insert(key, value);
    assert forall|k: Seq<char>|
        #![trigger a.dom().contains(k)]
        #![trigger b.dom().contains(k)]
        #![trigger a[k]]
        a.dom().contains(k) == b.dom().contains(k) && (a.dom().contains(k) ==> a[k] == b[k]) by {
        if k != key {
            if has_entry(old_entries, k) {
                let i = entry_at(old_entries, k);
                let e = if inserted && i >= at {
                    i + 1
                } else {
                    i
                };
                assert(entries[e] == old_entries[i]);
                lemma_entry_at(entries, e);
                lemma_entry_at(old_entries, i);
            }
            if has_entry(entries, k) {
                let e = entry_at(entries, k);
                assert(e != at);
                let i = if inserted && e > at {
                    e - 1
                } else {
                    e
                };
                assert(entries[e] == old_entries[i]);
                assert(old_entries[i].0@ == k);
            }
        }
    }
    assert(a =~= b);
}

/// The member `key` of a JSON object.
pub open spec fn member(json: JsonView, key: Seq<char>) -> Option<JsonView> {
    match json {
        JsonView::Object(map) => if map.contains_key(key) {
            Some(map[key])
        } else {
            None
        },
        _ => None,
    }
}

impl Json {
    /// A number that is an unsigned integer is kept as one.
    #[verifier::type_invariant]
    spec fn well_formed(self) -> bool {
        match self.node {
            Node::Number(n) => unsigned_in(n) is None,
            _ => true,
        }
    }

    pub fn null() -> (r: Json)
        ensures
            r@ == JsonView::Null,
    {
        Json { node: Node::Null }
    }

    pub fn boolean(b: bool) -> (r: Json)
        ensures
            r@ == JsonView::Bool(b),
    {
        Json { node: Node::Bool(b) }
    }

    pub fn unsigned(n: u64) -> (r: Json)
        ensures
            r@ == JsonView::Unsigned(n),
    {
        Json { node: Node::Unsigned(n) }
    }

    pub fn text(s: String) -> (r: Json)
        ensures
            r@ == JsonView::Text(s@),
    {
        Json { node: Node::Text(s) }
    }

    pub fn array(items: Vec<Json>) -> (r: Json)
        ensures
            r@ == JsonView::Array(json_views(items@)),
    {
        proof {
            lemma_array_view(items);
        }
        Json { node: Node::Array(items) }
    }

    pub fn object(map: JsonMap) -> (r: Json)
        ensures
            r@ == JsonView::Object(map@),
    {
        proof {
            lemma_object_view(map);
        }
        Json { node: Node::Object(map) }
    }

    pub fn is_null(&self) -> (r: bool)
        ensures
            r == (self@ is Null),
    {
        match &self.node {
            Node::Null => true,
            _ => false,
        }
    }

    /// The text of a JSON string.
    pub fn as_str(&self) -> (r: Option<&str>)
        ensures
            match r {
                Some(s) => self@ == JsonView::Text(s@),
                None => !(self@ is Text),
            },
    {
        match &self.node {
            Node::Text(s) => Some(s.as_str()),
            _ => None,
        }
    }

    /// The value of an unsigned integer.
    pub fn as_u64(&self) -> (r: Option<u64>)
        ensures
            match r {
                Some(n) => self@ == JsonView::Unsigned(n),
                None => !(self@ is Unsigned),
            },
    {
        match &self.node {
            Node::Unsigned(n) => Some(*n),
            _ => None,
        }
    }

    /// The items of a JSON array.
    pub fn as_array(&self) -> (r: Option<&Vec<Json>>)
        ensures
            match r {
                Some(items) => self@ == JsonView::Array(json_views(items@)),
                None => !(self@ is Array),
            },
    {
        match &self.node {
            Node::Array(items) => {
                proof {
                    lemma_array_view(*items);
                }
                Some(items)
            },
            _ => None,
        }
    }

    /// The members of a JSON object.
    pub fn as_object(&self) -> (r: Option<&JsonMap>)
        ensures
            match r {
                Some(map) => self@ == JsonView::Object(map@),
                None => !(self@ is Object),
            },
    {
        match &self.node {
            Node::Object(map) => {
                proof {
                    lemma_object_view(*map);
                }
                Some(map)
            },
            _ => None,
        }
    }

    /// The member `key`, when this is an object that has it.
    pub fn get(&self, key: &str) -> (r: Option<&Json>)
        ensures
            match r {
                Some(json) => member(self@, key@) == Some(json@),
                None => member(self@, key@) is None,
            },
    {
        match self.as_object() {
            Some(map) => map.get(key),
            None => None,
        }
    }
}

/// `serde_json::Number::clone`: the same number.
pub assume_specification[ <serde_json::Number as Clone>::clone ](
    number: &serde_json::Number,
) -> (r: serde_json::Number)
    ensures
        r == *number,
;

fn copy_json(json: &Json) -> (r: Json)
    ensures
        r@ == json@,
    decreases *json,
{
    proof {
        use_type_invariant(json);
    }
    match &json.node {
        Node::Null => Json::null(),
        Node::Bool(b) => Json::boolean(*b),
        Node::Unsigned(n) => Json::unsigned(*n),
        Node::Number(n) => Json { node: Node::Number(n.clone()) },
        Node::Text(s) => Json::text(s.clone()),
        Node::Array(items) => {
            let mut out: Vec<Json> = Vec::new();
            let mut i: usize = 0;
            while i < items.len()
                invariant
                    i <= items@.len(),
                    json.node == Node::Array(*items),
                    json_views(out@) =~= json_views(items@).take(i as int),
                decreases items@.len() - i,
            {
                let ghost before = out@;
                assert(decreases_to!(*items => items@[i as int]));
                assert(decreases_to!(json.node => json.node->Array_0));
                let item = copy_json(&items[i]);
                out.push(item);
                assert(json_views(out@) =~= json_views(before).push(item@));
                assert(json_views(items@)[i as int] == item@);
                i = i + 1;
            }
            assert(json_views(items@).take(i as int) =~= json_views(items@));
            proof {
                lemma_array_view(*items);
            }
            Json::array(out)
        },
        Node::Object(map) => {
            proof {
                use_type_invariant(map);
                lemma_object_view(*map);
            }
            let ghost all = map.entries@;
            let mut entries: Vec<(String, Json)> = Vec::new();
            let mut i: usize = 0;
            while i < map.entries.len()
                invariant
                    i <= map.entries@.len(),
                    json.node == Node::Object(*map),
                    entries@.len() == i,
                    forall|j: int|
                        0 <= j < i ==> (#[trigger] entries@[j]).0@ == map.entries@[j].0@
                            && entries@[j].1@ == map.entries@[j].1@,
                decreases map.entries@.len() - i,
            {
                let key = map.entries[i].0.clone();
                assert(decreases_to!(map.entries => map.entries@[i as int]));
                assert(decreases_to!(map.entries@[i as int] => map.entries@[i as int].1));
                assert(decreases_to!(json.node => json.node->Object_0));
                let value = copy_json(&map.entries[i].1);
                entries.push((key, value));
                i = i + 1;
            }
            proof {
                lemma_same_map(map.entries@, entries@);
            }
            Json::object(JsonMap { entries })
        },
    }
}

proof fn lemma_same_map(a: Seq<(String, Json)>, b: Seq<(String, Json)>)
    requires
        in_key_order(a),
        a.len() == b.len(),
        forall|j: int|
            0 <= j < b.len() ==> (#[trigger] b[j]).0@ == a[j].0@ && b[j].1@ == a[j].1@,
    ensures
        in_key_order(b),
        map_view(a) == map_view(b),
{
    assert(in_key_order(b)) by {
        assert forall|i: int, j: int| 0 <= i < j < b.len() implies less(
            (#[trigger] b[i]).0@,
            (#[trigger] b[j]).0@,
            false,
        ) by {
            assert(less(a[i].0@, a[j].0@, false));
        }
    }
    let x = map_view(a);
    let y = map_view(b);
    assert forall|k: Seq<char>|
        #![trigger x.dom().contains(k)]
        #![trigger y.dom().contains(k)]
        #![trigger x[k]]
        x.dom().contains(k) == y.dom().contains(k) && (x.dom().contains(k) ==> x[k] == y[k]) by {
        if has_entry(a, k) {
            let i = entry_at(a, k);
            assert(b[i].0@ == k);
            lemma_entry_at(a, i);
            lemma_entry_at(b, i);
        }
        if has_entry(b, k) {
            let i = entry_at(b, k);
            assert(a[i].0@ == k);
        }
    }
    assert(x =~= y);
}

impl Clone for Json {
    fn clone(&self) -> (r: Json)
        ensures
            r@ == self@,
    {
        copy_json(self)
    }
}

impl Clone for JsonMap {
    fn clone(&self) -> (r: JsonMap)
        ensures
            r@ == self@,
    {
        proof {
            use_type_invariant(self);
        }
        let mut entries: Vec<(String, Json)> = Vec::new();
        let mut i: usize = 0;
        while i < self.entries.len()
            invariant
                i <= self.entries@.len(),
                entries@.len() == i,
                forall|j: int|
                    0 <= j < i ==> (#[trigger] entries@[j]).0@ == self.entries@[j].0@
                        && entries@[j].1@ == self.entries@[j].1@,
            decreases self.entries@.len() - i,
        {
            let key = self.entries[i].0.clone();
            let value = copy_json(&self.entries[i].1);
            entries.push((key, value));
            i = i + 1;
        }
        proof {
            lemma_same_map(self.entries@, entries@);
        }
        JsonMap { entries }
    }
}

/// What a `serde_json::Value` holds.
pub uninterp spec fn json_of(value: serde_json::Value) -> JsonView;

/// What `serde_json::from_str` makes of a text: a value, or the error's text.
pub uninterp spec fn parsed_json(text: Seq<char>) -> Result<JsonView, Seq<char>>;

/// The text in which `serde_json` displays a value, without line breaks.
pub uninterp spec fn rendered_json(json: JsonView) -> Seq<char>;

/// The text that `serde_json::to_string_pretty` makes of a value, or the
/// error's text.
pub uninterp spec fn pretty_json(json: JsonView) -> Result<Seq<char>, Seq<char>>;

/// `serde_json::from_str` for `serde_json::Value`: reads a whole text as one
/// JSON value. Where an object repeats a key, the value keeps the last member.
#[verifier::external_body]
fn value_of_text(text: &str) -> (r: Result<serde_json::Value, String>)
    ensures
        match r {
            Ok(value) => parsed_json(text@) == Ok::<JsonView, Seq<char>>(json_of(value)),
            Err(e) => parsed_json(text@) == Err::<JsonView, Seq<char>>(e@),
        },
{
    serde_json::from_str(text).map_err(|e| e.to_string())
}

/// The number that `serde_json::Number::as_u64` gives for a number.
pub uninterp spec fn unsigned_in(number: serde_json::Number) -> Option<u64>;

/// What a `serde_json::Map` holds: its members by key.
pub uninterp spec fn members_in(map: serde_json::Map<String, serde_json::Value>) -> Map<
    Seq<char>,
    JsonView,
>;

/// `serde_json::Number::as_u64`: the number, when it is an integer from 0 to
/// `u64::MAX`.
pub assume_specification[ serde_json::Number::as_u64 ](number: &serde_json::Number) -> (r: Option<
    u64,
>)
    ensures
        r == unsigned_in(*number),
;

/// `serde_json::Number::from` on an unsigned integer: the number of that value.
#[verifier::external_body]
fn number_of(n: u64) -> (r: serde_json::Number)
    ensures
        unsigned_in(r) == Some(n),
{
    serde_json::Number::from(n)
}

/// `serde_json::Map::new`: a map without members.
#[verifier::external_body]
fn new_members() -> (r: serde_json::Map<String, serde_json::Value>)
    ensures
        members_in(r) == (Map::<Seq<char>, JsonView>::empty()),
{
    serde_json::Map::new()
}

/// `serde_json::Map::insert`: the value stands under the key, in place of an
/// earlier one.
#[verifier::external_body]
fn insert_member(
    map: &mut serde_json::Map<String, serde_json::Value>,
    key: String,
    value: serde_json::Value,
)
    ensures
        members_in(*final(map)) == members_in(*old(map)).insert(key@, json_of(value)),
{
    map.insert(key, value);
}

/// The members that key-value pairs make, put in one after the other.
spec fn members_of(entries: Seq<(String, serde_json::Value)>) -> Map<Seq<char>, JsonView>
    decreases entries.len(),
{
    if entries.len() == 0 {
        Map::empty()
    } else {
        members_of(entries.drop_last()).insert(entries.last().0@, json_of(entries.last().1))
    }
}

spec fn distinct_entries(entries: Seq<(String, serde_json::Value)>) -> bool {
    forall|i: int, j: int|
        0 <= i < j < entries.len() ==> (#[trigger] entries[i]).0@ != (#[trigger] entries[j]).0@
}

/// `serde_json::Map::into_iter`: each member once, with its key.
#[verifier::external_body]
fn entries_in(map: serde_json::Map<String, serde_json::Value>) -> (r: Vec<
    (String, serde_json::Value),
>)
    ensures
        distinct_entries(r@),
        members_of(r@) == members_in(map),
{
    map.into_iter().collect()
}

proof fn lemma_members_of(entries: Seq<(String, serde_json::Value)>, i: int)
    requires
        distinct_entries(entries),
        0 <= i < entries.len(),
    ensures
        members_of(entries).dom().finite(),
        members_of(entries).contains_key(entries[i].0@),
        members_of(entries)[entries[i].0@] == json_of(entries[i].1),
    decreases entries.len(),
{
    let rest = entries.drop_last();
    if rest.len() > 0 {
        let j = if i < rest.len() {
            i
        } else {
            0
        };
        assert(distinct_entries(rest)) by {
            assert forall|a: int, b: int| 0 <= a < b < rest.len() implies (#[trigger] rest[a]).0@
                != (#[trigger] rest[b]).0@ by {
                assert(entries[a].0@ != entries[b].0@);
            }
        }
        lemma_members_of(rest, j);
    } else {
        assert(members_of(rest) =~= Map::empty());
    }
    if i < rest.len() {
        assert(entries[i].0@ != entries[entries.len() - 1].0@);
    }
}

/// One level of a `serde_json::Value`: what is inside are values of their own.
enum Layer {
    Null,
    Bool(bool),
    Number(serde_json::Number),
    Text(String),
    Array(Vec<serde_json::Value>),
    Object(serde_json::Map<String, serde_json::Value>),
}

spec fn values_in(items: Seq<serde_json::Value>) -> Seq<JsonView> {
    items.map_values(|v: serde_json::Value| json_of(v))
}

spec fn layer_view(layer: Layer) -> JsonView {
    match layer {
        Layer::Null => JsonView::Null,
        Layer::Bool(b) => JsonView::Bool(b),
        Layer::Number(n) => match unsigned_in(n) {
            Some(k) => JsonView::Unsigned(k),
            None => JsonView::Number(n),
        },
        Layer::Text(s) => JsonView::Text(s@),
        Layer::Array(items) => JsonView::Array(values_in(items@)),
        Layer::Object(map) => JsonView::Object(members_in(map)),
    }
}

/// Tells the variants of `serde_json::Value` apart.
#[verifier::external_body]
fn layer_of(value: serde_json::Value) -> (r: Layer)
    ensures
        layer_view(r) == json_of(value),
{
    match value {
        serde_json::Value::Null => Layer::Null,
        serde_json::Value::Bool(b) => Layer::Bool(b),
        serde_json::Value::Number(n) => Layer::Number(n),
        serde_json::Value::String(s) => Layer::Text(s),
        serde_json::Value::Array(items) => Layer::Array(items),
        serde_json::Value::Object(map) => Layer::Object(map),
    }
}

/// Makes the variant of `serde_json::Value` that a level stands for.
#[verifier::external_body]
fn value_of_layer(layer: Layer) -> (r: serde_json::Value)
    ensures
        json_of(r) == layer_view(layer),
{
    match layer {
        Layer::Null => serde_json::Value::Null,
        Layer::Bool(b) => serde_json::Value::Bool(b),
        Layer::Number(n) => serde_json::Value::Number(n),
        Layer::Text(s) => serde_json::Value::String(s),
        Layer::Array(items) => serde_json::Value::Array(items),
        Layer::Object(map) => serde_json::Value::Object(map),
    }
}

/// Takes a `serde_json::Value` apart.
fn json_of_value(value: serde_json::Value) -> (r: Json)
    ensures
        r@ == json_of(value),
    decreases json_of(value),
{
    let ghost whole = json_of(value);
    match layer_of(value) {
        Layer::Null => Json::null(),
        Layer::Bool(b) => Json::boolean(b),
        Layer::Number(n) => match n.as_u64() {
            Some(k) => Json::unsigned(k),
            None => Json { node: Node::Number(n) },
        },
        Layer::Text(s) => Json::text(s),
        Layer::Array(items) => {
            let ghost all = items@;
            let mut out: Vec<Json> = Vec::new();
            for item in it: items
                invariant
                    it.seq() == all,
                    whole == json_of(value),
                    whole == JsonView::Array(values_in(all)),
                    json_views(out@) =~= values_in(all).take(it.index() as int),
            {
                let ghost before = out@;
                assert(decreases_to!(whole => whole->Array_0));
                assert(decreases_to!(whole->Array_0 => values_in(all)[it.index() as int]));
                let json = json_of_value(item);
                out.push(json);
                assert(json_views(out@) =~= json_views(before).push(json@));
            }
            assert(json_views(out@) =~= values_in(all));
            Json::array(out)
        },
        Layer::Object(map) => {
            let entries = entries_in(map);
            let ghost all = entries@;
            let mut out = JsonMap::new();
            assert(all.take(0) =~= Seq::empty());
            for entry in it: entries
                invariant
                    it.seq() == all,
                    distinct_entries(all),
                    whole == json_of(value),
                    whole == JsonView::Object(members_of(all)),
                    out@ == members_of(all.take(it.index() as int)),
            {
                let ghost i = it.index() as int;
                proof {
                    lemma_members_of(all, i);
                }
                assert(decreases_to!(whole => whole->Object_0));
                assert(decreases_to!(whole->Object_0 => members_of(all)[all[i].0@]));
                let json = json_of_value(entry.1);
                out = out.put(entry.0, json);
                assert(all.take(i + 1).drop_last() =~= all.take(i));
            }
            assert(all.take(all.len() as int) =~= all);
            Json::object(out)
        },
    }
}

/// Builds the `serde_json::Value` that holds the same.
fn value_of_json(json: &Json) -> (r: serde_json::Value)
    ensures
        json_of(r) == json@,
    decreases *json,
{
    proof {
        use_type_invariant(json);
    }
    match &json.node {
        Node::Null => value_of_layer(Layer::Null),
        Node::Bool(b) => value_of_layer(Layer::Bool(*b)),
        Node::Unsigned(n) => value_of_layer(Layer::Number(number_of(*n))),
        Node::Number(n) => value_of_layer(Layer::Number(n.clone())),
        Node::Text(s) => value_of_layer(Layer::Text(s.clone())),
        Node::Array(items) => {
            let mut out: Vec<serde_json::Value> = Vec::new();
            let mut i: usize = 0;
            while i < items.len()
                invariant
                    i <= items@.len(),
                    json.node == Node::Array(*items),
                    values_in(out@) =~= json_views(items@).take(i as int),
                decreases items@.len() - i,
            {
                let ghost before = out@;
                assert(decreases_to!(*items => items@[i as int]));
                assert(decreases_to!(json.node => json.node->Array_0));
                let value = value_of_json(&items[i]);
                out.push(value);
                assert(values_in(out@) =~= values_in(before).push(json_of(value)));
                i = i + 1;
            }
            assert(json_views(items@).take(i as int) =~= json_views(items@));
            proof {
                lemma_array_view(*items);
            }
            value_of_layer(Layer::Array(out))
        },
        Node::Object(map) => {
            proof {
                use_type_invariant(map);
                lemma_object_view(*map);
            }
            let mut out = new_members();
            let mut i: usize = 0;
            assert(map_view(map.entries@.take(0)) =~= Map::empty());
            while i < map.entries.len()
                invariant
                    i <= map.entries@.len(),
                    json.node == Node::Object(*map),
                    in_key_order(map.entries@),
                    members_in(out) == map_view(map.entries@.take(i as int)),
                decreases map.entries@.len() - i,
            {
                let key = map.entries[i].0.clone();
                assert(decreases_to!(map.entries => map.entries@[i as int]));
                assert(decreases_to!(map.entries@[i as int] => map.entries@[i as int].1));
                assert(decreases_to!(json.node => json.node->Object_0));
                let value = value_of_json(&map.entries[i].1);
                insert_member(&mut out, key, value);
                proof {
                    lemma_next_entry(map.entries@, i as int);
                }
                i = i + 1;
            }
            assert(map.entries@.take(i as int) =~= map.entries@);
            value_of_layer(Layer::Object(out))
        },
    }
}

/// One entry more is one member more.
proof fn lemma_next_entry(entries: Seq<(String, Json)>, i: int)
    requires
        in_key_order(entries),
        0 <= i < entries.len(),
    ensures
        map_view(entries.take(i + 1)) == map_view(entries.take(i)).insert(
            entries[i].0@,
            entries[i].1@,
        ),
{
    let old_entries = entries.take(i);
    let next = entries.take(i + 1);
    assert(in_key_order(old_entries)) by {
        assert forall|a: int, b: int| 0 <= a < b < old_entries.len() implies less(
            (#[trigger] old_entries[a]).0@,
            (#[trigger] old_entries[b]).0@,
            false,
        ) by {
            assert(less(entries[a].0@, entries[b].0@, false));
        }
    }
    assert(in_key_order(next)) by {
        assert forall|a: int, b: int| 0 <= a < b < next.len() implies less(
            (#[trigger] next[a]).0@,
            (#[trigger] next[b]).0@,
            false,
        ) by {
            assert(less(entries[a].0@, entries[b].0@, false));
        }
    }
    assert(next =~= old_entries.insert(i, next[i]));
    lemma_put(old_entries, next, i, entries[i].0@, entries[i].1@);
}

/// `serde_json::Value`'s display: the value as compact JSON text.
#[verifier::external_body]
fn text_of_value(value: &serde_json::Value) -> (r: String)
    ensures
        r@ == rendered_json(json_of(*value)),
{
    value.to_string()
}

/// `serde_json::to_string_pretty` on a value: JSON text with line breaks and
/// indentation.
#[verifier::external_body]
fn pretty_text_of_value(value: &serde_json::Value) -> (r: Result<String, String>)
    ensures
        match r {
            Ok(text) => pretty_json(json_of(*value)) == Ok::<Seq<char>, Seq<char>>(text@),
            Err(e) => pretty_json(json_of(*value)) == Err::<Seq<char>, Seq<char>>(e@),
        },
{
    serde_json::to_string_pretty(value).map_err(|e| e.to_string())
}

/// How `serde_json` words a value, other than `null`, in an error.
pub uninterp spec fn found_text(json: JsonView) -> Seq<char>;

/// `serde_json::from_value` for `()`, which takes `null` alone: any other value
/// is refused in a sentence that words it.
#[verifier::external_body]
fn unit_of_value(value: serde_json::Value) -> (r: Result<(), String>)
    ensures
        match r {
            Ok(_) => json_of(value) is Null,
            Err(e) => !(json_of(value) is Null) && e@ == wrong_type(
                found_text(json_of(value)),
                "unit"@,
            ),
        },
{
    serde_json::from_value::<()>(value).map_err(|e| e.to_string())
}

/// How a value is worded in an error.
pub open spec fn wording(json: JsonView) -> Seq<char> {
    match json {
        JsonView::Null => "null"@,
        _ => found_text(json),
    }
}

/// The error for a value that is not what is expected.
pub open spec fn wrong_type(found: Seq<char>, expected: Seq<char>) -> Seq<char> {
    "invalid type: "@ + found + ", expected "@ + expected
}

/// The error for a value, worded as `found`, that is not what is expected.
pub fn wrong_type_text(found: &str, expected: &str) -> (r: String)
    ensures
        r@ == wrong_type(found@, expected@),
{
    let head = concat3("invalid type: ", found, ", expected ");
    concat(head.as_str(), expected)
}

/// How a value is worded in an error.
pub fn wording_of(json: &Json) -> (r: String)
    ensures
        r@ == wording(json@),
{
    match unit_of_value(value_of_json(json)) {
        Ok(_) => "null".to_owned(),
        Err(text) => {
            let head = chars_of("invalid type: ");
            let tail = chars_of(", expected unit");
            let chars = chars_of(text.as_str());
            proof {
                reveal_strlit(", expected ");
                reveal_strlit("unit");
                reveal_strlit(", expected unit");
                assert(", expected "@ + "unit"@ =~= ", expected unit"@);
                let found = found_text(json@);
                assert(text@ =~= "invalid type: "@ + found + ", expected unit"@);
                assert(text@.subrange(
                    head@.len() as int,
                    text@.len() - tail@.len(),
                ) =~= found);
            }
            string_of(slice_subrange(chars.as_slice(), head.len(), chars.len() - tail.len()))
        },
    }
}

/// Reads a text as JSON; the error is `serde_json`'s, as text.
pub fn parse_json(text: &str) -> (r: Result<Json, String>)
    ensures
        match r {
            Ok(json) => parsed_json(text@) == Ok::<JsonView, Seq<char>>(json@),
            Err(e) => parsed_json(text@) == Err::<JsonView, Seq<char>>(e@),
        },
{
    match value_of_text(text) {
        Ok(value) => Ok(json_of_value(value)),
        Err(e) => Err(e),
    }
}

/// The value as compact JSON text.
pub fn render_json(json: &Json) -> (r: String)
    ensures
        r@ == rendered_json(json@),
{
    text_of_value(&value_of_json(json))
}

/// The value as indented JSON text.
pub fn render_pretty(json: &Json) -> (r: Result<String, String>)
    ensures
        match r {
            Ok(text) => pretty_json(json@) == Ok::<Seq<char>, Seq<char>>(text@),
            Err(e) => pretty_json(json@) == Err::<Seq<char>, Seq<char>>(e@),
        },
{
    pretty_text_of_value(&value_of_json(json))
}

} // verus!
