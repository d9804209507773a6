//! The tool registry: tools by name, in the order they were registered.

use vstd::prelude::*;

use super::{ToolError, ToolErrorView, ToolResult, ToolResultView, ToolSchema};
use crate::json::{parse_json, parsed_json, Json, JsonView};
use crate::keyed::{
    distinct_keys, find, has_key, keys, lemma_distinct, lemma_find, lemma_pick, lookup, pick, put,
    values, without,
};
use crate::text::{concat, concat3, join, join_of, str_eq, views};
use indexmap::IndexMap;

verus! {

/// What a map of tools holds: names and handles, in the map's order.
pub uninterp spec fn tools_in(map: IndexMap<String, u64>) -> Seq<(Seq<char>, u64)>;

/// `IndexMap::new`: a map without entries.
#[verifier::external_body]
fn new_tool_map() -> (map: IndexMap<String, u64>)
    ensures
        tools_in(map) == Seq::<(Seq<char>, u64)>::empty(),
{
    IndexMap::new()
}

/// `IndexMap::insert`: replaces the value of a name that is there, in its
/// place, and appends a new name at the end.
#[verifier::external_body]
fn insert_tool(map: &mut IndexMap<String, u64>, name: String, tool: u64)
    ensures
        tools_in(*final(map)) == put(tools_in(*old(map)), name@, tool),
{
    map.insert(name, tool);
}

/// `IndexMap::shift_remove`: takes the entry of a name out, if it is there, and
/// leaves the others in order.
#[verifier::external_body]
fn remove_tool(map: &mut IndexMap<String, u64>, name: &str) -> (removed: Option<u64>)
    ensures
        tools_in(*final(map)) == without(tools_in(*old(map)), name@),
        removed == lookup(tools_in(*old(map)), name@),
{
    map.shift_remove(name)
}

/// `IndexMap::get`: the value under a name.
#[verifier::external_body]
fn get_tool(map: &IndexMap<String, u64>, name: &str) -> (found: Option<u64>)
    ensures
        found == lookup(tools_in(*map), name@),
{
    map.get(name).copied()
}

/// `IndexMap::len`: the number of entries.
#[verifier::external_body]
fn tool_count(map: &IndexMap<String, u64>) -> (n: usize)
    ensures
        n == tools_in(*map).len(),
{
    map.len()
}

/// `IndexMap::get_index`: the entry at a position, in the map's order.
#[verifier::external_body]
fn tool_at(map: &IndexMap<String, u64>, index: usize) -> (found: Option<(&String, &u64)>)
    ensures
        match found {
            Some((name, tool)) => index < tools_in(*map).len() && tools_in(*map)[index as int] == (
                name@,
                *tool,
            ),
            None => index >= tools_in(*map).len(),
        },
{
    map.get_index(index)
}

/// `IndexMap::clone`: a map with the same entries in the same order.
#[verifier::external_body]
fn clone_tool_map(map: &IndexMap<String, u64>) -> (r: IndexMap<String, u64>)
    ensures
        tools_in(r) == tools_in(*map),
{
    map.clone()
}

/// Tools by name. A tool is a handle, by which its owner finds it again; the
/// same handle may stand in several registries.
pub struct ToolRegistry {
    tools: IndexMap<String, u64>,
}

impl View for ToolRegistry {
    type V = Seq<(Seq<char>, u64)>;

    closed spec fn view(&self) -> Seq<(Seq<char>, u64)> {
        tools_in(self.tools)
    }
}

impl Clone for ToolRegistry {
    /// A registry of its own, with the same tools.
    fn clone(&self) -> (r: ToolRegistry)
        ensures
            r@ == self@,
    {
        proof {
            use_type_invariant(self);
        }
        ToolRegistry { tools: clone_tool_map(&self.tools) }
    }
}

/// The names that a list of tools misses.
#[derive(Debug, PartialEq, Eq)]
pub struct MissingTools {
    names: Vec<String>,
}

impl View for MissingTools {
    type V = Seq<Seq<char>>;

    closed spec fn view(&self) -> Seq<Seq<char>> {
        views(self.names@)
    }
}

impl MissingTools {
    /// The missing names, in the order they were asked for.
    pub fn names(&self) -> (r: &[String])
        ensures
            views(r@) == self@,
    {
        self.names.as_slice()
    }

    /// The error as a sentence.
    pub fn message(&self) -> (s: String)
        ensures
            s@ == "tools not found in registry: "@ + join(self@, ", "@),
    {
        concat("tools not found in registry: ", join_of(&self.names, ", ").as_str())
    }
}

pub open spec fn str_views(names: Seq<&str>) -> Seq<Seq<char>> {
    names.map_values(|n: &str| n@)
}

/// For each entry, whether its name is wanted.
pub open spec fn wanted_flags(entries: Seq<(Seq<char>, u64)>, names: Seq<Seq<char>>) -> Seq<bool> {
    Seq::new(entries.len(), |i: int| names.contains(entries[i].0))
}

/// For each name, whether it is registered.
pub open spec fn found_flags(entries: Seq<(Seq<char>, u64)>, names: Seq<Seq<char>>) -> Seq<bool> {
    Seq::new(names.len(), |i: int| has_key(entries, names[i]))
}

/// The names that are not registered.
pub open spec fn missing_names(entries: Seq<(Seq<char>, u64)>, names: Seq<Seq<char>>) -> Seq<
    Seq<char>,
> {
    pick(names, found_flags(entries, names), false)
}

/// Whether a predicate on names can answer `answer` for `name`.
pub open spec fn may_answer<F: FnMut(&str) -> bool>(keep: F, name: Seq<char>, answer: bool) -> bool {
    exists|s: &str| s@ == name && #[trigger] keep.ensures((s,), answer)
}

/// Whether `flags` are a predicate's answers for `names`, one by one.
pub open spec fn answered<F: FnMut(&str) -> bool>(
    keep: F,
    names: Seq<Seq<char>>,
    flags: Seq<bool>,
) -> bool {
    &&& flags.len() == names.len()
    &&& forall|i: int| 0 <= i < names.len() ==> #[trigger] may_answer(keep, names[i], flags[i])
}

proof fn lemma_pick_distinct(entries: Seq<(Seq<char>, u64)>, flags: Seq<bool>, want: bool)
    requires
        distinct_keys(entries),
        flags.len() == entries.len(),
    ensures
        distinct_keys(pick(entries, flags, want)),
        forall|i: int|
            0 <= i < pick(entries, flags, want).len() ==> exists|j: int|
                0 <= j < entries.len() && #[trigger] entries[j] == #[trigger] pick(
                    entries,
                    flags,
                    want,
                )[i],
    decreases entries.len(),
{
    if entries.len() > 0 {
        let e0 = entries.drop_last();
        let f0 = flags.drop_last();
        assert(distinct_keys(e0)) by {
            assert forall|i: int, j: int| 0 <= i < j < e0.len() implies (#[trigger] e0[i]).0 != (
            #[trigger] e0[j]).0 by {
                assert(entries[i].0 != entries[j].0);
            }
        }
        lemma_pick_distinct(e0, f0, want);
        let p0 = pick(e0, f0, want);
        let p = pick(entries, flags, want);
        assert forall|i: int| 0 <= i < p.len() implies exists|j: int|
            0 <= j < entries.len() && #[trigger] entries[j] == #[trigger] p[i] by {
            if i < p0.len() {
                let j = choose|j: int| 0 <= j < e0.len() && #[trigger] e0[j] == p0[i];
                assert(entries[j] == p[i]);
            } else {
                assert(entries[entries.len() - 1] == p[i]);
            }
        }
        assert forall|i: int, j: int| 0 <= i < j < p.len() implies (#[trigger] p[i]).0 != (
        #[trigger] p[j]).0 by {
            if j < p0.len() {
                assert(p0[i].0 != p0[j].0);
            } else {
                let k = choose|k: int| 0 <= k < e0.len() && #[trigger] e0[k] == p0[i];
                assert(entries[k].0 != entries[entries.len() - 1].0);
            }
        }
    }
}

impl Default for ToolRegistry {
    fn default() -> (r: ToolRegistry)
        ensures
            r@ == Seq::<(Seq<char>, u64)>::empty(),
            distinct_keys(r@),
    {
        ToolRegistry::new()
    }
}

impl ToolRegistry {
    /// No name occurs twice.
    #[verifier::type_invariant]
    spec fn well_formed(self) -> bool {
        distinct_keys(tools_in(self.tools))
    }

    /// A registry without tools.
    pub fn new() -> (r: ToolRegistry)
        ensures
            r@ == Seq::<(Seq<char>, u64)>::empty(),
            distinct_keys(r@),
    {
        ToolRegistry { tools: new_tool_map() }
    }

    /// Registers a tool under the name in its definition. A tool of the same
    /// name is replaced in its place.
    pub fn register(&mut self, name: String, tool: u64) -> (r: &mut ToolRegistry)
        ensures
            r@ == put(old(self)@, name@, tool),
            distinct_keys(r@),
            *final(self) == *final(r),
    {
        proof {
            use_type_invariant(&*self);
            lemma_distinct(self@, name@, tool);
        }
        let mut tools = new_tool_map();
        std::mem::swap(&mut tools, &mut self.tools);
        insert_tool(&mut tools, name, tool);
        self.tools = tools;
        self
    }

    /// The registered names, in registration order.
    pub fn names(&self) -> (r: Vec<String>)
        ensures
            views(r@) == keys(self@),
    {
        let n: usize = tool_count(&self.tools);
        let mut out: Vec<String> = Vec::new();
        let mut i: usize = 0;
        while i < n
            invariant
                n == self@.len(),
                i <= n,
                views(out@) =~= keys(self@).take(i as int),
            decreases n - i,
        {
            match tool_at(&self.tools, i) {
                Some((name, _)) => {
                    let ghost before = out@;
                    let copy = name.clone();
                    out.push(copy);
                    assert(views(out@) =~= views(before).push(copy@));
                    assert(keys(self@)[i as int] == copy@);
                },
                None => {},
            }
            i = i + 1;
        }
        out
    }

    /// The registered tools, in registration order: those whose definitions
    /// the model is shown.
    pub fn tools(&self) -> (r: Vec<u64>)
        ensures
            r@ == values(self@),
    {
        let n: usize = tool_count(&self.tools);
        let mut out: Vec<u64> = Vec::new();
        let mut i: usize = 0;
        while i < n
            invariant
                n == self@.len(),
                i <= n,
                out@ =~= values(self@).take(i as int),
            decreases n - i,
        {
            match tool_at(&self.tools, i) {
                Some((_, tool)) => {
                    out.push(*tool);
                },
                None => {},
            }
            i = i + 1;
        }
        out
    }

    /// The definitions of the registered tools, in registration order, as
    /// `schema_of` gives them.
    pub fn schemas<F: Fn(u64) -> ToolSchema>(&self, schema_of: F) -> (r: Vec<ToolSchema>)
        requires
            forall|i: int| 0 <= i < self@.len() ==> schema_of.requires((#[trigger] self@[i].1,)),
        ensures
            r@.len() == self@.len(),
            forall|i: int|
                0 <= i < r@.len() ==> schema_of.ensures((self@[i].1,), #[trigger] r@[i]),
    {
        let tools = self.tools();
        let mut out: Vec<ToolSchema> = Vec::new();
        let mut i: usize = 0;
        while i < tools.len()
            invariant
                i <= tools@.len(),
                tools@ == values(self@),
                out@.len() == i,
                forall|j: int|
                    0 <= j < self@.len() ==> schema_of.requires((#[trigger] self@[j].1,)),
                forall|j: int|
                    0 <= j < i ==> schema_of.ensures((self@[j].1,), #[trigger] out@[j]),
            decreases tools@.len() - i,
        {
            assert(tools@[i as int] == self@[i as int].1);
            out.push(schema_of(tools[i]));
            i = i + 1;
        }
        out
    }

    /// Removes the tool of that name, if there is one, and says whether there
    /// was.
    pub fn remove(&mut self, name: &str) -> (r: bool)
        ensures
            r == has_key(old(self)@, name@),
            final(self)@ == without(old(self)@, name@),
            distinct_keys(final(self)@),
    {
        proof {
            use_type_invariant(&*self);
            lemma_distinct(self@, name@, 0);
        }
        let mut tools = new_tool_map();
        std::mem::swap(&mut tools, &mut self.tools);
        let removed = remove_tool(&mut tools, name);
        self.tools = tools;
        removed.is_some()
    }

    /// The tool of that name.
    pub fn get(&self, name: &str) -> (r: Option<u64>)
        ensures
            r == lookup(self@, name@),
    {
        get_tool(&self.tools, name)
    }

    /// Removes the tools whose names `keep` rejects and returns their names, in
    /// registration order; `keep` is asked once for each name.
    pub fn retain<F: FnMut(&str) -> bool>(&mut self, mut keep: F) -> (removed: Vec<String>)
        requires
            forall|s: &str| keep.requires((s,)),
        ensures
            distinct_keys(final(self)@),
            exists|flags: Seq<bool>| #[trigger]
                answered(keep, keys(old(self)@), flags) && final(self)@ == pick(
                    old(self)@,
                    flags,
                    true,
                ) && views(removed@) == pick(keys(old(self)@), flags, false),
    {
        proof {
            use_type_invariant(&*self);
        }
        let names = self.names();
        let ghost start = self@;
        let ghost asked = keep;
        let ghost mut flags: Seq<bool> = Seq::empty();
        let mut removed: Vec<String> = Vec::new();
        let mut i: usize = 0;
        assert(views(names@).len() == keys(start).len());
        assert(start.skip(0) =~= start);
        assert(pick(start.take(0), flags, true) + start.skip(0) =~= start);
        while i < names.len()
            invariant
                i <= names@.len(),
                views(names@) == keys(start),
                names@.len() == start.len(),
                distinct_keys(start),
                keep == asked,
                forall|s: &str| keep.requires((s,)),
                flags.len() == i,
                answered(keep, keys(start).take(i as int), flags),
                self@ == pick(start.take(i as int), flags, true) + start.skip(i as int),
                views(removed@) == pick(keys(start).take(i as int), flags, false),
            decreases names@.len() - i,
        {
            let kept = keep(names[i].as_str());
            assert(may_answer(keep, names@[i as int]@, kept));
            let ghost name = names@[i as int]@;
            let ghost before = flags;
            let ghost head = pick(start.take(i as int), before, true);
            proof {
                assert(views(names@)[i as int] == name);
                assert(keys(start)[i as int] == start[i as int].0);
                flags = flags.push(kept);
                assert(flags.drop_last() =~= before);
                assert(start.take(i + 1).drop_last() =~= start.take(i as int));
                assert(start.take(i + 1).last() == start[i as int]);
                assert(keys(start).take(i + 1).drop_last() =~= keys(start).take(i as int));
                assert(keys(start).take(i + 1).last() == name);
                assert(start.skip(i as int) =~= seq![start[i as int]] + start.skip(i + 1));
                let done = keys(start).take(i + 1);
                assert forall|j: int| 0 <= j < done.len() implies #[trigger] may_answer(
                    keep,
                    done[j],
                    flags[j],
                ) by {
                    if j < i {
                        assert(may_answer(keep, keys(start).take(i as int)[j], before[j]));
                    }
                }
            }
            if !kept {
                proof {
                    lemma_retain_step(start, before, i as int);
                }
                self.remove(names[i].as_str());
                let ghost gone = removed@;
                removed.push(names[i].clone());
                assert(views(removed@) =~= views(gone).push(name));
            } else {
                assert(self@ =~= head.push(start[i as int]) + start.skip(i + 1));
            }
            i = i + 1;
        }
        proof {
            assert(start.take(i as int) =~= start);
            assert(keys(start).take(i as int) =~= keys(start));
            assert(self@ =~= pick(start, flags, true));
            lemma_pick_distinct(start, flags, true);
        }
        removed
    }

    /// The registry of the named tools alone, in this registry's order; or the
    /// names that are not registered.
    pub fn subset(&self, names: &[&str]) -> (r: Result<ToolRegistry, MissingTools>)
        ensures
            match r {
                Ok(sub) => {
                    &&& missing_names(self@, str_views(names@)).len() == 0
                    &&& sub@ == pick(self@, wanted_flags(self@, str_views(names@)), true)
                    &&& distinct_keys(sub@)
                },
                Err(missing) => missing@ == missing_names(self@, str_views(names@)) && missing@.len()
                    > 0,
            },
    {
        proof {
            use_type_invariant(self);
        }
        let ghost all = self@;
        let ghost texts = str_views(names@);
        let ghost found = found_flags(all, texts);
        let mut missing: Vec<String> = Vec::new();
        let mut i: usize = 0;
        while i < names.len()
            invariant
                i <= names@.len(),
                all == self@,
                texts == str_views(names@),
                found == found_flags(all, texts),
                views(missing@) == pick(texts.take(i as int), found.take(i as int), false),
            decreases names@.len() - i,
        {
            assert(texts.take(i + 1).drop_last() =~= texts.take(i as int));
            assert(found.take(i + 1).drop_last() =~= found.take(i as int));
            assert(texts.take(i + 1).last() == names@[i as int]@);
            assert(found.take(i + 1).last() == has_key(all, names@[i as int]@));
            if get_tool(&self.tools, names[i]).is_none() {
                let ghost before = missing@;
                let name = names[i].to_owned();
                missing.push(name);
                assert(views(missing@) =~= views(before).push(name@));
            }
            i = i + 1;
        }
        assert(texts.take(i as int) =~= texts);
        assert(found.take(i as int) =~= found);
        if missing.len() > 0 {
            return Err(MissingTools { names: missing });
        }
        let ghost flags = wanted_flags(all, texts);
        let n: usize = tool_count(&self.tools);
        let mut sub = ToolRegistry::new();
        let mut k: usize = 0;
        while k < n
            invariant
                k <= n,
                n == self@.len(),
                all == self@,
                distinct_keys(all),
                texts == str_views(names@),
                flags == wanted_flags(all, texts),
                sub@ == pick(all.take(k as int), flags.take(k as int), true),
            decreases n - k,
        {
            match tool_at(&self.tools, k) {
                Some((name, tool)) => {
                    assert(all.take(k + 1).drop_last() =~= all.take(k as int));
                    assert(flags.take(k + 1).drop_last() =~= flags.take(k as int));
                    assert(flags.take(k + 1).last() == texts.contains(name@));
                    if contains_name(names, name.as_str()) {
                        proof {
                            lemma_subset_step(all, flags, k as int);
                        }
                        sub.register(name.clone(), *tool);
                    }
                },
                None => {},
            }
            k = k + 1;
        }
        proof {
            assert(all.take(k as int) =~= all);
            assert(flags.take(k as int) =~= flags);
            lemma_pick_distinct(all, flags, true);
        }
        Ok(sub)
    }
}

/// In a list with distinct names, removing the name at `i` from what is left
/// after the first `i` were filtered takes exactly that entry out.
proof fn lemma_retain_step(start: Seq<(Seq<char>, u64)>, flags: Seq<bool>, i: int)
    requires
        distinct_keys(start),
        0 <= i < start.len(),
        flags.len() == i,
    ensures
        without(pick(start.take(i), flags, true) + start.skip(i), start[i].0) == pick(
            start.take(i),
            flags,
            true,
        ) + start.skip(i + 1),
{
    let head = pick(start.take(i), flags, true);
    let all = head + start.skip(i);
    assert(distinct_keys(start.take(i))) by {
        let t = start.take(i);
        assert forall|a: int, b: int| 0 <= a < b < t.len() implies (#[trigger] t[a]).0 != (
        #[trigger] t[b]).0 by {
            assert(start[a].0 != start[b].0);
        }
    }
    lemma_pick_distinct(start.take(i), flags, true);
    assert(distinct_keys(all)) by {
        assert forall|a: int, b: int| 0 <= a < b < all.len() implies (#[trigger] all[a]).0 != (
        #[trigger] all[b]).0 by {
            if b < head.len() {
                assert(head[a].0 != head[b].0);
            } else {
                let y = i + (b - head.len());
                assert(all[b] == start[y]);
                if a < head.len() {
                    let x = choose|x: int|
                        0 <= x < start.take(i).len() && #[trigger] start.take(i)[x] == head[a];
                    assert(start[x].0 != start[y].0);
                } else {
                    let x = i + (a - head.len());
                    assert(all[a] == start[x]);
                    assert(start[x].0 != start[y].0);
                }
            }
        }
    }
    let at = head.len() as int;
    assert(all[at] == start[i]);
    lemma_find(all, at);
    assert(all.remove(at) =~= head + start.skip(i + 1));
}

/// A wanted entry is new to the entries picked before it.
proof fn lemma_subset_step(all: Seq<(Seq<char>, u64)>, flags: Seq<bool>, k: int)
    requires
        distinct_keys(all),
        flags.len() == all.len(),
        0 <= k < all.len(),
    ensures
        !has_key(pick(all.take(k), flags.take(k), true), all[k].0),
{
    let t = all.take(k);
    assert(distinct_keys(t)) by {
        assert forall|a: int, b: int| 0 <= a < b < t.len() implies (#[trigger] t[a]).0 != (
        #[trigger] t[b]).0 by {
            assert(all[a].0 != all[b].0);
        }
    }
    lemma_pick_distinct(t, flags.take(k), true);
    let p = pick(t, flags.take(k), true);
    if has_key(p, all[k].0) {
        let i = find(p, all[k].0);
        let j = choose|j: int| 0 <= j < t.len() && #[trigger] t[j] == p[i];
        assert(all[j].0 != all[k].0);
    }
}

/// A subset hands out the same tools as the whole registry, under the wanted
/// names and no others.
pub proof fn law_subset_shares_tools(
    all: Seq<(Seq<char>, u64)>,
    wanted: Seq<Seq<char>>,
    name: Seq<char>,
)
    requires
        distinct_keys(all),
    ensures
        wanted.contains(name) ==> lookup(pick(all, wanted_flags(all, wanted), true), name)
            == lookup(all, name),
        !wanted.contains(name) ==> lookup(pick(all, wanted_flags(all, wanted), true), name) is None,
{
    let flags = wanted_flags(all, wanted);
    let sub = pick(all, flags, true);
    lemma_pick_distinct(all, flags, true);
    if wanted.contains(name) && has_key(all, name) {
        let i = find(all, name);
        lemma_pick(all, flags, true, i);
        let j = choose|j: int| 0 <= j < sub.len() && #[trigger] sub[j] == all[i];
        lemma_find(sub, j);
        lemma_find(all, i);
    } else if has_key(sub, name) {
        let j = find(sub, name);
        lemma_picked_flag(all, flags, j);
        let i = choose|i: int|
            0 <= i < all.len() && flags[i] && #[trigger] all[i] == sub[j];
        assert(all[i].0 == name);
    }
}

/// What was picked had its flag set.
proof fn lemma_picked_flag(entries: Seq<(Seq<char>, u64)>, flags: Seq<bool>, j: int)
    requires
        flags.len() == entries.len(),
        0 <= j < pick(entries, flags, true).len(),
    ensures
        exists|i: int|
            0 <= i < entries.len() && flags[i] && #[trigger] entries[i] == pick(
                entries,
                flags,
                true,
            )[j],
    decreases entries.len(),
{
    let e0 = entries.drop_last();
    let f0 = flags.drop_last();
    let p0 = pick(e0, f0, true);
    if j < p0.len() {
        lemma_picked_flag(e0, f0, j);
        let i = choose|i: int| 0 <= i < e0.len() && f0[i] && #[trigger] e0[i] == p0[j];
        assert(flags[i] && entries[i] == pick(entries, flags, true)[j]);
    } else {
        let last = entries.len() - 1;
        assert(flags[last] && entries[last] == pick(entries, flags, true)[j]);
    }
}

fn contains_name(names: &[&str], name: &str) -> (r: bool)
    ensures
        r == str_views(names@).contains(name@),
{
    let ghost texts = str_views(names@);
    let mut i: usize = 0;
    while i < names.len()
        invariant
            i <= names@.len(),
            texts == str_views(names@),
            forall|j: int| 0 <= j < i ==> #[trigger] texts[j] != name@,
        decreases names@.len() - i,
    {
        assert(texts[i as int] == names@[i as int]@);
        if str_eq(names[i], name) {
            assert(texts[i as int] == name@);
            return true;
        }
        i = i + 1;
    }
    false
}

/// Why a call through the registry failed.
#[derive(Debug, PartialEq, Eq)]
pub enum RegistryError {
    NotFound(String),
    InvalidArguments(String),
    Execution { name: String, source: ToolError },
}

pub enum RegistryErrorView {
    NotFound(Seq<char>),
    InvalidArguments(Seq<char>),
    Execution { name: Seq<char>, source: ToolErrorView },
}

impl View for RegistryError {
    type V = RegistryErrorView;

    open spec fn view(&self) -> RegistryErrorView {
        match *self {
            RegistryError::NotFound(name) => RegistryErrorView::NotFound(name@),
            RegistryError::InvalidArguments(m) => RegistryErrorView::InvalidArguments(m@),
            RegistryError::Execution { name, source } => RegistryErrorView::Execution {
                name: name@,
                source: source@,
            },
        }
    }
}

impl RegistryErrorView {
    /// The error as a sentence for the model.
    pub open spec fn text(self) -> Seq<char> {
        match self {
            RegistryErrorView::NotFound(name) => "tool not found: "@ + name,
            RegistryErrorView::InvalidArguments(m) => "invalid arguments: "@ + m,
            RegistryErrorView::Execution { name, source } => "tool error: "@ + name + " failed: "@
                + source.text(),
        }
    }
}

impl RegistryError {
    /// The error as a sentence for the model.
    pub fn message(&self) -> (s: String)
        ensures
            s@ == self@.text(),
    {
        match self {
            RegistryError::NotFound(name) => concat("tool not found: ", name.as_str()),
            RegistryError::InvalidArguments(m) => concat("invalid arguments: ", m.as_str()),
            RegistryError::Execution { name, source } => {
                let head = concat3("tool error: ", name.as_str(), " failed: ");
                concat(head.as_str(), source.message().as_str())
            },
        }
    }
}

/// How a tool call ended.
#[derive(Debug, PartialEq)]
pub enum CallOutcome {
    Returned(ToolResult),
    Failed(ToolError),
    /// The tool panicked, with a message when it left one.
    Panicked(Option<String>),
}

/// The message of a panic: at most 500 characters.
pub open spec fn panic_text(payload: Option<Seq<char>>) -> Seq<char> {
    match payload {
        Some(text) => if text.len() > 500 {
            text.take(500)
        } else {
            text
        },
        None => "unknown panic"@,
    }
}

/// The message of a panic, for the model.
pub fn panic_message(payload: Option<&str>) -> (r: String)
    ensures
        r@ == panic_text(crate::text::opt_str_view(payload)),
{
    match payload {
        Some(text) => if text.unicode_len() > 500 {
            let head = text.substring_char(0, 500);
            assert(text@.subrange(0, 500) =~= text@.take(500));
            head.to_owned()
        } else {
            text.to_owned()
        },
        None => "unknown panic".to_owned(),
    }
}

/// What the registry reports of a call that ended.
pub open spec fn reported(name: Seq<char>, outcome: CallOutcome) -> Result<
    ToolResultView,
    RegistryErrorView,
> {
    match outcome {
        CallOutcome::Returned(result) => Ok(result@),
        CallOutcome::Failed(ToolError::InvalidArguments(m)) => Err(
            RegistryErrorView::InvalidArguments(m@),
        ),
        CallOutcome::Failed(source) => Err(RegistryErrorView::Execution { name, source: source@ }),
        CallOutcome::Panicked(payload) => Err(
            RegistryErrorView::Execution {
                name,
                source: ToolErrorView::Execution(
                    "panicked: "@ + panic_text(crate::text::opt_view(payload)),
                ),
            },
        ),
    }
}

impl ToolRegistry {
    /// The tool to call and its arguments: the tool must be registered, and the
    /// arguments must be JSON.
    pub fn prepare_call(&self, name: &str, arguments: &str) -> (r: Result<
        (u64, Json),
        RegistryError,
    >)
        ensures
            match r {
                Ok((tool, json)) => lookup(self@, name@) == Some(tool) && parsed_json(arguments@)
                    == Ok::<JsonView, Seq<char>>(json@),
                Err(e) => if lookup(self@, name@) is None {
                    e@ == RegistryErrorView::NotFound(name@)
                } else {
                    parsed_json(arguments@) matches Err(fault) && e@
                        == RegistryErrorView::InvalidArguments(fault)
                },
            },
    {
        match get_tool(&self.tools, name) {
            None => Err(RegistryError::NotFound(name.to_owned())),
            Some(tool) => match parse_json(arguments) {
                Ok(json) => Ok((tool, json)),
                Err(e) => Err(RegistryError::InvalidArguments(e)),
            },
        }
    }

    /// Classifies how a call ended.
    pub fn finish_call(name: &str, outcome: CallOutcome) -> (r: Result<ToolResult, RegistryError>)
        ensures
            match r {
                Ok(result) => reported(name@, outcome) == Ok::<ToolResultView, RegistryErrorView>(
                    result@,
                ),
                Err(e) => reported(name@, outcome) == Err::<ToolResultView, RegistryErrorView>(e@),
            },
    {
        match outcome {
            CallOutcome::Returned(result) => Ok(result),
            CallOutcome::Failed(error) => match error {
                ToolError::InvalidArguments(m) => Err(RegistryError::InvalidArguments(m)),
                ToolError::Execution(m) => Err(
                    RegistryError::Execution {
                        name: name.to_owned(),
                        source: ToolError::Execution(m),
                    },
                ),
            },
            CallOutcome::Panicked(payload) => {
                let text = panic_message(crate::text::as_opt_str(&payload));
                Err(
                    RegistryError::Execution {
                        name: name.to_owned(),
                        source: ToolError::Execution(concat("panicked: ", text.as_str())),
                    },
                )
            },
        }
    }
}

} // verus!
