//! The skill registry: skills by name, in the order they were registered.

use vstd::prelude::*;

use super::error::{SkillError, SkillErrorView};
use super::{Skill, SkillView};
use crate::keyed::{
    distinct_keys, find, has_key, law_put_then_lookup, lemma_distinct, lemma_find, lookup, put,
    values, without,
};
use crate::text::{concat, concat3, join, join_of, views};
use indexmap::IndexMap;

verus! {

/// `indexmap::IndexMap`, an insertion-ordered hash map.
#[verifier::external_type_specification]
#[verifier::external_body]
#[verifier::reject_recursive_types(K)]
#[verifier::reject_recursive_types(V)]
#[verifier::reject_recursive_types(S)]
pub struct ExIndexMap<K, V, S>(indexmap::IndexMap<K, V, S>);

/// What a map of skills holds: its entries, in the map's order.
pub uninterp spec fn skills_in(map: IndexMap<String, Skill>) -> Seq<(Seq<char>, SkillView)>;

/// `IndexMap::new`: a map without entries.
#[verifier::external_body]
fn new_skill_map() -> (map: IndexMap<String, Skill>)
    ensures
        skills_in(map) == Seq::<(Seq<char>, SkillView)>::empty(),
{
    IndexMap::new()
}

/// `IndexMap::insert`: replaces the value of a name that is there, in its
/// place, and appends a new name at the end.
#[verifier::external_body]
fn insert_skill(map: &mut IndexMap<String, Skill>, name: String, skill: Skill)
    ensures
        skills_in(*final(map)) == put(skills_in(*old(map)), name@, skill@),
{
    map.insert(name, skill);
}

/// `IndexMap::shift_remove`: takes the entry of a name out, if it is there, and
/// leaves the others in order.
#[verifier::external_body]
fn remove_skill(map: &mut IndexMap<String, Skill>, name: &str) -> (removed: Option<Skill>)
    ensures
        skills_in(*final(map)) == without(skills_in(*old(map)), name@),
        match removed {
            Some(skill) => lookup(skills_in(*old(map)), name@) == Some(skill@),
            None => lookup(skills_in(*old(map)), name@) is None,
        },
{
    map.shift_remove(name)
}

/// `IndexMap::get`: the value under a name.
#[verifier::external_body]
fn get_skill<'a>(map: &'a IndexMap<String, Skill>, name: &str) -> (found: Option<&'a Skill>)
    ensures
        match found {
            Some(skill) => lookup(skills_in(*map), name@) == Some(skill@),
            None => lookup(skills_in(*map), name@) is None,
        },
{
    map.get(name)
}

/// `IndexMap::len`: the number of entries.
#[verifier::external_body]
fn skill_count(map: &IndexMap<String, Skill>) -> (n: usize)
    ensures
        n == skills_in(*map).len(),
{
    map.len()
}

/// `IndexMap::get_index`: the entry at a position, in the map's order.
#[verifier::external_body]
fn skill_at(map: &IndexMap<String, Skill>, index: usize) -> (found: Option<(&String, &Skill)>)
    ensures
        match found {
            Some((name, skill)) => index < skills_in(*map).len() && skills_in(*map)[index as int]
                == (name@, skill@),
            None => index >= skills_in(*map).len(),
        },
{
    map.get_index(index)
}

/// `IndexMap::clone`: a map with the same names in the same order, each with a
/// clone of its skill, which holds the same.
#[verifier::external_body]
fn clone_skill_map(map: &IndexMap<String, Skill>) -> (r: IndexMap<String, Skill>)
    ensures
        skills_in(r) == skills_in(*map),
{
    map.clone()
}

/// Skills by name. A skill that is registered under a name already taken
/// replaces the earlier one in its place.
pub struct SkillRegistry {
    skills: IndexMap<String, Skill>,
}

impl View for SkillRegistry {
    type V = Seq<(Seq<char>, SkillView)>;

    closed spec fn view(&self) -> Seq<(Seq<char>, SkillView)> {
        skills_in(self.skills)
    }
}

impl Clone for SkillRegistry {
    /// A registry of its own, with the same skills.
    fn clone(&self) -> (r: SkillRegistry)
        ensures
            r@ == self@,
    {
        SkillRegistry { skills: clone_skill_map(&self.skills) }
    }
}

/// Every entry stands under its skill's own name, and no name occurs twice.
pub open spec fn is_registry(entries: Seq<(Seq<char>, SkillView)>) -> bool {
    &&& distinct_keys(entries)
    &&& forall|i: int| 0 <= i < entries.len() ==> named(#[trigger] entries[i])
}

/// Whether an entry's name is its skill's own.
pub open spec fn named(entry: (Seq<char>, SkillView)) -> bool {
    entry.0 == entry.1.name
}

/// The menu line of one skill.
pub open spec fn menu_line(skill: SkillView) -> Seq<char> {
    "- "@ + skill.name + ": "@ + skill.description
}

/// The menu: one line per skill.
pub open spec fn menu_text(skills: Seq<SkillView>) -> Seq<char> {
    join(skills.map_values(|s: SkillView| menu_line(s)), "\n"@)
}

pub open spec fn skill_views(skills: Seq<Skill>) -> Seq<SkillView> {
    skills.map_values(|s: Skill| s@)
}

/// The registry after `skills` were added one after the other.
pub open spec fn with_all(
    entries: Seq<(Seq<char>, SkillView)>,
    skills: Seq<SkillView>,
) -> Seq<(Seq<char>, SkillView)>
    decreases skills.len(),
{
    if skills.len() == 0 {
        entries
    } else {
        put(with_all(entries, skills.drop_last()), skills.last().name, skills.last())
    }
}

/// The skills among what a scan of directories found.
pub open spec fn loaded(found: Seq<Result<Skill, SkillError>>) -> Seq<SkillView>
    decreases found.len(),
{
    if found.len() == 0 {
        Seq::empty()
    } else {
        match found.last() {
            Ok(skill) => loaded(found.drop_last()).push(skill@),
            Err(_) => loaded(found.drop_last()),
        }
    }
}

/// Adding a skill keeps the registry's invariant.
pub proof fn law_add_keeps_registry(entries: Seq<(Seq<char>, SkillView)>, skill: SkillView)
    requires
        is_registry(entries),
    ensures
        is_registry(put(entries, skill.name, skill)),
{
    lemma_distinct(entries, skill.name, skill);
    let p = put(entries, skill.name, skill);
    assert forall|i: int| 0 <= i < p.len() implies named(#[trigger] p[i]) by {
        if i < entries.len() && p[i] != (skill.name, skill) {
            assert(p[i] == entries[i]);
        }
    }
}

impl Default for SkillRegistry {
    fn default() -> (r: SkillRegistry)
        ensures
            r@ == Seq::<(Seq<char>, SkillView)>::empty(),
            is_registry(r@),
    {
        SkillRegistry::new()
    }
}

impl SkillRegistry {
    /// A registry without skills.
    pub fn new() -> (r: SkillRegistry)
        ensures
            r@ == Seq::<(Seq<char>, SkillView)>::empty(),
            is_registry(r@),
    {
        SkillRegistry { skills: new_skill_map() }
    }

    /// Registers a skill under its name.
    pub fn add(&mut self, skill: Skill) -> (r: &mut SkillRegistry)
        ensures
            r@ == put(old(self)@, skill@.name, skill@),
            is_registry(old(self)@) ==> is_registry(r@),
            *final(self) == *final(r),
    {
        proof {
            if is_registry(self@) {
                law_add_keeps_registry(self@, skill@);
            }
        }
        let name = skill.name().to_owned();
        insert_skill(&mut self.skills, name, skill);
        self
    }

    /// Removes the skill of that name, if there is one, and says whether there
    /// was.
    pub fn remove(&mut self, name: &str) -> (r: bool)
        ensures
            r == has_key(old(self)@, name@),
            final(self)@ == without(old(self)@, name@),
            is_registry(old(self)@) ==> is_registry(final(self)@),
    {
        proof {
            if is_registry(self@) {
                law_remove_keeps_registry(self@, name@);
            }
        }
        remove_skill(&mut self.skills, name).is_some()
    }

    /// A copy of the skill of that name.
    pub fn get(&self, name: &str) -> (r: Option<Skill>)
        ensures
            match r {
                Some(skill) => lookup(self@, name@) == Some(skill@),
                None => lookup(self@, name@) is None,
            },
    {
        match get_skill(&self.skills, name) {
            Some(skill) => Some(skill.clone()),
            None => None,
        }
    }

    /// One line `- name: description` per skill, in registration order.
    pub fn menu(&self) -> (r: String)
        ensures
            r@ == menu_text(values(self@)),
    {
        let n: usize = skill_count(&self.skills);
        let ghost all = values(self@).map_values(|s: SkillView| menu_line(s));
        let mut lines: Vec<String> = Vec::new();
        let mut i: usize = 0;
        while i < n
            invariant
                n == self@.len(),
                all == values(self@).map_values(|s: SkillView| menu_line(s)),
                i <= n,
                views(lines@) =~= all.take(i as int),
            decreases n - i,
        {
            match skill_at(&self.skills, i) {
                Some((_, skill)) => {
                    let ghost before = lines@;
                    let head = concat3("- ", skill.name(), ": ");
                    let line = concat(head.as_str(), skill.description());
                    lines.push(line);
                    assert(views(lines@) =~= views(before).push(line@));
                    assert(values(self@)[i as int] == skill@);
                    assert(all[i as int] == line@);
                },
                None => {},
            }
            i = i + 1;
        }
        assert(all.take(n as int) =~= all);
        join_of(&lines, "\n")
    }

    /// Copies of all skills, in registration order.
    pub fn skills(&self) -> (r: Vec<Skill>)
        ensures
            skill_views(r@) == values(self@),
    {
        let n: usize = skill_count(&self.skills);
        let mut out: Vec<Skill> = Vec::new();
        let mut i: usize = 0;
        while i < n
            invariant
                n == self@.len(),
                i <= n,
                skill_views(out@) =~= values(self@).take(i as int),
            decreases n - i,
        {
            match skill_at(&self.skills, i) {
                Some((_, skill)) => {
                    let ghost before = out@;
                    let copy = skill.clone();
                    out.push(copy);
                    assert(skill_views(out@) =~= skill_views(before).push(copy@));
                    assert(values(self@)[i as int] == copy@);
                },
                None => {},
            }
            i = i + 1;
        }
        out
    }

    /// Adds `skills` one after the other.
    pub fn add_all(&mut self, skills: Vec<Skill>)
        ensures
            final(self)@ == with_all(old(self)@, skill_views(skills@)),
            is_registry(old(self)@) ==> is_registry(final(self)@),
    {
        let ghost start = self@;
        let ghost all = skill_views(skills@);
        let mut i: usize = 0;
        assert(all.take(0) =~= Seq::empty());
        while i < skills.len()
            invariant
                i <= skills@.len(),
                all == skill_views(skills@),
                self@ == with_all(start, all.take(i as int)),
                is_registry(start) ==> is_registry(self@),
            decreases skills@.len() - i,
        {
            assert(all.take(i + 1).drop_last() =~= all.take(i as int));
            assert(all.take(i + 1).last() == skills@[i as int]@);
            self.add(skills[i].clone());
            i = i + 1;
        }
        assert(all.take(i as int) =~= all);
    }

    /// The registry of the skills that a scan of one directory found; what
    /// failed to load is skipped. Only a directory that cannot be read fails.
    pub fn from_dir(scan: Result<Vec<Result<Skill, SkillError>>, String>) -> (r: Result<
        SkillRegistry,
        SkillError,
    >)
        ensures
            match scan {
                Ok(found) => r matches Ok(registry) && registry@ == with_all(
                    Seq::empty(),
                    loaded(found@),
                ) && is_registry(registry@),
                Err(cause) => r matches Err(e) && e@ == SkillErrorView::Io(cause@),
            },
    {
        let found = match scan {
            Ok(found) => found,
            Err(cause) => {
                return Err(SkillError::Io(cause));
            },
        };
        let mut registry = SkillRegistry::new();
        let mut i: usize = 0;
        assert(found@.take(0) =~= Seq::empty());
        while i < found.len()
            invariant
                i <= found@.len(),
                registry@ == with_all(Seq::empty(), loaded(found@.take(i as int))),
                is_registry(registry@),
            decreases found@.len() - i,
        {
            assert(found@.take(i + 1).drop_last() =~= found@.take(i as int));
            assert(found@.take(i + 1).last() == found@[i as int]);
            match &found[i] {
                Ok(skill) => {
                    assert(loaded(found@.take(i + 1)).drop_last() =~= loaded(
                        found@.take(i as int),
                    ));
                    registry.add(skill.clone());
                },
                Err(_) => {},
            }
            i = i + 1;
        }
        assert(found@.take(i as int) =~= found@);
        Ok(registry)
    }

    /// The registry of several directories, of which a later one overrides
    /// those before it; a directory that could not be read is skipped.
    pub fn from_dirs(sources: Vec<Result<SkillRegistry, SkillError>>) -> (r: SkillRegistry)
        ensures
            r@ == merged(sources@),
            is_registry(r@),
    {
        let mut registry = SkillRegistry::new();
        let mut i: usize = 0;
        assert(sources@.take(0) =~= Seq::empty());
        while i < sources.len()
            invariant
                i <= sources@.len(),
                registry@ == merged(sources@.take(i as int)),
                is_registry(registry@),
            decreases sources@.len() - i,
        {
            assert(sources@.take(i + 1).drop_last() =~= sources@.take(i as int));
            assert(sources@.take(i + 1).last() == sources@[i as int]);
            match &sources[i] {
                Ok(found) => {
                    registry.add_all(found.skills());
                },
                Err(_) => {},
            }
            i = i + 1;
        }
        assert(sources@.take(i as int) =~= sources@);
        registry
    }
}

/// What several sources hold together: each is added to those before it.
pub open spec fn merged(sources: Seq<Result<SkillRegistry, SkillError>>) -> Seq<
    (Seq<char>, SkillView),
>
    decreases sources.len(),
{
    if sources.len() == 0 {
        Seq::empty()
    } else {
        match sources.last() {
            Ok(found) => with_all(merged(sources.drop_last()), values(found@)),
            Err(_) => merged(sources.drop_last()),
        }
    }
}

/// A later source overrides those before it: a name that it has gives its
/// skill, and every other name what it gave before.
pub proof fn law_later_source_overrides(
    entries: Seq<(Seq<char>, SkillView)>,
    later: Seq<(Seq<char>, SkillView)>,
    name: Seq<char>,
)
    requires
        is_registry(entries),
        is_registry(later),
    ensures
        is_registry(with_all(entries, values(later))),
        lookup(with_all(entries, values(later)), name) == if has_key(later, name) {
            lookup(later, name)
        } else {
            lookup(entries, name)
        },
    decreases later.len(),
{
    let skills = values(later);
    if later.len() > 0 {
        let n = later.len() - 1;
        let head = later.drop_last();
        let last = later[n];
        assert(named(last));
        assert(head =~= later.take(n));
        assert forall|i: int| 0 <= i < head.len() implies named(#[trigger] head[i]) by {
            assert(named(later[i]));
        }
        assert forall|i: int, j: int| 0 <= i < j < head.len() implies (#[trigger] head[i]).0 != (
        #[trigger] head[j]).0 by {
            assert(later[i].0 != later[j].0);
        }
        law_later_source_overrides(entries, head, name);
        assert(values(head) =~= skills.drop_last());
        assert(skills.last() == last.1);
        let before = with_all(entries, values(head));
        law_add_keeps_registry(before, last.1);
        law_put_then_lookup(before, last.0, last.1, name);
        lemma_find(later, n);
        if has_key(head, name) {
            let i = find(head, name);
            assert(head[i] == later[i]);
            lemma_find(later, i);
            lemma_find(head, i);
            assert(later[i].0 != later[n].0);
        } else if has_key(later, name) && name != last.0 {
            let i = find(later, name);
            assert(head[i] == later[i]);
        }
    }
}

/// Taking an entry out leaves every other under its skill's own name.
proof fn lemma_named_without(entries: Seq<(Seq<char>, SkillView)>, k: int, i: int)
    requires
        forall|j: int| 0 <= j < entries.len() ==> named(#[trigger] entries[j]),
        0 <= k < entries.len(),
        0 <= i < entries.len() - 1,
    ensures
        named(entries.remove(k)[i]),
{
    if i < k {
        assert(entries.remove(k)[i] == entries[i]);
    } else {
        assert(entries.remove(k)[i] == entries[i + 1]);
    }
}

/// Removing a skill keeps the registry's invariant.
pub proof fn law_remove_keeps_registry(entries: Seq<(Seq<char>, SkillView)>, name: Seq<char>)
    requires
        is_registry(entries),
    ensures
        is_registry(without(entries, name)),
{
    if has_key(entries, name) {
        let k = find(entries, name);
        lemma_distinct(entries, name, entries[k].1);
        assert forall|i: int| 0 <= i < without(entries, name).len() implies named(
            #[trigger] without(entries, name)[i],
        ) by {
            lemma_named_without(entries, k, i);
        }
    }
}

/// What a registry gives back under a name is a skill of that name.
pub proof fn law_lookup_has_name(entries: Seq<(Seq<char>, SkillView)>, name: Seq<char>)
    requires
        is_registry(entries),
    ensures
        lookup(entries, name) matches Some(skill) ==> skill.name == name,
{
    if has_key(entries, name) {
        assert(named(entries[find(entries, name)]));
    }
}

/// A skill that was added is found under its name, and replaces an earlier one
/// of that name; the others stay.
pub proof fn law_added_skills_are_found(skill: Skill, other: Seq<char>)
    ensures
        forall|registry: &mut SkillRegistry, r: &mut SkillRegistry|
            is_registry(registry@) && #[trigger] call_ensures(
                SkillRegistry::add,
                (registry, skill),
                r,
            ) ==> lookup(r@, skill@.name) == Some(skill@) && (other != skill@.name ==> lookup(
                r@,
                other,
            ) == lookup(registry@, other)),
{
    assert forall|registry: &mut SkillRegistry, r: &mut SkillRegistry|
        is_registry(registry@) && #[trigger] call_ensures(
            SkillRegistry::add,
            (registry, skill),
            r,
        ) implies lookup(r@, skill@.name) == Some(skill@) && (other != skill@.name ==> lookup(
        r@,
        other,
    ) == lookup(registry@, other)) by {
        law_put_then_lookup(registry@, skill@.name, skill@, other);
    }
}

} // verus!
