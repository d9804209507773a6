//! State that tools share: values side by side, one for each type.

use vstd::prelude::*;

use std::collections::hash_map::Entry;
use std::collections::HashMap;

verus! {

/// States, each with its values by the number of their type. A type has one
/// value at most in a state.
pub struct StateStore<V> {
    states: Vec<HashMap<u64, V>>,
}

impl<V> View for StateStore<V> {
    type V = Seq<Map<u64, V>>;

    closed spec fn view(&self) -> Seq<Map<u64, V>> {
        self.states@.map_values(|values: HashMap<u64, V>| values@)
    }
}

impl<V> Default for StateStore<V> {
    fn default() -> (r: StateStore<V>)
        ensures
            r@ == Seq::<Map<u64, V>>::empty(),
    {
        StateStore::new()
    }
}

impl<V> StateStore<V> {
    /// A store without states.
    pub fn new() -> (r: StateStore<V>)
        ensures
            r@ == Seq::<Map<u64, V>>::empty(),
    {
        let states: Vec<HashMap<u64, V>> = Vec::new();
        assert(states@.map_values(|values: HashMap<u64, V>| values@) =~= Seq::empty());
        StateStore { states }
    }
}

/// A handle of a state in a store. The clones of a handle are handles of the
/// same state.
#[derive(Debug)]
pub struct SharedState {
    index: usize,
}

impl View for SharedState {
    type V = int;

    closed spec fn view(&self) -> int {
        self.index as int
    }
}

impl Clone for SharedState {
    /// Another handle of the same state.
    fn clone(&self) -> (r: SharedState)
        ensures
            r@ == self@,
    {
        SharedState { index: self.index }
    }
}

impl SharedState {
    /// Whether the handle's state is one of a store.
    pub open spec fn is_in<V>(&self, store: Seq<Map<u64, V>>) -> bool {
        0 <= self@ < store.len()
    }

    /// A new state in a store, without values.
    pub fn new<V>(store: &mut StateStore<V>) -> (r: SharedState)
        ensures
            r@ == old(store)@.len(),
            final(store)@ == old(store)@.push(Map::empty()),
    {
        let ghost before = store@;
        let index: usize = store.states.len();
        store.states.push(HashMap::new());
        assert(store@ =~= before.push(Map::empty()));
        SharedState { index }
    }

    /// Stores the value of a type, in place of an earlier one.
    pub fn insert<V>(&self, store: &mut StateStore<V>, type_id: u64, value: V)
        requires
            self.is_in(old(store)@),
        ensures
            final(store)@ == old(store)@.update(
                self@,
                old(store)@[self@].insert(type_id, value),
            ),
    {
        broadcast use vstd::std_specs::hash::group_hash_axioms;

        let ghost before = store@;
        store.states[self.index].insert(type_id, value);
        assert(store@ =~= before.update(self@, before[self@].insert(type_id, value)));
    }

    /// A copy of the value of a type; the state keeps its own.
    pub fn get<V: Clone>(&self, store: &StateStore<V>, type_id: u64) -> (r: Option<V>)
        requires
            self.is_in(store@),
        ensures
            match r {
                Some(value) => store@[self@].contains_key(type_id) && cloned(
                    store@[self@][type_id],
                    value,
                ),
                None => !store@[self@].contains_key(type_id),
            },
    {
        broadcast use vstd::std_specs::hash::group_hash_axioms;

        match store.states[self.index].get(&type_id) {
            Some(value) => Some(value.clone()),
            None => None,
        }
    }

    /// Hands the value of a type to `f`, which is not called when there is
    /// none, and says whether there was one.
    pub fn with<V, F: FnOnce(&V)>(&self, store: &StateStore<V>, type_id: u64, f: F) -> (called:
        bool)
        requires
            self.is_in(store@),
            store@[self@].contains_key(type_id) ==> f.requires((&store@[self@][type_id],)),
        ensures
            called == store@[self@].contains_key(type_id),
            called ==> f.ensures((&store@[self@][type_id],), ()),
    {
        broadcast use vstd::std_specs::hash::group_hash_axioms;

        match store.states[self.index].get(&type_id) {
            Some(value) => {
                f(value);
                true
            },
            None => false,
        }
    }

    /// Has `f` change the value of a type in its place. `f` is not called when
    /// there is no value.
    pub fn with_mut<V, F: FnOnce(&mut V)>(
        &self,
        store: &mut StateStore<V>,
        type_id: u64,
        f: F,
    ) -> (called: bool)
        requires
            self.is_in(old(store)@),
            old(store)@[self@].contains_key(type_id) ==> forall|value: &mut V|
                *value == old(store)@[self@][type_id] ==> #[trigger] f.requires((value,)),
        ensures
            called == old(store)@[self@].contains_key(type_id),
            called ==> exists|value: &mut V|
                *value == old(store)@[self@][type_id] && #[trigger] f.ensures((value,), ())
                    && final(store)@ == old(store)@.update(
                    self@,
                    old(store)@[self@].insert(type_id, *final(value)),
                ),
            !called ==> final(store)@ == old(store)@,
    {
        broadcast use vstd::std_specs::hash::group_hash_axioms;

        let ghost before = store@;
        let called = match store.states[self.index].entry(type_id) {
            Entry::Occupied(entry) => {
                let value = entry.into_mut();
                let ghost seen = value;
                f(value);
                assert(store@ =~= before.update(
                    self@,
                    before[self@].insert(type_id, *final(seen)),
                ));
                true
            },
            Entry::Vacant(_) => false,
        };
        proof {
            if !called {
                assert(before[self@].remove(type_id) =~= before[self@]);
                assert(store@ =~= before);
            }
        }
        called
    }
}

/// What is stored through one handle is found through every handle of the same
/// state, in place of what was there; the values of the other types, and the
/// other states, stay as they are.
pub proof fn law_handles_of_a_state_see_the_same<V>(
    store: Seq<Map<u64, V>>,
    writer: SharedState,
    reader: SharedState,
    type_id: u64,
    other: u64,
    value: V,
)
    requires
        writer.is_in(store),
        reader.is_in(store),
    ensures
        ({
            let after = store.update(writer@, store[writer@].insert(type_id, value));
            &&& reader@ == writer@ ==> after[reader@].contains_key(type_id)
                && after[reader@][type_id] == value
            &&& reader@ == writer@ && other != type_id ==> after[reader@].contains_key(other)
                == store[reader@].contains_key(other)
            &&& reader@ == writer@ && other != type_id && store[reader@].contains_key(other)
                ==> after[reader@][other] == store[reader@][other]
            &&& reader@ != writer@ ==> after[reader@] == store[reader@]
        }),
{
}

/// A value that was stored through a handle: by `insert` or, where the type had
/// a value, by `with_mut`.
pub struct Stored<V> {
    pub handle: SharedState,
    pub type_id: u64,
    pub value: V,
}

/// The store after values were stored one after the other.
pub open spec fn after_all<V>(store: Seq<Map<u64, V>>, history: Seq<Stored<V>>) -> Seq<Map<u64, V>>
    decreases history.len(),
{
    if history.len() == 0 {
        store
    } else {
        let before = after_all(store, history.drop_last());
        let last = history.last();
        before.update(last.handle@, before[last.handle@].insert(last.type_id, last.value))
    }
}

/// Whether `i` is a time when a value of the type was stored in the handle's
/// state, through it or another handle.
pub open spec fn stored_at<V>(
    history: Seq<Stored<V>>,
    handle: SharedState,
    type_id: u64,
    i: int,
) -> bool {
    0 <= i < history.len() && history[i].handle@ == handle@ && history[i].type_id == type_id
}

/// A state that was new has a value of a type exactly when one was stored in
/// it, through any of its handles, and the value is the one that was stored
/// last.
pub proof fn law_handles_see_what_was_stored_last<V>(
    store: Seq<Map<u64, V>>,
    history: Seq<Stored<V>>,
    handle: SharedState,
    type_id: u64,
)
    requires
        handle.is_in(store),
        store[handle@] == Map::<u64, V>::empty(),
        forall|i: int| 0 <= i < history.len() ==> (#[trigger] history[i]).handle.is_in(store),
    ensures
        after_all(store, history).len() == store.len(),
        after_all(store, history)[handle@].contains_key(type_id) <==> exists|i: int|
            #[trigger] stored_at(history, handle, type_id, i),
        forall|i: int|
            #[trigger] stored_at(history, handle, type_id, i) && (forall|j: int|
                #[trigger] stored_at(history, handle, type_id, j) ==> j <= i) ==> after_all(
                store,
                history,
            )[handle@][type_id] == history[i].value,
    decreases history.len(),
{
    if history.len() > 0 {
        let earlier = history.drop_last();
        let n = history.len() - 1;
        let before = after_all(store, earlier);
        let after = after_all(store, history);
        assert forall|i: int| 0 <= i < earlier.len() implies (
        #[trigger] earlier[i]).handle.is_in(store) by {
            assert(history[i].handle.is_in(store));
        }
        law_handles_see_what_was_stored_last(store, earlier, handle, type_id);
        assert(history[n].handle.is_in(store));
        assert forall|i: int| i < n implies stored_at(earlier, handle, type_id, i)
            == #[trigger] stored_at(history, handle, type_id, i) by {}
        if stored_at(history, handle, type_id, n) {
            assert(after[handle@].contains_key(type_id));
        } else {
            assert(after[handle@].contains_key(type_id) == before[handle@].contains_key(type_id));
            if exists|i: int| #[trigger] stored_at(earlier, handle, type_id, i) {
                let i = choose|i: int| #[trigger] stored_at(earlier, handle, type_id, i);
                assert(stored_at(history, handle, type_id, i));
            }
            if exists|i: int| #[trigger] stored_at(history, handle, type_id, i) {
                let i = choose|i: int| #[trigger] stored_at(history, handle, type_id, i);
                assert(stored_at(earlier, handle, type_id, i));
            }
            assert forall|i: int|
                #[trigger] stored_at(history, handle, type_id, i) && (forall|j: int|
                    #[trigger] stored_at(history, handle, type_id, j) ==> j <= i) implies after[handle@][type_id]
                == history[i].value by {
                assert(stored_at(earlier, handle, type_id, i));
                assert forall|j: int| #[trigger] stored_at(earlier, handle, type_id, j) implies j
                    <= i by {
                    assert(stored_at(history, handle, type_id, j));
                }
            }
        }
    }
}

} // verus!
