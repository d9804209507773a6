//! Ordered collections of named values: a sequence of name-value pairs in
//! which every name occurs once.

use vstd::prelude::*;

verus! {

/// Whether no name occurs twice.
pub open spec fn distinct_keys<V>(s: Seq<(Seq<char>, V)>) -> bool {
    forall|i: int, j: int| 0 <= i < j < s.len() ==> (#[trigger] s[i]).0 != (#[trigger] s[j]).0
}

pub open spec fn has_key<V>(s: Seq<(Seq<char>, V)>, key: Seq<char>) -> bool {
    exists|i: int| 0 <= i < s.len() && (#[trigger] s[i]).0 == key
}

/// Where the name stands, when it is there.
pub open spec fn find<V>(s: Seq<(Seq<char>, V)>, key: Seq<char>) -> int {
    choose|i: int| 0 <= i < s.len() && (#[trigger] s[i]).0 == key
}

/// The value under a name.
pub open spec fn lookup<V>(s: Seq<(Seq<char>, V)>, key: Seq<char>) -> Option<V> {
    if has_key(s, key) {
        Some(s[find(s, key)].1)
    } else {
        None
    }
}

/// The collection with `value` under `key`: in the name's old place, or at the
/// end when the name is new.
pub open spec fn put<V>(s: Seq<(Seq<char>, V)>, key: Seq<char>, value: V) -> Seq<(Seq<char>, V)> {
    if has_key(s, key) {
        s.update(find(s, key), (key, value))
    } else {
        s.push((key, value))
    }
}

/// The collection without `key`; the others keep their order.
pub open spec fn without<V>(s: Seq<(Seq<char>, V)>, key: Seq<char>) -> Seq<(Seq<char>, V)> {
    if has_key(s, key) {
        s.remove(find(s, key))
    } else {
        s
    }
}

/// The names, in order.
pub open spec fn keys<V>(s: Seq<(Seq<char>, V)>) -> Seq<Seq<char>> {
    s.map_values(|e: (Seq<char>, V)| e.0)
}

/// The values, in order.
pub open spec fn values<V>(s: Seq<(Seq<char>, V)>) -> Seq<V> {
    s.map_values(|e: (Seq<char>, V)| e.1)
}

/// `put` and `without` keep the names distinct.
pub proof fn lemma_distinct<V>(s: Seq<(Seq<char>, V)>, key: Seq<char>, value: V)
    requires
        distinct_keys(s),
    ensures
        distinct_keys(put(s, key, value)),
        distinct_keys(without(s, key)),
{
    let p = put(s, key, value);
    assert forall|i: int, j: int| 0 <= i < j < p.len() implies (#[trigger] p[i]).0 != (
    #[trigger] p[j]).0 by {
        if has_key(s, key) {
            assert(p[i].0 == s[i].0);
            assert(p[j].0 == s[j].0);
        } else {
            assert(s[i].0 != key);
            if j < s.len() {
                assert(p[j] == s[j]);
            }
        }
    }
    let w = without(s, key);
    if has_key(s, key) {
        let k = find(s, key);
        assert forall|i: int, j: int| 0 <= i < j < w.len() implies (#[trigger] w[i]).0 != (
        #[trigger] w[j]).0 by {
            let a = if i < k {
                i
            } else {
                i + 1
            };
            let b = if j < k {
                j
            } else {
                j + 1
            };
            assert(w[i] == s[a]);
            assert(w[j] == s[b]);
        }
    }
}

/// With distinct names, the place of a name is the one where it is seen.
pub proof fn lemma_find<V>(s: Seq<(Seq<char>, V)>, i: int)
    requires
        distinct_keys(s),
        0 <= i < s.len(),
    ensures
        has_key(s, s[i].0),
        find(s, s[i].0) == i,
        lookup(s, s[i].0) == Some(s[i].1),
{
    let k = find(s, s[i].0);
    assert(s[i].0 == s[i].0);
    if k < i {
        assert(s[k].0 != s[i].0);
    } else if i < k {
        assert(s[i].0 != s[k].0);
    }
}

/// What was put under a name is found there; every other name keeps its value,
/// and no name but this one is added or lost.
pub proof fn law_put_then_lookup<V>(
    s: Seq<(Seq<char>, V)>,
    key: Seq<char>,
    value: V,
    other: Seq<char>,
)
    requires
        distinct_keys(s),
    ensures
        lookup(put(s, key, value), key) == Some(value),
        other != key ==> lookup(put(s, key, value), other) == lookup(s, other),
        has_key(s, key) ==> keys(put(s, key, value)) == keys(s),
        !has_key(s, key) ==> keys(put(s, key, value)) == keys(s).push(key),
{
    let p = put(s, key, value);
    lemma_distinct(s, key, value);
    let at = if has_key(s, key) {
        find(s, key)
    } else {
        s.len() as int
    };
    assert(p[at] == (key, value));
    lemma_find(p, at);
    if other != key {
        if has_key(s, other) {
            let i = find(s, other);
            assert(p[i] == s[i]);
            lemma_find(p, i);
            lemma_find(s, i);
        } else if has_key(p, other) {
            let i = find(p, other);
            assert(i != at);
            assert(s[i].0 == other);
        }
    }
    if has_key(s, key) {
        assert(keys(p) =~= keys(s));
    } else {
        assert(keys(p) =~= keys(s).push(key));
    }
}

/// A removed name is gone, and every other name keeps its value.
pub proof fn law_without_then_lookup<V>(s: Seq<(Seq<char>, V)>, key: Seq<char>, other: Seq<char>)
    requires
        distinct_keys(s),
    ensures
        lookup(without(s, key), key) is None,
        other != key ==> lookup(without(s, key), other) == lookup(s, other),
{
    let w = without(s, key);
    if has_key(s, key) {
        let k = find(s, key);
        lemma_distinct(s, key, s[k].1);
        if has_key(w, key) {
            let i = find(w, key);
            let a = if i < k {
                i
            } else {
                i + 1
            };
            assert(w[i] == s[a]);
            if a < k {
                assert(s[a].0 != s[k].0);
            } else {
                assert(s[k].0 != s[a].0);
            }
        }
        if other != key {
            if has_key(s, other) {
                let i = find(s, other);
                let b = if i < k {
                    i
                } else {
                    i - 1
                };
                assert(w[b] == s[i]);
                lemma_find(w, b);
                lemma_find(s, i);
            } else if has_key(w, other) {
                let i = find(w, other);
                let a = if i < k {
                    i
                } else {
                    i + 1
                };
                assert(w[i] == s[a]);
                assert(s[a].0 == other);
            }
        }
    }
}

/// The items whose flag is `want`, in order.
pub open spec fn pick<A>(items: Seq<A>, flags: Seq<bool>, want: bool) -> Seq<A>
    decreases items.len(),
{
    if items.len() == 0 {
        Seq::empty()
    } else if flags.last() == want {
        pick(items.drop_last(), flags.drop_last(), want).push(items.last())
    } else {
        pick(items.drop_last(), flags.drop_last(), want)
    }
}

pub proof fn lemma_pick<A>(items: Seq<A>, flags: Seq<bool>, want: bool, i: int)
    requires
        items.len() == flags.len(),
        0 <= i < items.len(),
        flags[i] == want,
    ensures
        exists|j: int|
            0 <= j < pick(items, flags, want).len() && #[trigger] pick(items, flags, want)[j]
                == items[i],
    decreases items.len(),
{
    let rest = pick(items.drop_last(), flags.drop_last(), want);
    let all = pick(items, flags, want);
    if i == items.len() - 1 {
        assert(all[all.len() - 1] == items[i]);
    } else {
        lemma_pick(items.drop_last(), flags.drop_last(), want, i);
        let j = choose|j: int| 0 <= j < rest.len() && #[trigger] rest[j] == items.drop_last()[i];
        assert(all[j] == items[i]);
    }
}

} // verus!
