//! The order of texts: character by character, and component by component for
//! relative paths.

use vstd::prelude::*;

use crate::text::{chars_of, views};

verus! {

/// Where a character stands in the order. In paths the separator comes before
/// every other character, so that paths compare component by component.
pub open spec fn rank(c: char, path: bool) -> int {
    if path && c == '/' {
        -1
    } else {
        c as u32 as int
    }
}

/// Whether `a` comes strictly before `b`.
pub open spec fn less(a: Seq<char>, b: Seq<char>, path: bool) -> bool
    decreases a.len(),
{
    if b.len() == 0 {
        false
    } else if a.len() == 0 {
        true
    } else if a[0] == b[0] {
        less(a.drop_first(), b.drop_first(), path)
    } else {
        rank(a[0], path) < rank(b[0], path)
    }
}

proof fn lemma_rank_injective(c: char, d: char, path: bool)
    requires
        c != d,
    ensures
        rank(c, path) != rank(d, path),
{
    assert(c as u32 != d as u32);
}

pub proof fn lemma_less_irreflexive(a: Seq<char>, path: bool)
    ensures
        !less(a, a, path),
    decreases a.len(),
{
    if a.len() > 0 {
        lemma_less_irreflexive(a.drop_first(), path);
    }
}

pub proof fn lemma_less_transitive(a: Seq<char>, b: Seq<char>, c: Seq<char>, path: bool)
    requires
        less(a, b, path),
        less(b, c, path),
    ensures
        less(a, c, path),
    decreases a.len(),
{
    if a.len() > 0 && a[0] == b[0] && b[0] == c[0] {
        lemma_less_transitive(a.drop_first(), b.drop_first(), c.drop_first(), path);
    }
}

pub proof fn lemma_less_total(a: Seq<char>, b: Seq<char>, path: bool)
    ensures
        less(a, b, path) || less(b, a, path) || a == b,
    decreases a.len(),
{
    if a.len() > 0 && b.len() > 0 && a[0] == b[0] {
        lemma_less_total(a.drop_first(), b.drop_first(), path);
        if a.drop_first() == b.drop_first() {
            assert(a =~= seq![a[0]] + a.drop_first());
            assert(b =~= seq![b[0]] + b.drop_first());
        }
    } else if a.len() > 0 && b.len() > 0 {
        lemma_rank_injective(a[0], b[0], path);
    } else if a.len() == 0 && b.len() == 0 {
        assert(a =~= b);
    }
}

fn rank_of(c: char, path: bool) -> (r: i64)
    ensures
        r == rank(c, path),
{
    if path && c == '/' {
        -1
    } else {
        c as u32 as i64
    }
}

pub(crate) fn less_of(a: &str, b: &str, path: bool) -> (r: bool)
    ensures
        r == less(a@, b@, path),
{
    let x = chars_of(a);
    let y = chars_of(b);
    let mut i: usize = 0;
    assert(x@.skip(0) =~= x@);
    assert(y@.skip(0) =~= y@);
    while i < x.len() && i < y.len()
        invariant
            x@ == a@,
            y@ == b@,
            i <= x@.len(),
            i <= y@.len(),
            less(x@, y@, path) == less(x@.skip(i as int), y@.skip(i as int), path),
        decreases x@.len() - i,
    {
        if x[i] != y[i] {
            return rank_of(x[i], path) < rank_of(y[i], path);
        }
        assert(x@.skip(i as int).drop_first() =~= x@.skip(i + 1));
        assert(y@.skip(i as int).drop_first() =~= y@.skip(i + 1));
        i = i + 1;
    }
    i < y.len()
}

/// Whether no text stands before a smaller one.
pub open spec fn sorted_paths(s: Seq<Seq<char>>) -> bool {
    forall|i: int, j: int| 0 <= i < j < s.len() ==> !less(#[trigger] s[j], #[trigger] s[i], true)
}

proof fn lemma_insert_multiset(s: Seq<Seq<char>>, i: int, x: Seq<char>)
    requires
        0 <= i <= s.len(),
    ensures
        s.insert(i, x).to_multiset() == s.to_multiset().insert(x),
{
    broadcast use vstd::seq_lib::group_to_multiset_ensures;

    let t = s.insert(i, x);
    assert(t.remove(i) =~= s);
    assert(t[i] == x);
    assert(t.contains(x));
    assert(t.to_multiset() =~= s.to_multiset().insert(x));
}

/// Sorts paths: the same paths, each as often as before, in path order.
pub fn sort_paths(paths: Vec<String>) -> (r: Vec<String>)
    ensures
        sorted_paths(views(r@)),
        views(r@).to_multiset() == views(paths@).to_multiset(),
{
    let mut out: Vec<String> = Vec::new();
    let mut i: usize = 0;
    assert(views(out@) =~= views(paths@).take(0));
    while i < paths.len()
        invariant
            i <= paths@.len(),
            sorted_paths(views(out@)),
            views(out@).to_multiset() == views(paths@).take(i as int).to_multiset(),
        decreases paths@.len() - i,
    {
        let item = paths[i].clone();
        let mut at: usize = 0;
        while at < out.len() && !less_of(item.as_str(), out[at].as_str(), true)
            invariant
                at <= out@.len(),
                forall|j: int| 0 <= j < at ==> !less(item@, #[trigger] views(out@)[j], true),
            decreases out@.len() - at,
        {
            assert(views(out@)[at as int] == out@[at as int]@);
            at = at + 1;
        }
        let ghost before = views(out@);
        let ghost x = item@;
        proof {
            lemma_insert_multiset(before, at as int, x);
            if at < before.len() {
                assert(before[at as int] == out@[at as int]@);
                assert forall|j: int| at <= j < before.len() implies !less(
                    #[trigger] before[j],
                    x,
                    true,
                ) by {
                    if less(before[j], x, true) {
                        lemma_less_transitive(before[j], x, before[at as int], true);
                        if j == at {
                            lemma_less_irreflexive(x, true);
                            lemma_less_irreflexive(before[j], true);
                        }
                    }
                }
            }
        }
        out.insert(at, item);
        proof {
            broadcast use vstd::seq_lib::group_to_multiset_ensures;

            assert(views(out@) =~= before.insert(at as int, x));
            assert(views(paths@).take(i + 1) =~= views(paths@).take(i as int).push(x));
            assert forall|a: int, b: int| 0 <= a < b < views(out@).len() implies !less(
                #[trigger] views(out@)[b],
                #[trigger] views(out@)[a],
                true,
            ) by {
                let sa = if a < at {
                    before[a]
                } else if a == at {
                    x
                } else {
                    before[a - 1]
                };
                let sb = if b < at {
                    before[b]
                } else if b == at {
                    x
                } else {
                    before[b - 1]
                };
                assert(views(out@)[a] == sa);
                assert(views(out@)[b] == sb);
            }
        }
        i = i + 1;
    }
    assert(views(paths@).take(i as int) =~= views(paths@));
    out
}

/// Only one arrangement of the same texts is in path order.
pub proof fn law_path_order_is_unique(a: Seq<Seq<char>>, b: Seq<Seq<char>>)
    requires
        sorted_paths(a),
        sorted_paths(b),
        a.to_multiset() == b.to_multiset(),
    ensures
        a == b,
    decreases a.len(),
{
    broadcast use vstd::seq_lib::group_to_multiset_ensures;

    assert(a.to_multiset().len() == a.len());
    assert(b.to_multiset().len() == b.len());
    if a.len() == 0 {
        assert(a =~= b);
    } else {
        let x = a.last();
        let y = b.last();
        assert(a.contains(x));
        assert(b.contains(y));
        assert(b.to_multiset().count(x) > 0);
        assert(b.contains(x));
        assert(a.to_multiset().count(y) > 0);
        assert(a.contains(y));
        let i = choose|i: int| 0 <= i < b.len() && b[i] == x;
        let j = choose|j: int| 0 <= j < a.len() && a[j] == y;
        assert(!less(y, x, true)) by {
            if i == b.len() - 1 {
                lemma_less_irreflexive(x, true);
            } else {
                assert(!less(b[b.len() - 1], b[i], true));
            }
        }
        assert(!less(x, y, true)) by {
            if j == a.len() - 1 {
                lemma_less_irreflexive(x, true);
            } else {
                assert(!less(a[a.len() - 1], a[j], true));
            }
        }
        lemma_less_total(x, y, true);
        let a0 = a.drop_last();
        let b0 = b.drop_last();
        assert(a.remove(a.len() - 1) =~= a0);
        assert(b.remove(b.len() - 1) =~= b0);
        assert(sorted_paths(a0)) by {
            assert forall|i: int, j: int| 0 <= i < j < a0.len() implies !less(
                #[trigger] a0[j],
                #[trigger] a0[i],
                true,
            ) by {
                assert(!less(a[j], a[i], true));
            }
        }
        assert(sorted_paths(b0)) by {
            assert forall|i: int, j: int| 0 <= i < j < b0.len() implies !less(
                #[trigger] b0[j],
                #[trigger] b0[i],
                true,
            ) by {
                assert(!less(b[j], b[i], true));
            }
        }
        law_path_order_is_unique(a0, b0);
        assert(a =~= a0.push(x));
        assert(b =~= b0.push(y));
    }
}

/// Texts are compared at the first character in which they differ; a beginning
/// comes before what it begins. In paths, the separator comes before every
/// other character, so that a directory's files stand together.
pub proof fn law_first_difference_decides(
    same: Seq<char>,
    a: char,
    x: Seq<char>,
    b: char,
    y: Seq<char>,
    path: bool,
)
    requires
        a != b,
    ensures
        less(same + seq![a] + x, same + seq![b] + y, path) <==> if path && a == '/' {
            true
        } else if path && b == '/' {
            false
        } else {
            (a as u32) < (b as u32)
        },
        less(same, same + seq![b] + y, path),
        !less(same + seq![b] + y, same, path),
    decreases same.len(),
{
    let p = same + seq![a] + x;
    let q = same + seq![b] + y;
    if same.len() == 0 {
        assert(p[0] == a && q[0] == b);
    } else {
        let rest = same.drop_first();
        law_first_difference_decides(rest, a, x, b, y, path);
        assert(p.drop_first() =~= rest + seq![a] + x);
        assert(q.drop_first() =~= rest + seq![b] + y);
        assert(p[0] == same[0] && q[0] == same[0]);
    }
}

} // verus!
