//! The order of a context: messages that are kept stand in the order in which
//! they are stored, and a message that replaces others stands in their place.

use vstd::prelude::*;

use crate::message::{message_views, same_message, Message, MessageView};

verus! {

/// Whether `places` says where the messages of a context are stored: in
/// increasing places, but for messages that were made, which have none.
pub open spec fn stored_at(
    context: Seq<MessageView>,
    stored: Seq<MessageView>,
    made: Set<MessageView>,
    places: Seq<Option<int>>,
) -> bool {
    &&& places.len() == context.len()
    &&& forall|i: int|
        0 <= i < places.len() ==> match #[trigger] places[i] {
            Some(p) => 0 <= p < stored.len() && context[i] == stored[p],
            None => made.contains(context[i]),
        }
    &&& increasing(places)
}

/// Whether the places that are given increase.
pub open spec fn increasing(places: Seq<Option<int>>) -> bool {
    forall|i: int, j: int|
        0 <= i < j < places.len() && (#[trigger] places[i]) is Some && (#[trigger] places[j]) is Some
            ==> places[i]->0 < places[j]->0
}

/// Whether a context holds messages in order of occurrence: without those that
/// were made, it is a part of what is stored, in the same order.
pub open spec fn in_order(
    context: Seq<MessageView>,
    stored: Seq<MessageView>,
    made: Set<MessageView>,
) -> bool {
    exists|places: Seq<Option<int>>| stored_at(context, stored, made, places)
}

/// A whole conversation is in order.
pub proof fn lemma_whole_in_order(stored: Seq<MessageView>, made: Set<MessageView>)
    ensures
        in_order(stored, stored, made),
{
    let places = Seq::new(stored.len(), |i: int| Some(i));
    assert(stored_at(stored, stored, made, places));
}

/// The places of the flags that are `want`.
pub open spec fn places_where(flags: Seq<bool>, want: bool) -> Seq<int>
    decreases flags.len(),
{
    if flags.len() == 0 {
        Seq::empty()
    } else if flags.last() == want {
        places_where(flags.drop_last(), want).push(flags.len() - 1)
    } else {
        places_where(flags.drop_last(), want)
    }
}

/// The items at some places.
pub open spec fn at_places<A>(items: Seq<A>, places: Seq<int>) -> Seq<A> {
    places.map_values(|p: int| items[p])
}

/// The places of flags increase, and are those of the flags that are wanted.
pub proof fn lemma_places_where(flags: Seq<bool>, want: bool)
    ensures
        ({
            let places = places_where(flags, want);
            &&& places.len() <= flags.len()
            &&& forall|i: int|
                0 <= i < places.len() ==> 0 <= #[trigger] places[i] < flags.len()
                    && flags[places[i]] == want
            &&& forall|i: int, j: int| 0 <= i < j < places.len() ==> places[i] < places[j]
        }),
    decreases flags.len(),
{
    if flags.len() > 0 {
        lemma_places_where(flags.drop_last(), want);
        let earlier = places_where(flags.drop_last(), want);
        let places = places_where(flags, want);
        assert forall|i: int| 0 <= i < places.len() implies 0 <= #[trigger] places[i] < flags.len()
            && flags[places[i]] == want by {
            if i < earlier.len() {
                assert(places[i] == earlier[i]);
            }
        }
    }
}

/// Every wanted flag has its place.
pub proof fn lemma_place_of(flags: Seq<bool>, want: bool, i: int)
    requires
        0 <= i < flags.len(),
        flags[i] == want,
    ensures
        exists|j: int|
            0 <= j < places_where(flags, want).len() && #[trigger] places_where(flags, want)[j]
                == i,
    decreases flags.len(),
{
    let earlier = places_where(flags.drop_last(), want);
    let places = places_where(flags, want);
    if i == flags.len() - 1 {
        assert(places[places.len() - 1] == i);
    } else {
        lemma_place_of(flags.drop_last(), want, i);
        let j = choose|j: int| 0 <= j < earlier.len() && #[trigger] earlier[j] == i;
        assert(places[j] == i);
    }
}

/// Where a message stands last, if it is there.
pub open spec fn last_place(messages: Seq<MessageView>, message: MessageView) -> Option<int>
    decreases messages.len(),
{
    if messages.len() == 0 {
        None
    } else if messages.last() == message {
        Some(messages.len() - 1)
    } else {
        last_place(messages.drop_last(), message)
    }
}

/// For each message of an answer, which of the candidates it is; none for a
/// message that was made. The answer is matched from its end, each message with
/// the last candidate that is left.
pub open spec fn kept_places(candidates: Seq<MessageView>, answer: Seq<MessageView>) -> Seq<
    Option<int>,
>
    decreases answer.len(),
{
    if answer.len() == 0 {
        Seq::empty()
    } else {
        match last_place(candidates, answer.last()) {
            Some(p) => kept_places(candidates.take(p), answer.drop_last()).push(Some(p)),
            None => kept_places(candidates, answer.drop_last()).push(None),
        }
    }
}

/// The messages of an answer that are none of the candidates.
pub open spec fn made_in(candidates: Seq<MessageView>, answer: Seq<MessageView>) -> Set<
    MessageView,
> {
    Set::new(
        |m: MessageView|
            exists|i: int|
                0 <= i < answer.len() && #[trigger] answer[i] == m && kept_places(
                    candidates,
                    answer,
                )[i] is None,
    )
}

/// The place behind the last one that is given.
pub open spec fn behind(places: Seq<Option<int>>) -> int
    decreases places.len(),
{
    if places.len() == 0 {
        0
    } else {
        match places.last() {
            Some(p) => p + 1,
            None => behind(places.drop_last()),
        }
    }
}

/// Where a message of an answer stands among the candidates: a kept one in its
/// own place; a made one in the place of the first candidate that it replaces,
/// behind the last one that is kept before it.
pub open spec fn stand(places: Seq<Option<int>>, i: int) -> int {
    match places[i] {
        Some(p) => p,
        None => behind(places.take(i)),
    }
}

/// A message of a context, and its place in what is stored.
pub struct Entry {
    /// The place; behind the last one for a message that stands at the end.
    pub place: int,
    /// Whether it is the message that is stored there.
    pub stored: bool,
    pub protected: bool,
    pub message: MessageView,
}

pub open spec fn entry_messages(entries: Seq<Entry>) -> Seq<MessageView> {
    entries.map_values(|e: Entry| e.message)
}

pub open spec fn entry_flags(entries: Seq<Entry>) -> Seq<bool> {
    entries.map_values(|e: Entry| e.protected)
}

/// The exempt messages, each in its place; they are protected.
pub open spec fn exempt_entries(messages: Seq<MessageView>, exempt: Seq<bool>) -> Seq<Entry> {
    places_where(exempt, true).map_values(
        |p: int| Entry { place: p, stored: true, protected: true, message: messages[p] },
    )
}

/// The messages that may be trimmed.
pub open spec fn candidates_in(messages: Seq<MessageView>, exempt: Seq<bool>) -> Seq<MessageView> {
    at_places(messages, places_where(exempt, false))
}

/// The messages of an answer, each where it stands.
pub open spec fn answer_entries(
    messages: Seq<MessageView>,
    exempt: Seq<bool>,
    answer: Seq<MessageView>,
) -> Seq<Entry> {
    let free = places_where(exempt, false);
    let kept = kept_places(candidates_in(messages, exempt), answer);
    Seq::new(
        answer.len(),
        |i: int|
            Entry {
                place: if stand(kept, i) < free.len() {
                    free[stand(kept, i)]
                } else {
                    messages.len() as int
                },
                stored: kept[i] is Some,
                protected: false,
                message: answer[i],
            },
    )
}

/// Two lists of entries as one, by their places.
pub open spec fn merge(a: Seq<Entry>, b: Seq<Entry>) -> Seq<Entry>
    decreases a.len() + b.len(),
{
    if a.len() == 0 {
        b
    } else if b.len() == 0 {
        a
    } else if a[0].place < b[0].place {
        seq![a[0]] + merge(a.skip(1), b)
    } else {
        seq![b[0]] + merge(a, b.skip(1))
    }
}

/// The exempt messages and an answer on the others, in the order of their
/// places.
pub open spec fn merged(
    messages: Seq<MessageView>,
    exempt: Seq<bool>,
    answer: Seq<MessageView>,
) -> Seq<Entry> {
    merge(exempt_entries(messages, exempt), answer_entries(messages, exempt, answer))
}

/// Whether entries stand by their places, no two stored ones in the same.
spec fn sorted(entries: Seq<Entry>) -> bool {
    forall|i: int, j: int|
        0 <= i < j < entries.len() ==> {
            let x = #[trigger] entries[i];
            let y = #[trigger] entries[j];
            x.place <= y.place && (x.stored && y.stored ==> x.place < y.place)
        }
}

spec fn apart(a: Seq<Entry>, b: Seq<Entry>) -> bool {
    forall|i: int, j: int|
        0 <= i < a.len() && 0 <= j < b.len() ==> (#[trigger] a[i]).place != (#[trigger] b[j]).place
}

/// Putting an entry before others that stand behind it.
proof fn lemma_first(first: Entry, rest: Seq<Entry>)
    requires
        sorted(rest),
        forall|i: int|
            0 <= i < rest.len() ==> first.place <= (#[trigger] rest[i]).place && (first.stored
                && rest[i].stored ==> first.place < rest[i].place),
    ensures
        sorted(seq![first] + rest),
{
    let all = seq![first] + rest;
    assert forall|i: int, j: int| 0 <= i < j < all.len() implies {
        let x = #[trigger] all[i];
        let y = #[trigger] all[j];
        x.place <= y.place && (x.stored && y.stored ==> x.place < y.place)
    } by {
        assert(all[j] == rest[j - 1]);
        if i > 0 {
            assert(all[i] == rest[i - 1]);
        }
    }
}

proof fn lemma_merge_sorted(a: Seq<Entry>, b: Seq<Entry>)
    requires
        sorted(a),
        sorted(b),
        apart(a, b),
    ensures
        sorted(merge(a, b)),
    decreases a.len() + b.len(),
{
    if a.len() > 0 && b.len() > 0 {
        if a[0].place < b[0].place {
            let rest = a.skip(1);
            assert(sorted(rest)) by {
                assert forall|i: int, j: int| 0 <= i < j < rest.len() implies {
                    let x = #[trigger] rest[i];
                    let y = #[trigger] rest[j];
                    x.place <= y.place && (x.stored && y.stored ==> x.place < y.place)
                } by {
                    assert(rest[i] == a[i + 1] && rest[j] == a[j + 1]);
                }
            }
            assert(apart(rest, b)) by {
                assert forall|i: int, j: int|
                    0 <= i < rest.len() && 0 <= j < b.len() implies (#[trigger] rest[i]).place != (
                #[trigger] b[j]).place by {
                    assert(rest[i] == a[i + 1]);
                }
            }
            lemma_merge_sorted(rest, b);
            lemma_merge_members(rest, b);
            let m = merge(rest, b);
            assert forall|i: int| 0 <= i < m.len() implies a[0].place <= (#[trigger] m[i]).place && (
            a[0].stored && m[i].stored ==> a[0].place < m[i].place) by {
                if rest.contains(m[i]) {
                    let k = choose|k: int| 0 <= k < rest.len() && rest[k] == m[i];
                    assert(a[k + 1] == m[i]);
                } else {
                    let k = choose|k: int| 0 <= k < b.len() && b[k] == m[i];
                    assert(b[0].place <= b[k].place);
                }
            }
            lemma_first(a[0], m);
        } else {
            let rest = b.skip(1);
            assert(a[0].place != b[0].place);
            assert(sorted(rest)) by {
                assert forall|i: int, j: int| 0 <= i < j < rest.len() implies {
                    let x = #[trigger] rest[i];
                    let y = #[trigger] rest[j];
                    x.place <= y.place && (x.stored && y.stored ==> x.place < y.place)
                } by {
                    assert(rest[i] == b[i + 1] && rest[j] == b[j + 1]);
                }
            }
            assert(apart(a, rest)) by {
                assert forall|i: int, j: int|
                    0 <= i < a.len() && 0 <= j < rest.len() implies (#[trigger] a[i]).place != (
                #[trigger] rest[j]).place by {
                    assert(rest[j] == b[j + 1]);
                }
            }
            lemma_merge_sorted(a, rest);
            lemma_merge_members(a, rest);
            let m = merge(a, rest);
            assert forall|i: int| 0 <= i < m.len() implies b[0].place <= (#[trigger] m[i]).place && (
            b[0].stored && m[i].stored ==> b[0].place < m[i].place) by {
                if rest.contains(m[i]) {
                    let k = choose|k: int| 0 <= k < rest.len() && rest[k] == m[i];
                    assert(b[k + 1] == m[i]);
                } else {
                    let k = choose|k: int| 0 <= k < a.len() && a[k] == m[i];
                    assert(a[0].place <= a[k].place);
                }
            }
            lemma_first(b[0], m);
        }
    }
}

/// Merging loses no entry and adds none.
pub proof fn lemma_merge_members(a: Seq<Entry>, b: Seq<Entry>)
    ensures
        merge(a, b).len() == a.len() + b.len(),
        forall|e: Entry| #[trigger] merge(a, b).contains(e) <==> a.contains(e) || b.contains(e),
        forall|i: int|
            0 <= i < merge(a, b).len() ==> a.contains(#[trigger] merge(a, b)[i]) || b.contains(
                merge(a, b)[i],
            ),
    decreases a.len() + b.len(),
{
    let m = merge(a, b);
    if a.len() > 0 && b.len() > 0 {
        let (first, rest) = if a[0].place < b[0].place {
            lemma_merge_members(a.skip(1), b);
            (a[0], merge(a.skip(1), b))
        } else {
            lemma_merge_members(a, b.skip(1));
            (b[0], merge(a, b.skip(1)))
        };
        lemma_contains_first(first, rest);
        if a[0].place < b[0].place {
            assert(a =~= seq![a[0]] + a.skip(1));
            lemma_contains_first(a[0], a.skip(1));
        } else {
            assert(b =~= seq![b[0]] + b.skip(1));
            lemma_contains_first(b[0], b.skip(1));
        }
    } else if a.len() == 0 {
        assert(forall|e: Entry| !a.contains(e));
    } else {
        assert(forall|e: Entry| !b.contains(e));
    }
    assert forall|i: int| 0 <= i < m.len() implies a.contains(#[trigger] m[i]) || b.contains(m[i]) by {
        assert(m.contains(m[i]));
    }
}

proof fn lemma_contains_first(first: Entry, rest: Seq<Entry>)
    ensures
        forall|e: Entry| #[trigger]
            (seq![first] + rest).contains(e) <==> e == first || rest.contains(e),
{
    let all = seq![first] + rest;
    assert forall|e: Entry| #[trigger] all.contains(e) <==> e == first || rest.contains(e) by {
        if e == first {
            assert(all[0] == e);
        }
        if rest.contains(e) {
            let i = choose|i: int| 0 <= i < rest.len() && rest[i] == e;
            assert(all[i + 1] == e);
        }
        if all.contains(e) && e != first {
            let i = choose|i: int| 0 <= i < all.len() && all[i] == e;
            assert(rest[i - 1] == e);
        }
    }
}

proof fn lemma_last_place(messages: Seq<MessageView>, message: MessageView)
    ensures
        match last_place(messages, message) {
            Some(p) => {
                &&& 0 <= p < messages.len()
                &&& messages[p] == message
                &&& forall|i: int| p < i < messages.len() ==> #[trigger] messages[i] != message
            },
            None => forall|i: int| 0 <= i < messages.len() ==> #[trigger] messages[i] != message,
        },
    decreases messages.len(),
{
    if messages.len() > 0 && messages.last() != message {
        let earlier = messages.drop_last();
        lemma_last_place(earlier, message);
        assert forall|i: int|
            0 <= i < messages.len() && (last_place(messages, message) is None || i > last_place(
                messages,
                message,
            )->0) implies #[trigger] messages[i] != message by {
            if i < earlier.len() {
                assert(earlier[i] != message);
            }
        }
    }
}

/// The kept messages of an answer are candidates, in increasing places.
pub proof fn lemma_kept_places(candidates: Seq<MessageView>, answer: Seq<MessageView>)
    ensures
        kept_places(candidates, answer).len() == answer.len(),
        increasing(kept_places(candidates, answer)),
        forall|i: int|
            0 <= i < answer.len() ==> (#[trigger] kept_places(candidates, answer)[i] matches Some(p)
                ==> 0 <= p < candidates.len() && candidates[p] == answer[i]),
    decreases answer.len(),
{
    if answer.len() > 0 {
        let places = kept_places(candidates, answer);
        let left = match last_place(candidates, answer.last()) {
            Some(p) => candidates.take(p),
            None => candidates,
        };
        lemma_last_place(candidates, answer.last());
        lemma_kept_places(left, answer.drop_last());
        let earlier = kept_places(left, answer.drop_last());
        assert forall|i: int| 0 <= i < answer.len() implies (#[trigger] places[i] matches Some(p)
            ==> 0 <= p < candidates.len() && candidates[p] == answer[i]) by {
            if i < earlier.len() {
                assert(places[i] == earlier[i]);
            }
        }
        assert forall|i: int, j: int|
            0 <= i < j < places.len() && (#[trigger] places[i]) is Some && (
            #[trigger] places[j]) is Some implies places[i]->0 < places[j]->0 by {
            assert(places[i] == earlier[i]);
            if j < earlier.len() {
                assert(places[j] == earlier[j]);
            }
        }
    }
}

proof fn lemma_behind(places: Seq<Option<int>>, n: int)
    requires
        increasing(places),
        forall|i: int| 0 <= i < places.len() ==> (#[trigger] places[i] matches Some(p) ==> 0 <= p),
        0 <= n <= places.len(),
    ensures
        0 <= behind(places.take(n)),
        forall|k: int|
            0 <= k < n ==> (#[trigger] places[k] matches Some(p) ==> p < behind(places.take(n))),
        behind(places.take(n)) == 0 || exists|k: int|
            0 <= k < n && #[trigger] places[k] == Some(behind(places.take(n)) - 1),
    decreases n,
{
    if n > 0 {
        lemma_behind(places, n - 1);
        assert(places.take(n).drop_last() =~= places.take(n - 1));
        assert(places.take(n).last() == places[n - 1]);
        if places[n - 1] is Some {
            assert(places[n - 1] == Some(behind(places.take(n)) - 1));
        } else if behind(places.take(n)) != 0 {
            let k = choose|k: int|
                0 <= k < n - 1 && #[trigger] places[k] == Some(behind(places.take(n - 1)) - 1);
            assert(places[k] == Some(behind(places.take(n)) - 1));
        }
    }
}

proof fn lemma_stand(places: Seq<Option<int>>, n: int, i: int)
    requires
        increasing(places),
        forall|k: int|
            0 <= k < places.len() ==> (#[trigger] places[k] matches Some(p) ==> 0 <= p < n),
        0 <= n,
        0 <= i < places.len(),
    ensures
        0 <= stand(places, i) <= n,
        places[i] is Some ==> stand(places, i) < n,
{
    lemma_behind(places, i);
    if places[i] is None && behind(places.take(i)) != 0 {
        let k = choose|k: int|
            0 <= k < i && #[trigger] places[k] == Some(behind(places.take(i)) - 1);
        assert(places[k] is Some);
    }
}

proof fn lemma_stands_increase(places: Seq<Option<int>>, n: int, i: int, j: int)
    requires
        increasing(places),
        forall|k: int|
            0 <= k < places.len() ==> (#[trigger] places[k] matches Some(p) ==> 0 <= p < n),
        0 <= i < j < places.len(),
    ensures
        stand(places, i) <= stand(places, j),
        places[i] is Some ==> stand(places, i) < stand(places, j),
{
    lemma_behind(places, i);
    lemma_behind(places, j);
    if places[i] is None && behind(places.take(i)) != 0 {
        let k = choose|k: int|
            0 <= k < i && #[trigger] places[k] == Some(behind(places.take(i)) - 1);
        if places[j] is Some {
            assert(places[k]->0 < places[j]->0);
        }
    }
}

/// What holds of the entries of an answer.
proof fn lemma_answer_entries(
    messages: Seq<MessageView>,
    exempt: Seq<bool>,
    answer: Seq<MessageView>,
)
    requires
        messages.len() == exempt.len(),
    ensures
        sorted(answer_entries(messages, exempt, answer)),
        sorted(exempt_entries(messages, exempt)),
        apart(exempt_entries(messages, exempt), answer_entries(messages, exempt, answer)),
        forall|i: int|
            0 <= i < answer.len() ==> {
                let e = #[trigger] answer_entries(messages, exempt, answer)[i];
                &&& e.stored ==> 0 <= e.place < messages.len() && e.message == messages[e.place]
                &&& !e.stored ==> made_in(candidates_in(messages, exempt), answer).contains(
                    e.message,
                )
            },
{
    let free = places_where(exempt, false);
    let taken = places_where(exempt, true);
    let candidates = candidates_in(messages, exempt);
    let kept = kept_places(candidates, answer);
    let a = exempt_entries(messages, exempt);
    let b = answer_entries(messages, exempt, answer);
    lemma_places_where(exempt, false);
    lemma_places_where(exempt, true);
    lemma_kept_places(candidates, answer);
    let n = free.len() as int;
    assert(forall|k: int|
        0 <= k < kept.len() ==> (#[trigger] kept[k] matches Some(p) ==> 0 <= p < n));
    assert forall|i: int, j: int| 0 <= i < j < b.len() implies {
        let x = #[trigger] b[i];
        let y = #[trigger] b[j];
        x.place <= y.place && (x.stored && y.stored ==> x.place < y.place)
    } by {
        lemma_stand(kept, n, i);
        lemma_stand(kept, n, j);
        lemma_stands_increase(kept, n, i, j);
        let s = stand(kept, i);
        let t = stand(kept, j);
        if t < n {
            if s < t {
                assert(free[s] < free[t]);
            }
        } else if s < n {
            assert(free[s] < messages.len());
        }
    }
    assert forall|i: int, j: int| 0 <= i < j < a.len() implies {
        let x = #[trigger] a[i];
        let y = #[trigger] a[j];
        x.place <= y.place && (x.stored && y.stored ==> x.place < y.place)
    } by {
        assert(taken[i] < taken[j]);
    }
    assert forall|i: int, j: int| 0 <= i < a.len() && 0 <= j < b.len() implies (
    #[trigger] a[i]).place != (#[trigger] b[j]).place by {
        lemma_stand(kept, n, j);
        assert(exempt[taken[i]]);
        if stand(kept, j) < n {
            assert(!exempt[free[stand(kept, j)]]);
        }
    }
    assert forall|i: int| 0 <= i < answer.len() implies {
        let e = #[trigger] b[i];
        &&& e.stored ==> 0 <= e.place < messages.len() && e.message == messages[e.place]
        &&& !e.stored ==> made_in(candidates, answer).contains(e.message)
    } by {
        match kept[i] {
            Some(p) => {
                assert(candidates[p] == messages[free[p]]);
            },
            None => {
                assert(answer[i] == b[i].message);
            },
        }
    }
}

/// The exempt messages and an answer on the others come in order of occurrence:
/// all that are stored, in the order in which they are, and the messages that
/// were made between them.
pub proof fn law_merged_is_in_order(
    messages: Seq<MessageView>,
    exempt: Seq<bool>,
    answer: Seq<MessageView>,
)
    requires
        messages.len() == exempt.len(),
    ensures
        in_order(
            entry_messages(merged(messages, exempt, answer)),
            messages,
            made_in(candidates_in(messages, exempt), answer),
        ),
{
    let a = exempt_entries(messages, exempt);
    let b = answer_entries(messages, exempt, answer);
    let made = made_in(candidates_in(messages, exempt), answer);
    let m = merged(messages, exempt, answer);
    lemma_places_where(exempt, true);
    lemma_answer_entries(messages, exempt, answer);
    lemma_merge_sorted(a, b);
    lemma_merge_members(a, b);
    let places = Seq::new(
        m.len(),
        |i: int|
            if m[i].stored {
                Some(m[i].place)
            } else {
                None
            },
    );
    assert forall|i: int| 0 <= i < places.len() implies match #[trigger] places[i] {
        Some(p) => 0 <= p < messages.len() && entry_messages(m)[i] == messages[p],
        None => made.contains(entry_messages(m)[i]),
    } by {
        if a.contains(m[i]) {
            let k = choose|k: int| 0 <= k < a.len() && a[k] == m[i];
            assert(a[k].place == places_where(exempt, true)[k]);
        } else {
            let k = choose|k: int| 0 <= k < b.len() && b[k] == m[i];
            assert(b[k] == m[i]);
        }
    }
    assert forall|i: int, j: int|
        0 <= i < j < places.len() && (#[trigger] places[i]) is Some && (
        #[trigger] places[j]) is Some implies places[i]->0 < places[j]->0 by {
        assert(m[i].stored && m[j].stored);
    }
    assert(stored_at(entry_messages(m), messages, made, places));
}

/// An answer that only keeps candidates, in their order, makes none.
pub proof fn law_kept_messages_are_not_made(
    candidates: Seq<MessageView>,
    answer: Seq<MessageView>,
)
    requires
        in_order(answer, candidates, Set::empty()),
    ensures
        made_in(candidates, answer) == Set::<MessageView>::empty(),
        forall|i: int|
            0 <= i < answer.len() ==> #[trigger] kept_places(candidates, answer)[i] is Some,
{
    let places = choose|places: Seq<Option<int>>|
        stored_at(answer, candidates, Set::empty(), places);
    lemma_all_kept(candidates, answer, places);
    lemma_kept_places(candidates, answer);
    assert(made_in(candidates, answer) =~= Set::empty()) by {
        assert forall|m: MessageView| !made_in(candidates, answer).contains(m) by {
            if made_in(candidates, answer).contains(m) {
                let i = choose|i: int|
                    0 <= i < answer.len() && #[trigger] answer[i] == m && kept_places(
                        candidates,
                        answer,
                    )[i] is None;
                assert(kept_places(candidates, answer)[i] is Some);
            }
        }
    }
}

proof fn lemma_all_kept(
    candidates: Seq<MessageView>,
    answer: Seq<MessageView>,
    places: Seq<Option<int>>,
)
    requires
        stored_at(answer, candidates, Set::empty(), places),
    ensures
        forall|i: int|
            0 <= i < answer.len() ==> #[trigger] kept_places(candidates, answer)[i] is Some,
    decreases answer.len(),
{
    if answer.len() > 0 {
        let n = answer.len() - 1;
        let last = places[n]->0;
        assert(places[n] is Some);
        assert(candidates[last] == answer.last());
        lemma_last_place(candidates, answer.last());
        let p = last_place(candidates, answer.last())->0;
        let left = candidates.take(p);
        let earlier = places.drop_last();
        assert(stored_at(answer.drop_last(), left, Set::empty(), earlier)) by {
            assert forall|i: int| 0 <= i < earlier.len() implies match #[trigger] earlier[i] {
                Some(q) => 0 <= q < left.len() && answer.drop_last()[i] == left[q],
                None => Set::<MessageView>::empty().contains(answer.drop_last()[i]),
            } by {
                assert(places[i] is Some);
                assert(places[i]->0 < places[n]->0);
            }
            assert forall|i: int, j: int|
                0 <= i < j < earlier.len() && (#[trigger] earlier[i]) is Some && (
                #[trigger] earlier[j]) is Some implies earlier[i]->0 < earlier[j]->0 by {
                assert(places[i]->0 < places[j]->0);
            }
        }
        lemma_all_kept(left, answer.drop_last(), earlier);
        lemma_kept_places(left, answer.drop_last());
        let all = kept_places(candidates, answer);
        assert forall|i: int| 0 <= i < answer.len() implies #[trigger] all[i] is Some by {
            if i < n {
                assert(all[i] == kept_places(left, answer.drop_last())[i]);
            }
        }
    }
}

/// Where nothing is exempt, the context is the answer as it is.
pub proof fn law_without_exempt_the_answer_stands(
    messages: Seq<MessageView>,
    exempt: Seq<bool>,
    answer: Seq<MessageView>,
)
    requires
        forall|i: int| 0 <= i < exempt.len() ==> !#[trigger] exempt[i],
    ensures
        entry_messages(merged(messages, exempt, answer)) == answer,
{
    lemma_places_where(exempt, true);
    let a = exempt_entries(messages, exempt);
    if a.len() > 0 {
        assert(exempt[places_where(exempt, true)[0]]);
    }
    assert(entry_messages(merged(messages, exempt, answer)) =~= answer);
}

/// Where all candidates are kept, the context is the whole conversation.
pub proof fn law_keeping_all_is_the_whole(messages: Seq<MessageView>, exempt: Seq<bool>)
    requires
        messages.len() == exempt.len(),
    ensures
        entry_messages(merged(messages, exempt, candidates_in(messages, exempt))) == messages,
{
    let candidates = candidates_in(messages, exempt);
    let m = entry_messages(merged(messages, exempt, candidates));
    lemma_whole_in_order(candidates, Set::empty());
    law_kept_messages_are_not_made(candidates, candidates);
    law_merged_is_in_order(messages, exempt, candidates);
    lemma_merge_members(
        exempt_entries(messages, exempt),
        answer_entries(messages, exempt, candidates),
    );
    lemma_places_split(exempt);
    let places = choose|places: Seq<Option<int>>|
        stored_at(m, messages, Set::empty(), places);
    assert forall|i: int| 0 <= i < m.len() implies m[i] == messages[i] by {
        assert forall|k: int| 0 <= k < places.len() implies (#[trigger] places[k]) is Some by {}
        lemma_full(places, messages.len() as int, i, i);
        assert(places[i] == Some(i));
    }
    assert(m =~= messages);
}

proof fn lemma_places_split(flags: Seq<bool>)
    ensures
        places_where(flags, true).len() + places_where(flags, false).len() == flags.len(),
    decreases flags.len(),
{
    if flags.len() > 0 {
        lemma_places_split(flags.drop_last());
    }
}

/// As many increasing places as there are leave no gap.
proof fn lemma_full(places: Seq<Option<int>>, n: int, low: int, high: int)
    requires
        increasing(places),
        places.len() == n,
        forall|k: int| 0 <= k < n ==> (#[trigger] places[k]) is Some && 0 <= places[k]->0 < n,
        0 <= low < n,
        0 <= high < n,
    ensures
        places[low]->0 >= low,
        places[high]->0 <= high,
    decreases low + (n - high),
{
    if low > 0 {
        lemma_full(places, n, low - 1, high);
        assert(places[low - 1]->0 < places[low]->0);
    }
    if high < n - 1 {
        lemma_full(places, n, low, high + 1);
        assert(places[high]->0 < places[high + 1]->0);
    }
}

/// A part of a conversation that goes up to its end is in order.
pub proof fn lemma_tail_in_order(stored: Seq<MessageView>, start: int)
    requires
        0 <= start <= stored.len(),
    ensures
        in_order(stored.skip(start), stored, Set::empty()),
{
    let tail = stored.skip(start);
    let places = Seq::new(tail.len(), |i: int| Some(i + start));
    assert(stored_at(tail, stored, Set::empty(), places));
}

pub open spec fn as_ints(places: Seq<usize>) -> Seq<int> {
    places.map_values(|p: usize| p as int)
}

pub open spec fn as_places(places: Seq<Option<usize>>) -> Seq<Option<int>> {
    places.map_values(
        |p: Option<usize>|
            match p {
                Some(p) => Some(p as int),
                None => None,
            },
    )
}

/// The places of the flags that are `want`.
pub(crate) fn find_places(flags: &Vec<bool>, want: bool) -> (r: Vec<usize>)
    ensures
        as_ints(r@) == places_where(flags@, want),
{
    let mut out: Vec<usize> = Vec::new();
    let mut i: usize = 0;
    assert(flags@.take(0) =~= Seq::empty());
    assert(as_ints(out@) =~= Seq::empty());
    while i < flags.len()
        invariant
            i <= flags@.len(),
            as_ints(out@) == places_where(flags@.take(i as int), want),
        decreases flags@.len() - i,
    {
        assert(flags@.take(i + 1).drop_last() =~= flags@.take(i as int));
        let ghost before = out@;
        if flags[i] == want {
            out.push(i);
            assert(as_ints(out@) =~= as_ints(before).push(i as int));
        }
        i = i + 1;
    }
    assert(flags@.take(i as int) =~= flags@);
    out
}

/// Matches an answer with the candidates that stand at the places `free`.
fn find_kept(messages: &Vec<Message>, free: &Vec<usize>, answer: &Vec<Message>) -> (r: Vec<
    Option<usize>,
>)
    requires
        forall|i: int| 0 <= i < free@.len() ==> #[trigger] free@[i] < messages@.len(),
    ensures
        as_places(r@) == kept_places(
            at_places(message_views(messages@), as_ints(free@)),
            message_views(answer@),
        ),
{
    let ghost candidates = at_places(message_views(messages@), as_ints(free@));
    let ghost views = message_views(answer@);
    let ghost all = kept_places(candidates, views);
    let n: usize = answer.len();
    let mut found: Vec<Option<usize>> = Vec::new();
    let mut filled: usize = 0;
    while filled < n
        invariant
            filled <= n,
            found@.len() == filled,
            forall|k: int| 0 <= k < filled ==> #[trigger] found@[k] is None,
        decreases n - filled,
    {
        found.push(None);
        filled = filled + 1;
    }
    let mut left: usize = free.len();
    let mut i: usize = n;
    assert(candidates.take(left as int) =~= candidates);
    assert(views.take(i as int) =~= views);
    assert(as_places(found@).skip(i as int) =~= Seq::empty());
    assert(all =~= kept_places(candidates.take(left as int), views.take(i as int)) + as_places(
        found@,
    ).skip(i as int));
    while i > 0
        invariant
            n == answer@.len(),
            i <= n,
            left <= free@.len(),
            found@.len() == n,
            forall|k: int| 0 <= k < i ==> #[trigger] found@[k] is None,
            forall|k: int| 0 <= k < free@.len() ==> #[trigger] free@[k] < messages@.len(),
            candidates == at_places(message_views(messages@), as_ints(free@)),
            views == message_views(answer@),
            all == kept_places(candidates.take(left as int), views.take(i as int)) + as_places(
                found@,
            ).skip(i as int),
        decreases i,
    {
        let ghost rest = candidates.take(left as int);
        let ghost before = found@;
        let ghost message = views[i - 1];
        let mut p: usize = left;
        while p > 0 && !same_message(&messages[free[p - 1]], &answer[i - 1])
            invariant
                0 < i <= answer@.len(),
                p <= left <= free@.len(),
                forall|k: int| 0 <= k < free@.len() ==> #[trigger] free@[k] < messages@.len(),
                candidates == at_places(message_views(messages@), as_ints(free@)),
                rest == candidates.take(left as int),
                message == answer@[i - 1]@,
                last_place(rest, message) == last_place(candidates.take(p as int), message),
            decreases p,
        {
            assert(candidates.take(p as int).drop_last() =~= candidates.take(p - 1));
            assert(candidates.take(p as int).last() == messages@[free@[p - 1] as int]@);
            p = p - 1;
        }
        proof {
            assert(views.take(i as int).drop_last() =~= views.take(i - 1));
            assert(views.take(i as int).last() == message);
        }
        i = i - 1;
        if p > 0 {
            assert(candidates.take(p as int).last() == messages@[free@[p - 1] as int]@);
            left = p - 1;
            found.set(i, Some(left));
            assert(rest.take(left as int) =~= candidates.take(left as int));
        }
        proof {
            let place = as_places(found@)[i as int];
            let earlier = kept_places(candidates.take(left as int), views.take(i as int));
            assert(as_places(found@).skip(i as int) =~= seq![place] + as_places(before).skip(
                i + 1,
            ));
            assert(all =~= earlier.push(place) + as_places(before).skip(i + 1));
            assert(earlier.push(place) + as_places(before).skip(i + 1) =~= earlier + as_places(
                found@,
            ).skip(i as int));
        }
    }
    assert(as_places(found@).skip(0) =~= as_places(found@));
    assert(views.take(0) =~= Seq::empty());
    assert(all =~= as_places(found@));
    found
}

/// Where each message of an answer stands in what is stored.
fn find_stands(kept: &Vec<Option<usize>>, free: &Vec<usize>, end: usize) -> (r: Vec<usize>)
    requires
        forall|i: int|
            0 <= i < kept@.len() ==> (#[trigger] kept@[i] matches Some(p) ==> p < free@.len()),
    ensures
        r@.len() == kept@.len(),
        forall|i: int|
            0 <= i < r@.len() ==> #[trigger] r@[i] == if stand(as_places(kept@), i) < free@.len() {
                free@[stand(as_places(kept@), i)]
            } else {
                end
            },
{
    let ghost places = as_places(kept@);
    let mut out: Vec<usize> = Vec::new();
    let n: usize = free.len();
    let mut next: usize = 0;
    let mut i: usize = 0;
    assert(places.take(0) =~= Seq::empty());
    while i < kept.len()
        invariant
            i <= kept@.len(),
            places == as_places(kept@),
            out@.len() == i,
            n == free@.len(),
            next <= n,
            next == behind(places.take(i as int)),
            forall|k: int|
                0 <= k < kept@.len() ==> (#[trigger] kept@[k] matches Some(p) ==> p < free@.len()),
            forall|k: int|
                0 <= k < i ==> #[trigger] out@[k] == if stand(places, k) < free@.len() {
                    free@[stand(places, k)]
                } else {
                    end
                },
        decreases kept@.len() - i,
    {
        assert(places.take(i + 1).drop_last() =~= places.take(i as int));
        assert(places.take(i + 1).last() == places[i as int]);
        let at: usize = match kept[i] {
            Some(p) => {
                assert(kept@[i as int] == Some(p));
                next = p + 1;
                p
            },
            None => next,
        };
        assert(at == stand(places, i as int));
        if at < n {
            out.push(free[at]);
        } else {
            out.push(end);
        }
        i = i + 1;
    }
    out
}

/// Puts the exempt messages and an answer on the others together, in order,
/// and says which messages are protected.
pub(crate) fn merge_context(messages: &Vec<Message>, exempt: &Vec<bool>, answer: &Vec<Message>) -> (r:
    (Vec<Message>, Vec<bool>))
    requires
        messages@.len() == exempt@.len(),
    ensures
        message_views(r.0@) == entry_messages(
            merged(message_views(messages@), exempt@, message_views(answer@)),
        ),
        r.1@ == entry_flags(merged(message_views(messages@), exempt@, message_views(answer@))),
{
    let ghost stored = message_views(messages@);
    let ghost views = message_views(answer@);
    let ghost a = exempt_entries(stored, exempt@);
    let ghost b = answer_entries(stored, exempt@, views);
    let free = find_places(exempt, false);
    let taken = find_places(exempt, true);
    proof {
        lemma_places_where(exempt@, false);
        lemma_places_where(exempt@, true);
        assert forall|i: int| 0 <= i < free@.len() implies #[trigger] free@[i] < messages@.len() by {
            assert(as_ints(free@)[i] == free@[i]);
        }
        assert forall|i: int| 0 <= i < taken@.len() implies #[trigger] taken@[i]
            < messages@.len() by {
            assert(as_ints(taken@)[i] == taken@[i]);
        }
    }
    let kept = find_kept(messages, &free, answer);
    proof {
        lemma_kept_places(candidates_in(stored, exempt@), views);
        assert forall|i: int| 0 <= i < kept@.len() implies (#[trigger] kept@[i] matches Some(p)
            ==> p < free@.len()) by {
            assert(as_places(kept@)[i] == kept_places(candidates_in(stored, exempt@), views)[i]);
        }
        assert(as_places(kept@).len() == kept@.len());
        assert(as_ints(free@).len() == free@.len());
        assert(as_ints(taken@).len() == taken@.len());
    }
    let stands = find_stands(&kept, &free, messages.len());
    proof {
        assert forall|i: int| 0 <= i < stands@.len() implies #[trigger] stands@[i] == b[i].place by {
            lemma_stand(as_places(kept@), free@.len() as int, i);
            let s = stand(as_places(kept@), i);
            if s < free@.len() {
                assert(as_ints(free@)[s] == free@[s]);
            }
        }
        assert forall|i: int| 0 <= i < taken@.len() implies #[trigger] taken@[i] == a[i].place by {
            assert(as_ints(taken@)[i] == taken@[i]);
        }
    }
    let mut out: Vec<Message> = Vec::new();
    let mut flags: Vec<bool> = Vec::new();
    let ghost mut entries: Seq<Entry> = Seq::empty();
    let mut i: usize = 0;
    let mut j: usize = 0;
    assert(a.skip(0) =~= a);
    assert(b.skip(0) =~= b);
    assert(entries + merge(a.skip(0), b.skip(0)) =~= merge(a, b));
    assert(message_views(out@) =~= entry_messages(entries));
    assert(flags@ =~= entry_flags(entries));
    while i < taken.len() || j < answer.len()
        invariant
            stored == message_views(messages@),
            views == message_views(answer@),
            a == exempt_entries(stored, exempt@),
            b == answer_entries(stored, exempt@, views),
            i <= taken@.len() == a.len(),
            j <= answer@.len() == b.len(),
            stands@.len() == b.len(),
            forall|k: int| 0 <= k < taken@.len() ==> #[trigger] taken@[k] < messages@.len(),
            forall|k: int| 0 <= k < taken@.len() ==> #[trigger] taken@[k] == a[k].place,
            forall|k: int| 0 <= k < stands@.len() ==> #[trigger] stands@[k] == b[k].place,
            as_ints(taken@) == places_where(exempt@, true),
            entries + merge(a.skip(i as int), b.skip(j as int)) == merge(a, b),
            message_views(out@) == entry_messages(entries),
            flags@ == entry_flags(entries),
        decreases a.len() - i + b.len() - j,
    {
        let ghost before = entries;
        let ghost sent = out@;
        let ghost x = a.skip(i as int);
        let ghost y = b.skip(j as int);
        let from_exempt = if i >= taken.len() {
            false
        } else if j >= answer.len() {
            true
        } else {
            taken[i] < stands[j]
        };
        if from_exempt {
            let copy = messages[taken[i]].clone();
            proof {
                assert(as_ints(taken@)[i as int] == taken@[i as int]);
                assert(a[i as int].message == copy@);
                entries = entries.push(a[i as int]);
                assert(x.skip(1) =~= a.skip(i + 1));
                assert(merge(x, y) =~= seq![a[i as int]] + merge(a.skip(i + 1), y)) by {
                    if y.len() == 0 {
                        assert(merge(a.skip(i + 1), y) =~= a.skip(i + 1));
                    }
                }
                assert(before + merge(x, y) =~= entries + merge(a.skip(i + 1), y));
            }
            out.push(copy);
            flags.push(true);
            assert(message_views(out@) =~= message_views(sent).push(copy@));
            i = i + 1;
        } else {
            let copy = answer[j].clone();
            proof {
                assert(b[j as int].message == copy@);
                entries = entries.push(b[j as int]);
                assert(y.skip(1) =~= b.skip(j + 1));
                assert(merge(x, y) =~= seq![b[j as int]] + merge(x, b.skip(j + 1))) by {
                    if x.len() == 0 {
                        assert(merge(x, b.skip(j + 1)) =~= b.skip(j + 1));
                    }
                }
                assert(before + merge(x, y) =~= entries + merge(x, b.skip(j + 1)));
            }
            out.push(copy);
            flags.push(false);
            assert(message_views(out@) =~= message_views(sent).push(copy@));
            j = j + 1;
        }
        assert(entry_messages(entries) =~= entry_messages(before).push(entries.last().message));
        assert(flags@ =~= entry_flags(entries));
    }
    proof {
        assert(a.skip(i as int) =~= Seq::empty());
        assert(b.skip(j as int) =~= Seq::empty());
        assert(merge(a.skip(i as int), b.skip(j as int)) =~= Seq::empty());
        assert(entries =~= merge(a, b));
    }
    (out, flags)
}

} // verus!
