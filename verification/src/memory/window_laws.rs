//! What counting and trimming mean for the messages themselves.

use vstd::prelude::*;

use super::in_memory::InMemoryMemory;
use super::placed::{
    answer_entries, entry_messages, exempt_entries, law_without_exempt_the_answer_stands,
    lemma_merge_members, lemma_place_of, lemma_places_where, places_where,
};
use super::window::{
    block_texts, char_tokens, cjk_count, count_message, dropped, exempt_flags, is_cjk, is_exempt, is_round,
    keep_count, law_protected_messages_survive, law_rounds_are_counted_by_user_messages,
    law_rounds_partition, law_window_is_the_longest_that_fits, lemma_candidate_counts,
    lemma_counts_each, lemma_starts_increase,
    lemma_tail_total_grows, message_texts, message_tokens, messages_tokens, opens_round,
    rounds_of, tail_total, texts_tokens, total, user_before, user_messages,
    window_start, Budget, CharTokenCounter, ContextPlan, TokenCounter, TrimResult, TrimStrategy,
    WindowDrop,
    WindowMemory, WindowView,
};
use super::{Memory, MemoryError, MemoryErrorView};
use crate::message::{message_views, BlockView, Message, MessageView, ToolCallView};

verus! {

/// The tokens that a counter finds in a text; none where it fails.
pub open spec fn found<C: TokenCounter>(counter: C, text: Seq<char>) -> int {
    match counter.tokens(text) {
        Ok(n) => n as int,
        Err(_) => 0,
    }
}

/// A number of tokens as far as it can be counted.
pub open spec fn capped(n: int) -> int {
    if n <= usize::MAX {
        n
    } else {
        usize::MAX as int
    }
}

/// The tokens in the texts of a user's blocks.
pub open spec fn found_in_blocks<C: TokenCounter>(counter: C, blocks: Seq<BlockView>) -> int
    decreases blocks.len(),
{
    if blocks.len() == 0 {
        0
    } else {
        found_in_blocks(counter, blocks.drop_last()) + match blocks.last() {
            BlockView::Text(text) => found(counter, text),
            BlockView::Image(_) => 0,
        }
    }
}

/// The tokens in the arguments of tool requests.
pub open spec fn found_in_calls<C: TokenCounter>(counter: C, calls: Seq<ToolCallView>) -> int
    decreases calls.len(),
{
    if calls.len() == 0 {
        0
    } else {
        found_in_calls(counter, calls.drop_last()) + found(counter, calls.last().arguments)
    }
}

/// The tokens in everything that a message says: its text, its reasoning and
/// the arguments of its tool requests. An id says nothing.
pub open spec fn found_in<C: TokenCounter>(counter: C, message: MessageView) -> int {
    match message {
        MessageView::System(text) => found(counter, text),
        MessageView::User(blocks) => found_in_blocks(counter, blocks),
        MessageView::Assistant { content, reasoning, tool_calls } => found(counter, content)
            + match reasoning {
            Some(text) => found(counter, text),
            None => 0,
        } + found_in_calls(counter, tool_calls),
        MessageView::ToolResult { id, content } => found(counter, content),
    }
}

/// Whether a counter fails on some text that a message says.
pub open spec fn fails_on<C: TokenCounter>(counter: C, message: MessageView) -> bool {
    match message {
        MessageView::System(text) => counter.tokens(text) is Err,
        MessageView::User(blocks) => exists|i: int|
            0 <= i < blocks.len() && (#[trigger] blocks[i] matches BlockView::Text(text)
                && counter.tokens(text) is Err),
        MessageView::Assistant { content, reasoning, tool_calls } => {
            ||| counter.tokens(content) is Err
            ||| reasoning matches Some(text) && counter.tokens(text) is Err
            ||| exists|i: int|
                0 <= i < tool_calls.len() && counter.tokens(
                    (#[trigger] tool_calls[i]).arguments,
                ) is Err
        },
        MessageView::ToolResult { id, content } => counter.tokens(content) is Err,
    }
}

spec fn found_in_texts<C: TokenCounter>(counter: C, texts: Seq<Seq<char>>) -> int
    decreases texts.len(),
{
    if texts.len() == 0 {
        0
    } else {
        found_in_texts(counter, texts.drop_last()) + found(counter, texts.last())
    }
}

proof fn lemma_texts<C: TokenCounter>(counter: C, texts: Seq<Seq<char>>)
    ensures
        found_in_texts(counter, texts) >= 0,
        (forall|i: int| 0 <= i < texts.len() ==> counter.tokens(#[trigger] texts[i]) is Ok)
            ==> texts_tokens(counter, texts) == Ok::<usize, MemoryErrorView>(
            capped(found_in_texts(counter, texts)) as usize,
        ),
        (exists|i: int| 0 <= i < texts.len() && counter.tokens(#[trigger] texts[i]) is Err)
            ==> texts_tokens(counter, texts) is Err,
    decreases texts.len(),
{
    if texts.len() > 0 {
        let rest = texts.drop_last();
        lemma_texts(counter, rest);
        if forall|i: int| 0 <= i < texts.len() ==> counter.tokens(#[trigger] texts[i]) is Ok {
            assert forall|i: int| 0 <= i < rest.len() implies counter.tokens(
                #[trigger] rest[i],
            ) is Ok by {
                assert(counter.tokens(texts[i]) is Ok);
            }
            assert(counter.tokens(texts[texts.len() - 1]) is Ok);
        }
        if exists|i: int| 0 <= i < texts.len() && counter.tokens(#[trigger] texts[i]) is Err {
            let i = choose|i: int|
                0 <= i < texts.len() && counter.tokens(#[trigger] texts[i]) is Err;
            if i < rest.len() {
                assert(counter.tokens(rest[i]) is Err);
            }
        }
    }
}

proof fn lemma_texts_concat<C: TokenCounter>(counter: C, a: Seq<Seq<char>>, b: Seq<Seq<char>>)
    ensures
        found_in_texts(counter, a + b) == found_in_texts(counter, a) + found_in_texts(counter, b),
    decreases b.len(),
{
    if b.len() == 0 {
        assert(a + b =~= a);
    } else {
        lemma_texts_concat(counter, a, b.drop_last());
        assert((a + b).drop_last() =~= a + b.drop_last());
        assert((a + b).last() == b.last());
    }
}

proof fn lemma_block_texts<C: TokenCounter>(counter: C, blocks: Seq<BlockView>)
    ensures
        found_in_texts(counter, block_texts(blocks)) == found_in_blocks(counter, blocks),
        (exists|i: int|
            0 <= i < block_texts(blocks).len() && counter.tokens(
                #[trigger] block_texts(blocks)[i],
            ) is Err) <==> (exists|i: int|
            0 <= i < blocks.len() && (#[trigger] blocks[i] matches BlockView::Text(text)
                && counter.tokens(text) is Err)),
    decreases blocks.len(),
{
    if blocks.len() > 0 {
        let rest = blocks.drop_last();
        lemma_block_texts(counter, rest);
        let texts = block_texts(blocks);
        let earlier = block_texts(rest);
        if let BlockView::Text(text) = blocks.last() {
            assert(texts.drop_last() =~= earlier);
        }
        if exists|i: int| 0 <= i < texts.len() && counter.tokens(#[trigger] texts[i]) is Err {
            let i = choose|i: int|
                0 <= i < texts.len() && counter.tokens(#[trigger] texts[i]) is Err;
            if i < earlier.len() {
                assert(counter.tokens(earlier[i]) is Err);
                let k = choose|k: int|
                    0 <= k < rest.len() && (#[trigger] rest[k] matches BlockView::Text(text)
                        && counter.tokens(text) is Err);
                assert(blocks[k] == rest[k]);
            } else {
                assert(blocks[blocks.len() - 1] is Text);
            }
        }
        if exists|i: int|
            0 <= i < blocks.len() && (#[trigger] blocks[i] matches BlockView::Text(text)
                && counter.tokens(text) is Err) {
            let k = choose|k: int|
                0 <= k < blocks.len() && (#[trigger] blocks[k] matches BlockView::Text(text)
                    && counter.tokens(text) is Err);
            if k < rest.len() {
                assert(rest[k] == blocks[k]);
                let i = choose|i: int|
                    0 <= i < earlier.len() && counter.tokens(#[trigger] earlier[i]) is Err;
                assert(texts[i] == earlier[i]);
            } else {
                assert(texts[texts.len() - 1] == blocks[k]->Text_0);
            }
        }
    }
}

proof fn lemma_call_texts<C: TokenCounter>(counter: C, calls: Seq<ToolCallView>)
    ensures
        found_in_texts(counter, calls.map_values(|c: ToolCallView| c.arguments)) == found_in_calls(
            counter,
            calls,
        ),
    decreases calls.len(),
{
    let texts = calls.map_values(|c: ToolCallView| c.arguments);
    if calls.len() > 0 {
        lemma_call_texts(counter, calls.drop_last());
        assert(texts.drop_last() =~= calls.drop_last().map_values(|c: ToolCallView| c.arguments));
    }
}

/// The count of a message is the sum of what the counter finds in everything
/// that it says, and the counter's failure on any of it is the message's.
#[verifier::rlimit(40)]
pub proof fn law_messages_are_counted_by_what_they_say<C: TokenCounter>(
    counter: C,
    message: MessageView,
)
    ensures
        fails_on(counter, message) ==> message_tokens(counter, message) is Err,
        !fails_on(counter, message) ==> message_tokens(counter, message) == Ok::<
            usize,
            MemoryErrorView,
        >(capped(found_in(counter, message)) as usize),
        found_in(counter, message) >= 0,
{
    let texts = message_texts(message);
    lemma_texts(counter, texts);
    match message {
        MessageView::System(text) => {
            lemma_one(counter, text);
            assert(counter.tokens(texts[0]) == counter.tokens(text));
        },
        MessageView::ToolResult { id, content } => {
            lemma_one(counter, content);
            assert(counter.tokens(texts[0]) == counter.tokens(content));
        },
        MessageView::User(blocks) => {
            lemma_block_texts(counter, blocks);
            if !fails_on(counter, message) {
                assert forall|i: int| 0 <= i < texts.len() implies counter.tokens(
                    #[trigger] texts[i],
                ) is Ok by {
                    if counter.tokens(texts[i]) is Err {
                        assert(counter.tokens(block_texts(blocks)[i]) is Err);
                    }
                }
            }
        },
        MessageView::Assistant { content, reasoning, tool_calls } => {
            let head = match reasoning {
                Some(reasoning) => seq![content, reasoning],
                None => seq![content],
            };
            let tail = tool_calls.map_values(|c: ToolCallView| c.arguments);
            lemma_texts_concat(counter, head, tail);
            lemma_call_texts(counter, tool_calls);
            lemma_one(counter, content);
            if let Some(text) = reasoning {
                lemma_one(counter, text);
                lemma_texts_concat(counter, seq![content], seq![text]);
                assert(seq![content] + seq![text] =~= head);
                assert(texts[1] == text);
            }
            assert(texts[0] == content);
            if fails_on(counter, message) {
                if counter.tokens(content) is Err {
                    assert(counter.tokens(texts[0]) is Err);
                } else if reasoning is Some && counter.tokens(reasoning->0) is Err {
                    assert(counter.tokens(texts[1]) is Err);
                } else {
                    let i = choose|i: int|
                        0 <= i < tool_calls.len() && counter.tokens(
                            (#[trigger] tool_calls[i]).arguments,
                        ) is Err;
                    assert(texts[head.len() + i] == tool_calls[i].arguments);
                }
            } else {
                assert forall|i: int| 0 <= i < texts.len() implies counter.tokens(
                    #[trigger] texts[i],
                ) is Ok by {
                    if i >= head.len() {
                        assert(texts[i] == tool_calls[i - head.len()].arguments);
                    }
                }
            }
        },
    }
}

proof fn lemma_one<C: TokenCounter>(counter: C, text: Seq<char>)
    ensures
        found_in_texts(counter, seq![text]) == found(counter, text),
{
    reveal_with_fuel(found_in_texts, 2);
    assert(seq![text].drop_last() =~= Seq::empty());
}

/// The id of the request that a tool answered does not count: only what the
/// tool returned does.
pub proof fn law_tool_results_count_by_content<C: TokenCounter>(
    counter: C,
    id: Seq<char>,
    content: Seq<char>,
)
    ensures
        message_tokens(counter, MessageView::ToolResult { id, content }) == counter.tokens(content),
{
    let texts = seq![content];
    assert(message_texts(MessageView::ToolResult { id, content }) =~= texts);
    reveal_with_fuel(texts_tokens, 2);
    assert(texts.drop_last() =~= Seq::empty());
}

/// How many messages of users there are.
pub open spec fn users_in(messages: Seq<MessageView>) -> int
    decreases messages.len(),
{
    if messages.len() == 0 {
        0
    } else {
        users_in(messages.drop_last()) + match messages.last() {
            MessageView::User(_) => 1int,
            _ => 0int,
        }
    }
}

/// The sum of counts.
pub open spec fn sum_of(counts: Seq<usize>) -> int
    decreases counts.len(),
{
    if counts.len() == 0 {
        0
    } else {
        sum_of(counts.drop_last()) + counts.last()
    }
}

/// The tokens that are left for a conversation when some are set aside.
pub open spec fn room(limit: usize, reserved: usize) -> int {
    if limit >= reserved {
        limit - reserved
    } else {
        0
    }
}

/// The rounds that a limit allows: one at least.
pub open spec fn rounds_allowed(limit: usize) -> int {
    if limit >= 1 {
        limit as int
    } else {
        1
    }
}

proof fn lemma_total(counts: Seq<usize>)
    ensures
        sum_of(counts) >= 0,
        total(counts) == capped(sum_of(counts)),
    decreases counts.len(),
{
    if counts.len() > 0 {
        lemma_total(counts.drop_last());
    }
}

proof fn lemma_sum_concat(a: Seq<usize>, b: Seq<usize>)
    ensures
        sum_of(a + b) == sum_of(a) + sum_of(b),
    decreases b.len(),
{
    if b.len() == 0 {
        assert(a + b =~= a);
    } else {
        lemma_sum_concat(a, b.drop_last());
        assert((a + b).drop_last() =~= a + b.drop_last());
        assert((a + b).last() == b.last());
    }
}

proof fn lemma_users_concat(a: Seq<MessageView>, b: Seq<MessageView>)
    ensures
        users_in(a + b) == users_in(a) + users_in(b),
        users_in(a) >= 0,
    decreases b.len(), a.len(),
{
    if b.len() == 0 {
        assert(a + b =~= a);
        if a.len() > 0 {
            lemma_users_concat(a.drop_last(), b);
        }
    } else {
        lemma_users_concat(a, b.drop_last());
        assert((a + b).drop_last() =~= a + b.drop_last());
        assert((a + b).last() == b.last());
    }
}

proof fn lemma_users_same(messages: Seq<MessageView>)
    ensures
        users_in(messages) == user_messages(messages),
    decreases messages.len(),
{
    if messages.len() > 0 {
        lemma_users_same(messages.drop_last());
    }
}

proof fn lemma_no_users(messages: Seq<MessageView>)
    requires
        forall|i: int| 0 <= i < messages.len() ==> !(#[trigger] messages[i] is User),
    ensures
        users_in(messages) == 0,
    decreases messages.len(),
{
    if messages.len() > 0 {
        let rest = messages.drop_last();
        assert forall|i: int| 0 <= i < rest.len() implies !(#[trigger] rest[i] is User) by {
            assert(!(messages[i] is User));
        }
        assert(!(messages[messages.len() - 1] is User));
        lemma_no_users(rest);
    }
}

/// The last `m` rounds: their tokens are those of their messages, and each but
/// the first of all has one user's message.
#[verifier::rlimit(40)]
proof fn lemma_tail(messages: Seq<MessageView>, counts: Seq<usize>, m: nat)
    requires
        messages.len() == counts.len(),
        0 < messages.len() <= usize::MAX,
        1 <= m <= rounds_of(messages, counts).len(),
    ensures
        ({
            let rounds = rounds_of(messages, counts);
            let start = rounds[rounds.len() - m].start as int;
            &&& 0 <= start < messages.len()
            &&& tail_total(rounds, m) == capped(sum_of(counts.skip(start)))
            &&& m < rounds.len() ==> users_in(messages.skip(start)) == m
        }),
    decreases m,
{
    let rounds = rounds_of(messages, counts);
    let k = rounds.len() - m;
    law_rounds_partition(messages, counts);
    assert(is_round(messages, counts, rounds, k));
    let r = rounds[k];
    let start = r.start as int;
    let end = r.end as int;
    let part = counts.subrange(start, end);
    lemma_total(part);
    lemma_total(counts.skip(start));
    if m == 1 {
        assert(end == messages.len());
        assert(counts.skip(start) =~= part);
        assert(messages.skip(start) =~= messages.subrange(start, end));
        assert(tail_total(rounds, 0) == 0);
    } else {
        lemma_tail(messages, counts, (m - 1) as nat);
        assert(is_round(messages, counts, rounds, k + 1));
        assert(rounds[k + 1].start == end);
        lemma_total(counts.skip(end));
        lemma_sum_concat(part, counts.skip(end));
        assert(part + counts.skip(end) =~= counts.skip(start));
        lemma_users_concat(messages.subrange(start, end), messages.skip(end));
        assert(messages.subrange(start, end) + messages.skip(end) =~= messages.skip(start));
    }
    if m < rounds.len() {
        let piece = messages.subrange(start, end);
        let head = seq![messages[start]];
        let tail = messages.subrange(start + 1, end);
        assert(messages[start] is User);
        assert forall|i: int| 0 <= i < tail.len() implies !(#[trigger] tail[i] is User) by {
            let at = start + 1 + i;
            assert(!opens_round(messages, at));
            assert(user_before(messages, at)) by {
                assert(messages[start] is User);
            }
        }
        lemma_no_users(tail);
        lemma_users_concat(head, tail);
        assert(head + tail =~= piece);
        reveal_with_fuel(users_in, 2);
        assert(head.drop_last() =~= Seq::empty());
        assert(users_in(head) == 1);
    }
}

/// Where a round begins, one of the rounds begins.
proof fn lemma_round_at(messages: Seq<MessageView>, counts: Seq<usize>, place: int, m: nat) -> (k:
    int)
    requires
        messages.len() == counts.len(),
        0 < messages.len() <= usize::MAX,
        0 <= place < messages.len(),
        opens_round(messages, place),
        m < rounds_of(messages, counts).len(),
        place < rounds_of(messages, counts)[m as int].end,
    ensures
        0 <= k <= m,
        rounds_of(messages, counts)[k].start == place,
    decreases m,
{
    let rounds = rounds_of(messages, counts);
    law_rounds_partition(messages, counts);
    assert(is_round(messages, counts, rounds, m as int));
    let r = rounds[m as int];
    if place < r.start {
        assert(m > 0);
        lemma_round_at(messages, counts, place, (m - 1) as nat)
    } else {
        assert(place == r.start);
        m as int
    }
}

/// The window, message by message: it begins with a user's message or holds
/// everything; its tokens fit the room that the budget leaves, unless it is a
/// single round; it holds no more rounds than the budget allows; and from any
/// earlier beginning of a round it would be too long.
#[verifier::rlimit(40)]
pub proof fn law_window_fits_and_is_longest(
    messages: Seq<MessageView>,
    counts: Seq<usize>,
    budget: Budget,
    reserved: usize,
    earlier: int,
)
    requires
        messages.len() == counts.len(),
        0 < messages.len() <= usize::MAX,
    ensures
        ({
            let start = window_start(messages, counts, budget, reserved);
            &&& 0 <= start < messages.len()
            &&& start == 0 || messages[start] is User
            &&& budget.max_tokens matches Some(l) ==> capped(sum_of(counts.skip(start))) <= room(
                l,
                reserved,
            ) || users_in(messages.skip(start)) <= 1
            &&& budget.max_rounds matches Some(l) ==> users_in(messages.skip(start))
                <= rounds_allowed(l)
            &&& 0 <= earlier < start && (earlier == 0 || messages[earlier] is User && (exists|
                j: int,
            |
                0 <= j < earlier && #[trigger] messages[j] is User)) ==> {
                ||| budget.max_tokens matches Some(l) && capped(sum_of(counts.skip(earlier)))
                    > room(l, reserved)
                ||| budget.max_rounds matches Some(l) && users_in(messages.skip(earlier))
                    > rounds_allowed(l)
            }
        }),
{
    let rounds = rounds_of(messages, counts);
    let keep = keep_count(rounds, budget, reserved);
    let start = window_start(messages, counts, budget, reserved);
    law_window_is_the_longest_that_fits(messages, counts, budget, reserved);
    law_rounds_partition(messages, counts);
    law_rounds_are_counted_by_user_messages(messages, counts);
    lemma_users_same(messages);
    lemma_tail(messages, counts, keep);
    assert(messages.skip(0) =~= messages);
    if keep == rounds.len() {
        assert(is_round(messages, counts, rounds, 0));
        assert(start == 0);
    }
    if 0 <= earlier < start && (earlier == 0 || messages[earlier] is User && (exists|j: int|
        0 <= j < earlier && #[trigger] messages[j] is User)) {
        assert(opens_round(messages, earlier));
        let k = lemma_round_at(messages, counts, earlier, (rounds.len() - 1) as nat);
        let at = rounds.len() - keep;
        if k >= at {
            lemma_starts_increase(messages, counts, at, k);
        }
        let m = (rounds.len() - k) as nat;
        assert(m >= keep + 1);
        lemma_tail(messages, counts, m);
        lemma_tail_total_grows(rounds, keep + 1, m);
        if k == 0 {
            assert(is_round(messages, counts, rounds, 0));
            assert(users_in(messages.skip(earlier)) == rounds.len());
        }
    }
}

/// The tokens in everything that a conversation says.
pub open spec fn found_in_all<C: TokenCounter>(counter: C, messages: Seq<MessageView>) -> int
    decreases messages.len(),
{
    if messages.len() == 0 {
        0
    } else {
        found_in_all(counter, messages.drop_last()) + capped(found_in(counter, messages.last()))
    }
}

proof fn lemma_found_in_all<C: TokenCounter>(
    counter: C,
    messages: Seq<MessageView>,
    counts: Seq<usize>,
)
    requires
        counts.len() == messages.len(),
        forall|i: int|
            0 <= i < messages.len() ==> message_tokens(counter, #[trigger] messages[i]) == Ok::<
                usize,
                MemoryErrorView,
            >(counts[i]),
    ensures
        found_in_all(counter, messages) == sum_of(counts),
    decreases messages.len(),
{
    if messages.len() > 0 {
        let rest = messages.drop_last();
        let last = messages.last();
        assert forall|i: int| 0 <= i < rest.len() implies message_tokens(
            counter,
            #[trigger] rest[i],
        ) == Ok::<usize, MemoryErrorView>(counts.drop_last()[i]) by {
            assert(rest[i] == messages[i]);
        }
        lemma_found_in_all(counter, rest, counts.drop_last());
        assert(message_tokens(counter, messages[messages.len() - 1]) == Ok::<
            usize,
            MemoryErrorView,
        >(counts.last()));
        law_messages_are_counted_by_what_they_say(counter, last);
    }
}

/// Whether a context is the newest part of a conversation that fits a budget.
pub open spec fn is_newest_that_fits<C: TokenCounter>(
    context: Seq<MessageView>,
    messages: Seq<MessageView>,
    budget: Budget,
    counter: C,
) -> bool {
    &&& 0 < context.len() <= messages.len()
    &&& context == messages.skip(messages.len() - context.len())
    &&& context.len() == messages.len() || context[0] is User
    &&& budget.max_tokens matches Some(l) ==> capped(found_in_all(counter, context)) <= l
        || users_in(context) <= 1
    &&& budget.max_rounds matches Some(l) ==> users_in(context) <= rounds_allowed(l)
    &&& (budget.max_tokens matches Some(l) ==> capped(found_in_all(counter, messages)) <= l) && (
    budget.max_rounds matches Some(l) ==> users_in(messages) <= rounds_allowed(l)) ==> context
        == messages
}

/// A context within a budget: where nothing is protected, dropping rounds
/// leaves the newest messages, as they are stored, from a user's message on.
/// What they say fits the token limit, unless they are a single round, and they
/// are no more rounds than allowed. A conversation within both limits comes
/// back whole.
#[verifier::rlimit(40)]
pub proof fn law_context_is_the_newest_that_fits<C: TokenCounter>(w: WindowView, counter: C)
    requires
        w.wf(),
        w.counted_by(counter),
        w.counted(counter) is Ok,
        0 < w.messages.len() <= usize::MAX,
        forall|i: int| 0 <= i < w.messages.len() ==> !#[trigger] w.protected[i],
    ensures
        w.retrieved(counter, WindowDrop).0 matches Ok(context) && is_newest_that_fits(
            context,
            w.messages,
            w.budget,
            counter,
        ),
{
    let c = w.counted(counter)->Ok_0;
    let counts = c.counts->0;
    lemma_counts_each(counter, w.messages);
    lemma_total(counts);
    lemma_users_same(w.messages);
    lemma_found_in_all(counter, w.messages, counts);
    assert(w.messages.skip(0) =~= w.messages);
    assert forall|i: int| 0 <= i < c.exempt().len() implies !#[trigger] c.exempt()[i] by {
        if is_exempt(c.messages, c.protected, i) {
            let j = choose|j: int|
                0 <= j < c.messages.len() && #[trigger] c.protected[j]
                    && super::window::same_round(c.messages, i, j);
            assert(!w.protected[j]);
        }
    }
    if c.over_budget() {
        lemma_all_free(c);
        assert(c.candidates() == w.messages);
        assert(messages_tokens(counter, w.messages) == Ok::<Seq<usize>, MemoryErrorView>(counts));
        let answer = dropped(w.messages, counts, w.budget).messages;
        law_without_exempt_the_answer_stands(c.messages, c.exempt(), answer);
        law_window_fits_and_is_longest(w.messages, counts, w.budget, 0, 0);
        let start = window_start(w.messages, counts, w.budget, 0);
        let kept = w.messages.skip(start);
        assert forall|i: int| 0 <= i < kept.len() implies message_tokens(
            counter,
            #[trigger] kept[i],
        ) == Ok::<usize, MemoryErrorView>(counts.skip(start)[i]) by {
            assert(kept[i] == w.messages[start + i]);
        }
        lemma_found_in_all(counter, kept, counts.skip(start));
    }
}

/// Where nothing is exempt, every message is a candidate.
proof fn lemma_all_free(w: WindowView)
    requires
        w.wf(),
        forall|i: int| 0 <= i < w.exempt().len() ==> !#[trigger] w.exempt()[i],
    ensures
        w.candidates() == w.messages,
{
    lemma_all_places(w.exempt());
    assert(w.candidates() =~= w.messages);
}

proof fn lemma_all_places(flags: Seq<bool>)
    requires
        forall|i: int| 0 <= i < flags.len() ==> !#[trigger] flags[i],
    ensures
        places_where(flags, false).len() == flags.len(),
        forall|i: int| 0 <= i < flags.len() ==> #[trigger] places_where(flags, false)[i] == i,
    decreases flags.len(),
{
    if flags.len() > 0 {
        let rest = flags.drop_last();
        assert(!flags[flags.len() - 1]);
        assert forall|i: int| 0 <= i < rest.len() implies !#[trigger] rest[i] by {
            assert(!flags[i]);
        }
        lemma_all_places(rest);
    }
}

/// Exactly the rounds with a protected message are exempt from trimming: a
/// message is, when no later round begins between it and a protected one.
pub proof fn law_rounds_with_protected_messages_are_exempt(
    messages: Seq<MessageView>,
    protected: Seq<bool>,
    i: int,
)
    requires
        messages.len() == protected.len(),
        0 <= i < messages.len(),
    ensures
        exempt_flags(messages, protected).len() == messages.len(),
        exempt_flags(messages, protected)[i] <==> exists|j: int|
            0 <= j < messages.len() && #[trigger] protected[j] && forall|k: int|
                (i < k <= j || j < k <= i) && #[trigger] messages[k] is User ==> forall|b: int|
                    0 <= b < k ==> !(#[trigger] messages[b] is User),
{
    if exempt_flags(messages, protected)[i] {
        assert(is_exempt(messages, protected, i));
        let j = choose|j: int|
            0 <= j < messages.len() && #[trigger] protected[j] && super::window::same_round(
                messages,
                i,
                j,
            );
        assert forall|k: int|
            (i < k <= j || j < k <= i) && #[trigger] messages[k] is User implies forall|b: int|
            0 <= b < k ==> !(#[trigger] messages[b] is User) by {
            assert(!opens_round(messages, k));
            assert forall|b: int| 0 <= b < k implies !(#[trigger] messages[b] is User) by {
                if messages[b] is User {
                    assert(user_before(messages, k));
                }
            }
        }
    }
    if exists|j: int|
        0 <= j < messages.len() && #[trigger] protected[j] && forall|k: int|
            (i < k <= j || j < k <= i) && #[trigger] messages[k] is User ==> forall|b: int|
                0 <= b < k ==> !(#[trigger] messages[b] is User) {
        let j = choose|j: int|
            0 <= j < messages.len() && #[trigger] protected[j] && forall|k: int|
                (i < k <= j || j < k <= i) && #[trigger] messages[k] is User ==> forall|b: int|
                    0 <= b < k ==> !(#[trigger] messages[b] is User);
        assert(super::window::same_round(messages, i, j)) by {
            assert forall|k: int|
                (i < k <= j || j < k <= i) && 0 <= k < messages.len() implies !#[trigger] opens_round(
                messages,
                k,
            ) by {
                if messages[k] is User && user_before(messages, k) {
                    let b = choose|b: int| 0 <= b < k && #[trigger] messages[b] is User;
                    assert(!(messages[b] is User));
                }
            }
        }
        assert(is_exempt(messages, protected, i));
    }
}

/// Counting by characters: other text takes a token for every four characters
/// begun, ideographs take one each, and they are counted apart.
pub proof fn law_characters_are_counted(ideographs: Seq<char>, other: Seq<char>)
    requires
        forall|i: int| 0 <= i < ideographs.len() ==> is_cjk(#[trigger] ideographs[i]),
        forall|i: int| 0 <= i < other.len() ==> !is_cjk(#[trigger] other[i]),
    ensures
        char_tokens(ideographs) == ideographs.len(),
        4 * char_tokens(other) >= other.len(),
        4 * char_tokens(other) < other.len() + 4,
        char_tokens(ideographs + other) == char_tokens(ideographs) + char_tokens(other),
        char_tokens(other + ideographs) == char_tokens(ideographs) + char_tokens(other),
{
    lemma_cjk(ideographs, other);
    lemma_cjk_concat(ideographs, other);
    lemma_cjk_concat(other, ideographs);
}

proof fn lemma_cjk(ideographs: Seq<char>, other: Seq<char>)
    requires
        forall|i: int| 0 <= i < ideographs.len() ==> is_cjk(#[trigger] ideographs[i]),
        forall|i: int| 0 <= i < other.len() ==> !is_cjk(#[trigger] other[i]),
    ensures
        cjk_count(ideographs) == ideographs.len(),
        cjk_count(other) == 0,
    decreases ideographs.len() + other.len(),
{
    if ideographs.len() > 0 {
        let rest = ideographs.drop_last();
        assert(is_cjk(ideographs[ideographs.len() - 1]));
        assert forall|i: int| 0 <= i < rest.len() implies is_cjk(#[trigger] rest[i]) by {
            assert(is_cjk(ideographs[i]));
        }
        lemma_cjk(rest, other);
    } else if other.len() > 0 {
        let rest = other.drop_last();
        assert(!is_cjk(other[other.len() - 1]));
        assert forall|i: int| 0 <= i < rest.len() implies !is_cjk(#[trigger] rest[i]) by {
            assert(!is_cjk(other[i]));
        }
        lemma_cjk(ideographs, rest);
    }
}

proof fn lemma_cjk_concat(a: Seq<char>, b: Seq<char>)
    ensures
        cjk_count(a + b) == cjk_count(a) + cjk_count(b),
    decreases b.len(),
{
    if b.len() == 0 {
        assert(a + b =~= a);
    } else {
        lemma_cjk_concat(a, b.drop_last());
        assert((a + b).drop_last() =~= a + b.drop_last());
        assert((a + b).last() == b.last());
    }
}

/// Chinese characters of the unified block are ideographs; Latin, Greek,
/// Cyrillic and other scripts before the ideographs are not, nor are emoji.
pub proof fn law_ideographs(c: char)
    ensures
        0x4e00 <= c as u32 <= 0x9fff ==> is_cjk(c),
        0x3400 <= c as u32 <= 0x4dbf ==> is_cjk(c),
        (c as u32) < 0x3400 ==> !is_cjk(c),
        0xa000 <= c as u32 <= 0xf8ff ==> !is_cjk(c),
        0x1f000 <= c as u32 <= 0x1ffff ==> !is_cjk(c),
{
}

/// Counting a message counts everything that it says, and nothing else.
pub proof fn law_counted_messages<C: TokenCounter>(
    counter: &C,
    message: &Message,
    r: Result<usize, MemoryError>,
)
    requires
        call_ensures(count_message::<C>, (counter, message), r),
    ensures
        r is Err <==> fails_on(*counter, message@),
        r matches Ok(n) ==> n == capped(found_in(*counter, message@)),
{
    law_messages_are_counted_by_what_they_say(*counter, message@);
}

/// Counting a tool's result counts its content, whatever its id.
pub proof fn law_counted_tool_results<C: TokenCounter>(
    counter: &C,
    id: String,
    content: String,
    tokens: usize,
)
    requires
        call_ensures(
            count_message::<C>,
            (counter, &Message::ToolResult { id, content }),
            Ok::<usize, MemoryError>(tokens),
        ),
    ensures
        counter.tokens(content@) == Ok::<usize, MemoryErrorView>(tokens),
{
    law_tool_results_count_by_content(*counter, id@, content@);
}

/// Counting by characters counts visible ASCII text by fours, rounded up.
pub proof fn law_ascii_is_counted_by_fours(counter: &CharTokenCounter, text: &str, tokens: usize)
    requires
        forall|i: int| 0 <= i < text@.len() ==> (#[trigger] text@[i]) as u32 <= 127,
        call_ensures(CharTokenCounter::count, (counter, text), Ok::<usize, MemoryError>(tokens)),
    ensures
        4 * tokens >= text@.len(),
        4 * tokens < text@.len() + 4,
{
    assert forall|i: int| 0 <= i < text@.len() implies !is_cjk(#[trigger] text@[i]) by {
        law_ideographs(text@[i]);
    }
    law_characters_are_counted(Seq::empty(), text@);
}

/// Reading a window memory that drops rounds gives, where nothing is protected,
/// the newest messages that fit the budget.
pub proof fn law_contexts_are_the_newest_that_fit<C: TokenCounter>(context: Vec<Message>)
    ensures
        forall|memory: &mut WindowMemory<C, WindowDrop>|
            memory.wf() && 0 < memory.window().messages.len() <= usize::MAX && (forall|i: int|
                0 <= i < memory.window().messages.len()
                    ==> !#[trigger] memory.window().protected[i]) && #[trigger] call_ensures(
                <WindowMemory<C, WindowDrop> as Memory>::context,
                (memory,),
                Ok::<Vec<Message>, MemoryError>(context),
            ) ==> is_newest_that_fits(
                message_views(context@),
                memory.window().messages,
                memory.window().budget,
                memory.counter_used(),
            ) && final(memory).window().messages == memory.window().messages,
{
    assert forall|memory: &mut WindowMemory<C, WindowDrop>|
        memory.wf() && 0 < memory.window().messages.len() <= usize::MAX && (forall|i: int|
            0 <= i < memory.window().messages.len() ==> !#[trigger] memory.window().protected[i])
            && #[trigger] call_ensures(
            <WindowMemory<C, WindowDrop> as Memory>::context,
            (memory,),
            Ok::<Vec<Message>, MemoryError>(context),
        ) implies is_newest_that_fits(
        message_views(context@),
        memory.window().messages,
        memory.window().budget,
        memory.counter_used(),
    ) && final(memory).window().messages == memory.window().messages by {
        assert(memory.strategy_used() == WindowDrop);
        memory.lemma_wf();
        law_context_is_the_newest_that_fits(memory.window(), memory.counter_used());
    }
}

/// Recording appends the message, protected or not as it was asked for, and
/// nothing else changes in the conversation.
pub proof fn law_recorded_messages_are_appended<C: TokenCounter, S: TrimStrategy<C>>(
    message: Message,
)
    ensures
        forall|memory: &mut WindowMemory<C, S>| #[trigger]
            call_ensures(
                <WindowMemory<C, S> as Memory>::record,
                (memory, message),
                Ok::<(), MemoryError>(()),
            ) ==> final(memory).window().messages == memory.window().messages.push(message@)
                && final(memory).window().protected == memory.window().protected.push(false)
                && final(memory).window().budget == memory.window().budget,
        forall|memory: &mut WindowMemory<C, S>| #[trigger]
            call_ensures(
                <WindowMemory<C, S> as Memory>::record_protected,
                (memory, message),
                Ok::<(), MemoryError>(()),
            ) ==> final(memory).window().messages == memory.window().messages.push(message@)
                && final(memory).window().protected == memory.window().protected.push(true)
                && final(memory).window().budget == memory.window().budget,
{
}

/// A protected message is in every context that is read, whatever counts and
/// trims.
pub proof fn law_protected_messages_are_in_every_context<C: TokenCounter, S: TrimStrategy<C>>(
    context: Vec<Message>,
    i: int,
)
    ensures
        forall|memory: &mut WindowMemory<C, S>|
            memory.wf() && 0 <= i < memory.window().messages.len() && memory.window().protected[i]
                && #[trigger] call_ensures(
                <WindowMemory<C, S> as Memory>::context,
                (memory,),
                Ok::<Vec<Message>, MemoryError>(context),
            ) ==> message_views(context@).contains(memory.window().messages[i]),
{
    assert forall|memory: &mut WindowMemory<C, S>|
        memory.wf() && 0 <= i < memory.window().messages.len() && memory.window().protected[i]
            && #[trigger] call_ensures(
            <WindowMemory<C, S> as Memory>::context,
            (memory,),
            Ok::<Vec<Message>, MemoryError>(context),
        ) implies message_views(context@).contains(memory.window().messages[i]) by {
        memory.lemma_wf();
        law_protected_messages_survive(
            memory.window(),
            memory.counter_used(),
            memory.strategy_used(),
            i,
        );
    }
}

/// A memory without a limit returns every message, in order, and keeps them.
pub proof fn law_unlimited_memory_returns_all(message: Message, context: Vec<Message>)
    ensures
        forall|memory: &mut InMemoryMemory, r: Result<(), MemoryError>| #[trigger]
            call_ensures(<InMemoryMemory as Memory>::record, (memory, message), r) ==> r is Ok
                && final(memory).stored() == memory.stored().push(message@),
        forall|memory: &mut InMemoryMemory, r: Result<Vec<Message>, MemoryError>| #[trigger]
            call_ensures(<InMemoryMemory as Memory>::context, (memory,), r) ==> (r matches Ok(all)
                && message_views(all@) == memory.stored()) && final(memory).stored()
                == memory.stored(),
{
}

/// Whether messages are those of a conversation that may be trimmed, from some
/// place on, and fit a budget or are a single round.
pub open spec fn is_kept_rest<C: TokenCounter>(
    kept: Seq<MessageView>,
    free: Seq<MessageView>,
    budget: Budget,
    counter: C,
) -> bool {
    &&& kept.len() <= free.len()
    &&& kept == free.skip(free.len() - kept.len())
    &&& budget.max_tokens matches Some(l) ==> capped(found_in_all(counter, kept)) <= l || users_in(
        kept,
    ) <= 1
    &&& budget.max_rounds matches Some(l) ==> users_in(kept) <= rounds_allowed(l)
}

/// Beside protected rounds, dropping leaves the newest of the others that fit
/// the budget: every message of the context is exempt or one of these, and all
/// of both are there.
#[verifier::rlimit(40)]
pub proof fn law_context_is_the_exempt_and_the_newest<C: TokenCounter>(w: WindowView, counter: C)
    requires
        w.wf(),
        w.counted_by(counter),
        w.counted(counter) matches Ok(c) && c.over_budget(),
        w.messages.len() <= usize::MAX,
    ensures
        w.retrieved(counter, WindowDrop).0 matches Ok(context) && exists|kept: Seq<MessageView>|
            #[trigger] is_kept_rest(kept, w.candidates(), w.budget, counter) && context.len()
                == kept.len() + places_where(w.exempt(), true).len() && forall|m: MessageView| #[trigger]
                context.contains(m) <==> kept.contains(m) || exists|i: int|
                    0 <= i < w.messages.len() && #[trigger] w.messages[i] == m && w.exempt()[i],
{
    let c = w.counted(counter)->Ok_0;
    let free = c.candidates();
    let counts = c.candidate_counts();
    assert(c.candidates() == w.candidates() && c.exempt() == w.exempt());
    lemma_candidate_counts(c, counter);
    lemma_counts_each(counter, free);
    let kept = dropped(free, counts, c.budget).messages;
    lemma_places_where(c.exempt(), false);
    if free.len() > 0 {
        law_window_fits_and_is_longest(free, counts, c.budget, 0, 0);
        let start = window_start(free, counts, c.budget, 0);
        assert forall|i: int| 0 <= i < kept.len() implies message_tokens(
            counter,
            #[trigger] kept[i],
        ) == Ok::<usize, MemoryErrorView>(counts.skip(start)[i]) by {
            assert(kept[i] == free[start + i]);
        }
        lemma_found_in_all(counter, kept, counts.skip(start));
    } else {
        assert(kept =~= free);
        assert(free.skip(0) =~= free);
    }
    assert(is_kept_rest(kept, w.candidates(), w.budget, counter));
    lemma_context_members(c, kept);
    let context = w.retrieved(counter, WindowDrop).0->Ok_0;
    assert(context == entry_messages(c.joined(kept)));
    assert(context.len() == kept.len() + places_where(w.exempt(), true).len());
}

#[verifier::rlimit(40)]
proof fn lemma_context_members(w: WindowView, answer: Seq<MessageView>)
    requires
        w.wf(),
    ensures
        ({
            let context = entry_messages(w.joined(answer));
            &&& context.len() == answer.len() + places_where(w.exempt(), true).len()
            &&& forall|m: MessageView| #[trigger]
                context.contains(m) <==> answer.contains(m) || exists|i: int|
                    0 <= i < w.messages.len() && #[trigger] w.messages[i] == m && w.exempt()[i]
        }),
{
    let a = exempt_entries(w.messages, w.exempt());
    let b = answer_entries(w.messages, w.exempt(), answer);
    let entries = w.joined(answer);
    let context = entry_messages(entries);
    let places = places_where(w.exempt(), true);
    lemma_merge_members(a, b);
    lemma_places_where(w.exempt(), true);
    assert forall|m: MessageView| #[trigger] context.contains(m) <==> answer.contains(m) || exists|
        i: int,
    |
        0 <= i < w.messages.len() && #[trigger] w.messages[i] == m && w.exempt()[i] by {
        if context.contains(m) {
            let j = choose|j: int| 0 <= j < context.len() && context[j] == m;
            let e = entries[j];
            assert(e.message == m);
            if a.contains(e) {
                let k = choose|k: int| 0 <= k < a.len() && a[k] == e;
                assert(w.messages[places[k]] == m && w.exempt()[places[k]]);
            } else {
                let k = choose|k: int| 0 <= k < b.len() && b[k] == e;
                assert(answer[k] == m);
            }
        }
        if answer.contains(m) {
            let k = choose|k: int| 0 <= k < answer.len() && answer[k] == m;
            assert(b.contains(b[k]));
            assert(entries.contains(b[k]));
            let j = choose|j: int| 0 <= j < entries.len() && entries[j] == b[k];
            assert(context[j] == m);
        }
        if exists|i: int|
            0 <= i < w.messages.len() && #[trigger] w.messages[i] == m && w.exempt()[i] {
            let i = choose|i: int|
                0 <= i < w.messages.len() && #[trigger] w.messages[i] == m && w.exempt()[i];
            lemma_place_of(w.exempt(), true, i);
            let k = choose|k: int| 0 <= k < places.len() && #[trigger] places[k] == i;
            assert(a.contains(a[k]));
            assert(entries.contains(a[k]));
            let j = choose|j: int| 0 <= j < entries.len() && entries[j] == a[k];
            assert(context[j] == m);
        }
    }
}

/// A conversation is over its budget exactly when its tokens are more than the
/// limit on them or its rounds more than the limit on these.
pub proof fn law_over_budget(w: WindowView)
    requires
        w.counts is Some,
    ensures
        w.over_budget() <==> {
            ||| w.budget.max_tokens matches Some(l) && capped(sum_of(w.counts->0)) > l
            ||| w.budget.max_rounds matches Some(l) && users_in(w.messages) > rounds_allowed(l)
        },
{
    lemma_total(w.counts->0);
    lemma_users_same(w.messages);
}

/// The plan for a context: a conversation within its budget is returned whole;
/// otherwise the messages of the rounds without a protected one are to be
/// trimmed, and no others.
pub proof fn law_plans_trim_what_is_free<C, S>(memory: &WindowMemory<C, S>, plan: ContextPlan)
    requires
        memory.inv(),
        memory.window().counts is Some,
        call_ensures(WindowMemory::<C, S>::plan_context, (memory,), plan),
    ensures
        match plan {
            ContextPlan::Whole { messages } => !memory.window().over_budget() && message_views(
                messages@,
            ) == memory.window().messages,
            ContextPlan::Trim { candidates, counts } => memory.window().over_budget()
                && forall|m: MessageView| #[trigger]
                message_views(candidates@).contains(m) <==> exists|i: int|
                    0 <= i < memory.window().messages.len() && #[trigger] memory.window().messages[i]
                        == m && !memory.window().exempt()[i],
        },
{
    if let ContextPlan::Trim { candidates, counts } = plan {
        let w = memory.window();
        memory.lemma_wf();
        let free = places_where(w.exempt(), false);
        lemma_places_where(w.exempt(), false);
        assert forall|m: MessageView| #[trigger]
            message_views(candidates@).contains(m) <==> exists|i: int|
            0 <= i < w.messages.len() && #[trigger] w.messages[i] == m && !w.exempt()[i] by {
            if w.candidates().contains(m) {
                let k = choose|k: int| 0 <= k < w.candidates().len() && w.candidates()[k] == m;
                assert(w.messages[free[k]] == m && !w.exempt()[free[k]]);
            }
            if exists|i: int| 0 <= i < w.messages.len() && #[trigger] w.messages[i] == m
                && !w.exempt()[i] {
                let i = choose|i: int|
                    0 <= i < w.messages.len() && #[trigger] w.messages[i] == m && !w.exempt()[i];
                lemma_place_of(w.exempt(), false, i);
                let k = choose|k: int| 0 <= k < free.len() && #[trigger] free[k] == i;
                assert(w.candidates()[k] == m);
            }
        }
    }
}

/// A context that is put together holds the exempt messages and the answer, and
/// nothing else; where the answer is to replace what is stored, just the
/// context is stored.
pub proof fn law_finished_contexts_hold_both<C, S>(result: TrimResult, context: Vec<Message>)
    ensures
        forall|memory: &mut WindowMemory<C, S>|
            memory.inv() && #[trigger] call_ensures(
                WindowMemory::<C, S>::finish_context,
                (memory, result),
                context,
            ) ==> {
                let w = memory.window();
                let views = message_views(context@);
                &&& forall|m: MessageView| #[trigger]
                    views.contains(m) <==> message_views(result.messages@).contains(m) || exists|
                        i: int,
                    |
                        0 <= i < w.messages.len() && #[trigger] w.messages[i] == m && w.exempt()[i]
                &&& result.replace ==> final(memory).window().messages == views
                &&& !result.replace ==> final(memory).window() == w
            },
{
    assert forall|memory: &mut WindowMemory<C, S>|
        memory.inv() && #[trigger] call_ensures(
            WindowMemory::<C, S>::finish_context,
            (memory, result),
            context,
        ) implies {
        let w = memory.window();
        let views = message_views(context@);
        &&& forall|m: MessageView| #[trigger]
            views.contains(m) <==> message_views(result.messages@).contains(m) || exists|i: int|
                0 <= i < w.messages.len() && #[trigger] w.messages[i] == m && w.exempt()[i]
        &&& result.replace ==> final(memory).window().messages == views
        &&& !result.replace ==> final(memory).window() == w
    } by {
        memory.lemma_wf();
        lemma_context_members(memory.window(), message_views(result.messages@));
    }
}

/// Another counter or strategy leaves the conversation and its budget as they
/// are; what an old counter counted is forgotten. A new memory is empty, with
/// its limit on tokens.
pub proof fn law_settings_keep_the_conversation<C, S, D, T>(
    memory: WindowMemory<C, S>,
    counter: D,
    strategy: T,
    rounds: usize,
    tokens: usize,
    recounted: WindowMemory<D, S>,
    retrimmed: WindowMemory<C, T>,
    limited: WindowMemory<C, S>,
    fresh: WindowMemory<CharTokenCounter, WindowDrop>,
)
    requires
        call_ensures(WindowMemory::<C, S>::with_token_counter::<D>, (memory, counter), recounted),
        call_ensures(WindowMemory::<C, S>::with_strategy::<T>, (memory, strategy), retrimmed),
        call_ensures(WindowMemory::<C, S>::with_max_rounds, (memory, rounds), limited),
        call_ensures(WindowMemory::<CharTokenCounter, WindowDrop>::new, (tokens,), fresh),
    ensures
        recounted.window() == (WindowView { counts: None, ..memory.window() }),
        recounted.counter_used() == counter,
        retrimmed.window() == memory.window(),
        retrimmed.strategy_used() == strategy,
        limited.window().messages == memory.window().messages,
        limited.window().budget == (Budget {
            max_rounds: Some(rounds),
            ..memory.window().budget
        }),
        fresh.window().messages.len() == 0,
        fresh.window().budget == (Budget { max_tokens: Some(tokens), max_rounds: None }),
{
}

/// A budget that is changed later counts from then on, and changes nothing of
/// what is stored.
pub proof fn law_budgets_can_be_changed<C, S>(tokens: usize, rounds: Option<usize>)
    ensures
        forall|memory: &mut WindowMemory<C, S>, r: ()| #[trigger]
            call_ensures(WindowMemory::<C, S>::set_max_tokens, (memory, tokens), r)
                ==> final(memory).window() == (WindowView {
                budget: Budget { max_tokens: Some(tokens), ..memory.window().budget },
                ..memory.window()
            }),
        forall|memory: &mut WindowMemory<C, S>, r: ()| #[trigger]
            call_ensures(WindowMemory::<C, S>::set_max_rounds, (memory, rounds), r)
                ==> final(memory).window() == (WindowView {
                budget: Budget { max_rounds: rounds, ..memory.window().budget },
                ..memory.window()
            }),
{
}

} // verus!
