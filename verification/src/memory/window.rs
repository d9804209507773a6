//! Window memory: a conversation that is trimmed to a budget whenever it is
//! read.

use vstd::prelude::*;

use super::placed::{
    answer_entries, as_ints, at_places, candidates_in, entry_flags, entry_messages,
    exempt_entries, find_places, in_order, law_kept_messages_are_not_made, law_merged_is_in_order,
    lemma_merge_members, lemma_place_of, lemma_places_where, lemma_tail_in_order,
    lemma_whole_in_order, made_in, merge_context, merged, places_where, Entry,
};
use super::{Memory, MemoryError, MemoryErrorView};
use crate::message::{
    block_views, message_views, BlockView, ContentBlock, Message, MessageView, ToolCallView,
};

verus! {

/// How much context may be kept: a limit on tokens, a limit on rounds, both or
/// neither. With both, the smaller window counts.
#[derive(Debug, Clone, Copy, PartialEq, Eq, Structural)]
pub struct Budget {
    pub max_tokens: Option<usize>,
    pub max_rounds: Option<usize>,
}

impl Budget {
    pub fn tokens(max_tokens: usize) -> (r: Budget)
        ensures
            r == (Budget { max_tokens: Some(max_tokens), max_rounds: None }),
    {
        Budget { max_tokens: Some(max_tokens), max_rounds: None }
    }

    pub fn rounds(max_rounds: usize) -> (r: Budget)
        ensures
            r == (Budget { max_tokens: None, max_rounds: Some(max_rounds) }),
    {
        Budget { max_tokens: None, max_rounds: Some(max_rounds) }
    }

    pub fn both(max_tokens: usize, max_rounds: usize) -> (r: Budget)
        ensures
            r == (Budget { max_tokens: Some(max_tokens), max_rounds: Some(max_rounds) }),
    {
        Budget { max_tokens: Some(max_tokens), max_rounds: Some(max_rounds) }
    }
}

impl Default for Budget {
    fn default() -> (r: Budget)
        ensures
            r == (Budget { max_tokens: None, max_rounds: None }),
    {
        Budget { max_tokens: None, max_rounds: None }
    }
}

/// A token count as large as a count can be.
pub open spec fn cap(n: int) -> usize {
    if n <= usize::MAX {
        n as usize
    } else {
        usize::MAX
    }
}

/// The sum of token counts, stopping at the largest count there is.
pub open spec fn total(counts: Seq<usize>) -> usize
    decreases counts.len(),
{
    if counts.len() == 0 {
        0
    } else {
        cap(total(counts.drop_last()) + counts.last())
    }
}

pub(crate) fn capped_add(a: usize, b: usize) -> (r: usize)
    ensures
        r == cap(a + b),
{
    if a <= usize::MAX - b {
        a + b
    } else {
        usize::MAX
    }
}

/// Counts the tokens of a text. What a counter answers depends on the counter
/// and the text alone.
pub trait TokenCounter {
    /// What the counter answers. A counter whose answers are proved says it
    /// here.
    open spec fn tokens(&self, text: Seq<char>) -> Result<usize, MemoryErrorView> {
        arbitrary()
    }

    fn count(&self, text: &str) -> (r: Result<usize, MemoryError>)
        ensures
            match r {
                Ok(n) => self.tokens(text@) == Ok::<usize, MemoryErrorView>(n),
                Err(e) => self.tokens(text@) == Err::<usize, MemoryErrorView>(e@),
            },
    ;
}

/// CJK ideographs, including the extensions and the compatibility block.
pub open spec fn is_cjk(c: char) -> bool {
    let u = c as u32;
    ||| 0x3400 <= u <= 0x4dbf
    ||| 0x4e00 <= u <= 0x9fff
    ||| 0xf900 <= u <= 0xfaff
    ||| 0x20000 <= u <= 0x2fa1f
}

/// The number of CJK ideographs in a text.
pub open spec fn cjk_count(text: Seq<char>) -> nat
    decreases text.len(),
{
    if text.len() == 0 {
        0
    } else if is_cjk(text.last()) {
        cjk_count(text.drop_last()) + 1
    } else {
        cjk_count(text.drop_last())
    }
}

/// The approximate number of tokens in a text: one for each CJK ideograph and
/// one for each four other characters begun.
pub open spec fn char_tokens(text: Seq<char>) -> nat {
    let cjk = cjk_count(text);
    cjk + ((text.len() - cjk + 3) / 4) as nat
}

/// Counts tokens by characters, without knowing a model.
#[derive(Debug, Clone, Copy, PartialEq, Eq, Structural)]
pub struct CharTokenCounter;

impl Default for CharTokenCounter {
    fn default() -> (r: CharTokenCounter)
        ensures
            r == CharTokenCounter,
    {
        CharTokenCounter
    }
}

pub(crate) fn is_cjk_char(c: char) -> (r: bool)
    ensures
        r == is_cjk(c),
{
    let u: u32 = c as u32;
    (0x3400 <= u && u <= 0x4dbf) || (0x4e00 <= u && u <= 0x9fff) || (0xf900 <= u && u <= 0xfaff)
        || (0x20000 <= u && u <= 0x2fa1f)
}

impl TokenCounter for CharTokenCounter {
    open spec fn tokens(&self, text: Seq<char>) -> Result<usize, MemoryErrorView> {
        Ok(char_tokens(text) as usize)
    }

    fn count(&self, text: &str) -> (r: Result<usize, MemoryError>)
        ensures
            r matches Ok(n) && n == char_tokens(text@),
    {
        let n: usize = text.unicode_len();
        let mut cjk: usize = 0;
        for c in it: text.chars()
            invariant
                it.seq() == text@,
                n == text@.len(),
                cjk == cjk_count(text@.take(it.index() as int)),
                cjk <= it.index(),
        {
            proof {
                let next = text@.take(it.index() + 1);
                assert(next.drop_last() =~= text@.take(it.index() as int));
                assert(next.last() == c);
            }
            if is_cjk_char(c) {
                cjk = cjk + 1;
            }
        }
        assert(text@.take(n as int) =~= text@);
        let other: usize = n - cjk;
        let quarters: usize = other / 4;
        let begun: usize = if other % 4 == 0 {
            0
        } else {
            1
        };
        Ok(cjk + quarters + begun)
    }
}

/// The texts of a user's message; images have none.
pub open spec fn block_texts(blocks: Seq<BlockView>) -> Seq<Seq<char>>
    decreases blocks.len(),
{
    if blocks.len() == 0 {
        Seq::empty()
    } else {
        match blocks.last() {
            BlockView::Text(text) => block_texts(blocks.drop_last()).push(text),
            BlockView::Image(_) => block_texts(blocks.drop_last()),
        }
    }
}

/// The texts of a message that are sent back to the model, in the order they
/// are counted.
pub open spec fn message_texts(message: MessageView) -> Seq<Seq<char>> {
    match message {
        MessageView::System(text) => seq![text],
        MessageView::User(blocks) => block_texts(blocks),
        MessageView::Assistant { content, reasoning, tool_calls } => {
            let head = match reasoning {
                Some(reasoning) => seq![content, reasoning],
                None => seq![content],
            };
            head + tool_calls.map_values(|c: ToolCallView| c.arguments)
        },
        MessageView::ToolResult { id, content } => seq![content],
    }
}

/// The token count of several texts: their sum, or the first error.
pub open spec fn texts_tokens<C: TokenCounter>(counter: C, texts: Seq<Seq<char>>) -> Result<
    usize,
    MemoryErrorView,
>
    decreases texts.len(),
{
    if texts.len() == 0 {
        Ok(0)
    } else {
        match texts_tokens(counter, texts.drop_last()) {
            Err(e) => Err(e),
            Ok(sum) => match counter.tokens(texts.last()) {
                Err(e) => Err(e),
                Ok(n) => Ok(cap(sum + n)),
            },
        }
    }
}

/// The token count of a message.
pub open spec fn message_tokens<C: TokenCounter>(counter: C, message: MessageView) -> Result<
    usize,
    MemoryErrorView,
> {
    texts_tokens(counter, message_texts(message))
}

proof fn lemma_texts_error<C: TokenCounter>(
    counter: C,
    texts: Seq<Seq<char>>,
    n: int,
    e: MemoryErrorView,
)
    requires
        0 <= n <= texts.len(),
        texts_tokens(counter, texts.take(n)) == Err::<usize, _>(e),
    ensures
        texts_tokens(counter, texts) == Err::<usize, _>(e),
    decreases texts.len() - n,
{
    if n == texts.len() {
        assert(texts.take(n) =~= texts);
    } else {
        assert(texts.take(n + 1).drop_last() =~= texts.take(n));
        lemma_texts_error(counter, texts, n + 1, e);
    }
}

/// Adds the count of the text at `n` to the sum of the texts before it.
fn add_text<C: TokenCounter>(
    counter: &C,
    text: &str,
    sum: usize,
    Ghost(texts): Ghost<Seq<Seq<char>>>,
    Ghost(n): Ghost<int>,
) -> (r: Result<usize, MemoryError>)
    requires
        0 <= n < texts.len(),
        texts[n] == text@,
        texts_tokens(*counter, texts.take(n)) == Ok::<usize, MemoryErrorView>(sum),
    ensures
        match r {
            Ok(next) => texts_tokens(*counter, texts.take(n + 1)) == Ok::<usize, MemoryErrorView>(
                next,
            ),
            Err(e) => texts_tokens(*counter, texts) == Err::<usize, MemoryErrorView>(e@),
        },
{
    assert(texts.take(n + 1).drop_last() =~= texts.take(n));
    match counter.count(text) {
        Ok(tokens) => Ok(capped_add(sum, tokens)),
        Err(e) => {
            proof {
                lemma_texts_error(*counter, texts, n + 1, e@);
            }
            Err(e)
        },
    }
}

fn count_blocks<C: TokenCounter>(counter: &C, blocks: &Vec<ContentBlock>) -> (r: Result<
    usize,
    MemoryError,
>)
    ensures
        match r {
            Ok(n) => texts_tokens(*counter, block_texts(block_views(blocks@))) == Ok::<
                usize,
                MemoryErrorView,
            >(n),
            Err(e) => texts_tokens(*counter, block_texts(block_views(blocks@))) == Err::<
                usize,
                MemoryErrorView,
            >(e@),
        },
{
    let ghost views = block_views(blocks@);
    let mut sum: usize = 0;
    let mut i: usize = 0;
    assert(views.take(0) =~= Seq::empty());
    while i < blocks.len()
        invariant
            i <= blocks@.len(),
            views == block_views(blocks@),
            texts_tokens(*counter, block_texts(views.take(i as int))) == Ok::<
                usize,
                MemoryErrorView,
            >(sum),
        decreases blocks@.len() - i,
    {
        let ghost head = views.take(i + 1);
        assert(head.drop_last() =~= views.take(i as int));
        assert(head.last() == blocks@[i as int]@);
        match &blocks[i] {
            ContentBlock::Text(text) => {
                let ghost texts = block_texts(head);
                assert(texts.take(texts.len() - 1) =~= block_texts(views.take(i as int)));
                assert(texts.take(texts.len() as int) =~= texts);
                match add_text(counter, text.as_str(), sum, Ghost(texts), Ghost(texts.len() - 1)) {
                    Ok(next) => {
                        sum = next;
                    },
                    Err(e) => {
                        proof {
                            lemma_blocks_prefix(views, i + 1);
                            let all = block_texts(views);
                            assert(all.take(texts.len() as int) =~= texts);
                            lemma_texts_error(*counter, all, texts.len() as int, e@);
                        }
                        return Err(e);
                    },
                }
            },
            ContentBlock::Image(_) => {},
        }
        i = i + 1;
    }
    assert(views.take(i as int) =~= views);
    Ok(sum)
}

proof fn lemma_blocks_prefix(blocks: Seq<BlockView>, n: int)
    requires
        0 <= n <= blocks.len(),
    ensures
        block_texts(blocks.take(n)).len() <= block_texts(blocks).len(),
        block_texts(blocks).take(block_texts(blocks.take(n)).len() as int) == block_texts(
            blocks.take(n),
        ),
    decreases blocks.len() - n,
{
    let short = block_texts(blocks.take(n));
    if n == blocks.len() {
        assert(blocks.take(n) =~= blocks);
        assert(short.take(short.len() as int) =~= short);
    } else {
        lemma_blocks_prefix(blocks, n + 1);
        let next = block_texts(blocks.take(n + 1));
        assert(blocks.take(n + 1).drop_last() =~= blocks.take(n));
        assert(next.take(short.len() as int) =~= short);
        assert(block_texts(blocks).take(short.len() as int) =~= block_texts(blocks).take(
            next.len() as int,
        ).take(short.len() as int));
    }
}

/// Counts the tokens of a message: of every text that is sent back to the
/// model, reasoning and tool arguments included.
pub fn count_message<C: TokenCounter>(counter: &C, message: &Message) -> (r: Result<
    usize,
    MemoryError,
>)
    ensures
        match r {
            Ok(n) => message_tokens(*counter, message@) == Ok::<usize, MemoryErrorView>(n),
            Err(e) => message_tokens(*counter, message@) == Err::<usize, MemoryErrorView>(e@),
        },
{
    let ghost texts = message_texts(message@);
    assert(texts.take(0) =~= Seq::empty());
    assert(texts.take(texts.len() as int) =~= texts);
    match message {
        Message::System(text) => add_text(counter, text.as_str(), 0, Ghost(texts), Ghost(0)),
        Message::User(blocks) => count_blocks(counter, blocks),
        Message::Assistant { content, reasoning, tool_calls } => {
            let mut sum = add_text(counter, content.as_str(), 0, Ghost(texts), Ghost(0))?;
            let mut n: Ghost<int> = Ghost(1);
            if let Some(reasoning) = reasoning {
                sum = add_text(counter, reasoning.as_str(), sum, Ghost(texts), Ghost(1))?;
                proof {
                    n@ = 2;
                }
            }
            let ghost head = n@;
            let mut i: usize = 0;
            while i < tool_calls.len()
                invariant
                    i <= tool_calls@.len(),
                    0 <= head,
                    texts.len() == head + tool_calls@.len(),
                    forall|j: int|
                        0 <= j < tool_calls@.len() ==> #[trigger] texts[head + j]
                            == tool_calls@[j].arguments@,
                    texts_tokens(*counter, texts.take(head + i)) == Ok::<usize, MemoryErrorView>(
                        sum,
                    ),
                    texts == message_texts(message@),
                decreases tool_calls@.len() - i,
            {
                assert(texts[head + i] == tool_calls@[i as int].arguments@);
                sum = add_text(
                    counter,
                    tool_calls[i].arguments.as_str(),
                    sum,
                    Ghost(texts),
                    Ghost(head + i),
                )?;
                i = i + 1;
            }
            assert(texts.take(head + i) =~= texts);
            Ok(sum)
        },
        Message::ToolResult { id: _, content } => add_text(
            counter,
            content.as_str(),
            0,
            Ghost(texts),
            Ghost(0),
        ),
    }
}

/// A round: the messages from `start` up to `end`, and their tokens. It begins
/// with a user's message; what stands before the first one belongs to the
/// first round.
#[derive(Debug, Clone, Copy, PartialEq, Eq, Structural)]
pub struct Round {
    pub start: usize,
    pub end: usize,
    pub tokens: usize,
}

/// How many user's messages there are.
pub open spec fn user_messages(messages: Seq<MessageView>) -> nat
    decreases messages.len(),
{
    if messages.len() == 0 {
        0
    } else if messages.last() is User {
        user_messages(messages.drop_last()) + 1
    } else {
        user_messages(messages.drop_last())
    }
}

/// Whether a user's message stands before the place `i`.
pub open spec fn user_before(messages: Seq<MessageView>, i: int) -> bool {
    exists|j: int| 0 <= j < i && #[trigger] messages[j] is User
}

/// Whether a round begins at the place `i`: at the beginning of the
/// conversation, and with every user's message but the first.
pub open spec fn opens_round(messages: Seq<MessageView>, i: int) -> bool {
    i == 0 || messages[i] is User && user_before(messages, i)
}

/// The rounds of a conversation, oldest first.
pub open spec fn rounds_of(messages: Seq<MessageView>, counts: Seq<usize>) -> Seq<Round>
    decreases messages.len(),
{
    let n = messages.len();
    if n == 0 {
        Seq::empty()
    } else {
        let earlier = rounds_of(messages.drop_last(), counts.drop_last());
        if opens_round(messages, n - 1) {
            earlier.push(Round { start: (n - 1) as usize, end: n as usize, tokens: counts.last() })
        } else {
            earlier.drop_last().push(
                Round {
                    start: earlier.last().start,
                    end: n as usize,
                    tokens: cap(earlier.last().tokens + counts.last()),
                },
            )
        }
    }
}

/// What holds of a round: it is not empty, its tokens are those of its
/// messages, it follows the round before it without a gap, and no other round
/// begins inside it.
pub open spec fn is_round(
    messages: Seq<MessageView>,
    counts: Seq<usize>,
    rounds: Seq<Round>,
    k: int,
) -> bool {
    let r = rounds[k];
    &&& r.start < r.end <= messages.len()
    &&& r.tokens == total(counts.subrange(r.start as int, r.end as int))
    &&& k == 0 ==> r.start == 0
    &&& k > 0 ==> messages[r.start as int] is User && rounds[k - 1].end == r.start
    &&& opens_round(messages, r.start as int)
    &&& forall|i: int| r.start < i < r.end ==> !#[trigger] opens_round(messages, i)
}

/// The rounds of a conversation cover it without gaps, and each but the first
/// begins with a user's message.
pub proof fn law_rounds_partition(messages: Seq<MessageView>, counts: Seq<usize>)
    requires
        messages.len() == counts.len(),
        messages.len() <= usize::MAX,
    ensures
        messages.len() == 0 <==> rounds_of(messages, counts).len() == 0,
        messages.len() > 0 ==> rounds_of(messages, counts).last().end == messages.len(),
        forall|k: int|
            0 <= k < rounds_of(messages, counts).len() ==> #[trigger] is_round(
                messages,
                counts,
                rounds_of(messages, counts),
                k,
            ),
    decreases messages.len(),
{
    let n = messages.len();
    if n > 0 {
        let m0 = messages.drop_last();
        let c0 = counts.drop_last();
        law_rounds_partition(m0, c0);
        let earlier = rounds_of(m0, c0);
        let all = rounds_of(messages, counts);
        assert forall|k: int| 0 <= k < all.len() implies #[trigger] is_round(
            messages,
            counts,
            all,
            k,
        ) by {
            lemma_round_step(messages, counts, earlier, all, k);
        }
    }
}

proof fn lemma_opens_earlier(messages: Seq<MessageView>, i: int)
    requires
        0 <= i < messages.len() - 1,
    ensures
        opens_round(messages.drop_last(), i) == opens_round(messages, i),
{
    let m0 = messages.drop_last();
    if user_before(messages, i) {
        let j = choose|j: int| 0 <= j < i && #[trigger] messages[j] is User;
        assert(m0[j] is User);
    }
    if user_before(m0, i) {
        let j = choose|j: int| 0 <= j < i && #[trigger] m0[j] is User;
        assert(messages[j] is User);
    }
}

proof fn lemma_round_step(
    messages: Seq<MessageView>,
    counts: Seq<usize>,
    earlier: Seq<Round>,
    all: Seq<Round>,
    k: int,
)
    requires
        0 < messages.len() == counts.len() <= usize::MAX,
        earlier == rounds_of(messages.drop_last(), counts.drop_last()),
        all == rounds_of(messages, counts),
        messages.len() > 1 ==> earlier.len() > 0 && earlier.last().end == messages.len() - 1,
        messages.len() == 1 ==> earlier.len() == 0,
        forall|j: int|
            0 <= j < earlier.len() ==> #[trigger] is_round(
                messages.drop_last(),
                counts.drop_last(),
                earlier,
                j,
            ),
        0 <= k < all.len(),
    ensures
        is_round(messages, counts, all, k),
{
    let n = messages.len();
    let m0 = messages.drop_last();
    let c0 = counts.drop_last();
    let r = all[k];
    let piece = counts.subrange(r.start as int, r.end as int);
    if k < all.len() - 1 {
        assert(r == earlier[k]);
        assert(is_round(m0, c0, earlier, k));
        assert(piece =~= c0.subrange(r.start as int, r.end as int));
        assert forall|i: int| r.start < i < r.end implies !#[trigger] opens_round(messages, i) by {
            lemma_opens_earlier(messages, i);
        }
        lemma_opens_earlier(messages, r.start as int);
        if k > 0 {
            assert(earlier[k - 1] == all[k - 1]);
        }
    } else if opens_round(messages, n - 1) {
        assert(piece.drop_last() =~= Seq::empty());
        assert(piece.last() == counts.last());
        assert(total(piece.drop_last()) == 0);
        if k > 0 {
            assert(all[k - 1] == earlier.last());
        }
    } else {
        let e = earlier.last();
        assert(is_round(m0, c0, earlier, earlier.len() - 1));
        assert(piece.drop_last() =~= c0.subrange(e.start as int, e.end as int));
        assert(piece.last() == counts.last());
        assert forall|i: int| r.start < i < r.end implies !#[trigger] opens_round(messages, i) by {
            if i < n - 1 {
                lemma_opens_earlier(messages, i);
            }
        }
        lemma_opens_earlier(messages, r.start as int);
        if k > 0 {
            assert(all[k - 1] == earlier[k - 1]);
        }
    }
}

/// Splits a conversation into rounds.
pub fn split_rounds(messages: &[Message], counts: &[usize]) -> (rounds: Vec<Round>)
    requires
        messages@.len() == counts@.len(),
    ensures
        rounds@ == rounds_of(message_views(messages@), counts@),
{
    let mut rounds: Vec<Round> = Vec::new();
    let ghost views = message_views(messages@);
    let mut seen = false;
    let mut i: usize = 0;
    assert(views.take(0) =~= Seq::empty());
    while i < messages.len()
        invariant
            i <= messages@.len(),
            messages@.len() == counts@.len(),
            views == message_views(messages@),
            seen == user_before(views, i as int),
            rounds@ == rounds_of(views.take(i as int), counts@.take(i as int)),
        decreases messages@.len() - i,
    {
        let ghost m = views.take(i + 1);
        let ghost c = counts@.take(i + 1);
        assert(m.drop_last() =~= views.take(i as int));
        assert(c.drop_last() =~= counts@.take(i as int));
        assert(m.last() == messages@[i as int]@);
        assert(views[i as int] == messages@[i as int]@);
        proof {
            law_rounds_partition(views.take(i as int), counts@.take(i as int));
            lemma_user_before_taken(views, i as int);
        }
        let is_user = messages[i].is_user();
        if i == 0 || is_user && seen {
            rounds.push(Round { start: i, end: i + 1, tokens: counts[i] });
        } else {
            let last = rounds[rounds.len() - 1];
            rounds.pop();
            rounds.push(
                Round {
                    start: last.start,
                    end: i + 1,
                    tokens: capped_add(last.tokens, counts[i]),
                },
            );
        }
        proof {
            lemma_user_before_next(views, i as int);
        }
        seen = seen || is_user;
        i = i + 1;
    }
    assert(views.take(i as int) =~= views);
    assert(counts@.take(i as int) =~= counts@);
    rounds
}

proof fn lemma_user_before_taken(messages: Seq<MessageView>, i: int)
    requires
        0 <= i < messages.len(),
    ensures
        opens_round(messages.take(i + 1), i) == opens_round(messages, i),
{
    let m = messages.take(i + 1);
    if user_before(messages, i) {
        let j = choose|j: int| 0 <= j < i && #[trigger] messages[j] is User;
        assert(m[j] is User);
    }
    if user_before(m, i) {
        let j = choose|j: int| 0 <= j < i && #[trigger] m[j] is User;
        assert(messages[j] is User);
    }
}

proof fn lemma_user_before_next(messages: Seq<MessageView>, i: int)
    requires
        0 <= i < messages.len(),
    ensures
        user_before(messages, i + 1) == (user_before(messages, i) || messages[i] is User),
{
    if user_before(messages, i) {
        let j = choose|j: int| 0 <= j < i && #[trigger] messages[j] is User;
        assert(0 <= j < i + 1 && messages[j] is User);
    }
    if messages[i] is User {
        assert(0 <= i < i + 1 && messages[i] is User);
    }
}

/// A conversation has as many rounds as user's messages, and one when it has
/// none of these.
pub proof fn law_rounds_are_counted_by_user_messages(
    messages: Seq<MessageView>,
    counts: Seq<usize>,
)
    requires
        messages.len() == counts.len(),
        0 < messages.len() <= usize::MAX,
    ensures
        user_before(messages, messages.len() as int) == (user_messages(messages) > 0),
        rounds_of(messages, counts).len() == if user_messages(messages) == 0 {
            1
        } else {
            user_messages(messages)
        },
    decreases messages.len(),
{
    let n = messages.len() as int;
    let m0 = messages.drop_last();
    lemma_user_before_next(messages, n - 1);
    if n > 1 {
        law_rounds_are_counted_by_user_messages(m0, counts.drop_last());
        law_rounds_partition(m0, counts.drop_last());
        assert(user_before(m0, n - 1) == user_before(messages, n - 1)) by {
            if user_before(messages, n - 1) {
                let j = choose|j: int| 0 <= j < n - 1 && #[trigger] messages[j] is User;
                assert(m0[j] is User);
            }
            if user_before(m0, n - 1) {
                let j = choose|j: int| 0 <= j < n - 1 && #[trigger] m0[j] is User;
                assert(messages[j] is User);
            }
        }
    } else {
        assert(m0 =~= Seq::empty());
        assert(rounds_of(m0, counts.drop_last()) =~= Seq::empty());
        assert(!user_before(messages, 0));
    }
}

/// The tokens of the last `k` rounds.
pub open spec fn tail_total(rounds: Seq<Round>, k: nat) -> usize
    decreases k,
{
    if k == 0 || k > rounds.len() {
        0
    } else {
        cap(tail_total(rounds, (k - 1) as nat) + rounds[rounds.len() - k].tokens)
    }
}

/// How many rounds are kept, counted from the end, once `k` are: as many as
/// fit the limit, the last one in any case.
pub open spec fn kept_from(rounds: Seq<Round>, limit: Option<usize>, k: nat) -> nat
    decreases rounds.len() - k,
{
    if k >= rounds.len() {
        k
    } else if k > 0 && (limit matches Some(l) && tail_total(rounds, k + 1) > l) {
        k
    } else {
        kept_from(rounds, limit, k + 1)
    }
}

/// A limit of no rounds is one of one round.
pub open spec fn at_least_one(limit: usize) -> usize {
    if limit == 0 {
        1
    } else {
        limit
    }
}

/// The token limit that is left when `reserved` tokens are set aside.
pub open spec fn token_limit(budget: Budget, reserved: usize) -> Option<usize> {
    match budget.max_tokens {
        Some(limit) => Some(
            if limit >= reserved {
                (limit - reserved) as usize
            } else {
                0
            },
        ),
        None => None,
    }
}

/// How many of the last rounds fit the budget.
pub open spec fn keep_count(rounds: Seq<Round>, budget: Budget, reserved: usize) -> nat {
    let kept = kept_from(rounds, token_limit(budget, reserved), 0);
    match budget.max_rounds {
        Some(limit) => if kept <= at_least_one(limit) {
            kept
        } else {
            at_least_one(limit) as nat
        },
        None => kept,
    }
}

/// Where the kept part of a conversation begins.
pub open spec fn window_start(
    messages: Seq<MessageView>,
    counts: Seq<usize>,
    budget: Budget,
    reserved: usize,
) -> int {
    let rounds = rounds_of(messages, counts);
    if messages.len() == 0 {
        0
    } else {
        rounds[rounds.len() - keep_count(rounds, budget, reserved)].start as int
    }
}

proof fn lemma_kept_from(rounds: Seq<Round>, limit: Option<usize>, k: nat)
    requires
        k <= rounds.len(),
        k <= 1 || (limit matches Some(l) ==> tail_total(rounds, k) <= l),
    ensures
        k <= kept_from(rounds, limit, k) <= rounds.len(),
        rounds.len() > 0 ==> kept_from(rounds, limit, k) >= 1,
        kept_from(rounds, limit, k) > 1 ==> (limit matches Some(l) ==> tail_total(
            rounds,
            kept_from(rounds, limit, k),
        ) <= l),
        kept_from(rounds, limit, k) < rounds.len() ==> (limit matches Some(l) && tail_total(
            rounds,
            kept_from(rounds, limit, k) + 1,
        ) > l),
    decreases rounds.len() - k,
{
    if k < rounds.len() && !(k > 0 && (limit matches Some(l) && tail_total(rounds, k + 1) > l)) {
        lemma_kept_from(rounds, limit, k + 1);
    }
}

/// The window is the longest tail of whole rounds that fits the budget, and it
/// always holds the last round: it begins where a round begins; if it holds
/// more than one round, its tokens fit the limit; it holds no more rounds than
/// allowed; and one round more would break one of the two limits.
pub proof fn law_window_is_the_longest_that_fits(
    messages: Seq<MessageView>,
    counts: Seq<usize>,
    budget: Budget,
    reserved: usize,
)
    requires
        messages.len() == counts.len(),
        0 < messages.len() <= usize::MAX,
    ensures
        ({
            let rounds = rounds_of(messages, counts);
            let keep = keep_count(rounds, budget, reserved);
            let start = window_start(messages, counts, budget, reserved);
            &&& 1 <= keep <= rounds.len()
            &&& 0 <= start <= rounds.last().start < messages.len()
            &&& start == 0 || messages[start] is User
            &&& keep > 1 ==> (token_limit(budget, reserved) matches Some(l) ==> tail_total(
                rounds,
                keep,
            ) <= l)
            &&& budget.max_rounds matches Some(l) ==> keep <= at_least_one(l)
            &&& keep < rounds.len() ==> {
                ||| token_limit(budget, reserved) matches Some(l) && tail_total(rounds, keep + 1)
                    > l
                ||| budget.max_rounds matches Some(l) && keep == at_least_one(l)
            }
        }),
{
    let rounds = rounds_of(messages, counts);
    let limit = token_limit(budget, reserved);
    law_rounds_partition(messages, counts);
    lemma_kept_from(rounds, limit, 0);
    let kept = kept_from(rounds, limit, 0);
    let keep = keep_count(rounds, budget, reserved);
    let k = rounds.len() - keep;
    assert(is_round(messages, counts, rounds, k));
    lemma_starts_increase(messages, counts, k, rounds.len() - 1);
    assert(is_round(messages, counts, rounds, rounds.len() - 1));
    if keep > 1 && keep < kept && limit is Some {
        lemma_tail_total_grows(rounds, keep, kept);
    }
}

pub proof fn lemma_tail_total_grows(rounds: Seq<Round>, a: nat, b: nat)
    requires
        a <= b <= rounds.len(),
    ensures
        tail_total(rounds, a) <= tail_total(rounds, b),
    decreases b - a,
{
    if a < b {
        lemma_tail_total_grows(rounds, a, (b - 1) as nat);
    }
}

pub proof fn lemma_starts_increase(messages: Seq<MessageView>, counts: Seq<usize>, a: int, b: int)
    requires
        messages.len() == counts.len() <= usize::MAX,
        0 <= a <= b < rounds_of(messages, counts).len(),
    ensures
        rounds_of(messages, counts)[a].start <= rounds_of(messages, counts)[b].start,
    decreases b - a,
{
    if a < b {
        law_rounds_partition(messages, counts);
        lemma_starts_increase(messages, counts, a, b - 1);
        assert(is_round(messages, counts, rounds_of(messages, counts), b));
        assert(is_round(messages, counts, rounds_of(messages, counts), b - 1));
    }
}

/// How many rounds to keep, counted from the end; `reserved` tokens of the
/// budget are set aside.
pub fn keep_rounds(rounds: &[Round], budget: &Budget, reserved: usize) -> (keep: usize)
    ensures
        keep == keep_count(rounds@, *budget, reserved),
{
    let limit: Option<usize> = match budget.max_tokens {
        Some(limit) => Some(
            if limit >= reserved {
                limit - reserved
            } else {
                0
            },
        ),
        None => None,
    };
    let n: usize = rounds.len();
    let mut keep: usize = 0;
    let mut sum: usize = 0;
    while keep < n
        invariant_except_break
            kept_from(rounds@, limit, 0) == kept_from(rounds@, limit, keep as nat),
        invariant
            n == rounds@.len(),
            keep <= n,
            sum == tail_total(rounds@, keep as nat),
        ensures
            keep == kept_from(rounds@, limit, 0),
        decreases n - keep,
    {
        let next: usize = capped_add(sum, rounds[n - keep - 1].tokens);
        assert(next == tail_total(rounds@, (keep + 1) as nat));
        if keep > 0 {
            if let Some(l) = limit {
                if next > l {
                    break;
                }
            }
        }
        sum = next;
        keep = keep + 1;
    }
    match budget.max_rounds {
        Some(limit) => if keep <= limit {
            keep
        } else if limit == 0 {
            1
        } else {
            limit
        },
        None => keep,
    }
}

/// What a trim strategy returns.
#[derive(Debug, PartialEq, Eq)]
pub struct TrimResult {
    /// The messages that are left.
    pub messages: Vec<Message>,
    /// Whether they replace what is stored, or are only what this retrieval
    /// sees.
    pub replace: bool,
}

pub struct TrimView {
    pub messages: Seq<MessageView>,
    pub replace: bool,
}

impl View for TrimResult {
    type V = TrimView;

    open spec fn view(&self) -> TrimView {
        TrimView { messages: message_views(self.messages@), replace: self.replace }
    }
}

/// Decides what is left of a conversation that is over its budget. What a
/// strategy answers depends on the strategy and its arguments alone.
pub trait TrimStrategy<C: TokenCounter> {
    /// What the strategy answers. A strategy whose answers are proved says it
    /// here.
    open spec fn trimmed(
        &self,
        messages: Seq<MessageView>,
        budget: Budget,
        counter: C,
    ) -> Result<TrimView, MemoryErrorView> {
        arbitrary()
    }

    /// Trims messages to a budget, counting by `counter`.
    fn trim(&self, messages: &[Message], budget: &Budget, counter: &C) -> (r:
        Result<TrimResult, MemoryError>)
        ensures
            match r {
                Ok(result) => self.trimmed(message_views(messages@), *budget, *counter) == Ok::<
                    TrimView,
                    MemoryErrorView,
                >(result@),
                Err(e) => self.trimmed(message_views(messages@), *budget, *counter) == Err::<
                    TrimView,
                    MemoryErrorView,
                >(e@),
            },
    ;

    /// Trims messages whose tokens are counted already: with the counts that
    /// `counter` gives, the answer is the same. A strategy that does not use
    /// the counts need not know of it.
    fn trim_with_counts(
        &self,
        messages: &[Message],
        counts: &[usize],
        budget: &Budget,
        counter: &C,
    ) -> (r: Result<TrimResult, MemoryError>)
        requires
            messages@.len() == counts@.len(),
        ensures
            messages_tokens(*counter, message_views(messages@)) == Ok::<
                Seq<usize>,
                MemoryErrorView,
            >(counts@) ==> match r {
                Ok(result) => self.trimmed(message_views(messages@), *budget, *counter) == Ok::<
                    TrimView,
                    MemoryErrorView,
                >(result@),
                Err(e) => self.trimmed(message_views(messages@), *budget, *counter) == Err::<
                    TrimView,
                    MemoryErrorView,
                >(e@),
            },
    {
        self.trim(messages, budget, counter)
    }
}

/// The token counts of messages, one by one, or the first error.
pub open spec fn messages_tokens<C: TokenCounter>(counter: C, messages: Seq<MessageView>) -> Result<
    Seq<usize>,
    MemoryErrorView,
>
    decreases messages.len(),
{
    if messages.len() == 0 {
        Ok(Seq::empty())
    } else {
        match messages_tokens(counter, messages.drop_last()) {
            Err(e) => Err(e),
            Ok(counts) => match message_tokens(counter, messages.last()) {
                Err(e) => Err(e),
                Ok(n) => Ok(counts.push(n)),
            },
        }
    }
}

proof fn lemma_messages_error<C: TokenCounter>(
    counter: C,
    messages: Seq<MessageView>,
    n: int,
    e: MemoryErrorView,
)
    requires
        0 <= n <= messages.len(),
        messages_tokens(counter, messages.take(n)) == Err::<Seq<usize>, _>(e),
    ensures
        messages_tokens(counter, messages) == Err::<Seq<usize>, _>(e),
    decreases messages.len() - n,
{
    if n == messages.len() {
        assert(messages.take(n) =~= messages);
    } else {
        assert(messages.take(n + 1).drop_last() =~= messages.take(n));
        lemma_messages_error(counter, messages, n + 1, e);
    }
}

/// Counts the tokens of each message.
pub fn count_messages<C: TokenCounter>(counter: &C, messages: &[Message]) -> (r: Result<
    Vec<usize>,
    MemoryError,
>)
    ensures
        match r {
            Ok(counts) => counts@.len() == messages@.len() && messages_tokens(
                *counter,
                message_views(messages@),
            ) == Ok::<Seq<usize>, MemoryErrorView>(counts@),
            Err(e) => messages_tokens(*counter, message_views(messages@)) == Err::<
                Seq<usize>,
                MemoryErrorView,
            >(e@),
        },
{
    let ghost views = message_views(messages@);
    let mut counts: Vec<usize> = Vec::new();
    let mut i: usize = 0;
    assert(views.take(0) =~= Seq::empty());
    while i < messages.len()
        invariant
            i <= messages@.len(),
            counts@.len() == i,
            views == message_views(messages@),
            messages_tokens(*counter, views.take(i as int)) == Ok::<Seq<usize>, MemoryErrorView>(
                counts@,
            ),
        decreases messages@.len() - i,
    {
        assert(views.take(i + 1).drop_last() =~= views.take(i as int));
        assert(views.take(i + 1).last() == messages@[i as int]@);
        match count_message(counter, &messages[i]) {
            Ok(n) => {
                counts.push(n);
            },
            Err(e) => {
                proof {
                    lemma_messages_error(*counter, views, i + 1, e@);
                }
                return Err(e);
            },
        }
        i = i + 1;
    }
    assert(views.take(i as int) =~= views);
    Ok(counts)
}

/// Drops the earliest rounds until the rest fits the budget. Nothing that is
/// stored changes.
#[derive(Debug, Clone, Copy, PartialEq, Eq, Structural)]
pub struct WindowDrop;

impl Default for WindowDrop {
    fn default() -> (r: WindowDrop)
        ensures
            r == WindowDrop,
    {
        WindowDrop
    }
}

/// Copies of the messages from `start` on.
pub(crate) fn messages_from(messages: &[Message], start: usize) -> (r: Vec<Message>)
    requires
        start <= messages@.len(),
    ensures
        message_views(r@) == message_views(messages@).skip(start as int),
{
    let mut out: Vec<Message> = Vec::new();
    let mut i: usize = start;
    while i < messages.len()
        invariant
            start <= i <= messages@.len(),
            message_views(out@) =~= message_views(messages@).subrange(start as int, i as int),
        decreases messages@.len() - i,
    {
        let ghost before = out@;
        let copy = messages[i].clone();
        out.push(copy);
        assert(message_views(out@) =~= message_views(before).push(copy@));
        assert(message_views(messages@)[i as int] == copy@);
        i = i + 1;
    }
    assert(message_views(messages@).subrange(start as int, i as int) =~= message_views(
        messages@,
    ).skip(start as int));
    out
}

/// The messages from `window_start` on, within the whole budget.
pub fn window_from_counts(messages: &[Message], counts: &[usize], budget: &Budget) -> (r: Vec<
    Message,
>)
    requires
        messages@.len() == counts@.len(),
    ensures
        message_views(r@) == message_views(messages@).skip(
            window_start(message_views(messages@), counts@, *budget, 0),
        ),
{
    if messages.len() == 0 {
        let out: Vec<Message> = Vec::new();
        assert(message_views(out@) =~= message_views(messages@).skip(0));
        return out;
    }
    let rounds = split_rounds(messages, counts);
    let keep = keep_rounds(&rounds, budget, 0);
    proof {
        law_window_is_the_longest_that_fits(message_views(messages@), counts@, *budget, 0);
    }
    messages_from(messages, rounds[rounds.len() - keep].start)
}

/// What round dropping leaves: the window, with nothing replaced.
pub open spec fn dropped(
    messages: Seq<MessageView>,
    counts: Seq<usize>,
    budget: Budget,
) -> TrimView {
    TrimView { messages: messages.skip(window_start(messages, counts, budget, 0)), replace: false }
}

impl<C: TokenCounter> TrimStrategy<C> for WindowDrop {
    open spec fn trimmed(
        &self,
        messages: Seq<MessageView>,
        budget: Budget,
        counter: C,
    ) -> Result<TrimView, MemoryErrorView> {
        match messages_tokens(counter, messages) {
            Ok(counts) => Ok(dropped(messages, counts, budget)),
            Err(e) => Err(e),
        }
    }

    fn trim(&self, messages: &[Message], budget: &Budget, counter: &C) -> (r:
        Result<TrimResult, MemoryError>) {
        match count_messages(counter, messages) {
            Ok(counts) => Ok(
                TrimResult {
                    messages: window_from_counts(messages, &counts, budget),
                    replace: false,
                },
            ),
            Err(e) => Err(e),
        }
    }

    /// Drops by the counts as they are, without counting again.
    fn trim_with_counts(
        &self,
        messages: &[Message],
        counts: &[usize],
        budget: &Budget,
        counter: &C,
    ) -> (r: Result<TrimResult, MemoryError>)
        ensures
            r matches Ok(result) && result@ == dropped(message_views(messages@), counts@, *budget),
    {
        Ok(TrimResult { messages: window_from_counts(messages, counts, budget), replace: false })
    }
}

/// Whether two messages belong to the same round: no round begins after the
/// earlier one, up to the later one.
pub open spec fn same_round(messages: Seq<MessageView>, i: int, j: int) -> bool {
    forall|k: int|
        (i < k <= j || j < k <= i) && 0 <= k < messages.len() ==> !#[trigger] opens_round(
            messages,
            k,
        )
}

/// Whether a message is exempt from trimming: its round holds a protected one.
pub open spec fn is_exempt(messages: Seq<MessageView>, protected: Seq<bool>, i: int) -> bool {
    exists|j: int|
        0 <= j < messages.len() && #[trigger] protected[j] && same_round(messages, i, j)
}

pub open spec fn exempt_flags(messages: Seq<MessageView>, protected: Seq<bool>) -> Seq<bool> {
    Seq::new(messages.len(), |i: int| is_exempt(messages, protected, i))
}

proof fn lemma_round_exempt(
    messages: Seq<MessageView>,
    protected: Seq<bool>,
    start: int,
    end: int,
    i: int,
)
    requires
        messages.len() == protected.len(),
        0 <= start <= i < end <= messages.len(),
        opens_round(messages, start),
        end == messages.len() || opens_round(messages, end),
        forall|k: int| start < k < end ==> !#[trigger] opens_round(messages, k),
    ensures
        is_exempt(messages, protected, i) == exists|j: int|
            start <= j < end && #[trigger] protected[j],
{
    if is_exempt(messages, protected, i) {
        let j = choose|j: int|
            0 <= j < messages.len() && #[trigger] protected[j] && same_round(messages, i, j);
        if j < start {
            assert(opens_round(messages, start));
        } else if j >= end {
            assert(opens_round(messages, end));
        }
    }
    if exists|j: int| start <= j < end && #[trigger] protected[j] {
        let j = choose|j: int| start <= j < end && #[trigger] protected[j];
        assert(same_round(messages, i, j));
    }
}

/// The messages whose rounds hold a protected message, as indices in order.
pub fn protected_round_indices(messages: &[Message], protected: &[bool]) -> (r: Vec<usize>)
    requires
        messages@.len() == protected@.len(),
    ensures
        forall|a: int, b: int| 0 <= a < b < r@.len() ==> r@[a] < r@[b],
        forall|a: int| 0 <= a < r@.len() ==> r@[a] < messages@.len(),
        forall|i: usize|
            i < messages@.len() ==> r@.contains(i) == is_exempt(
                message_views(messages@),
                protected@,
                i as int,
            ),
{
    let ghost views = message_views(messages@);
    let mut result: Vec<usize> = Vec::new();
    let mut start: usize = 0;
    let mut i: usize = 0;
    let mut any = false;
    let mut seen = false;
    while i < messages.len()
        invariant
            i <= messages@.len(),
            start <= i,
            i > 0 ==> start < i,
            messages@.len() == protected@.len(),
            views == message_views(messages@),
            seen == user_before(views, i as int),
            opens_round(views, start as int),
            forall|k: int| start < k < i ==> !#[trigger] opens_round(views, k),
            any == exists|j: int| start <= j < i && #[trigger] protected@[j],
            forall|a: int, b: int| 0 <= a < b < result@.len() ==> result@[a] < result@[b],
            forall|a: int| 0 <= a < result@.len() ==> result@[a] < start,
            forall|k: usize|
                k < start ==> result@.contains(k) == is_exempt(views, protected@, k as int),
        decreases messages@.len() - i,
    {
        assert(views[i as int] == messages@[i as int]@);
        let is_user = messages[i].is_user();
        if i > 0 && is_user && seen {
            close_round(&mut result, start, i, any, Ghost(views), Ghost(protected@));
            start = i;
            any = false;
        }
        proof {
            lemma_user_before_next(views, i as int);
        }
        seen = seen || is_user;
        if protected[i] {
            assert(protected@[i as int]);
            any = true;
        }
        i = i + 1;
    }
    close_round(&mut result, start, i, any, Ghost(views), Ghost(protected@));
    result
}

fn close_round(
    result: &mut Vec<usize>,
    start: usize,
    end: usize,
    any: bool,
    Ghost(messages): Ghost<Seq<MessageView>>,
    Ghost(protected): Ghost<Seq<bool>>,
)
    requires
        messages.len() == protected.len(),
        start <= end <= messages.len(),
        opens_round(messages, start as int),
        end == messages.len() || opens_round(messages, end as int),
        forall|k: int| start < k < end ==> !#[trigger] opens_round(messages, k),
        any == exists|j: int| start <= j < end && #[trigger] protected[j],
        forall|a: int, b: int| 0 <= a < b < old(result)@.len() ==> old(result)@[a] < old(result)@[b],
        forall|a: int| 0 <= a < old(result)@.len() ==> old(result)@[a] < start,
        forall|k: usize|
            k < start ==> old(result)@.contains(k) == is_exempt(messages, protected, k as int),
    ensures
        forall|a: int, b: int|
            0 <= a < b < final(result)@.len() ==> final(result)@[a] < final(result)@[b],
        forall|a: int| 0 <= a < final(result)@.len() ==> final(result)@[a] < end,
        forall|k: usize|
            k < end ==> final(result)@.contains(k) == is_exempt(messages, protected, k as int),
{
    let ghost before = result@;
    assert forall|k: usize| start <= k < end implies is_exempt(messages, protected, k as int)
        == any by {
        lemma_round_exempt(messages, protected, start as int, end as int, k as int);
    }
    if any {
        let mut k: usize = start;
        while k < end
            invariant
                start <= k <= end,
                result@.len() == before.len() + (k - start),
                forall|a: int| 0 <= a < before.len() ==> result@[a] == before[a],
                forall|a: int|
                    before.len() <= a < result@.len() ==> result@[a] == start + (a - before.len()),
            decreases end - k,
        {
            result.push(k);
            k = k + 1;
        }
        assert forall|a: int| 0 <= a < result@.len() implies result@[a] < end by {
            if a < before.len() {
                assert(before[a] < start);
            }
        }
        assert forall|a: int, b: int| 0 <= a < b < result@.len() implies result@[a] < result@[b] by {
            if a < before.len() {
                assert(before[a] < start);
                if b < before.len() {
                    assert(before[a] < before[b]);
                }
            }
        }
        assert forall|k: usize| k < end implies result@.contains(k) == is_exempt(
            messages,
            protected,
            k as int,
        ) by {
            if k < start {
                if before.contains(k) {
                    let a = choose|a: int| 0 <= a < before.len() && before[a] == k;
                    assert(result@[a] == k);
                }
                if result@.contains(k) {
                    let a = choose|a: int| 0 <= a < result@.len() && result@[a] == k;
                    assert(before[a] == k);
                }
            } else {
                assert(result@[before.len() + (k - start)] == k);
            }
        }
    }
}

/// For each message, whether it is exempt from trimming.
fn exempt_of(messages: &[Message], protected: &[bool]) -> (r: Vec<bool>)
    requires
        messages@.len() == protected@.len(),
    ensures
        r@ == exempt_flags(message_views(messages@), protected@),
{
    let ghost views = message_views(messages@);
    let exempt = protected_round_indices(messages, protected);
    let mut flags: Vec<bool> = Vec::new();
    let mut next: usize = 0;
    let mut i: usize = 0;
    while i < messages.len()
        invariant
            i <= messages@.len(),
            messages@.len() == protected@.len(),
            views == message_views(messages@),
            next <= exempt@.len(),
            forall|a: int, b: int| 0 <= a < b < exempt@.len() ==> exempt@[a] < exempt@[b],
            forall|k: usize|
                k < messages@.len() ==> exempt@.contains(k) == is_exempt(
                    views,
                    protected@,
                    k as int,
                ),
            forall|a: int| 0 <= a < next ==> exempt@[a] < i,
            forall|a: int| next <= a < exempt@.len() ==> exempt@[a] >= i,
            flags@ =~= exempt_flags(views, protected@).take(i as int),
        decreases messages@.len() - i,
    {
        proof {
            if exempt@.contains(i) {
                let a = choose|a: int| 0 <= a < exempt@.len() && exempt@[a] == i;
                assert(a >= next);
                if a > next {
                    assert(exempt@[next as int] < exempt@[a]);
                }
            }
        }
        if next < exempt.len() && exempt[next] == i {
            assert(exempt@.contains(i));
            flags.push(true);
            assert forall|a: int| next + 1 <= a < exempt@.len() implies exempt@[a] >= i + 1 by {
                assert(exempt@[next as int] < exempt@[a]);
            }
            next = next + 1;
        } else {
            assert(!exempt@.contains(i));
            flags.push(false);
            assert forall|a: int| next <= a < exempt@.len() implies exempt@[a] >= i + 1 by {
                if exempt@[a] == i {
                    assert(exempt@.contains(i));
                }
            }
        }
        i = i + 1;
    }
    flags
}

/// What a window memory holds: the messages, which of them are protected, their
/// token counts when these are known, and the budget.
pub struct WindowView {
    pub messages: Seq<MessageView>,
    pub protected: Seq<bool>,
    pub counts: Option<Seq<usize>>,
    pub budget: Budget,
}

proof fn lemma_user_messages(messages: Seq<MessageView>)
    ensures
        user_messages(messages) <= messages.len(),
    decreases messages.len(),
{
    if messages.len() > 0 {
        lemma_user_messages(messages.drop_last());
    }
}

impl WindowView {
    /// The flags, and the counts when known, are one per message.
    pub open spec fn wf(self) -> bool {
        &&& self.protected.len() == self.messages.len()
        &&& self.counts matches Some(c) ==> c.len() == self.messages.len()
    }

    /// The counts, when known, are those of `counter`.
    pub open spec fn counted_by<C: TokenCounter>(self, counter: C) -> bool {
        self.counts matches Some(counts) ==> messages_tokens(counter, self.messages) == Ok::<
            Seq<usize>,
            MemoryErrorView,
        >(counts)
    }

    /// The memory with its tokens counted.
    pub open spec fn counted<C: TokenCounter>(self, counter: C) -> Result<
        WindowView,
        MemoryErrorView,
    > {
        match self.counts {
            Some(_) => Ok(self),
            None => match messages_tokens(counter, self.messages) {
                Ok(counts) => Ok(WindowView { counts: Some(counts), ..self }),
                Err(e) => Err(e),
            },
        }
    }

    /// Whether the conversation is over one of the limits.
    pub open spec fn over_budget(self) -> bool {
        ||| self.budget.max_tokens matches Some(limit) && total(self.counts->0) > limit
        ||| self.budget.max_rounds matches Some(limit) && user_messages(self.messages)
            > at_least_one(limit)
    }

    pub open spec fn exempt(self) -> Seq<bool> {
        exempt_flags(self.messages, self.protected)
    }

    /// The messages that may be trimmed.
    pub open spec fn candidates(self) -> Seq<MessageView> {
        candidates_in(self.messages, self.exempt())
    }

    pub open spec fn candidate_counts(self) -> Seq<usize> {
        at_places(self.counts->0, places_where(self.exempt(), false))
    }

    /// The exempt messages and a strategy's answer, in order of occurrence:
    /// every stored message in its place, and a message that the strategy made
    /// where the first one stood that it replaces.
    pub open spec fn joined(self, answer: Seq<MessageView>) -> Seq<Entry> {
        merged(self.messages, self.exempt(), answer)
    }

    /// The memory after `message` was recorded, with its token count.
    pub open spec fn recorded(self, message: MessageView, protected: bool, tokens: usize) -> WindowView {
        WindowView {
            messages: self.messages.push(message),
            protected: self.protected.push(protected),
            counts: Some((self.counts->0).push(tokens)),
            budget: self.budget,
        }
    }

    /// The memory after the strategy's answer: replaced by the exempt messages,
    /// which stay protected, and the answer; or left as it is.
    pub open spec fn trimmed_to(self, result: TrimView) -> WindowView {
        if result.replace {
            WindowView {
                messages: entry_messages(self.joined(result.messages)),
                protected: entry_flags(self.joined(result.messages)),
                counts: None,
                budget: self.budget,
            }
        } else {
            self
        }
    }

    /// What reading the context returns, and what is stored afterwards.
    pub open spec fn retrieved<C: TokenCounter, S: TrimStrategy<C>>(self, counter: C, strategy: S) -> (
        Result<Seq<MessageView>, MemoryErrorView>,
        WindowView,
    ) {
        match self.counted(counter) {
            Err(e) => (Err(e), self),
            Ok(w) => if !w.over_budget() {
                (Ok(w.messages), w)
            } else {
                match strategy.trimmed(w.candidates(), w.budget, counter) {
                    Err(e) => (Err(e), w),
                    Ok(result) => (
                        Ok(entry_messages(w.joined(result.messages))),
                        w.trimmed_to(result),
                    ),
                }
            },
        }
    }

    /// The messages of the next context that the strategy made.
    pub open spec fn made<C: TokenCounter, S: TrimStrategy<C>>(self, counter: C, strategy: S) -> Set<
        MessageView,
    > {
        match self.counted(counter) {
            Err(_) => Set::empty(),
            Ok(w) => if !w.over_budget() {
                Set::empty()
            } else {
                match strategy.trimmed(w.candidates(), w.budget, counter) {
                    Err(_) => Set::empty(),
                    Ok(result) => made_in(w.candidates(), result.messages),
                }
            },
        }
    }
}

/// A conversation that is trimmed to a budget when it is read. The token
/// counter and the trim strategy are its user's choice.
#[derive(Debug)]
pub struct WindowMemory<C, S> {
    messages: Vec<Message>,
    protected: Vec<bool>,
    tokens: Vec<usize>,
    total_tokens: Option<usize>,
    user_count: usize,
    budget: Budget,
    counter: C,
    strategy: S,
}

/// What is to be done for a context: return everything, or have the
/// candidates trimmed.
#[derive(Debug, PartialEq, Eq)]
pub enum ContextPlan {
    Whole { messages: Vec<Message> },
    Trim { candidates: Vec<Message>, counts: Vec<usize> },
}

impl<C, S> WindowMemory<C, S> {
    pub closed spec fn window(&self) -> WindowView {
        WindowView {
            messages: message_views(self.messages@),
            protected: self.protected@,
            counts: match self.total_tokens {
                Some(_) => Some(self.tokens@),
                None => None,
            },
            budget: self.budget,
        }
    }

    pub closed spec fn counter_used(&self) -> C {
        self.counter
    }

    pub closed spec fn strategy_used(&self) -> S {
        self.strategy
    }

    /// The flags and counts fit the messages, and the running totals are
    /// theirs.
    pub closed spec fn inv(&self) -> bool {
        &&& self.window().wf()
        &&& self.total_tokens matches Some(t) ==> {
            &&& t == total(self.tokens@)
            &&& self.user_count == user_messages(message_views(self.messages@))
        }
    }

    /// Sets the limit on tokens; it holds from the next retrieval on.
    pub fn set_max_tokens(&mut self, max_tokens: usize)
        requires
            old(self).inv(),
        ensures
            final(self).inv(),
            final(self).window() == (WindowView {
                budget: Budget { max_tokens: Some(max_tokens), ..old(self).window().budget },
                ..old(self).window()
            }),
            final(self).counter_used() == old(self).counter_used(),
            final(self).strategy_used() == old(self).strategy_used(),
    {
        self.budget.max_tokens = Some(max_tokens);
    }

    /// Sets or lifts the limit on rounds; it holds from the next retrieval on.
    pub fn set_max_rounds(&mut self, max_rounds: Option<usize>)
        requires
            old(self).inv(),
        ensures
            final(self).inv(),
            final(self).window() == (WindowView {
                budget: Budget { max_rounds, ..old(self).window().budget },
                ..old(self).window()
            }),
            final(self).counter_used() == old(self).counter_used(),
            final(self).strategy_used() == old(self).strategy_used(),
    {
        self.budget.max_rounds = max_rounds;
    }

    /// The memory with a limit on rounds.
    pub fn with_max_rounds(self, max_rounds: usize) -> (r: WindowMemory<C, S>)
        requires
            self.inv(),
        ensures
            r.inv(),
            r.window() == (WindowView {
                budget: Budget { max_rounds: Some(max_rounds), ..self.window().budget },
                ..self.window()
            }),
            r.counter_used() == self.counter_used(),
            r.strategy_used() == self.strategy_used(),
    {
        let mut r = self;
        r.budget.max_rounds = Some(max_rounds);
        r
    }

    /// The memory with another counter. What was counted by the old one is
    /// forgotten.
    pub fn with_token_counter<D>(self, counter: D) -> (r: WindowMemory<D, S>)
        requires
            self.inv(),
        ensures
            r.inv(),
            r.window() == (WindowView { counts: None, ..self.window() }),
            r.counter_used() == counter,
            r.strategy_used() == self.strategy_used(),
    {
        WindowMemory {
            messages: self.messages,
            protected: self.protected,
            tokens: self.tokens,
            total_tokens: None,
            user_count: self.user_count,
            budget: self.budget,
            counter,
            strategy: self.strategy,
        }
    }

    /// The memory with another trim strategy.
    pub fn with_strategy<T>(self, strategy: T) -> (r: WindowMemory<C, T>)
        requires
            self.inv(),
        ensures
            r.inv(),
            r.window() == self.window(),
            r.counter_used() == self.counter_used(),
            r.strategy_used() == strategy,
    {
        WindowMemory {
            messages: self.messages,
            protected: self.protected,
            tokens: self.tokens,
            total_tokens: self.total_tokens,
            user_count: self.user_count,
            budget: self.budget,
            counter: self.counter,
            strategy,
        }
    }

    /// A memory whose totals are right has a flag, and a count when known, for
    /// each message.
    pub proof fn lemma_wf(&self)
        requires
            self.inv(),
        ensures
            self.window().wf(),
    {
    }

    /// The budget that holds now.
    pub fn budget(&self) -> (r: Budget)
        ensures
            r == self.window().budget,
    {
        self.budget
    }

    /// The stored messages, oldest first.
    pub fn messages(&self) -> (r: &[Message])
        ensures
            message_views(r@) == self.window().messages,
    {
        self.messages.as_slice()
    }

    /// Whether the stored messages still have to be counted.
    pub fn needs_counts(&self) -> (r: bool)
        ensures
            r == (self.window().counts is None),
    {
        self.total_tokens.is_none()
    }

    /// Takes the token counts of the stored messages, one per message.
    pub fn set_counts(&mut self, counts: Vec<usize>)
        requires
            old(self).inv(),
            counts@.len() == old(self).window().messages.len(),
        ensures
            final(self).inv(),
            final(self).window() == (WindowView { counts: Some(counts@), ..old(self).window() }),
            final(self).counter_used() == old(self).counter_used(),
            final(self).strategy_used() == old(self).strategy_used(),
    {
        let ghost views = message_views(self.messages@);
        let mut sum: usize = 0;
        let mut users: usize = 0;
        let mut i: usize = 0;
        assert(counts@.take(0) =~= Seq::empty());
        assert(views.take(0) =~= Seq::empty());
        while i < counts.len()
            invariant
                i <= counts@.len(),
                counts@.len() == self.messages@.len(),
                views == message_views(self.messages@),
                sum == total(counts@.take(i as int)),
                users == user_messages(views.take(i as int)),
                users <= i,
            decreases counts@.len() - i,
        {
            assert(counts@.take(i + 1).drop_last() =~= counts@.take(i as int));
            assert(views.take(i + 1).drop_last() =~= views.take(i as int));
            assert(views.take(i + 1).last() == self.messages@[i as int]@);
            sum = capped_add(sum, counts[i]);
            if self.messages[i].is_user() {
                users = users + 1;
            }
            i = i + 1;
        }
        assert(counts@.take(i as int) =~= counts@);
        assert(views.take(i as int) =~= views);
        self.total_tokens = Some(sum);
        self.tokens = counts;
        self.user_count = users;
    }

    /// Appends a message whose tokens are counted.
    pub fn record_counted(&mut self, message: Message, protected: bool, tokens: usize)
        requires
            old(self).inv(),
            old(self).window().counts is Some,
        ensures
            final(self).inv(),
            final(self).window() == old(self).window().recorded(message@, protected, tokens),
            final(self).counter_used() == old(self).counter_used(),
            final(self).strategy_used() == old(self).strategy_used(),
    {
        let ghost before = message_views(self.messages@);
        let is_user = message.is_user();
        self.messages.push(message);
        self.protected.push(protected);
        proof {
            let views = message_views(self.messages@);
            assert(views =~= before.push(message@));
            assert(views.drop_last() =~= before);
            lemma_user_messages(views);
            assert(self.messages.len() == views.len());
            let counts = self.tokens@.push(tokens);
            assert(counts.drop_last() =~= self.tokens@);
        }
        if is_user {
            self.user_count = self.user_count + 1;
        }
        if let Some(sum) = self.total_tokens {
            self.total_tokens = Some(capped_add(sum, tokens));
        }
        self.tokens.push(tokens);
    }

    /// What a context takes: everything, when it fits the budget; else the
    /// candidates for trimming, without the exempt rounds.
    pub fn plan_context(&self) -> (plan: ContextPlan)
        requires
            self.inv(),
            self.window().counts is Some,
        ensures
            match plan {
                ContextPlan::Whole { messages } => !self.window().over_budget() && message_views(
                    messages@,
                ) == self.window().messages,
                ContextPlan::Trim { candidates, counts } => {
                    &&& self.window().over_budget()
                    &&& message_views(candidates@) == self.window().candidates()
                    &&& counts@ == self.window().candidate_counts()
                    &&& counts@.len() == candidates@.len()
                },
            },
    {
        let sum: usize = match self.total_tokens {
            Some(sum) => sum,
            None => 0,
        };
        let over_tokens = match self.budget.max_tokens {
            Some(limit) => sum > limit,
            None => false,
        };
        let over_rounds = match self.budget.max_rounds {
            Some(limit) => self.user_count > limit && self.user_count > 1,
            None => false,
        };
        if !over_tokens && !over_rounds {
            let messages = messages_from(self.messages.as_slice(), 0);
            assert(message_views(self.messages@).skip(0) =~= message_views(self.messages@));
            return ContextPlan::Whole { messages };
        }
        let ghost w = self.window();
        let exempt = exempt_of(self.messages.as_slice(), self.protected.as_slice());
        let free = find_places(&exempt, false);
        proof {
            lemma_places_where(w.exempt(), false);
            assert(as_ints(free@).len() == free@.len());
        }
        let mut candidates: Vec<Message> = Vec::new();
        let mut counts: Vec<usize> = Vec::new();
        let mut i: usize = 0;
        while i < free.len()
            invariant
                i <= free@.len(),
                w == self.window(),
                self.inv(),
                w.counts is Some,
                as_ints(free@) == places_where(w.exempt(), false),
                as_ints(free@).len() == free@.len(),
                forall|k: int|
                    0 <= k < free@.len() ==> 0 <= #[trigger] as_ints(free@)[k]
                        < self.messages@.len(),
                message_views(candidates@) =~= w.candidates().take(i as int),
                counts@ =~= w.candidate_counts().take(i as int),
                counts@.len() == candidates@.len() == i,
            decreases free@.len() - i,
        {
            let ghost before = candidates@;
            assert(as_ints(free@)[i as int] == free@[i as int]);
            let copy = self.messages[free[i]].clone();
            candidates.push(copy);
            counts.push(self.tokens[free[i]]);
            assert(message_views(candidates@) =~= message_views(before).push(copy@));
            assert(w.candidates()[i as int] == copy@);
            i = i + 1;
        }
        ContextPlan::Trim { candidates, counts }
    }

    /// Puts the exempt messages and the strategy's answer together, and stores
    /// them when the answer says so.
    pub fn finish_context(&mut self, result: TrimResult) -> (r: Vec<Message>)
        requires
            old(self).inv(),
        ensures
            final(self).inv(),
            message_views(r@) == entry_messages(old(self).window().joined(result@.messages)),
            final(self).window() == old(self).window().trimmed_to(result@),
            final(self).counter_used() == old(self).counter_used(),
            final(self).strategy_used() == old(self).strategy_used(),
    {
        let exempt = exempt_of(self.messages.as_slice(), self.protected.as_slice());
        let (all, flags) = merge_context(&self.messages, &exempt, &result.messages);
        if result.replace {
            self.messages = messages_from(all.as_slice(), 0);
            assert(message_views(all@).skip(0) =~= message_views(all@));
            self.protected = flags;
            self.total_tokens = None;
            self.tokens = Vec::new();
            self.user_count = 0;
        }
        all
    }
}

impl WindowMemory<CharTokenCounter, WindowDrop> {
    /// An empty conversation with a limit on tokens; tokens are counted by
    /// characters, and what does not fit is dropped by rounds.
    pub fn new(max_tokens: usize) -> (r: WindowMemory<CharTokenCounter, WindowDrop>)
        ensures
            r.inv(),
            r.window() == (WindowView {
                messages: Seq::empty(),
                protected: Seq::empty(),
                counts: Some(Seq::empty()),
                budget: Budget { max_tokens: Some(max_tokens), max_rounds: None },
            }),
            r.counter_used() == CharTokenCounter,
            r.strategy_used() == WindowDrop,
    {
        let messages: Vec<Message> = Vec::new();
        assert(message_views(messages@) =~= Seq::empty());
        WindowMemory {
            messages,
            protected: Vec::new(),
            tokens: Vec::new(),
            total_tokens: Some(0),
            user_count: 0,
            budget: Budget::tokens(max_tokens),
            counter: CharTokenCounter,
            strategy: WindowDrop,
        }
    }
}

impl<C: TokenCounter, S: TrimStrategy<C>> WindowMemory<C, S> {
    /// Counts the stored messages, unless that is done.
    pub fn ensure_counts(&mut self) -> (r: Result<(), MemoryError>)
        requires
            old(self).inv(),
        ensures
            final(self).inv(),
            final(self).counter_used() == old(self).counter_used(),
            final(self).strategy_used() == old(self).strategy_used(),
            match r {
                Ok(_) => old(self).window().counted(old(self).counter_used()) == Ok::<
                    WindowView,
                    MemoryErrorView,
                >(final(self).window()) && final(self).window().counts is Some,
                Err(e) => old(self).window().counted(old(self).counter_used()) == Err::<
                    WindowView,
                    MemoryErrorView,
                >(e@) && final(self).window() == old(self).window(),
            },
    {
        if self.total_tokens.is_some() {
            return Ok(());
        }
        match count_messages(&self.counter, self.messages.as_slice()) {
            Ok(counts) => {
                self.set_counts(counts);
                Ok(())
            },
            Err(e) => Err(e),
        }
    }

    fn record_impl(&mut self, message: Message, protected: bool) -> (r: Result<(), MemoryError>)
        requires
            old(self).inv(),
            old(self).window().counted_by(old(self).counter_used()),
        ensures
            final(self).inv(),
            final(self).window().counted_by(old(self).counter_used()),
            final(self).counter_used() == old(self).counter_used(),
            final(self).strategy_used() == old(self).strategy_used(),
            match r {
                Ok(_) => old(self).window().counted(old(self).counter_used()) matches Ok(w)
                    && message_tokens(old(self).counter_used(), message@) matches Ok(n)
                    && final(self).window() == w.recorded(message@, protected, n),
                Err(e) => match old(self).window().counted(old(self).counter_used()) {
                    Err(fault) => fault == e@ && final(self).window() == old(self).window(),
                    Ok(w) => message_tokens(old(self).counter_used(), message@) == Err::<
                        usize,
                        MemoryErrorView,
                    >(e@) && final(self).window() == w,
                },
            },
    {
        match self.ensure_counts() {
            Ok(_) => {},
            Err(e) => {
                return Err(e);
            },
        }
        let ghost w = self.window();
        match count_message(&self.counter, &message) {
            Ok(tokens) => {
                assert(w.messages.push(message@).drop_last() =~= w.messages);
                self.record_counted(message, protected, tokens);
                Ok(())
            },
            Err(e) => Err(e),
        }
    }
}

impl<C: TokenCounter, S: TrimStrategy<C>> Memory for WindowMemory<C, S> {
    open spec fn wf(&self) -> bool {
        &&& self.inv()
        &&& self.window().counted_by(self.counter_used())
    }

    open spec fn stored(&self) -> Seq<MessageView> {
        self.window().messages
    }

    open spec fn made(&self) -> Set<MessageView> {
        self.window().made(self.counter_used(), self.strategy_used())
    }

    fn record(&mut self, message: Message) -> (r: Result<(), MemoryError>)
        ensures
            final(self).counter_used() == old(self).counter_used(),
            final(self).strategy_used() == old(self).strategy_used(),
            match r {
                Ok(_) => old(self).window().counted(old(self).counter_used()) matches Ok(w)
                    && message_tokens(old(self).counter_used(), message@) matches Ok(n)
                    && final(self).window() == w.recorded(message@, false, n),
                Err(e) => match old(self).window().counted(old(self).counter_used()) {
                    Err(fault) => fault == e@ && final(self).window() == old(self).window(),
                    Ok(w) => message_tokens(old(self).counter_used(), message@) == Err::<
                        usize,
                        MemoryErrorView,
                    >(e@) && final(self).window() == w,
                },
            },
    {
        self.record_impl(message, false)
    }

    fn record_protected(&mut self, message: Message) -> (r: Result<(), MemoryError>)
        ensures
            final(self).counter_used() == old(self).counter_used(),
            final(self).strategy_used() == old(self).strategy_used(),
            match r {
                Ok(_) => old(self).window().counted(old(self).counter_used()) matches Ok(w)
                    && message_tokens(old(self).counter_used(), message@) matches Ok(n)
                    && final(self).window() == w.recorded(message@, true, n),
                Err(e) => match old(self).window().counted(old(self).counter_used()) {
                    Err(fault) => fault == e@ && final(self).window() == old(self).window(),
                    Ok(w) => message_tokens(old(self).counter_used(), message@) == Err::<
                        usize,
                        MemoryErrorView,
                    >(e@) && final(self).window() == w,
                },
            },
    {
        self.record_impl(message, true)
    }

    fn context(&mut self) -> (r: Result<Vec<Message>, MemoryError>)
        ensures
            final(self).counter_used() == old(self).counter_used(),
            final(self).strategy_used() == old(self).strategy_used(),
            final(self).window() == old(self).window().retrieved(
                old(self).counter_used(),
                old(self).strategy_used(),
            ).1,
            match r {
                Ok(messages) => old(self).window().retrieved(
                    old(self).counter_used(),
                    old(self).strategy_used(),
                ).0 == Ok::<Seq<MessageView>, MemoryErrorView>(message_views(messages@)),
                Err(e) => old(self).window().retrieved(
                    old(self).counter_used(),
                    old(self).strategy_used(),
                ).0 == Err::<Seq<MessageView>, MemoryErrorView>(e@),
            },
    {
        proof {
            law_context_is_in_order(self.window(), self.counter, self.strategy);
        }
        match self.ensure_counts() {
            Ok(_) => {},
            Err(e) => {
                return Err(e);
            },
        }
        match self.plan_context() {
            ContextPlan::Whole { messages } => Ok(messages),
            ContextPlan::Trim { candidates, counts } => {
                proof {
                    lemma_candidate_counts(self.window(), self.counter);
                }
                match self.strategy.trim_with_counts(
                    &candidates,
                    &counts,
                    &self.budget,
                    &self.counter,
                ) {
                    Ok(result) => Ok(self.finish_context(result)),
                    Err(e) => Err(e),
                }
            },
        }
    }
}

/// A protected message is in every context that is returned, whatever the
/// counter and the strategy, and it stays stored and exempt.
pub proof fn law_protected_messages_survive<C: TokenCounter, S: TrimStrategy<C>>(
    w: WindowView,
    counter: C,
    strategy: S,
    i: int,
)
    requires
        w.wf(),
        0 <= i < w.messages.len(),
        w.protected[i],
    ensures
        w.retrieved(counter, strategy).0 matches Ok(messages) ==> messages.contains(w.messages[i]),
        exists|j: int|
            0 <= j < w.retrieved(counter, strategy).1.messages.len() && #[trigger] w.retrieved(
                counter,
                strategy,
            ).1.messages[j] == w.messages[i] && w.retrieved(counter, strategy).1.protected[j],
{
    let after = w.retrieved(counter, strategy).1;
    if w.counted(counter) is Ok {
        let c = w.counted(counter)->Ok_0;
        assert(same_round(w.messages, i, i));
        assert(is_exempt(w.messages, w.protected, i));
        if c.over_budget() {
            match strategy.trimmed(c.candidates(), c.budget, counter) {
                Ok(result) => {
                    lemma_exempt_joined(c, result.messages, i);
                    let entries = c.joined(result.messages);
                    let j = choose|j: int|
                        0 <= j < entries.len() && (#[trigger] entries[j]).message
                            == w.messages[i] && entries[j].protected;
                    assert(entry_messages(entries)[j] == w.messages[i]);
                    if result.replace {
                        assert(after.messages[j] == w.messages[i] && after.protected[j]);
                    } else {
                        assert(after.messages[i] == w.messages[i] && after.protected[i]);
                    }
                },
                Err(_) => {
                    assert(after.messages[i] == w.messages[i] && after.protected[i]);
                },
            }
        } else {
            assert(after.messages[i] == w.messages[i] && after.protected[i]);
        }
    } else {
        assert(after.messages[i] == w.messages[i] && after.protected[i]);
    }
}

/// An exempt message is in every context, protected.
proof fn lemma_exempt_joined(w: WindowView, answer: Seq<MessageView>, i: int)
    requires
        0 <= i < w.messages.len(),
        w.exempt()[i],
    ensures
        exists|j: int|
            0 <= j < w.joined(answer).len() && (#[trigger] w.joined(answer)[j]).message
                == w.messages[i] && w.joined(answer)[j].protected,
{
    let a = exempt_entries(w.messages, w.exempt());
    let b = answer_entries(w.messages, w.exempt(), answer);
    lemma_place_of(w.exempt(), true, i);
    let places = places_where(w.exempt(), true);
    let k = choose|k: int| 0 <= k < places.len() && #[trigger] places[k] == i;
    lemma_merge_members(a, b);
    assert(a.contains(a[k]));
    assert(w.joined(answer).contains(a[k]));
    let j = choose|j: int| 0 <= j < w.joined(answer).len() && w.joined(answer)[j] == a[k];
    assert(w.joined(answer)[j].message == w.messages[i]);
}

/// Every message of a strategy's answer is in the context.
proof fn lemma_answer_joined(w: WindowView, answer: Seq<MessageView>, i: int)
    requires
        0 <= i < answer.len(),
    ensures
        entry_messages(w.joined(answer)).contains(answer[i]),
{
    let a = exempt_entries(w.messages, w.exempt());
    let b = answer_entries(w.messages, w.exempt(), answer);
    lemma_merge_members(a, b);
    assert(b.contains(b[i]));
    assert(w.joined(answer).contains(b[i]));
    let j = choose|j: int| 0 <= j < w.joined(answer).len() && w.joined(answer)[j] == b[i];
    assert(entry_messages(w.joined(answer))[j] == answer[i]);
}

/// A context comes in order of occurrence, whatever the counter and the
/// strategy: its messages are stored ones, in the order in which they are
/// stored, and messages that the strategy made.
pub proof fn law_context_is_in_order<C: TokenCounter, S: TrimStrategy<C>>(
    w: WindowView,
    counter: C,
    strategy: S,
)
    requires
        w.wf(),
    ensures
        w.retrieved(counter, strategy).0 matches Ok(messages) ==> in_order(
            messages,
            w.messages,
            w.made(counter, strategy),
        ),
{
    if w.counted(counter) is Ok {
        let c = w.counted(counter)->Ok_0;
        if c.over_budget() {
            match strategy.trimmed(c.candidates(), c.budget, counter) {
                Ok(result) => {
                    law_merged_is_in_order(c.messages, c.exempt(), result.messages);
                },
                Err(_) => {},
            }
        } else {
            lemma_whole_in_order(w.messages, Set::empty());
        }
    }
}

/// A strategy that only keeps messages, in their order, makes none: then the
/// context is a part of the stored conversation, in the same order.
pub proof fn law_keeping_strategies_make_nothing<C: TokenCounter, S: TrimStrategy<C>>(
    w: WindowView,
    counter: C,
    strategy: S,
)
    requires
        w.wf(),
        forall|m: Seq<MessageView>, b: Budget|
            (#[trigger] strategy.trimmed(m, b, counter)) matches Ok(t) ==> in_order(
                t.messages,
                m,
                Set::empty(),
            ),
    ensures
        w.made(counter, strategy) == Set::<MessageView>::empty(),
        w.retrieved(counter, strategy).0 matches Ok(messages) ==> in_order(
            messages,
            w.messages,
            Set::empty(),
        ),
{
    law_context_is_in_order(w, counter, strategy);
    if w.counted(counter) is Ok {
        let c = w.counted(counter)->Ok_0;
        if c.over_budget() {
            match strategy.trimmed(c.candidates(), c.budget, counter) {
                Ok(result) => {
                    law_kept_messages_are_not_made(c.candidates(), result.messages);
                },
                Err(_) => {},
            }
        }
    }
}

/// Dropping rounds leaves the rest as it is stored: the context is a part of
/// the conversation, in the same order.
pub proof fn law_dropping_keeps_the_order<C: TokenCounter>(w: WindowView, counter: C)
    requires
        w.wf(),
        w.counted_by(counter),
        w.messages.len() <= usize::MAX,
    ensures
        w.retrieved(counter, WindowDrop).0 matches Ok(messages) ==> in_order(
            messages,
            w.messages,
            Set::empty(),
        ),
{
    law_context_is_in_order(w, counter, WindowDrop);
    if w.counted(counter) is Ok {
        let c = w.counted(counter)->Ok_0;
        let m = c.candidates();
        let counts = c.candidate_counts();
        lemma_candidate_counts(c, counter);
        lemma_places_where(c.exempt(), false);
        if m.len() > 0 {
            law_window_is_the_longest_that_fits(m, counts, c.budget, 0);
        }
        let start = window_start(m, counts, c.budget, 0);
        lemma_tail_in_order(m, start);
        law_kept_messages_are_not_made(m, m.skip(start));
    }
}

/// A conversation within its budget is returned whole, and reading it changes
/// nothing but that its tokens are counted.
pub proof fn law_within_budget_returns_all<C: TokenCounter, S: TrimStrategy<C>>(
    w: WindowView,
    counter: C,
    strategy: S,
)
    requires
        w.counted(counter) matches Ok(c) && !c.over_budget(),
    ensures
        w.retrieved(counter, strategy).0 == Ok::<Seq<MessageView>, MemoryErrorView>(w.messages),
        w.retrieved(counter, strategy).1.messages == w.messages,
{
}

/// A strategy that does not replace what is stored loses nothing: the messages
/// stay as they were, and with a budget that they fit all of them come back.
pub proof fn law_projection_is_lossless<C: TokenCounter, S: TrimStrategy<C>>(
    w: WindowView,
    counter: C,
    strategy: S,
    larger: Budget,
)
    requires
        w.counted(counter) is Ok,
        forall|m: Seq<MessageView>, b: Budget|
            (#[trigger] strategy.trimmed(m, b, counter)) matches Ok(t) ==> !t.replace,
        !(WindowView { budget: larger, ..w.counted(counter)->Ok_0 }).over_budget(),
    ensures
        w.retrieved(counter, strategy).1.messages == w.messages,
        (WindowView { budget: larger, ..w.retrieved(counter, strategy).1 }).retrieved(
            counter,
            strategy,
        ).0 == Ok::<Seq<MessageView>, MemoryErrorView>(w.messages),
{
}

/// A strategy that replaces what is stored leaves exactly the returned
/// messages in storage.
pub proof fn law_materialized_context_is_stored<C: TokenCounter, S: TrimStrategy<C>>(
    w: WindowView,
    counter: C,
    strategy: S,
)
    requires
        w.counted(counter) matches Ok(c) && c.over_budget() && (strategy.trimmed(
            c.candidates(),
            c.budget,
            counter,
        ) matches Ok(t) && t.replace),
    ensures
        w.retrieved(counter, strategy).0 == Ok::<Seq<MessageView>, MemoryErrorView>(
            w.retrieved(counter, strategy).1.messages,
        ),
        w.retrieved(counter, strategy).1.wf(),
{
}

/// A round is exempt as a whole or not at all: a message that does not open a
/// round shares the fate of the one before it.
pub proof fn law_rounds_are_exempt_as_a_whole(
    messages: Seq<MessageView>,
    protected: Seq<bool>,
    i: int,
)
    requires
        0 < i < messages.len(),
        !opens_round(messages, i),
    ensures
        is_exempt(messages, protected, i) == is_exempt(messages, protected, i - 1),
{
    if is_exempt(messages, protected, i) {
        let j = choose|j: int|
            0 <= j < messages.len() && #[trigger] protected[j] && same_round(messages, i, j);
        assert(same_round(messages, i - 1, j));
    }
    if is_exempt(messages, protected, i - 1) {
        let j = choose|j: int|
            0 <= j < messages.len() && #[trigger] protected[j] && same_round(messages, i - 1, j);
        assert(same_round(messages, i, j));
    }
}

/// The newest message is in every context that round dropping returns.
pub proof fn law_newest_message_is_kept<C: TokenCounter>(w: WindowView, counter: C)
    requires
        w.wf(),
        w.counted_by(counter),
        0 < w.messages.len() <= usize::MAX,
        w.counted(counter) is Ok,
    ensures
        w.retrieved(counter, WindowDrop).0 matches Ok(messages) && messages.contains(
            w.messages.last(),
        ),
{
    let n = w.messages.len();
    let c = w.counted(counter)->Ok_0;
    lemma_candidate_counts(c, counter);
    if c.over_budget() {
        let flags = c.exempt();
        let m = c.candidates();
        let counts = c.candidate_counts();
        let answer = dropped(m, counts, c.budget).messages;
        lemma_places_where(flags, false);
        if flags[n - 1] {
            lemma_exempt_joined(c, answer, n - 1);
            let entries = c.joined(answer);
            let j = choose|j: int|
                0 <= j < entries.len() && (#[trigger] entries[j]).message == w.messages[n - 1]
                    && entries[j].protected;
            assert(entry_messages(entries)[j] == w.messages.last());
        } else {
            let free = places_where(flags, false);
            assert(free.last() == n - 1);
            assert(m.last() == w.messages.last());
            law_window_is_the_longest_that_fits(m, counts, c.budget, 0);
            assert(answer[answer.len() - 1] == w.messages.last());
            lemma_answer_joined(c, answer, answer.len() - 1);
        }
    } else {
        assert(w.messages[n - 1] == w.messages.last());
    }
}

/// Messages are counted one by one.
pub proof fn lemma_counts_each<C: TokenCounter>(counter: C, messages: Seq<MessageView>)
    ensures
        messages_tokens(counter, messages) matches Ok(counts) ==> {
            &&& counts.len() == messages.len()
            &&& forall|i: int|
                0 <= i < messages.len() ==> message_tokens(counter, #[trigger] messages[i]) == Ok::<
                    usize,
                    MemoryErrorView,
                >(counts[i])
        },
    decreases messages.len(),
{
    if messages.len() > 0 {
        lemma_counts_each(counter, messages.drop_last());
        if messages_tokens(counter, messages) is Ok {
            let counts = messages_tokens(counter, messages)->Ok_0;
            let earlier = messages.drop_last();
            assert forall|i: int| 0 <= i < messages.len() implies message_tokens(
                counter,
                #[trigger] messages[i],
            ) == Ok::<usize, MemoryErrorView>(counts[i]) by {
                if i < messages.len() - 1 {
                    assert(earlier[i] == messages[i]);
                }
            }
        }
    }
}

proof fn lemma_each_counted<C: TokenCounter>(
    counter: C,
    messages: Seq<MessageView>,
    counts: Seq<usize>,
)
    requires
        counts.len() == messages.len(),
        forall|i: int|
            0 <= i < messages.len() ==> message_tokens(counter, #[trigger] messages[i]) == Ok::<
                usize,
                MemoryErrorView,
            >(counts[i]),
    ensures
        messages_tokens(counter, messages) == Ok::<Seq<usize>, MemoryErrorView>(counts),
    decreases messages.len(),
{
    if messages.len() > 0 {
        let earlier = messages.drop_last();
        assert forall|i: int| 0 <= i < earlier.len() implies message_tokens(
            counter,
            #[trigger] earlier[i],
        ) == Ok::<usize, MemoryErrorView>(counts.drop_last()[i]) by {
            assert(earlier[i] == messages[i]);
        }
        lemma_each_counted(counter, earlier, counts.drop_last());
        assert(message_tokens(counter, messages[messages.len() - 1]) == Ok::<
            usize,
            MemoryErrorView,
        >(counts.last()));
        assert(counts.drop_last().push(counts.last()) =~= counts);
    } else {
        assert(counts =~= Seq::empty());
    }
}

/// The counts of the candidates are those that the counter gives.
pub proof fn lemma_candidate_counts<C: TokenCounter>(w: WindowView, counter: C)
    requires
        w.counts is Some,
        w.counted_by(counter),
    ensures
        w.counts->0.len() == w.messages.len(),
        messages_tokens(counter, w.candidates()) == Ok::<Seq<usize>, MemoryErrorView>(
            w.candidate_counts(),
        ),
{
    lemma_counts_each(counter, w.messages);
    lemma_places_where(w.exempt(), false);
    let free = places_where(w.exempt(), false);
    assert forall|i: int| 0 <= i < w.candidates().len() implies message_tokens(
        counter,
        #[trigger] w.candidates()[i],
    ) == Ok::<usize, MemoryErrorView>(w.candidate_counts()[i]) by {
        assert(w.candidates()[i] == w.messages[free[i]]);
    }
    lemma_each_counted(counter, w.candidates(), w.candidate_counts());
}

} // verus!
