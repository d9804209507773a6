//! What a summarizer is told, and what becomes of its summary.

use vstd::prelude::*;

use super::summarize::{
    after_reply, block_text, call_text, conversation_text, message_line, messages_to_text,
    SummarizeStrategy, SummaryPlan,
};
use super::window::{law_window_is_the_longest_that_fits, Budget, TrimResult};
use super::MemoryError;
use crate::message::{message_views, BlockView, Message, MessageView, ToolCallView};
use crate::provider::{ChatRequest, ChatResponse, ProviderError};
use crate::text::{join, starts_with};
use crate::text_laws::{
    is_blank, is_trimmed, law_join_separates, law_trim_takes_white_space_only, lemma_order_concat,
    lemma_order_within, lemma_whole_stands, stand_in_order,
};

verus! {

/// What a user's blocks say: their texts, and the types of their images.
pub open spec fn block_pieces(blocks: Seq<BlockView>) -> Seq<Seq<char>> {
    blocks.map_values(
        |b: BlockView|
            match b {
                BlockView::Text(text) => text,
                BlockView::Image(image) => image.mime_type,
            },
    )
}

/// What tool requests say: their names and arguments.
pub open spec fn call_pieces(calls: Seq<ToolCallView>) -> Seq<Seq<char>>
    decreases calls.len(),
{
    if calls.len() == 0 {
        Seq::empty()
    } else {
        call_pieces(calls.drop_last()) + seq![calls.last().name, calls.last().arguments]
    }
}

/// What a message says, reasoning aside.
pub open spec fn message_pieces(message: MessageView) -> Seq<Seq<char>> {
    match message {
        MessageView::System(text) => seq![text],
        MessageView::User(blocks) => block_pieces(blocks),
        MessageView::Assistant { content, reasoning, tool_calls } => seq![content] + call_pieces(
            tool_calls,
        ),
        MessageView::ToolResult { id, content } => seq![content],
    }
}

/// What a conversation says, message by message.
pub open spec fn conversation_pieces(messages: Seq<MessageView>) -> Seq<Seq<char>>
    decreases messages.len(),
{
    if messages.len() == 0 {
        Seq::empty()
    } else {
        conversation_pieces(messages.drop_last()) + message_pieces(messages.last())
    }
}

proof fn lemma_behind(pieces: Seq<Seq<char>>, head: Seq<char>, text: Seq<char>)
    requires
        stand_in_order(pieces, text),
    ensures
        stand_in_order(pieces, head + text),
{
    lemma_order_within(pieces, head, text, Seq::empty());
    assert(head + text + Seq::<char>::empty() =~= head + text);
}

proof fn lemma_blocks(blocks: Seq<BlockView>)
    ensures
        stand_in_order(
            block_pieces(blocks),
            join(blocks.map_values(|b: BlockView| block_text(b)), " "@),
        ),
    decreases blocks.len(),
{
    let texts = blocks.map_values(|b: BlockView| block_text(b));
    let pieces = block_pieces(blocks);
    if blocks.len() > 0 {
        let rest = blocks.drop_last();
        let last = blocks.last();
        lemma_blocks(rest);
        assert(texts.drop_last() =~= rest.map_values(|b: BlockView| block_text(b)));
        assert(pieces.drop_last() =~= block_pieces(rest));
        assert(texts.last() == block_text(last));
        let piece = pieces.last();
        lemma_whole_stands(piece);
        match last {
            BlockView::Text(text) => {},
            BlockView::Image(image) => {
                lemma_order_within(seq![piece], "[image: "@, piece, "]"@);
            },
        }
        assert(stand_in_order(seq![piece], block_text(last)));
        assert(pieces =~= pieces.drop_last() + seq![piece]);
        if blocks.len() == 1 {
            assert(pieces =~= seq![piece]);
            assert(texts[0] == block_text(last));
        } else {
            lemma_behind(seq![piece], " "@, block_text(last));
            let head = join(texts.drop_last(), " "@);
            lemma_order_concat(pieces.drop_last(), head, seq![piece], " "@ + block_text(last));
            assert(head + (" "@ + block_text(last)) =~= join(texts, " "@));
        }
    }
}

proof fn lemma_calls(calls: Seq<ToolCallView>)
    ensures
        stand_in_order(
            call_pieces(calls),
            join(calls.map_values(|c: ToolCallView| call_text(c)), "; "@),
        ),
    decreases calls.len(),
{
    let texts = calls.map_values(|c: ToolCallView| call_text(c));
    if calls.len() > 0 {
        let rest = calls.drop_last();
        let last = calls.last();
        lemma_calls(rest);
        assert(texts.drop_last() =~= rest.map_values(|c: ToolCallView| call_text(c)));
        assert(texts.last() == call_text(last));
        let two = seq![last.name, last.arguments];
        lemma_whole_stands(last.name);
        lemma_whole_stands(last.arguments);
        lemma_behind(seq![last.arguments], " "@, last.arguments);
        lemma_order_concat(
            seq![last.name],
            last.name,
            seq![last.arguments],
            " "@ + last.arguments,
        );
        assert(seq![last.name] + seq![last.arguments] =~= two);
        assert(last.name + (" "@ + last.arguments) =~= call_text(last));
        if calls.len() == 1 {
            assert(call_pieces(rest) + two =~= two);
            assert(texts[0] == call_text(last));
        } else {
            lemma_behind(two, "; "@, call_text(last));
            let head = join(texts.drop_last(), "; "@);
            lemma_order_concat(call_pieces(rest), head, two, "; "@ + call_text(last));
            assert(head + ("; "@ + call_text(last)) =~= join(texts, "; "@));
        }
    }
}

proof fn lemma_line(message: MessageView)
    ensures
        stand_in_order(message_pieces(message), message_line(message)),
{
    match message {
        MessageView::System(text) => {
            lemma_whole_stands(text);
            lemma_behind(seq![text], "system: "@, text);
        },
        MessageView::User(blocks) => {
            lemma_blocks(blocks);
            lemma_behind(
                block_pieces(blocks),
                "user: "@,
                join(blocks.map_values(|b: BlockView| block_text(b)), " "@),
            );
        },
        MessageView::Assistant { content, reasoning, tool_calls } => {
            lemma_whole_stands(content);
            lemma_behind(seq![content], "assistant: "@, content);
            if tool_calls.len() == 0 {
                assert(seq![content] + call_pieces(tool_calls) =~= seq![content]);
            } else {
                lemma_calls(tool_calls);
                let calls = join(tool_calls.map_values(|c: ToolCallView| call_text(c)), "; "@);
                lemma_behind(call_pieces(tool_calls), "\ntool_calls: "@, calls);
                lemma_order_concat(
                    seq![content],
                    "assistant: "@ + content,
                    call_pieces(tool_calls),
                    "\ntool_calls: "@ + calls,
                );
                assert("assistant: "@ + content + ("\ntool_calls: "@ + calls) =~= message_line(
                    message,
                ));
            }
        },
        MessageView::ToolResult { id, content } => {
            lemma_whole_stands(content);
            lemma_behind(seq![content], "tool_result: "@, content);
        },
    }
}

/// The summarizer is told everything that a conversation says: every system
/// text, every block of a user, every answer, the name and the arguments of
/// every tool request and every tool's result stand in the text, each in one
/// piece and in the order of the conversation.
pub proof fn law_the_summarizer_is_told_everything(messages: Seq<MessageView>)
    ensures
        stand_in_order(conversation_pieces(messages), conversation_text(messages)),
    decreases messages.len(),
{
    let lines = messages.map_values(|m: MessageView| message_line(m));
    if messages.len() > 0 {
        let rest = messages.drop_last();
        let last = messages.last();
        law_the_summarizer_is_told_everything(rest);
        lemma_line(last);
        assert(lines.drop_last() =~= rest.map_values(|m: MessageView| message_line(m)));
        assert(lines.last() == message_line(last));
        if messages.len() == 1 {
            assert(conversation_pieces(messages) =~= message_pieces(last));
            assert(lines[0] == message_line(last));
        } else {
            let head = conversation_text(rest);
            lemma_behind(message_pieces(last), "\n"@, message_line(last));
            lemma_order_concat(
                conversation_pieces(rest),
                head,
                message_pieces(last),
                "\n"@ + message_line(last),
            );
            assert(head + ("\n"@ + message_line(last)) =~= conversation_text(messages));
        }
    }
}

/// Each message begins on a line of its own, which names who speaks; and what
/// is said of one message does not depend on the others.
pub proof fn law_each_message_has_its_line(messages: Seq<MessageView>, last: MessageView)
    ensures
        messages.len() > 0 ==> conversation_text(messages.push(last)) == conversation_text(messages)
            + "\n"@ + conversation_text(seq![last]),
        conversation_text(Seq::empty()) == Seq::<char>::empty(),
        starts_with(
            conversation_text(seq![last]),
            match last {
                MessageView::System(_) => "system: "@,
                MessageView::User(_) => "user: "@,
                MessageView::Assistant { .. } => "assistant: "@,
                MessageView::ToolResult { .. } => "tool_result: "@,
            },
        ),
{
    let lines = messages.map_values(|m: MessageView| message_line(m));
    let line = message_line(last);
    assert(messages.push(last).map_values(|m: MessageView| message_line(m)) =~= lines.push(line));
    assert(seq![last].map_values(|m: MessageView| message_line(m)) =~= seq![line]);
    assert(Seq::<MessageView>::empty().map_values(|m: MessageView| message_line(m))
        =~= Seq::<Seq<char>>::empty());
    law_join_separates(lines, line, "\n"@);
    let head = match last {
        MessageView::System(_) => "system: "@,
        MessageView::User(_) => "user: "@,
        MessageView::Assistant { .. } => "assistant: "@,
        MessageView::ToolResult { .. } => "tool_result: "@,
    };
    assert(line.take(head.len() as int) =~= head);
}

/// Reasoning is not told to the summarizer.
pub proof fn law_reasoning_is_not_told(
    content: Seq<char>,
    tool_calls: Seq<ToolCallView>,
    one: Option<Seq<char>>,
    other: Option<Seq<char>>,
)
    ensures
        conversation_text(
            seq![MessageView::Assistant { content, reasoning: one, tool_calls }],
        ) == conversation_text(
            seq![MessageView::Assistant { content, reasoning: other, tool_calls }],
        ),
{
    let a = MessageView::Assistant { content, reasoning: one, tool_calls };
    let b = MessageView::Assistant { content, reasoning: other, tool_calls };
    assert(seq![a].map_values(|m: MessageView| message_line(m)) =~= seq![b].map_values(
        |m: MessageView| message_line(m),
    ));
}

/// A summary is asked for with the strategy's instructions, a text that tells
/// the whole history, and the limit on its length; no tools are offered.
pub proof fn law_summary_is_asked_for(strategy: SummarizeStrategy, history: Seq<MessageView>)
    ensures
        ({
            let request = strategy.request_for(history);
            &&& request.messages.len() == 2
            &&& request.messages[0] == MessageView::System(strategy.instructions())
            &&& request.messages[1] matches MessageView::User(blocks) && blocks.len() == 1 && (
            blocks[0] matches BlockView::Text(text) && stand_in_order(
                conversation_pieces(history),
                text,
            ))
            &&& request.tools.len() == 0
            &&& request.options.max_tokens == Some(strategy.reserve())
            &&& request.options.structured is None
        }),
{
    law_the_summarizer_is_told_everything(history);
}

/// A summary takes the place of the old messages: white space around it is
/// dropped, the rest stands behind the heading, and the messages from `cut` on
/// follow as they are. A reply that is blank, no answer or an error replaces
/// nothing.
pub proof fn law_summary_takes_the_place_of_the_old(
    messages: Seq<MessageView>,
    counts: Seq<usize>,
    budget: Budget,
    cut: int,
    reply: Result<ChatResponse, ProviderError>,
    left: Seq<char>,
    summary: Seq<char>,
    right: Seq<char>,
)
    requires
        0 <= cut <= messages.len(),
        is_blank(left),
        is_blank(right),
        is_trimmed(summary),
    ensures
        ({
            let result = after_reply(messages, counts, budget, cut, reply);
            let text = match reply {
                Ok(response) => match response.message@ {
                    MessageView::Assistant { content, reasoning, tool_calls } => Some(content),
                    _ => None,
                },
                Err(_) => None,
            };
            &&& text is None ==> !result.replace
            &&& text == Some(left + summary + right) && summary.len() == 0 ==> !result.replace
            &&& text == Some(left + summary + right) && summary.len() > 0 ==> {
                &&& result.replace
                &&& result.messages.len() == 1 + messages.len() - cut
                &&& result.messages[0] == MessageView::System(
                    "Summary of prior context:\n"@ + summary,
                )
                &&& forall|i: int|
                    cut <= i < messages.len() ==> result.messages[i - cut + 1]
                        == #[trigger] messages[i]
            }
        }),
{
    law_trim_takes_white_space_only(left, summary, right);
}

/// Writing messages down for the summarizer tells everything that they say.
pub proof fn law_written_conversations_say_all(messages: &[Message], text: String)
    requires
        call_ensures(messages_to_text, (messages,), text),
    ensures
        stand_in_order(conversation_pieces(message_views(messages@)), text@),
{
    law_the_summarizer_is_told_everything(message_views(messages@));
}

/// When a summary is asked for, the model is told everything that the messages
/// before the cut say; the messages from the cut on are kept, from a user's
/// message on.
#[verifier::rlimit(40)]
pub proof fn law_plans_tell_what_is_replaced(
    strategy: &SummarizeStrategy,
    messages: &[Message],
    counts: &[usize],
    budget: &Budget,
    request: ChatRequest,
    cut: usize,
)
    requires
        messages@.len() == counts@.len() <= usize::MAX,
        call_ensures(
            SummarizeStrategy::plan,
            (strategy, messages, counts, budget),
            SummaryPlan::Ask { request, cut },
        ),
    ensures
        0 < cut < messages@.len(),
        messages@[cut as int]@ is User,
        request@.messages.len() == 2,
        request@.messages[0] == MessageView::System(strategy.instructions()),
        request@.messages[1] matches MessageView::User(blocks) && blocks.len() == 1 && (
        blocks[0] matches BlockView::Text(text) && stand_in_order(
            conversation_pieces(message_views(messages@).take(cut as int)),
            text,
        )),
        request@.options.max_tokens == Some(strategy.reserve()),
{
    let all = message_views(messages@);
    law_summary_is_asked_for(*strategy, all.take(cut as int));
    law_window_is_the_longest_that_fits(all, counts@, *budget, strategy.reserve() as usize);
    assert(all[cut as int] == messages@[cut as int]@);
}

/// Once the model has replied with a text, the result holds the text without
/// the white space around it, and behind it the messages from the cut on.
#[verifier::rlimit(40)]
pub proof fn law_finished_summaries_keep_the_rest(
    strategy: &SummarizeStrategy,
    messages: &[Message],
    counts: &[usize],
    budget: &Budget,
    cut: usize,
    response: ChatResponse,
    result: TrimResult,
    left: Seq<char>,
    summary: Seq<char>,
    right: Seq<char>,
)
    requires
        messages@.len() == counts@.len(),
        cut <= messages@.len(),
        is_blank(left) && is_blank(right) && is_trimmed(summary) && summary.len() > 0,
        response.message matches Message::Assistant { content, reasoning, tool_calls } && content@
            == left + summary + right,
        call_ensures(
            SummarizeStrategy::finish,
            (strategy, messages, counts, budget, cut, Ok::<ChatResponse, ProviderError>(response)),
            result,
        ),
    ensures
        result.replace,
        result.messages@.len() == 1 + messages@.len() - cut,
        result.messages@[0]@ == MessageView::System("Summary of prior context:\n"@ + summary),
        forall|i: int|
            cut <= i < messages@.len() ==> (#[trigger] result.messages@[i - cut + 1])@
                == messages@[i]@,
{
    let all = message_views(messages@);
    law_summary_takes_the_place_of_the_old(
        all,
        counts@,
        *budget,
        cut as int,
        Ok(response),
        left,
        summary,
        right,
    );
    let kept = message_views(result.messages@);
    assert(kept == result@.messages);
    assert(kept[0] == result.messages@[0]@);
    assert forall|i: int| cut <= i < messages@.len() implies (
    #[trigger] result.messages@[i - cut + 1])@ == messages@[i]@ by {
        assert(all[i] == messages@[i]@);
        assert(kept[i - cut + 1] == result.messages@[i - cut + 1]@);
    }
}

/// A summary may take 1024 tokens unless another limit is set; the instructions
/// and the limit are set apart from each other. A summary that cannot be counted
/// is not used.
pub proof fn law_summary_settings(
    fresh: SummarizeStrategy,
    prompt: &str,
    limit: u32,
    told: SummarizeStrategy,
    limited: SummarizeStrategy,
    result: TrimResult,
    counted: Result<usize, MemoryError>,
    accepted: Result<TrimResult, MemoryError>,
)
    requires
        call_ensures(SummarizeStrategy::new, (), fresh),
        call_ensures(SummarizeStrategy::with_prompt, (fresh, prompt), told),
        call_ensures(SummarizeStrategy::with_summary_max_tokens, (told, limit), limited),
        call_ensures(SummarizeStrategy::accept, (result, counted), accepted),
    ensures
        fresh.reserve() == 1024,
        told.instructions() == prompt@ && told.reserve() == 1024,
        limited.instructions() == prompt@ && limited.reserve() == limit,
        counted is Ok || !result.replace ==> accepted == Ok::<TrimResult, MemoryError>(result),
        counted is Err && result.replace ==> accepted is Err,
{
}

} // verus!
