//! Summaries: old rounds are replaced by one message that a model writes.

use vstd::prelude::*;

use super::window::{
    dropped, keep_rounds, law_window_is_the_longest_that_fits, messages_from, split_rounds,
    window_from_counts, window_start, Budget, TrimResult, TrimView,
};
use super::MemoryError;
use crate::message::{
    block_views, call_views, message_views, BlockView, ContentBlock, Message, MessageView,
    ToolCall, ToolCallView,
};
use crate::json::JsonMap;
use crate::provider::{
    ChatRequest, ChatRequestView, ChatResponse, ModelOptions, ModelOptionsView, ProviderError,
};
use crate::text::{
    chars_of, concat, concat3, join, join_of, string_of, trim, trim_of, views,
};
use crate::tool::{schema_views, ToolSchema};

verus! {

/// What a summary message begins with.
pub open spec fn summary_prefix() -> Seq<char> {
    "Summary of prior context:\n"@
}

/// The instructions that a summary is asked for with, until others are set.
pub open spec fn default_prompt() -> Seq<char> {
    "You are a conversation-history compressor. Compress the provided conversation history into a concise summary so the model can recover context in subsequent conversation.\n\nRequirements:\n- Preserve the task goal, current state, decisions made, open items, and next steps;\n- Keep proper nouns such as code identifiers, file paths, URLs, and numbers verbatim;\n- The history may contain a \"Summary of prior context\" (system message): first understand the prior summary, then merge it with the new history and output a single integrated summary; do not re-summarize the prior summary itself;\n- Output only the summary body, with no explanations or surrounding text."@
}

/// A block as the summarizer reads it; of an image, that it was there.
pub open spec fn block_text(block: BlockView) -> Seq<char> {
    match block {
        BlockView::Text(text) => text,
        BlockView::Image(image) => "[image: "@ + image.mime_type + "]"@,
    }
}

/// A tool request as the summarizer reads it.
pub open spec fn call_text(call: ToolCallView) -> Seq<char> {
    call.name + " "@ + call.arguments
}

/// A message as the summarizer reads it, without reasoning.
pub open spec fn message_line(message: MessageView) -> Seq<char> {
    match message {
        MessageView::System(text) => "system: "@ + text,
        MessageView::User(blocks) => "user: "@ + join(
            blocks.map_values(|b: BlockView| block_text(b)),
            " "@,
        ),
        MessageView::Assistant { content, reasoning, tool_calls } => if tool_calls.len() == 0 {
            "assistant: "@ + content
        } else {
            "assistant: "@ + content + "\ntool_calls: "@ + join(
                tool_calls.map_values(|c: ToolCallView| call_text(c)),
                "; "@,
            )
        },
        MessageView::ToolResult { id, content } => "tool_result: "@ + content,
    }
}

/// A conversation as the summarizer reads it: one line per message.
pub open spec fn conversation_text(messages: Seq<MessageView>) -> Seq<char> {
    join(messages.map_values(|m: MessageView| message_line(m)), "\n"@)
}

fn blocks_line(blocks: &Vec<ContentBlock>) -> (r: String)
    ensures
        r@ == message_line(MessageView::User(block_views(blocks@))),
{
    let ghost all = block_views(blocks@).map_values(|b: BlockView| block_text(b));
    let mut parts: Vec<String> = Vec::new();
    let mut i: usize = 0;
    while i < blocks.len()
        invariant
            i <= blocks@.len(),
            all == block_views(blocks@).map_values(|b: BlockView| block_text(b)),
            views(parts@) =~= all.take(i as int),
        decreases blocks@.len() - i,
    {
        let ghost before = parts@;
        assert(block_views(blocks@)[i as int] == blocks@[i as int]@);
        let part = match &blocks[i] {
            ContentBlock::Text(text) => text.clone(),
            ContentBlock::Image(image) => concat3("[image: ", image.mime_type.as_str(), "]"),
        };
        parts.push(part);
        assert(views(parts@) =~= views(before).push(part@));
        assert(all[i as int] == part@);
        i = i + 1;
    }
    assert(views(parts@) =~= all);
    concat("user: ", join_of(&parts, " ").as_str())
}

fn calls_line(calls: &Vec<ToolCall>) -> (r: String)
    ensures
        r@ == join(call_views(calls@).map_values(|c: ToolCallView| call_text(c)), "; "@),
{
    let ghost all = call_views(calls@).map_values(|c: ToolCallView| call_text(c));
    let mut parts: Vec<String> = Vec::new();
    let mut i: usize = 0;
    while i < calls.len()
        invariant
            i <= calls@.len(),
            all == call_views(calls@).map_values(|c: ToolCallView| call_text(c)),
            views(parts@) =~= all.take(i as int),
        decreases calls@.len() - i,
    {
        let ghost before = parts@;
        assert(call_views(calls@)[i as int] == calls@[i as int]@);
        let part = concat3(calls[i].name.as_str(), " ", calls[i].arguments.as_str());
        parts.push(part);
        assert(views(parts@) =~= views(before).push(part@));
        assert(all[i as int] == part@);
        i = i + 1;
    }
    assert(views(parts@) =~= all);
    join_of(&parts, "; ")
}

fn line_of(message: &Message) -> (r: String)
    ensures
        r@ == message_line(message@),
{
    match message {
        Message::System(text) => concat("system: ", text.as_str()),
        Message::User(blocks) => blocks_line(blocks),
        Message::Assistant { content, reasoning: _, tool_calls } => {
            assert(call_views(tool_calls@).len() == tool_calls@.len());
            if tool_calls.len() == 0 {
                concat("assistant: ", content.as_str())
            } else {
                let head = concat3("assistant: ", content.as_str(), "\ntool_calls: ");
                concat(head.as_str(), calls_line(tool_calls).as_str())
            }
        },
        Message::ToolResult { id: _, content } => concat("tool_result: ", content.as_str()),
    }
}

/// Writes messages down for the summarizer.
pub fn messages_to_text(messages: &[Message]) -> (r: String)
    ensures
        r@ == conversation_text(message_views(messages@)),
{
    let ghost all = message_views(messages@).map_values(|m: MessageView| message_line(m));
    let mut lines: Vec<String> = Vec::new();
    let mut i: usize = 0;
    while i < messages.len()
        invariant
            i <= messages@.len(),
            all == message_views(messages@).map_values(|m: MessageView| message_line(m)),
            views(lines@) =~= all.take(i as int),
        decreases messages@.len() - i,
    {
        let ghost before = lines@;
        assert(message_views(messages@)[i as int] == messages@[i as int]@);
        let line = line_of(&messages[i]);
        lines.push(line);
        assert(views(lines@) =~= views(before).push(line@));
        assert(all[i as int] == line@);
        i = i + 1;
    }
    assert(views(lines@) =~= all);
    join_of(&lines, "\n")
}

/// Replaces the rounds that do not fit the budget by a summary. The model that
/// writes it is asked by the strategy's user.
#[derive(Debug, PartialEq, Eq)]
pub struct SummarizeStrategy {
    prompt: String,
    summary_max_tokens: u32,
}

/// What a strategy does with a conversation: leave it as it is, or ask for a
/// summary of the messages before `cut`.
#[derive(Debug, PartialEq)]
pub enum SummaryPlan {
    Keep { result: TrimResult },
    Ask { request: ChatRequest, cut: usize },
}

/// The summary in a model's reply: an assistant's text that is not blank.
pub open spec fn summary_in(reply: Result<ChatResponse, ProviderError>) -> Option<Seq<char>> {
    match reply {
        Ok(response) => match response.message@ {
            MessageView::Assistant { content, reasoning, tool_calls } => if trim(content).len()
                == 0 {
                None
            } else {
                Some(trim(content))
            },
            _ => None,
        },
        Err(_) => None,
    }
}

/// The conversation with the messages before `cut` replaced by `summary`.
pub open spec fn summarized(
    messages: Seq<MessageView>,
    cut: int,
    summary: Seq<char>,
) -> Seq<MessageView> {
    seq![MessageView::System(summary_prefix() + summary)] + messages.skip(cut)
}

/// The result of trimming, once the summarizer has replied: with a summary the
/// storage is replaced; without one, rounds are dropped and nothing is lost.
pub open spec fn after_reply(
    messages: Seq<MessageView>,
    counts: Seq<usize>,
    budget: Budget,
    cut: int,
    reply: Result<ChatResponse, ProviderError>,
) -> TrimView {
    match summary_in(reply) {
        Some(summary) => TrimView { messages: summarized(messages, cut, summary), replace: true },
        None => TrimView {
            messages: messages.skip(window_start(messages, counts, budget, 0)),
            replace: false,
        },
    }
}

impl SummarizeStrategy {
    pub closed spec fn instructions(&self) -> Seq<char> {
        self.prompt@
    }

    pub closed spec fn reserve(&self) -> u32 {
        self.summary_max_tokens
    }

    /// The usual instructions, and summaries of at most 1024 tokens.
    pub fn new() -> (r: SummarizeStrategy)
        ensures
            r.instructions() == default_prompt(),
            r.reserve() == 1024,
    {
        SummarizeStrategy {
            prompt: "You are a conversation-history compressor. Compress the provided conversation history into a concise summary so the model can recover context in subsequent conversation.\n\nRequirements:\n- Preserve the task goal, current state, decisions made, open items, and next steps;\n- Keep proper nouns such as code identifiers, file paths, URLs, and numbers verbatim;\n- The history may contain a \"Summary of prior context\" (system message): first understand the prior summary, then merge it with the new history and output a single integrated summary; do not re-summarize the prior summary itself;\n- Output only the summary body, with no explanations or surrounding text.".to_owned(),
            summary_max_tokens: 1024,
        }
    }

    pub fn with_prompt(self, prompt: &str) -> (r: SummarizeStrategy)
        ensures
            r.instructions() == prompt@,
            r.reserve() == self.reserve(),
    {
        SummarizeStrategy { prompt: prompt.to_owned(), summary_max_tokens: self.summary_max_tokens }
    }

    /// Sets how long a summary may be; so many tokens of the budget are kept
    /// free for it.
    pub fn with_summary_max_tokens(self, max_tokens: u32) -> (r: SummarizeStrategy)
        ensures
            r.instructions() == self.instructions(),
            r.reserve() == max_tokens,
    {
        SummarizeStrategy { prompt: self.prompt, summary_max_tokens: max_tokens }
    }

    /// The request for a summary of `history`.
    pub open spec fn request_for(&self, history: Seq<MessageView>) -> ChatRequestView {
        ChatRequestView {
            messages: seq![
                MessageView::System(self.instructions()),
                MessageView::user(conversation_text(history)),
            ],
            tools: Seq::empty(),
            options: ModelOptionsView {
                max_tokens: Some(self.reserve()),
                ..ModelOptionsView::unset()
            },
        }
    }

    /// Decides what is to be summarized: the rounds before the last ones that
    /// fit the budget, less the room for the summary.
    pub fn plan(&self, messages: &[Message], counts: &[usize], budget: &Budget) -> (plan:
        SummaryPlan)
        requires
            messages@.len() == counts@.len(),
        ensures
            ({
                let all = message_views(messages@);
                let start = window_start(all, counts@, *budget, self.reserve() as usize);
                match plan {
                    SummaryPlan::Keep { result } => start == 0 && result@ == (TrimView {
                        messages: all,
                        replace: false,
                    }),
                    SummaryPlan::Ask { request, cut } => start == cut && 0 < cut < messages@.len()
                        && request@ == self.request_for(all.take(cut as int)),
                }
            }),
    {
        let ghost all = message_views(messages@);
        if messages.len() == 0 {
            let none: Vec<Message> = Vec::new();
            assert(message_views(none@) =~= all);
            return SummaryPlan::Keep { result: TrimResult { messages: none, replace: false } };
        }
        let reserved: usize = self.summary_max_tokens as usize;
        let rounds = split_rounds(messages, counts);
        let keep = keep_rounds(&rounds, budget, reserved);
        proof {
            law_window_is_the_longest_that_fits(all, counts@, *budget, reserved);
        }
        let cut = rounds[rounds.len() - keep].start;
        if cut == 0 {
            let copy = messages_from(messages, 0);
            assert(all.skip(0) =~= all);
            return SummaryPlan::Keep { result: TrimResult { messages: copy, replace: false } };
        }
        let old_part = vstd::slice::slice_subrange(messages, 0, cut);
        assert(message_views(old_part@) =~= all.take(cut as int));
        let text = messages_to_text(old_part);
        let mut to_send: Vec<Message> = Vec::new();
        to_send.push(Message::system(self.prompt.as_str()));
        to_send.push(Message::user(text.as_str()));
        let tools: Vec<ToolSchema> = Vec::new();
        assert(schema_views(tools@) =~= Seq::empty());
        assert(message_views(to_send@) =~= self.request_for(all.take(cut as int)).messages);
        SummaryPlan::Ask {
            request: ChatRequest {
                messages: to_send,
                tools,
                options: ModelOptions {
                    temperature: None,
                    max_tokens: Some(self.summary_max_tokens),
                    extra: JsonMap::new(),
                    structured: None,
                },
            },
            cut,
        }
    }

    /// Puts the summarizer's reply in the place of the messages before `cut`.
    pub fn finish(
        &self,
        messages: &[Message],
        counts: &[usize],
        budget: &Budget,
        cut: usize,
        reply: Result<ChatResponse, ProviderError>,
    ) -> (r: TrimResult)
        requires
            messages@.len() == counts@.len(),
            cut <= messages@.len(),
        ensures
            r@ == after_reply(message_views(messages@), counts@, *budget, cut as int, reply),
    {
        match &reply {
            Ok(response) => match &response.message {
                Message::Assistant { content, reasoning: _, tool_calls: _ } => {
                    let chars = chars_of(content.as_str());
                    let summary = trim_of(&chars);
                    if summary.len() > 0 {
                        let text = concat(
                            "Summary of prior context:\n",
                            string_of(summary).as_str(),
                        );
                        let mut out: Vec<Message> = Vec::new();
                        out.push(Message::System(text));
                        let mut recent = messages_from(messages, cut);
                        out.append(&mut recent);
                        assert(message_views(out@) =~= summarized(
                            message_views(messages@),
                            cut as int,
                            summary@,
                        ));
                        return TrimResult { messages: out, replace: true };
                    }
                },
                _ => {},
            },
            Err(_) => {},
        }
        TrimResult { messages: window_from_counts(messages, counts, budget), replace: false }
    }

    /// A summary whose own tokens cannot be counted is not used: the counter's
    /// error is returned. Without a summary nothing was counted.
    pub fn accept(result: TrimResult, summary_tokens: Result<usize, MemoryError>) -> (r: Result<
        TrimResult,
        MemoryError,
    >)
        ensures
            match r {
                Ok(t) => t == result && (!result.replace || summary_tokens is Ok),
                Err(e) => result.replace && summary_tokens == Err::<usize, MemoryError>(e),
            },
    {
        if result.replace {
            match summary_tokens {
                Ok(_) => Ok(result),
                Err(e) => Err(e),
            }
        } else {
            Ok(result)
        }
    }
}

/// With a summary, the result is one system message that carries it, followed
/// by the recent rounds word for word; they begin with a user's message and
/// hold the newest one.
pub proof fn law_summary_keeps_recent_rounds(
    messages: Seq<MessageView>,
    counts: Seq<usize>,
    budget: Budget,
    reserved: usize,
    reply: Result<ChatResponse, ProviderError>,
)
    requires
        messages.len() == counts.len(),
        0 < messages.len() <= usize::MAX,
        window_start(messages, counts, budget, reserved) > 0,
        summary_in(reply) is Some,
    ensures
        ({
            let cut = window_start(messages, counts, budget, reserved);
            let result = after_reply(messages, counts, budget, cut, reply);
            &&& result.replace
            &&& result.messages.len() == messages.len() - cut + 1
            &&& result.messages[0] == MessageView::System(
                summary_prefix() + summary_in(reply)->0,
            )
            &&& result.messages[1] is User
            &&& result.messages.last() == messages.last()
            &&& forall|i: int|
                1 <= i < result.messages.len() ==> #[trigger] result.messages[i] == messages[cut + i
                    - 1]
        }),
{
    law_window_is_the_longest_that_fits(messages, counts, budget, reserved);
}

/// Without a summary the conversation is only seen through the window: nothing
/// that is stored is replaced, and a later attempt has all of it.
pub proof fn law_failed_summary_loses_nothing(
    messages: Seq<MessageView>,
    counts: Seq<usize>,
    budget: Budget,
    cut: int,
    reply: Result<ChatResponse, ProviderError>,
)
    requires
        summary_in(reply) is None,
    ensures
        !after_reply(messages, counts, budget, cut, reply).replace,
        after_reply(messages, counts, budget, cut, reply) == dropped(messages, counts, budget),
{
}

} // verus!
