use molo::memory::in_memory::InMemoryMemory;
use molo::memory::summarize::{messages_to_text, SummarizeStrategy, SummaryPlan};
use molo::memory::window::{
    count_message, split_rounds, window_from_counts, Budget, CharTokenCounter, ContextPlan,
    TokenCounter, TrimResult, TrimStrategy, WindowDrop, WindowMemory,
};
use molo::memory::{Memory, MemoryError};
use molo::message::{ContentBlock, Message, ToolCall};
use molo::provider::fake::{FakeProvider, FakeReply};
use molo::provider::ProviderError;
use std::cell::{Cell, RefCell};

type Window = WindowMemory<CharTokenCounter, WindowDrop>;

const SUMMARY_PREFIX: &str = "Summary of prior context:\n";

fn tool_result(id: &str, content: &str) -> Message {
    Message::ToolResult {
        id: id.into(),
        content: content.into(),
    }
}

fn with_rounds(mut memory: Window, n: usize) -> Window {
    for i in 1..=n {
        memory.record(Message::user(&format!("u{i}"))).unwrap();
        memory.record(Message::assistant(&format!("a{i}"))).unwrap();
    }
    memory
}

#[test]
fn record_preserves_order() {
    let mut memory = InMemoryMemory::default();
    memory.record(Message::system("setup")).unwrap();
    memory.record(Message::user("hello")).unwrap();
    memory.record(Message::assistant("hello!")).unwrap();

    let context = memory.context().unwrap();
    assert_eq!(context.len(), 3);
    assert_eq!(context[0], Message::System("setup".into()));
    assert_eq!(context[1], Message::user("hello"));
    assert_eq!(context[2], Message::assistant("hello!"));
}

#[test]
fn in_memory_context_is_a_copy() {
    let mut memory = InMemoryMemory::default();
    memory.record(Message::user("a")).unwrap();
    let mut context = memory.context().unwrap();
    context.push(Message::assistant("b"));
    assert_eq!(memory.context().unwrap().len(), 1);
}

#[test]
fn char_counter_counts_ideographs_and_quarters() {
    let count = |text: &str| CharTokenCounter.count(text).unwrap();
    assert_eq!(count(""), 0);
    assert_eq!(count("abcd"), 1);
    assert_eq!(count("abcde"), 2);
    assert_eq!(count("漢字"), 2);
    assert_eq!(count("漢字abc"), 3);
    assert_eq!(count("かな"), 1);
}

#[test]
fn within_budget_returns_all() {
    let mut memory = WindowMemory::new(1000);
    memory.record(Message::user("hello")).unwrap();
    memory.record(Message::assistant("hello!")).unwrap();

    let context = memory.context().unwrap();
    assert_eq!(context.len(), 2);
    assert_eq!(context[0], Message::user("hello"));
    assert_eq!(context[1], Message::assistant("hello!"));
}

#[test]
fn drops_earliest_rounds_when_over_budget() {
    let mut memory = with_rounds(WindowMemory::new(3), 3);
    let context = memory.context().unwrap();
    assert_eq!(context, vec![Message::user("u3"), Message::assistant("a3")]);
}

#[test]
fn tool_messages_trimmed_with_assistant() {
    let mut memory = WindowMemory::new(8);
    memory.record(Message::user("calculate")).unwrap();
    memory
        .record(Message::Assistant {
            content: "".into(),
            reasoning: None,
            tool_calls: vec![
                ToolCall {
                    id: "t1".into(),
                    name: "calc".into(),
                    arguments: "1+1".into(),
                },
                ToolCall {
                    id: "t2".into(),
                    name: "calc".into(),
                    arguments: "2+2".into(),
                },
            ],
        })
        .unwrap();
    memory.record(tool_result("t1", "2")).unwrap();
    memory.record(tool_result("t2", "4")).unwrap();
    memory.record(Message::user("continue")).unwrap();
    memory.record(Message::assistant("okay")).unwrap();

    let context = memory.context().unwrap();
    assert_eq!(
        context,
        vec![Message::user("continue"), Message::assistant("okay")]
    );
}

#[test]
fn recorded_system_can_be_trimmed() {
    let mut memory = WindowMemory::new(3);
    memory.record(Message::system("setup")).unwrap();
    let mut memory = with_rounds(memory, 2);
    let context = memory.context().unwrap();
    assert_eq!(context, vec![Message::user("u2"), Message::assistant("a2")]);
}

#[test]
fn keeps_last_round_even_when_over_budget() {
    let mut memory = WindowMemory::new(3);
    memory
        .record(Message::user(
            "An extremely long user message, over budget in a single round",
        ))
        .unwrap();
    memory.record(Message::assistant("Reply")).unwrap();
    memory.record(Message::user("u2")).unwrap();
    memory.record(Message::assistant("a2")).unwrap();

    let context = memory.context().unwrap();
    assert_eq!(context, vec![Message::user("u2"), Message::assistant("a2")]);
}

#[test]
fn max_rounds_window() {
    let mut memory = with_rounds(WindowMemory::new(1000).with_max_rounds(2), 4);
    let context = memory.context().unwrap();
    assert_eq!(
        context,
        vec![
            Message::user("u3"),
            Message::assistant("a3"),
            Message::user("u4"),
            Message::assistant("a4")
        ]
    );
}

#[test]
fn no_rounds_at_all_still_keeps_one() {
    let mut memory = with_rounds(WindowMemory::new(1000).with_max_rounds(0), 2);
    let context = memory.context().unwrap();
    assert_eq!(context, vec![Message::user("u2"), Message::assistant("a2")]);
}

#[test]
fn tokens_and_rounds_take_smaller() {
    let mut memory = with_rounds(WindowMemory::new(3).with_max_rounds(3), 4);
    let context = memory.context().unwrap();
    assert_eq!(context, vec![Message::user("u4"), Message::assistant("a4")]);
}

#[test]
fn raising_budget_restores_history() {
    let mut memory = with_rounds(WindowMemory::new(3), 2);
    assert_eq!(memory.context().unwrap().len(), 2);
    memory.set_max_tokens(1000);
    assert_eq!(memory.context().unwrap().len(), 4);
}

#[test]
fn reasoning_counts_toward_budget() {
    let mut memory = WindowMemory::new(11);
    memory.record(Message::user("u1")).unwrap();
    memory
        .record(Message::assistant_with_reasoning("hi", &"a".repeat(40)))
        .unwrap();
    memory.record(Message::user("u2")).unwrap();
    memory.record(Message::assistant("hi")).unwrap();
    let context = memory.context().unwrap();
    assert_eq!(context, vec![Message::user("u2"), Message::assistant("hi")]);

    let mut memory2 = WindowMemory::new(11);
    memory2.record(Message::user("u1")).unwrap();
    memory2.record(Message::assistant("hi")).unwrap();
    memory2.record(Message::user("u2")).unwrap();
    memory2.record(Message::assistant("hi")).unwrap();
    assert_eq!(memory2.context().unwrap().len(), 4);
}

struct OnePerText;

impl TokenCounter for OnePerText {
    fn count(&self, _text: &str) -> Result<usize, MemoryError> {
        Ok(1)
    }
}

#[test]
fn custom_token_counter() {
    let mut memory = WindowMemory::new(2).with_token_counter(OnePerText);
    memory.record(Message::user("u1")).unwrap();
    memory.record(Message::assistant("a1")).unwrap();
    memory.record(Message::user("u2")).unwrap();
    memory.record(Message::assistant("a2")).unwrap();
    memory.record(Message::user("u3")).unwrap();

    let context = memory.context().unwrap();
    assert_eq!(context, vec![Message::user("u3")]);
}

/// Replaces everything before the last round by one message.
struct FakeSummarizer<'a> {
    calls: &'a Cell<usize>,
    last_input: &'a RefCell<Vec<Message>>,
}

impl<C: TokenCounter> TrimStrategy<C> for FakeSummarizer<'_> {
    fn trim(
        &self,
        messages: &[Message],
        _budget: &Budget,
        _counter: &C,
    ) -> Result<TrimResult, MemoryError> {
        self.calls.set(self.calls.get() + 1);
        *self.last_input.borrow_mut() = messages.to_vec();
        let result = match messages.iter().rposition(|m| m.is_user()) {
            Some(pos) => {
                let mut result = vec![Message::system("prior summary")];
                result.extend_from_slice(&messages[pos..]);
                result
            }
            None => messages.to_vec(),
        };
        Ok(TrimResult {
            messages: result,
            replace: true,
        })
    }
}

#[test]
fn materialize_replaces_storage_and_skips_strategy() {
    let (calls, last_input) = (Cell::new(0), RefCell::new(vec![]));
    let mut memory = with_rounds(WindowMemory::new(7), 4).with_strategy(FakeSummarizer {
        calls: &calls,
        last_input: &last_input,
    });
    let first = memory.context().unwrap();
    assert_eq!(calls.get(), 1);
    assert_eq!(
        first,
        vec![
            Message::system("prior summary"),
            Message::user("u4"),
            Message::assistant("a4"),
        ]
    );
    let second = memory.context().unwrap();
    assert_eq!(calls.get(), 1);
    assert_eq!(second, first);
}

#[test]
fn materialize_strategy_input_is_materialized_sequence() {
    let (calls, last_input) = (Cell::new(0), RefCell::new(vec![]));
    let mut memory = with_rounds(WindowMemory::new(7), 4).with_strategy(FakeSummarizer {
        calls: &calls,
        last_input: &last_input,
    });
    memory.context().unwrap();
    for text in ["u5", "u6"] {
        memory.record(Message::user(text)).unwrap();
        memory.record(Message::assistant("a")).unwrap();
    }
    memory.context().unwrap();
    assert_eq!(calls.get(), 2);
    assert_eq!(last_input.borrow()[0], Message::system("prior summary"));
}

struct KeepLastRound;

impl<C: TokenCounter> TrimStrategy<C> for KeepLastRound {
    fn trim(
        &self,
        messages: &[Message],
        _budget: &Budget,
        _counter: &C,
    ) -> Result<TrimResult, MemoryError> {
        let pos = messages.iter().rposition(|m| m.is_user()).unwrap_or(0);
        Ok(TrimResult {
            messages: messages[pos..].to_vec(),
            replace: false,
        })
    }
}

#[test]
fn projection_keeps_storage_unchanged() {
    let mut memory = with_rounds(WindowMemory::new(1), 2).with_strategy(KeepLastRound);
    let view = memory.context().unwrap();
    assert_eq!(view, vec![Message::user("u2"), Message::assistant("a2")]);
    memory.set_max_tokens(1000);
    assert_eq!(memory.context().unwrap().len(), 4);
}

/// Keeps the messages that the memory's counter counts as one token.
struct KeepSmall<'a> {
    asked: &'a Cell<usize>,
}

impl<C: TokenCounter> TrimStrategy<C> for KeepSmall<'_> {
    fn trim(
        &self,
        messages: &[Message],
        budget: &Budget,
        counter: &C,
    ) -> Result<TrimResult, MemoryError> {
        self.asked.set(self.asked.get() + 1);
        assert_eq!(*budget, Budget::tokens(3));
        let mut kept = Vec::new();
        for message in messages {
            if count_message(counter, message)? == 1 {
                kept.push(message.clone());
            }
        }
        Ok(TrimResult {
            messages: kept,
            replace: false,
        })
    }
}

#[test]
fn strategies_are_handed_the_counter() {
    let asked = Cell::new(0);
    let mut memory = WindowMemory::new(3).with_strategy(KeepSmall { asked: &asked });
    memory.record(Message::user("u1")).unwrap();
    memory.record(Message::assistant("more than one token")).unwrap();
    memory.record(Message::user("u2")).unwrap();
    assert_eq!(
        memory.context().unwrap(),
        vec![Message::user("u1"), Message::user("u2")]
    );
    assert_eq!(asked.get(), 1);

    let mut memory = memory.with_token_counter(OnePerText);
    memory.record(Message::user("u3")).unwrap();
    assert_eq!(memory.context().unwrap().len(), 4);
    assert_eq!(asked.get(), 2);
}

#[test]
fn dropping_counts_unless_it_is_handed_the_counts() {
    let messages = [
        Message::user("u1"),
        Message::assistant("a1"),
        Message::user("u2"),
    ];
    let budget = Budget::tokens(2);
    let own = WindowDrop.trim(&messages, &budget, &OnePerText).unwrap();
    assert_eq!(own.messages, vec![Message::user("u2")]);
    let counted = WindowDrop
        .trim_with_counts(&messages, &[1, 1, 1], &budget, &OnePerText)
        .unwrap();
    assert_eq!(counted, own);
    let free = WindowDrop
        .trim_with_counts(&messages, &[0, 0, 2], &budget, &OnePerText)
        .unwrap();
    assert_eq!(free.messages, messages.to_vec());
}

#[test]
fn window_context_is_a_copy() {
    let mut memory = WindowMemory::new(1000);
    memory.record(Message::user("a")).unwrap();
    let mut context = memory.context().unwrap();
    context.push(Message::assistant("b"));
    assert_eq!(memory.context().unwrap().len(), 1);
}

#[test]
fn no_user_messages_returns_all() {
    let mut memory = WindowMemory::new(1);
    memory
        .record(Message::assistant("assistant-only message"))
        .unwrap();
    assert_eq!(memory.context().unwrap().len(), 1);
}

#[test]
fn user_blocks_all_counted() {
    let blocks = Message::user_blocks(vec![
        ContentBlock::Text("aaaa".into()),
        ContentBlock::Text("bbbb".into()),
    ]);
    assert_eq!(count_message(&CharTokenCounter, &blocks).unwrap(), 2);
    let mut memory = WindowMemory::new(2);
    memory.record(blocks).unwrap();
    memory.record(Message::assistant("hi")).unwrap();
    assert_eq!(memory.context().unwrap().len(), 2);
}

struct CountingCounter<'a> {
    calls: &'a Cell<usize>,
}

impl TokenCounter for CountingCounter<'_> {
    fn count(&self, _text: &str) -> Result<usize, MemoryError> {
        self.calls.set(self.calls.get() + 1);
        Ok(1)
    }
}

#[test]
fn changing_counter_recounts() {
    let first_calls = Cell::new(0);
    let mut memory =
        WindowMemory::new(100).with_token_counter(CountingCounter { calls: &first_calls });
    memory.record(Message::user("u1")).unwrap();
    memory.record(Message::assistant("a1")).unwrap();
    memory.context().unwrap();
    assert_eq!(first_calls.get(), 2);

    let second_calls = Cell::new(0);
    let mut memory = memory.with_token_counter(CountingCounter {
        calls: &second_calls,
    });
    memory.record(Message::user("u2")).unwrap();
    assert_eq!(second_calls.get(), 3);
}

struct FailingCounter;

impl TokenCounter for FailingCounter {
    fn count(&self, _text: &str) -> Result<usize, MemoryError> {
        Err(MemoryError::TokenCount(
            "remote counting API unavailable".into(),
        ))
    }
}

#[test]
fn token_count_failure_propagates() {
    let mut memory = WindowMemory::new(100).with_token_counter(FailingCounter);
    let err = memory.record(Message::user("hi")).unwrap_err();
    assert!(matches!(err, MemoryError::TokenCount(_)));
    assert!(memory.messages().is_empty());
}

#[test]
fn protected_round_survives_trim() {
    let mut memory = with_rounds(WindowMemory::new(3), 1);
    let call = || Message::Assistant {
        content: "a2".into(),
        reasoning: None,
        tool_calls: vec![ToolCall {
            id: "c1".into(),
            name: "load_skill".into(),
            arguments: r#"{"name":"x"}"#.into(),
        }],
    };
    memory.record(Message::user("u2")).unwrap();
    memory.record(call()).unwrap();
    memory
        .record_protected(tool_result("c1", "<skill_content>body</skill_content>"))
        .unwrap();
    memory.record(Message::user("u3")).unwrap();
    memory.record(Message::assistant("a3")).unwrap();

    let context = memory.context().unwrap();
    assert_eq!(
        context,
        vec![
            Message::user("u2"),
            call(),
            tool_result("c1", "<skill_content>body</skill_content>"),
            Message::user("u3"),
            Message::assistant("a3"),
        ]
    );
}

#[test]
fn protected_message_never_pruned() {
    let mut memory = with_rounds(WindowMemory::new(3), 2);
    memory
        .record_protected(tool_result("c1", "skill body"))
        .unwrap();
    for _ in 0..5 {
        let context = memory.context().unwrap();
        assert!(context.contains(&tool_result("c1", "skill body")));
    }
}

#[test]
fn protected_round_stays_in_its_place() {
    let mut memory = with_rounds(WindowMemory::new(3), 2);
    memory
        .record_protected(tool_result("c1", "skill body"))
        .unwrap();
    assert_eq!(
        memory.context().unwrap(),
        vec![
            Message::user("u1"),
            Message::assistant("a1"),
            Message::user("u2"),
            Message::assistant("a2"),
            tool_result("c1", "skill body"),
        ]
    );
}

#[test]
fn dropped_rounds_leave_the_others_in_order() {
    let mut memory = with_rounds(WindowMemory::new(3), 2);
    memory
        .record_protected(tool_result("c1", "body"))
        .unwrap();
    let mut memory = with_rounds(memory, 2);
    assert_eq!(
        memory.context().unwrap(),
        vec![
            Message::user("u2"),
            Message::assistant("a2"),
            tool_result("c1", "body"),
            Message::user("u2"),
            Message::assistant("a2"),
        ]
    );
}

/// Keeps the messages at some places, and puts one of its own before them.
struct KeepAt {
    made: Option<&'static str>,
    places: Vec<usize>,
    replace: bool,
}

impl<C: TokenCounter> TrimStrategy<C> for KeepAt {
    fn trim(
        &self,
        messages: &[Message],
        _budget: &Budget,
        _counter: &C,
    ) -> Result<TrimResult, MemoryError> {
        let mut result: Vec<Message> = self.made.iter().map(|m| Message::system(m)).collect();
        result.extend(self.places.iter().map(|p| messages[*p].clone()));
        Ok(TrimResult {
            messages: result,
            replace: self.replace,
        })
    }
}

/// A round, a protected one, and two more.
fn around_a_protected_round(strategy: KeepAt) -> WindowMemory<CharTokenCounter, KeepAt> {
    let mut memory = with_rounds(WindowMemory::new(3), 1);
    memory.record(Message::user("p")).unwrap();
    memory.record_protected(tool_result("c1", "body")).unwrap();
    memory.record(Message::user("u3")).unwrap();
    memory.record(Message::assistant("a3")).unwrap();
    memory.record(Message::user("u4")).unwrap();
    memory.with_strategy(strategy)
}

#[test]
fn kept_messages_stand_around_a_protected_round() {
    let mut memory = around_a_protected_round(KeepAt {
        made: None,
        places: vec![0, 2, 4],
        replace: false,
    });
    assert_eq!(
        memory.context().unwrap(),
        vec![
            Message::user("u1"),
            Message::user("p"),
            tool_result("c1", "body"),
            Message::user("u3"),
            Message::user("u4"),
        ]
    );
    assert_eq!(memory.messages().len(), 7);
}

#[test]
fn summary_stands_where_the_first_replaced_message_stood() {
    let mut memory = around_a_protected_round(KeepAt {
        made: Some("summary"),
        places: vec![4],
        replace: true,
    });
    let first = vec![
        Message::system("summary"),
        Message::user("p"),
        tool_result("c1", "body"),
        Message::user("u4"),
    ];
    assert_eq!(memory.context().unwrap(), first);
    assert_eq!(memory.messages(), first.as_slice());
}

#[test]
fn protection_outlasts_a_replacement() {
    let mut memory = around_a_protected_round(KeepAt {
        made: Some("summary"),
        places: vec![4],
        replace: true,
    });
    memory.context().unwrap();
    let mut memory = memory.with_strategy(KeepAt {
        made: None,
        places: vec![],
        replace: true,
    });
    let context = memory.context().unwrap();
    assert!(context.contains(&tool_result("c1", "body")));
    assert!(!context.contains(&Message::user("u4")));
}

#[test]
fn rounds_begin_with_the_user() {
    let messages = [
        Message::system("s"),
        Message::user("u1"),
        Message::assistant("a1"),
        Message::user("u2"),
    ];
    let rounds = split_rounds(&messages, &[1, 2, 3, 4]);
    assert_eq!(rounds.len(), 2);
    assert_eq!(
        window_from_counts(&messages, &[1, 2, 3, 4], &Budget::tokens(4)),
        vec![Message::user("u2")]
    );
    assert_eq!(
        window_from_counts(&messages, &[1, 2, 3, 4], &Budget::tokens(10)),
        messages.to_vec()
    );
}

type Summarizing = WindowMemory<CharTokenCounter, SummarizeStrategy>;

fn record(memory: &mut Summarizing, message: Message) {
    let tokens = count_message(&CharTokenCounter, &message).unwrap();
    memory.record_counted(message, false, tokens);
}

/// Rounds of 11 tokens each.
fn record_rounds(memory: &mut Summarizing, start: usize, n: usize) {
    for i in start..=n {
        record(memory, Message::user(&format!("Question from round {i}")));
        record(
            memory,
            Message::assistant(&format!("Answer from round {i}")),
        );
    }
}

/// The context of a memory that asks `provider` for its summaries.
fn context_of(
    memory: &mut Summarizing,
    strategy: &SummarizeStrategy,
    provider: &mut FakeProvider,
) -> Vec<Message> {
    if memory.needs_counts() {
        let counts = memory
            .messages()
            .iter()
            .map(|m| count_message(&CharTokenCounter, m).unwrap())
            .collect();
        memory.set_counts(counts);
    }
    match memory.plan_context() {
        ContextPlan::Whole { messages } => messages,
        ContextPlan::Trim { candidates, counts } => {
            let budget = memory.budget();
            let result = match strategy.plan(&candidates, &counts, &budget) {
                SummaryPlan::Keep { result } => result,
                SummaryPlan::Ask { request, cut } => {
                    let reply = provider.chat(request);
                    strategy.finish(&candidates, &counts, &budget, cut, reply)
                }
            };
            memory.finish_context(result)
        }
    }
}

fn summarizing(max_tokens: usize) -> Summarizing {
    WindowMemory::new(max_tokens).with_strategy(SummarizeStrategy::new())
}

fn text_in(message: &Message) -> &str {
    let Message::User(blocks) = message else {
        panic!("expected user message");
    };
    let ContentBlock::Text(text) = &blocks[0] else {
        panic!("expected a text block");
    };
    text
}

#[test]
fn summarizes_old_rounds_and_keeps_recent() {
    let mut fake = FakeProvider::new(vec![FakeReply::Text(
        "Key points from earlier rounds".into(),
    )]);
    let mut memory = summarizing(30);
    record_rounds(&mut memory, 1, 4);

    let context = context_of(&mut memory, &SummarizeStrategy::new(), &mut fake);
    assert_eq!(context.len(), 3);
    assert_eq!(
        context[0],
        Message::system(&format!("{SUMMARY_PREFIX}Key points from earlier rounds"))
    );
    assert_eq!(context[1], Message::user("Question from round 4"));
    assert_eq!(context[2], Message::assistant("Answer from round 4"));

    let requests = fake.requests();
    assert_eq!(requests.len(), 1);
    let messages = &requests[0].messages;
    assert!(
        matches!(&messages[0], Message::System(p) if p.contains("conversation-history compressor"))
    );
    let text = text_in(&messages[1]);
    assert!(text.contains("Question from round 1") && text.contains("Question from round 3"));
    assert!(!text.contains("Question from round 4"));
    assert_eq!(requests[0].options.max_tokens, Some(1024));
}

#[test]
fn summary_budget_reserves_space_for_recent_rounds() {
    let mut fake = FakeProvider::new(vec![FakeReply::Text("Highlights".into())]);
    let strategy = SummarizeStrategy::new().with_summary_max_tokens(4);
    let mut memory = summarizing(30);
    record_rounds(&mut memory, 1, 4);

    let context = context_of(&mut memory, &strategy, &mut fake);
    assert_eq!(context.len(), 5);
    assert_eq!(context[1], Message::user("Question from round 3"));
    assert_eq!(context[3], Message::user("Question from round 4"));
}

#[test]
fn incremental_summary_reuses_previous_summary() {
    let mut fake = FakeProvider::new(vec![
        FakeReply::Text("first segment highlights".into()),
        FakeReply::Text("merged highlights".into()),
    ]);
    let strategy = SummarizeStrategy::new().with_summary_max_tokens(4);
    let mut memory = summarizing(30);
    record_rounds(&mut memory, 1, 4);
    context_of(&mut memory, &strategy, &mut fake);

    record_rounds(&mut memory, 5, 6);
    let context = context_of(&mut memory, &strategy, &mut fake);
    assert_eq!(
        context[0],
        Message::system(&format!("{SUMMARY_PREFIX}merged highlights"))
    );
    assert_eq!(context.len(), 5);
    assert_eq!(context[1], Message::user("Question from round 5"));

    let requests = fake.requests();
    assert_eq!(requests.len(), 2);
    assert!(text_in(&requests[1].messages[1]).contains("first segment highlights"));
}

#[test]
fn provider_failure_falls_back_to_window_drop() {
    let mut fake = FakeProvider::new(vec![
        FakeReply::Error(ProviderError::Network("mock network error".into())),
        FakeReply::Text("second attempt succeeded".into()),
    ]);
    let strategy = SummarizeStrategy::new();
    let mut memory = summarizing(30);
    record_rounds(&mut memory, 1, 4);

    let context = context_of(&mut memory, &strategy, &mut fake);
    assert_eq!(
        context,
        vec![
            Message::user("Question from round 3"),
            Message::assistant("Answer from round 3"),
            Message::user("Question from round 4"),
            Message::assistant("Answer from round 4"),
        ]
    );
    assert_eq!(memory.messages().len(), 8);

    let context = context_of(&mut memory, &strategy, &mut fake);
    assert_eq!(
        context[0],
        Message::system(&format!("{SUMMARY_PREFIX}second attempt succeeded"))
    );
    assert_eq!(fake.requests().len(), 2);
}

#[test]
fn empty_summary_falls_back() {
    let mut fake = FakeProvider::new(vec![FakeReply::Text("".into())]);
    let mut memory = summarizing(30);
    record_rounds(&mut memory, 1, 4);

    let context = context_of(&mut memory, &SummarizeStrategy::new(), &mut fake);
    assert_eq!(context.len(), 4);
    assert!(!context.iter().any(|m| matches!(m, Message::System(_))));
}

#[test]
fn single_round_over_budget_returns_as_is() {
    let mut fake = FakeProvider::new(vec![FakeReply::Text("summary".into())]);
    let mut memory = summarizing(5);
    record(
        &mut memory,
        Message::user("An extremely long user message, over budget in a single round"),
    );
    record(&mut memory, Message::assistant("Reply"));

    let context = context_of(&mut memory, &SummarizeStrategy::new(), &mut fake);
    assert_eq!(context.len(), 2);
    assert!(fake.requests().is_empty());
}

#[test]
fn empty_input_returns_empty() {
    let plan = SummarizeStrategy::new().plan(&[], &[], &Budget::tokens(10));
    assert_eq!(
        plan,
        SummaryPlan::Keep {
            result: TrimResult {
                messages: vec![],
                replace: false
            }
        }
    );
}

#[test]
fn messages_to_text_includes_tool_calls_and_results() {
    let messages = vec![
        Message::system("setup"),
        Message::user("calculate"),
        Message::Assistant {
            content: "".into(),
            reasoning: Some("reasoning trace is not included".into()),
            tool_calls: vec![ToolCall {
                id: "t1".into(),
                name: "calc".into(),
                arguments: r#"{"expr":"1+1"}"#.into(),
            }],
        },
        Message::tool_result("t1", "2"),
    ];
    let text = messages_to_text(&messages);
    assert!(text.contains("system: setup"));
    assert!(text.contains("user: calculate"));
    assert!(text.contains(r#"tool_calls: calc {"expr":"1+1"}"#));
    assert!(text.contains("tool_result: 2"));
    assert!(!text.contains("reasoning trace is not included"));
}

#[test]
fn trim_counts_consistent_with_window() {
    let messages = vec![
        Message::user("u1"),
        Message::assistant("a1"),
        Message::user("u2"),
        Message::assistant("a2"),
    ];
    let counts = [1, 1, 1, 1];
    let strategy = SummarizeStrategy::new();
    let budget = Budget::tokens(2);
    let SummaryPlan::Ask { request, cut } = strategy.plan(&messages, &counts, &budget) else {
        panic!("expected a request");
    };
    let reply = FakeProvider::new(vec![FakeReply::Text("summary".into())]).chat(request);
    let result = strategy.finish(&messages, &counts, &budget, cut, reply);
    assert_eq!(result.messages.len(), 3);
    assert!(result.replace);
}

#[test]
fn uncounted_summary_is_refused() {
    let summary = || TrimResult {
        messages: vec![Message::system("s")],
        replace: true,
    };
    let fault = || Err(MemoryError::TokenCount("down".into()));
    assert!(SummarizeStrategy::accept(summary(), Ok(1)).is_ok());
    assert!(matches!(
        SummarizeStrategy::accept(summary(), fault()),
        Err(MemoryError::TokenCount(_))
    ));
    let dropped = TrimResult {
        messages: vec![],
        replace: false,
    };
    assert!(SummarizeStrategy::accept(dropped, fault()).is_ok());
}
