//! Conversation messages.

use vstd::prelude::*;

use crate::text::{opt_view, str_eq};

verus! {

/// A request of the model to call a tool.
#[derive(Debug, PartialEq, Eq)]
pub struct ToolCall {
    pub id: String,
    pub name: String,
    /// The arguments, as JSON text.
    pub arguments: String,
}

pub struct ToolCallView {
    pub id: Seq<char>,
    pub name: Seq<char>,
    pub arguments: Seq<char>,
}

impl View for ToolCall {
    type V = ToolCallView;

    open spec fn view(&self) -> ToolCallView {
        ToolCallView { id: self.id@, name: self.name@, arguments: self.arguments@ }
    }
}

/// An image, held as raw bytes.
#[derive(Debug, PartialEq, Eq)]
pub struct ImageContent {
    pub mime_type: String,
    pub data: Vec<u8>,
}

pub struct ImageView {
    pub mime_type: Seq<char>,
    pub data: Seq<u8>,
}

impl View for ImageContent {
    type V = ImageView;

    open spec fn view(&self) -> ImageView {
        ImageView { mime_type: self.mime_type@, data: self.data@ }
    }
}

/// A part of a user's message.
#[derive(Debug, PartialEq, Eq)]
pub enum ContentBlock {
    Text(String),
    Image(ImageContent),
}

pub enum BlockView {
    Text(Seq<char>),
    Image(ImageView),
}

impl View for ContentBlock {
    type V = BlockView;

    open spec fn view(&self) -> BlockView {
        match *self {
            ContentBlock::Text(text) => BlockView::Text(text@),
            ContentBlock::Image(image) => BlockView::Image(image@),
        }
    }
}

/// One message of a conversation.
#[derive(Debug, PartialEq, Eq)]
pub enum Message {
    /// An instruction to the model.
    System(String),
    /// What the user said.
    User(Vec<ContentBlock>),
    /// What the model answered: text, reasoning and tool requests of one turn.
    Assistant { content: String, reasoning: Option<String>, tool_calls: Vec<ToolCall> },
    /// What a tool returned, for the request with this id.
    ToolResult { id: String, content: String },
}

pub enum MessageView {
    System(Seq<char>),
    User(Seq<BlockView>),
    Assistant { content: Seq<char>, reasoning: Option<Seq<char>>, tool_calls: Seq<ToolCallView> },
    ToolResult { id: Seq<char>, content: Seq<char> },
}

pub open spec fn call_views(calls: Seq<ToolCall>) -> Seq<ToolCallView> {
    calls.map_values(|c: ToolCall| c@)
}

pub open spec fn block_views(blocks: Seq<ContentBlock>) -> Seq<BlockView> {
    blocks.map_values(|b: ContentBlock| b@)
}

pub open spec fn message_views(messages: Seq<Message>) -> Seq<MessageView> {
    messages.map_values(|m: Message| m@)
}

impl View for Message {
    type V = MessageView;

    open spec fn view(&self) -> MessageView {
        match *self {
            Message::System(text) => MessageView::System(text@),
            Message::User(blocks) => MessageView::User(block_views(blocks@)),
            Message::Assistant { content, reasoning, tool_calls } => MessageView::Assistant {
                content: content@,
                reasoning: opt_view(reasoning),
                tool_calls: call_views(tool_calls@),
            },
            Message::ToolResult { id, content } => MessageView::ToolResult {
                id: id@,
                content: content@,
            },
        }
    }
}

impl MessageView {
    /// An answer of text alone.
    pub open spec fn assistant(text: Seq<char>) -> MessageView {
        MessageView::Assistant { content: text, reasoning: None, tool_calls: Seq::empty() }
    }

    /// A user's message of one text block.
    pub open spec fn user(text: Seq<char>) -> MessageView {
        MessageView::User(seq![BlockView::Text(text)])
    }
}

impl ImageContent {
    pub fn new(mime_type: &str, data: Vec<u8>) -> (r: ImageContent)
        ensures
            r@ == (ImageView { mime_type: mime_type@, data: data@ }),
    {
        ImageContent { mime_type: mime_type.to_owned(), data }
    }
}

impl Message {
    pub fn system(text: &str) -> (r: Message)
        ensures
            r@ == MessageView::System(text@),
    {
        Message::System(text.to_owned())
    }

    pub fn user(text: &str) -> (r: Message)
        ensures
            r@ == MessageView::user(text@),
    {
        let mut blocks: Vec<ContentBlock> = Vec::new();
        blocks.push(ContentBlock::Text(text.to_owned()));
        assert(block_views(blocks@) =~= seq![BlockView::Text(text@)]);
        Message::User(blocks)
    }

    pub fn user_blocks(blocks: Vec<ContentBlock>) -> (r: Message)
        ensures
            r@ == MessageView::User(block_views(blocks@)),
    {
        Message::User(blocks)
    }

    pub fn assistant(text: &str) -> (r: Message)
        ensures
            r@ == MessageView::assistant(text@),
    {
        let calls: Vec<ToolCall> = Vec::new();
        assert(call_views(calls@) =~= Seq::empty());
        Message::Assistant { content: text.to_owned(), reasoning: None, tool_calls: calls }
    }

    pub fn assistant_with_reasoning(text: &str, reasoning: &str) -> (r: Message)
        ensures
            r@ == (MessageView::Assistant {
                content: text@,
                reasoning: Some(reasoning@),
                tool_calls: Seq::empty(),
            }),
    {
        let calls: Vec<ToolCall> = Vec::new();
        assert(call_views(calls@) =~= Seq::empty());
        Message::Assistant {
            content: text.to_owned(),
            reasoning: Some(reasoning.to_owned()),
            tool_calls: calls,
        }
    }

    pub fn tool_result(id: &str, content: &str) -> (r: Message)
        ensures
            r@ == (MessageView::ToolResult { id: id@, content: content@ }),
    {
        Message::ToolResult { id: id.to_owned(), content: content.to_owned() }
    }

    /// Whether this message opens a round.
    pub fn is_user(&self) -> (r: bool)
        ensures
            r == (self@ is User),
    {
        match self {
            Message::User(_) => true,
            _ => false,
        }
    }
}

impl Clone for ToolCall {
    fn clone(&self) -> (r: ToolCall)
        ensures
            r@ == self@,
    {
        ToolCall {
            id: self.id.clone(),
            name: self.name.clone(),
            arguments: self.arguments.clone(),
        }
    }
}

impl Clone for ImageContent {
    fn clone(&self) -> (r: ImageContent)
        ensures
            r@ == self@,
    {
        let data = self.data.clone();
        assert(data@ =~= self.data@);
        ImageContent { mime_type: self.mime_type.clone(), data }
    }
}

impl Clone for ContentBlock {
    fn clone(&self) -> (r: ContentBlock)
        ensures
            r@ == self@,
    {
        match self {
            ContentBlock::Text(text) => ContentBlock::Text(text.clone()),
            ContentBlock::Image(image) => ContentBlock::Image(image.clone()),
        }
    }
}

pub(crate) fn clone_calls(calls: &Vec<ToolCall>) -> (r: Vec<ToolCall>)
    ensures
        call_views(r@) == call_views(calls@),
{
    let r = calls.clone();
    assert(call_views(r@) =~= call_views(calls@));
    r
}

impl Clone for Message {
    fn clone(&self) -> (r: Message)
        ensures
            r@ == self@,
    {
        match self {
            Message::System(text) => Message::System(text.clone()),
            Message::User(blocks) => {
                let copy = blocks.clone();
                assert(block_views(copy@) =~= block_views(blocks@));
                Message::User(copy)
            },
            Message::Assistant { content, reasoning, tool_calls } => Message::Assistant {
                content: content.clone(),
                reasoning: reasoning.clone(),
                tool_calls: clone_calls(tool_calls),
            },
            Message::ToolResult { id, content } => Message::ToolResult {
                id: id.clone(),
                content: content.clone(),
            },
        }
    }
}

fn same_bytes(a: &Vec<u8>, b: &Vec<u8>) -> (r: bool)
    ensures
        r == (a@ == b@),
{
    if a.len() != b.len() {
        return false;
    }
    let mut i: usize = 0;
    while i < a.len()
        invariant
            i <= a@.len(),
            a@.len() == b@.len(),
            forall|j: int| 0 <= j < i ==> a@[j] == b@[j],
        decreases a@.len() - i,
    {
        if a[i] != b[i] {
            return false;
        }
        i = i + 1;
    }
    assert(a@ =~= b@);
    true
}

fn same_block(a: &ContentBlock, b: &ContentBlock) -> (r: bool)
    ensures
        r == (a@ == b@),
{
    match (a, b) {
        (ContentBlock::Text(x), ContentBlock::Text(y)) => str_eq(x.as_str(), y.as_str()),
        (ContentBlock::Image(x), ContentBlock::Image(y)) => str_eq(
            x.mime_type.as_str(),
            y.mime_type.as_str(),
        ) && same_bytes(&x.data, &y.data),
        _ => false,
    }
}

fn same_blocks(a: &Vec<ContentBlock>, b: &Vec<ContentBlock>) -> (r: bool)
    ensures
        r == (block_views(a@) == block_views(b@)),
{
    let ghost x = block_views(a@);
    let ghost y = block_views(b@);
    if a.len() != b.len() {
        assert(x.len() != y.len());
        return false;
    }
    let mut i: usize = 0;
    while i < a.len()
        invariant
            i <= a@.len(),
            a@.len() == b@.len(),
            x == block_views(a@),
            y == block_views(b@),
            forall|j: int| 0 <= j < i ==> x[j] == y[j],
        decreases a@.len() - i,
    {
        if !same_block(&a[i], &b[i]) {
            assert(x[i as int] != y[i as int]);
            return false;
        }
        i = i + 1;
    }
    assert(x =~= y);
    true
}

fn same_calls(a: &Vec<ToolCall>, b: &Vec<ToolCall>) -> (r: bool)
    ensures
        r == (call_views(a@) == call_views(b@)),
{
    let ghost x = call_views(a@);
    let ghost y = call_views(b@);
    if a.len() != b.len() {
        assert(x.len() != y.len());
        return false;
    }
    let mut i: usize = 0;
    while i < a.len()
        invariant
            i <= a@.len(),
            a@.len() == b@.len(),
            x == call_views(a@),
            y == call_views(b@),
            forall|j: int| 0 <= j < i ==> x[j] == y[j],
        decreases a@.len() - i,
    {
        if !(str_eq(a[i].id.as_str(), b[i].id.as_str()) && str_eq(
            a[i].name.as_str(),
            b[i].name.as_str(),
        ) && str_eq(a[i].arguments.as_str(), b[i].arguments.as_str())) {
            assert(x[i as int] != y[i as int]);
            return false;
        }
        assert(x[i as int] == y[i as int]);
        i = i + 1;
    }
    assert(x =~= y);
    true
}

/// Whether two messages say the same.
pub(crate) fn same_message(a: &Message, b: &Message) -> (r: bool)
    ensures
        r == (a@ == b@),
{
    match (a, b) {
        (Message::System(x), Message::System(y)) => str_eq(x.as_str(), y.as_str()),
        (Message::User(x), Message::User(y)) => same_blocks(x, y),
        (
            Message::Assistant { content: x, reasoning: p, tool_calls: c },
            Message::Assistant { content: y, reasoning: q, tool_calls: d },
        ) => {
            let same_reasoning = match (p, q) {
                (Some(p), Some(q)) => str_eq(p.as_str(), q.as_str()),
                (None, None) => true,
                _ => false,
            };
            str_eq(x.as_str(), y.as_str()) && same_reasoning && same_calls(c, d)
        },
        (
            Message::ToolResult { id: i, content: x },
            Message::ToolResult { id: j, content: y },
        ) => str_eq(i.as_str(), j.as_str()) && str_eq(x.as_str(), y.as_str()),
        _ => false,
    }
}

pub(crate) fn clone_messages(messages: &Vec<Message>) -> (r: Vec<Message>)
    ensures
        message_views(r@) == message_views(messages@),
        r@.len() == messages@.len(),
{
    let r = messages.clone();
    assert(message_views(r@) =~= message_views(messages@));
    r
}

/// Messages say what they are made with, in their role.
pub proof fn law_messages_say_what_they_are_made_with(
    text: &str,
    id: &str,
    system: Message,
    user: Message,
    answer: Message,
    result: Message,
)
    requires
        call_ensures(Message::system, (text,), system),
        call_ensures(Message::user, (text,), user),
        call_ensures(Message::assistant, (text,), answer),
        call_ensures(Message::tool_result, (id, text), result),
    ensures
        system@ == MessageView::System(text@),
        user@ == MessageView::User(seq![BlockView::Text(text@)]),
        answer@ matches MessageView::Assistant { content, reasoning, tool_calls } && content
            == text@ && reasoning is None && tool_calls.len() == 0,
        result@ == (MessageView::ToolResult { id: id@, content: text@ }),
{
}

/// What is told of a message is all that it holds.
pub proof fn law_messages_are_what_they_hold(message: Message)
    ensures
        match message {
            Message::System(text) => message@ == MessageView::System(text@),
            Message::User(blocks) => message@ matches MessageView::User(said) && said.len()
                == blocks@.len() && forall|i: int|
                0 <= i < blocks@.len() ==> match #[trigger] blocks@[i] {
                    ContentBlock::Text(text) => said[i] == BlockView::Text(text@),
                    ContentBlock::Image(image) => said[i] matches BlockView::Image(view)
                        && view.mime_type == image.mime_type@ && view.data == image.data@,
                },
            Message::Assistant { content, reasoning, tool_calls } => message@
                matches MessageView::Assistant { content: text, reasoning: thought, tool_calls: calls }
                && text == content@ && (reasoning matches Some(r) ==> thought == Some(r@)) && (
            reasoning is None ==> thought is None) && calls.len() == tool_calls@.len()
                && forall|i: int|
                0 <= i < tool_calls@.len() ==> (#[trigger] calls[i]).id == tool_calls@[i].id@
                    && calls[i].name == tool_calls@[i].name@ && calls[i].arguments
                    == tool_calls@[i].arguments@,
            Message::ToolResult { id, content } => message@ == (MessageView::ToolResult {
                id: id@,
                content: content@,
            }),
        },
{
    if let Message::User(blocks) = message {
        let said = block_views(blocks@);
        assert forall|i: int| 0 <= i < blocks@.len() implies match #[trigger] blocks@[i] {
            ContentBlock::Text(text) => said[i] == BlockView::Text(text@),
            ContentBlock::Image(image) => said[i] matches BlockView::Image(view) && view.mime_type
                == image.mime_type@ && view.data == image.data@,
        } by {
            assert(said[i] == blocks@[i]@);
        }
    }
}

} // verus!
