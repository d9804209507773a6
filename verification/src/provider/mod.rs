//! Model providers: requests, replies and errors.

use vstd::prelude::*;

use crate::json::{Json, JsonMap, JsonView};
use crate::message::{message_views, Message, MessageView};
use crate::text::{concat, concat3, decimal, decimal_of};
use crate::text_laws::{
    lemma_order_concat, lemma_order_within, lemma_whole_stands, stand_in_order,
};
use crate::time::Span;
use crate::tool::{schema_views, ToolSchema, ToolSchemaView};

pub mod fake;
pub mod openai;
pub mod retry;

verus! {

/// What is asked of a model besides the conversation.
#[derive(Debug, PartialEq)]
pub struct ModelOptions {
    /// The sampling temperature, a JSON number.
    pub temperature: Option<Json>,
    pub max_tokens: Option<u32>,
    /// Parameters of one vendor, under their wire names.
    pub extra: JsonMap,
    /// The JSON schema that the answer should follow.
    pub structured: Option<Json>,
}

pub struct ModelOptionsView {
    pub temperature: Option<JsonView>,
    pub max_tokens: Option<u32>,
    pub extra: Map<Seq<char>, JsonView>,
    pub structured: Option<JsonView>,
}

pub open spec fn opt_json(json: Option<Json>) -> Option<JsonView> {
    match json {
        Some(json) => Some(json@),
        None => None,
    }
}

impl View for ModelOptions {
    type V = ModelOptionsView;

    open spec fn view(&self) -> ModelOptionsView {
        ModelOptionsView {
            temperature: opt_json(self.temperature),
            max_tokens: self.max_tokens,
            extra: self.extra@,
            structured: opt_json(self.structured),
        }
    }
}

impl ModelOptionsView {
    /// No option is set.
    pub open spec fn unset() -> ModelOptionsView {
        ModelOptionsView {
            temperature: None,
            max_tokens: None,
            extra: Map::empty(),
            structured: None,
        }
    }
}

impl Default for ModelOptions {
    fn default() -> (r: ModelOptions)
        ensures
            r@ == ModelOptionsView::unset(),
    {
        ModelOptions { temperature: None, max_tokens: None, extra: JsonMap::new(), structured: None }
    }
}

impl Clone for ModelOptions {
    fn clone(&self) -> (r: ModelOptions)
        ensures
            r@ == self@,
    {
        ModelOptions {
            temperature: clone_opt_json(&self.temperature),
            max_tokens: self.max_tokens,
            extra: self.extra.clone(),
            structured: clone_opt_json(&self.structured),
        }
    }
}

pub(crate) fn clone_opt_json(json: &Option<Json>) -> (r: Option<Json>)
    ensures
        opt_json(r) == opt_json(*json),
{
    match json {
        Some(json) => Some(json.clone()),
        None => None,
    }
}

/// A request to a model.
#[derive(Debug, PartialEq)]
pub struct ChatRequest {
    pub messages: Vec<Message>,
    pub tools: Vec<ToolSchema>,
    pub options: ModelOptions,
}

pub struct ChatRequestView {
    pub messages: Seq<MessageView>,
    pub tools: Seq<ToolSchemaView>,
    pub options: ModelOptionsView,
}

impl View for ChatRequest {
    type V = ChatRequestView;

    open spec fn view(&self) -> ChatRequestView {
        ChatRequestView {
            messages: message_views(self.messages@),
            tools: schema_views(self.tools@),
            options: self.options@,
        }
    }
}

/// How many tokens a request took.
#[derive(Debug, Clone, Copy, PartialEq, Eq, Structural)]
pub struct Usage {
    pub prompt_tokens: u32,
    pub completion_tokens: u32,
    pub total_tokens: u32,
}

impl Default for Usage {
    fn default() -> (r: Usage)
        ensures
            r == (Usage { prompt_tokens: 0, completion_tokens: 0, total_tokens: 0 }),
    {
        Usage { prompt_tokens: 0, completion_tokens: 0, total_tokens: 0 }
    }
}

impl Usage {
    /// The usage of a prompt and its completion; the total is their sum.
    pub fn new(prompt_tokens: u32, completion_tokens: u32) -> (r: Usage)
        requires
            prompt_tokens + completion_tokens <= u32::MAX,
        ensures
            r.prompt_tokens == prompt_tokens,
            r.completion_tokens == completion_tokens,
            r.total_tokens == prompt_tokens + completion_tokens,
    {
        Usage {
            prompt_tokens,
            completion_tokens,
            total_tokens: prompt_tokens + completion_tokens,
        }
    }

    /// Adds another usage, field by field.
    pub fn add_assign(&mut self, rhs: Usage)
        requires
            old(self).prompt_tokens + rhs.prompt_tokens <= u32::MAX,
            old(self).completion_tokens + rhs.completion_tokens <= u32::MAX,
            old(self).total_tokens + rhs.total_tokens <= u32::MAX,
        ensures
            final(self).prompt_tokens == old(self).prompt_tokens + rhs.prompt_tokens,
            final(self).completion_tokens == old(self).completion_tokens + rhs.completion_tokens,
            final(self).total_tokens == old(self).total_tokens + rhs.total_tokens,
    {
        self.prompt_tokens = self.prompt_tokens + rhs.prompt_tokens;
        self.completion_tokens = self.completion_tokens + rhs.completion_tokens;
        self.total_tokens = self.total_tokens + rhs.total_tokens;
    }
}

/// Why the model stopped.
#[derive(Debug, PartialEq, Eq)]
pub enum FinishReason {
    /// It was done, or asks for tools.
    Stop,
    /// The reply reached its length limit.
    Length,
    /// A vendor's own reason.
    Other(String),
}

pub enum FinishView {
    Stop,
    Length,
    Other(Seq<char>),
}

impl View for FinishReason {
    type V = FinishView;

    open spec fn view(&self) -> FinishView {
        match *self {
            FinishReason::Stop => FinishView::Stop,
            FinishReason::Length => FinishView::Length,
            FinishReason::Other(reason) => FinishView::Other(reason@),
        }
    }
}

/// A model's reply.
#[derive(Debug, PartialEq, Eq)]
pub struct ChatResponse {
    pub message: Message,
    pub finish_reason: FinishReason,
    pub usage: Usage,
}

pub struct ChatResponseView {
    pub message: MessageView,
    pub finish_reason: FinishView,
    pub usage: Usage,
}

impl View for ChatResponse {
    type V = ChatResponseView;

    open spec fn view(&self) -> ChatResponseView {
        ChatResponseView {
            message: self.message@,
            finish_reason: self.finish_reason@,
            usage: self.usage,
        }
    }
}

/// An event of a streamed reply.
#[derive(Debug, PartialEq, Eq)]
pub enum StreamEvent {
    /// A piece of the text.
    Delta(String),
    /// A tool request, complete.
    ToolCall { id: String, name: String, arguments: String },
    /// A piece of the reasoning.
    Reasoning(String),
    /// The end of the reply.
    Done { reason: FinishReason, usage: Option<Usage> },
}

pub enum EventView {
    Delta(Seq<char>),
    ToolCall { id: Seq<char>, name: Seq<char>, arguments: Seq<char> },
    Reasoning(Seq<char>),
    Done { reason: FinishView, usage: Option<Usage> },
}

impl View for StreamEvent {
    type V = EventView;

    open spec fn view(&self) -> EventView {
        match *self {
            StreamEvent::Delta(text) => EventView::Delta(text@),
            StreamEvent::ToolCall { id, name, arguments } => EventView::ToolCall {
                id: id@,
                name: name@,
                arguments: arguments@,
            },
            StreamEvent::Reasoning(text) => EventView::Reasoning(text@),
            StreamEvent::Done { reason, usage } => EventView::Done { reason: reason@, usage },
        }
    }
}

/// Where a request ran out of time.
#[derive(Debug, Clone, Copy, PartialEq, Eq, Structural)]
pub enum TimeoutStage {
    Connect,
    Request,
    Idle,
    StreamTotal,
    ResponseBody,
    Transport,
}

impl TimeoutStage {
    pub open spec fn label(self) -> Seq<char> {
        match self {
            TimeoutStage::Connect => "Connect"@,
            TimeoutStage::Request => "Request"@,
            TimeoutStage::Idle => "Idle"@,
            TimeoutStage::StreamTotal => "StreamTotal"@,
            TimeoutStage::ResponseBody => "ResponseBody"@,
            TimeoutStage::Transport => "Transport"@,
        }
    }

    /// The stage's name.
    pub fn name(&self) -> (r: &'static str)
        ensures
            r@ == self.label(),
    {
        match self {
            TimeoutStage::Connect => "Connect",
            TimeoutStage::Request => "Request",
            TimeoutStage::Idle => "Idle",
            TimeoutStage::StreamTotal => "StreamTotal",
            TimeoutStage::ResponseBody => "ResponseBody",
            TimeoutStage::Transport => "Transport",
        }
    }
}

/// Why a request to a model failed.
#[derive(Debug, PartialEq, Eq)]
pub enum ProviderError {
    /// The endpoint answered with an error; 0 is no HTTP status.
    Api { status: u16, message: String },
    /// The endpoint limits the rate, and may say how long to wait.
    RateLimited { retry_after: Option<Span> },
    /// The connection failed.
    Network(String),
    /// The request took too long.
    Timeout(TimeoutStage),
    /// The provider cannot answer.
    Protocol { message: String },
    /// The run was cancelled.
    Cancelled,
}

pub enum ProviderErrorView {
    Api { status: u16, message: Seq<char> },
    RateLimited { retry_after: Option<Span> },
    Network(Seq<char>),
    Timeout(TimeoutStage),
    Protocol { message: Seq<char> },
    Cancelled,
}

impl View for ProviderError {
    type V = ProviderErrorView;

    open spec fn view(&self) -> ProviderErrorView {
        match *self {
            ProviderError::Api { status, message } => ProviderErrorView::Api {
                status,
                message: message@,
            },
            ProviderError::RateLimited { retry_after } => ProviderErrorView::RateLimited {
                retry_after,
            },
            ProviderError::Network(message) => ProviderErrorView::Network(message@),
            ProviderError::Timeout(stage) => ProviderErrorView::Timeout(stage),
            ProviderError::Protocol { message } => ProviderErrorView::Protocol {
                message: message@,
            },
            ProviderError::Cancelled => ProviderErrorView::Cancelled,
        }
    }
}

impl ProviderErrorView {
    /// The error as a sentence.
    pub open spec fn text(self) -> Seq<char> {
        match self {
            ProviderErrorView::Api { status, message } => "api error (status "@ + decimal(
                status as nat,
            ) + "): "@ + message,
            ProviderErrorView::RateLimited { retry_after } => "rate limited"@,
            ProviderErrorView::Network(message) => "network error: "@ + message,
            ProviderErrorView::Timeout(stage) => "request timed out during "@ + stage.label(),
            ProviderErrorView::Protocol { message } => "protocol error: "@ + message,
            ProviderErrorView::Cancelled => "request cancelled"@,
        }
    }
}

impl ProviderError {
    /// The error as a sentence.
    pub fn message(&self) -> (s: String)
        ensures
            s@ == self@.text(),
    {
        match self {
            ProviderError::Api { status, message } => {
                let head = concat3(
                    "api error (status ",
                    decimal_of(*status as u128).as_str(),
                    "): ",
                );
                concat(head.as_str(), message.as_str())
            },
            ProviderError::RateLimited { retry_after: _ } => "rate limited".to_owned(),
            ProviderError::Network(message) => concat("network error: ", message.as_str()),
            ProviderError::Timeout(stage) => concat("request timed out during ", stage.name()),
            ProviderError::Protocol { message } => concat("protocol error: ", message.as_str()),
            ProviderError::Cancelled => "request cancelled".to_owned(),
        }
    }
}

impl Clone for FinishReason {
    fn clone(&self) -> (r: FinishReason)
        ensures
            r@ == self@,
    {
        match self {
            FinishReason::Stop => FinishReason::Stop,
            FinishReason::Length => FinishReason::Length,
            FinishReason::Other(reason) => FinishReason::Other(reason.clone()),
        }
    }
}

impl Clone for ProviderError {
    fn clone(&self) -> (r: ProviderError)
        ensures
            r@ == self@,
    {
        match self {
            ProviderError::Api { status, message } => ProviderError::Api {
                status: *status,
                message: message.clone(),
            },
            ProviderError::RateLimited { retry_after } => ProviderError::RateLimited {
                retry_after: *retry_after,
            },
            ProviderError::Network(message) => ProviderError::Network(message.clone()),
            ProviderError::Timeout(stage) => ProviderError::Timeout(*stage),
            ProviderError::Protocol { message } => ProviderError::Protocol {
                message: message.clone(),
            },
            ProviderError::Cancelled => ProviderError::Cancelled,
        }
    }
}

impl Clone for ChatRequest {
    fn clone(&self) -> (r: ChatRequest)
        ensures
            r@ == self@,
    {
        let messages = self.messages.clone();
        let tools = self.tools.clone();
        assert(message_views(messages@) =~= message_views(self.messages@));
        assert(schema_views(tools@) =~= schema_views(self.tools@));
        ChatRequest { messages, tools, options: self.options.clone() }
    }
}

impl Default for ChatRequest {
    fn default() -> (r: ChatRequest)
        ensures
            r@ == (ChatRequestView {
                messages: Seq::empty(),
                tools: Seq::empty(),
                options: ModelOptionsView::unset(),
            }),
    {
        let messages: Vec<Message> = Vec::new();
        let tools: Vec<ToolSchema> = Vec::new();
        assert(message_views(messages@) =~= Seq::empty());
        assert(schema_views(tools@) =~= Seq::empty());
        ChatRequest { messages, tools, options: ModelOptions::default() }
    }
}

/// The sentence for an error tells its cause, and an API error its status
/// before that.
pub proof fn law_provider_errors_tell_why(error: &ProviderError, text: String)
    requires
        call_ensures(ProviderError::message, (error,), text),
    ensures
        match error@ {
            ProviderErrorView::Api { status, message } => stand_in_order(
                seq![decimal(status as nat), message],
                text@,
            ),
            ProviderErrorView::Network(message) => stand_in_order(seq![message], text@),
            ProviderErrorView::Protocol { message } => stand_in_order(seq![message], text@),
            ProviderErrorView::Timeout(stage) => stand_in_order(seq![stage.label()], text@),
            _ => text@.len() > 0,
        },
{
    let none = Seq::<char>::empty();
    match error@ {
        ProviderErrorView::Api { status, message } => {
            let digits = decimal(status as nat);
            lemma_whole_stands(digits);
            lemma_whole_stands(message);
            lemma_order_within(seq![digits], "api error (status "@, digits, "): "@);
            lemma_order_concat(
                seq![digits],
                "api error (status "@ + digits + "): "@,
                seq![message],
                message,
            );
            assert(seq![digits] + seq![message] =~= seq![digits, message]);
        },
        ProviderErrorView::Network(message) => {
            lemma_whole_stands(message);
            lemma_order_within(seq![message], "network error: "@, message, none);
            assert("network error: "@ + message + none =~= text@);
        },
        ProviderErrorView::Protocol { message } => {
            lemma_whole_stands(message);
            lemma_order_within(seq![message], "protocol error: "@, message, none);
            assert("protocol error: "@ + message + none =~= text@);
        },
        ProviderErrorView::Timeout(stage) => {
            let label = stage.label();
            lemma_whole_stands(label);
            lemma_order_within(seq![label], "request timed out during "@, label, none);
            assert("request timed out during "@ + label + none =~= text@);
        },
        _ => {
            reveal_strlit("rate limited");
            reveal_strlit("request cancelled");
        },
    }
}

} // verus!
