//! The protocol of OpenAI-compatible endpoints.

use vstd::prelude::*;

use self::decode::{
    choice_views, read_response, response_of_json, ChoiceView, OpenAiChatResponse,
    WireResponseView,
};
use self::stream::{
    error_message, extract_error_message, finish_of, limit_error, map_finish_reason, plain_error,
    MAX_TOOL_CALLS,
};
use self::wire::{
    request_body, request_json, wire_call_views, OpenAiToolCall, StructuredOutputMode,
    WireCallView,
};
use super::{
    ChatRequest, ChatResponse, ChatResponseView, ProviderError, ProviderErrorView, TimeoutStage,
    Usage,
};
use crate::json::{parse_json, parsed_json, render_json, rendered_json, Json, JsonView};
use crate::message::{call_views, Message, MessageView, ToolCall, ToolCallView};
use crate::text::{
    chars_of, concat, concat3, decimal, decimal_of, lossy_text, lossy_text_of, occurs_in,
    occurs_in_of, opt_str_view, parse_u64, parsed_u64, quoted_text, quoted_text_of, string_of,
    trim, trim_of,
};
use crate::time::Span;
use vstd::slice::slice_subrange;

pub mod decode;
pub mod laws;
pub mod lines;
pub mod reply_laws;
pub mod request_laws;
pub mod stream;
pub mod stream_laws;
pub mod wire;

verus! {

/// The longest reply without streaming, in bytes.
pub const MAX_RESPONSE_BODY: usize = 16777216;

/// The wait that a `Retry-After` header asks for, in whole seconds; dates are
/// not understood.
pub open spec fn retry_after(header: Option<Seq<char>>) -> Option<Span> {
    match header {
        None => None,
        Some(value) => match parsed_u64(trim(value)) {
            Some(secs) => Some(Span { nanos: (secs * 1_000_000_000) as u128 }),
            None => None,
        },
    }
}

/// The wait that a `Retry-After` header asks for.
pub fn extract_retry_after(header: Option<&str>) -> (r: Option<Span>)
    ensures
        r == retry_after(opt_str_view(header)),
{
    match header {
        None => None,
        Some(value) => {
            let chars = chars_of(value);
            match parse_u64(trim_of(&chars)) {
                Some(secs) => Some(Span::from_secs(secs)),
                None => None,
            }
        },
    }
}

/// The error of a reply whose status is no success. A rate limit may be
/// retried; an exhausted quota, which has the same status, may not.
pub open spec fn status_error(
    status: u16,
    header: Option<Seq<char>>,
    body: Seq<char>,
) -> ProviderErrorView {
    let message = error_message(body);
    if status == 429 && !occurs_in("insufficient_quota"@, message) {
        ProviderErrorView::RateLimited { retry_after: retry_after(header) }
    } else {
        ProviderErrorView::Api { status, message }
    }
}

/// Sorts the failure of a request by its message, once that is known.
pub fn classify_status(status: u16, header: Option<&str>, message: String) -> (r: ProviderError)
    ensures
        r@ == if status == 429 && !occurs_in("insufficient_quota"@, message@) {
            ProviderErrorView::RateLimited { retry_after: retry_after(opt_str_view(header)) }
        } else {
            ProviderErrorView::Api { status, message: message@ }
        },
{
    let chars = chars_of(message.as_str());
    let needle = chars_of("insufficient_quota");
    if status == 429 && !occurs_in_of(&needle, &chars) {
        ProviderError::RateLimited { retry_after: extract_retry_after(header) }
    } else {
        ProviderError::Api { status, message }
    }
}

/// The error of a reply whose status is no success.
pub fn map_status_error(status: u16, header: Option<&str>, body: &str) -> (r: ProviderError)
    ensures
        r@ == status_error(status, opt_str_view(header), body@),
{
    classify_status(status, header, extract_error_message(body))
}

/// The text of a reply's content: a string as it is, anything else as JSON.
pub open spec fn content_text(content: Option<JsonView>) -> Seq<char> {
    match content {
        Some(JsonView::Text(text)) => text,
        Some(other) => rendered_json(other),
        None => Seq::empty(),
    }
}

pub open spec fn received_call(call: WireCallView) -> ToolCallView {
    ToolCallView { id: call.id, name: call.name, arguments: call.arguments }
}

/// The tool requests of a choice.
pub open spec fn choice_calls(choice: ChoiceView) -> Seq<WireCallView> {
    match choice.message.tool_calls {
        Some(calls) => calls,
        None => Seq::empty(),
    }
}

/// The answer in a reply: its first choice, as one assistant's message.
pub open spec fn answer_of(response: WireResponseView) -> Result<
    ChatResponseView,
    ProviderErrorView,
> {
    if response.choices.len() == 0 {
        Err(plain_error("provider returned empty choices"@))
    } else {
        let choice = response.choices[0];
        let calls = choice_calls(choice);
        if calls.len() > MAX_TOOL_CALLS {
            Err(plain_error("too many tool calls ("@ + decimal(calls.len()) + ")"@))
        } else {
            Ok(
                ChatResponseView {
                    message: MessageView::Assistant {
                        content: content_text(choice.message.content),
                        reasoning: choice.message.reasoning_content,
                        tool_calls: calls.map_values(|c: WireCallView| received_call(c)),
                    },
                    finish_reason: finish_of(choice.finish_reason),
                    usage: match response.usage {
                        Some(usage) => usage,
                        None => Usage { prompt_tokens: 0, completion_tokens: 0, total_tokens: 0 },
                    },
                },
            )
        }
    }
}

/// The answer in the body of a reply.
pub open spec fn answer_in(body: Seq<char>) -> Result<ChatResponseView, ProviderErrorView> {
    match parsed_json(body) {
        Err(e) => Err(plain_error("invalid provider response: "@ + e)),
        Ok(json) => match read_response(json) {
            None => Err(plain_error("invalid provider response: unexpected shape"@)),
            Some(response) => answer_of(response),
        },
    }
}

fn received_calls(calls: Vec<OpenAiToolCall>) -> (r: Vec<ToolCall>)
    ensures
        call_views(r@) == wire_call_views(calls@).map_values(|c: WireCallView| received_call(c)),
{
    let ghost all = wire_call_views(calls@).map_values(|c: WireCallView| received_call(c));
    let mut out: Vec<ToolCall> = Vec::new();
    let mut i: usize = 0;
    while i < calls.len()
        invariant
            i <= calls@.len(),
            all == wire_call_views(calls@).map_values(|c: WireCallView| received_call(c)),
            call_views(out@) =~= all.take(i as int),
        decreases calls@.len() - i,
    {
        let ghost before = out@;
        let call = ToolCall {
            id: calls[i].id.clone(),
            name: calls[i].name.clone(),
            arguments: calls[i].arguments.clone(),
        };
        out.push(call);
        assert(call_views(out@) =~= call_views(before).push(call@));
        assert(wire_call_views(calls@)[i as int] == calls@[i as int]@);
        assert(all[i as int] == call@);
        i = i + 1;
    }
    assert(call_views(out@) =~= all);
    out
}

/// The answer in a reply that was read.
pub fn chat_response_of(response: OpenAiChatResponse) -> (r: Result<ChatResponse, ProviderError>)
    ensures
        match r {
            Ok(answer) => answer_of(response@) == Ok::<ChatResponseView, ProviderErrorView>(
                answer@,
            ),
            Err(e) => answer_of(response@) == Err::<ChatResponseView, ProviderErrorView>(e@),
        },
{
    let mut choices = response.choices;
    assert(choice_views(choices@).len() == choices@.len());
    if choices.len() == 0 {
        return Err(limit_error("provider returned empty choices"));
    }
    let ghost first = choice_views(choices@)[0];
    let choice = choices.remove(0);
    assert(first == choice@);
    let content: String = match &choice.message.content {
        Some(json) => match json.as_str() {
            Some(text) => text.to_owned(),
            None => render_json(json),
        },
        None => String::new(),
    };
    let calls: Vec<OpenAiToolCall> = match choice.message.tool_calls {
        Some(calls) => calls,
        None => {
            let none: Vec<OpenAiToolCall> = Vec::new();
            assert(wire_call_views(none@) =~= Seq::empty());
            none
        },
    };
    assert(wire_call_views(calls@).len() == calls@.len());
    if calls.len() > MAX_TOOL_CALLS {
        let text = concat3("too many tool calls (", decimal_of(calls.len() as u128).as_str(), ")");
        return Err(limit_error(text.as_str()));
    }
    Ok(
        ChatResponse {
            message: Message::Assistant {
                content,
                reasoning: choice.message.reasoning_content,
                tool_calls: received_calls(calls),
            },
            finish_reason: map_finish_reason(choice.finish_reason.as_str()),
            usage: match response.usage {
                Some(usage) => usage,
                None => Usage::default(),
            },
        },
    )
}

/// Reads the body of a reply. Text, reasoning and tool requests of the first
/// choice make up one assistant's message; a usage that is not there counts as
/// zero.
pub fn parse_response(body: &str) -> (r: Result<ChatResponse, ProviderError>)
    ensures
        match r {
            Ok(answer) => answer_in(body@) == Ok::<ChatResponseView, ProviderErrorView>(answer@),
            Err(e) => answer_in(body@) == Err::<ChatResponseView, ProviderErrorView>(e@),
        },
{
    match parse_json(body) {
        Err(e) => {
            let text = concat("invalid provider response: ", e.as_str());
            Err(limit_error(text.as_str()))
        },
        Ok(json) => match response_of_json(&json) {
            None => Err(limit_error("invalid provider response: unexpected shape")),
            Some(response) => chat_response_of(response),
        },
    }
}

/// Whether an HTTP status is a success.
pub open spec fn success(status: u16) -> bool {
    200 <= status <= 299
}

/// Whether an HTTP status is a success.
pub fn is_success(status: u16) -> (r: bool)
    ensures
        r == success(status),
{
    200 <= status && status <= 299
}

/// What a whole reply without streaming says: the answer in its body, or why
/// there is none.
pub open spec fn reply_of(status: u16, header: Option<Seq<char>>, body: Seq<char>) -> Result<
    ChatResponseView,
    ProviderErrorView,
> {
    if success(status) {
        answer_in(body)
    } else {
        Err(status_error(status, header, body))
    }
}

/// The answer of a reply without streaming, given its status, its `Retry-After`
/// header and its body.
pub fn finish_chat(status: u16, header: Option<&str>, body: &str) -> (r: Result<
    ChatResponse,
    ProviderError,
>)
    ensures
        match r {
            Ok(answer) => reply_of(status, opt_str_view(header), body@) == Ok::<
                ChatResponseView,
                ProviderErrorView,
            >(answer@),
            Err(e) => reply_of(status, opt_str_view(header), body@) == Err::<
                ChatResponseView,
                ProviderErrorView,
            >(e@),
        },
{
    if is_success(status) {
        parse_response(body)
    } else {
        Err(map_status_error(status, header, body))
    }
}

/// The error of a connection that failed at `stage`, if it was a timeout.
pub open spec fn network_fault(
    timed_out: bool,
    stage: TimeoutStage,
    cause: Seq<char>,
) -> ProviderErrorView {
    if timed_out {
        ProviderErrorView::Timeout(stage)
    } else {
        ProviderErrorView::Network(cause)
    }
}

/// The error of a connection that failed while it was read.
pub fn map_network_error(timed_out: bool, cause: &str) -> (r: ProviderError)
    ensures
        r@ == network_fault(timed_out, TimeoutStage::Transport, cause@),
{
    if timed_out {
        ProviderError::Timeout(TimeoutStage::Transport)
    } else {
        ProviderError::Network(cause.to_owned())
    }
}

/// The error of a request without streaming that could not be sent.
pub fn map_send_error(timed_out: bool, cause: &str) -> (r: ProviderError)
    ensures
        r@ == network_fault(timed_out, TimeoutStage::Request, cause@),
{
    if timed_out {
        ProviderError::Timeout(TimeoutStage::Request)
    } else {
        map_network_error(false, cause)
    }
}

/// The bytes of a reply without streaming, as they arrive.
pub struct ResponseBody {
    bytes: Vec<u8>,
}

impl View for ResponseBody {
    type V = Seq<u8>;

    closed spec fn view(&self) -> Seq<u8> {
        self.bytes@
    }
}

pub open spec fn body_too_large() -> ProviderErrorView {
    plain_error("response body exceeds size limit"@)
}

impl ResponseBody {
    /// An empty body, unless the endpoint announces one that is too long.
    pub fn announced(content_length: Option<u64>) -> (r: Result<ResponseBody, ProviderError>)
        ensures
            match r {
                Ok(body) => body@ == Seq::<u8>::empty() && (content_length matches Some(n) ==> n
                    <= MAX_RESPONSE_BODY),
                Err(e) => (content_length matches Some(n) && n > MAX_RESPONSE_BODY) && e@
                    == body_too_large(),
            },
    {
        match content_length {
            Some(n) => if n > MAX_RESPONSE_BODY as u64 {
                return Err(limit_error("response body exceeds size limit"));
            },
            None => {},
        }
        Ok(ResponseBody { bytes: Vec::new() })
    }

    /// Adds bytes, as long as the body stays within the limit.
    pub fn push(&mut self, chunk: Vec<u8>) -> (r: Result<(), ProviderError>)
        ensures
            match r {
                Ok(_) => final(self)@ == old(self)@ + chunk@ && old(self)@.len() + chunk@.len()
                    <= MAX_RESPONSE_BODY,
                Err(e) => final(self)@ == old(self)@ && old(self)@.len() + chunk@.len()
                    > MAX_RESPONSE_BODY && e@ == body_too_large(),
            },
    {
        let held: usize = self.bytes.len();
        if held > MAX_RESPONSE_BODY || chunk.len() > MAX_RESPONSE_BODY - held {
            return Err(limit_error("response body exceeds size limit"));
        }
        let mut chunk = chunk;
        self.bytes.append(&mut chunk);
        Ok(())
    }

    /// The body as text.
    pub fn text(&self) -> (r: String)
        ensures
            r@ == lossy_text(self@),
    {
        lossy_text_of(self.bytes.as_slice())
    }
}

/// A text without the slashes at its end.
pub open spec fn without_slashes(s: Seq<char>) -> Seq<char>
    decreases s.len(),
{
    if s.len() > 0 && s.last() == '/' {
        without_slashes(s.drop_last())
    } else {
        s
    }
}

fn trim_slashes(s: &str) -> (r: String)
    ensures
        r@ == without_slashes(s@),
{
    let chars = chars_of(s);
    let ghost all = s@;
    let mut n: usize = chars.len();
    assert(all.take(n as int) =~= all);
    while n > 0 && chars[n - 1] == '/'
        invariant
            n <= chars@.len(),
            chars@ == all,
            without_slashes(all) == without_slashes(all.take(n as int)),
        decreases n,
    {
        assert(all.take(n as int).drop_last() =~= all.take(n - 1));
        n = n - 1;
    }
    let head = slice_subrange(&chars, 0, n);
    assert(head@ =~= all.take(n as int));
    string_of(head)
}

/// One model of one endpoint, and how it is talked to.
pub struct OpenAiProvider {
    base_url: String,
    api_key: String,
    model: String,
    connect_timeout: Span,
    request_timeout: Span,
    idle_timeout: Span,
    stream_timeout: Span,
    structured_mode: StructuredOutputMode,
}

pub struct OpenAiView {
    pub base_url: Seq<char>,
    pub api_key: Seq<char>,
    pub model: Seq<char>,
    pub connect_timeout: Span,
    pub request_timeout: Span,
    pub idle_timeout: Span,
    pub stream_timeout: Span,
    pub structured_mode: StructuredOutputMode,
}

impl View for OpenAiProvider {
    type V = OpenAiView;

    closed spec fn view(&self) -> OpenAiView {
        OpenAiView {
            base_url: self.base_url@,
            api_key: self.api_key@,
            model: self.model@,
            connect_timeout: self.connect_timeout,
            request_timeout: self.request_timeout,
            idle_timeout: self.idle_timeout,
            stream_timeout: self.stream_timeout,
            structured_mode: self.structured_mode,
        }
    }
}

/// The name of a mode.
pub open spec fn mode_name(mode: StructuredOutputMode) -> Seq<char> {
    match mode {
        StructuredOutputMode::Native => "Native"@,
        StructuredOutputMode::JsonObject => "JsonObject"@,
        StructuredOutputMode::Off => "Off"@,
    }
}

/// What is shown of a provider, from its parts as they are shown.
pub open spec fn description(
    base_url: Seq<char>,
    model: Seq<char>,
    request_timeout: Seq<char>,
    idle_timeout: Seq<char>,
    stream_timeout: Seq<char>,
    mode: StructuredOutputMode,
) -> Seq<char> {
    "OpenAiProvider { base_url: "@ + base_url + ", api_key: \"***\", model: "@ + model
        + ", request_timeout: "@ + request_timeout + ", idle_timeout: "@ + idle_timeout
        + ", stream_timeout: "@ + stream_timeout + ", structured_mode: "@ + mode_name(mode)
        + ", .. }"@
}

/// Puts together what is shown of a provider.
pub fn describe_parts(
    base_url: &str,
    model: &str,
    request_timeout: &str,
    idle_timeout: &str,
    stream_timeout: &str,
    mode: StructuredOutputMode,
) -> (r: String)
    ensures
        r@ == description(
            base_url@,
            model@,
            request_timeout@,
            idle_timeout@,
            stream_timeout@,
            mode,
        ),
{
    let mut s = concat3("OpenAiProvider { base_url: ", base_url, ", api_key: \"***\", model: ");
    s.append(model);
    s.append(", request_timeout: ");
    s.append(request_timeout);
    s.append(", idle_timeout: ");
    s.append(idle_timeout);
    s.append(", stream_timeout: ");
    s.append(stream_timeout);
    s.append(", structured_mode: ");
    s.append(
        match mode {
            StructuredOutputMode::Native => "Native",
            StructuredOutputMode::JsonObject => "JsonObject",
            StructuredOutputMode::Off => "Off",
        },
    );
    s.append(", .. }");
    s
}

impl OpenAiView {
    /// What is shown of the provider; the key is not.
    pub open spec fn shown(self) -> Seq<char> {
        description(
            quoted_text(self.base_url),
            quoted_text(self.model),
            self.request_timeout.shown(),
            self.idle_timeout.shown(),
            self.stream_timeout.shown(),
            self.structured_mode,
        )
    }
}

/// Whatever the key is, the same is shown of a provider.
pub proof fn law_key_is_not_shown(provider: OpenAiView, key: Seq<char>)
    ensures
        (OpenAiView { api_key: key, ..provider }).shown() == provider.shown(),
{
}

impl OpenAiProvider {
    /// A model of an endpoint. Connecting may take 30 seconds, a request 600, a
    /// pause in a stream 60 and a stream 1800.
    pub fn new(base_url: &str, api_key: &str, model: &str) -> (r: OpenAiProvider)
        ensures
            r@ == (OpenAiView {
                base_url: without_slashes(base_url@),
                api_key: api_key@,
                model: model@,
                connect_timeout: Span { nanos: 30_000_000_000 },
                request_timeout: Span { nanos: 600_000_000_000 },
                idle_timeout: Span { nanos: 60_000_000_000 },
                stream_timeout: Span { nanos: 1_800_000_000_000 },
                structured_mode: StructuredOutputMode::Native,
            }),
    {
        OpenAiProvider {
            base_url: trim_slashes(base_url),
            api_key: api_key.to_owned(),
            model: model.to_owned(),
            connect_timeout: Span::from_secs(30),
            request_timeout: Span::from_secs(600),
            idle_timeout: Span::from_secs(60),
            stream_timeout: Span::from_secs(1800),
            structured_mode: StructuredOutputMode::Native,
        }
    }

    pub fn with_connect_timeout(self, timeout: Span) -> (r: OpenAiProvider)
        ensures
            r@ == (OpenAiView { connect_timeout: timeout, ..self@ }),
    {
        let mut r = self;
        r.connect_timeout = timeout;
        r
    }

    pub fn with_request_timeout(self, timeout: Span) -> (r: OpenAiProvider)
        ensures
            r@ == (OpenAiView { request_timeout: timeout, ..self@ }),
    {
        let mut r = self;
        r.request_timeout = timeout;
        r
    }

    pub fn with_idle_timeout(self, timeout: Span) -> (r: OpenAiProvider)
        ensures
            r@ == (OpenAiView { idle_timeout: timeout, ..self@ }),
    {
        let mut r = self;
        r.idle_timeout = timeout;
        r
    }

    pub fn with_stream_timeout(self, timeout: Span) -> (r: OpenAiProvider)
        ensures
            r@ == (OpenAiView { stream_timeout: timeout, ..self@ }),
    {
        let mut r = self;
        r.stream_timeout = timeout;
        r
    }

    pub fn with_structured_output_mode(self, mode: StructuredOutputMode) -> (r: OpenAiProvider)
        ensures
            r@ == (OpenAiView { structured_mode: mode, ..self@ }),
    {
        let mut r = self;
        r.structured_mode = mode;
        r
    }

    pub fn connect_timeout(&self) -> (r: Span)
        ensures
            r == self@.connect_timeout,
    {
        self.connect_timeout
    }

    pub fn request_timeout(&self) -> (r: Span)
        ensures
            r == self@.request_timeout,
    {
        self.request_timeout
    }

    pub fn idle_timeout(&self) -> (r: Span)
        ensures
            r == self@.idle_timeout,
    {
        self.idle_timeout
    }

    pub fn stream_timeout(&self) -> (r: Span)
        ensures
            r == self@.stream_timeout,
    {
        self.stream_timeout
    }

    /// Where requests go.
    pub fn url(&self) -> (r: String)
        ensures
            r@ == self@.base_url + "/chat/completions"@,
    {
        concat(self.base_url.as_str(), "/chat/completions")
    }

    /// The key to authenticate with; an endpoint without one gets none.
    pub fn bearer(&self) -> (r: Option<&str>)
        ensures
            opt_str_view(r) == if self@.api_key.len() == 0 {
                None
            } else {
                Some(self@.api_key)
            },
    {
        if self.api_key.as_str().is_empty() {
            None
        } else {
            Some(self.api_key.as_str())
        }
    }

    /// The `response_format` that is sent for a schema.
    pub fn wire_response_format(&self, schema: &Option<Json>) -> (r: Option<Json>)
        ensures
            super::opt_json(r) == wire::response_format(
                self@.structured_mode,
                super::opt_json(*schema),
            ),
    {
        wire::wire_response_format(self.structured_mode, schema)
    }

    /// The body of a request; a streamed reply is asked to report its usage.
    pub fn body(&self, request: &ChatRequest, streaming: bool) -> (r: Json)
        ensures
            r@ == request_json(self@.model, request@, self@.structured_mode, streaming),
    {
        request_body(self.model.as_str(), request, self.structured_mode, streaming)
    }

    /// The provider in words, without its key.
    pub fn describe(&self) -> (r: String)
        ensures
            r@ == self@.shown(),
    {
        describe_parts(
            quoted_text_of(self.base_url.as_str()).as_str(),
            quoted_text_of(self.model.as_str()).as_str(),
            self.request_timeout.text().as_str(),
            self.idle_timeout.text().as_str(),
            self.stream_timeout.text().as_str(),
            self.structured_mode,
        )
    }
}

} // verus!
