//! Runs: what a user asks, under which limits, and what comes out.

use vstd::prelude::*;

use crate::json::{JsonMap, JsonView};
use crate::message::{block_views, ContentBlock, Message, MessageView};
use crate::provider::{FinishReason, ModelOptions, Usage};
use crate::text::{concat3, decimal, decimal_of, lemma_decimal_value, opt_view};
use crate::time::{Moment, Span};
use tokio_util::sync::CancellationToken;
use vstd::std_specs::convert::FromSpecImpl;

verus! {

/// `tokio_util`'s token by which a run is cancelled. Whether it is cancelled
/// changes while it is held, so nothing is claimed of that.
#[verifier::external_type_specification]
#[verifier::external_body]
pub struct ExCancellationToken(tokio_util::sync::CancellationToken);

/// `CancellationToken::new`: a token of its own.
#[verifier::external_body]
fn new_token() -> (r: CancellationToken) {
    CancellationToken::new()
}

/// `CancellationToken::is_cancelled`: whether the token is cancelled by now.
/// The answer depends on what its other holders did, so none is promised.
#[verifier::external_body]
pub(crate) fn token_cancelled(token: &CancellationToken) -> (r: bool) {
    token.is_cancelled()
}

/// `CancellationToken::clone`: the same token, cancelled whenever the other is.
#[verifier::external_body]
pub(crate) fn clone_token(token: &CancellationToken) -> (r: CancellationToken)
    ensures
        r == *token,
{
    token.clone()
}

/// Values that the host attaches to a run, by name.
pub type RunMetadata = JsonMap;

/// What the user says.
#[derive(Debug, PartialEq, Eq)]
pub enum UserInput {
    Text(String),
    Blocks(Vec<ContentBlock>),
}

impl UserInput {
    /// The user's message that carries this input.
    pub open spec fn as_message(self) -> MessageView {
        match self {
            UserInput::Text(input) => MessageView::user(input@),
            UserInput::Blocks(blocks) => MessageView::User(block_views(blocks@)),
        }
    }

    pub fn text(input: &str) -> (r: UserInput)
        ensures
            r matches UserInput::Text(s) && s@ == input@,
    {
        UserInput::Text(input.to_owned())
    }

    pub fn blocks(blocks: Vec<ContentBlock>) -> (r: UserInput)
        ensures
            r == UserInput::Blocks(blocks),
    {
        UserInput::Blocks(blocks)
    }

    pub fn into_message(self) -> (r: Message)
        ensures
            r@ == self.as_message(),
    {
        match self {
            UserInput::Text(input) => Message::user(input.as_str()),
            UserInput::Blocks(blocks) => Message::user_blocks(blocks),
        }
    }

    /// The text of a text input.
    pub fn as_text(&self) -> (r: Option<&str>)
        ensures
            match self {
                UserInput::Text(input) => r matches Some(s) && s@ == input@,
                UserInput::Blocks(_) => r is None,
            },
    {
        match self {
            UserInput::Text(input) => Some(input.as_str()),
            UserInput::Blocks(_) => None,
        }
    }
}

impl From<String> for UserInput {
    fn from(input: String) -> (r: UserInput) {
        UserInput::Text(input)
    }
}

impl FromSpecImpl<String> for UserInput {
    open spec fn obeys_from_spec() -> bool {
        true
    }

    open spec fn from_spec(input: String) -> UserInput {
        UserInput::Text(input)
    }
}

impl From<&str> for UserInput {
    fn from(input: &str) -> (r: UserInput)
        ensures
            r matches UserInput::Text(s) && s@ == input@,
    {
        UserInput::text(input)
    }
}

impl FromSpecImpl<&str> for UserInput {
    open spec fn obeys_from_spec() -> bool {
        false
    }

    open spec fn from_spec(input: &str) -> UserInput {
        arbitrary()
    }
}

impl From<Vec<ContentBlock>> for UserInput {
    fn from(blocks: Vec<ContentBlock>) -> (r: UserInput) {
        UserInput::Blocks(blocks)
    }
}

impl FromSpecImpl<Vec<ContentBlock>> for UserInput {
    open spec fn obeys_from_spec() -> bool {
        true
    }

    open spec fn from_spec(blocks: Vec<ContentBlock>) -> UserInput {
        UserInput::Blocks(blocks)
    }
}

/// A request to run an agent.
#[derive(Debug, PartialEq)]
pub struct RunRequest {
    pub input: UserInput,
    pub options: Option<ModelOptions>,
    pub metadata: RunMetadata,
}

impl RunRequest {
    pub fn text(input: &str) -> (r: RunRequest)
        ensures
            r.input matches UserInput::Text(s) && s@ == input@,
            r.options is None,
            r.metadata@ == Map::<Seq<char>, JsonView>::empty(),
    {
        RunRequest { input: UserInput::text(input), options: None, metadata: JsonMap::new() }
    }

    pub fn blocks(blocks: Vec<ContentBlock>) -> (r: RunRequest)
        ensures
            r.input == UserInput::Blocks(blocks),
            r.options is None,
            r.metadata@ == Map::<Seq<char>, JsonView>::empty(),
    {
        RunRequest { input: UserInput::blocks(blocks), options: None, metadata: JsonMap::new() }
    }

    /// A request with this input and nothing else.
    pub fn from_input(input: UserInput) -> (r: RunRequest)
        ensures
            r.input == input,
            r.options is None,
            r.metadata@ == Map::<Seq<char>, JsonView>::empty(),
    {
        RunRequest { input, options: None, metadata: JsonMap::new() }
    }

    pub fn with_options(self, options: ModelOptions) -> (r: RunRequest)
        ensures
            r == (RunRequest { options: Some(options), ..self }),
    {
        RunRequest { input: self.input, options: Some(options), metadata: self.metadata }
    }

    pub fn with_metadata(self, metadata: RunMetadata) -> (r: RunRequest)
        ensures
            r == (RunRequest { metadata, ..self }),
    {
        RunRequest { input: self.input, options: self.options, metadata }
    }
}

impl From<String> for RunRequest {
    fn from(input: String) -> (r: RunRequest)
        ensures
            r.input == UserInput::Text(input),
            r.options is None,
            r.metadata@ == Map::<Seq<char>, JsonView>::empty(),
    {
        RunRequest::from_input(UserInput::Text(input))
    }
}

impl FromSpecImpl<String> for RunRequest {
    open spec fn obeys_from_spec() -> bool {
        false
    }

    open spec fn from_spec(input: String) -> RunRequest {
        arbitrary()
    }
}

impl From<&str> for RunRequest {
    fn from(input: &str) -> (r: RunRequest)
        ensures
            r.input matches UserInput::Text(s) && s@ == input@,
            r.options is None,
            r.metadata@ == Map::<Seq<char>, JsonView>::empty(),
    {
        RunRequest::text(input)
    }
}

impl FromSpecImpl<&str> for RunRequest {
    open spec fn obeys_from_spec() -> bool {
        false
    }

    open spec fn from_spec(input: &str) -> RunRequest {
        arbitrary()
    }
}

impl From<UserInput> for RunRequest {
    fn from(input: UserInput) -> (r: RunRequest)
        ensures
            r.input == input,
            r.options is None,
            r.metadata@ == Map::<Seq<char>, JsonView>::empty(),
    {
        RunRequest::from_input(input)
    }
}

impl FromSpecImpl<UserInput> for RunRequest {
    open spec fn obeys_from_spec() -> bool {
        false
    }

    open spec fn from_spec(input: UserInput) -> RunRequest {
        arbitrary()
    }
}

/// The limits of one run.
#[derive(Debug, PartialEq)]
pub struct RunContext {
    pub run_id: String,
    /// The token by which the run is cancelled, by whoever holds it.
    pub cancellation: CancellationToken,
    pub deadline: Option<Moment>,
    pub metadata: RunMetadata,
}

/// The id of the `n`-th run of a process that started at `start_nanos`.
pub open spec fn run_id(start_nanos: nat, n: nat) -> Seq<char> {
    "run-"@ + decimal(start_nanos) + "-"@ + decimal(n)
}

/// Builds the id of a run from the process's start and a running number.
pub fn generated_run_id(start_nanos: u128, n: u64) -> (r: String)
    ensures
        r@ == run_id(start_nanos as nat, n as nat),
{
    let mut id = concat3("run-", decimal_of(start_nanos).as_str(), "-");
    id.append(decimal_of(n as u128).as_str());
    id
}

/// Two runs of one process have different ids.
pub proof fn law_run_ids_are_unique(start_nanos: nat, a: nat, b: nat)
    requires
        a != b,
    ensures
        run_id(start_nanos, a) != run_id(start_nanos, b),
{
    let head = "run-"@ + decimal(start_nanos) + "-"@;
    let x = run_id(start_nanos, a);
    let y = run_id(start_nanos, b);
    if x == y {
        assert(x.skip(head.len() as int) =~= decimal(a));
        assert(y.skip(head.len() as int) =~= decimal(b));
        lemma_decimal_value(a);
        lemma_decimal_value(b);
    }
}

/// Whether a deadline has come.
pub open spec fn expired(deadline: Option<Moment>, now: Moment) -> bool {
    deadline matches Some(d) && now.nanos >= d.nanos
}

/// The time before a deadline; none once it has come.
pub open spec fn time_left(deadline: Option<Moment>, now: Moment) -> Option<Span> {
    match deadline {
        Some(d) => Some(
            Span {
                nanos: if d.nanos >= now.nanos {
                    (d.nanos - now.nanos) as u128
                } else {
                    0
                },
            },
        ),
        None => None,
    }
}

/// A run with a deadline has time left exactly until the deadline comes, and a
/// run without one never expires.
pub proof fn law_no_time_is_left_after_the_deadline(deadline: Option<Moment>, now: Moment)
    ensures
        expired(deadline, now) <==> time_left(deadline, now) == Some(Span { nanos: 0 }),
        deadline is None ==> !expired(deadline, now) && time_left(deadline, now) is None,
{
}

impl Clone for RunContext {
    /// The same run: its token is the same one.
    fn clone(&self) -> (r: RunContext)
        ensures
            r.run_id@ == self.run_id@,
            r.cancellation == self.cancellation,
            r.deadline == self.deadline,
            r.metadata@ == self.metadata@,
    {
        RunContext {
            run_id: self.run_id.clone(),
            cancellation: clone_token(&self.cancellation),
            deadline: self.deadline,
            metadata: self.metadata.clone(),
        }
    }
}

impl RunContext {
    /// A run without deadline or metadata.
    pub fn new(run_id: &str) -> (r: RunContext)
        ensures
            r.run_id@ == run_id@,
            r.deadline is None,
            r.metadata@ == Map::<Seq<char>, JsonView>::empty(),
    {
        RunContext {
            run_id: run_id.to_owned(),
            cancellation: new_token(),
            deadline: None,
            metadata: JsonMap::new(),
        }
    }

    /// The `n`-th run of a process that started at `start_nanos`.
    pub fn generated(start_nanos: u128, n: u64) -> (r: RunContext)
        ensures
            r.run_id@ == run_id(start_nanos as nat, n as nat),
            r.deadline is None,
            r.metadata@ == Map::<Seq<char>, JsonView>::empty(),
    {
        RunContext::new(generated_run_id(start_nanos, n).as_str())
    }

    /// The run with another token.
    pub fn with_cancellation(self, token: CancellationToken) -> (r: RunContext)
        ensures
            r == (RunContext { cancellation: token, ..self }),
    {
        let mut r = self;
        r.cancellation = token;
        r
    }

    pub fn with_deadline(self, deadline: Moment) -> (r: RunContext)
        ensures
            r == (RunContext { deadline: Some(deadline), ..self }),
    {
        let mut r = self;
        r.deadline = Some(deadline);
        r
    }

    /// A deadline `timeout` after `now`.
    pub fn with_timeout(self, now: Moment, timeout: Span) -> (r: RunContext)
        requires
            now.nanos + timeout.nanos <= u128::MAX,
        ensures
            r == (RunContext {
                deadline: Some(Moment { nanos: (now.nanos + timeout.nanos) as u128 }),
                ..self
            }),
    {
        self.with_deadline(now.after(timeout))
    }

    pub fn with_metadata(self, metadata: RunMetadata) -> (r: RunContext)
        ensures
            r == (RunContext { metadata, ..self }),
    {
        let mut r = self;
        r.metadata = metadata;
        r
    }

    /// Whether the run is cancelled by now. The token is asked each time, so
    /// the answer depends on what its other holders did until then.
    pub fn is_cancelled(&self) -> (r: bool) {
        token_cancelled(&self.cancellation)
    }

    /// Whether the deadline has come.
    pub fn is_expired(&self, now: Moment) -> (r: bool)
        ensures
            r == expired(self.deadline, now),
    {
        match self.deadline {
            Some(deadline) => now.nanos >= deadline.nanos,
            None => false,
        }
    }

    /// The time that is left, when there is a deadline.
    pub fn remaining(&self, now: Moment) -> (r: Option<Span>)
        ensures
            r == time_left(self.deadline, now),
    {
        match self.deadline {
            Some(deadline) => Some(deadline.since(now)),
            None => None,
        }
    }
}

/// Something that a run produced besides its answer.
#[derive(Debug, PartialEq)]
pub struct Artifact {
    pub id: String,
    pub label: Option<String>,
    pub mime_type: Option<String>,
    pub uri: Option<String>,
    pub metadata: RunMetadata,
}

pub struct ArtifactView {
    pub id: Seq<char>,
    pub label: Option<Seq<char>>,
    pub mime_type: Option<Seq<char>>,
    pub uri: Option<Seq<char>>,
    pub metadata: Map<Seq<char>, JsonView>,
}

impl View for Artifact {
    type V = ArtifactView;

    open spec fn view(&self) -> ArtifactView {
        ArtifactView {
            id: self.id@,
            label: opt_view(self.label),
            mime_type: opt_view(self.mime_type),
            uri: opt_view(self.uri),
            metadata: self.metadata@,
        }
    }
}

pub open spec fn artifact_views(artifacts: Seq<Artifact>) -> Seq<ArtifactView> {
    artifacts.map_values(|a: Artifact| a@)
}

/// The figures of a run.
#[derive(Debug, PartialEq, Eq)]
pub struct RunSummary {
    pub rounds: usize,
    pub tool_calls: usize,
    pub usage: Usage,
    pub finish_reason: Option<FinishReason>,
    pub latency: Span,
    pub provider_model: Option<String>,
}

impl Default for RunSummary {
    fn default() -> (r: RunSummary)
        ensures
            r == (RunSummary {
                rounds: 0,
                tool_calls: 0,
                usage: Usage { prompt_tokens: 0, completion_tokens: 0, total_tokens: 0 },
                finish_reason: None,
                latency: Span { nanos: 0 },
                provider_model: None,
            }),
    {
        RunSummary {
            rounds: 0,
            tool_calls: 0,
            usage: Usage::default(),
            finish_reason: None,
            latency: Span { nanos: 0 },
            provider_model: None,
        }
    }
}

/// What a run returns.
#[derive(Debug, PartialEq)]
pub struct RunOutput {
    pub run_id: String,
    pub answer: String,
    pub summary: RunSummary,
    pub final_message: Message,
    pub artifacts: Vec<Artifact>,
    pub metadata: RunMetadata,
}

/// A run's output with its answer decoded.
#[derive(Debug, PartialEq)]
pub struct TypedRunOutput<T> {
    pub value: T,
    pub output: RunOutput,
}

/// What a user says becomes a message of that user, word for word.
pub proof fn law_input_becomes_a_message(input: UserInput, message: Message)
    requires
        call_ensures(UserInput::into_message, (input,), message),
    ensures
        match input {
            UserInput::Text(text) => message@ == MessageView::User(
                seq![crate::message::BlockView::Text(text@)],
            ),
            UserInput::Blocks(blocks) => message@ == MessageView::User(block_views(blocks@)),
        },
{
}

/// A run with a time limit expires exactly when that time has passed, and until
/// then has the rest of it left.
pub proof fn law_time_limits_run_out(
    run: RunContext,
    start: Moment,
    limit: Span,
    now: Moment,
    limited: RunContext,
    over: bool,
    left: Option<Span>,
)
    requires
        start.nanos + limit.nanos <= u128::MAX,
        call_ensures(RunContext::with_timeout, (run, start, limit), limited),
        call_ensures(RunContext::is_expired, (&limited, now), over),
        call_ensures(RunContext::remaining, (&limited, now), left),
    ensures
        over <==> now.nanos >= start.nanos + limit.nanos,
        left matches Some(rest) && rest.nanos == if over {
            0
        } else {
            start.nanos + limit.nanos - now.nanos
        },
        limited.run_id == run.run_id && limited.metadata == run.metadata && limited.cancellation
            == run.cancellation,
{
}

} // verus!
