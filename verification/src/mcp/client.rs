//! Connecting to a server and listing its tools.

use vstd::prelude::*;

use super::content::McpDirectTool;
use super::payload::{EffectToolView, McpEffectTool};
use super::{
    described, descriptor_from_tool, descriptor_views, info_views, McpError, McpErrorView,
    McpServerId, McpToolCatalog, McpToolDescriptor, McpToolInfo, McpToolInfoView,
};
use crate::effect::RiskLevel;
use crate::json::{JsonMap, JsonView};
use crate::text::{concat, concat3, decimal, decimal_of, views};
use crate::time::{Moment, Span};

verus! {

/// The most tools that are taken from one server.
pub const MAX_MCP_TOOLS: usize = 512;

/// How a server is reached.
#[derive(Debug, PartialEq, Eq)]
pub enum ConnSpec {
    /// A child process that can be started again.
    Args { program: String, args: Vec<String> },
    /// A child process that the host has prepared; it can be started once.
    Command,
    /// A prepared child process that was already started.
    Consumed,
    /// An HTTP endpoint.
    Url(String),
}

pub enum ConnView {
    Args { program: Seq<char>, args: Seq<Seq<char>> },
    Command,
    Consumed,
    Url(Seq<char>),
}

impl View for ConnSpec {
    type V = ConnView;

    open spec fn view(&self) -> ConnView {
        match *self {
            ConnSpec::Args { program, args } => ConnView::Args {
                program: program@,
                args: views(args@),
            },
            ConnSpec::Command => ConnView::Command,
            ConnSpec::Consumed => ConnView::Consumed,
            ConnSpec::Url(url) => ConnView::Url(url@),
        }
    }
}

/// A server that is to be connected to when its tools are first needed.
#[derive(Debug, PartialEq, Eq)]
pub struct McpClient {
    server_name: String,
    spec: ConnSpec,
    prefix: bool,
    connected: bool,
    connect_timeout: Span,
    list_timeout: Span,
    call_timeout: Span,
}

pub struct ClientView {
    pub server_name: Seq<char>,
    pub spec: ConnView,
    pub prefix: bool,
    pub connected: bool,
    pub connect_timeout: Span,
    pub list_timeout: Span,
    pub call_timeout: Span,
}

impl View for McpClient {
    type V = ClientView;

    closed spec fn view(&self) -> ClientView {
        ClientView {
            server_name: self.server_name@,
            spec: self.spec@,
            prefix: self.prefix,
            connected: self.connected,
            connect_timeout: self.connect_timeout,
            list_timeout: self.list_timeout,
            call_timeout: self.call_timeout,
        }
    }
}

/// What has to be done to connect.
#[derive(Debug, PartialEq, Eq)]
pub enum ConnectStep {
    /// Nothing: the connection is there.
    Connected,
    /// Start this program and shake hands.
    Spawn { program: String, args: Vec<String> },
    /// Start the prepared process and shake hands.
    SpawnPrepared,
    /// Shake hands with this endpoint.
    Dial { url: String },
    /// Give up.
    Fail(McpError),
}

/// How an attempt to connect ended.
#[derive(Debug, PartialEq, Eq)]
pub enum ConnectOutcome {
    Connected,
    /// The program could not be started.
    SpawnFailed(String),
    /// The prepared process, of this program, could not be started.
    PreparedFailed { program: String, cause: String },
    /// The handshake failed.
    Refused(String),
    TimedOut,
}

/// The error of an attempt that failed.
pub open spec fn connect_fault(outcome: ConnectOutcome) -> Option<Seq<char>> {
    match outcome {
        ConnectOutcome::Connected => None,
        ConnectOutcome::SpawnFailed(cause) => Some("spawn failed: "@ + cause@),
        ConnectOutcome::PreparedFailed { program, cause } => Some(
            "spawn "@ + program@ + ": "@ + cause@,
        ),
        ConnectOutcome::Refused(cause) => Some(cause@),
        ConnectOutcome::TimedOut => Some("connect timed out"@),
    }
}

/// The error of a prepared process that was started before.
pub open spec fn consumed_error(server: Seq<char>) -> McpErrorView {
    McpErrorView::Connect {
        server,
        message: "stdio command already consumed; create a new McpClient to reconnect"@,
    }
}

/// What is left of a way to connect once it is taken: a prepared process can
/// be started only once, every other way again and again.
pub open spec fn after_use(spec: ConnView) -> ConnView {
    match spec {
        ConnView::Command => ConnView::Consumed,
        other => other,
    }
}

/// How listing a server's tools ended.
#[derive(Debug, PartialEq)]
pub enum ListOutcome {
    Listed(Vec<McpToolInfo>),
    Failed(String),
    TimedOut,
    /// There is no connection to ask.
    NotConnected,
}

/// What is wrong with a list of tools, if anything.
pub open spec fn list_fault(outcome: ListOutcome) -> Option<Seq<char>> {
    match outcome {
        ListOutcome::Listed(tools) => if tools@.len() > MAX_MCP_TOOLS {
            Some("server exposes too many tools ("@ + decimal(tools@.len()) + " > 512)"@)
        } else {
            None
        },
        ListOutcome::Failed(cause) => Some(cause@),
        ListOutcome::TimedOut => Some("list tools timed out"@),
        ListOutcome::NotConnected => Some("no active connection"@),
    }
}

impl McpClient {
    fn with_spec(server_name: &str, spec: ConnSpec) -> (r: McpClient)
        ensures
            r@ == (ClientView {
                server_name: server_name@,
                spec: spec@,
                prefix: true,
                connected: false,
                connect_timeout: Span { nanos: 10_000_000_000 },
                list_timeout: Span { nanos: 10_000_000_000 },
                call_timeout: Span { nanos: 60_000_000_000 },
            }),
    {
        McpClient {
            server_name: server_name.to_owned(),
            spec,
            prefix: true,
            connected: false,
            connect_timeout: Span::from_secs(10),
            list_timeout: Span::from_secs(10),
            call_timeout: Span::from_secs(60),
        }
    }

    /// A server that runs as a child process. Connecting and listing may take
    /// 10 seconds each, a call 60; names carry the server's name.
    pub fn from_command(server_name: &str, program: &str, args: Vec<String>) -> (r: McpClient)
        ensures
            r@ == (ClientView {
                server_name: server_name@,
                spec: ConnView::Args { program: program@, args: views(args@) },
                prefix: true,
                connected: false,
                connect_timeout: Span { nanos: 10_000_000_000 },
                list_timeout: Span { nanos: 10_000_000_000 },
                call_timeout: Span { nanos: 60_000_000_000 },
            }),
    {
        McpClient::with_spec(server_name, ConnSpec::Args { program: program.to_owned(), args })
    }

    /// A server that runs as a child process which the host has prepared.
    pub fn from_command_configured(server_name: &str) -> (r: McpClient)
        ensures
            r@ == (ClientView {
                server_name: server_name@,
                spec: ConnView::Command,
                prefix: true,
                connected: false,
                connect_timeout: Span { nanos: 10_000_000_000 },
                list_timeout: Span { nanos: 10_000_000_000 },
                call_timeout: Span { nanos: 60_000_000_000 },
            }),
    {
        McpClient::with_spec(server_name, ConnSpec::Command)
    }

    /// A server behind an HTTP endpoint.
    pub fn from_url(server_name: &str, url: &str) -> (r: McpClient)
        ensures
            r@ == (ClientView {
                server_name: server_name@,
                spec: ConnView::Url(url@),
                prefix: true,
                connected: false,
                connect_timeout: Span { nanos: 10_000_000_000 },
                list_timeout: Span { nanos: 10_000_000_000 },
                call_timeout: Span { nanos: 60_000_000_000 },
            }),
    {
        McpClient::with_spec(server_name, ConnSpec::Url(url.to_owned()))
    }

    /// Whether the names of tools carry the server's name, from now on.
    pub fn with_name_prefix(&mut self, enabled: bool) -> (r: &mut Self)
        ensures
            r@ == (ClientView { prefix: enabled, ..old(self)@ }),
            *final(self) == *final(r),
    {
        self.prefix = enabled;
        self
    }

    pub fn with_connect_timeout(&mut self, timeout: Span) -> (r: &mut Self)
        ensures
            r@ == (ClientView { connect_timeout: timeout, ..old(self)@ }),
            *final(self) == *final(r),
    {
        self.connect_timeout = timeout;
        self
    }

    pub fn with_list_timeout(&mut self, timeout: Span) -> (r: &mut Self)
        ensures
            r@ == (ClientView { list_timeout: timeout, ..old(self)@ }),
            *final(self) == *final(r),
    {
        self.list_timeout = timeout;
        self
    }

    pub fn with_call_timeout(&mut self, timeout: Span) -> (r: &mut Self)
        ensures
            r@ == (ClientView { call_timeout: timeout, ..old(self)@ }),
            *final(self) == *final(r),
    {
        self.call_timeout = timeout;
        self
    }

    pub fn server_name(&self) -> (r: &str)
        ensures
            r@ == self@.server_name,
    {
        self.server_name.as_str()
    }

    pub fn connect_timeout(&self) -> (r: Span)
        ensures
            r == self@.connect_timeout,
    {
        self.connect_timeout
    }

    pub fn list_timeout(&self) -> (r: Span)
        ensures
            r == self@.list_timeout,
    {
        self.list_timeout
    }

    pub fn call_timeout(&self) -> (r: Span)
        ensures
            r == self@.call_timeout,
    {
        self.call_timeout
    }

    fn connect_error(&self, message: &str) -> (r: McpError)
        ensures
            r@ == (McpErrorView::Connect { server: self@.server_name, message: message@ }),
    {
        McpError::Connect { server: self.server_name.clone(), message: message.to_owned() }
    }

    /// The next step towards a connection. A prepared process is taken by it.
    pub fn connect(&mut self) -> (step: ConnectStep)
        ensures
            old(self)@.connected ==> step == ConnectStep::Connected && final(self)@ == old(self)@,
            !old(self)@.connected ==> final(self)@ == (ClientView {
                spec: after_use(old(self)@.spec),
                ..old(self)@
            }) && match old(self)@.spec {
                ConnView::Args { program, args } => step matches ConnectStep::Spawn {
                    program: p,
                    args: a,
                } && p@ == program && views(a@) == args,
                ConnView::Command => step == ConnectStep::SpawnPrepared,
                ConnView::Consumed => step matches ConnectStep::Fail(e) && e@ == consumed_error(
                    old(self)@.server_name,
                ),
                ConnView::Url(url) => step matches ConnectStep::Dial { url: u } && u@ == url,
            },
    {
        if self.connected {
            return ConnectStep::Connected;
        }
        let step = match &self.spec {
            ConnSpec::Args { program, args } => {
                let copy = args.clone();
                assert(views(copy@) =~= views(args@));
                ConnectStep::Spawn { program: program.clone(), args: copy }
            },
            ConnSpec::Command => ConnectStep::SpawnPrepared,
            ConnSpec::Consumed => ConnectStep::Fail(
                self.connect_error(
                    "stdio command already consumed; create a new McpClient to reconnect",
                ),
            ),
            ConnSpec::Url(url) => ConnectStep::Dial { url: url.clone() },
        };
        if let ConnectStep::SpawnPrepared = &step {
            self.spec = ConnSpec::Consumed;
        }
        step
    }

    /// Takes the outcome of the attempt that `connect` asked for.
    pub fn finish_connect(&mut self, outcome: ConnectOutcome) -> (r: Result<(), McpError>)
        ensures
            match connect_fault(outcome) {
                None => r is Ok && final(self)@ == (ClientView { connected: true, ..old(self)@ }),
                Some(message) => final(self)@ == old(self)@ && (r matches Err(e) && e@ == (
                McpErrorView::Connect { server: old(self)@.server_name, message })),
            },
    {
        match outcome {
            ConnectOutcome::Connected => {
                self.connected = true;
                Ok(())
            },
            ConnectOutcome::SpawnFailed(cause) => Err(
                self.connect_error(concat("spawn failed: ", cause.as_str()).as_str()),
            ),
            ConnectOutcome::PreparedFailed { program, cause } => {
                let head = concat3("spawn ", program.as_str(), ": ");
                Err(self.connect_error(concat(head.as_str(), cause.as_str()).as_str()))
            },
            ConnectOutcome::Refused(cause) => Err(self.connect_error(cause.as_str())),
            ConnectOutcome::TimedOut => Err(self.connect_error("connect timed out")),
        }
    }

    /// Lets the connection go.
    pub fn cleanup(&mut self)
        ensures
            final(self)@ == (ClientView { connected: false, ..old(self)@ }),
    {
        self.connected = false;
    }

    /// The listed tools, unless listing failed or there are too many.
    pub fn list_tools_raw(&self, outcome: ListOutcome) -> (r: Result<Vec<McpToolInfo>, McpError>)
        ensures
            match list_fault(outcome) {
                None => outcome matches ListOutcome::Listed(tools) && r == Ok::<
                    Vec<McpToolInfo>,
                    McpError,
                >(tools),
                Some(message) => r matches Err(e) && e@ == (McpErrorView::ListTools {
                    server: self@.server_name,
                    message,
                }),
            },
    {
        let server = self.server_name.clone();
        match outcome {
            ListOutcome::Listed(tools) => {
                if tools.len() > MAX_MCP_TOOLS {
                    let message = concat3(
                        "server exposes too many tools (",
                        decimal_of(tools.len() as u128).as_str(),
                        " > 512)",
                    );
                    return Err(McpError::ListTools { server, message });
                }
                Ok(tools)
            },
            ListOutcome::Failed(message) => Err(McpError::ListTools { server, message }),
            ListOutcome::TimedOut => Err(
                McpError::ListTools { server, message: "list tools timed out".to_owned() },
            ),
            ListOutcome::NotConnected => Err(
                McpError::ListTools { server, message: "no active connection".to_owned() },
            ),
        }
    }

    /// The catalog of a server: its tools described, in the server's order.
    pub fn tool_catalog(&self, outcome: ListOutcome, now: Moment) -> (r: Result<
        McpToolCatalog,
        McpError,
    >)
        ensures
            match list_fault(outcome) {
                None => outcome matches ListOutcome::Listed(tools) && (r matches Ok(catalog)
                    && catalog.server@ == self@.server_name && catalog.fetched_at == now
                    && catalog.expires_at is None && catalog.metadata@ == Map::<
                    Seq<char>,
                    JsonView,
                >::empty() && descriptor_views(catalog.tools@) == info_views(
                    tools@,
                ).map_values(
                    |t: McpToolInfoView| described(self@.server_name, t, self@.prefix),
                )),
                Some(message) => r matches Err(e) && e@ == (McpErrorView::ListTools {
                    server: self@.server_name,
                    message,
                }),
            },
    {
        let ghost listed = outcome->Listed_0@;
        let tools = match self.list_tools_raw(outcome) {
            Ok(tools) => tools,
            Err(e) => {
                return Err(e);
            },
        };
        let ghost name = self@.server_name;
        let ghost prefix = self@.prefix;
        let ghost all = info_views(listed).map_values(
            |t: McpToolInfoView| described(name, t, prefix),
        );
        let mut out: Vec<McpToolDescriptor> = Vec::new();
        let mut rest = tools;
        let mut i: Ghost<int> = Ghost(0);
        assert(listed.skip(0) =~= listed);
        assert(all.take(0) =~= Seq::empty());
        assert(descriptor_views(out@) =~= Seq::empty());
        while rest.len() > 0
            invariant
                0 <= i@ <= listed.len(),
                rest@ == listed.skip(i@),
                name == self@.server_name,
                prefix == self@.prefix,
                all == info_views(listed).map_values(
                    |t: McpToolInfoView| described(name, t, prefix),
                ),
                descriptor_views(out@) == all.take(i@),
            decreases rest@.len(),
        {
            let ghost before = out@;
            let tool = rest.remove(0);
            assert(tool == listed[i@]);
            let descriptor = descriptor_from_tool(self.server_name.as_str(), tool, self.prefix);
            out.push(descriptor);
            assert(descriptor_views(out@) =~= descriptor_views(before).push(descriptor@));
            assert(info_views(listed)[i@] == tool@);
            assert(all[i@] == descriptor@);
            assert(all.take(i@ + 1) =~= all.take(i@).push(descriptor@));
            proof {
                i@ = i@ + 1;
            }
            assert(rest@ =~= listed.skip(i@));
        }
        assert(all.take(i@) =~= all);
        Ok(
            McpToolCatalog {
                server: McpServerId::new(self.server_name.as_str()),
                tools: out,
                fetched_at: now,
                expires_at: None,
                metadata: JsonMap::new(),
            },
        )
    }

    /// The server's tools, which call it themselves, in the server's order.
    pub fn tools(&self, outcome: ListOutcome, now: Moment) -> (r: Result<
        Vec<McpDirectTool>,
        McpError,
    >)
        ensures
            match list_fault(outcome) {
                None => outcome matches ListOutcome::Listed(listed) && (r matches Ok(tools)
                    && tools@.len() == listed@.len() && forall|i: int|
                    0 <= i < tools@.len() ==> (#[trigger] tools@[i]).descriptor() == described(
                        self@.server_name,
                        listed@[i]@,
                        self@.prefix,
                    ) && tools@[i].limit() == self@.call_timeout),
                Some(message) => r matches Err(e) && e@ == (McpErrorView::ListTools {
                    server: self@.server_name,
                    message,
                }),
            },
    {
        let ghost listed = outcome->Listed_0@;
        match self.tool_catalog(outcome, now) {
            Ok(catalog) => {
                proof {
                    lemma_described(catalog.tools@, listed, self@.server_name, self@.prefix);
                }
                Ok(direct_tools(catalog, self.call_timeout))
            },
            Err(e) => Err(e),
        }
    }

    /// The server's tools, which ask a harness to call it, in the server's
    /// order.
    pub fn effect_tools(&self, outcome: ListOutcome, now: Moment) -> (r: Result<
        Vec<McpEffectTool>,
        McpError,
    >)
        ensures
            match list_fault(outcome) {
                None => outcome matches ListOutcome::Listed(listed) && (r matches Ok(tools)
                    && tools@.len() == listed@.len() && forall|i: int|
                    0 <= i < tools@.len() ==> (#[trigger] tools@[i])@ == (EffectToolView {
                        descriptor: described(self@.server_name, listed@[i]@, self@.prefix),
                        risk: RiskLevel::Medium,
                        timeout: None,
                    })),
                Some(message) => r matches Err(e) && e@ == (McpErrorView::ListTools {
                    server: self@.server_name,
                    message,
                }),
            },
    {
        let ghost listed = outcome->Listed_0@;
        match self.tool_catalog(outcome, now) {
            Ok(catalog) => {
                proof {
                    lemma_described(catalog.tools@, listed, self@.server_name, self@.prefix);
                }
                Ok(governed_tools(catalog))
            },
            Err(e) => Err(e),
        }
    }
}

proof fn lemma_described(
    tools: Seq<McpToolDescriptor>,
    listed: Seq<McpToolInfo>,
    server: Seq<char>,
    prefix: bool,
)
    requires
        descriptor_views(tools) == info_views(listed).map_values(
            |t: McpToolInfoView| described(server, t, prefix),
        ),
    ensures
        tools.len() == listed.len(),
        forall|i: int|
            0 <= i < tools.len() ==> (#[trigger] tools[i])@ == described(
                server,
                listed[i]@,
                prefix,
            ),
{
    assert(descriptor_views(tools).len() == tools.len());
    assert forall|i: int| 0 <= i < tools.len() implies (#[trigger] tools[i])@ == described(
        server,
        listed[i]@,
        prefix,
    ) by {
        assert(descriptor_views(tools)[i] == tools[i]@);
        assert(info_views(listed)[i] == listed[i]@);
    }
}

/// The tools of a catalog that call the server themselves, in the catalog's
/// order.
fn direct_tools(catalog: McpToolCatalog, call_timeout: Span) -> (r: Vec<McpDirectTool>)
    ensures
        r@.len() == catalog.tools@.len(),
        forall|i: int|
            0 <= i < r@.len() ==> (#[trigger] r@[i]).descriptor() == catalog.tools@[i]@
                && r@[i].limit() == call_timeout,
{
    let mut out: Vec<McpDirectTool> = Vec::new();
    let mut i: usize = 0;
    while i < catalog.tools.len()
        invariant
            i <= catalog.tools@.len(),
            out@.len() == i,
            forall|j: int|
                0 <= j < i ==> (#[trigger] out@[j]).descriptor() == catalog.tools@[j]@
                    && out@[j].limit() == call_timeout,
        decreases catalog.tools@.len() - i,
    {
        out.push(McpDirectTool::new(catalog.tools[i].clone(), call_timeout));
        i = i + 1;
    }
    out
}

/// The tools of a catalog that ask a harness to call the server, in the
/// catalog's order.
fn governed_tools(catalog: McpToolCatalog) -> (r: Vec<McpEffectTool>)
    ensures
        r@.len() == catalog.tools@.len(),
        forall|i: int|
            0 <= i < r@.len() ==> (#[trigger] r@[i])@ == (EffectToolView {
                descriptor: catalog.tools@[i]@,
                risk: RiskLevel::Medium,
                timeout: None,
            }),
{
    let mut out: Vec<McpEffectTool> = Vec::new();
    let mut i: usize = 0;
    while i < catalog.tools.len()
        invariant
            i <= catalog.tools@.len(),
            out@.len() == i,
            forall|j: int|
                0 <= j < i ==> (#[trigger] out@[j])@ == (EffectToolView {
                    descriptor: catalog.tools@[j]@,
                    risk: RiskLevel::Medium,
                    timeout: None,
                }),
        decreases catalog.tools@.len() - i,
    {
        out.push(McpEffectTool::new(catalog.tools[i].clone()));
        i = i + 1;
    }
    out
}

/// A server that is started from a program or dialled can be connected to
/// again, after a failure or after the connection was let go; a prepared
/// process cannot.
pub proof fn law_reconnecting(spec: ConnView)
    ensures
        spec is Args || spec is Url ==> after_use(spec) == spec,
        spec is Command ==> after_use(spec) is Consumed,
        after_use(after_use(spec)) == after_use(spec),
{
}

} // verus!
