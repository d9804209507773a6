//! Which calls on which servers may go ahead.

use vstd::prelude::*;

use super::payload::{effect_payload, McpCallPayload, PayloadView};
use super::{McpErrorView, McpServerId};
use crate::effect::{EffectKind, EffectRequest, EffectRequestView, RiskLevel};
use crate::json::JsonMap;
use crate::text::{concat, concat3, contains_text, str_eq, views};
use crate::tool::ToolTrustLevel;

verus! {

/// How risky a level is, in order.
pub open spec fn rank(risk: RiskLevel) -> int {
    match risk {
        RiskLevel::Low => 0,
        RiskLevel::Medium => 1,
        RiskLevel::High => 2,
        RiskLevel::Critical => 3,
    }
}

/// How risky a level is, in order.
pub fn risk_rank(risk: RiskLevel) -> (r: u8)
    ensures
        r == rank(risk),
{
    match risk {
        RiskLevel::Low => 0,
        RiskLevel::Medium => 1,
        RiskLevel::High => 2,
        RiskLevel::Critical => 3,
    }
}

/// Whether a server may use the network.
#[derive(Debug, Clone, Copy, PartialEq, Eq, Structural)]
pub enum NetworkPolicy {
    Deny,
    Allow,
}

/// What a server may do to files.
#[derive(Debug, Clone, Copy, PartialEq, Eq, Structural)]
pub enum SandboxPolicy {
    ReadOnly,
    WorkspaceWrite,
}

/// The policy for one server.
#[derive(Debug, PartialEq, Eq)]
pub struct McpServerPolicy {
    pub server_id: McpServerId,
    pub trust: ToolTrustLevel,
    /// The tools that may be called, by their names on the server; all of them
    /// where there is no list.
    pub allowed_tools: Option<Vec<String>>,
    /// The tools that may not be called.
    pub denied_tools: Vec<String>,
    /// The least risk that a call on this server carries.
    pub default_risk: RiskLevel,
    /// Whether every call needs approval.
    pub require_approval: bool,
    pub network: NetworkPolicy,
    pub sandbox: SandboxPolicy,
}

pub struct PolicyView {
    pub server_id: Seq<char>,
    pub trust: ToolTrustLevel,
    pub allowed_tools: Option<Seq<Seq<char>>>,
    pub denied_tools: Seq<Seq<char>>,
    pub default_risk: RiskLevel,
    pub require_approval: bool,
    pub network: NetworkPolicy,
    pub sandbox: SandboxPolicy,
}

impl View for McpServerPolicy {
    type V = PolicyView;

    open spec fn view(&self) -> PolicyView {
        PolicyView {
            server_id: self.server_id@,
            trust: self.trust,
            allowed_tools: match self.allowed_tools {
                Some(tools) => Some(views(tools@)),
                None => None,
            },
            denied_tools: views(self.denied_tools@),
            default_risk: self.default_risk,
            require_approval: self.require_approval,
            network: self.network,
            sandbox: self.sandbox,
        }
    }
}

impl PolicyView {
    /// All tools of the server, each call with approval.
    pub open spec fn approving(server_id: Seq<char>) -> PolicyView {
        PolicyView {
            server_id,
            trust: ToolTrustLevel::External,
            allowed_tools: None,
            denied_tools: Seq::empty(),
            default_risk: RiskLevel::Medium,
            require_approval: true,
            network: NetworkPolicy::Deny,
            sandbox: SandboxPolicy::ReadOnly,
        }
    }

    /// No tool of the server.
    pub open spec fn denying(server_id: Seq<char>) -> PolicyView {
        PolicyView { allowed_tools: Some(Seq::empty()), ..PolicyView::approving(server_id) }
    }

    /// Whether the tool may be called at all.
    pub open spec fn admits(self, tool: Seq<char>) -> bool {
        !self.denied_tools.contains(tool) && match self.allowed_tools {
            Some(tools) => tools.contains(tool),
            None => true,
        }
    }

    /// Whether a call of this risk needs approval: every call where the policy
    /// says so, and every call of high risk. A call is at least as risky as
    /// the server.
    pub open spec fn holds_back(self, risk: RiskLevel) -> bool {
        self.require_approval || rank(risk) >= rank(RiskLevel::High) || rank(self.default_risk)
            >= rank(RiskLevel::High)
    }
}

impl McpServerPolicy {
    /// All tools of the server, each call with approval.
    pub fn requiring_approval(server_id: &str) -> (r: McpServerPolicy)
        ensures
            r@ == PolicyView::approving(server_id@),
    {
        let denied_tools: Vec<String> = Vec::new();
        assert(views(denied_tools@) =~= Seq::empty());
        McpServerPolicy {
            server_id: McpServerId::new(server_id),
            trust: ToolTrustLevel::External,
            allowed_tools: None,
            denied_tools,
            default_risk: RiskLevel::Medium,
            require_approval: true,
            network: NetworkPolicy::Deny,
            sandbox: SandboxPolicy::ReadOnly,
        }
    }

    /// No tool of the server.
    pub fn deny_all(server_id: &str) -> (r: McpServerPolicy)
        ensures
            r@ == PolicyView::denying(server_id@),
    {
        let none: Vec<String> = Vec::new();
        assert(views(none@) =~= Seq::empty());
        let mut r = McpServerPolicy::requiring_approval(server_id);
        r.allowed_tools = Some(none);
        r
    }
}

/// An effect, with the risk that the harness sees in it.
#[derive(Debug, PartialEq)]
pub struct ClassifiedEffect {
    pub request: EffectRequest,
    pub requested_risk: RiskLevel,
    pub effective_risk: RiskLevel,
    pub reasons: Vec<String>,
    pub metadata: JsonMap,
}

/// What becomes of an effect.
#[derive(Debug, PartialEq, Eq)]
pub enum PolicyDecision {
    Allow,
    Deny { reason: String },
    RequireApproval { reason: String },
}

pub enum DecisionView {
    Allow,
    Deny { reason: Seq<char> },
    RequireApproval { reason: Seq<char> },
}

impl View for PolicyDecision {
    type V = DecisionView;

    open spec fn view(&self) -> DecisionView {
        match *self {
            PolicyDecision::Allow => DecisionView::Allow,
            PolicyDecision::Deny { reason } => DecisionView::Deny { reason: reason@ },
            PolicyDecision::RequireApproval { reason } => DecisionView::RequireApproval {
                reason: reason@,
            },
        }
    }
}

/// Why no decision could be made.
#[derive(Debug, PartialEq, Eq)]
pub enum HarnessError {
    Policy(String),
}

/// The policy of a server that the host has not named.
pub open spec fn unknown_policy() -> PolicyView {
    PolicyView::denying("__unknown__"@)
}

/// The policy for a server.
pub open spec fn policy_of(policies: Map<Seq<char>, PolicyView>, server: Seq<char>) -> PolicyView {
    if policies.contains_key(server) {
        policies[server]
    } else {
        unknown_policy()
    }
}

/// Whether each policy stands under its own server.
pub open spec fn keyed_by_server(policies: Map<Seq<char>, PolicyView>) -> bool {
    forall|server: Seq<char>| #[trigger]
        policies.contains_key(server) ==> policies[server].server_id == server
}

/// What becomes of a call on a server.
pub open spec fn call_decision(policy: PolicyView, call: PayloadView, risk: RiskLevel) -> DecisionView {
    if policy.server_id != call.server_id {
        DecisionView::Deny { reason: "unknown MCP server: "@ + call.server_id }
    } else if policy.denied_tools.contains(call.tool_name) {
        DecisionView::Deny { reason: "MCP tool denied: "@ + call.tool_name }
    } else if !policy.admits(call.tool_name) {
        DecisionView::Deny { reason: "MCP tool not allowed: "@ + call.tool_name }
    } else if policy.holds_back(risk) {
        DecisionView::RequireApproval {
            reason: "MCP call requires approval: "@ + call.server_id + "::"@ + call.tool_name,
        }
    } else {
        DecisionView::Allow
    }
}

/// What becomes of an effect; an effect that is no call on a server goes
/// ahead.
pub open spec fn decision(
    policies: Map<Seq<char>, PolicyView>,
    request: EffectRequestView,
    risk: RiskLevel,
) -> Result<DecisionView, Seq<char>> {
    if request.kind != EffectKind::Mcp {
        Ok(DecisionView::Allow)
    } else {
        match effect_payload(request) {
            Ok(call) => Ok(call_decision(policy_of(policies, call.server_id), call, risk)),
            Err(e) => Err("invalid MCP payload: "@ + e.text()),
        }
    }
}

/// The policies by server; of two for one server, the later.
spec fn by_server(policies: Seq<McpServerPolicy>) -> Map<Seq<char>, PolicyView>
    decreases policies.len(),
{
    if policies.len() == 0 {
        Map::empty()
    } else {
        by_server(policies.drop_last()).insert(policies.last().server_id@, policies.last()@)
    }
}

proof fn lemma_keyed(policies: Seq<McpServerPolicy>)
    ensures
        keyed_by_server(by_server(policies)),
    decreases policies.len(),
{
    if policies.len() > 0 {
        lemma_keyed(policies.drop_last());
    }
}

/// The policy of a server is the last one that names it.
proof fn lemma_last(policies: Seq<McpServerPolicy>, server: Seq<char>, n: int)
    requires
        0 <= n <= policies.len(),
        forall|j: int| n <= j < policies.len() ==> (#[trigger] policies[j]).server_id@ != server,
    ensures
        by_server(policies).contains_key(server) == by_server(policies.take(n)).contains_key(
            server,
        ),
        by_server(policies).contains_key(server) ==> by_server(policies)[server] == by_server(
            policies.take(n),
        )[server],
    decreases policies.len(),
{
    if n == policies.len() {
        assert(policies.take(n) =~= policies);
    } else {
        lemma_last(policies.drop_last(), server, n);
        assert(policies.drop_last().take(n) =~= policies.take(n));
        assert(policies[policies.len() - 1].server_id@ != server);
    }
}

/// Replacing the last policy of a server is an insertion.
proof fn lemma_replace(policies: Seq<McpServerPolicy>, i: int, policy: McpServerPolicy)
    requires
        0 <= i < policies.len(),
        policies[i].server_id@ == policy.server_id@,
        forall|j: int|
            i < j < policies.len() ==> (#[trigger] policies[j]).server_id@ != policy.server_id@,
    ensures
        by_server(policies.update(i, policy)) == by_server(policies).insert(
            policy.server_id@,
            policy@,
        ),
    decreases policies.len(),
{
    let updated = policies.update(i, policy);
    if i == policies.len() - 1 {
        assert(updated.drop_last() =~= policies.drop_last());
    } else {
        lemma_replace(policies.drop_last(), i, policy);
        assert(updated.drop_last() =~= policies.drop_last().update(i, policy));
        assert(policies[policies.len() - 1].server_id@ != policy.server_id@);
    }
    assert(by_server(updated) =~= by_server(policies).insert(policy.server_id@, policy@));
}

/// The policies of a host for its servers. A server without a policy is
/// denied.
#[derive(Debug, PartialEq, Eq)]
pub struct McpPermissionBridge {
    server_policies: Vec<McpServerPolicy>,
    default_policy: McpServerPolicy,
}

impl View for McpPermissionBridge {
    type V = Map<Seq<char>, PolicyView>;

    closed spec fn view(&self) -> Map<Seq<char>, PolicyView> {
        by_server(self.server_policies@)
    }
}

impl McpPermissionBridge {
    #[verifier::type_invariant]
    spec fn unknown_is_denied(self) -> bool {
        self.default_policy@ == unknown_policy()
    }

    pub fn new() -> (r: McpPermissionBridge)
        ensures
            r@ == Map::<Seq<char>, PolicyView>::empty(),
    {
        McpPermissionBridge {
            server_policies: Vec::new(),
            default_policy: McpServerPolicy::deny_all("__unknown__"),
        }
    }

    /// The bridge with a policy for a server, in place of an earlier one.
    pub fn with_server_policy(self, policy: McpServerPolicy) -> (r: McpPermissionBridge)
        ensures
            r@ == self@.insert(policy@.server_id, policy@),
            keyed_by_server(r@),
    {
        proof {
            use_type_invariant(&self);
        }
        let ghost given = self@;
        let default_policy = self.default_policy;
        let mut policies = self.server_policies;
        let ghost before = policies@;
        let mut i: usize = policies.len();
        while i > 0
            invariant
                i <= policies@.len(),
                policies@ == before,
                given == self@,
                given == by_server(before),
                default_policy@ == unknown_policy(),
                forall|j: int|
                    i <= j < policies@.len() ==> (#[trigger] policies@[j]).server_id@
                        != policy.server_id@,
            decreases i,
        {
            i = i - 1;
            if str_eq(policies[i].server_id.as_str(), policy.server_id.as_str()) {
                proof {
                    lemma_replace(before, i as int, policy);
                    lemma_keyed(before.update(i as int, policy));
                }
                policies.set(i, policy);
                return McpPermissionBridge { server_policies: policies, default_policy };
            }
        }
        policies.push(policy);
        proof {
            assert(policies@.drop_last() =~= before);
            lemma_keyed(policies@);
        }
        McpPermissionBridge { server_policies: policies, default_policy }
    }

    /// The policy for a server.
    pub fn policy_for(&self, server_id: &McpServerId) -> (r: &McpServerPolicy)
        ensures
            r@ == policy_of(self@, server_id@),
    {
        proof {
            use_type_invariant(self);
        }
        let ghost all = self.server_policies@;
        let mut i: usize = self.server_policies.len();
        while i > 0
            invariant
                i <= all.len(),
                all == self.server_policies@,
                forall|j: int|
                    i <= j < all.len() ==> (#[trigger] all[j]).server_id@ != server_id@,
            decreases i,
        {
            i = i - 1;
            if str_eq(self.server_policies[i].server_id.as_str(), server_id.as_str()) {
                proof {
                    lemma_last(all, server_id@, i + 1);
                    assert(all.take(i + 1).last() == all[i as int]);
                }
                return &self.server_policies[i];
            }
        }
        proof {
            lemma_last(all, server_id@, 0);
            assert(all.take(0) =~= Seq::empty());
        }
        &self.default_policy
    }

    /// What becomes of an effect.
    pub fn evaluate(&self, effect: &ClassifiedEffect) -> (r: Result<PolicyDecision, HarnessError>)
        ensures
            match decision(self@, effect.request@, effect.effective_risk) {
                Ok(decided) => r matches Ok(d) && d@ == decided,
                Err(message) => r matches Err(HarnessError::Policy(s)) && s@ == message,
            },
    {
        if effect.request.kind != EffectKind::Mcp {
            return Ok(PolicyDecision::Allow);
        }
        let payload = match McpCallPayload::from_effect(&effect.request) {
            Ok(payload) => payload,
            Err(e) => {
                return Err(
                    HarnessError::Policy(
                        concat("invalid MCP payload: ", e.message().as_str()),
                    ),
                );
            },
        };
        let policy = self.policy_for(&payload.server_id);
        if !str_eq(policy.server_id.as_str(), payload.server_id.as_str()) {
            return Ok(
                PolicyDecision::Deny {
                    reason: concat("unknown MCP server: ", payload.server_id.as_str()),
                },
            );
        }
        if contains_text(&policy.denied_tools, payload.tool_name.as_str()) {
            return Ok(
                PolicyDecision::Deny {
                    reason: concat("MCP tool denied: ", payload.tool_name.as_str()),
                },
            );
        }
        if let Some(allowed) = &policy.allowed_tools {
            if !contains_text(allowed, payload.tool_name.as_str()) {
                return Ok(
                    PolicyDecision::Deny {
                        reason: concat("MCP tool not allowed: ", payload.tool_name.as_str()),
                    },
                );
            }
        }
        let high: u8 = risk_rank(RiskLevel::High);
        if policy.require_approval || risk_rank(effect.effective_risk) >= high || risk_rank(
            policy.default_risk,
        ) >= high {
            let head = concat3("MCP call requires approval: ", payload.server_id.as_str(), "::");
            return Ok(
                PolicyDecision::RequireApproval {
                    reason: concat(head.as_str(), payload.tool_name.as_str()),
                },
            );
        }
        Ok(PolicyDecision::Allow)
    }
}

impl Default for McpPermissionBridge {
    fn default() -> (r: McpPermissionBridge)
        ensures
            r@ == Map::<Seq<char>, PolicyView>::empty(),
    {
        McpPermissionBridge::new()
    }
}

/// A call on a server without a policy is denied, whatever its risk.
pub proof fn law_unknown_servers_are_denied(
    policies: Map<Seq<char>, PolicyView>,
    request: EffectRequestView,
    call: PayloadView,
    risk: RiskLevel,
)
    requires
        request.kind == EffectKind::Mcp,
        effect_payload(request) == Ok::<PayloadView, McpErrorView>(call),
        !policies.contains_key(call.server_id),
    ensures
        decision(policies, request, risk) matches Ok(DecisionView::Deny { reason: _ }),
{
}

/// A tool that is both allowed and denied is denied.
pub proof fn law_denied_beats_allowed(policy: PolicyView, call: PayloadView, risk: RiskLevel)
    requires
        policy.denied_tools.contains(call.tool_name),
    ensures
        call_decision(policy, call, risk) is Deny,
{
}

/// A policy that denies every tool denies every call.
pub proof fn law_deny_all_denies_everything(
    server: Seq<char>,
    call: PayloadView,
    risk: RiskLevel,
)
    ensures
        call_decision(PolicyView::denying(server), call, risk) is Deny,
{
}

/// No call of high or critical risk goes ahead without approval, and none does
/// on a server of such risk.
pub proof fn law_high_risk_needs_approval(policy: PolicyView, call: PayloadView, risk: RiskLevel)
    requires
        rank(risk) >= rank(RiskLevel::High) || rank(policy.default_risk) >= rank(RiskLevel::High),
    ensures
        !(call_decision(policy, call, risk) is Allow),
{
}

/// A call goes ahead just when its server's policy admits the tool and asks
/// for no approval.
pub proof fn law_allowed_calls(
    policies: Map<Seq<char>, PolicyView>,
    call: PayloadView,
    risk: RiskLevel,
)
    requires
        keyed_by_server(policies),
    ensures
        call_decision(policy_of(policies, call.server_id), call, risk) is Allow <==> {
            &&& policies.contains_key(call.server_id)
            &&& policies[call.server_id].admits(call.tool_name)
            &&& !policies[call.server_id].holds_back(risk)
        },
{
}

/// A policy for one server leaves the decisions on the others as they were.
pub proof fn law_policies_are_independent(
    policies: Map<Seq<char>, PolicyView>,
    policy: PolicyView,
    call: PayloadView,
    risk: RiskLevel,
)
    requires
        policy.server_id != call.server_id,
    ensures
        call_decision(
            policy_of(policies.insert(policy.server_id, policy), call.server_id),
            call,
            risk,
        ) == call_decision(policy_of(policies, call.server_id), call, risk),
{
}

} // verus!
