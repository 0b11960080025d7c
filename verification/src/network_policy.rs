//! Priority-based evaluation of network traffic rules.

use crate::text::same_text;
use vstd::prelude::*;

verus! {

/// What a rule, or a policy by default, does with matching traffic.
#[derive(Debug, Clone, Copy, PartialEq, Eq, Structural)]
pub enum PolicyAction {
    Allow,
    Deny,
    Log,
}

/// A traffic rule. A lower `priority` number is considered first.
#[derive(Debug, Clone)]
pub struct NetworkRule {
    pub name: String,
    /// A protocol name, or `*` for every protocol.
    pub protocol: String,
    /// Inclusive port bounds; `None` matches every port.
    pub port_range: Option<(u16, u16)>,
    /// A remote address block, compared as text; `None` matches every remote.
    pub cidr: Option<String>,
    pub action: PolicyAction,
    pub priority: u32,
}

/// Network security policy for a workspace or instance.
#[derive(Debug, Clone)]
pub struct NetworkSecurityPolicy {
    pub instance_id: String,
    pub default_action: PolicyAction,
    pub ingress_rules: Vec<NetworkRule>,
    pub egress_rules: Vec<NetworkRule>,
}

/// Evaluates traffic against network security policies.
pub struct NetworkPolicyEngine;

/// Whether `rule` applies to traffic with the given protocol, port and remote.
/// A remote address block is only compared when both the rule and the request
/// name one.
pub open spec fn rule_matches(
    rule: NetworkRule,
    protocol: Seq<char>,
    port: u16,
    remote_cidr: Option<&str>,
) -> bool {
    &&& (rule.protocol@ == "*"@ || rule.protocol@ == protocol)
    &&& match rule.port_range {
        Some((lo, hi)) => lo <= port && port <= hi,
        None => true,
    }
    &&& match (rule.cidr, remote_cidr) {
        (Some(c), Some(r)) => c@ == r@,
        _ => true,
    }
}

/// Rule `i` is the one that decides: it matches, and every other matching rule
/// has a larger priority number, or the same number and a later position.
pub open spec fn decides(
    rules: Seq<NetworkRule>,
    i: int,
    protocol: Seq<char>,
    port: u16,
    remote_cidr: Option<&str>,
) -> bool {
    &&& 0 <= i < rules.len()
    &&& rule_matches(rules[i], protocol, port, remote_cidr)
    &&& forall|j: int|
        0 <= j < rules.len() && rule_matches(#[trigger] rules[j], protocol, port, remote_cidr) ==> {
            ||| rules[i].priority < rules[j].priority
            ||| (rules[i].priority == rules[j].priority && i <= j)
        }
}

/// The rules a direction is checked against, if the direction is known.
pub open spec fn rules_for(policy: NetworkSecurityPolicy, direction: Seq<char>) -> Option<
    Seq<NetworkRule>,
> {
    if direction == "ingress"@ {
        Some(policy.ingress_rules@)
    } else if direction == "egress"@ {
        Some(policy.egress_rules@)
    } else {
        None
    }
}

/// The action for traffic under a list of rules: that of the deciding rule,
/// or the default when no rule matches.
pub open spec fn rules_decision(
    rules: Seq<NetworkRule>,
    default_action: PolicyAction,
    protocol: Seq<char>,
    port: u16,
    remote_cidr: Option<&str>,
) -> PolicyAction {
    if exists|i: int| decides(rules, i, protocol, port, remote_cidr) {
        rules[choose|i: int| decides(rules, i, protocol, port, remote_cidr)].action
    } else {
        default_action
    }
}

/// The action a policy takes on traffic in a direction.
pub open spec fn policy_decision(
    policy: NetworkSecurityPolicy,
    direction: Seq<char>,
    protocol: Seq<char>,
    port: u16,
    remote_cidr: Option<&str>,
) -> PolicyAction {
    match rules_for(policy, direction) {
        Some(rules) => rules_decision(rules, policy.default_action, protocol, port, remote_cidr),
        None => policy.default_action,
    }
}

/// At most one rule decides.
pub proof fn lemma_decides_unique(
    rules: Seq<NetworkRule>,
    i: int,
    j: int,
    protocol: Seq<char>,
    port: u16,
    remote_cidr: Option<&str>,
)
    requires
        decides(rules, i, protocol, port, remote_cidr),
        decides(rules, j, protocol, port, remote_cidr),
    ensures
        i == j,
{
    assert(rule_matches(rules[j], protocol, port, remote_cidr));
    assert(rule_matches(rules[i], protocol, port, remote_cidr));
}

/// The deciding rule fixes the decision.
pub proof fn lemma_decision_of_decider(
    rules: Seq<NetworkRule>,
    default_action: PolicyAction,
    i: int,
    protocol: Seq<char>,
    port: u16,
    remote_cidr: Option<&str>,
)
    requires
        decides(rules, i, protocol, port, remote_cidr),
    ensures
        rules_decision(rules, default_action, protocol, port, remote_cidr) == rules[i].action,
{
    let c = choose|c: int| decides(rules, c, protocol, port, remote_cidr);
    lemma_decides_unique(rules, i, c, protocol, port, remote_cidr);
}

/// Whether a rule applies to the traffic.
fn rule_applies(rule: &NetworkRule, protocol: &str, port: u16, remote_cidr: Option<&str>) -> (r:
    bool)
    ensures
        r == rule_matches(*rule, protocol@, port, remote_cidr),
{
    if !(same_text(rule.protocol.as_str(), "*") || same_text(rule.protocol.as_str(), protocol)) {
        return false;
    }
    match rule.port_range {
        Some((lo, hi)) => {
            if port < lo || port > hi {
                return false;
            }
        },
        None => {},
    }
    match (&rule.cidr, remote_cidr) {
        (Some(c), Some(req)) => {
            if !same_text(c.as_str(), req) {
                return false;
            }
        },
        _ => {},
    }
    true
}

/// The action of the first matching rule in priority order, or `default_action`.
fn decide(
    rules: &Vec<NetworkRule>,
    default_action: PolicyAction,
    protocol: &str,
    port: u16,
    remote_cidr: Option<&str>,
) -> (r: PolicyAction)
    ensures
        r == rules_decision(rules@, default_action, protocol@, port, remote_cidr),
{
    let mut best: Option<usize> = None;
    let mut i: usize = 0;
    while i < rules.len()
        invariant
            i <= rules@.len(),
            match best {
                None => forall|j: int|
                    0 <= j < i ==> !rule_matches(#[trigger] rules@[j], protocol@, port, remote_cidr),
                Some(b) => {
                    &&& b < i
                    &&& rule_matches(rules@[b as int], protocol@, port, remote_cidr)
                    &&& forall|j: int|
                        0 <= j < i && rule_matches(#[trigger] rules@[j], protocol@, port, remote_cidr)
                            ==> {
                            ||| rules@[b as int].priority < rules@[j].priority
                            ||| (rules@[b as int].priority == rules@[j].priority && b <= j)
                        }
                },
            },
        decreases rules@.len() - i,
    {
        if rule_applies(&rules[i], protocol, port, remote_cidr) {
            match best {
                None => {
                    best = Some(i);
                },
                Some(b) => {
                    if rules[i].priority < rules[b].priority {
                        best = Some(i);
                    }
                },
            }
        }
        i += 1;
    }
    match best {
        None => {
            assert(!exists|k: int| decides(rules@, k, protocol@, port, remote_cidr));
            default_action
        },
        Some(b) => {
            proof {
                lemma_decision_of_decider(rules@, default_action, b as int, protocol@, port, remote_cidr);
            }
            rules[b].action
        },
    }
}

impl NetworkPolicyEngine {
    /// A policy engine.
    pub fn new() -> Self {
        NetworkPolicyEngine
    }

    /// A default-deny policy for an instance: no ingress rules, and one egress
    /// rule that allows DNS (UDP port 53).
    pub fn default_deny_policy(instance_id: &str) -> (r: NetworkSecurityPolicy)
        ensures
            is_default_deny_policy(r),
            r.instance_id@ == instance_id@,
    {
        let dns = NetworkRule {
            name: String::from_str("allow-dns"),
            protocol: String::from_str("udp"),
            port_range: Some((53, 53)),
            cidr: None,
            action: PolicyAction::Allow,
            priority: 100,
        };
        let mut egress: Vec<NetworkRule> = Vec::new();
        egress.push(dns);
        NetworkSecurityPolicy {
            instance_id: String::from_str(instance_id),
            default_action: PolicyAction::Deny,
            ingress_rules: Vec::new(),
            egress_rules: egress,
        }
    }

    /// Evaluates whether traffic is allowed under a policy. Rules are tried
    /// in priority order (lower number first, ties in list order); the first
    /// rule that matches decides. Without a matching rule, or for a direction
    /// other than `ingress` and `egress`, the policy's default action applies.
    pub fn evaluate(
        &self,
        policy: &NetworkSecurityPolicy,
        direction: &str,
        protocol: &str,
        port: u16,
        remote_cidr: Option<&str>,
    ) -> (r: PolicyAction)
        ensures
            r == policy_decision(*policy, direction@, protocol@, port, remote_cidr),
    {
        if same_text(direction, "ingress") {
            decide(&policy.ingress_rules, policy.default_action, protocol, port, remote_cidr)
        } else if same_text(direction, "egress") {
            decide(&policy.egress_rules, policy.default_action, protocol, port, remote_cidr)
        } else {
            policy.default_action
        }
    }
}

/// The shape of the policy made by `default_deny_policy`.
pub open spec fn is_default_deny_policy(p: NetworkSecurityPolicy) -> bool {
    &&& p.default_action == PolicyAction::Deny
    &&& p.ingress_rules@.len() == 0
    &&& p.egress_rules@.len() == 1
    &&& p.egress_rules@[0].name@ == "allow-dns"@
    &&& p.egress_rules@[0].protocol@ == "udp"@
    &&& p.egress_rules@[0].port_range == Some((53u16, 53u16))
    &&& p.egress_rules@[0].cidr.is_none()
    &&& p.egress_rules@[0].action == PolicyAction::Allow
    &&& p.egress_rules@[0].priority == 100
}

/// A default-deny policy denies all ingress, allows egress exactly for UDP on
/// port 53, and denies traffic in any other direction.
pub proof fn law_default_deny(
    p: NetworkSecurityPolicy,
    direction: Seq<char>,
    protocol: Seq<char>,
    port: u16,
    remote_cidr: Option<&str>,
)
    requires
        is_default_deny_policy(p),
    ensures
        policy_decision(p, direction, protocol, port, remote_cidr) == (if direction == "egress"@
            && protocol == "udp"@ && port == 53 {
            PolicyAction::Allow
        } else {
            PolicyAction::Deny
        }),
{
    reveal_strlit("udp");
    reveal_strlit("*");
    reveal_strlit("ingress");
    reveal_strlit("egress");
    assert("udp"@ != "*"@) by {
        assert("udp"@.len() != "*"@.len());
    }
    assert("egress"@ != "ingress"@) by {
        assert("egress"@.len() != "ingress"@.len());
    }
    let rules = p.egress_rules@;
    if direction == "egress"@ {
        if protocol == "udp"@ && port == 53 {
            assert(decides(rules, 0, protocol, port, remote_cidr));
            lemma_decision_of_decider(rules, p.default_action, 0, protocol, port, remote_cidr);
        } else {
            assert(!rule_matches(rules[0], protocol, port, remote_cidr));
            assert(!exists|k: int| decides(rules, k, protocol, port, remote_cidr));
        }
    } else if direction == "ingress"@ {
        assert(!exists|k: int| decides(p.ingress_rules@, k, protocol, port, remote_cidr));
    }
}

/// Adding a matching rule whose priority number is below that of every rule
/// already present makes that rule decide.
pub proof fn law_stronger_rule_wins(
    rules: Seq<NetworkRule>,
    rule: NetworkRule,
    default_action: PolicyAction,
    protocol: Seq<char>,
    port: u16,
    remote_cidr: Option<&str>,
)
    requires
        rule_matches(rule, protocol, port, remote_cidr),
        forall|j: int| 0 <= j < rules.len() ==> rule.priority < #[trigger] rules[j].priority,
    ensures
        rules_decision(rules.push(rule), default_action, protocol, port, remote_cidr) == rule.action,
{
    let t = rules.push(rule);
    let n = rules.len() as int;
    assert forall|j: int|
        0 <= j < t.len() && rule_matches(#[trigger] t[j], protocol, port, remote_cidr) implies {
        ||| t[n].priority < t[j].priority
        ||| (t[n].priority == t[j].priority && n <= j)
    } by {
        if j < n {
            assert(t[j] == rules[j]);
        }
    }
    assert(decides(t, n, protocol, port, remote_cidr));
    lemma_decision_of_decider(t, default_action, n, protocol, port, remote_cidr);
}

/// Adding a rule that does not match the traffic leaves the decision unchanged.
pub proof fn law_non_matching_rule_irrelevant(
    rules: Seq<NetworkRule>,
    rule: NetworkRule,
    default_action: PolicyAction,
    protocol: Seq<char>,
    port: u16,
    remote_cidr: Option<&str>,
)
    requires
        !rule_matches(rule, protocol, port, remote_cidr),
    ensures
        rules_decision(rules.push(rule), default_action, protocol, port, remote_cidr)
            == rules_decision(rules, default_action, protocol, port, remote_cidr),
{
    let t = rules.push(rule);
    assert forall|i: int| decides(rules, i, protocol, port, remote_cidr) implies decides(
        t,
        i,
        protocol,
        port,
        remote_cidr,
    ) by {
        assert(t[i] == rules[i]);
        assert forall|j: int|
            0 <= j < t.len() && rule_matches(#[trigger] t[j], protocol, port, remote_cidr) implies {
            ||| t[i].priority < t[j].priority
            ||| (t[i].priority == t[j].priority && i <= j)
        } by {
            assert(j < rules.len());
            assert(t[j] == rules[j]);
        }
    }
    assert forall|i: int| decides(t, i, protocol, port, remote_cidr) implies decides(
        rules,
        i,
        protocol,
        port,
        remote_cidr,
    ) by {
        assert(i < rules.len());
        assert(t[i] == rules[i]);
        assert forall|j: int|
            0 <= j < rules.len() && rule_matches(#[trigger] rules[j], protocol, port, remote_cidr) implies {
            ||| rules[i].priority < rules[j].priority
            ||| (rules[i].priority == rules[j].priority && i <= j)
        } by {
            assert(t[j] == rules[j]);
        }
    }
    if exists|i: int| decides(rules, i, protocol, port, remote_cidr) {
        let i = choose|i: int| decides(rules, i, protocol, port, remote_cidr);
        lemma_decision_of_decider(rules, default_action, i, protocol, port, remote_cidr);
        lemma_decision_of_decider(t, default_action, i, protocol, port, remote_cidr);
    }
}

} // verus!
