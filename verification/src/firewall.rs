//! The inbound firewall of a host port: rules are checked before anything is
//! sent, then added to or removed from the extended access list that Packet
//! Tracer keeps per address family.
use vstd::prelude::*;
use vstd::string::StringExecFns;

use crate::error::{cat, cat3, PtError};
use crate::text::{chars_of, is_one_of, text_opt, to_lowercase, trim, trim_text, unicode_lower};

verus! {

#[derive(Debug, Clone, Copy, Default, PartialEq, Eq, Structural)]
pub enum Family {
    #[default]
    Ipv4,
    Ipv6,
}

#[derive(Debug, Clone, Copy, PartialEq, Eq, Structural)]
pub enum RuleAction {
    Permit,
    Deny,
}

#[derive(Debug, Clone)]
pub struct FirewallRule {
    /// `ipv4` (default) or `ipv6`.
    pub family: Family,
    /// `permit` or `deny`.
    pub action: RuleAction,
    /// `ip`, `icmp`, `tcp` or `udp`.
    pub protocol: String,
    /// Remote address the rule matches; any address when omitted.
    pub remote_ip: Option<String>,
    /// Wildcard of the remote address (IPv4) or its prefix length (IPv6).
    pub remote_mask: Option<String>,
    /// Destination port for tcp and udp; 0 or omitted means any.
    pub port: Option<i32>,
}

#[derive(Debug, Clone, Default)]
pub struct FirewallRequest {
    /// PC, laptop or server name.
    pub device: String,
    /// Port whose firewall to change. Defaults to `FastEthernet0`.
    pub port: Option<String>,
    /// Turn the IPv4 firewall on or off; unchanged when omitted.
    pub ipv4: Option<bool>,
    /// Turn the IPv6 firewall on or off; unchanged when omitted.
    pub ipv6: Option<bool>,
    /// Rules to add.
    pub add_rules: Vec<FirewallRule>,
    /// Rules to remove; each must match an existing rule exactly.
    pub remove_rules: Vec<FirewallRule>,
}

#[derive(Debug, Clone, PartialEq, Eq)]
pub struct FirewallState {
    pub device: String,
    pub port: String,
    pub ipv4: bool,
    pub ipv6: bool,
    pub ipv4_rules: Vec<String>,
    pub ipv6_rules: Vec<String>,
}

/// The protocols a rule may name.
pub open spec fn protocols() -> Seq<Seq<char>> {
    seq!["ip"@, "icmp"@, "tcp"@, "udp"@]
}

/// The protocol of a rule as Packet Tracer takes it: trimmed, lower case.
pub open spec fn protocol_of(rule: FirewallRule) -> Seq<char> {
    unicode_lower(trim(rule.protocol@))
}

/// The port of a rule; omitted means 0, any port.
pub open spec fn port_of(rule: FirewallRule) -> int {
    match rule.port {
        Some(p) => p as int,
        None => 0,
    }
}

/// What is wrong with a rule, if anything: an unknown protocol, a port on a
/// protocol without ports, or a port out of range.
pub open spec fn rule_problem(rule: FirewallRule) -> Option<Seq<char>> {
    let protocol = protocol_of(rule);
    if !protocols().contains(protocol) {
        Some("protocol `"@ + rule.protocol@ + "` is not one of ip, icmp, tcp, udp"@)
    } else if !(protocol == "tcp"@ || protocol == "udp"@) && port_of(rule) != 0 {
        Some("a port only applies to tcp and udp, not "@ + protocol)
    } else if !(0 <= port_of(rule) <= 65535) {
        Some("port must be between 0 and 65535"@)
    } else {
        None
    }
}

/// The lower-case protocol of a rule.
pub fn rule_protocol(rule: &FirewallRule) -> (p: String)
    ensures
        p@ == protocol_of(*rule),
{
    to_lowercase(trim_text(rule.protocol.as_str()).as_str())
}

/// Checks one rule before it is sent.
pub fn check(rule: &FirewallRule) -> (r: Result<(), PtError>)
    ensures
        rule_problem(*rule) is None ==> r is Ok,
        rule_problem(*rule) matches Some(m) ==> (r matches Err(PtError::InvalidInput(e)) && e@
            == m),
{
    let protocol = rule_protocol(rule);
    let name = chars_of(protocol.as_str());
    let known = ["ip", "icmp", "tcp", "udp"];
    let ported = ["tcp", "udp"];
    let is_known = is_one_of(&name, &known);
    let has_ports = is_one_of(&name, &ported);
    proof {
        let names = protocols();
        assert(forall|i: int| 0 <= i < 4 ==> known@[i]@ == names[i]);
        if names.contains(protocol@) {
            let i = choose|i: int| 0 <= i < names.len() && names[i] == protocol@;
            assert(known@[i]@ == protocol@);
        }
        if is_known {
            let i = choose|i: int| 0 <= i < known@.len() && name@ == known@[i]@;
            assert(names[i] == protocol@);
        }
        assert(ported@[0]@ == "tcp"@ && ported@[1]@ == "udp"@);
        if has_ports {
            let i = choose|i: int| 0 <= i < ported@.len() && name@ == ported@[i]@;
            assert(i == 0 || i == 1);
        }
    }
    if !is_known {
        return Err(
            PtError::InvalidInput(
                cat3("protocol `", rule.protocol.as_str(), "` is not one of ip, icmp, tcp, udp"),
            ),
        );
    }
    let port: i32 = match rule.port {
        Some(p) => p,
        None => 0,
    };
    if !has_ports && port != 0 {
        return Err(
            PtError::InvalidInput(cat("a port only applies to tcp and udp, not ", protocol.as_str())),
        );
    }
    if port < 0 || port > 65535 {
        return Err(PtError::InvalidInput("port must be between 0 and 65535".to_owned()));
    }
    Ok(())
}

/// The first problem among rules, in order.
pub open spec fn first_problem(rules: Seq<FirewallRule>) -> Option<Seq<char>>
    decreases rules.len(),
{
    if rules.len() == 0 {
        None
    } else if rule_problem(rules[0]) is Some {
        rule_problem(rules[0])
    } else {
        first_problem(rules.drop_first())
    }
}

/// Checks every rule of a request, the added ones first, before anything is
/// sent: the request fails on the first bad rule.
pub fn check_edits(request: &FirewallRequest) -> (r: Result<(), PtError>)
    ensures
        first_problem(request.add_rules@ + request.remove_rules@) is None ==> r is Ok,
        first_problem(request.add_rules@ + request.remove_rules@) matches Some(m) ==> (r matches Err(
            PtError::InvalidInput(e),
        ) && e@ == m),
{
    let ghost all = request.add_rules@ + request.remove_rules@;
    let mut i: usize = 0;
    assert(all.skip(0) =~= all);
    while i < request.add_rules.len()
        invariant
            i <= request.add_rules@.len(),
            all == request.add_rules@ + request.remove_rules@,
            first_problem(all) == first_problem(all.skip(i as int)),
        decreases request.add_rules.len() - i,
    {
        assert(all.skip(i as int)[0] == request.add_rules@[i as int]);
        assert(all.skip(i as int).drop_first() =~= all.skip(i + 1));
        check(&request.add_rules[i])?;
        i += 1;
    }
    let mut j: usize = 0;
    while j < request.remove_rules.len()
        invariant
            j <= request.remove_rules@.len(),
            all == request.add_rules@ + request.remove_rules@,
            first_problem(all) == first_problem(all.skip(request.add_rules@.len() + j)),
        decreases request.remove_rules.len() - j,
    {
        let ghost k = request.add_rules@.len() + j;
        assert(all.skip(k)[0] == request.remove_rules@[j as int]);
        assert(all.skip(k).drop_first() =~= all.skip(k + 1));
        check(&request.remove_rules[j])?;
        j += 1;
    }
    assert(all.skip(all.len() as int).len() == 0);
    Ok(())
}

/// The arguments of one extended access-list statement.
#[derive(Debug, Clone, PartialEq, Eq)]
pub struct AclStatement {
    pub ipv6: bool,
    pub protocol: String,
    pub permit: bool,
    pub remote_ip: String,
    pub remote_mask: String,
    pub local_ip: String,
    pub local_mask: String,
    pub port: i32,
}

/// Any address of a family, with its mask.
pub open spec fn any_address(family: Family) -> (Seq<char>, Seq<char>) {
    match family {
        Family::Ipv4 => ("0.0.0.0"@, "255.255.255.255"@),
        Family::Ipv6 => ("::"@, "0"@),
    }
}

/// A text of the rule, trimmed, or `fallback` when it is missing or blank.
pub open spec fn given_or(value: Option<Seq<char>>, fallback: Seq<char>) -> Seq<char> {
    match value {
        Some(v) => if trim(v).len() > 0 {
            trim(v)
        } else {
            fallback
        },
        None => fallback,
    }
}

fn given_text(value: &Option<String>, fallback: &str) -> (r: String)
    ensures
        r@ == given_or(text_opt(*value), fallback@),
{
    match value {
        Some(v) => {
            let t = trim_text(v.as_str());
            if t.as_str().is_empty() {
                fallback.to_owned()
            } else {
                t
            }
        },
        None => fallback.to_owned(),
    }
}

/// The statement a rule becomes: the remote side as given or any address,
/// the local side any address, and the port (0 for any).
pub fn statement(rule: &FirewallRule) -> (s: AclStatement)
    ensures
        s.ipv6 == (rule.family == Family::Ipv6),
        s.protocol@ == protocol_of(*rule),
        s.permit == (rule.action == RuleAction::Permit),
        s.remote_ip@ == given_or(text_opt(rule.remote_ip), any_address(rule.family).0),
        s.remote_mask@ == given_or(text_opt(rule.remote_mask), any_address(rule.family).1),
        s.local_ip@ == any_address(rule.family).0,
        s.local_mask@ == any_address(rule.family).1,
        s.port as int == port_of(*rule),
{
    let (any_ip, any_mask) = match rule.family {
        Family::Ipv4 => ("0.0.0.0", "255.255.255.255"),
        Family::Ipv6 => ("::", "0"),
    };
    AclStatement {
        ipv6: rule.family == Family::Ipv6,
        protocol: rule_protocol(rule),
        permit: rule.action == RuleAction::Permit,
        remote_ip: given_text(&rule.remote_ip, any_ip),
        remote_mask: given_text(&rule.remote_mask, any_mask),
        local_ip: any_ip.to_owned(),
        local_mask: any_mask.to_owned(),
        port: match rule.port {
            Some(p) => p,
            None => 0,
        },
    }
}

/// The access-list method that adds or removes a statement.
pub fn edit_method(add: bool) -> (m: &'static str)
    ensures
        m@ == (if add {
            "addExtStatement"@
        } else {
            "removeExtStatement"@
        }),
{
    if add {
        "addExtStatement"
    } else {
        "removeExtStatement"
    }
}

/// The process that holds a family's access lists.
pub fn acl_process(family: Family) -> (p: &'static str)
    ensures
        p@ == (match family {
            Family::Ipv4 => "AclProcess"@,
            Family::Ipv6 => "Aclv6Process"@,
        }),
{
    match family {
        Family::Ipv4 => "AclProcess",
        Family::Ipv6 => "Aclv6Process",
    }
}

/// The error when Packet Tracer refuses an edit; a removal must match an
/// existing rule exactly.
pub fn refused_edit(add: bool, device: &str) -> (e: PtError)
    ensures
        e matches PtError::Rejected(m) && m@ == "Packet Tracer would not "@ + (if add {
            "add"@
        } else {
            "remove"@
        }) + " that rule on `"@ + device@ + "`"@ + (if add {
            ""@
        } else {
            "; it must match an existing one exactly"@
        }),
{
    let mut m = cat("Packet Tracer would not ", if add {
        "add"
    } else {
        "remove"
    });
    m.append(" that rule on `");
    m.append(device);
    m.append("`");
    let tail = if add {
        ""
    } else {
        "; it must match an existing one exactly"
    };
    m.append(tail);
    PtError::Rejected(m)
}

/// The firewall switches a request flips, IPv4 first, each with the port
/// method that sets it.
pub fn switches(request: &FirewallRequest) -> (v: Vec<(&'static str, bool)>)
    ensures
        v@.len() == (if request.ipv4 is Some {
            1int
        } else {
            0
        }) + (if request.ipv6 is Some {
            1int
        } else {
            0
        }),
        request.ipv4 matches Some(on) ==> v@[0].0@ == "setInboundFirewallService"@ && v@[0].1
            == on,
        request.ipv6 matches Some(on) ==> v@[v@.len() - 1].0@ == "setInboundIpv6FirewallService"@
            && v@[v@.len() - 1].1 == on,
{
    let mut v: Vec<(&'static str, bool)> = Vec::new();
    if let Some(on) = request.ipv4 {
        v.push(("setInboundFirewallService", on));
    }
    if let Some(on) = request.ipv6 {
        v.push(("setInboundIpv6FirewallService", on));
    }
    v
}

} // verus!
