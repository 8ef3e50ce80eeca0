//! The host side of container networking: the firewall rules of the bridge,
//! the bridge's subnet and the names of a container's veth pair.
use crate::text::{decimal, push_decimal, push_str, string_from};
use vstd::prelude::*;
use vstd::string::StringSliceAdditionalSpecFns;

verus! {

/// An iptables rule: its table, its chain and its rule text.
#[derive(Debug, Clone, PartialEq)]
pub struct IptablesRule {
    pub table: String,
    pub chain: String,
    pub rule: String,
}

pub struct RuleView {
    pub table: Seq<char>,
    pub chain: Seq<char>,
    pub rule: Seq<char>,
}

impl View for IptablesRule {
    type V = RuleView;

    open spec fn view(&self) -> RuleView {
        RuleView { table: self.table@, chain: self.chain@, rule: self.rule@ }
    }
}

/// The chain the engine's filter rules live in.
pub open spec fn engine_chain() -> Seq<char> {
    "RUSTOCKER"@
}

/// `-s {subnet} ! -o {bridge} -j MASQUERADE`: traffic from the subnet that
/// leaves by another interface is masqueraded.
pub open spec fn masquerade_rule(subnet: Seq<char>, bridge: Seq<char>) -> Seq<char> {
    "-s "@ + subnet + " ! -o "@ + bridge + " -j MASQUERADE"@
}

/// `-s {subnet} ! -o {bridge} -j ACCEPT`: traffic from the subnet may be forwarded out.
pub open spec fn forward_rule(subnet: Seq<char>, bridge: Seq<char>) -> Seq<char> {
    "-s "@ + subnet + " ! -o "@ + bridge + " -j ACCEPT"@
}

/// Replies to connections may be forwarded into the bridge.
pub open spec fn return_rule(bridge: Seq<char>) -> Seq<char> {
    "-o "@ + bridge + " -m conntrack --ctstate RELATED,ESTABLISHED -j ACCEPT"@
}

fn rule(table: &str, chain: &str, text: String) -> (r: IptablesRule)
    ensures
        r@ == (RuleView { table: table@, chain: chain@, rule: text@ }),
{
    IptablesRule { table: string_from(table), chain: string_from(chain), rule: text }
}

/// The rules that must be present, in the order they are checked and
/// appended when missing: NAT for the subnet, forwarding out of and back
/// into the bridge in the engine's chain, and a jump from `FORWARD` to that
/// chain. The chain itself is created first when it does not exist.
pub fn add_rules_plan(bridge_name: &str, subnet_mask: &str) -> (r: Vec<IptablesRule>)
    ensures
        r@.len() == 4,
        r@[0]@ == (RuleView {
            table: "nat"@,
            chain: "POSTROUTING"@,
            rule: masquerade_rule(subnet_mask@, bridge_name@),
        }),
        r@[1]@ == (RuleView {
            table: "filter"@,
            chain: engine_chain(),
            rule: forward_rule(subnet_mask@, bridge_name@),
        }),
        r@[2]@ == (RuleView {
            table: "filter"@,
            chain: engine_chain(),
            rule: return_rule(bridge_name@),
        }),
        r@[3]@ == (RuleView { table: "filter"@, chain: "FORWARD"@, rule: "-j RUSTOCKER"@ }),
{
    let mut out: Vec<IptablesRule> = Vec::new();
    let mut masq = string_from("-s ");
    push_str(&mut masq, subnet_mask);
    push_str(&mut masq, " ! -o ");
    push_str(&mut masq, bridge_name);
    push_str(&mut masq, " -j MASQUERADE");
    out.push(rule("nat", "POSTROUTING", masq));
    let mut fwd = string_from("-s ");
    push_str(&mut fwd, subnet_mask);
    push_str(&mut fwd, " ! -o ");
    push_str(&mut fwd, bridge_name);
    push_str(&mut fwd, " -j ACCEPT");
    out.push(rule("filter", "RUSTOCKER", fwd));
    let mut ret = string_from("-o ");
    push_str(&mut ret, bridge_name);
    push_str(&mut ret, " -m conntrack --ctstate RELATED,ESTABLISHED -j ACCEPT");
    out.push(rule("filter", "RUSTOCKER", ret));
    out.push(rule("filter", "FORWARD", string_from("-j RUSTOCKER")));
    out
}

/// The rules that are deleted when present: a masquerade rule
/// `-s {subnet} -o {bridge} -j MASQUERADE`, `-s {subnet} ! -o {bridge} -j FORWARD`
/// and the return rule, the last two in `FORWARD`.
pub fn remove_rules_plan(bridge_name: &str, subnet_mask: &str) -> (r: Vec<IptablesRule>)
    ensures
        r@.len() == 3,
        r@[0]@ == (RuleView {
            table: "nat"@,
            chain: "POSTROUTING"@,
            rule: "-s "@ + subnet_mask@ + " -o "@ + bridge_name@ + " -j MASQUERADE"@,
        }),
        r@[1]@ == (RuleView {
            table: "filter"@,
            chain: "FORWARD"@,
            rule: "-s "@ + subnet_mask@ + " ! -o "@ + bridge_name@ + " -j FORWARD"@,
        }),
        r@[2]@ == (RuleView { table: "filter"@, chain: "FORWARD"@, rule: return_rule(bridge_name@) }),
{
    let mut out: Vec<IptablesRule> = Vec::new();
    let mut masq = string_from("-s ");
    push_str(&mut masq, subnet_mask);
    push_str(&mut masq, " -o ");
    push_str(&mut masq, bridge_name);
    push_str(&mut masq, " -j MASQUERADE");
    out.push(rule("nat", "POSTROUTING", masq));
    let mut fwd = string_from("-s ");
    push_str(&mut fwd, subnet_mask);
    push_str(&mut fwd, " ! -o ");
    push_str(&mut fwd, bridge_name);
    push_str(&mut fwd, " -j FORWARD");
    out.push(rule("filter", "FORWARD", fwd));
    let mut ret = string_from("-o ");
    push_str(&mut ret, bridge_name);
    push_str(&mut ret, " -m conntrack --ctstate RELATED,ESTABLISHED -j ACCEPT");
    out.push(rule("filter", "FORWARD", ret));
    out
}

/// `172.19.0.0/{prefix}`: the subnet of the global bridge network.
pub fn global_subnet(prefix: u8) -> (r: String)
    ensures
        r@ == "172.19.0.0/"@ + decimal(prefix as nat),
{
    let mut s = string_from("172.19.0.0/");
    push_decimal(&mut s, prefix as u64);
    s
}

/// The first six bytes of a container id (all of it when shorter), which
/// name its network interfaces. The id must not have a character across
/// its sixth byte.
pub fn short_container_id(container_id: &str) -> (r: &str)
    requires
        container_id.len() <= 6 || vstd::utf8::is_char_boundary(container_id.spec_bytes(), 6),
    ensures
        container_id.len() <= 6 ==> r.spec_bytes() == container_id.spec_bytes(),
        container_id.len() > 6 ==> r.spec_bytes() == container_id.spec_bytes().subrange(0, 6),
{
    if container_id.len() <= 6 {
        container_id
    } else {
        let (head, _) = container_id.split_at(6);
        head
    }
}

/// The names of a container's veth pair: `veth_{short}` on the host and
/// `vethc_{short}` in the container.
pub fn veth_pair(short_id: &str) -> (r: (String, String))
    ensures
        r.0@ == "veth_"@ + short_id@,
        r.1@ == "vethc_"@ + short_id@,
{
    let mut host = string_from("veth_");
    push_str(&mut host, short_id);
    let mut cont = string_from("vethc_");
    push_str(&mut cont, short_id);
    (host, cont)
}

} // verus!
