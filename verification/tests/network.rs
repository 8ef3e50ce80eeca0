use rustocker::network::{add_rules_plan, global_subnet, remove_rules_plan, short_container_id, veth_pair, IptablesRule};

fn r(table: &str, chain: &str, rule: &str) -> IptablesRule {
    IptablesRule { table: table.to_string(), chain: chain.to_string(), rule: rule.to_string() }
}

#[test]
fn add_rules_plan_lists_nat_forward_return_and_jump() {
    assert_eq!(
        add_rules_plan("rustocker0", "172.19.0.0/16"),
        vec![
            r("nat", "POSTROUTING", "-s 172.19.0.0/16 ! -o rustocker0 -j MASQUERADE"),
            r("filter", "RUSTOCKER", "-s 172.19.0.0/16 ! -o rustocker0 -j ACCEPT"),
            r("filter", "RUSTOCKER", "-o rustocker0 -m conntrack --ctstate RELATED,ESTABLISHED -j ACCEPT"),
            r("filter", "FORWARD", "-j RUSTOCKER"),
        ]
    );
}

#[test]
fn remove_rules_plan_lists_three_rules() {
    assert_eq!(
        remove_rules_plan("br0", "10.0.0.0/8"),
        vec![
            r("nat", "POSTROUTING", "-s 10.0.0.0/8 -o br0 -j MASQUERADE"),
            r("filter", "FORWARD", "-s 10.0.0.0/8 ! -o br0 -j FORWARD"),
            r("filter", "FORWARD", "-o br0 -m conntrack --ctstate RELATED,ESTABLISHED -j ACCEPT"),
        ]
    );
}

#[test]
fn global_subnet_uses_prefix() {
    assert_eq!(global_subnet(16), "172.19.0.0/16");
}

#[test]
fn short_id_takes_six_bytes() {
    assert_eq!(short_container_id("abcdef012345"), "abcdef");
    assert_eq!(short_container_id("abc"), "abc");
}

#[test]
fn veth_names_use_short_id() {
    assert_eq!(veth_pair("abcdef"), ("veth_abcdef".to_string(), "vethc_abcdef".to_string()));
}
