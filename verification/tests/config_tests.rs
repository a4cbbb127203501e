use swarm_proxy::config::Configs;
use swarm_proxy::net::{Ipv4, SockAddrV4};

fn sa(a: u8, b: u8, c: u8, d: u8, port: u16) -> SockAddrV4 {
    SockAddrV4::new(Ipv4::new(a, b, c, d), port)
}

fn args(v: &[&str]) -> Vec<String> {
    v.iter().map(|s| s.to_string()).collect()
}

#[test]
fn args_single_udp_rule() {
    let c = Configs::load_from_args(&args(&["127.0.0.1", "udp", "9000:9100"])).unwrap();
    assert_eq!(c.udp.get(sa(0, 0, 0, 0, 9000)), Some(sa(127, 0, 0, 1, 9100)));
    assert_eq!(c.tcp.len(), 0);
}

#[test]
fn args_mode_switches_apply_to_later_tokens() {
    let c = Configs::load_from_args(&args(&[
        "10.0.0.9",
        "udp",
        "1000",
        "tcp",
        "2000-2001",
    ]))
    .unwrap();
    assert_eq!(c.udp.get(sa(0, 0, 0, 0, 1000)), Some(sa(10, 0, 0, 9, 1000)));
    assert_eq!(c.tcp.get(sa(0, 0, 0, 0, 2000)), Some(sa(10, 0, 0, 9, 2000)));
    assert_eq!(c.tcp.get(sa(0, 0, 0, 0, 2001)), Some(sa(10, 0, 0, 9, 2001)));
    assert_eq!(c.udp.get(sa(0, 0, 0, 0, 2000)), None);
}

#[test]
fn args_range_cross_mapping_pairs_ascend() {
    let c = Configs::load_from_args(&args(&["127.0.0.1", "udp", "100-102:200-202"])).unwrap();
    assert_eq!(c.udp.get(sa(0, 0, 0, 0, 100)), Some(sa(127, 0, 0, 1, 200)));
    assert_eq!(c.udp.get(sa(0, 0, 0, 0, 101)), Some(sa(127, 0, 0, 1, 201)));
    assert_eq!(c.udp.get(sa(0, 0, 0, 0, 102)), Some(sa(127, 0, 0, 1, 202)));
    assert_eq!(c.udp.get(sa(0, 0, 0, 0, 103)), None);
}

#[test]
fn args_without_mode_fail() {
    let e = Configs::load_from_args(&args(&["127.0.0.1", "9000"])).unwrap_err();
    assert_eq!(e, "TCP or UDP not selected");
}

#[test]
fn args_invalid_target_fails() {
    let e = Configs::load_from_args(&args(&["not-an-ip", "udp", "1"])).unwrap_err();
    assert_eq!(e, "Invalid target IP address");
}

#[test]
fn args_bad_port_token_fails() {
    let e = Configs::load_from_args(&args(&["127.0.0.1", "udp", "90x0"])).unwrap_err();
    assert_eq!(e, "Invalid port range syntax, not an int");
}

#[test]
fn duplicate_bind_key_keeps_later_rule() {
    let c = Configs::load_from_args(&args(&["10.0.0.1", "udp", "9000:9100", "9000:9200"]))
        .unwrap();
    assert_eq!(c.udp.get(sa(0, 0, 0, 0, 9000)), Some(sa(10, 0, 0, 1, 9200)));
    let active = c.udp.active_rules();
    assert_eq!(active.len(), 1);
    assert_eq!(active[0], (sa(0, 0, 0, 0, 9000), sa(10, 0, 0, 1, 9200)));
}

#[test]
fn json_range_entry_expands_pairwise() {
    let text = "{\"10.0.0.5\": [{\"host_port_start\": 100, \"host_port_end\": 102, \
                \"remote_port_start\": 200, \"remote_port_end\": 202, \"mode\": \"udp\"}]}";
    let c = Configs::load_from_json(text).unwrap();
    assert_eq!(c.udp.get(sa(0, 0, 0, 0, 100)), Some(sa(10, 0, 0, 5, 200)));
    assert_eq!(c.udp.get(sa(0, 0, 0, 0, 101)), Some(sa(10, 0, 0, 5, 201)));
    assert_eq!(c.udp.get(sa(0, 0, 0, 0, 102)), Some(sa(10, 0, 0, 5, 202)));
    assert_eq!(c.udp.active_rules().len(), 3);
    assert_eq!(c.tcp.len(), 0);
}

#[test]
fn json_single_port_defaults_remote_to_host() {
    let text = "{\"10.0.0.5\": [{\"host_port\": 4000, \"mode\": \"tcp\"}]}";
    let c = Configs::load_from_json(text).unwrap();
    assert_eq!(c.tcp.get(sa(0, 0, 0, 0, 4000)), Some(sa(10, 0, 0, 5, 4000)));
}

#[test]
fn json_remote_range_defaults_to_host_range() {
    let text = "{\"10.0.0.5\": [{\"host_port_start\": 10, \"host_port_end\": 11, \
                \"mode\": \"udp\"}]}";
    let c = Configs::load_from_json(text).unwrap();
    assert_eq!(c.udp.get(sa(0, 0, 0, 0, 10)), Some(sa(10, 0, 0, 5, 10)));
    assert_eq!(c.udp.get(sa(0, 0, 0, 0, 11)), Some(sa(10, 0, 0, 5, 11)));
}

#[test]
fn json_bind_address_is_used() {
    let text = "{\"10.0.0.5\": [{\"host_port\": 4000, \"bind\": \"127.0.0.1\", \
                \"mode\": \"udp\"}]}";
    let c = Configs::load_from_json(text).unwrap();
    assert_eq!(c.udp.get(sa(127, 0, 0, 1, 4000)), Some(sa(10, 0, 0, 5, 4000)));
    assert_eq!(c.udp.get(sa(0, 0, 0, 0, 4000)), None);
}

#[test]
fn json_range_length_mismatch_fails() {
    let text = "{\"10.0.0.5\": [{\"host_port_start\": 100, \"host_port_end\": 102, \
                \"remote_port_start\": 200, \"remote_port_end\": 203, \"mode\": \"udp\"}]}";
    let e = Configs::load_from_json(text).unwrap_err();
    assert_eq!(e, "Port length mismatch defined for entry");
}

#[test]
fn json_missing_mode_fails() {
    let text = "{\"10.0.0.5\": [{\"host_port\": 4000}]}";
    let e = Configs::load_from_json(text).unwrap_err();
    assert_eq!(e, "No mode defined for entry");
}

#[test]
fn json_unknown_mode_fails() {
    let text = "{\"10.0.0.5\": [{\"host_port\": 4000, \"mode\": \"sctp\"}]}";
    let e = Configs::load_from_json(text).unwrap_err();
    assert_eq!(e, "Invalid mode");
}

#[test]
fn json_missing_ports_fails() {
    let text = "{\"10.0.0.5\": [{\"mode\": \"udp\"}]}";
    let e = Configs::load_from_json(text).unwrap_err();
    assert_eq!(e, "No ports defined for entry");
}

#[test]
fn json_missing_range_end_fails() {
    let text = "{\"10.0.0.5\": [{\"host_port_start\": 100, \"mode\": \"udp\"}]}";
    let e = Configs::load_from_json(text).unwrap_err();
    assert_eq!(e, "No number found for port");
}

#[test]
fn json_non_number_port_fails() {
    let text = "{\"10.0.0.5\": [{\"host_port\": \"abc\", \"mode\": \"udp\"}]}";
    let e = Configs::load_from_json(text).unwrap_err();
    assert_eq!(e, "Invalid port range syntax, not a number");
}

#[test]
fn json_invalid_remote_key_fails() {
    let text = "{\"nope\": [{\"host_port\": 4000, \"mode\": \"udp\"}]}";
    let e = Configs::load_from_json(text).unwrap_err();
    assert_eq!(e, "Invalid IPv4 address");
}

#[test]
fn json_invalid_bind_fails() {
    let text = "{\"10.0.0.5\": [{\"host_port\": 4000, \"bind\": \"999.0.0.1\", \
                \"mode\": \"udp\"}]}";
    let e = Configs::load_from_json(text).unwrap_err();
    assert_eq!(e, "Bind address is invalid");
}

#[test]
fn json_top_level_must_be_object() {
    let e = Configs::load_from_json("[1, 2]").unwrap_err();
    assert_eq!(e, "Expected an object of objects");
}

#[test]
fn json_group_must_be_list() {
    let e = Configs::load_from_json("{\"10.0.0.5\": 7}").unwrap_err();
    assert_eq!(e, "Expected a list of entries");
}

#[test]
fn json_entry_must_be_object() {
    let e = Configs::load_from_json("{\"10.0.0.5\": [7]}").unwrap_err();
    assert_eq!(e, "Not an object for IPv4 address");
}

#[test]
fn json_unparsable_text_fails() {
    assert!(Configs::load_from_json("{not json").is_err());
}

#[test]
fn json_duplicate_bind_key_keeps_later_rule() {
    let text = "{\"10.0.0.5\": [{\"host_port\": 9000, \"remote_port\": 9100, \"mode\": \"udp\"}, \
                {\"host_port\": 9000, \"remote_port\": 9200, \"mode\": \"udp\"}]}";
    let c = Configs::load_from_json(text).unwrap();
    assert_eq!(c.udp.get(sa(0, 0, 0, 0, 9000)), Some(sa(10, 0, 0, 5, 9200)));
    assert_eq!(c.udp.active_rules().len(), 1);
}

#[test]
fn rule_map_replaces_value_for_repeated_key() {
    let mut m = swarm_proxy::config::RuleMap::new();
    let k = sa(0, 0, 0, 0, 9000);
    m.insert(k, sa(10, 0, 0, 1, 9100));
    m.insert(k, sa(10, 0, 0, 2, 9200));
    assert_eq!(m.get(k), Some(sa(10, 0, 0, 2, 9200)));
    let active = m.active_rules();
    assert_eq!(active, vec![(k, sa(10, 0, 0, 2, 9200))]);
}

#[test]
fn empty_rule_map_has_no_rules() {
    let m = swarm_proxy::config::RuleMap::new();
    assert_eq!(m.get(sa(0, 0, 0, 0, 1)), None);
    assert_eq!(m.active_rules(), vec![]);
    assert_eq!(m.len(), 0);
}
