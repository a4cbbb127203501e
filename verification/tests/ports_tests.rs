use swarm_proxy::ports::{parse_port_ends, parse_port_range, parse_single};

#[test]
fn single_port_parses() {
    assert_eq!(parse_single("9000"), Ok(9000));
    assert_eq!(parse_single("0"), Ok(0));
    assert_eq!(parse_single("65535"), Ok(65535));
    assert_eq!(parse_single("+25"), Ok(25));
}

#[test]
fn single_port_rejects_garbage() {
    assert_eq!(parse_single("x"), Err("Invalid port range syntax, not an int"));
    assert_eq!(parse_single(""), Err("Invalid port range syntax, not an int"));
    assert_eq!(parse_single("65536"), Err("Invalid port range syntax, not an int"));
    assert_eq!(parse_single("-1"), Err("Invalid port range syntax, not an int"));
}

#[test]
fn port_ends_parse() {
    assert_eq!(parse_port_ends("100-102"), Ok((100, 102)));
    assert_eq!(parse_port_ends("7-7"), Ok((7, 7)));
}

#[test]
fn port_ends_reject_descending() {
    assert_eq!(
        parse_port_ends("102-100"),
        Err("Invalid port range syntax, start > end")
    );
}

#[test]
fn port_ends_reject_wrong_shape() {
    assert_eq!(
        parse_port_ends("100-102-104"),
        Err("Invalid port range syntax, unexpected -")
    );
    assert_eq!(parse_port_ends("100"), Err("Invalid port range syntax, unexpected -"));
    assert_eq!(parse_port_ends("a-b"), Err("Invalid port range syntax, not an int"));
}

#[test]
fn cross_mapping_ranges_pair_up_in_order() {
    let (host, remote) = parse_port_range("100-102:200-202").unwrap();
    assert_eq!(host, vec![100, 101, 102]);
    assert_eq!(remote, vec![200, 201, 202]);
}

#[test]
fn cross_mapping_length_mismatch_fails() {
    assert_eq!(
        parse_port_range("100-102:200-203"),
        Err("Port range length mismatch")
    );
}

#[test]
fn descending_range_fails() {
    assert_eq!(
        parse_port_range("5-3"),
        Err("Invalid port range syntax, start > end")
    );
    assert_eq!(
        parse_port_range("5-3:7-9"),
        Err("Invalid port range syntax, start > end")
    );
}

#[test]
fn single_token_maps_to_itself() {
    assert_eq!(parse_port_range("9000"), Ok((vec![9000], vec![9000])));
}

#[test]
fn plain_range_maps_to_itself() {
    assert_eq!(
        parse_port_range("10-12"),
        Ok((vec![10, 11, 12], vec![10, 11, 12]))
    );
}

#[test]
fn cross_mapping_single_ports() {
    assert_eq!(parse_port_range("1000:2000"), Ok((vec![1000], vec![2000])));
}

#[test]
fn too_many_colons_fail() {
    assert_eq!(
        parse_port_range("1:2:3"),
        Err("Invalid port range syntax, unexpected :")
    );
}

#[test]
fn cross_mapping_range_to_single_fails() {
    // The right side of a range cross mapping must itself be a range.
    assert_eq!(
        parse_port_range("1-2:5"),
        Err("Invalid port range syntax, unexpected -")
    );
}

#[test]
fn sign_alone_is_not_a_port() {
    assert_eq!(parse_single("+"), Err("Invalid port range syntax, not an int"));
}

#[test]
fn empty_cross_side_fails() {
    assert_eq!(
        parse_port_range("9000:"),
        Err("Invalid port range syntax, not an int")
    );
}

#[test]
fn range_only_on_the_right_fails() {
    // A dash on the right side alone is read as a single port and rejected.
    assert_eq!(
        parse_port_range("5:1-2"),
        Err("Invalid port range syntax, not an int")
    );
}
