use mikrotik::{
    dhcp_table, external_ip, external_ip_line, request_path, table_map, AttributeMap, Command,
};

fn row(words: &[&str]) -> Vec<String> {
    words.iter().map(|word| word.to_string()).collect()
}

fn rows_of(sentences: &[&[&str]]) -> Vec<AttributeMap> {
    let records: Vec<Vec<String>> = sentences.iter().map(|words| row(words)).collect();
    table_map(&records)
}

#[test]
fn resolve_knows_the_two_named_commands() {
    assert_eq!(Command::resolve("dhcp-table"), Command::DhcpTable);
    assert_eq!(Command::resolve("external-ip"), Command::ExternalIp);
}

#[test]
fn resolve_takes_any_other_name_as_a_path() {
    assert_eq!(Command::resolve("/interface/print"), Command::Raw);
    assert_eq!(Command::resolve(""), Command::Raw);
    assert_eq!(Command::resolve("dhcp_table"), Command::Raw);
    assert_eq!(Command::resolve("DHCP-TABLE"), Command::Raw);
    assert_eq!(Command::resolve("external-ip "), Command::Raw);
}

#[test]
fn request_path_of_each_command() {
    assert_eq!(request_path("dhcp-table"), "/ip/dhcp-server/lease/print");
    assert_eq!(request_path("external-ip"), "/ip/address/print");
    assert_eq!(request_path("/interface/print"), "/interface/print");
    assert_eq!(request_path(""), "");
}

#[test]
fn external_ip_strips_the_prefix_length() {
    let rows = rows_of(&[&["!re", "=address=192.168.1.5/24", "=interface=ether1"]]);
    assert_eq!(external_ip(&rows, "ether1"), Some("192.168.1.5".to_string()));
    assert_eq!(external_ip_line(external_ip(&rows, "ether1")), "192.168.1.5");
}

#[test]
fn external_ip_without_a_matching_row_is_not_found() {
    let rows = rows_of(&[&["!re", "=address=192.168.1.5/24", "=interface=ether2"]]);
    assert_eq!(external_ip(&rows, "ether1"), None);
    assert_eq!(external_ip_line(external_ip(&rows, "ether1")), "Not found");
    assert_eq!(external_ip(&Vec::new(), "ether1"), None);
    assert_eq!(external_ip_line(external_ip(&Vec::new(), "ether1")), "Not found");
}

#[test]
fn external_ip_takes_the_first_matching_row() {
    let rows = rows_of(&[
        &["!re", "=address=10.0.0.1/8", "=interface=bridge"],
        &["!re", "=address=192.168.1.5/24", "=interface=ether1"],
        &["!re", "=address=172.16.0.9/12", "=interface=ether1"],
    ]);
    assert_eq!(external_ip(&rows, "ether1"), Some("192.168.1.5".to_string()));
    assert_eq!(external_ip(&rows, "bridge"), Some("10.0.0.1".to_string()));
}

#[test]
fn external_ip_matches_the_interface_exactly() {
    let rows = rows_of(&[&["!re", "=address=192.168.1.5/24", "=interface=ether1"]]);
    assert_eq!(external_ip(&rows, "ether"), None);
    assert_eq!(external_ip(&rows, "ether10"), None);
    assert_eq!(external_ip(&rows, "Ether1"), None);
    assert_eq!(external_ip(&rows, ""), None);
}

#[test]
fn external_ip_of_a_row_without_address_is_nothing() {
    let rows = rows_of(&[
        &["!re", "=interface=ether1"],
        &["!re", "=address=192.168.1.5/24", "=interface=ether1"],
    ]);
    assert_eq!(external_ip(&rows, "ether1"), None);
}

#[test]
fn external_ip_skips_rows_without_interface() {
    let rows = rows_of(&[
        &["!re", "=address=10.0.0.1/8"],
        &["!re", "=address=192.168.1.5/24", "=interface=ether1"],
    ]);
    assert_eq!(external_ip(&rows, "ether1"), Some("192.168.1.5".to_string()));
}

#[test]
fn external_ip_keeps_an_address_without_prefix_length() {
    let rows = rows_of(&[&["=address=192.168.1.5", "=interface=ether1"]]);
    assert_eq!(external_ip(&rows, "ether1"), Some("192.168.1.5".to_string()));
}

#[test]
fn external_ip_cuts_at_the_first_slash() {
    let rows = rows_of(&[
        &["=address=2001:db8::1/64/x", "=interface=a"],
        &["=address=/24", "=interface=b"],
        &["=address=", "=interface=c"],
    ]);
    assert_eq!(external_ip(&rows, "a"), Some("2001:db8::1".to_string()));
    assert_eq!(external_ip(&rows, "b"), Some(String::new()));
    assert_eq!(external_ip(&rows, "c"), Some(String::new()));
}

#[test]
fn external_ip_line_prints_the_address_as_it_is() {
    assert_eq!(external_ip_line(Some("10.0.0.1".to_string())), "10.0.0.1");
    assert_eq!(external_ip_line(Some(String::new())), "");
    assert_eq!(external_ip_line(None), "Not found");
}

#[test]
fn table_map_reads_each_record_in_order() {
    let records = vec![
        row(&["!re", "=name=ether1", "=mtu=1500"]),
        row(&["!re"]),
        row(&["!re", "=name=ether2", "=name=wan"]),
    ];
    let rows = table_map(&records);
    assert_eq!(rows.len(), 3);
    assert_eq!(rows[0].get("name"), Some(&"ether1".to_string()));
    assert_eq!(rows[0].get("mtu"), Some(&"1500".to_string()));
    assert_eq!(rows[0].len(), 2);
    assert_eq!(rows[1].len(), 0);
    assert_eq!(rows[2].get("name"), Some(&"wan".to_string()));
    assert_eq!(rows[2].len(), 1);
    assert_eq!(table_map(&Vec::new()).len(), 0);
}

#[test]
fn dhcp_table_reads_each_record_in_order() {
    let records = vec![
        row(&["!re", "=address=10.0.0.9", "=host-name=zeta"]),
        row(&["!re", "=address=10.0.0.1", "=host-name=alpha", "=blocked=true"]),
        row(&["!re"]),
    ];
    let entries = dhcp_table(records);
    assert_eq!(entries.len(), 3);
    assert_eq!(entries[0].address, "10.0.0.9");
    assert_eq!(entries[0].host_name, "zeta");
    assert!(!entries[0].blocked);
    assert_eq!(entries[1].address, "10.0.0.1");
    assert_eq!(entries[1].host_name, "alpha");
    assert!(entries[1].blocked);
    assert_eq!(entries[2].address, "");
    assert_eq!(dhcp_table(Vec::new()).len(), 0);
}
