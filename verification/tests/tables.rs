use mikrotik::table::{is_printable, row_of, titles};
use mikrotik::{lease_table, DhcpEntry};
use prettytable::format::consts::FORMAT_NO_LINESEP_WITH_TITLE;
use prettytable::{Cell, Row, Table};

fn lease(words: &[&str]) -> DhcpEntry {
    DhcpEntry::parse(words.iter().map(|word| word.to_string()).collect())
}

fn laptop() -> DhcpEntry {
    lease(&[
        "!re",
        "=address=10.0.0.5",
        "=mac-address=AA:BB:CC:DD:EE:FF",
        "=host-name=laptop",
        "=comment=office",
        "=last-seen=1m",
        "=expires-after=9m",
        "=status=bound",
        "=server=dhcp1",
        "=dynamic=true",
    ])
}

fn phone() -> DhcpEntry {
    lease(&["!re", "=address=10.0.0.16", "=mac-address=11:22:33:44:55:66", "=status=waiting"])
}

#[test]
fn titles_are_the_seven_columns() {
    assert_eq!(
        titles(),
        vec!["IP Address", "Hostname", "Comment", "MAC Address", "Last Seen", "Expires", "Status"]
    );
}

#[test]
fn row_of_picks_the_seven_fields_in_column_order() {
    assert_eq!(
        row_of(&laptop()),
        vec!["10.0.0.5", "laptop", "office", "AA:BB:CC:DD:EE:FF", "1m", "9m", "bound"]
    );
    assert_eq!(row_of(&DhcpEntry::default()), vec!["", "", "", "", "", "", ""]);
}

#[test]
fn lease_table_prints_titles_and_rows_in_order() {
    let table = lease_table(&vec![laptop(), phone()]).unwrap();
    let expected = [
        "+------------+----------+---------+-------------------+-----------+---------+---------+\n",
        "| IP Address | Hostname | Comment | MAC Address       | Last Seen | Expires | Status  |\n",
        "+------------+----------+---------+-------------------+-----------+---------+---------+\n",
        "| 10.0.0.5   | laptop   | office  | AA:BB:CC:DD:EE:FF | 1m        | 9m      | bound   |\n",
        "| 10.0.0.16  |          |         | 11:22:33:44:55:66 |           |         | waiting |\n",
        "+------------+----------+---------+-------------------+-----------+---------+---------+\n",
    ]
    .concat();
    assert_eq!(table.to_string(), expected);
}

#[test]
fn lease_table_holds_one_row_for_each_lease() {
    let table = lease_table(&vec![phone(), laptop(), phone()]).unwrap();
    assert_eq!(table.len(), 3);
    let second = table.get_row(1).unwrap();
    assert_eq!(second.len(), 7);
    let cells: Vec<String> = second.iter().map(|cell| cell.get_content()).collect();
    assert_eq!(cells, row_of(&laptop()));
    assert_eq!(table.get_row(0).unwrap().get_cell(0).unwrap().get_content(), "10.0.0.16");
    assert_eq!(table.get_row(2).unwrap().get_cell(6).unwrap().get_content(), "waiting");
}

#[test]
fn lease_table_of_no_leases_has_titles_only() {
    let table = lease_table(&Vec::new()).unwrap();
    assert_eq!(table.len(), 0);
    let expected = [
        "+------------+----------+---------+-------------+-----------+---------+--------+\n",
        "| IP Address | Hostname | Comment | MAC Address | Last Seen | Expires | Status |\n",
        "+------------+----------+---------+-------------+-----------+---------+--------+\n",
        "+------------+----------+---------+-------------+-----------+---------+--------+\n",
    ]
    .concat();
    assert_eq!(table.to_string(), expected);
}

#[test]
fn lease_table_refuses_an_escape_character() {
    let hostile = lease(&["=address=10.0.0.7", "=host-name=\u{1b}[31mred"]);
    assert!(lease_table(&vec![laptop(), hostile]).is_none());
    let hidden = lease(&["=address=10.0.0.7", "=server=\u{1b}[31mred"]);
    assert!(lease_table(&vec![hidden]).is_some());
}

#[test]
fn is_printable_looks_for_the_escape_character() {
    assert!(is_printable(""));
    assert!(is_printable("laptop"));
    assert!(is_printable("caf\u{e9} [31m"));
    assert!(!is_printable("\u{1b}"));
    assert!(!is_printable("a\u{1b}[0m"));
}

#[test]
fn lease_table_is_the_table_built_by_hand() {
    let mut expected = Table::new();
    expected.set_format(*FORMAT_NO_LINESEP_WITH_TITLE);
    expected.set_titles(Row::new(vec![
        Cell::new("IP Address").style_spec("b"),
        Cell::new("Hostname").style_spec("b"),
        Cell::new("Comment").style_spec("b"),
        Cell::new("MAC Address").style_spec("b"),
        Cell::new("Last Seen").style_spec("b"),
        Cell::new("Expires").style_spec("b"),
        Cell::new("Status").style_spec("b"),
    ]));
    expected.add_row(Row::new(vec![
        Cell::new("10.0.0.5"),
        Cell::new("laptop"),
        Cell::new("office"),
        Cell::new("AA:BB:CC:DD:EE:FF"),
        Cell::new("1m"),
        Cell::new("9m"),
        Cell::new("bound"),
    ]));
    assert_eq!(lease_table(&vec![laptop()]), Some(expected));
}

#[test]
fn lease_table_differs_from_a_table_with_plain_titles_or_rules_between_rows() {
    let laid = lease_table(&Vec::new()).unwrap();
    let mut plain = Table::new();
    plain.set_format(*FORMAT_NO_LINESEP_WITH_TITLE);
    plain.set_titles(Row::new(titles().iter().map(|title| Cell::new(title)).collect()));
    assert_ne!(laid, plain);
    let mut ruled = Table::new();
    ruled.set_titles(Row::new(
        titles().iter().map(|title| Cell::new(title).style_spec("b")).collect(),
    ));
    assert_ne!(laid, ruled);
    ruled.set_format(*FORMAT_NO_LINESEP_WITH_TITLE);
    assert_eq!(laid, ruled);
}
