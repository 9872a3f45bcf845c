use mikrotik::word::{find_char, same_text};
use mikrotik::{parse_boolean, split_attribute};

fn pair(key: &str, value: &str) -> Option<(String, String)> {
    Some((key.to_string(), value.to_string()))
}

#[test]
fn parse_boolean_is_strict() {
    assert_eq!(parse_boolean("true"), true);
    assert_eq!(parse_boolean("True"), false);
    assert_eq!(parse_boolean("1"), false);
    assert_eq!(parse_boolean(""), false);
}

#[test]
fn parse_boolean_rejects_near_misses() {
    assert!(!parse_boolean("yes"));
    assert!(!parse_boolean("false"));
    assert!(!parse_boolean("true "));
    assert!(!parse_boolean(" true"));
    assert!(!parse_boolean("tru"));
    assert!(!parse_boolean("truee"));
    assert!(!parse_boolean("TRUE"));
}

#[test]
fn split_attribute_takes_key_and_value() {
    assert_eq!(split_attribute("=interface=ether1"), pair("interface", "ether1"));
    assert_eq!(split_attribute("=address=192.168.1.5/24"), pair("address", "192.168.1.5/24"));
}

#[test]
fn split_attribute_stops_at_the_second_equals() {
    assert_eq!(split_attribute("=ranges=10.0.0.1=10.0.0.9"), pair("ranges", "10.0.0.1=10.0.0.9"));
    assert_eq!(split_attribute("=k=="), pair("k", "="));
    assert_eq!(split_attribute("=k=a=b=c"), pair("k", "a=b=c"));
}

#[test]
fn split_attribute_allows_empty_key_and_value() {
    assert_eq!(split_attribute("=comment="), pair("comment", ""));
    assert_eq!(split_attribute("=="), pair("", ""));
    assert_eq!(split_attribute("==value"), pair("", "value"));
}

#[test]
fn split_attribute_drops_words_without_a_second_equals() {
    assert_eq!(split_attribute("=address"), None);
    assert_eq!(split_attribute("="), None);
}

#[test]
fn split_attribute_drops_words_that_do_not_begin_with_equals() {
    assert_eq!(split_attribute(""), None);
    assert_eq!(split_attribute("!re"), None);
    assert_eq!(split_attribute("!done"), None);
    assert_eq!(split_attribute("/ip/address/print"), None);
    assert_eq!(split_attribute("a=b=c"), None);
    assert_eq!(split_attribute(" =a=b"), None);
}

#[test]
fn split_attribute_counts_characters_not_bytes() {
    assert_eq!(split_attribute("=host-name=caf\u{e9}=\u{2603}"), pair("host-name", "caf\u{e9}=\u{2603}"));
    assert_eq!(split_attribute("=\u{e9}t\u{e9}=\u{fc}"), pair("\u{e9}t\u{e9}", "\u{fc}"));
}

#[test]
fn find_char_gives_the_first_index_from_the_start_given() {
    assert_eq!(find_char("=a=b", '=', 0), 0);
    assert_eq!(find_char("=a=b", '=', 1), 2);
    assert_eq!(find_char("=a=b", '=', 2), 2);
    assert_eq!(find_char("=a=b", '=', 3), 4);
    assert_eq!(find_char("\u{e9}/x", '/', 0), 1);
}

#[test]
fn find_char_gives_the_length_where_nothing_is_found() {
    assert_eq!(find_char("abc", '=', 0), 3);
    assert_eq!(find_char("", '=', 0), 0);
    assert_eq!(find_char("abc", 'a', 7), 3);
    assert_eq!(find_char("\u{e9}\u{e9}", '=', 0), 2);
}

#[test]
fn same_text_compares_character_by_character() {
    assert!(same_text("", ""));
    assert!(same_text("!done", "!done"));
    assert!(!same_text("!done", "!don"));
    assert!(!same_text("!don", "!done"));
    assert!(!same_text("!done", "!dome"));
    assert!(!same_text("", "a"));
    assert!(same_text("caf\u{e9}", "caf\u{e9}"));
}
