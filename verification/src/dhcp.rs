//! The DHCP lease record that a reply sentence of the lease table carries.

use crate::attributes::{
    attribute_pairs, attributes_of, lemma_attribute_pairs, map_of, AttributeMap,
};
use crate::word::{is_true, parse_boolean, same_text, split_attribute};
use vstd::prelude::*;

verus! {

/// One row of the router's DHCP lease table. A field that the sentence does
/// not mention is empty or false.
#[derive(Debug, Clone, PartialEq, Eq)]
pub struct DhcpEntry {
    /// The leased address. Attribute `address`.
    pub address: String,
    /// The hardware address of the client. Attribute `mac-address`.
    pub mac_address: String,
    /// The identifier that the client sent. Attribute `client-id`.
    pub client_id: String,
    /// The address lists that the lease joins. Attribute `address-lists`.
    pub address_lists: String,
    /// The server that gave the lease. Attribute `server`.
    pub server: String,
    /// The options set for the lease. Attribute `dhcp-option`.
    pub dhcp_option: String,
    /// The state of the lease. Attribute `status`.
    pub status: String,
    /// The time until the lease ends. Attribute `expires-after`.
    pub expires_after: String,
    /// The time since the client was last seen. Attribute `last-seen`.
    pub last_seen: String,
    /// The address in use. Attribute `active-address`.
    pub active_address: String,
    /// The hardware address in use. Attribute `active-mac-address`.
    pub active_mac_address: String,
    /// The client identifier in use. Attribute `active-client-id`.
    pub active_client_id: String,
    /// The server in use. Attribute `active-server`.
    pub active_server: String,
    /// The name that the client gave. Attribute `host-name`.
    pub host_name: String,
    /// Whether the lease came from a RADIUS server. Attribute `radius`.
    pub radius: bool,
    /// Whether the lease was made on demand. Attribute `dynamic`.
    pub dynamic: bool,
    /// Whether the lease is blocked. Attribute `blocked`.
    pub blocked: bool,
    /// Whether the lease is switched off. Attribute `disabled`.
    pub disabled: bool,
    /// A note on the lease. Attribute `comment`.
    pub comment: String,
}

/// What a `DhcpEntry` holds, as text.
pub struct Lease {
    pub address: Seq<char>,
    pub mac_address: Seq<char>,
    pub client_id: Seq<char>,
    pub address_lists: Seq<char>,
    pub server: Seq<char>,
    pub dhcp_option: Seq<char>,
    pub status: Seq<char>,
    pub expires_after: Seq<char>,
    pub last_seen: Seq<char>,
    pub active_address: Seq<char>,
    pub active_mac_address: Seq<char>,
    pub active_client_id: Seq<char>,
    pub active_server: Seq<char>,
    pub host_name: Seq<char>,
    pub radius: bool,
    pub dynamic: bool,
    pub blocked: bool,
    pub disabled: bool,
    pub comment: Seq<char>,
}

impl View for DhcpEntry {
    type V = Lease;

    open spec fn view(&self) -> Lease {
        Lease {
            address: self.address@,
            mac_address: self.mac_address@,
            client_id: self.client_id@,
            address_lists: self.address_lists@,
            server: self.server@,
            dhcp_option: self.dhcp_option@,
            status: self.status@,
            expires_after: self.expires_after@,
            last_seen: self.last_seen@,
            active_address: self.active_address@,
            active_mac_address: self.active_mac_address@,
            active_client_id: self.active_client_id@,
            active_server: self.active_server@,
            host_name: self.host_name@,
            radius: self.radius,
            dynamic: self.dynamic,
            blocked: self.blocked,
            disabled: self.disabled,
            comment: self.comment@,
        }
    }
}

/// The value that `key` is bound to, or the empty text where it is unbound.
pub open spec fn text_of(attributes: Map<Seq<char>, Seq<char>>, key: Seq<char>) -> Seq<char> {
    if attributes.contains_key(key) {
        attributes[key]
    } else {
        Seq::empty()
    }
}

/// The lease that a mapping of attributes describes.
pub open spec fn lease_of(attributes: Map<Seq<char>, Seq<char>>) -> Lease {
    Lease {
        address: text_of(attributes, "address"@),
        mac_address: text_of(attributes, "mac-address"@),
        client_id: text_of(attributes, "client-id"@),
        address_lists: text_of(attributes, "address-lists"@),
        server: text_of(attributes, "server"@),
        dhcp_option: text_of(attributes, "dhcp-option"@),
        status: text_of(attributes, "status"@),
        expires_after: text_of(attributes, "expires-after"@),
        last_seen: text_of(attributes, "last-seen"@),
        active_address: text_of(attributes, "active-address"@),
        active_mac_address: text_of(attributes, "active-mac-address"@),
        active_client_id: text_of(attributes, "active-client-id"@),
        active_server: text_of(attributes, "active-server"@),
        host_name: text_of(attributes, "host-name"@),
        radius: is_true(text_of(attributes, "radius"@)),
        dynamic: is_true(text_of(attributes, "dynamic"@)),
        blocked: is_true(text_of(attributes, "blocked"@)),
        disabled: is_true(text_of(attributes, "disabled"@)),
        comment: text_of(attributes, "comment"@),
    }
}

/// The lease with no attribute set.
pub open spec fn blank_lease() -> Lease {
    Lease {
        address: Seq::empty(),
        mac_address: Seq::empty(),
        client_id: Seq::empty(),
        address_lists: Seq::empty(),
        server: Seq::empty(),
        dhcp_option: Seq::empty(),
        status: Seq::empty(),
        expires_after: Seq::empty(),
        last_seen: Seq::empty(),
        active_address: Seq::empty(),
        active_mac_address: Seq::empty(),
        active_client_id: Seq::empty(),
        active_server: Seq::empty(),
        host_name: Seq::empty(),
        radius: false,
        dynamic: false,
        blocked: false,
        disabled: false,
        comment: Seq::empty(),
    }
}

/// The lease after one attribute is read: the field that `key` names takes
/// `value`; a key that names no field changes nothing.
pub open spec fn with_attribute(lease: Lease, key: Seq<char>, value: Seq<char>) -> Lease {
    if key == "address"@ {
        Lease { address: value, ..lease }
    } else if key == "mac-address"@ {
        Lease { mac_address: value, ..lease }
    } else if key == "client-id"@ {
        Lease { client_id: value, ..lease }
    } else if key == "address-lists"@ {
        Lease { address_lists: value, ..lease }
    } else if key == "server"@ {
        Lease { server: value, ..lease }
    } else if key == "dhcp-option"@ {
        Lease { dhcp_option: value, ..lease }
    } else if key == "status"@ {
        Lease { status: value, ..lease }
    } else if key == "expires-after"@ {
        Lease { expires_after: value, ..lease }
    } else if key == "last-seen"@ {
        Lease { last_seen: value, ..lease }
    } else if key == "active-address"@ {
        Lease { active_address: value, ..lease }
    } else if key == "active-mac-address"@ {
        Lease { active_mac_address: value, ..lease }
    } else if key == "active-client-id"@ {
        Lease { active_client_id: value, ..lease }
    } else if key == "active-server"@ {
        Lease { active_server: value, ..lease }
    } else if key == "host-name"@ {
        Lease { host_name: value, ..lease }
    } else if key == "radius"@ {
        Lease { radius: is_true(value), ..lease }
    } else if key == "dynamic"@ {
        Lease { dynamic: is_true(value), ..lease }
    } else if key == "blocked"@ {
        Lease { blocked: is_true(value), ..lease }
    } else if key == "disabled"@ {
        Lease { disabled: is_true(value), ..lease }
    } else if key == "comment"@ {
        Lease { comment: value, ..lease }
    } else {
        lease
    }
}

/// Length and first two letters of a name: enough to tell the names of the
/// fields apart.
spec fn mark(name: Seq<char>) -> (nat, char, char) {
    (name.len(), name[0], name[1])
}

/// The mark of each field's name.
proof fn lemma_marks()
    ensures
        mark("address"@) == (7nat, 'a', 'd'),
        mark("mac-address"@) == (11nat, 'm', 'a'),
        mark("client-id"@) == (9nat, 'c', 'l'),
        mark("address-lists"@) == (13nat, 'a', 'd'),
        mark("server"@) == (6nat, 's', 'e'),
        mark("dhcp-option"@) == (11nat, 'd', 'h'),
        mark("status"@) == (6nat, 's', 't'),
        mark("expires-after"@) == (13nat, 'e', 'x'),
        mark("last-seen"@) == (9nat, 'l', 'a'),
        mark("active-address"@) == (14nat, 'a', 'c'),
        mark("active-mac-address"@) == (18nat, 'a', 'c'),
        mark("active-client-id"@) == (16nat, 'a', 'c'),
        mark("active-server"@) == (13nat, 'a', 'c'),
        mark("host-name"@) == (9nat, 'h', 'o'),
        mark("radius"@) == (6nat, 'r', 'a'),
        mark("dynamic"@) == (7nat, 'd', 'y'),
        mark("blocked"@) == (7nat, 'b', 'l'),
        mark("disabled"@) == (8nat, 'd', 'i'),
        mark("comment"@) == (7nat, 'c', 'o'),
{
    reveal_strlit("address");
    reveal_strlit("mac-address");
    reveal_strlit("client-id");
    reveal_strlit("address-lists");
    reveal_strlit("server");
    reveal_strlit("dhcp-option");
    reveal_strlit("status");
    reveal_strlit("expires-after");
    reveal_strlit("last-seen");
    reveal_strlit("active-address");
    reveal_strlit("active-mac-address");
    reveal_strlit("active-client-id");
    reveal_strlit("active-server");
    reveal_strlit("host-name");
    reveal_strlit("radius");
    reveal_strlit("dynamic");
    reveal_strlit("blocked");
    reveal_strlit("disabled");
    reveal_strlit("comment");
}

/// The text `true` is not empty.
proof fn lemma_true_is_not_empty()
    ensures
        !is_true(Seq::empty()),
{
    reveal_strlit("true");
    assert("true"@.len() == 4);
}

/// A mapping without bindings describes the blank lease.
pub proof fn lemma_lease_of_nothing()
    ensures
        lease_of(Map::empty()) == blank_lease(),
{
    lemma_true_is_not_empty();
}

/// A lease whose fields are those of `lease`, but for the one that `key`
/// names, is `lease` with that attribute read.
proof fn lemma_with_attribute(lease: Lease, after: Lease, key: Seq<char>, value: Seq<char>)
    requires
        after.address == if key == "address"@ { value } else { lease.address },
        after.mac_address == if key == "mac-address"@ { value } else { lease.mac_address },
        after.client_id == if key == "client-id"@ { value } else { lease.client_id },
        after.address_lists == if key == "address-lists"@ { value } else { lease.address_lists },
        after.server == if key == "server"@ { value } else { lease.server },
        after.dhcp_option == if key == "dhcp-option"@ { value } else { lease.dhcp_option },
        after.status == if key == "status"@ { value } else { lease.status },
        after.expires_after == if key == "expires-after"@ { value } else { lease.expires_after },
        after.last_seen == if key == "last-seen"@ { value } else { lease.last_seen },
        after.active_address == if key == "active-address"@ { value } else { lease.active_address },
        after.active_mac_address == if key == "active-mac-address"@ {
            value
        } else {
            lease.active_mac_address
        },
        after.active_client_id == if key == "active-client-id"@ {
            value
        } else {
            lease.active_client_id
        },
        after.active_server == if key == "active-server"@ { value } else { lease.active_server },
        after.host_name == if key == "host-name"@ { value } else { lease.host_name },
        after.radius == if key == "radius"@ { is_true(value) } else { lease.radius },
        after.dynamic == if key == "dynamic"@ { is_true(value) } else { lease.dynamic },
        after.blocked == if key == "blocked"@ { is_true(value) } else { lease.blocked },
        after.disabled == if key == "disabled"@ { is_true(value) } else { lease.disabled },
        after.comment == if key == "comment"@ { value } else { lease.comment },
    ensures
        after == with_attribute(lease, key, value),
{
    lemma_marks();
}

/// What `name` is bound to after `key` is bound to `value`.
proof fn lemma_text_of_insert(
    attributes: Map<Seq<char>, Seq<char>>,
    key: Seq<char>,
    value: Seq<char>,
    name: Seq<char>,
)
    ensures
        text_of(attributes.insert(key, value), name) == if key == name {
            value
        } else {
            text_of(attributes, name)
        },
{
}

/// To bind one more attribute is to read it into the lease.
pub proof fn lemma_lease_of_insert(
    attributes: Map<Seq<char>, Seq<char>>,
    key: Seq<char>,
    value: Seq<char>,
)
    ensures
        lease_of(attributes.insert(key, value)) == with_attribute(lease_of(attributes), key, value),
{
    lemma_text_of_insert(attributes, key, value, "address"@);
    lemma_text_of_insert(attributes, key, value, "mac-address"@);
    lemma_text_of_insert(attributes, key, value, "client-id"@);
    lemma_text_of_insert(attributes, key, value, "address-lists"@);
    lemma_text_of_insert(attributes, key, value, "server"@);
    lemma_text_of_insert(attributes, key, value, "dhcp-option"@);
    lemma_text_of_insert(attributes, key, value, "status"@);
    lemma_text_of_insert(attributes, key, value, "expires-after"@);
    lemma_text_of_insert(attributes, key, value, "last-seen"@);
    lemma_text_of_insert(attributes, key, value, "active-address"@);
    lemma_text_of_insert(attributes, key, value, "active-mac-address"@);
    lemma_text_of_insert(attributes, key, value, "active-client-id"@);
    lemma_text_of_insert(attributes, key, value, "active-server"@);
    lemma_text_of_insert(attributes, key, value, "host-name"@);
    lemma_text_of_insert(attributes, key, value, "radius"@);
    lemma_text_of_insert(attributes, key, value, "dynamic"@);
    lemma_text_of_insert(attributes, key, value, "blocked"@);
    lemma_text_of_insert(attributes, key, value, "disabled"@);
    lemma_text_of_insert(attributes, key, value, "comment"@);
    lemma_with_attribute(
        lease_of(attributes),
        lease_of(attributes.insert(key, value)),
        key,
        value,
    );
}

/// A lease read word by word out of a sentence is the lease read out of the
/// sentence's attribute pairs.
pub proof fn lemma_lease_through_pairs(sentence: Seq<Seq<char>>)
    ensures
        lease_of(attributes_of(sentence)) == lease_of(map_of(attribute_pairs(sentence))),
{
    lemma_attribute_pairs(sentence);
}

impl Default for DhcpEntry {
    fn default() -> (entry: DhcpEntry)
        ensures
            entry@ == blank_lease(),
    {
        DhcpEntry {
            address: String::new(),
            mac_address: String::new(),
            client_id: String::new(),
            address_lists: String::new(),
            server: String::new(),
            dhcp_option: String::new(),
            status: String::new(),
            expires_after: String::new(),
            last_seen: String::new(),
            active_address: String::new(),
            active_mac_address: String::new(),
            active_client_id: String::new(),
            active_server: String::new(),
            host_name: String::new(),
            radius: false,
            dynamic: false,
            blocked: false,
            disabled: false,
            comment: String::new(),
        }
    }
}

impl DhcpEntry {
    /// Reads one attribute into the entry.
    fn assign(&mut self, key: &str, value: String)
        ensures
            final(self)@ == with_attribute(old(self)@, key@, value@),
    {
        if same_text(key, "address") {
            self.address = value;
        } else if same_text(key, "mac-address") {
            self.mac_address = value;
        } else if same_text(key, "client-id") {
            self.client_id = value;
        } else if same_text(key, "address-lists") {
            self.address_lists = value;
        } else if same_text(key, "server") {
            self.server = value;
        } else if same_text(key, "dhcp-option") {
            self.dhcp_option = value;
        } else if same_text(key, "status") {
            self.status = value;
        } else if same_text(key, "expires-after") {
            self.expires_after = value;
        } else if same_text(key, "last-seen") {
            self.last_seen = value;
        } else if same_text(key, "active-address") {
            self.active_address = value;
        } else if same_text(key, "active-mac-address") {
            self.active_mac_address = value;
        } else if same_text(key, "active-client-id") {
            self.active_client_id = value;
        } else if same_text(key, "active-server") {
            self.active_server = value;
        } else if same_text(key, "host-name") {
            self.host_name = value;
        } else if same_text(key, "radius") {
            self.radius = parse_boolean(value.as_str());
        } else if same_text(key, "dynamic") {
            self.dynamic = parse_boolean(value.as_str());
        } else if same_text(key, "blocked") {
            self.blocked = parse_boolean(value.as_str());
        } else if same_text(key, "disabled") {
            self.disabled = parse_boolean(value.as_str());
        } else if same_text(key, "comment") {
            self.comment = value;
        }
    }

    /// Reads the lease that a sentence carries. Words that are no attribute
    /// words and keys that name no field are passed over.
    pub fn parse(sentence: Vec<String>) -> (entry: DhcpEntry)
        ensures
            entry@ == lease_of(attributes_of(sentence.deep_view())),
    {
        let ghost words = sentence.deep_view();
        let mut entry = DhcpEntry::default();
        proof {
            lemma_lease_of_nothing();
        }
        let mut index: usize = 0;
        while index < sentence.len()
            invariant
                index <= sentence.len(),
                words == sentence.deep_view(),
                entry@ == lease_of(attributes_of(words.take(index as int))),
            decreases sentence.len() - index,
        {
            proof {
                assert(words.take(index + 1).drop_last() == words.take(index as int));
                assert(words.take(index + 1).last() == sentence[index as int]@);
            }
            match split_attribute(sentence[index].as_str()) {
                Some((key, value)) => {
                    proof {
                        lemma_lease_of_insert(
                            attributes_of(words.take(index as int)),
                            key@,
                            value@,
                        );
                    }
                    entry.assign(key.as_str(), value);
                },
                None => {},
            }
            index = index + 1;
        }
        assert(words.take(index as int) == words);
        entry
    }

    /// The lease that a mapping of attributes describes.
    pub fn from_attributes(attributes: &AttributeMap) -> (entry: DhcpEntry)
        ensures
            entry@ == lease_of(attributes@),
    {
        DhcpEntry {
            address: text(attributes, "address"),
            mac_address: text(attributes, "mac-address"),
            client_id: text(attributes, "client-id"),
            address_lists: text(attributes, "address-lists"),
            server: text(attributes, "server"),
            dhcp_option: text(attributes, "dhcp-option"),
            status: text(attributes, "status"),
            expires_after: text(attributes, "expires-after"),
            last_seen: text(attributes, "last-seen"),
            active_address: text(attributes, "active-address"),
            active_mac_address: text(attributes, "active-mac-address"),
            active_client_id: text(attributes, "active-client-id"),
            active_server: text(attributes, "active-server"),
            host_name: text(attributes, "host-name"),
            radius: flag(attributes, "radius"),
            dynamic: flag(attributes, "dynamic"),
            blocked: flag(attributes, "blocked"),
            disabled: flag(attributes, "disabled"),
            comment: text(attributes, "comment"),
        }
    }
}

/// A copy of the value that `key` is bound to, or the empty text.
fn text(attributes: &AttributeMap, key: &str) -> (value: String)
    ensures
        value@ == text_of(attributes@, key@),
{
    match attributes.get(key) {
        Some(found) => found.clone(),
        None => String::new(),
    }
}

/// Whether `key` is bound to `true`.
fn flag(attributes: &AttributeMap, key: &str) -> (set: bool)
    ensures
        set == is_true(text_of(attributes@, key@)),
{
    match attributes.get(key) {
        Some(found) => parse_boolean(found.as_str()),
        None => {
            proof {
                lemma_true_is_not_empty();
            }
            false
        },
    }
}

} // verus!
