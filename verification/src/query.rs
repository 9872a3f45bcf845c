//! The commands of the client: which path each one asks the router for, and
//! what it makes of the records that come back.

use crate::attributes::{attribute_pairs, attributes_of, AttributeMap};
use crate::dhcp::{lease_of, DhcpEntry};
use crate::word::{find_char, first_at, lemma_first_at, lemma_first_at_is, same_text};
use vstd::prelude::*;

verus! {

/// What a command name asks for.
#[derive(Clone, Copy, Debug, PartialEq, Eq, Structural)]
pub enum Command {
    /// `dhcp-table`: the lease table of the DHCP server.
    DhcpTable,
    /// `external-ip`: the address of one interface.
    ExternalIp,
    /// Any other name: the name is itself the path to print.
    Raw,
}

/// The command that a name stands for.
pub open spec fn command_of(name: Seq<char>) -> Command {
    if name == "dhcp-table"@ {
        Command::DhcpTable
    } else if name == "external-ip"@ {
        Command::ExternalIp
    } else {
        Command::Raw
    }
}

/// The path that a command name asks the router for.
pub open spec fn path_of(name: Seq<char>) -> Seq<char> {
    match command_of(name) {
        Command::DhcpTable => "/ip/dhcp-server/lease/print"@,
        Command::ExternalIp => "/ip/address/print"@,
        Command::Raw => name,
    }
}

/// Whether a row of the address table belongs to the interface `name`.
pub open spec fn is_on_interface(row: Map<Seq<char>, Seq<char>>, name: Seq<char>) -> bool {
    row.contains_key("interface"@) && row["interface"@] == name
}

/// The index of the first row on the interface `name`, or the number of rows
/// where none is on it.
pub open spec fn row_of_interface(rows: Seq<Map<Seq<char>, Seq<char>>>, name: Seq<char>) -> int {
    first_at(rows.map_values(|row: Map<Seq<char>, Seq<char>>| is_on_interface(row, name)), true, 0)
}

/// An address without its prefix length: what stands before the first `/`.
pub open spec fn bare_address(address: Seq<char>) -> Seq<char> {
    address.take(first_at(address, '/', 0))
}

/// The bare address of the first row on the interface `name`; nothing where
/// no row is on it, or where that row has no address.
pub open spec fn external_ip_of(rows: Seq<Map<Seq<char>, Seq<char>>>, name: Seq<char>) -> Option<
    Seq<char>,
> {
    let at = row_of_interface(rows, name);
    if at < rows.len() && rows[at].contains_key("address"@) {
        Some(bare_address(rows[at]["address"@]))
    } else {
        None
    }
}

/// The line that the `external-ip` command prints.
pub open spec fn external_ip_text(ip: Option<Seq<char>>) -> Seq<char> {
    match ip {
        Some(address) => address,
        None => "Not found"@,
    }
}

/// An address that holds no `/` is bare already, and stays what it is when
/// a `/` and anything else is put behind it and stripped again.
pub proof fn lemma_bare_address(address: Seq<char>, suffix: Seq<char>)
    requires
        !address.contains('/'),
    ensures
        bare_address(address) == address,
        bare_address(address + seq!['/'] + suffix) == address,
{
    let long = address + seq!['/'] + suffix;
    lemma_first_at_is(address, '/', 0, address.len() as int);
    assert forall|k: int| 0 <= k < address.len() implies long[k] != '/' by {
        assert(long[k] == address[k]);
    }
    lemma_first_at_is(long, '/', 0, address.len() as int);
    assert(address.take(address.len() as int) == address);
    assert(long.take(address.len() as int) == address);
}

/// Where no row is on the interface, there is no address.
pub proof fn lemma_external_ip_of_no_match(rows: Seq<Map<Seq<char>, Seq<char>>>, name: Seq<char>)
    requires
        forall|i: int| 0 <= i < rows.len() ==> !is_on_interface(#[trigger] rows[i], name),
    ensures
        external_ip_of(rows, name) is None,
{
    let hits = rows.map_values(|row: Map<Seq<char>, Seq<char>>| is_on_interface(row, name));
    assert forall|k: int| 0 <= k < hits.len() implies hits[k] != true by {
        assert(!is_on_interface(rows[k], name));
    }
    lemma_first_at_is(hits, true, 0, rows.len() as int);
}

/// The first row on the interface decides: its address, bare, is the
/// answer, whatever rows follow.
pub proof fn lemma_external_ip_of_first_match(
    rows: Seq<Map<Seq<char>, Seq<char>>>,
    name: Seq<char>,
    at: int,
)
    requires
        0 <= at < rows.len(),
        is_on_interface(rows[at], name),
        forall|i: int| 0 <= i < at ==> !is_on_interface(#[trigger] rows[i], name),
    ensures
        rows[at].contains_key("address"@) ==> external_ip_of(rows, name) == Some(
            bare_address(rows[at]["address"@]),
        ),
        !rows[at].contains_key("address"@) ==> external_ip_of(rows, name) is None,
{
    let hits = rows.map_values(|row: Map<Seq<char>, Seq<char>>| is_on_interface(row, name));
    assert forall|k: int| 0 <= k < at implies hits[k] != true by {
        assert(!is_on_interface(rows[k], name));
    }
    assert(hits[at] == true);
    lemma_first_at_is(hits, true, 0, at);
}

impl Command {
    /// Resolves a command name.
    pub fn resolve(name: &str) -> (command: Command)
        ensures
            command == command_of(name@),
    {
        if same_text(name, "dhcp-table") {
            Command::DhcpTable
        } else if same_text(name, "external-ip") {
            Command::ExternalIp
        } else {
            Command::Raw
        }
    }
}

/// The path to ask the router for on behalf of the command `name`.
pub fn request_path(name: &str) -> (path: String)
    ensures
        path@ == path_of(name@),
{
    match Command::resolve(name) {
        Command::DhcpTable => "/ip/dhcp-server/lease/print".to_owned(),
        Command::ExternalIp => "/ip/address/print".to_owned(),
        Command::Raw => name.to_owned(),
    }
}

/// Reads each record of the lease table as a lease, in the order of the
/// records.
pub fn dhcp_table(records: Vec<Vec<String>>) -> (entries: Vec<DhcpEntry>)
    ensures
        entries.len() == records.len(),
        forall|i: int|
            0 <= i < records.len() ==> (#[trigger] entries[i])@ == lease_of(
                attributes_of(records[i].deep_view()),
            ),
{
    let mut entries: Vec<DhcpEntry> = Vec::new();
    for record in rest: records
        invariant
            entries.len() == rest.index(),
            forall|i: int|
                0 <= i < rest.index() ==> (#[trigger] entries[i])@ == lease_of(
                    attributes_of(rest.seq()[i].deep_view()),
                ),
    {
        entries.push(DhcpEntry::parse(record));
    }
    entries
}

/// Reads the attributes of each record, in the order of the records.
pub fn table_map(records: &Vec<Vec<String>>) -> (rows: Vec<AttributeMap>)
    ensures
        rows.len() == records.len(),
        forall|i: int|
            0 <= i < records.len() ==> (#[trigger] rows[i])@ == attributes_of(
                records[i].deep_view(),
            ) && rows[i].pairs() == attribute_pairs(records[i].deep_view()),
{
    let mut rows: Vec<AttributeMap> = Vec::new();
    let mut index: usize = 0;
    while index < records.len()
        invariant
            index <= records.len(),
            rows.len() == index,
            forall|i: int|
                0 <= i < index ==> (#[trigger] rows[i])@ == attributes_of(records[i].deep_view())
                    && rows[i].pairs() == attribute_pairs(records[i].deep_view()),
        decreases records.len() - index,
    {
        rows.push(AttributeMap::decode(&records[index]));
        index = index + 1;
    }
    rows
}

/// The mappings that rows stand for.
pub open spec fn mappings(rows: Seq<AttributeMap>) -> Seq<Map<Seq<char>, Seq<char>>> {
    rows.map_values(|row: AttributeMap| row@)
}

/// Strips the prefix length from an address.
pub fn strip_prefix_length(address: &str) -> (bare: String)
    ensures
        bare@ == bare_address(address@),
{
    let end: usize = find_char(address, '/', 0);
    proof {
        lemma_first_at(address@, '/', 0);
    }
    address.substring_char(0, end).to_owned()
}

/// Looks the interface up in the rows of the address table and gives its
/// address, bare.
pub fn external_ip(rows: &Vec<AttributeMap>, interface_name: &str) -> (ip: Option<String>)
    ensures
        ip is Some <==> external_ip_of(mappings(rows@), interface_name@) is Some,
        ip matches Some(address) ==> external_ip_of(mappings(rows@), interface_name@) == Some(
            address@,
        ),
{
    let ghost maps = mappings(rows@);
    let ghost hits = maps.map_values(
        |row: Map<Seq<char>, Seq<char>>| is_on_interface(row, interface_name@),
    );
    let mut index: usize = 0;
    while index < rows.len()
        invariant
            index <= rows.len(),
            maps == mappings(rows@),
            hits == maps.map_values(
                |row: Map<Seq<char>, Seq<char>>| is_on_interface(row, interface_name@),
            ),
            forall|k: int| 0 <= k < index ==> hits[k] != true,
        decreases rows.len() - index,
    {
        let row = &rows[index];
        assert(maps[index as int] == row@);
        let on_interface = match row.get("interface") {
            Some(found) => same_text(found.as_str(), interface_name),
            None => false,
        };
        assert(hits[index as int] == on_interface);
        if on_interface {
            proof {
                lemma_first_at_is(hits, true, 0, index as int);
            }
            return match row.get("address") {
                Some(address) => Some(strip_prefix_length(address.as_str())),
                None => None,
            };
        }
        index = index + 1;
    }
    proof {
        lemma_first_at_is(hits, true, 0, index as int);
    }
    None
}

/// The line to print for the outcome of `external_ip`: the address, or
/// `Not found`.
pub fn external_ip_line(ip: Option<String>) -> (line: String)
    ensures
        line@ == external_ip_text(
            match ip {
                Some(address) => Some(address@),
                None => None,
            },
        ),
{
    match ip {
        Some(address) => address,
        None => "Not found".to_owned(),
    }
}

} // verus!
