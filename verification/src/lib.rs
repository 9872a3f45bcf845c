//! Reading the replies of a MikroTik router's management API: sentences of
//! words become attribute mappings and DHCP lease records, a small state
//! machine tells where a reply stream ends, and the lease table is laid out
//! for printing.
//!
//! Nothing here opens a connection. The caller writes the request sentence
//! that the library names, reads the reply sentences and hands them in.

pub mod attributes;
pub mod dhcp;
pub mod query;
pub mod records;
pub mod table;
pub mod word;

pub use attributes::AttributeMap;
pub use dhcp::DhcpEntry;
pub use query::{dhcp_table, external_ip, external_ip_line, request_path, table_map, Command};
pub use records::{ends_stream, replay, QueryState, RecordIter};
pub use table::lease_table;
pub use word::{parse_boolean, split_attribute};
