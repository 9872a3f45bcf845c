//! The lease table as a `prettytable` table, ready to print.

use crate::dhcp::{DhcpEntry, Lease};
use crate::word::{find_char, lemma_first_at};
use prettytable::{Cell, Row, Table};
use vstd::prelude::*;

verus! {

/// The type of a `prettytable` table. Nothing inside it is visible here.
#[verifier::external_type_specification]
#[verifier::external_body]
pub struct ExTable(Table);

/// The rows of a table: for each row the content of its cells, as
/// `Cell::get_content` gives it.
pub uninterp spec fn table_rows(table: Table) -> Seq<Seq<Seq<char>>>;

/// The content of the title cells of a table; no cells where no titles are set.
pub uninterp spec fn table_titles(table: Table) -> Seq<Seq<char>>;

/// Whether the format of a table is `FORMAT_NO_LINESEP_WITH_TITLE`: borders,
/// a rule under the titles, none between rows.
pub uninterp spec fn has_title_rule_only(table: Table) -> bool;

/// Whether each title cell of a table carries bold as its one style, at the
/// default alignment.
pub uninterp spec fn has_bold_titles(table: Table) -> bool;

/// The content of the cell that `Cell::new` makes of a text. It is the text
/// with its line breaks normalised.
pub uninterp spec fn cell_text(text: Seq<char>) -> Seq<char>;

/// A text that a cell can be made of. `Cell::new` measures its text and
/// stops the program on some texts that hold an escape character; texts
/// without one are safe.
pub open spec fn printable(text: Seq<char>) -> bool {
    !text.contains('\u{1b}')
}

/// Each text is printable.
pub open spec fn all_printable(texts: Seq<Seq<char>>) -> bool {
    forall|i: int| 0 <= i < texts.len() ==> printable(#[trigger] texts[i])
}

/// The cell contents of a row of texts.
pub open spec fn cells_of(texts: Seq<Seq<char>>) -> Seq<Seq<char>> {
    texts.map_values(|text: Seq<char>| cell_text(text))
}

/// Calls `Table::new`, which makes a table with no rows and no titles.
#[verifier::external_body]
fn new_table() -> (table: Table)
    ensures
        table_rows(table) == Seq::<Seq<Seq<char>>>::empty(),
        table_titles(table) == Seq::<Seq<char>>::empty(),
{
    Table::new()
}

/// Calls `Table::set_format` with `FORMAT_NO_LINESEP_WITH_TITLE`. It
/// replaces the format and leaves rows and titles alone.
#[verifier::external_body]
fn rule_under_titles_only(table: &mut Table)
    ensures
        has_title_rule_only(*final(table)),
        table_rows(*final(table)) == table_rows(*old(table)),
        table_titles(*final(table)) == table_titles(*old(table)),
        has_bold_titles(*final(table)) == has_bold_titles(*old(table)),
{
    table.set_format(*prettytable::format::consts::FORMAT_NO_LINESEP_WITH_TITLE);
}

/// Calls `Table::set_titles` with a row of one cell for each title, each
/// made by `Cell::new` and styled by `Cell::style_spec`. The title row is
/// replaced; rows and format stay. The style `b` alone makes a cell bold
/// and nothing else. `style_spec` reads a number behind each `H` and stops
/// the program where there is none, so `style` holds no `H`.
#[verifier::external_body]
fn set_titles(table: &mut Table, titles: &Vec<String>, style: &str)
    requires
        all_printable(titles.deep_view()),
        !style@.contains('H'),
    ensures
        table_titles(*final(table)) == titles.deep_view().map_values(
            |text: Seq<char>| cell_text(text),
        ),
        table_rows(*final(table)) == table_rows(*old(table)),
        has_title_rule_only(*final(table)) == has_title_rule_only(*old(table)),
        style@ == seq!['b'] ==> has_bold_titles(*final(table)),
{
    let cells = titles.iter().map(|title| Cell::new(title).style_spec(style)).collect();
    table.set_titles(Row::new(cells));
}

/// Calls `Table::add_row` with a row of one cell for each text, each made by
/// `Cell::new`. The row goes behind the rows that are there; titles and
/// format stay.
#[verifier::external_body]
fn add_row(table: &mut Table, texts: &Vec<String>)
    requires
        all_printable(texts.deep_view()),
    ensures
        table_rows(*final(table)) == table_rows(*old(table)).push(
            texts.deep_view().map_values(|text: Seq<char>| cell_text(text)),
        ),
        table_titles(*final(table)) == table_titles(*old(table)),
        has_title_rule_only(*final(table)) == has_title_rule_only(*old(table)),
        has_bold_titles(*final(table)) == has_bold_titles(*old(table)),
{
    let cells = texts.iter().map(|text| Cell::new(text)).collect();
    table.add_row(Row::new(cells));
}

/// The titles of the columns of the lease table, left to right.
pub open spec fn column_titles() -> Seq<Seq<char>> {
    seq![
        "IP Address"@,
        "Hostname"@,
        "Comment"@,
        "MAC Address"@,
        "Last Seen"@,
        "Expires"@,
        "Status"@,
    ]
}

/// The texts of one lease under those columns.
pub open spec fn lease_row(lease: Lease) -> Seq<Seq<char>> {
    seq![
        lease.address,
        lease.host_name,
        lease.comment,
        lease.mac_address,
        lease.last_seen,
        lease.expires_after,
        lease.status,
    ]
}

/// The rows of the leases, in their order.
pub open spec fn lease_rows(leases: Seq<Lease>) -> Seq<Seq<Seq<char>>> {
    leases.map_values(|lease: Lease| lease_row(lease))
}

/// What each entry holds.
pub open spec fn leases_of(entries: Seq<DhcpEntry>) -> Seq<Lease> {
    entries.map_values(|entry: DhcpEntry| entry@)
}

/// Each text of each row is printable.
pub open spec fn all_rows_printable(rows: Seq<Seq<Seq<char>>>) -> bool {
    forall|i: int| 0 <= i < rows.len() ==> all_printable(#[trigger] rows[i])
}

/// Whether a text can be put into a cell.
pub fn is_printable(text: &str) -> (fit: bool)
    ensures
        fit == printable(text@),
{
    let total: usize = text.unicode_len();
    let at: usize = find_char(text, '\u{1b}', 0);
    proof {
        lemma_first_at(text@, '\u{1b}', 0);
    }
    at == total
}

/// The titles of the columns.
pub fn titles() -> (titles: Vec<String>)
    ensures
        titles.deep_view() == column_titles(),
{
    let mut titles: Vec<String> = Vec::new();
    titles.push("IP Address".to_owned());
    titles.push("Hostname".to_owned());
    titles.push("Comment".to_owned());
    titles.push("MAC Address".to_owned());
    titles.push("Last Seen".to_owned());
    titles.push("Expires".to_owned());
    titles.push("Status".to_owned());
    assert(titles.deep_view() == column_titles());
    titles
}

/// The texts of one entry under the columns.
pub fn row_of(entry: &DhcpEntry) -> (texts: Vec<String>)
    ensures
        texts.deep_view() == lease_row(entry@),
{
    let mut texts: Vec<String> = Vec::new();
    texts.push(entry.address.clone());
    texts.push(entry.host_name.clone());
    texts.push(entry.comment.clone());
    texts.push(entry.mac_address.clone());
    texts.push(entry.last_seen.clone());
    texts.push(entry.expires_after.clone());
    texts.push(entry.status.clone());
    assert(texts.deep_view() == lease_row(entry@));
    texts
}

/// Whether each of the texts can be put into a cell.
fn are_printable(texts: &Vec<String>) -> (fit: bool)
    ensures
        fit == all_printable(texts.deep_view()),
{
    let mut index: usize = 0;
    while index < texts.len()
        invariant
            index <= texts.len(),
            forall|i: int| 0 <= i < index ==> printable(#[trigger] texts.deep_view()[i]),
        decreases texts.len() - index,
    {
        if !is_printable(texts[index].as_str()) {
            assert(!printable(texts.deep_view()[index as int]));
            return false;
        }
        index = index + 1;
    }
    true
}

/// The column titles hold no escape character.
proof fn lemma_titles_printable()
    ensures
        all_printable(column_titles()),
{
    reveal_strlit("IP Address");
    reveal_strlit("Hostname");
    reveal_strlit("Comment");
    reveal_strlit("MAC Address");
    reveal_strlit("Last Seen");
    reveal_strlit("Expires");
    reveal_strlit("Status");
}

/// Lays the leases out as a table: the seven columns under bold titles, one
/// row for each lease in the order given, a rule under the titles and none
/// between rows. There is no table where a text to show holds an escape
/// character.
pub fn lease_table(entries: &Vec<DhcpEntry>) -> (table: Option<Table>)
    ensures
        table is Some <==> all_rows_printable(lease_rows(leases_of(entries@))),
        table matches Some(laid) ==> {
            &&& table_titles(laid) == cells_of(column_titles())
            &&& table_rows(laid) == lease_rows(leases_of(entries@)).map_values(
                |row: Seq<Seq<char>>| cells_of(row),
            )
            &&& has_title_rule_only(laid)
            &&& has_bold_titles(laid)
        },
{
    let ghost rows = lease_rows(leases_of(entries@));
    let mut table = new_table();
    rule_under_titles_only(&mut table);
    let titles = titles();
    proof {
        lemma_titles_printable();
        reveal_strlit("b");
        assert("b"@ =~= seq!['b']);
    }
    set_titles(&mut table, &titles, "b");
    let mut index: usize = 0;
    while index < entries.len()
        invariant
            index <= entries.len(),
            rows == lease_rows(leases_of(entries@)),
            all_rows_printable(rows.take(index as int)),
            table_titles(table) == cells_of(column_titles()),
            table_rows(table) == rows.take(index as int).map_values(
                |row: Seq<Seq<char>>| cells_of(row),
            ),
            has_title_rule_only(table),
            has_bold_titles(table),
        decreases entries.len() - index,
    {
        let texts = row_of(&entries[index]);
        assert(texts.deep_view() == rows[index as int]);
        if !are_printable(&texts) {
            return None;
        }
        add_row(&mut table, &texts);
        proof {
            assert(rows.take(index + 1) == rows.take(index as int).push(rows[index as int]));
            assert(rows.take(index + 1).map_values(|row: Seq<Seq<char>>| cells_of(row))
                == rows.take(index as int).map_values(|row: Seq<Seq<char>>| cells_of(row)).push(
                cells_of(rows[index as int]),
            ));
            assert forall|i: int| 0 <= i < index + 1 implies all_printable(
                #[trigger] rows.take(index + 1)[i],
            ) by {
                if i < index {
                    assert(rows.take(index + 1)[i] == rows.take(index as int)[i]);
                }
            }
        }
        index = index + 1;
    }
    assert(rows.take(index as int) == rows);
    Some(table)
}

} // verus!
