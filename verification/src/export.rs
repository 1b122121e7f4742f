//! The export of one sheet, row by row: the first row is the header and
//! settles the date flags, every later row is rendered under them.

use crate::cell::{
    header_row, header_spec, law_plain_cell_reads_back, reads_back, transcode_row, transcode_spec,
    TypedCell,
};
use crate::record::{assemble, assemble_spec, empty_record, fields_of, push_field};
use crate::sheet::texts;
use crate::text::{decimal, decimal_digits, index_text};
use crate::whitelist::{classify, flags_of, WhitelistSpec};
use vstd::prelude::*;
use vstd::string::*;

verus! {

/// The column names that a header row gives.
pub open spec fn header_texts(row: Seq<TypedCell>) -> Seq<Seq<char>> {
    Seq::new(row.len(), |i: int| header_spec(row[i]))
}

/// The texts of a data row under the given flags.
pub open spec fn row_texts(row: Seq<TypedCell>, flags: Seq<bool>) -> Seq<Seq<char>> {
    Seq::new(row.len(), |i: int| transcode_spec(row[i], flags[i]))
}

/// The state of an export between two rows.
pub struct Exporter {
    /// The whitelist, read before the first row.
    pub whitelist: WhitelistSpec,
    /// Whether fields are tidied.
    pub trim: bool,
    /// The date flags; there are none until the header row has been fed.
    pub flags: Option<Vec<bool>>,
    /// The number of data rows fed so far; it stops at the largest number.
    pub data_rows: u64,
}

impl Exporter {
    /// An export that has seen no row yet.
    pub fn new(whitelist: WhitelistSpec, trim: bool) -> (state: Exporter)
        requires
            whitelist.wf(),
        ensures
            state.whitelist == whitelist,
            state.trim == trim,
            state.flags.is_none(),
            state.data_rows == 0,
    {
        Exporter { whitelist, trim, flags: None, data_rows: 0 }
    }

    /// Whether `row` can be fed: it is the header row, or no wider than the
    /// header row was.
    pub open spec fn accepts(&self, row: Seq<TypedCell>) -> bool {
        match self.flags {
            Some(f) => row.len() <= f.len(),
            None => true,
        }
    }

    /// The record that feeding `row` gives.
    pub open spec fn record_spec(&self, row: Seq<TypedCell>) -> Seq<Seq<char>> {
        match self.flags {
            Some(f) => assemble_spec(row_texts(row, f@), self.trim),
            None => assemble_spec(header_texts(row), self.trim),
        }
    }

    /// Whether `row` can be fed.
    pub fn can_feed(&self, row: &Vec<TypedCell>) -> (r: bool)
        ensures
            r == self.accepts(row@),
    {
        match &self.flags {
            Some(f) => row.len() <= f.len(),
            None => true,
        }
    }

    /// Takes the next row of the sheet and gives its record.
    ///
    /// The first row fed is the header: its record holds the column names,
    /// and the date flags are settled from it once and for all. Every later
    /// row is a data row, rendered under those flags and counted.
    pub fn feed(&mut self, row: &Vec<TypedCell>) -> (record: csv::StringRecord)
        requires
            old(self).whitelist.wf(),
            old(self).accepts(row@),
        ensures
            fields_of(record) == old(self).record_spec(row@),
            final(self).whitelist == old(self).whitelist,
            final(self).trim == old(self).trim,
            match old(self).flags {
                Some(f) => final(self).flags == Some(f) && final(self).data_rows == (if old(
                    self,
                ).data_rows < u64::MAX {
                    (old(self).data_rows + 1) as u64
                } else {
                    u64::MAX
                }),
                None => final(self).flags.is_some() && final(self).flags.unwrap()@ == flags_of(
                    old(self).whitelist@,
                    header_texts(row@),
                ) && final(self).data_rows == old(self).data_rows,
            },
    {
        match &self.flags {
            Some(f) => {
                let cells = transcode_row(row, f);
                assert(texts(cells@) =~= row_texts(row@, f@));
                let record = assemble(&cells, self.trim);
                if self.data_rows < u64::MAX {
                    self.data_rows = self.data_rows + 1;
                }
                record
            },
            None => {
                let names = header_row(row);
                assert(texts(names@) =~= header_texts(row@));
                let flags = classify(&self.whitelist, &names);
                let record = assemble(&names, self.trim);
                self.flags = Some(flags);
                record
            },
        }
    }
}

/// Whether no row of a sheet is wider than its first.
pub open spec fn bounded_by_header(rows: Seq<Vec<TypedCell>>) -> bool {
    forall|i: int| 0 <= i < rows.len() ==> (#[trigger] rows[i]).len() <= rows[0].len()
}

/// The record of row `i` of a sheet.
pub open spec fn sheet_record(
    rows: Seq<Vec<TypedCell>>,
    whitelist: WhitelistSpec,
    trim: bool,
    i: int,
) -> Seq<Seq<char>> {
    if i == 0 {
        assemble_spec(header_texts(rows[0]@), trim)
    } else {
        assemble_spec(
            row_texts(rows[i]@, flags_of(whitelist@, header_texts(rows[0]@))),
            trim,
        )
    }
}

/// Whether no row of a sheet is wider than its first.
pub fn rows_bounded(rows: &Vec<Vec<TypedCell>>) -> (r: bool)
    ensures
        r == bounded_by_header(rows@),
{
    let mut i: usize = 0;
    while i < rows.len()
        invariant
            i <= rows.len(),
            forall|k: int| 0 <= k < i ==> (#[trigger] rows[k]).len() <= rows[0].len(),
        decreases rows.len() - i,
    {
        if rows[i].len() > rows[0].len() {
            return false;
        }
        i += 1;
    }
    true
}

/// The records of a whole sheet: one per row, in the rows' order, the first
/// of them the header's.
pub fn export_sheet(rows: &Vec<Vec<TypedCell>>, whitelist: WhitelistSpec, trim: bool) -> (records:
    Vec<csv::StringRecord>)
    requires
        whitelist.wf(),
        bounded_by_header(rows@),
    ensures
        records.len() == rows.len(),
        forall|i: int|
            0 <= i < rows.len() ==> fields_of(#[trigger] records[i]) == sheet_record(
                rows@,
                whitelist,
                trim,
                i,
            ),
{
    let mut state = Exporter::new(whitelist, trim);
    let mut records: Vec<csv::StringRecord> = Vec::new();
    let mut i: usize = 0;
    while i < rows.len()
        invariant
            i <= rows.len(),
            bounded_by_header(rows@),
            records.len() == i,
            whitelist.wf(),
            state.whitelist == whitelist,
            state.trim == trim,
            i == 0 ==> state.flags.is_none(),
            i > 0 ==> state.flags.is_some() && state.flags.unwrap()@ == flags_of(
                whitelist@,
                header_texts(rows[0]@),
            ),
            forall|k: int|
                0 <= k < i ==> fields_of(#[trigger] records[k]) == sheet_record(
                    rows@,
                    whitelist,
                    trim,
                    k,
                ),
        decreases rows.len() - i,
    {
        proof {
            if i > 0 {
                assert(rows[i as int].len() <= rows[0].len());
            }
        }
        let record = state.feed(&rows[i]);
        records.push(record);
        i += 1;
    }
    records
}

/// A row without date columns gives texts that give back, cell by cell and
/// in the row's order, what the row holds.
pub proof fn law_plain_row_reads_back(row: Seq<TypedCell>, flags: Seq<bool>)
    requires
        flags.len() >= row.len(),
        forall|i: int| 0 <= i < flags.len() ==> !flags[i],
    ensures
        row_texts(row, flags).len() == row.len(),
        forall|i: int| 0 <= i < row.len() ==> reads_back(row[i], #[trigger] row_texts(row, flags)[i]),
{
    assert forall|i: int| 0 <= i < row.len() implies reads_back(
        row[i],
        #[trigger] row_texts(row, flags)[i],
    ) by {
        law_plain_cell_reads_back(row[i]);
    }
}

/// The listing of a workbook's sheets: a header record `index`,
/// `sheet_name`, then one record per sheet with its position and its name.
pub open spec fn listing_record(names: Seq<Seq<char>>, i: int) -> Seq<Seq<char>> {
    if i == 0 {
        seq!["index"@, "sheet_name"@]
    } else {
        seq![decimal(i - 1), names[i - 1]]
    }
}

/// The listing of a workbook's sheets.
pub fn sheet_listing(names: &Vec<String>) -> (records: Vec<csv::StringRecord>)
    ensures
        records.len() == names.len() + 1,
        forall|i: int|
            0 <= i <= names.len() ==> fields_of(#[trigger] records[i]) == listing_record(
                texts(names@),
                i,
            ),
{
    let mut records: Vec<csv::StringRecord> = Vec::new();
    let mut head = empty_record();
    push_field(&mut head, "index");
    push_field(&mut head, "sheet_name");
    assert(fields_of(head) =~= listing_record(texts(names@), 0));
    records.push(head);
    let mut i: usize = 0;
    while i < names.len()
        invariant
            i <= names.len(),
            records.len() == i + 1,
            forall|k: int|
                0 <= k <= i ==> fields_of(#[trigger] records[k]) == listing_record(
                    texts(names@),
                    k,
                ),
        decreases names.len() - i,
    {
        let mut record = empty_record();
        let position = index_text(i);
        push_field(&mut record, position.as_str());
        push_field(&mut record, names[i].as_str());
        assert(fields_of(record) =~= listing_record(texts(names@), i + 1));
        records.push(record);
        i += 1;
    }
    records
}

/// Decimal digits in groups of three counted from the right, with a comma
/// between two groups.
pub open spec fn grouped(digits: Seq<char>) -> Seq<char>
    decreases digits.len(),
{
    if digits.len() <= 3 {
        digits
    } else {
        grouped(digits.subrange(0, digits.len() - 3)) + seq![','] + digits.subrange(
            digits.len() - 3,
            digits.len() as int,
        )
    }
}

/// Calls `thousands::Separable::separate_with_commas` on an unsigned number,
/// which writes the number in decimal and puts a comma before every group of
/// three digits but the first.
#[verifier::external_body]
pub(crate) fn with_commas(n: u64) -> (out: String)
    ensures
        out@ == grouped(decimal_digits(n as nat)),
{
    thousands::Separable::separate_with_commas(&n)
}

/// The closing message of an export.
pub open spec fn summary_spec(data_rows: nat, columns: nat, sheet: Seq<char>) -> Seq<char> {
    grouped(decimal_digits(data_rows)) + " "@ + grouped(decimal_digits(columns))
        + "-column rows exported from \""@ + sheet + "\""@
}

/// The closing message of an export: how many data rows of how many columns
/// were taken from which sheet.
pub fn export_summary(data_rows: u64, columns: usize, sheet: &str) -> (out: String)
    ensures
        out@ == summary_spec(data_rows as nat, columns as nat, sheet@),
{
    let mut out = with_commas(data_rows);
    out.append(" ");
    let width = with_commas(columns as u64);
    out.append(width.as_str());
    out.append("-column rows exported from \"");
    out.append(sheet);
    out.append("\"");
    out
}

} // verus!
