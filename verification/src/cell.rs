//! Typed cells and their text.
//!
//! A number that may be a calendar serial counts days from 1899-12-30; its
//! fractional part is the time of day. Whether it is rendered as a calendar
//! value is the column's matter, decided before any cell is read.

use crate::text::{decimal, decimal_text, lemma_parse_decimal, padded, parse_signed, push_char, push_padded};
use vstd::prelude::*;
use vstd::string::*;

verus! {

/// The error tags that a cell can carry.
#[derive(Debug, Clone, Copy, PartialEq, Eq)]
pub enum CellError {
    Div0,
    NA,
    Name,
    Null,
    Num,
    Ref,
    Value,
    GettingData,
}

/// A floating-point number of a cell, held as what its text is made from.
#[derive(Debug, Clone)]
pub struct Serial {
    /// The number's plain decimal rendering.
    pub plain: String,
    /// Whether the number's fractional part is greater than zero.
    pub fractional: bool,
    /// The number's integer part, where it is finite and fits.
    pub days: Option<i64>,
    /// The number's fractional part in seconds, rounded to whole seconds.
    pub seconds: u32,
}

/// One cell of a sheet.
#[derive(Debug, Clone)]
pub enum TypedCell {
    Empty,
    Text(String),
    Integer(i64),
    Float(Serial),
    Boolean(bool),
    ErrorCode(CellError),
    DateTimeSerial(Serial),
}

/// A calendar date: year, month and day of the month.
pub type Civil = (i32, u32, u32);

/// The day number, counted from 0001-01-01 as day 1, of serial 0, which is
/// 1899-12-30.
pub const EPOCH_DAY: i64 = 693_594;

pub const SECONDS_PER_DAY: u32 = 86_400;

/// The proleptic Gregorian date of a day number, counted from 0001-01-01 as
/// day 1, as `chrono::NaiveDate::from_num_days_from_ce_opt` gives it; `None`
/// where the date is outside the range of dates that it can hold.
pub uninterp spec fn civil_of_day(day: int) -> Option<(int, int, int)>;

/// A date by its plain numbers.
pub open spec fn civil_view(date: Option<Civil>) -> Option<(int, int, int)> {
    match date {
        Some(c) => Some((c.0 as int, c.1 as int, c.2 as int)),
        None => None,
    }
}

/// Calls `chrono::NaiveDate::from_num_days_from_ce_opt` and reads the year,
/// month and day of what it returns. The result is the calendar date of the
/// day number; nothing else is claimed of it.
#[verifier::external_body]
pub(crate) fn civil_from_day(day: i32) -> (date: Option<Civil>)
    ensures
        civil_view(date) == civil_of_day(day as int),
{
    chrono::NaiveDate::from_num_days_from_ce_opt(day).map(
        |d| (chrono::Datelike::year(&d), chrono::Datelike::month(&d), chrono::Datelike::day(&d)),
    )
}

/// The day number that a serial falls on: its integer part past the epoch,
/// and one more where the rounded seconds fill the day. `None` where the
/// serial has no integer part or the day number leaves the 32-bit range.
pub open spec fn calendar_day(serial: Serial) -> Option<int> {
    match serial.days {
        Some(d) => {
            let carry: int = if serial.fractional {
                serial.seconds as int / SECONDS_PER_DAY as int
            } else {
                0
            };
            let n = d + EPOCH_DAY + carry;
            if i32::MIN <= n <= i32::MAX {
                Some(n)
            } else {
                None
            }
        },
        None => None,
    }
}

/// The calendar date that a serial falls on, where it has one.
pub open spec fn decoded(serial: Serial) -> Option<(int, int, int)> {
    match calendar_day(serial) {
        Some(n) => civil_of_day(n),
        None => None,
    }
}

/// A year as four digits; outside of 0 to 9999 with its sign before them.
pub open spec fn year_text(year: int) -> Seq<char> {
    if 0 <= year <= 9999 {
        padded(year as nat, 4)
    } else if year < 0 {
        seq!['-'] + padded((-year) as nat, 4)
    } else {
        seq!['+'] + padded(year as nat, 4)
    }
}

/// A date as `YYYY-MM-DD`.
pub open spec fn date_text(date: (int, int, int)) -> Seq<char> {
    year_text(date.0) + seq!['-'] + padded(date.1 as nat, 2) + seq!['-'] + padded(date.2 as nat, 2)
}

/// A second of the day as `HH:MM:SS`.
pub open spec fn time_text(second: int) -> Seq<char> {
    padded((second / 3600) as nat, 2) + seq![':'] + padded(((second % 3600) / 60) as nat, 2)
        + seq![':'] + padded((second % 60) as nat, 2)
}

/// The text that says a serial has no calendar value.
pub open spec fn failure_text(plain: Seq<char>, fractional: bool) -> Seq<char> {
    if fractional {
        "ERROR: Cannot convert "@ + plain + " to datetime"@
    } else {
        "ERROR: Cannot convert "@ + plain + " to date"@
    }
}

/// The text of a serial in a date column, given the date it falls on: date
/// and time where the serial has a fraction, the date alone where it has
/// none, and the failure text where there is no date.
pub open spec fn serial_text(serial: Serial, date: Option<(int, int, int)>) -> Seq<char> {
    match date {
        Some(c) => if serial.fractional {
            date_text(c) + seq![' '] + time_text(serial.seconds as int % SECONDS_PER_DAY as int)
        } else {
            date_text(c)
        },
        None => failure_text(serial.plain@, serial.fractional),
    }
}

/// The name of an error tag.
pub open spec fn error_name(e: CellError) -> Seq<char> {
    match e {
        CellError::Div0 => "Div0"@,
        CellError::NA => "NA"@,
        CellError::Name => "Name"@,
        CellError::Null => "Null"@,
        CellError::Num => "Num"@,
        CellError::Ref => "Ref"@,
        CellError::Value => "Value"@,
        CellError::GettingData => "GettingData"@,
    }
}

/// The text of a cell in a column with the given date flag.
pub open spec fn transcode_spec(cell: TypedCell, is_date_column: bool) -> Seq<char> {
    match cell {
        TypedCell::Empty => Seq::<char>::empty(),
        TypedCell::Text(s) => s@,
        TypedCell::Integer(i) => decimal(i as int),
        TypedCell::Boolean(b) => if b {
            "true"@
        } else {
            "false"@
        },
        TypedCell::ErrorCode(e) => error_name(e),
        TypedCell::Float(s) | TypedCell::DateTimeSerial(s) => if is_date_column {
            serial_text(s, decoded(s))
        } else {
            s.plain@
        },
    }
}

/// The name of a column as its header cell gives it: the text of a text
/// cell, and the empty text for any other cell.
pub open spec fn header_spec(cell: TypedCell) -> Seq<char> {
    match cell {
        TypedCell::Text(s) => s@,
        _ => Seq::<char>::empty(),
    }
}

/// The calendar date that a serial falls on.
pub fn decode(serial: &Serial) -> (date: Option<Civil>)
    ensures
        civil_view(date) == decoded(*serial),
{
    match serial.days {
        Some(d) => {
            let carry: i64 = if serial.fractional {
                (serial.seconds / SECONDS_PER_DAY) as i64
            } else {
                0
            };
            if d > 0x7fff_ffff || d < -0x1_0000_0000 {
                return None;
            }
            let n: i64 = d + EPOCH_DAY + carry;
            if n < -0x8000_0000 || n > 0x7fff_ffff {
                None
            } else {
                civil_from_day(n as i32)
            }
        },
        None => None,
    }
}

pub fn push_date(out: &mut String, date: Civil)
    ensures
        final(out)@ == old(out)@ + date_text((date.0 as int, date.1 as int, date.2 as int)),
{
    let ghost start = out@;
    let year = date.0;
    if year < 0 {
        push_char(out, '-');
        push_padded(out, (-(year as i64)) as u64, 4);
    } else if year > 9999 {
        push_char(out, '+');
        push_padded(out, year as u64, 4);
    } else {
        push_padded(out, year as u64, 4);
    }
    assert(out@ =~= start + year_text(year as int));
    push_char(out, '-');
    push_padded(out, date.1 as u64, 2);
    push_char(out, '-');
    push_padded(out, date.2 as u64, 2);
    assert(out@ =~= start + date_text((date.0 as int, date.1 as int, date.2 as int)));
}

pub fn push_time(out: &mut String, second: u32)
    ensures
        final(out)@ == old(out)@ + time_text(second as int),
{
    let ghost start = out@;
    push_padded(out, (second / 3600) as u64, 2);
    push_char(out, ':');
    push_padded(out, ((second % 3600) / 60) as u64, 2);
    push_char(out, ':');
    push_padded(out, (second % 60) as u64, 2);
    assert(out@ =~= start + time_text(second as int));
}

/// The text of a serial in a date column, given the date it falls on.
pub fn render_serial(serial: &Serial, date: Option<Civil>) -> (out: String)
    ensures
        out@ == serial_text(*serial, civil_view(date)),
{
    match date {
        Some(c) => {
            let mut out = String::new();
            push_date(&mut out, c);
            if serial.fractional {
                push_char(&mut out, ' ');
                push_time(&mut out, serial.seconds % SECONDS_PER_DAY);
            }
            assert(out@ =~= serial_text(*serial, civil_view(date)));
            out
        },
        None => {
            let mut out = String::from_str("ERROR: Cannot convert ");
            out.append(serial.plain.as_str());
            if serial.fractional {
                out.append(" to datetime");
            } else {
                out.append(" to date");
            }
            out
        },
    }
}

/// The name of an error tag.
pub fn error_text(e: CellError) -> (out: String)
    ensures
        out@ == error_name(e),
{
    match e {
        CellError::Div0 => String::from_str("Div0"),
        CellError::NA => String::from_str("NA"),
        CellError::Name => String::from_str("Name"),
        CellError::Null => String::from_str("Null"),
        CellError::Num => String::from_str("Num"),
        CellError::Ref => String::from_str("Ref"),
        CellError::Value => String::from_str("Value"),
        CellError::GettingData => String::from_str("GettingData"),
    }
}

/// The text of a cell in a column with the given date flag.
///
/// Only a number is read as a calendar value, and only in a date column: with
/// a fraction as date and time, without one as a date.
pub fn transcode(cell: &TypedCell, is_date_column: bool) -> (field: String)
    ensures
        field@ == transcode_spec(*cell, is_date_column),
{
    match cell {
        TypedCell::Empty => String::new(),
        TypedCell::Text(s) => s.clone(),
        TypedCell::Integer(i) => decimal_text(*i),
        TypedCell::Boolean(b) => if *b {
            String::from_str("true")
        } else {
            String::from_str("false")
        },
        TypedCell::ErrorCode(e) => error_text(*e),
        TypedCell::Float(s) | TypedCell::DateTimeSerial(s) => if is_date_column {
            let date = decode(s);
            render_serial(s, date)
        } else {
            s.plain.clone()
        },
    }
}

/// The name of a column as its header cell gives it.
pub fn header_name(cell: &TypedCell) -> (name: String)
    ensures
        name@ == header_spec(*cell),
{
    match cell {
        TypedCell::Text(s) => s.clone(),
        _ => String::new(),
    }
}

/// The texts of a header row.
pub fn header_row(cells: &Vec<TypedCell>) -> (names: Vec<String>)
    ensures
        names.len() == cells.len(),
        forall|i: int| 0 <= i < cells.len() ==> names[i]@ == header_spec(cells[i]),
{
    let mut names: Vec<String> = Vec::new();
    let mut i: usize = 0;
    while i < cells.len()
        invariant
            i <= cells.len(),
            names.len() == i,
            forall|k: int| 0 <= k < i ==> names[k]@ == header_spec(cells[k]),
        decreases cells.len() - i,
    {
        names.push(header_name(&cells[i]));
        i += 1;
    }
    names
}

/// The texts of a data row: each cell under the flag of its column.
pub fn transcode_row(cells: &Vec<TypedCell>, flags: &Vec<bool>) -> (fields: Vec<String>)
    requires
        cells.len() <= flags.len(),
    ensures
        fields.len() == cells.len(),
        forall|i: int| 0 <= i < cells.len() ==> fields[i]@ == transcode_spec(cells[i], flags[i]),
{
    let mut fields: Vec<String> = Vec::new();
    let mut i: usize = 0;
    while i < cells.len()
        invariant
            i <= cells.len() <= flags.len(),
            fields.len() == i,
            forall|k: int| 0 <= k < i ==> fields[k]@ == transcode_spec(cells[k], flags[k]),
        decreases cells.len() - i,
    {
        fields.push(transcode(&cells[i], flags[i]));
        i += 1;
    }
    fields
}

/// `text` gives back what `cell` holds: an integer cell its integer, when
/// the text is read as a numeral, and every other cell its printed value.
pub open spec fn reads_back(cell: TypedCell, text: Seq<char>) -> bool {
    match cell {
        TypedCell::Empty => text.len() == 0,
        TypedCell::Text(s) => text == s@,
        TypedCell::Integer(i) => parse_signed(text) == Some(i as int),
        TypedCell::Boolean(b) => text == (if b {
            "true"@
        } else {
            "false"@
        }),
        TypedCell::ErrorCode(e) => text == error_name(e),
        TypedCell::Float(s) | TypedCell::DateTimeSerial(s) => text == s.plain@,
    }
}

/// Outside of date columns the text of a cell gives back what the cell holds.
pub proof fn law_plain_cell_reads_back(cell: TypedCell)
    ensures
        reads_back(cell, transcode_spec(cell, false)),
{
    match cell {
        TypedCell::Integer(i) => {
            lemma_parse_decimal(i as int);
        },
        _ => {},
    }
}

} // verus!
