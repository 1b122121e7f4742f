use sheet_export::cell::{
    decode, header_name, header_row, render_serial, transcode, transcode_row, CellError, Serial,
    TypedCell,
};
use sheet_export::export::{export_sheet, export_summary, sheet_listing, Exporter};
use sheet_export::record::{assemble, fields, flatten};
use sheet_export::whitelist::parse_spec;

fn serial(f: f64) -> Serial {
    let fractional = f.fract() > 0.0;
    let days = if f.is_finite() && f.abs() < 9.0e18 { Some(f.trunc() as i64) } else { None };
    let seconds = if fractional { (f.fract() * 86400.0).round() as u32 } else { 0 };
    Serial { plain: f.to_string(), fractional, days, seconds }
}

fn float(f: f64) -> TypedCell {
    TypedCell::Float(serial(f))
}

fn text(s: &str) -> TypedCell {
    TypedCell::Text(s.to_string())
}

fn strings(list: &[&str]) -> Vec<String> {
    list.iter().map(|s| s.to_string()).collect()
}

fn record_fields(record: &csv::StringRecord) -> Vec<String> {
    record.iter().map(|s| s.to_string()).collect()
}

#[test]
fn transcode_whole_serial_as_date() {
    assert_eq!(transcode(&float(40729.0), true), "2011-07-05");
}

#[test]
fn transcode_fractional_serial_as_date_time() {
    assert_eq!(transcode(&float(37145.354166666664), true), "2001-09-11 08:30:00");
}

#[test]
fn transcode_serial_outside_date_column() {
    assert_eq!(transcode(&float(40729.0), false), "40729");
    assert_eq!(transcode(&float(37145.5), false), "37145.5");
}

#[test]
fn transcode_date_time_serial_cell() {
    assert_eq!(transcode(&TypedCell::DateTimeSerial(serial(40729.0)), true), "2011-07-05");
    assert_eq!(transcode(&TypedCell::DateTimeSerial(serial(40729.75)), true), "2011-07-05 18:00:00");
    assert_eq!(transcode(&TypedCell::DateTimeSerial(serial(40729.75)), false), "40729.75");
}

#[test]
fn transcode_epoch_and_neighbours() {
    assert_eq!(transcode(&float(0.0), true), "1899-12-30");
    assert_eq!(transcode(&float(1.0), true), "1899-12-31");
    assert_eq!(transcode(&float(2.0), true), "1900-01-01");
    assert_eq!(transcode(&float(-1.0), true), "1899-12-29");
    assert_eq!(transcode(&float(25569.0), true), "1970-01-01");
    assert_eq!(transcode(&float(0.5), true), "1899-12-30 12:00:00");
    assert_eq!(transcode(&float(36526.000011574074), true), "2000-01-01 00:00:01");
}

#[test]
fn transcode_fraction_that_rounds_to_the_next_day() {
    assert_eq!(transcode(&float(40729.999999), true), "2011-07-06 00:00:00");
}

#[test]
fn transcode_years_outside_four_digits() {
    assert_eq!(transcode(&float(2958465.0), true), "9999-12-31");
    assert_eq!(transcode(&float(2958466.0), true), "+10000-01-01");
    assert_eq!(transcode(&float(-693594.0), true), "0000-12-31");
    assert_eq!(transcode(&float(-693960.0), true), "-0001-12-31");
}

#[test]
fn transcode_serial_without_a_date() {
    assert_eq!(transcode(&float(1.0e12), true), "ERROR: Cannot convert 1000000000000 to date");
    assert_eq!(transcode(&float(1.0e9), true), "ERROR: Cannot convert 1000000000 to date");
    assert_eq!(transcode(&float(1.0e9 + 0.5), true), "ERROR: Cannot convert 1000000000.5 to datetime");
    assert_eq!(transcode(&float(f64::NAN), true), "ERROR: Cannot convert NaN to date");
    assert_eq!(transcode(&float(f64::INFINITY), true), "ERROR: Cannot convert inf to date");
}

#[test]
fn transcode_plain_cells() {
    for flag in [false, true] {
        assert_eq!(transcode(&TypedCell::Empty, flag), "");
        assert_eq!(transcode(&text("hello, world"), flag), "hello, world");
        assert_eq!(transcode(&text(" 40729 "), flag), " 40729 ");
        assert_eq!(transcode(&TypedCell::Integer(40729), flag), "40729");
        assert_eq!(transcode(&TypedCell::Integer(-12), flag), "-12");
        assert_eq!(transcode(&TypedCell::Integer(0), flag), "0");
        assert_eq!(transcode(&TypedCell::Integer(i64::MIN), flag), i64::MIN.to_string());
        assert_eq!(transcode(&TypedCell::Boolean(true), flag), "true");
        assert_eq!(transcode(&TypedCell::Boolean(false), flag), "false");
    }
}

#[test]
fn transcode_error_tags() {
    let tags = [
        (CellError::Div0, "Div0"),
        (CellError::NA, "NA"),
        (CellError::Name, "Name"),
        (CellError::Null, "Null"),
        (CellError::Num, "Num"),
        (CellError::Ref, "Ref"),
        (CellError::Value, "Value"),
        (CellError::GettingData, "GettingData"),
    ];
    for (tag, name) in tags {
        assert_eq!(transcode(&TypedCell::ErrorCode(tag), false), name);
        assert_eq!(transcode(&TypedCell::ErrorCode(tag), true), name);
    }
}

#[test]
fn transcode_integers_read_back() {
    for v in [0i64, 5, -5, 1_000_000, i64::MAX, i64::MIN] {
        assert_eq!(transcode(&TypedCell::Integer(v), false).parse::<i64>(), Ok(v));
    }
}

#[test]
fn decode_gives_calendar_numbers() {
    assert_eq!(decode(&serial(40729.0)), Some((2011, 7, 5)));
    assert_eq!(decode(&serial(60.0)), Some((1900, 2, 28)));
    assert_eq!(decode(&serial(61.0)), Some((1900, 3, 1)));
    assert_eq!(decode(&serial(f64::NAN)), None);
}

#[test]
fn render_serial_pads_numbers() {
    let s = Serial { plain: "x".to_string(), fractional: true, days: Some(0), seconds: 3723 };
    assert_eq!(render_serial(&s, Some((7, 3, 9))), "0007-03-09 01:02:03");
    assert_eq!(render_serial(&s, None), "ERROR: Cannot convert x to datetime");
    let d = Serial { plain: "y".to_string(), fractional: false, days: Some(0), seconds: 0 };
    assert_eq!(render_serial(&d, Some((2024, 12, 31))), "2024-12-31");
    assert_eq!(render_serial(&d, None), "ERROR: Cannot convert y to date");
}

#[test]
fn header_names() {
    assert_eq!(header_name(&text("OrderDate")), "OrderDate");
    assert_eq!(header_name(&TypedCell::Integer(5)), "");
    assert_eq!(header_name(&float(1.0)), "");
    assert_eq!(header_name(&TypedCell::Empty), "");
    assert_eq!(header_row(&vec![text("a"), TypedCell::Empty, text("b")]), strings(&["a", "", "b"]));
}

#[test]
fn transcode_row_uses_each_columns_flag() {
    let row = vec![float(40729.0), float(40729.0), text("x")];
    let out = transcode_row(&row, &vec![true, false, true]);
    assert_eq!(out, strings(&["2011-07-05", "40729", "x"]));
}

#[test]
fn assemble_trims_and_flattens() {
    let record = assemble(&strings(&[" a\nb "]), true);
    assert_eq!(record_fields(&record), strings(&["a b"]));
}

#[test]
fn assemble_without_trim_keeps_fields() {
    let cells = strings(&[" a\nb ", "", "c"]);
    let record = assemble(&cells, false);
    assert_eq!(record_fields(&record), cells);
    assert_eq!(fields(&record), cells);
}

#[test]
fn assemble_with_trim_over_several_fields() {
    let cells = strings(&["  x  ", "\n\ny\n", "a\n\nb", "", "\u{a0}z\t", "p\r\nq"]);
    let record = assemble(&cells, true);
    assert_eq!(record_fields(&record), strings(&["x", "y", "a  b", "", "z", "p\r q"]));
    assert_eq!(record.len(), 6);
}

#[test]
fn assemble_empty_row() {
    assert_eq!(assemble(&Vec::new(), true).len(), 0);
    assert_eq!(assemble(&Vec::new(), false).len(), 0);
}

#[test]
fn flatten_replaces_line_feeds() {
    assert_eq!(flatten("a\nb\n"), "a b ");
    assert_eq!(flatten("plain"), "plain");
    assert_eq!(flatten(""), "");
}

#[test]
fn export_sheet_keeps_rows_and_order() {
    let rows = vec![
        vec![text("id"), text("OrderDate"), text("Amount")],
        vec![TypedCell::Integer(1), float(40729.0), float(12.5)],
        vec![TypedCell::Integer(2), float(37145.354166666664), float(40729.0)],
    ];
    let records = export_sheet(&rows, parse_spec("date"), false);
    assert_eq!(records.len(), 3);
    assert_eq!(record_fields(&records[0]), strings(&["id", "OrderDate", "Amount"]));
    assert_eq!(record_fields(&records[1]), strings(&["1", "2011-07-05", "12.5"]));
    assert_eq!(record_fields(&records[2]), strings(&["2", "2001-09-11 08:30:00", "40729"]));
}

#[test]
fn export_sheet_without_rows() {
    assert_eq!(export_sheet(&Vec::new(), parse_spec("all"), true).len(), 0);
}

#[test]
fn exporter_settles_flags_on_first_row() {
    let mut state = Exporter::new(parse_spec("1"), true);
    assert!(state.flags.is_none());
    let head = state.feed(&vec![text(" a "), text("b\n")]);
    assert_eq!(record_fields(&head), strings(&["a", "b"]));
    assert_eq!(state.flags, Some(vec![false, true]));
    assert_eq!(state.data_rows, 0);
    let first = state.feed(&vec![float(2.0), float(2.0)]);
    assert_eq!(record_fields(&first), strings(&["2", "1900-01-01"]));
    assert_eq!(state.data_rows, 1);
    assert_eq!(state.flags, Some(vec![false, true]));
    assert!(state.can_feed(&vec![TypedCell::Empty]));
    assert!(!state.can_feed(&vec![TypedCell::Empty, TypedCell::Empty, TypedCell::Empty]));
}

#[test]
fn sheet_listing_gives_positions_and_names() {
    let records = sheet_listing(&strings(&["Summary", "Data"]));
    assert_eq!(records.len(), 3);
    assert_eq!(record_fields(&records[0]), strings(&["index", "sheet_name"]));
    assert_eq!(record_fields(&records[1]), strings(&["0", "Summary"]));
    assert_eq!(record_fields(&records[2]), strings(&["1", "Data"]));
    assert_eq!(sheet_listing(&Vec::new()).len(), 1);
}

#[test]
fn export_summary_groups_digits() {
    assert_eq!(export_summary(2, 3, "Data"), "2 3-column rows exported from \"Data\"");
    assert_eq!(
        export_summary(1234567, 1000, "Sheet 1"),
        "1,234,567 1,000-column rows exported from \"Sheet 1\""
    );
    assert_eq!(export_summary(0, 0, ""), "0 0-column rows exported from \"\"");
    assert_eq!(export_summary(999, 100000, "x"), "999 100,000-column rows exported from \"x\"");
}
