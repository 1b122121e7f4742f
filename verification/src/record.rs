//! Records for the writer: the fields of one row, as they are or tidied.

use crate::sheet::texts;
use crate::text::{chars_of, push_char, trimmed};
use vstd::prelude::*;
use vstd::string::*;

verus! {

/// `csv::StringRecord`, a record of text fields, carried as it is.
#[verifier::external_type_specification]
#[verifier::external_body]
pub struct ExStringRecord(csv::StringRecord);

/// The fields that a record holds, in order.
pub uninterp spec fn fields_of(record: csv::StringRecord) -> Seq<Seq<char>>;

/// Calls `csv::StringRecord::new`, which makes a record without fields.
#[verifier::external_body]
pub(crate) fn empty_record() -> (record: csv::StringRecord)
    ensures
        fields_of(record) == Seq::<Seq<char>>::empty(),
{
    csv::StringRecord::new()
}

/// Calls `csv::StringRecord::push_field`, which adds one field behind the
/// others and leaves those as they are.
#[verifier::external_body]
pub(crate) fn push_field(record: &mut csv::StringRecord, field: &str)
    ensures
        fields_of(*final(record)) == fields_of(*old(record)).push(field@),
{
    record.push_field(field)
}

/// Calls `csv::StringRecord::trim`, which puts in each field's place what
/// `str::trim` makes of it: the field without the whitespace at its ends.
#[verifier::external_body]
pub(crate) fn trim_fields(record: &mut csv::StringRecord)
    ensures
        fields_of(*final(record)) == Seq::new(
            fields_of(*old(record)).len(),
            |i: int| trimmed(fields_of(*old(record))[i]),
        ),
{
    record.trim()
}

/// Calls `csv::StringRecord::len`, the number of fields.
#[verifier::external_body]
pub(crate) fn field_count(record: &csv::StringRecord) -> (n: usize)
    ensures
        n == fields_of(*record).len(),
{
    record.len()
}

/// Calls `csv::StringRecord::get`, which gives the field at a position and
/// nothing behind the last field.
#[verifier::external_body]
pub(crate) fn field_at(record: &csv::StringRecord, i: usize) -> (field: Option<String>)
    ensures
        match field {
            Some(s) => i < fields_of(*record).len() && s@ == fields_of(*record)[i as int],
            None => i >= fields_of(*record).len(),
        },
{
    record.get(i).map(|s| s.to_string())
}

/// `s` with a space in place of each line feed.
pub open spec fn flattened(s: Seq<char>) -> Seq<char> {
    Seq::new(
        s.len(),
        |i: int|
            if s[i] == '\n' {
                ' '
            } else {
                s[i]
            },
    )
}

/// A field made tidy: trimmed, then flattened.
pub open spec fn tidy(s: Seq<char>) -> Seq<char> {
    flattened(trimmed(s))
}

/// The fields of the record made from `fields`.
pub open spec fn assemble_spec(fields: Seq<Seq<char>>, trim: bool) -> Seq<Seq<char>> {
    if trim {
        Seq::new(fields.len(), |i: int| tidy(fields[i]))
    } else {
        fields
    }
}

/// `field` with a space in place of each line feed.
pub fn flatten(field: &str) -> (out: String)
    ensures
        out@ == flattened(field@),
{
    let chars = chars_of(field);
    let mut out = String::new();
    let mut i: usize = 0;
    while i < chars.len()
        invariant
            i <= chars.len(),
            chars@ == field@,
            out@ == flattened(field@).subrange(0, i as int),
        decreases chars.len() - i,
    {
        let c = chars[i];
        if c == '\n' {
            push_char(&mut out, ' ');
        } else {
            push_char(&mut out, c);
        }
        assert(out@ =~= flattened(field@).subrange(0, i + 1));
        i += 1;
    }
    assert(out@ =~= flattened(field@));
    out
}

/// The fields of a record, in order.
pub fn fields(record: &csv::StringRecord) -> (out: Vec<String>)
    ensures
        texts(out@) == fields_of(*record),
{
    let n = field_count(record);
    let mut out: Vec<String> = Vec::new();
    let mut i: usize = 0;
    while i < n
        invariant
            i <= n == fields_of(*record).len(),
            out.len() == i,
            forall|k: int| 0 <= k < i ==> out@[k]@ == fields_of(*record)[k],
        decreases n - i,
    {
        match field_at(record, i) {
            Some(s) => out.push(s),
            None => {
                assert(false);
            },
        }
        i += 1;
    }
    assert(texts(out@) =~= fields_of(*record));
    out
}

/// The record of one row.
///
/// Without `trim` it holds the fields as they are. With `trim` each field
/// loses the whitespace at its ends, and each line feed left in it becomes
/// one space.
pub fn assemble(cells: &Vec<String>, trim: bool) -> (record: csv::StringRecord)
    ensures
        fields_of(record) == assemble_spec(texts(cells@), trim),
{
    let mut record = empty_record();
    let mut i: usize = 0;
    while i < cells.len()
        invariant
            i <= cells.len(),
            fields_of(record) == texts(cells@).subrange(0, i as int),
        decreases cells.len() - i,
    {
        push_field(&mut record, cells[i].as_str());
        assert(fields_of(record) =~= texts(cells@).subrange(0, i + 1));
        i += 1;
    }
    assert(texts(cells@).subrange(0, cells.len() as int) =~= texts(cells@));
    if !trim {
        return record;
    }
    trim_fields(&mut record);
    let n = field_count(&record);
    let mut tidied = empty_record();
    let mut j: usize = 0;
    while j < n
        invariant
            j <= n == cells.len(),
            fields_of(record).len() == n,
            forall|k: int| 0 <= k < n ==> fields_of(record)[k] == trimmed(#[trigger] cells@[k]@),
            fields_of(tidied) == assemble_spec(texts(cells@), true).subrange(0, j as int),
        decreases n - j,
    {
        match field_at(&record, j) {
            Some(s) => {
                let flat = flatten(s.as_str());
                push_field(&mut tidied, flat.as_str());
            },
            None => {
                assert(false);
            },
        }
        assert(fields_of(tidied) =~= assemble_spec(texts(cells@), true).subrange(0, j + 1));
        j += 1;
    }
    assert(assemble_spec(texts(cells@), true).subrange(0, n as int) =~= assemble_spec(
        texts(cells@),
        true,
    ));
    tidied
}

/// A record holds one field for each cell of its row, in the row's order.
pub proof fn law_record_width(fields: Seq<Seq<char>>, trim: bool)
    ensures
        assemble_spec(fields, trim).len() == fields.len(),
{
}

/// A tidy field holds no line feed.
pub proof fn law_tidy_has_no_line_feed(s: Seq<char>)
    ensures
        !tidy(s).contains('\n'),
{
    let t = tidy(s);
    if t.contains('\n') {
        let i = choose|i: int| 0 <= i < t.len() && t[i] == '\n';
        assert(t[i] != '\n');
    }
}

} // verus!
