//! Lines of the comma-separated tables written for bulk loading: a fixed header, then one
//! line per kept row, fields quoted where they need it.
use vstd::prelude::*;

use crate::number::{number_text, number_text_spec, Number};
use crate::text::{join_seq, string_views};

verus! {

/// Whether a field holds a character that the default CSV writer quotes for: the delimiter,
/// the quote, or a line break.
pub open spec fn needs_quotes(f: Seq<char>) -> bool {
    exists|i: int|
        0 <= i < f.len() && (f[i] == ',' || f[i] == '"' || f[i] == '\n' || f[i] == '\r')
}

/// The field with each quote doubled.
pub open spec fn double_quotes(f: Seq<char>) -> Seq<char>
    decreases f.len(),
{
    if f.len() == 0 {
        Seq::<char>::empty()
    } else if f.last() == '"' {
        double_quotes(f.drop_last()) + seq!['"', '"']
    } else {
        double_quotes(f.drop_last()).push(f.last())
    }
}

/// A field as written: quoted, with its quotes doubled, when it needs quotes.
pub open spec fn csv_field(f: Seq<char>) -> Seq<char> {
    if needs_quotes(f) {
        seq!['"'] + double_quotes(f) + seq!['"']
    } else {
        f
    }
}

/// The CSV record of `fields` as the csv crate writes it with its defaults: fields joined by
/// commas, ended by a newline, and `""` for a record that would otherwise be empty.
pub open spec fn csv_record(fields: Seq<Seq<char>>) -> Seq<char> {
    let body = join_seq(fields.map_values(|f: Seq<char>| csv_field(f)), ',');
    if body.len() == 0 {
        seq!['"', '"', '\n']
    } else {
        body.push('\n')
    }
}

/// Relies on csv::Writer::write_record, writing one record into memory with the crate's
/// default settings: comma delimiter, quotes only where necessary, doubled quotes, and a
/// newline terminator (csv-core's `WriterBuilder::new`, `should_quote`, `terminator`).
#[verifier::external_body]
fn csv_line(fields: &Vec<String>) -> (r: String)
    ensures
        r@ == csv_record(string_views(fields@)),
{
    let mut writer = csv::Writer::from_writer(Vec::new());
    let written = writer.write_record(fields.iter());
    match (written, writer.into_inner()) {
        (Ok(()), Ok(bytes)) => String::from_utf8(bytes).unwrap_or_default(),
        _ => String::new(),
    }
}

/// The header line naming the given columns.
pub fn header_line(names: &Vec<&str>) -> (r: String)
    ensures
        r@ == csv_record(names@.map_values(|s: &str| s@)),
{
    let mut fields: Vec<String> = Vec::new();
    let mut i: usize = 0;
    while i < names.len()
        invariant
            i <= names@.len(),
            string_views(fields@) == names@.take(i as int).map_values(|s: &str| s@),
        decreases names@.len() - i,
    {
        let ghost before = string_views(fields@);
        fields.push(names[i].to_owned());
        assert(string_views(fields@) =~= before.push(names@[i as int]@));
        assert(names@.take(i + 1).map_values(|s: &str| s@) =~= names@.take(i as int).map_values(
            |s: &str| s@,
        ).push(names@[i as int]@));
        i = i + 1;
    }
    assert(names@.take(names@.len() as int) =~= names@);
    csv_line(&fields)
}

/// A line of text fields followed by numeric fields.
pub fn row_line(texts: &Vec<&str>, numbers: &Vec<Number>) -> (r: String)
    ensures
        r@ == csv_record(
            texts@.map_values(|s: &str| s@) + numbers@.map_values(|n: Number| number_text_spec(n)),
        ),
{
    let mut fields: Vec<String> = Vec::new();
    let mut i: usize = 0;
    while i < texts.len()
        invariant
            i <= texts@.len(),
            string_views(fields@) == texts@.take(i as int).map_values(|s: &str| s@),
        decreases texts@.len() - i,
    {
        let ghost before = string_views(fields@);
        fields.push(texts[i].to_owned());
        assert(string_views(fields@) =~= before.push(texts@[i as int]@));
        assert(texts@.take(i + 1).map_values(|s: &str| s@) =~= texts@.take(i as int).map_values(
            |s: &str| s@,
        ).push(texts@[i as int]@));
        i = i + 1;
    }
    assert(texts@.take(texts@.len() as int) =~= texts@);
    let ghost front = string_views(fields@);
    let mut j: usize = 0;
    while j < numbers.len()
        invariant
            j <= numbers@.len(),
            string_views(fields@) == front + numbers@.take(j as int).map_values(
                |n: Number| number_text_spec(n),
            ),
        decreases numbers@.len() - j,
    {
        let ghost before = string_views(fields@);
        fields.push(number_text(&numbers[j]));
        assert(string_views(fields@) =~= before.push(number_text_spec(numbers@[j as int])));
        assert(numbers@.take(j + 1).map_values(|n: Number| number_text_spec(n)) =~= numbers@.take(
            j as int,
        ).map_values(|n: Number| number_text_spec(n)).push(number_text_spec(numbers@[j as int])));
        j = j + 1;
    }
    assert(numbers@.take(numbers@.len() as int) =~= numbers@);
    csv_line(&fields)
}

} // verus!
