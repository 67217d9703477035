//! The streaming tabular decoder: a header line names the columns, and each later line is
//! cut at the same separator and fed, column by column, into a fresh row builder.
use vstd::prelude::*;

use crate::error::{Error, ErrorKind};
use crate::text::{split_seq, split_str, string_views};

verus! {

/// The (column name, raw value) pairs of a line: header and fields zipped, the longer
/// one cut to the length of the shorter.
pub open spec fn zip_fields(columns: Seq<Seq<char>>, values: Seq<Seq<char>>) -> Seq<
    (Seq<char>, Seq<char>),
> {
    let n = if columns.len() <= values.len() {
        columns.len()
    } else {
        values.len()
    };
    Seq::new(n, |i: int| (columns[i], values[i]))
}

/// The pairs a line gives under a header.
pub open spec fn line_fields(columns: Seq<Seq<char>>, line: Seq<char>, sep: char) -> Seq<
    (Seq<char>, Seq<char>),
> {
    zip_fields(columns, split_seq(line, sep))
}

/// The message of a row that lacks the required field `name`.
pub open spec fn missing_message(name: Seq<char>) -> Seq<char> {
    "Missing "@ + name
}

/// Receives the named fields of one line and turns them into a row.
pub trait RowBuilder: Sized {
    type Row;

    /// The kind of value a builder is made with.
    type Setting;

    /// What the builder was made with (an entity class, a column layout), left alone by
    /// `field`.
    spec fn setting(&self) -> Self::Setting;

    /// The fields received so far, in order.
    spec fn fed(&self) -> Seq<(Seq<char>, Seq<char>)>;

    spec fn wf(&self) -> bool;

    /// Whether a builder made with `setting` and fed `fields` finishes with a row.
    spec fn completes(setting: Self::Setting, fields: Seq<(Seq<char>, Seq<char>)>) -> bool;

    /// The name of the required field that a builder made with `setting` and fed `fields`
    /// reports as missing when it cannot finish.
    spec fn missing(setting: Self::Setting, fields: Seq<(Seq<char>, Seq<char>)>) -> Seq<char>;

    /// Whether `row` is what a builder made with `setting` and fed `fields` finishes with.
    spec fn yields(setting: Self::Setting, fields: Seq<(Seq<char>, Seq<char>)>, row: Self::Row) -> bool;

    /// Receives one field. A field the row does not use is ignored.
    fn field(&mut self, name: &str, value: &str)
        requires
            old(self).wf(),
        ensures
            final(self).wf(),
            final(self).fed() == old(self).fed().push((name@, value@)),
            final(self).setting() == old(self).setting(),
    ;

    /// The row, or a `MissingField` error when a field the row requires never came.
    fn finish(self) -> (r: Result<Self::Row, Error>)
        requires
            self.wf(),
        ensures
            r is Ok <==> Self::completes(self.setting(), self.fed()),
            r matches Ok(row) ==> Self::yields(self.setting(), self.fed(), row),
            r matches Err(e) ==> e.kind == ErrorKind::MissingField && e.chain() == seq![
                missing_message(Self::missing(self.setting(), self.fed())),
            ],
    ;
}

/// Whether `res` is what decoding `fields` with a builder made with `setting` gives: a row
/// exactly when the fields complete one, that row, and otherwise an error naming the missing
/// field.
pub open spec fn decodes_as<B: RowBuilder>(
    setting: B::Setting,
    fields: Seq<(Seq<char>, Seq<char>)>,
    res: Result<B::Row, Error>,
) -> bool {
    &&& (res is Ok <==> B::completes(setting, fields))
    &&& res matches Ok(row) ==> B::yields(setting, fields, row)
    &&& res matches Err(e) ==> e.kind == ErrorKind::MissingField && e.chain() == seq![
        missing_message(B::missing(setting, fields)),
    ]
}

/// Makes a fresh row builder for each line.
pub trait RowBuilderMaker {
    type Builder: RowBuilder;

    spec fn setting(&self) -> <Self::Builder as RowBuilder>::Setting;

    fn make(&self) -> (b: Self::Builder)
        ensures
            b.wf(),
            b.fed() == Seq::<(Seq<char>, Seq<char>)>::empty(),
            b.setting() == self.setting(),
    ;
}

/// Decodes one data line under the header `columns`.
pub fn parse_record<M: RowBuilderMaker>(
    maker: &M,
    columns: &Vec<String>,
    line: &str,
    separator: char,
) -> (r: Result<<M::Builder as RowBuilder>::Row, Error>)
    ensures
        decodes_as::<M::Builder>(
            maker.setting(),
            line_fields(string_views(columns@), line@, separator),
            r,
        ),
{
    let values = split_str(line, separator);
    let mut builder = maker.make();
    let n = if columns.len() <= values.len() {
        columns.len()
    } else {
        values.len()
    };
    let ghost fields = line_fields(string_views(columns@), line@, separator);
    let mut i: usize = 0;
    while i < n
        invariant
            i <= n,
            n == fields.len(),
            n <= columns@.len(),
            n <= values@.len(),
            fields == zip_fields(string_views(columns@), string_views(values@)),
            builder.wf(),
            builder.setting() == maker.setting(),
            builder.fed() == fields.take(i as int),
        decreases n - i,
    {
        builder.field(columns[i].as_str(), values[i].as_str());
        assert(fields.take(i + 1) =~= fields.take(i as int).push(
            (columns@[i as int]@, values@[i as int]@),
        ));
        i = i + 1;
    }
    assert(fields.take(n as int) =~= fields);
    builder.finish()
}

/// The column names of a header line.
pub fn header_columns(line: &str, separator: char) -> (r: Vec<String>)
    ensures
        string_views(r@) == split_seq(line@, separator),
{
    split_str(line, separator)
}

/// Decodes a whole text held as lines: the first names the columns, and each later line
/// gives one result of its own, so a line that fails does not stop the lines after it.
pub fn decode_lines<M: RowBuilderMaker>(maker: &M, separator: char, lines: &Vec<String>) -> (r:
    Result<Vec<Result<<M::Builder as RowBuilder>::Row, Error>>, Error>)
    ensures
        lines@.len() == 0 <==> r is Err,
        r matches Err(e) ==> e.kind == ErrorKind::Storage,
        r matches Ok(rows) ==> {
            &&& rows@.len() == lines@.len() - 1
            &&& forall|i: int|
                0 <= i < rows@.len() ==> {
                    let fields = line_fields(
                        split_seq(lines@[0]@, separator),
                        lines@[i + 1]@,
                        separator,
                    );
                    decodes_as::<M::Builder>(maker.setting(), fields, #[trigger] rows@[i])
                }
        },
{
    if lines.len() == 0 {
        return Err(Error::new(ErrorKind::Storage, String::from_str("Empty TSV file")));
    }
    let columns = header_columns(lines[0].as_str(), separator);
    let mut rows: Vec<Result<<M::Builder as RowBuilder>::Row, Error>> = Vec::new();
    let mut i: usize = 1;
    while i < lines.len()
        invariant
            1 <= i <= lines@.len(),
            rows@.len() == i - 1,
            string_views(columns@) == split_seq(lines@[0]@, separator),
            forall|j: int|
                0 <= j < rows@.len() ==> {
                    let fields = line_fields(
                        split_seq(lines@[0]@, separator),
                        lines@[j + 1]@,
                        separator,
                    );
                    decodes_as::<M::Builder>(maker.setting(), fields, #[trigger] rows@[j])
                },
        decreases lines@.len() - i,
    {
        let row = parse_record(maker, &columns, lines[i].as_str(), separator);
        rows.push(row);
        i = i + 1;
    }
    Ok(rows)
}

/// Push-mode decoding: lines are handed in one at a time as they arrive.
pub struct TsvConsumer<M: RowBuilderMaker> {
    pub separator: char,
    pub columns: Option<Vec<String>>,
    pub maker: M,
}

impl<M: RowBuilderMaker> TsvConsumer<M> {
    pub fn new(separator: char, maker: M) -> (r: TsvConsumer<M>)
        ensures
            r.separator == separator,
            r.columns is None,
            r.maker == maker,
    {
        TsvConsumer { separator, columns: None, maker }
    }

    /// Takes the next line: the first one becomes the header and gives no row; each later
    /// one gives its row or its own error.
    pub fn consume(&mut self, line: &str) -> (r: Option<Result<<M::Builder as RowBuilder>::Row, Error>>)
        ensures
            final(self).separator == old(self).separator,
            final(self).maker == old(self).maker,
            match old(self).columns {
                None => r is None && (final(self).columns matches Some(c) && string_views(c@)
                    == split_seq(line@, old(self).separator)),
                Some(c) => final(self).columns == old(self).columns && (r matches Some(res) && {
                    let fields = line_fields(string_views(c@), line@, old(self).separator);
                    decodes_as::<M::Builder>(old(self).maker.setting(), fields, res)
                }),
            },
    {
        match &self.columns {
            Some(columns) => Some(parse_record(&self.maker, columns, line, self.separator)),
            None => {
                self.columns = Some(header_columns(line, self.separator));
                None
            },
        }
    }
}

/// A supplier of text lines, one at a time, until it runs out; each item is a line or a
/// failure to read one.
pub trait LineSource {
    /// What the source will hand out, in order: `Some(line)`, or `None` for a read failure.
    spec fn remaining(&self) -> Seq<Option<Seq<char>>>;

    fn next_line(&mut self) -> (r: Option<Result<String, Error>>)
        ensures
            old(self).remaining().len() == 0 ==> r is None && final(self).remaining().len() == 0,
            old(self).remaining().len() > 0 ==> final(self).remaining() == old(
                self,
            ).remaining().drop_first() && match old(self).remaining()[0] {
                Some(line) => r matches Some(Ok(s)) && s@ == line,
                None => r matches Some(Err(_)),
            },
    ;
}

/// Lines held in memory, handed out in order.
pub struct LinesOf {
    pub lines: Vec<String>,
    pub next: usize,
}

impl LinesOf {
    pub fn new(lines: Vec<String>) -> (r: LinesOf)
        ensures
            r.remaining() == string_views(lines@).map_values(|l: Seq<char>| Some(l)),
    {
        let r = LinesOf { lines, next: 0 };
        assert(r.lines@.skip(0) =~= r.lines@);
        assert(r.remaining() =~= string_views(r.lines@).map_values(|l: Seq<char>| Some(l)));
        r
    }
}

impl LineSource for LinesOf {
    open spec fn remaining(&self) -> Seq<Option<Seq<char>>> {
        if self.next <= self.lines@.len() {
            self.lines@.skip(self.next as int).map_values(|l: String| Some(l@))
        } else {
            Seq::empty()
        }
    }

    fn next_line(&mut self) -> (r: Option<Result<String, Error>>) {
        if self.next < self.lines.len() {
            let line = self.lines[self.next].clone();
            let ghost before = self.remaining();
            self.next = self.next + 1;
            assert(self.remaining() =~= before.drop_first());
            Some(Ok(line))
        } else {
            None
        }
    }
}

/// Pull-mode decoding: rows are read from a line source on demand.
pub struct TsvReader<S: LineSource, M: RowBuilderMaker> {
    pub separator: char,
    pub columns: Vec<String>,
    pub lines: S,
    pub maker: M,
}

impl<S: LineSource, M: RowBuilderMaker> TsvReader<S, M> {
    /// Reads the header line; fails when the source has no line or cannot give one.
    pub fn new(lines: S, separator: char, maker: M) -> (r: Result<TsvReader<S, M>, Error>)
        ensures
            lines.remaining().len() == 0 ==> (r matches Err(e) && e.kind == ErrorKind::Storage
                && e.chain() == seq!["Empty TSV file"@]),
            lines.remaining().len() > 0 ==> match lines.remaining()[0] {
                Some(header) => r matches Ok(reader) && reader.separator == separator
                    && reader.maker == maker && string_views(reader.columns@) == split_seq(
                    header,
                    separator,
                ) && reader.lines.remaining() == lines.remaining().drop_first(),
                None => r is Err,
            },
    {
        let mut lines = lines;
        match lines.next_line() {
            None => Err(Error::new(ErrorKind::Storage, String::from_str("Empty TSV file"))),
            Some(Err(e)) => Err(e),
            Some(Ok(header)) => {
                let columns = header_columns(header.as_str(), separator);
                Ok(TsvReader { separator, columns, lines, maker })
            },
        }
    }

    /// The next row, or its error: the decode of the source's next line under the header,
    /// or the source's read error; `None` once the source has run out.
    pub fn next(&mut self) -> (r: Option<Result<<M::Builder as RowBuilder>::Row, Error>>)
        ensures
            final(self).separator == old(self).separator,
            final(self).columns == old(self).columns,
            final(self).maker == old(self).maker,
            old(self).lines.remaining().len() == 0 ==> r is None,
            old(self).lines.remaining().len() > 0 ==> final(self).lines.remaining() == old(
                self,
            ).lines.remaining().drop_first() && match old(self).lines.remaining()[0] {
                Some(line) => r matches Some(res) && decodes_as::<M::Builder>(
                    old(self).maker.setting(),
                    line_fields(string_views(old(self).columns@), line, old(self).separator),
                    res,
                ),
                None => r matches Some(Err(_)),
            },
    {
        match self.lines.next_line() {
            None => None,
            Some(Err(e)) => Some(Err(e)),
            Some(Ok(line)) => {
                let r = parse_record(&self.maker, &self.columns, line.as_str(), self.separator);
                Some(r)
            },
        }
    }
}

} // verus!
