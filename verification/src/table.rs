//! The table format: a header line of typed column names, comment lines of
//! which one form carries the sequence number, and pipe-delimited data rows.

use vstd::prelude::*;
use vstd::string::*;

use crate::record::{lemma_unique_name, value_of, FromRow};
use crate::text::{
    after_first, first_char, join, lemma_first_index_is, lemma_join_then_split, lines_of, parse_i32,
    parse_number, same_text, split, split_lines, split_text, trim, trim_text, without_cr,
};

verus! {

/// Why a text is not a table.
#[derive(Debug, Clone, Copy, PartialEq, Eq)]
pub enum ParseError {
    /// There is no header line, or one of its cells lacks the `!` between
    /// name and type tag.
    HeaderMalformed,
    /// A comment line names the sequence number and does not give one.
    SeqnMalformed,
    /// A data row has fewer cells than the header has columns.
    RowTooShort,
}

/// One column of a table: its name and the type tag declared for it.
#[derive(Debug, Clone, PartialEq, Eq)]
pub struct FieldSpec {
    pub name: String,
    pub type_tag: String,
}

/// What a `FieldSpec` holds.
pub struct FieldView {
    pub name: Seq<char>,
    pub type_tag: Seq<char>,
}

impl View for FieldSpec {
    type V = FieldView;

    open spec fn view(&self) -> FieldView {
        FieldView { name: self.name@, type_tag: self.type_tag@ }
    }
}

impl DeepView for FieldSpec {
    type V = FieldView;

    open spec fn deep_view(&self) -> FieldView {
        self@
    }
}

/// The column that one header cell declares: what stands before the first
/// `!` is the name, what stands between the first and the second (or the
/// end) is the type tag. A cell without `!` declares nothing.
pub open spec fn field_of(cell: Seq<char>) -> Option<FieldView> {
    let parts = split(cell, '!');
    if parts.len() >= 2 {
        Some(FieldView { name: parts[0], type_tag: parts[1] })
    } else {
        None
    }
}

/// The columns that a header line declares, in the order of its cells, or
/// `None` where one of the cells declares nothing.
pub open spec fn header_fields(line: Seq<char>) -> Option<Seq<FieldView>> {
    let cells = split(line, '|');
    if forall|i: int| 0 <= i < cells.len() ==> (#[trigger] field_of(cells[i])) is Some {
        Some(Seq::new(cells.len(), |i: int| field_of(cells[i]).unwrap()))
    } else {
        None
    }
}

/// What one line after the header contributes to a table.
pub enum LineView {
    /// Nothing: an empty line, or a comment that does not name the
    /// sequence number.
    Ignored,
    /// A new sequence number.
    Seqn(i32),
    /// A data row, cut to the width of the header.
    Row(Seq<Seq<char>>),
    /// The line makes the text malformed.
    Fault(ParseError),
}

/// What a comment line contributes. The one form that says something is
/// `# Seqn = N`: after the `#`, what stands before the first `=` is, once
/// trimmed, the name `Seqn`, and what stands between the first `=` and the
/// second (or the end) is, once trimmed, a non-negative base-ten integer.
/// Under that name anything else is a fault. A comment without `=`, or
/// under another name, says nothing.
pub open spec fn read_comment(line: Seq<char>) -> LineView {
    let parts = split(line.skip(1), '=');
    if parts.len() >= 2 && trim(parts[0]) == "Seqn"@ {
        match parse_i32(trim(parts[1])) {
            Some(seqn) => if seqn >= 0 {
                LineView::Seqn(seqn)
            } else {
                LineView::Fault(ParseError::SeqnMalformed)
            },
            None => LineView::Fault(ParseError::SeqnMalformed),
        }
    } else {
        LineView::Ignored
    }
}

/// What a line after the header contributes to a table of `width` columns.
pub open spec fn read_line(width: nat, line: Seq<char>) -> LineView {
    if line.len() == 0 {
        LineView::Ignored
    } else if line[0] == '#' {
        read_comment(line)
    } else {
        let cells = split(line, '|');
        if cells.len() < width {
            LineView::Fault(ParseError::RowTooShort)
        } else {
            LineView::Row(cells.take(width as int))
        }
    }
}

/// The fault of the first malformed line among `body`, if there is one.
pub open spec fn first_fault(width: nat, body: Seq<Seq<char>>) -> Option<ParseError>
    decreases body.len(),
{
    if body.len() == 0 {
        None
    } else {
        match first_fault(width, body.drop_last()) {
            Some(fault) => Some(fault),
            None => match read_line(width, body.last()) {
                LineView::Fault(fault) => Some(fault),
                _ => None,
            },
        }
    }
}

/// The sequence number that the last comment among `body` gives, or zero
/// where none gives one.
pub open spec fn seqn_of(width: nat, body: Seq<Seq<char>>) -> i32
    decreases body.len(),
{
    if body.len() == 0 {
        0
    } else {
        match read_line(width, body.last()) {
            LineView::Seqn(seqn) => seqn,
            _ => seqn_of(width, body.drop_last()),
        }
    }
}

/// The data rows among `body`, in the order of the lines.
pub open spec fn rows_of(width: nat, body: Seq<Seq<char>>) -> Seq<Seq<Seq<char>>>
    decreases body.len(),
{
    if body.len() == 0 {
        Seq::empty()
    } else {
        let before = rows_of(width, body.drop_last());
        match read_line(width, body.last()) {
            LineView::Row(cells) => before.push(cells),
            _ => before,
        }
    }
}

/// What a `Table` holds.
pub struct TableView {
    pub seqn: i32,
    pub fields: Seq<FieldView>,
    pub rows: Seq<Seq<Seq<char>>>,
}

/// The table that a sequence of lines stands for. The first line is the
/// header. The first malformed line, if any, decides the error.
pub open spec fn table_of(lines: Seq<Seq<char>>) -> Result<TableView, ParseError> {
    if lines.len() == 0 {
        Err(ParseError::HeaderMalformed)
    } else {
        match header_fields(lines[0]) {
            None => Err(ParseError::HeaderMalformed),
            Some(fields) => match first_fault(fields.len(), lines.skip(1)) {
                Some(fault) => Err(fault),
                None => Ok(
                    TableView {
                        seqn: seqn_of(fields.len(), lines.skip(1)),
                        fields,
                        rows: rows_of(fields.len(), lines.skip(1)),
                    },
                ),
            },
        }
    }
}

/// Whether no two columns have the same name.
pub open spec fn distinct_names(fields: Seq<FieldView>) -> bool {
    forall|i: int, j: int|
        0 <= i < fields.len() && 0 <= j < fields.len() && i != j
            ==> (#[trigger] fields[i]).name != (#[trigger] fields[j]).name
}

/// The `(name, type tag, value)` triples of a row: one for each column, in
/// column order.
pub open spec fn triples(fields: Seq<FieldView>, cells: Seq<Seq<char>>) -> Seq<
    (Seq<char>, Seq<char>, Seq<char>),
> {
    Seq::new(fields.len(), |i: int| (fields[i].name, fields[i].type_tag, cells[i]))
}

/// The records of a table: one for each row, in the order of the rows.
pub open spec fn records_of<T: FromRow>(table: TableView) -> Seq<T::V> {
    Seq::new(table.rows.len(), |i: int| T::decoded(triples(table.fields, table.rows[i])))
}

/// What a vector of records holds.
pub open spec fn views_of<T: View>(records: Seq<T>) -> Seq<T::V> {
    Seq::new(records.len(), |i: int| records[i]@)
}

/// What the outcome of `parser` holds.
pub open spec fn outcome_view<T: View>(outcome: Result<(i32, Vec<T>), ParseError>) -> Result<
    (i32, Seq<T::V>),
    ParseError,
> {
    match outcome {
        Ok((seqn, records)) => Ok((seqn, views_of(records@))),
        Err(fault) => Err(fault),
    }
}

/// The sequence number and the records that a text stands for.
pub open spec fn parsed<T: FromRow>(text: Seq<char>) -> Result<(i32, Seq<T::V>), ParseError> {
    match table_of(lines_of(text)) {
        Ok(table) => Ok((table.seqn, records_of::<T>(table))),
        Err(fault) => Err(fault),
    }
}

/// Once a prefix of the lines holds a fault, that fault is the first fault
/// of all the lines.
pub proof fn lemma_fault_stays(width: nat, body: Seq<Seq<char>>, len: int)
    requires
        0 <= len <= body.len(),
        first_fault(width, body.take(len)) is Some,
    ensures
        first_fault(width, body) == first_fault(width, body.take(len)),
    decreases body.len(),
{
    if len == body.len() {
        assert(body.take(len) =~= body);
    } else {
        assert(body.drop_last().take(len) =~= body.take(len));
        lemma_fault_stays(width, body.drop_last(), len);
    }
}

/// Whether a line after the header is a data row: it is not empty and
/// does not begin with `#`.
pub open spec fn is_data_line(line: Seq<char>) -> bool {
    line.len() > 0 && line[0] != '#'
}

/// The data rows among `body`, in the order of the lines.
pub open spec fn data_lines(body: Seq<Seq<char>>) -> Seq<Seq<char>> {
    body.filter(|line: Seq<char>| is_data_line(line))
}

/// Whether a text holds neither `|` nor `!`, so that it can stand in a
/// header cell as a name or a type tag.
pub open spec fn is_plain(s: Seq<char>) -> bool {
    forall|k: int| 0 <= k < s.len() ==> s[k] != '|' && s[k] != '!'
}

/// The header cell that declares a column.
pub open spec fn header_cell(field: FieldView) -> Seq<char> {
    field.name + seq!['!'] + field.type_tag
}

/// The header line that declares the given columns.
pub open spec fn header_line(fields: Seq<FieldView>) -> Seq<char> {
    join(Seq::new(fields.len(), |i: int| header_cell(fields[i])), '|')
}

/// A header line is read back as the columns it was written from, in the
/// same order and with the same names and type tags.
pub proof fn lemma_header_round_trip(fields: Seq<FieldView>)
    requires
        fields.len() >= 1,
        forall|i: int|
            0 <= i < fields.len() ==> is_plain(#[trigger] fields[i].name) && is_plain(
                fields[i].type_tag,
            ),
    ensures
        header_fields(header_line(fields)) == Some(fields),
{
    let cells = Seq::new(fields.len(), |i: int| header_cell(fields[i]));
    assert forall|i: int, k: int|
        0 <= i < cells.len() && 0 <= k < cells[i].len() implies cells[i][k] != '|' by {
        let name = fields[i].name;
        assert(is_plain(name) && is_plain(fields[i].type_tag));
        if k < name.len() {
            assert(cells[i][k] == name[k]);
        } else if k > name.len() {
            assert(cells[i][k] == fields[i].type_tag[k - name.len() - 1]);
        }
    }
    lemma_join_then_split(cells, '|');
    assert forall|i: int| 0 <= i < cells.len() implies field_of(cells[i]) == Some(fields[i]) by {
        let parts = seq![fields[i].name, fields[i].type_tag];
        assert(is_plain(fields[i].name) && is_plain(fields[i].type_tag));
        assert(parts.skip(1) =~= seq![fields[i].type_tag]);
        assert(join(parts.skip(1), '!') == fields[i].type_tag);
        assert(join(parts, '!') =~= cells[i]);
        lemma_join_then_split(parts, '!');
    }
    assert(header_fields(header_line(fields)).unwrap() =~= fields);
}

/// In a table every row has one cell for each column, and the sequence
/// number is not negative.
pub proof fn lemma_table_shape(lines: Seq<Seq<char>>)
    requires
        table_of(lines) is Ok,
    ensures
        table_of(lines).unwrap().seqn >= 0,
        forall|r: int|
            0 <= r < table_of(lines).unwrap().rows.len() ==> (
            #[trigger] table_of(lines).unwrap().rows[r]).len() == table_of(
                lines,
            ).unwrap().fields.len(),
{
    let width = table_of(lines).unwrap().fields.len();
    lemma_body_shape(width, lines.skip(1));
}

/// The rows read from any lines have `width` cells each, and the sequence
/// number read from them is not negative.
pub proof fn lemma_body_shape(width: nat, body: Seq<Seq<char>>)
    ensures
        seqn_of(width, body) >= 0,
        forall|r: int|
            0 <= r < rows_of(width, body).len() ==> (#[trigger] rows_of(width, body)[r]).len()
                == width,
    decreases body.len(),
{
    if body.len() > 0 {
        let before = rows_of(width, body.drop_last());
        lemma_body_shape(width, body.drop_last());
        assert forall|r: int| 0 <= r < rows_of(width, body).len() implies (#[trigger] rows_of(
            width,
            body,
        )[r]).len() == width by {
            if r < before.len() {
                assert(rows_of(width, body)[r] == before[r]);
            }
        }
    }
}

/// Order preservation: a table has exactly one row for each data line, in
/// the order of the lines, and the row holds the cells of that line.
pub proof fn lemma_rows_in_file_order(lines: Seq<Seq<char>>)
    requires
        table_of(lines) is Ok,
    ensures
        table_of(lines).unwrap().rows.len() == data_lines(lines.skip(1)).len(),
        forall|r: int|
            0 <= r < data_lines(lines.skip(1)).len() ==> {
                &&& split(#[trigger] data_lines(lines.skip(1))[r], '|').len() >= table_of(
                    lines,
                ).unwrap().fields.len()
                &&& table_of(lines).unwrap().rows[r] == split(
                    data_lines(lines.skip(1))[r],
                    '|',
                ).take(table_of(lines).unwrap().fields.len() as int)
            },
{
    let width = table_of(lines).unwrap().fields.len();
    lemma_rows_of_data_lines(width, lines.skip(1));
}

/// Where no line is malformed, the rows are the data lines, each split into
/// its cells and cut to the width.
pub proof fn lemma_rows_of_data_lines(width: nat, body: Seq<Seq<char>>)
    requires
        first_fault(width, body) is None,
    ensures
        rows_of(width, body).len() == data_lines(body).len(),
        forall|r: int|
            0 <= r < data_lines(body).len() ==> {
                &&& split(#[trigger] data_lines(body)[r], '|').len() >= width
                &&& rows_of(width, body)[r] == split(data_lines(body)[r], '|').take(width as int)
            },
    decreases body.len(),
{
    reveal(Seq::filter);
    if body.len() > 0 {
        let front = body.drop_last();
        let last = body.last();
        lemma_rows_of_data_lines(width, front);
        assert(data_lines(body) == if is_data_line(last) {
            data_lines(front).push(last)
        } else {
            data_lines(front)
        });
        assert(read_line(width, last) is Row <==> is_data_line(last));
        assert forall|r: int| 0 <= r < data_lines(body).len() implies {
            &&& split(#[trigger] data_lines(body)[r], '|').len() >= width
            &&& rows_of(width, body)[r] == split(data_lines(body)[r], '|').take(width as int)
        } by {
            if r < data_lines(front).len() {
                assert(data_lines(body)[r] == data_lines(front)[r]);
                assert(rows_of(width, body)[r] == rows_of(width, front)[r]);
            } else {
                assert(data_lines(body)[r] == last);
            }
        }
    } else {
        assert(data_lines(body).len() == 0);
    }
}

/// Order preservation for records: a text that parses gives exactly one
/// record for each data line, in the order of the lines, and each record is
/// what the cells of its line stand for under the header.
pub proof fn lemma_records_in_file_order<T: FromRow>(text: Seq<char>)
    requires
        parsed::<T>(text) is Ok,
    ensures
        ({
            let records = parsed::<T>(text).unwrap().1;
            let fields = header_fields(lines_of(text)[0]).unwrap();
            let data = data_lines(lines_of(text).skip(1));
            &&& records.len() == data.len()
            &&& forall|r: int|
                0 <= r < data.len() ==> (#[trigger] records[r]) == T::decoded(
                    triples(fields, split(data[r], '|')),
                )
        }),
{
    let lines = lines_of(text);
    let table = table_of(lines).unwrap();
    let records = parsed::<T>(text).unwrap().1;
    let data = data_lines(lines.skip(1));
    lemma_rows_in_file_order(lines);
    assert forall|r: int| 0 <= r < data.len() implies (#[trigger] records[r]) == T::decoded(
        triples(table.fields, split(data[r], '|')),
    ) by {
        assert(split(data[r], '|').len() >= table.fields.len());
        assert(table.rows[r] == split(data[r], '|').take(table.fields.len() as int));
        assert(triples(table.fields, table.rows[r]) =~= triples(
            table.fields,
            split(data[r], '|'),
        ));
    }
}

/// Parsing is a function of the text: two outcomes of `parser` for the same
/// text hold the same error, or the same sequence number and equal records.
pub proof fn lemma_same_text_same_outcome<T: FromRow>(
    text: Seq<char>,
    first: Result<(i32, Vec<T>), ParseError>,
    second: Result<(i32, Vec<T>), ParseError>,
)
    requires
        outcome_view(first) == parsed::<T>(text),
        outcome_view(second) == parsed::<T>(text),
    ensures
        outcome_view(first) == outcome_view(second),
        first is Err ==> second == Err::<(i32, Vec<T>), ParseError>(first->Err_0),
        first matches Ok(pair) ==> second is Ok && second->Ok_0.0 == pair.0 && second->Ok_0.1.len()
            == pair.1.len() && forall|r: int|
            0 <= r < pair.1.len() ==> (#[trigger] second->Ok_0.1[r])@ == pair.1[r]@,
{
    if first is Ok {
        let left = views_of(first->Ok_0.1@);
        let right = views_of(second->Ok_0.1@);
        assert(left == right);
        assert forall|r: int| 0 <= r < left.len() implies (#[trigger] second->Ok_0.1[r])@
            == first->Ok_0.1[r]@ by {
            assert(left[r] == right[r]);
        }
    }
}

/// A header followed by nothing but empty lines and comments that do not
/// name the sequence number is a table without rows whose sequence number is
/// zero.
pub proof fn lemma_header_only(lines: Seq<Seq<char>>)
    requires
        lines.len() >= 1,
        header_fields(lines[0]) is Some,
        forall|i: int|
            1 <= i < lines.len() ==> read_line(
                header_fields(lines[0]).unwrap().len(),
                #[trigger] lines[i],
            ) is Ignored,
    ensures
        table_of(lines) == Ok::<TableView, ParseError>(
            TableView {
                seqn: 0,
                fields: header_fields(lines[0]).unwrap(),
                rows: Seq::empty(),
            },
        ),
{
    let width = header_fields(lines[0]).unwrap().len();
    let body = lines.skip(1);
    assert forall|i: int| 0 <= i < body.len() implies read_line(width, #[trigger] body[i])
        is Ignored by {
        assert(body[i] == lines[i + 1]);
    }
    lemma_ignored_lines(width, body);
}

/// Lines that are all ignored hold no fault, no sequence number and no row.
pub proof fn lemma_ignored_lines(width: nat, body: Seq<Seq<char>>)
    requires
        forall|i: int| 0 <= i < body.len() ==> read_line(width, #[trigger] body[i]) is Ignored,
    ensures
        first_fault(width, body) is None,
        seqn_of(width, body) == 0,
        rows_of(width, body) == Seq::<Seq<Seq<char>>>::empty(),
    decreases body.len(),
{
    if body.len() > 0 {
        let front = body.drop_last();
        assert forall|i: int| 0 <= i < front.len() implies read_line(width, #[trigger] front[i])
            is Ignored by {
            assert(front[i] == body[i]);
        }
        lemma_ignored_lines(width, front);
        assert(read_line(width, body[body.len() - 1]) is Ignored);
    }
}

/// A text whose only line is a well-formed header, with or without a line
/// feed after it, parses to sequence number zero and no records.
pub proof fn lemma_header_only_text<T: FromRow>(header: Seq<char>)
    requires
        header_fields(header) is Some,
        forall|k: int| 0 <= k < header.len() ==> header[k] != '\n',
        header.len() > 0 ==> header.last() != '\r',
    ensures
        parsed::<T>(header) == Ok::<(i32, Seq<T::V>), ParseError>((0, Seq::empty())),
        parsed::<T>(header.push('\n')) == Ok::<(i32, Seq<T::V>), ParseError>((0, Seq::empty())),
{
    if header.len() == 0 {
        lemma_first_index_is(header, '|', 0);
        lemma_first_index_is(header, '!', 0);
        assert(field_of(split(header, '|')[0]) is None);
    }
    let strip = |line: Seq<char>| without_cr(line);
    lemma_header_only(seq![header]);
    let table = table_of(seq![header]).unwrap();
    assert(records_of::<T>(table) =~= Seq::<T::V>::empty());

    lemma_first_index_is(header, '\n', header.len() as int);
    assert(split(header, '\n') =~= seq![header]);
    assert(seq![header].drop_last().map_values(strip) =~= Seq::<Seq<char>>::empty());
    assert(lines_of(header) =~= seq![header]);

    let ended = seq![header, Seq::<char>::empty()];
    assert(ended.skip(1) =~= seq![Seq::<char>::empty()]);
    assert(join(ended.skip(1), '\n') =~= Seq::<char>::empty());
    assert(join(ended, '\n') =~= header.push('\n'));
    lemma_join_then_split(ended, '\n');
    assert(ended.drop_last().map_values(strip) =~= seq![header]);
    assert(lines_of(header.push('\n')) =~= seq![header]);
}

/// Where the columns have distinct names, the value that a row has under
/// the name of a column is the cell of that column.
pub proof fn lemma_cell_of_column(fields: Seq<FieldView>, cells: Seq<Seq<char>>, column: int)
    requires
        distinct_names(fields),
        0 <= column < fields.len(),
    ensures
        value_of(triples(fields, cells), fields[column].name) == Some(cells[column]),
{
    let row = triples(fields, cells);
    assert forall|i: int| 0 <= i < row.len() && i != column implies (#[trigger] row[i]).0
        != row[column].0 by {
        assert(fields[i].name != fields[column].name);
    }
    lemma_unique_name(row, column);
}

/// Leniency: whatever its cells hold, a data row with at least one cell for
/// each column is read as a row, never as a fault.
pub proof fn lemma_full_row_accepted(width: nat, line: Seq<char>)
    requires
        is_data_line(line),
        split(line, '|').len() >= width,
    ensures
        read_line(width, line) == LineView::Row(split(line, '|').take(width as int)),
{
}

/// No silent truncation: a data row with fewer cells than the header has
/// columns makes the text malformed, and where no line before it is
/// malformed the error is `RowTooShort`.
pub proof fn lemma_short_row_rejected(lines: Seq<Seq<char>>, at: int)
    requires
        1 <= at < lines.len(),
        header_fields(lines[0]) is Some,
        is_data_line(lines[at]),
        split(lines[at], '|').len() < header_fields(lines[0]).unwrap().len(),
    ensures
        table_of(lines) is Err,
        first_fault(header_fields(lines[0]).unwrap().len(), lines.subrange(1, at)) is None
            ==> table_of(lines) == Err::<TableView, ParseError>(ParseError::RowTooShort),
{
    let width = header_fields(lines[0]).unwrap().len();
    let body = lines.skip(1);
    let upto = body.take(at);
    assert(upto.drop_last() =~= lines.subrange(1, at));
    assert(upto.last() == lines[at]);
    assert(read_line(width, lines[at]) == LineView::Fault(ParseError::RowTooShort));
    lemma_fault_stays(width, body, at);
}

/// Reads a header line.
pub fn parse_header(line: &str) -> (header: Result<Vec<FieldSpec>, ParseError>)
    ensures
        match header_fields(line@) {
            Some(fields) => header is Ok && header.unwrap().deep_view() == fields,
            None => header == Err::<Vec<FieldSpec>, ParseError>(ParseError::HeaderMalformed),
        },
{
    let cells = split_text(line, '|');
    let ghost cell_texts = split(line@, '|');
    let mut fields: Vec<FieldSpec> = Vec::new();
    let mut i: usize = 0;
    while i < cells.len()
        invariant
            cells.deep_view() == cell_texts,
            cell_texts == split(line@, '|'),
            i <= cells.len(),
            fields.len() == i,
            forall|k: int| 0 <= k < i ==> field_of(cell_texts[k]) == Some(#[trigger] fields[k]@),
        decreases cells.len() - i,
    {
        assert(cell_texts[i as int] == cells[i as int]@);
        let parts = split_text(cells[i].as_str(), '!');
        if parts.len() < 2 {
            assert(field_of(cell_texts[i as int]) is None);
            return Err(ParseError::HeaderMalformed);
        }
        let field = FieldSpec { name: parts[0].clone(), type_tag: parts[1].clone() };
        proof {
            assert(parts.deep_view()[0] == parts[0]@);
            assert(parts.deep_view()[1] == parts[1]@);
        }
        fields.push(field);
        i = i + 1;
    }
    proof {
        assert forall|k: int| 0 <= k < cell_texts.len() implies (#[trigger] field_of(
            cell_texts[k],
        )) is Some by {
            assert(field_of(cell_texts[k]) == Some(fields[k]@));
        }
        assert(fields.deep_view() =~= header_fields(line@).unwrap());
    }
    Ok(fields)
}

/// What one line after the header contributes, as `read_line` has it.
#[derive(Debug, Clone, PartialEq, Eq)]
pub enum Line {
    Ignored,
    Seqn(i32),
    Row(Vec<String>),
    Fault(ParseError),
}

impl View for Line {
    type V = LineView;

    open spec fn view(&self) -> LineView {
        match self {
            Line::Ignored => LineView::Ignored,
            Line::Seqn(seqn) => LineView::Seqn(*seqn),
            Line::Row(cells) => LineView::Row(cells.deep_view()),
            Line::Fault(fault) => LineView::Fault(*fault),
        }
    }
}

/// Reads one line after the header of a table of `width` columns.
pub fn parse_line(width: usize, line: &str) -> (content: Line)
    ensures
        content@ == read_line(width as nat, line@),
{
    match first_char(line) {
        None => Line::Ignored,
        Some(first) => {
            if first == '#' {
                let comment = after_first(line);
                let parts = split_text(comment.as_str(), '=');
                if parts.len() < 2 {
                    return Line::Ignored;
                }
                assert(parts.deep_view()[0] == parts[0]@);
                assert(parts.deep_view()[1] == parts[1]@);
                let name = trim_text(parts[0].as_str());
                if !same_text(name.as_str(), "Seqn") {
                    return Line::Ignored;
                }
                let number = trim_text(parts[1].as_str());
                match parse_number(number.as_str()) {
                    Some(seqn) => if seqn >= 0 {
                        Line::Seqn(seqn)
                    } else {
                        Line::Fault(ParseError::SeqnMalformed)
                    },
                    None => Line::Fault(ParseError::SeqnMalformed),
                }
            } else {
                let mut cells = split_text(line, '|');
                if cells.len() < width {
                    Line::Fault(ParseError::RowTooShort)
                } else {
                    let ghost all = cells.deep_view();
                    cells.truncate(width);
                    assert(cells.deep_view() =~= all.take(width as int));
                    Line::Row(cells)
                }
            }
        },
    }
}

/// A parsed table: its sequence number, its columns and its rows. Every row
/// has exactly one cell for each column, and the sequence number is not
/// negative.
#[derive(Debug, PartialEq, Eq)]
pub struct Table {
    seqn: i32,
    fields: Vec<FieldSpec>,
    rows: Vec<Vec<String>>,
}

impl View for Table {
    type V = TableView;

    closed spec fn view(&self) -> TableView {
        TableView {
            seqn: self.seqn,
            fields: self.fields.deep_view(),
            rows: self.rows.deep_view(),
        }
    }
}

impl Table {
    #[verifier::type_invariant]
    spec fn well_formed(self) -> bool {
        &&& self.seqn >= 0
        &&& forall|r: int|
            0 <= r < self.rows.len() ==> (#[trigger] self.rows[r]).len() == self.fields.len()
    }

    /// Reads a table from its lines, the header first.
    pub fn from_lines(lines: &Vec<String>) -> (table: Result<Table, ParseError>)
        ensures
            match table_of(lines.deep_view()) {
                Ok(view) => table is Ok && table.unwrap()@ == view,
                Err(fault) => table == Err::<Table, ParseError>(fault),
            },
    {
        if lines.len() == 0 {
            return Err(ParseError::HeaderMalformed);
        }
        assert(lines.deep_view()[0] == lines[0]@);
        let fields = match parse_header(lines[0].as_str()) {
            Ok(fields) => fields,
            Err(_) => {
                return Err(ParseError::HeaderMalformed);
            },
        };
        let width: usize = fields.len();
        let ghost body = lines.deep_view().skip(1);
        let mut seqn: i32 = 0;
        let mut rows: Vec<Vec<String>> = Vec::new();
        let mut i: usize = 1;
        proof {
            assert(body.take(0) =~= Seq::<Seq<char>>::empty());
            assert(rows.deep_view() =~= Seq::<Seq<Seq<char>>>::empty());
        }
        while i < lines.len()
            invariant
                1 <= i <= lines.len(),
                body == lines.deep_view().skip(1),
                header_fields(lines.deep_view()[0]) == Some(fields.deep_view()),
                width == fields.len(),
                first_fault(width as nat, body.take(i - 1)) is None,
                seqn == seqn_of(width as nat, body.take(i - 1)),
                seqn >= 0,
                rows.deep_view() == rows_of(width as nat, body.take(i - 1)),
                forall|r: int| 0 <= r < rows.len() ==> (#[trigger] rows[r]).len() == width,
            decreases lines.len() - i,
        {
            let content = parse_line(width, lines[i].as_str());
            proof {
                assert(body.take(i as int).drop_last() =~= body.take(i - 1));
                assert(body.take(i as int).last() == lines[i as int]@);
            }
            match content {
                Line::Fault(fault) => {
                    proof {
                        lemma_fault_stays(width as nat, body, i as int);
                    }
                    return Err(fault);
                },
                Line::Seqn(number) => {
                    seqn = number;
                },
                Line::Row(cells) => {
                    let ghost before = rows.deep_view();
                    assert(cells.deep_view().len() == width);
                    rows.push(cells);
                    assert(rows.deep_view() =~= before.push(cells.deep_view()));
                },
                Line::Ignored => {},
            }
            i = i + 1;
        }
        assert(body.take(lines.len() - 1) =~= body);
        Ok(Table { seqn, fields, rows })
    }

    /// Reads a table from a text.
    pub fn parse(text: &str) -> (table: Result<Table, ParseError>)
        ensures
            match table_of(lines_of(text@)) {
                Ok(view) => table is Ok && table.unwrap()@ == view,
                Err(fault) => table == Err::<Table, ParseError>(fault),
            },
    {
        let lines = split_lines(text);
        Table::from_lines(&lines)
    }

    /// The sequence number of the table.
    pub fn seqn(&self) -> (seqn: i32)
        ensures
            seqn == self@.seqn,
            seqn >= 0,
    {
        proof {
            use_type_invariant(self);
        }
        self.seqn
    }

    /// The columns of the table, in header order.
    pub fn fields(&self) -> (fields: &Vec<FieldSpec>)
        ensures
            fields.deep_view() == self@.fields,
    {
        &self.fields
    }

    /// The rows of the table, in file order. Each has one cell for each
    /// column.
    pub fn rows(&self) -> (rows: &Vec<Vec<String>>)
        ensures
            rows.deep_view() == self@.rows,
            forall|r: int| 0 <= r < rows.len() ==> (#[trigger] rows[r]).len() == self@.fields.len(),
    {
        proof {
            use_type_invariant(self);
        }
        &self.rows
    }

    /// Tells whether no two columns of the table have the same name.
    pub fn has_distinct_names(&self) -> (distinct: bool)
        ensures
            distinct == distinct_names(self@.fields),
    {
        let n: usize = self.fields.len();
        let mut i: usize = 0;
        while i < n
            invariant
                n == self.fields.len(),
                i <= n,
                forall|a: int, b: int|
                    0 <= a < i && 0 <= b < a ==> (#[trigger] self.fields[a]).name@ != (
                    #[trigger] self.fields[b]).name@,
            decreases n - i,
        {
            let mut j: usize = 0;
            while j < i
                invariant
                    n == self.fields.len(),
                    i < n,
                    j <= i,
                    forall|b: int|
                        0 <= b < j ==> self.fields[i as int].name@ != (
                        #[trigger] self.fields[b]).name@,
                decreases i - j,
            {
                if same_text(self.fields[i].name.as_str(), self.fields[j].name.as_str()) {
                    assert(self@.fields[i as int].name == self@.fields[j as int].name);
                    return false;
                }
                j = j + 1;
            }
            i = i + 1;
        }
        assert forall|a: int, b: int|
            0 <= a < self@.fields.len() && 0 <= b < self@.fields.len() && a != b implies (
        #[trigger] self@.fields[a]).name != (#[trigger] self@.fields[b]).name by {
            if b < a {
                assert(self.fields[a].name@ != self.fields[b].name@);
            } else {
                assert(self.fields[b].name@ != self.fields[a].name@);
            }
        }
        true
    }

    /// The `(name, type tag, value)` triples of one row, or `None` where the
    /// table has no such row.
    pub fn row_values(&self, row: usize) -> (values: Option<Vec<(String, String, String)>>)
        ensures
            match values {
                Some(values) => row < self@.rows.len() && values.deep_view() == triples(
                    self@.fields,
                    self@.rows[row as int],
                ),
                None => row >= self@.rows.len(),
            },
    {
        if row < self.rows.len() {
            Some(self.triples_at(row))
        } else {
            None
        }
    }

    fn triples_at(&self, row: usize) -> (values: Vec<(String, String, String)>)
        requires
            row < self@.rows.len(),
        ensures
            values.deep_view() == triples(self@.fields, self@.rows[row as int]),
    {
        proof {
            use_type_invariant(self);
        }
        let cells = &self.rows[row];
        let n: usize = self.fields.len();
        let mut values: Vec<(String, String, String)> = Vec::new();
        let mut i: usize = 0;
        while i < n
            invariant
                n == self.fields.len() == cells.len(),
                i <= n,
                values.len() == i,
                forall|k: int|
                    0 <= k < i ==> (#[trigger] values[k]).deep_view() == (
                        self.fields[k].name@,
                        self.fields[k].type_tag@,
                        cells[k]@,
                    ),
            decreases n - i,
        {
            let value = (
                self.fields[i].name.clone(),
                self.fields[i].type_tag.clone(),
                cells[i].clone(),
            );
            values.push(value);
            i = i + 1;
        }
        assert(values.deep_view() =~= triples(self@.fields, self@.rows[row as int]));
        values
    }

    /// The records of the table: one for each row, in the order of the rows.
    pub fn records<T: FromRow>(&self) -> (records: Vec<T>)
        ensures
            views_of(records@) == records_of::<T>(self@),
    {
        let n: usize = self.rows.len();
        let mut records: Vec<T> = Vec::new();
        let mut i: usize = 0;
        while i < n
            invariant
                n == self@.rows.len(),
                i <= n,
                records.len() == i,
                forall|k: int|
                    0 <= k < i ==> (#[trigger] records[k])@ == T::decoded(
                        triples(self@.fields, self@.rows[k]),
                    ),
            decreases n - i,
        {
            let values = self.triples_at(i);
            records.push(T::from_row(values));
            i = i + 1;
        }
        assert(views_of(records@) =~= records_of::<T>(self@));
        records
    }
}

/// Reads the sequence number and the records of a table from its text.
pub fn parser<T: FromRow>(text: &str) -> (outcome: Result<(i32, Vec<T>), ParseError>)
    ensures
        outcome_view(outcome) == parsed::<T>(text@),
{
    match Table::parse(text) {
        Ok(table) => Ok((table.seqn(), table.records::<T>())),
        Err(fault) => Err(fault),
    }
}

} // verus!
