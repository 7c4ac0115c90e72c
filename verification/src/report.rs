//! The report: one row for each timed run, with the settings that produced
//! it, as comma-separated text under a fixed header.

use crate::config::{BenchmarkConfig, BenchmarkKind};
use crate::engine::{in_run_order, TimingSample};
use crate::text::{
    decimal, decimal_text, decimal_value, is_digit, lemma_decimal_digits, lemma_decimal_value,
    lemma_seconds_numeric, lemma_seconds_value, lemma_split_append, numeric, seconds,
    seconds_text, seconds_value, split,
};
use vstd::prelude::*;

verus! {

/// Why a report could not be written out as text.
#[derive(Clone, Copy, Debug, PartialEq, Eq, Structural)]
pub enum ReportError {
    /// A record was turned down by the encoder.
    Record,
    /// The encoder could not hand over its text.
    Text,
}

/// The views of a record's cells.
pub open spec fn cells_of(record: Seq<String>) -> Seq<Seq<char>> {
    Seq::new(record.len(), |i: int| record[i]@)
}

/// A character that a cell cannot hold without being quoted.
pub open spec fn is_special(c: char) -> bool {
    c == ',' || c == '"' || c == '\r' || c == '\n'
}

/// A cell that is written as it is.
pub open spec fn plain_cell(cell: Seq<char>) -> bool {
    forall|i: int| 0 <= i < cell.len() ==> !is_special(#[trigger] cell[i])
}

/// A record that is written as its cells with commas between them: every cell
/// is plain, and the record is more than a single empty cell.
pub open spec fn plain_record(record: Seq<Seq<char>>) -> bool {
    &&& record.len() > 0
    &&& record.len() == 1 ==> record[0].len() > 0
    &&& forall|i: int| 0 <= i < record.len() ==> plain_cell(#[trigger] record[i])
}

/// The cells with `separator` between each two.
pub open spec fn joined(cells: Seq<Seq<char>>, separator: char) -> Seq<char>
    decreases cells.len(),
{
    if cells.len() == 0 {
        Seq::empty()
    } else if cells.len() == 1 {
        cells[0]
    } else {
        joined(cells.drop_last(), separator).push(separator) + cells.last()
    }
}

/// One record as a line of text.
pub open spec fn line(record: Seq<Seq<char>>) -> Seq<char> {
    joined(record, ',').push('\n')
}

/// The records as lines of text, one after the other.
pub open spec fn lines(records: Seq<Seq<Seq<char>>>) -> Seq<char>
    decreases records.len(),
{
    if records.len() == 0 {
        Seq::empty()
    } else {
        lines(records.drop_last()) + line(records.last())
    }
}

/// A `csv::Writer` that writes into memory, with the settings that
/// `csv::Writer::from_writer` gives it.
#[verifier::external_body]
pub struct RecordWriter {
    inner: csv::Writer<Vec<u8>>,
}

/// `csv::Error`, why a record was turned down: never looked into.
#[verifier::external_type_specification]
#[verifier::external_body]
pub struct ExCsvError(csv::Error);

/// The text that the writer has been given to write so far.
pub uninterp spec fn csv_written(writer: RecordWriter) -> Seq<char>;

/// The number of cells that every record of the writer must have: that of its
/// first record, once there is one.
pub uninterp spec fn csv_width(writer: RecordWriter) -> Option<nat>;

/// `csv::Writer::from_writer` on an empty `Vec<u8>`: nothing is written yet,
/// and no record has fixed the number of cells.
#[verifier::external_body]
fn start_writer() -> (writer: RecordWriter)
    ensures
        csv_written(writer) == Seq::<char>::empty(),
        csv_width(writer) is None,
{
    RecordWriter { inner: csv::Writer::from_writer(Vec::new()) }
}

/// `csv::Writer::write_record` on a record of plain cells with the width the
/// writer expects: the cells are written unquoted, with commas between them
/// and a line feed after the last; the first record fixes the width. Writing
/// into memory does not fail, and a record of the expected width is not
/// turned down.
#[verifier::external_body]
fn write_record(writer: &mut RecordWriter, record: &Vec<String>) -> (r: Result<(), csv::Error>)
    requires
        plain_record(cells_of(record@)),
        csv_width(*old(writer)) matches Some(width) ==> width == record.len(),
    ensures
        r is Ok,
        csv_written(*final(writer)) == csv_written(*old(writer)) + line(cells_of(record@)),
        csv_width(*final(writer)) == Some(record.len() as nat),
{
    writer.inner.write_record(record)
}

/// `csv::Writer::into_inner`, and the bytes read as text: all that the writer
/// was given. Writing into memory does not fail, and what was written came
/// from strings.
#[verifier::external_body]
fn finish_writer(writer: RecordWriter) -> (r: Option<String>)
    ensures
        r is Some,
        r matches Some(text) ==> text@ == csv_written(writer),
{
    match writer.inner.into_inner() {
        Ok(bytes) => String::from_utf8(bytes).ok(),
        Err(_) => None,
    }
}

/// The samples of one benchmark run with the settings that produced them.
#[derive(Clone, Debug, PartialEq, Eq)]
pub struct Report {
    /// The kernel and the size of its inputs.
    pub benchmark: BenchmarkConfig,
    /// How many worker threads the kernel could use.
    pub num_threads: usize,
    /// How many inputs the pool held.
    pub num_inputs: usize,
    /// How many timed runs were made of each input.
    pub runs_per_input: usize,
    /// The seed on record.
    pub seed: u64,
    /// The timed runs, in run order.
    pub samples: Vec<TimingSample>,
}

/// The names of the columns of a report on `kind`.
pub open spec fn header_of(kind: BenchmarkKind) -> Seq<Seq<char>> {
    seq![
        "run"@,
        "time_sec"@,
        "num_threads"@,
        "num_inputs"@,
        "runs_per_input"@,
        "seed"@,
        kind.spec_size_column(),
    ]
}

impl Report {
    /// A report of a whole run: one sample for each timed run, in run order.
    pub open spec fn well_formed(&self) -> bool {
        in_run_order(self.samples@, self.num_inputs * self.runs_per_input)
    }

    /// The names of the columns.
    pub open spec fn header(&self) -> Seq<Seq<char>> {
        header_of(self.benchmark.kind)
    }

    /// The cells of the row of sample `j`.
    pub open spec fn row(&self, j: int) -> Seq<Seq<char>> {
        seq![
            decimal(self.samples[j].run_index as nat),
            seconds(self.samples[j].elapsed_nanos as nat),
            decimal(self.num_threads as nat),
            decimal(self.num_inputs as nat),
            decimal(self.runs_per_input as nat),
            decimal(self.seed as nat),
            decimal(self.benchmark.size as nat),
        ]
    }

    /// The header, then one row for each sample, in the samples' order.
    pub open spec fn table(&self) -> Seq<Seq<Seq<char>>> {
        Seq::new(
            (self.samples.len() + 1) as nat,
            |k: int|
                if k == 0 {
                    self.header()
                } else {
                    self.row(k - 1)
                },
        )
    }

    /// The report as text: each record of the table on a line of its own.
    pub open spec fn text(&self) -> Seq<char> {
        lines(self.table())
    }

    /// The names of the columns.
    pub fn header_cells(&self) -> (cells: Vec<String>)
        ensures
            cells_of(cells@) == self.header(),
    {
        let mut cells: Vec<String> = Vec::new();
        cells.push("run".to_owned());
        cells.push("time_sec".to_owned());
        cells.push("num_threads".to_owned());
        cells.push("num_inputs".to_owned());
        cells.push("runs_per_input".to_owned());
        cells.push("seed".to_owned());
        cells.push(self.benchmark.kind.size_column().to_owned());
        assert(cells_of(cells@) =~= self.header());
        cells
    }

    /// The cells of the row of sample `j`.
    pub fn row_cells(&self, j: usize) -> (cells: Vec<String>)
        requires
            j < self.samples.len(),
        ensures
            cells_of(cells@) == self.row(j as int),
    {
        let sample = self.samples[j];
        let mut cells: Vec<String> = Vec::new();
        cells.push(decimal_text(sample.run_index as u128));
        cells.push(seconds_text(sample.elapsed_nanos));
        cells.push(decimal_text(self.num_threads as u128));
        cells.push(decimal_text(self.num_inputs as u128));
        cells.push(decimal_text(self.runs_per_input as u128));
        cells.push(decimal_text(self.seed as u128));
        cells.push(decimal_text(self.benchmark.size as u128));
        assert(cells_of(cells@) =~= self.row(j as int));
        cells
    }

    /// Every record of the table is written as it is, and has seven cells.
    pub proof fn lemma_table_plain(&self, k: int)
        requires
            0 <= k <= self.samples.len(),
        ensures
            plain_record(self.table()[k]),
            self.table()[k].len() == 7,
    {
        if k == 0 {
            reveal_strlit("run");
            reveal_strlit("time_sec");
            reveal_strlit("num_threads");
            reveal_strlit("num_inputs");
            reveal_strlit("runs_per_input");
            reveal_strlit("seed");
            reveal_strlit("matrix_size");
            reveal_strlit("vector_size");
            let header = self.header();
            assert forall|i: int| 0 <= i < header.len() implies plain_cell(#[trigger] header[i]) by {}
        } else {
            let j = k - 1;
            let row = self.row(j);
            lemma_decimal_digits(self.samples[j].run_index as nat);
            lemma_seconds_numeric(self.samples[j].elapsed_nanos as nat);
            lemma_decimal_digits(self.num_threads as nat);
            lemma_decimal_digits(self.num_inputs as nat);
            lemma_decimal_digits(self.runs_per_input as nat);
            lemma_decimal_digits(self.seed as nat);
            lemma_decimal_digits(self.benchmark.size as nat);
            assert forall|i: int| 0 <= i < row.len() implies plain_cell(#[trigger] row[i]) by {
                lemma_numeric_plain(row[i]);
            }
        }
    }

    /// Writes the report out as text: the header, then one line for each
    /// sample, in the samples' order. Every cell is a name or a number, so
    /// nothing is quoted, and the encoder turns nothing down.
    pub fn render(&self) -> (r: Result<String, ReportError>)
        ensures
            r matches Ok(text) && text@ == self.text(),
    {
        let mut writer = start_writer();
        let header = self.header_cells();
        proof {
            self.lemma_table_plain(0);
            assert(self.table().subrange(0, 1).drop_last() =~= Seq::<Seq<Seq<char>>>::empty());
            assert(lines(self.table().subrange(0, 1)) =~= line(self.header())) by {
                reveal_with_fuel(lines, 2);
            }
        }
        if write_record(&mut writer, &header).is_err() {
            return Err(ReportError::Record);
        }
        let count = self.samples.len();
        let mut j: usize = 0;
        while j < count
            invariant
                count == self.samples.len(),
                j <= count,
                csv_written(writer) == lines(self.table().subrange(0, j + 1)),
                csv_width(writer) == Some(7nat),
            decreases count - j,
        {
            let row = self.row_cells(j);
            proof {
                self.lemma_table_plain(j + 1);
                let table = self.table();
                assert(table.subrange(0, j + 2).drop_last() =~= table.subrange(0, j + 1));
                assert(table.subrange(0, j + 2).last() == table[j + 1]);
            }
            if write_record(&mut writer, &row).is_err() {
                return Err(ReportError::Record);
            }
            j = j + 1;
        }
        proof {
            assert(self.table().subrange(0, count + 1) =~= self.table());
        }
        match finish_writer(writer) {
            Some(text) => Ok(text),
            None => Err(ReportError::Text),
        }
    }
}

/// Text of digits and points holds nothing that would have to be quoted.
pub proof fn lemma_numeric_plain(cell: Seq<char>)
    requires
        numeric(cell),
    ensures
        plain_cell(cell),
{
    assert forall|i: int| 0 <= i < cell.len() implies !is_special(#[trigger] cell[i]) by {
        assert(is_digit(cell[i]) || cell[i] == '.');
    }
}

/// The records that text holds: its lines, each cut at the commas.
pub open spec fn parse_table(text: Seq<char>) -> Seq<Seq<Seq<char>>> {
    let rows = split(text, '\n').drop_last();
    Seq::new(rows.len(), |k: int| split(rows[k], ','))
}

/// Text that does not hold the character `c`.
pub open spec fn free_of(text: Seq<char>, c: char) -> bool {
    forall|i: int| 0 <= i < text.len() ==> text[i] != c
}

/// Joining cells brings in no character but the separator.
pub proof fn lemma_joined_free(cells: Seq<Seq<char>>, separator: char, c: char)
    requires
        c != separator,
        forall|k: int| 0 <= k < cells.len() ==> free_of(#[trigger] cells[k], c),
    ensures
        free_of(joined(cells, separator), c),
    decreases cells.len(),
{
    if cells.len() == 1 {
        assert(free_of(cells[0], c));
    } else if cells.len() > 1 {
        let front = cells.drop_last();
        assert forall|k: int| 0 <= k < front.len() implies free_of(#[trigger] front[k], c) by {
            assert(front[k] == cells[k]);
        }
        lemma_joined_free(front, separator, c);
        assert(free_of(cells[cells.len() - 1], c));
    }
}

/// Cells without the separator, joined and cut again, are the same cells.
pub proof fn lemma_split_joined(cells: Seq<Seq<char>>, separator: char)
    requires
        cells.len() > 0,
        forall|k: int| 0 <= k < cells.len() ==> free_of(#[trigger] cells[k], separator),
    ensures
        split(joined(cells, separator), separator) == cells,
    decreases cells.len(),
{
    let nothing = Seq::<char>::empty();
    let last = cells.last();
    assert(free_of(cells[cells.len() - 1], separator));
    assert(split(nothing, separator) =~= seq![nothing]);
    if cells.len() == 1 {
        lemma_split_append(nothing, last, separator);
        assert(nothing + last =~= last);
        assert(split(last, separator) =~= cells);
    } else {
        let front = cells.drop_last();
        assert forall|k: int| 0 <= k < front.len() implies free_of(
            #[trigger] front[k],
            separator,
        ) by {
            assert(front[k] == cells[k]);
        }
        lemma_split_joined(front, separator);
        let head = joined(front, separator).push(separator);
        assert(head.drop_last() =~= joined(front, separator));
        assert(split(head, separator) == front.push(nothing));
        lemma_split_append(head, last, separator);
        assert(nothing + last =~= last);
        assert(front.push(nothing).drop_last() =~= front);
        assert(front.push(last) =~= cells);
    }
}

/// Each record as one line, without its line feed.
pub open spec fn joined_records(records: Seq<Seq<Seq<char>>>) -> Seq<Seq<char>> {
    Seq::new(records.len(), |k: int| joined(records[k], ','))
}

/// Lines cut at the line feeds are the records' lines, and an empty piece
/// after the last line feed.
pub proof fn lemma_split_lines(records: Seq<Seq<Seq<char>>>)
    requires
        forall|k: int| 0 <= k < records.len() ==> free_of(joined(#[trigger] records[k], ','), '\n'),
    ensures
        split(lines(records), '\n') == joined_records(records).push(Seq::empty()),
    decreases records.len(),
{
    let nothing = Seq::<char>::empty();
    if records.len() == 0 {
        assert(split(lines(records), '\n') =~= joined_records(records).push(nothing));
    } else {
        let front = records.drop_last();
        let last = joined(records.last(), ',');
        assert forall|k: int| 0 <= k < front.len() implies free_of(
            joined(#[trigger] front[k], ','),
            '\n',
        ) by {
            assert(front[k] == records[k]);
        }
        lemma_split_lines(front);
        assert(free_of(joined(records[records.len() - 1], ','), '\n'));
        let body = lines(front) + last;
        lemma_split_append(lines(front), last, '\n');
        assert(nothing + last =~= last);
        assert(joined_records(front).push(nothing).drop_last() =~= joined_records(front));
        assert(split(body, '\n') == joined_records(front).push(last));
        assert(lines(records) =~= body.push('\n'));
        assert(body.push('\n').drop_last() =~= body);
        assert(joined_records(front).push(last) =~= joined_records(records));
    }
}

/// Records that are written as they are read back as the same records.
pub proof fn lemma_parse_lines(records: Seq<Seq<Seq<char>>>)
    requires
        forall|k: int| 0 <= k < records.len() ==> plain_record(#[trigger] records[k]),
    ensures
        parse_table(lines(records)) == records,
{
    assert forall|k: int| 0 <= k < records.len() implies free_of(
        joined(#[trigger] records[k], ','),
        '\n',
    ) by {
        lemma_plain_free(records[k]);
        lemma_joined_free(records[k], ',', '\n');
    }
    lemma_split_lines(records);
    let rows = split(lines(records), '\n').drop_last();
    assert(rows =~= joined_records(records));
    assert forall|k: int| 0 <= k < records.len() implies split(rows[k], ',') == records[k] by {
        lemma_plain_free(records[k]);
        lemma_split_joined(records[k], ',');
    }
    assert(parse_table(lines(records)) =~= records);
}

/// The cells of a plain record hold neither a comma nor a line feed.
pub proof fn lemma_plain_free(record: Seq<Seq<char>>)
    requires
        plain_record(record),
    ensures
        forall|k: int| 0 <= k < record.len() ==> free_of(#[trigger] record[k], ','),
        forall|k: int| 0 <= k < record.len() ==> free_of(#[trigger] record[k], '\n'),
{
    assert forall|k: int| 0 <= k < record.len() implies free_of(#[trigger] record[k], ',')
        && free_of(record[k], '\n') by {
        let cell = record[k];
        assert(plain_cell(cell));
        assert forall|i: int| 0 <= i < cell.len() implies cell[i] != ',' && cell[i] != '\n' by {
            assert(!is_special(cell[i]));
        }
    }
}

/// A report that is written out and read back has the header and one row for
/// each timed run, in run order: the row of run `j` holds `j`, the time that
/// was measured, which is not negative, and the settings of the run.
pub proof fn lemma_report_round_trip(report: Report)
    requires
        report.well_formed(),
    ensures
        parse_table(report.text()) == report.table(),
        parse_table(report.text()).len() == report.num_inputs * report.runs_per_input + 1,
        parse_table(report.text())[0] == header_of(report.benchmark.kind),
        forall|j: int|
            0 <= j < report.num_inputs * report.runs_per_input ==> {
                let row = #[trigger] parse_table(report.text())[j + 1];
                &&& row.len() == 7
                &&& decimal_value(row[0]) == Some(j as nat)
                &&& seconds_value(row[1]) == Some(report.samples[j].elapsed_nanos as nat)
                &&& decimal_value(row[2]) == Some(report.num_threads as nat)
                &&& decimal_value(row[3]) == Some(report.num_inputs as nat)
                &&& decimal_value(row[4]) == Some(report.runs_per_input as nat)
                &&& decimal_value(row[5]) == Some(report.seed as nat)
                &&& decimal_value(row[6]) == Some(report.benchmark.size as nat)
            },
{
    let table = report.table();
    assert forall|k: int| 0 <= k < table.len() implies plain_record(#[trigger] table[k]) by {
        report.lemma_table_plain(k);
    }
    lemma_parse_lines(table);
    assert forall|j: int| 0 <= j < report.num_inputs * report.runs_per_input implies {
        let row = #[trigger] table[j + 1];
        &&& row.len() == 7
        &&& decimal_value(row[0]) == Some(j as nat)
        &&& seconds_value(row[1]) == Some(report.samples[j].elapsed_nanos as nat)
        &&& decimal_value(row[2]) == Some(report.num_threads as nat)
        &&& decimal_value(row[3]) == Some(report.num_inputs as nat)
        &&& decimal_value(row[4]) == Some(report.runs_per_input as nat)
        &&& decimal_value(row[5]) == Some(report.seed as nat)
        &&& decimal_value(row[6]) == Some(report.benchmark.size as nat)
    } by {
        assert(table[j + 1] == report.row(j));
        assert(report.samples[j].run_index == j);
        lemma_decimal_value(j as nat);
        lemma_seconds_value(report.samples[j].elapsed_nanos as nat);
        lemma_decimal_value(report.num_threads as nat);
        lemma_decimal_value(report.num_inputs as nat);
        lemma_decimal_value(report.runs_per_input as nat);
        lemma_decimal_value(report.seed as nat);
        lemma_decimal_value(report.benchmark.size as nat);
    }
}

/// The file a report on `benchmark` is written to, under the output directory.
pub open spec fn report_file(output_dir: Seq<char>, benchmark: Seq<char>) -> Seq<char> {
    output_dir + "/rust_"@ + benchmark + ".csv"@
}

/// The path of the file that the report of a benchmark is written to.
pub fn report_path(output_dir: &str, kind: BenchmarkKind) -> (path: String)
    ensures
        path@ == report_file(output_dir@, kind.spec_name()),
{
    let mut path = output_dir.to_owned();
    path.append("/rust_");
    path.append(kind.name());
    path.append(".csv");
    path
}

} // verus!
