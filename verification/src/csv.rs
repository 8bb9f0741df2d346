//! CSV parsing and table rendering: the input is split into lines and cells,
//! each cell is cut down to the column width, and the result is drawn as a
//! box-drawing table with every column padded to the fixed column capacity.
use crate::strutil::{center, lemma_spec_split_len, push_char, repeat_char, replace_char, spec_center, spec_split, split_char, str_eq};
use vstd::prelude::*;
use vstd::string::{StrSliceExecFns, StringExecFns};

verus! {

pub const DEFAULT_DELIMITER: Delimiter = Delimiter::Semicolon;

pub const DEFAULT_COL_WIDTH: usize = 16;

pub const DEFAULT_FILE_PATH: &'static str = "test/username.csv";

pub const MAX_COLUMN_CAPACITY: usize = DEFAULT_COL_WIDTH;

/// The cell separator a CSV input uses.
#[derive(Debug, PartialEq, Eq, Structural, Clone, Copy)]
pub enum Delimiter {
    Comma,
    Semicolon,
}

/// The delimiter a word names, if any: the character itself or its name.
pub open spec fn spec_delimiter_of(s: Seq<char>) -> Option<Delimiter> {
    if s == ","@ || s == "comma"@ {
        Some(Delimiter::Comma)
    } else if s == ";"@ || s == "semicolon"@ {
        Some(Delimiter::Semicolon)
    } else {
        None
    }
}

impl Delimiter {
    /// Parses a delimiter word.
    pub fn from_str(s: &str) -> (r: Result<Delimiter, ()>)
        ensures
            r == match spec_delimiter_of(s@) {
                Some(d) => Ok::<Delimiter, ()>(d),
                None => Err::<Delimiter, ()>(()),
            },
    {
        if str_eq(s, ",") || str_eq(s, "comma") {
            Ok(Delimiter::Comma)
        } else if str_eq(s, ";") || str_eq(s, "semicolon") {
            Ok(Delimiter::Semicolon)
        } else {
            Err(())
        }
    }

    /// The separator character itself.
    pub fn as_char(&self) -> (c: char)
        ensures
            c == self.spec_char(),
    {
        match self {
            Delimiter::Comma => ',',
            Delimiter::Semicolon => ';',
        }
    }

    pub open spec fn spec_char(&self) -> char {
        match *self {
            Delimiter::Comma => ',',
            Delimiter::Semicolon => ';',
        }
    }

    /// The separator as a one-character string, as it is printed.
    pub fn as_str(&self) -> (r: &'static str)
        ensures
            r@ == seq![self.spec_char()],
    {
        proof {
            reveal_strlit(",");
            reveal_strlit(";");
        }
        match self {
            Delimiter::Comma => ",",
            Delimiter::Semicolon => ";",
        }
    }
}

/// Why CSV input produced no table.
#[derive(Debug, PartialEq, Eq, Clone, Copy)]
pub enum CsvError {
    /// The input held no lines at all.
    NoCsvData,
    /// The first line held no header cells.
    NoHeaderData,
    /// Nothing followed the header line.
    NoData,
    /// A delimiter word named no delimiter.
    InvalidDelimiter,
    /// The settings named neither a path, a delimiter nor a width.
    InvalidSettings,
    /// The settings named an input file, but its content was not supplied.
    MissingFileContent,
}

impl CsvError {
    /// The message each error is reported with.
    pub fn message(&self) -> (r: &'static str)
        ensures
            *self == CsvError::NoCsvData ==> r@ == "No csv data found."@,
            *self == CsvError::NoHeaderData ==> r@ == "No header data found."@,
            *self == CsvError::NoData ==> r@ == "No data found"@,
            *self == CsvError::InvalidDelimiter ==> r@ == "Invalid delimiter."@,
            *self == CsvError::InvalidSettings ==> r@ == "Invalid csv settings."@,
            *self == CsvError::MissingFileContent ==> r@ == "No csv file content provided."@,
    {
        match self {
            CsvError::NoCsvData => "No csv data found.",
            CsvError::NoHeaderData => "No header data found.",
            CsvError::NoData => "No data found",
            CsvError::InvalidDelimiter => "Invalid delimiter.",
            CsvError::InvalidSettings => "Invalid csv settings.",
            CsvError::MissingFileContent => "No csv file content provided.",
        }
    }
}

/// Reads the optional delimiter argument of the `csv` command: only the bare
/// separator characters are accepted here.
pub fn identify_delimiter(s: Option<&str>) -> (r: Result<Delimiter, CsvError>)
    ensures
        match s {
            Some(w) => if w@ == ","@ {
                r == Ok::<Delimiter, CsvError>(Delimiter::Comma)
            } else if w@ == ";"@ {
                r == Ok::<Delimiter, CsvError>(Delimiter::Semicolon)
            } else {
                r == Err::<Delimiter, CsvError>(CsvError::InvalidDelimiter)
            },
            None => r == Err::<Delimiter, CsvError>(CsvError::InvalidDelimiter),
        },
{
    match s {
        Some(w) => {
            if str_eq(w, ",") {
                Ok(Delimiter::Comma)
            } else if str_eq(w, ";") {
                Ok(Delimiter::Semicolon)
            } else {
                Err(CsvError::InvalidDelimiter)
            }
        },
        None => Err(CsvError::InvalidDelimiter),
    }
}

/// A cell cut down to at most `w` characters. Cells are measured and cut in
/// characters, deliberately not in bytes: a byte cut could split a character,
/// and the renderer centers by character count too. The byte length of a
/// non-ASCII cell may therefore exceed `w`.
pub open spec fn spec_cell(s: Seq<char>, w: nat) -> Seq<char> {
    if s.len() <= w {
        s
    } else {
        s.take(w as int)
    }
}

/// One line split into cells, each cut to the column width.
pub open spec fn spec_parsed_row(line: Seq<char>, d: char, w: nat) -> Seq<Seq<char>> {
    spec_split(line, d).map_values(|c: Seq<char>| spec_cell(c, w))
}

/// Every line after the header, parsed as a row.
pub open spec fn spec_parsed_rows(lines: Seq<Seq<char>>, d: char, w: nat) -> Seq<Seq<Seq<char>>> {
    lines.skip(1).map_values(|l: Seq<char>| spec_parsed_row(l, d, w))
}

/// Cuts a cell down to at most `w` characters.
fn truncate_cell(s: String, w: usize) -> (r: String)
    ensures
        r@ == spec_cell(s@, w as nat),
{
    let n = s.as_str().unicode_len();
    if n <= w {
        s
    } else {
        s.as_str().substring_char(0, w).to_owned()
    }
}

/// Splits one line into cells and cuts each to the column width.
pub(crate) fn parse_row(line: &str, d: char, w: usize) -> (r: Vec<String>)
    ensures
        r.deep_view() == spec_parsed_row(line@, d, w as nat),
{
    let cells = split_char(line, d);
    let ghost cv = cells.deep_view();
    let m = cells.len();
    let mut out: Vec<String> = Vec::new();
    let mut j: usize = 0;
    while j < m
        invariant
            m == cells@.len(),
            cv == cells.deep_view(),
            0 <= j <= m,
            out.deep_view() =~= cv.take(j as int).map_values(|c: Seq<char>| spec_cell(c, w as nat)),
        decreases m - j,
    {
        let cell = truncate_cell(cells[j].clone(), w);
        let ghost odv = out.deep_view();
        out.push(cell);
        proof {
            assert(out.deep_view() =~~= odv.push(spec_cell(cv[j as int], w as nat)));
            assert(cv.take(j + 1).map_values(|c: Seq<char>| spec_cell(c, w as nat)) =~~= cv.take(
                j as int,
            ).map_values(|c: Seq<char>| spec_cell(c, w as nat)).push(
                spec_cell(cv[j as int], w as nat),
            ));
        }
        j = j + 1;
    }
    proof {
        assert(cv.take(m as int) =~= cv);
    }
    out
}

/// A parsed CSV: the header cells and the data rows.
pub struct Csv {
    pub columns: Vec<String>,
    pub data: Vec<Vec<String>>,
}

impl Csv {
    /// An empty table: one empty header cell, one row of one empty cell.
    pub fn new() -> (r: Self)
        ensures
            r.columns.deep_view() =~= seq![Seq::<char>::empty()],
            r.data.deep_view() =~= seq![seq![Seq::<char>::empty()]],
    {
        let mut columns: Vec<String> = Vec::new();
        columns.push(String::new());
        let mut row: Vec<String> = Vec::new();
        row.push(String::new());
        let mut data: Vec<Vec<String>> = Vec::new();
        data.push(row);
        proof {
            assert(columns.deep_view() =~~= seq![Seq::<char>::empty()]);
            assert(data.deep_view() =~~= seq![seq![Seq::<char>::empty()]]);
        }
        Csv { columns, data }
    }

    /// Parses CSV text: the first line becomes the header, every further
    /// line a data row, cells cut to `max_width` characters — by characters,
    /// not bytes, see [`spec_cell`]. Fails with [`CsvError::NoData`] exactly
    /// when no line follows the header — the header is kept even then.
    pub fn parse_csv_data(&mut self, data: &str, delimiter: Delimiter, max_width: usize) -> (r:
        Result<(), CsvError>)
        ensures
            ({
                let lines = spec_split(data@, '\n');
                let d = delimiter.spec_char();
                let after = *final(self);
                &&& after.columns.deep_view() == spec_parsed_row(lines[0], d, max_width as nat)
                &&& lines.len() == 1 ==> r == Err::<(), CsvError>(CsvError::NoData) && after.data
                    == old(self).data
                &&& lines.len() > 1 ==> r == Ok::<(), CsvError>(()) && after.data.deep_view()
                    == spec_parsed_rows(lines, d, max_width as nat)
            }),
    {
        proof {
            lemma_spec_split_len(data@, '\n');
        }
        let d = delimiter.as_char();
        let lines = split_char(data, '\n');
        let ghost lv = lines.deep_view();
        let n = lines.len();
        let headers = parse_row(lines[0].as_str(), d, max_width);
        self.columns = headers;
        if n == 1 {
            return Err(CsvError::NoData);
        }
        let mut rows: Vec<Vec<String>> = Vec::new();
        let mut i: usize = 1;
        while i < n
            invariant
                n == lines@.len(),
                lv == lines.deep_view(),
                1 <= i <= n,
                rows.deep_view() =~= lv.subrange(1, i as int).map_values(
                    |l: Seq<char>| spec_parsed_row(l, d, max_width as nat),
                ),
            decreases n - i,
        {
            let row = parse_row(lines[i].as_str(), d, max_width);
            rows.push(row);
            proof {
                assert(lv.subrange(1, i + 1).drop_last() =~= lv.subrange(1, i as int));
                assert(lv.subrange(1, i + 1).map_values(
                    |l: Seq<char>| spec_parsed_row(l, d, max_width as nat),
                ) =~= lv.subrange(1, i as int).map_values(
                    |l: Seq<char>| spec_parsed_row(l, d, max_width as nat),
                ).push(spec_parsed_row(lv[i as int], d, max_width as nat)));
            }
            i = i + 1;
        }
        proof {
            assert(lv.subrange(1, n as int) =~= lv.skip(1));
        }
        self.data = rows;
        Ok(())
    }
}

/// `n` copies of `s`, back to back.
pub open spec fn seq_repeat(s: Seq<char>, n: nat) -> Seq<char>
    decreases n,
{
    if n == 0 {
        Seq::empty()
    } else {
        seq_repeat(s, (n - 1) as nat) + s
    }
}

/// One column's worth of horizontal rule: the column capacity of `─`, then a
/// `┬` joint.
pub open spec fn spec_rule_segment() -> Seq<char> {
    Seq::new(MAX_COLUMN_CAPACITY as nat, |i: int| '─') + seq!['┬']
}

/// The horizontal rule between the frame's corners: one segment per column,
/// with the trailing joint dropped.
pub open spec fn spec_base_line(columns: nat) -> Seq<char> {
    let b = seq_repeat(spec_rule_segment(), columns);
    if b.len() > 0 {
        b.drop_last()
    } else {
        b
    }
}

pub open spec fn spec_top_line(base: Seq<char>) -> Seq<char> {
    seq!['╭'] + base + seq!['╮', '\n']
}

pub open spec fn spec_header_sep(base: Seq<char>) -> Seq<char> {
    seq!['╞'] + base.map_values(|c: char| if c == '─' {
        '═'
    } else if c == '┬' {
        '╪'
    } else {
        c
    }) + seq!['╡', '\n']
}

pub open spec fn spec_middle_line(base: Seq<char>) -> Seq<char> {
    seq!['│'] + base.map_values(|c: char| if c == '┬' {
        '┼'
    } else {
        c
    }) + seq!['│', '\n']
}

pub open spec fn spec_bottom_line(base: Seq<char>) -> Seq<char> {
    seq!['╰'] + base.map_values(|c: char| if c == '┬' {
        '┴'
    } else {
        c
    }) + seq!['╯', '\n']
}

/// The header row up to its `k`-th cell: a `│` before each centered cell.
pub open spec fn spec_header_cells(cols: Seq<Seq<char>>, k: int) -> Seq<char>
    decreases k,
{
    if k <= 0 {
        Seq::empty()
    } else {
        spec_header_cells(cols, k - 1) + seq!['│'] + spec_center(
            cols[k - 1],
            MAX_COLUMN_CAPACITY as nat,
        )
    }
}

/// One data row up to its `k`-th cell: centered cells with `┆` between them.
pub open spec fn spec_row_cells(row: Seq<Seq<char>>, k: int) -> Seq<char>
    decreases k,
{
    if k <= 0 {
        Seq::empty()
    } else {
        spec_row_cells(row, k - 1) + spec_center(row[k - 1], MAX_COLUMN_CAPACITY as nat) + (if k
            < row.len() {
            seq!['┆']
        } else {
            Seq::empty()
        })
    }
}

/// The table body up to its `k`-th row: each row between `│` walls, with the
/// middle rule after every row but the last.
pub open spec fn spec_body(rows: Seq<Seq<Seq<char>>>, base: Seq<char>, k: int) -> Seq<char>
    decreases k,
{
    if k <= 0 {
        Seq::empty()
    } else {
        spec_body(rows, base, k - 1) + seq!['│'] + spec_row_cells(rows[k - 1], rows[k - 1].len() as int)
            + seq!['│', '\n'] + (if k < rows.len() {
            spec_middle_line(base)
        } else {
            Seq::empty()
        })
    }
}

/// The whole rendered table.
pub open spec fn spec_table(cols: Seq<Seq<char>>, rows: Seq<Seq<Seq<char>>>) -> Seq<char> {
    let base = spec_base_line(cols.len());
    spec_top_line(base) + spec_header_cells(cols, cols.len() as int) + seq!['│', '\n']
        + spec_header_sep(base) + spec_body(rows, base, rows.len() as int) + spec_bottom_line(base)
}

impl Csv {
    /// Renders the parsed CSV as a box-drawing table: a top rule, the header
    /// cells centered in the fixed column capacity, a double rule, then each
    /// data row with its cells centered and separated, rows divided by a
    /// middle rule, and a bottom rule.
    pub fn format_as_table(&self) -> (r: String)
        ensures
            r@ == spec_table(self.columns.deep_view(), self.data.deep_view()),
    {
        let cols = self.columns.len();
        let ghost cv = self.columns.deep_view();
        let ghost rv = self.data.deep_view();

        let segment_dashes = repeat_char('─', MAX_COLUMN_CAPACITY);
        let mut base = String::new();
        let mut j: usize = 0;
        while j < cols
            invariant
                segment_dashes@ == Seq::new(MAX_COLUMN_CAPACITY as nat, |i: int| '─'),
                0 <= j <= cols,
                base@ == seq_repeat(spec_rule_segment(), j as nat),
            decreases cols - j,
        {
            base.append(segment_dashes.as_str());
            push_char(&mut base, '┬');
            j = j + 1;
        }
        let base_len = base.as_str().unicode_len();
        let base = if base_len > 0 {
            base.as_str().substring_char(0, base_len - 1).to_owned()
        } else {
            base
        };
        proof {
            assert(base@ =~= spec_base_line(cols as nat));
        }

        let mut table = String::new();
        push_char(&mut table, '╭');
        table.append(base.as_str());
        push_char(&mut table, '╮');
        push_char(&mut table, '\n');
        proof {
            assert(table@ =~= spec_top_line(base@));
        }

        let mut j: usize = 0;
        while j < cols
            invariant
                cols == self.columns@.len(),
                cv == self.columns.deep_view(),
                0 <= j <= cols,
                base@ == spec_base_line(cols as nat),
                table@ == spec_top_line(base@) + spec_header_cells(cv, j as int),
            decreases cols - j,
        {
            push_char(&mut table, '│');
            let cell = center(self.columns[j].as_str(), MAX_COLUMN_CAPACITY);
            table.append(cell.as_str());
            proof {
                assert(cv[j as int] == self.columns@[j as int]@);
                assert(table@ =~= spec_top_line(base@) + spec_header_cells(cv, j + 1));
            }
            j = j + 1;
        }
        push_char(&mut table, '│');
        push_char(&mut table, '\n');

        let header_sep_inner = replace_char(
            replace_char(base.as_str(), '─', '═').as_str(),
            '┬',
            '╪',
        );
        push_char(&mut table, '╞');
        table.append(header_sep_inner.as_str());
        push_char(&mut table, '╡');
        push_char(&mut table, '\n');
        let ghost before_body = table@;
        proof {
            assert(header_sep_inner@ =~= base@.map_values(|c: char| if c == '─' {
                '═'
            } else if c == '┬' {
                '╪'
            } else {
                c
            }));
            assert(before_body =~= spec_top_line(base@) + spec_header_cells(cv, cols as int)
                + seq!['│', '\n'] + spec_header_sep(base@));
        }

        let middle_inner = replace_char(base.as_str(), '┬', '┼');
        let mut middle = String::new();
        push_char(&mut middle, '│');
        middle.append(middle_inner.as_str());
        push_char(&mut middle, '│');
        push_char(&mut middle, '\n');
        proof {
            assert(middle@ =~= spec_middle_line(base@));
        }

        let nrows = self.data.len();
        let mut i: usize = 0;
        while i < nrows
            invariant
                nrows == self.data@.len(),
                rv == self.data.deep_view(),
                0 <= i <= nrows,
                base@ == spec_base_line(self.columns@.len() as nat),
                middle@ == spec_middle_line(base@),
                table@ == before_body + spec_body(rv, base@, i as int),
            decreases nrows - i,
        {
            push_char(&mut table, '│');
            let row = &self.data[i];
            let ghost rowv = rv[i as int];
            let m = row.len();
            let ghost row_start = table@;
            let mut k: usize = 0;
            while k < m
                invariant
                    m == row@.len(),
                    rowv == row.deep_view(),
                    0 <= k <= m,
                    table@ == row_start + spec_row_cells(rowv, k as int),
                decreases m - k,
            {
                let cell = center(row[k].as_str(), MAX_COLUMN_CAPACITY);
                table.append(cell.as_str());
                if k + 1 < m {
                    push_char(&mut table, '┆');
                }
                proof {
                    assert(rowv[k as int] == row@[k as int]@);
                    assert(table@ =~= row_start + spec_row_cells(rowv, k + 1));
                }
                k = k + 1;
            }
            push_char(&mut table, '│');
            push_char(&mut table, '\n');
            if i + 1 < nrows {
                table.append(middle.as_str());
            }
            proof {
                assert(rv[i as int] == self.data@[i as int].deep_view());
                assert(table@ =~= before_body + spec_body(rv, base@, i + 1));
            }
            i = i + 1;
        }

        push_char(&mut table, '╰');
        let bottom_inner = replace_char(base.as_str(), '┬', '┴');
        table.append(bottom_inner.as_str());
        push_char(&mut table, '╯');
        push_char(&mut table, '\n');
        proof {
            assert(table@ =~= spec_table(cv, rv));
        }
        table
    }
}

} // verus!
