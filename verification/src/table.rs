//! A second table renderer with a measured layout: every column is as wide
//! as its longest cell, and long cells are word-wrapped over several lines
//! inside their column instead of being padded into a fixed capacity only.
use crate::csv::{
    parse_row, spec_base_line, spec_bottom_line, spec_header_cells, spec_header_sep,
    spec_middle_line, spec_parsed_row, spec_parsed_rows, spec_rule_segment, spec_top_line,
    seq_repeat, CsvError, Delimiter, MAX_COLUMN_CAPACITY,
};
use crate::strutil::{
    center, lemma_spec_split_len, push_char, repeat_char, replace_char, spec_center, spec_split,
    spec_words, split_char, split_whitespace_vec,
};
use vstd::prelude::*;
use vstd::string::{StrSliceExecFns, StringExecFns};

verus! {

/// The length of a row's `i`-th cell, zero where the row is shorter.
pub open spec fn cell_len_at(row: Seq<Seq<char>>, i: int) -> nat {
    if 0 <= i < row.len() {
        row[i].len()
    } else {
        0
    }
}

/// The widest `i`-th cell among the first `k` rows.
pub open spec fn spec_rows_width(rows: Seq<Seq<Seq<char>>>, i: int, k: int) -> nat
    decreases k,
{
    if k <= 0 {
        0
    } else {
        let prev = spec_rows_width(rows, i, k - 1);
        let here = cell_len_at(rows[k - 1], i);
        if here >= prev {
            here
        } else {
            prev
        }
    }
}

/// Column `i`'s width: its header or its widest cell, whichever is longer.
pub open spec fn spec_col_width(cols: Seq<Seq<char>>, rows: Seq<Seq<Seq<char>>>, i: int) -> nat {
    let body = spec_rows_width(rows, i, rows.len() as int);
    if cols[i].len() >= body {
        cols[i].len()
    } else {
        body
    }
}

/// One greedy wrapping step: a word that would overflow the line closes it
/// (even when the line is empty), then the word goes onto the line, after a
/// space when the line already has text.
pub open spec fn spec_wrap_step(
    lines: Seq<Seq<char>>,
    cur: Seq<char>,
    word: Seq<char>,
    w: nat,
) -> (Seq<Seq<char>>, Seq<char>) {
    let closed = cur.len() + word.len() + 1 > w;
    let lines1 = if closed {
        lines.push(cur)
    } else {
        lines
    };
    let cur1 = if closed {
        Seq::<char>::empty()
    } else {
        cur
    };
    let cur2 = if cur1.len() > 0 {
        cur1 + seq![' '] + word
    } else {
        cur1 + word
    };
    (lines1, cur2)
}

/// The wrapping state after the first `k` words.
pub open spec fn spec_wrap_fold(words: Seq<Seq<char>>, k: int, w: nat) -> (Seq<Seq<char>>, Seq<
    char,
>)
    decreases k,
{
    if k <= 0 {
        (Seq::empty(), Seq::empty())
    } else {
        let st = spec_wrap_fold(words, k - 1, w);
        spec_wrap_step(st.0, st.1, words[k - 1], w)
    }
}

/// The text's words wrapped greedily into lines of about `w` characters; a
/// nonempty last line is kept.
pub open spec fn spec_wrap(text: Seq<char>, w: nat) -> Seq<Seq<char>> {
    let words = spec_words(text);
    let st = spec_wrap_fold(words, words.len() as int, w);
    if st.1.len() > 0 {
        st.0.push(st.1)
    } else {
        st.0
    }
}

/// Line `j` of the wrapped `i`-th cell, empty where that cell has fewer lines.
pub open spec fn spec_wrapped_cell(
    row: Seq<Seq<char>>,
    widths: Seq<nat>,
    i: int,
    j: int,
) -> Seq<char> {
    let lines = spec_wrap(row[i], widths[i]);
    if 0 <= j < lines.len() {
        lines[j]
    } else {
        Seq::empty()
    }
}

/// How many wrapped lines the tallest of the row's first `k` cells has.
pub open spec fn spec_row_height(row: Seq<Seq<char>>, widths: Seq<nat>, k: int) -> nat
    decreases k,
{
    if k <= 0 {
        0
    } else {
        let prev = spec_row_height(row, widths, k - 1);
        let here = spec_wrap(row[k - 1], widths[k - 1]).len();
        if here >= prev {
            here
        } else {
            prev
        }
    }
}

/// The `j`-th emitted line of a row, up to its `k`-th cell: a `│` before
/// each cell, centered in its column's width.
pub open spec fn spec_wrapped_line(row: Seq<Seq<char>>, widths: Seq<nat>, j: int, k: int) -> Seq<
    char,
>
    decreases k,
{
    if k <= 0 {
        Seq::empty()
    } else {
        spec_wrapped_line(row, widths, j, k - 1) + seq!['│'] + spec_center(
            spec_wrapped_cell(row, widths, k - 1, j),
            widths[k - 1],
        )
    }
}

/// A row's first `jk` emitted lines, each closed by `│` and a newline.
pub open spec fn spec_row_lines(row: Seq<Seq<char>>, widths: Seq<nat>, jk: int) -> Seq<char>
    decreases jk,
{
    if jk <= 0 {
        Seq::empty()
    } else {
        spec_row_lines(row, widths, jk - 1) + spec_wrapped_line(row, widths, jk - 1, row.len() as int)
            + seq!['│', '\n']
    }
}

/// The table body up to its `k`-th row, rows divided by the middle rule.
pub open spec fn spec_wrapped_body(
    rows: Seq<Seq<Seq<char>>>,
    widths: Seq<nat>,
    base: Seq<char>,
    k: int,
) -> Seq<char>
    decreases k,
{
    if k <= 0 {
        Seq::empty()
    } else {
        let row = rows[k - 1];
        spec_wrapped_body(rows, widths, base, k - 1) + spec_row_lines(
            row,
            widths,
            spec_row_height(row, widths, row.len() as int) as int,
        ) + (if k < rows.len() {
            spec_middle_line(base)
        } else {
            Seq::empty()
        })
    }
}

/// The measured column widths of a table.
pub open spec fn spec_col_widths(cols: Seq<Seq<char>>, rows: Seq<Seq<Seq<char>>>) -> Seq<nat> {
    Seq::new(cols.len(), |i: int| spec_col_width(cols, rows, i))
}

/// The whole word-wrapping table.
pub open spec fn spec_wrapped_table(cols: Seq<Seq<char>>, rows: Seq<Seq<Seq<char>>>) -> Seq<char> {
    let base = spec_base_line(cols.len());
    let widths = spec_col_widths(cols, rows);
    spec_top_line(base) + spec_header_cells(cols, cols.len() as int) + seq!['│', '\n']
        + spec_header_sep(base) + spec_wrapped_body(rows, widths, base, rows.len() as int)
        + spec_bottom_line(base)
}

/// Every data row fits in the header's column count; the measuring and
/// rendering walks index columns by it.
pub open spec fn rows_fit_columns(cols: Seq<Seq<char>>, rows: Seq<Seq<Seq<char>>>) -> bool {
    forall|r: int| 0 <= r < rows.len() ==> (#[trigger] rows[r]).len() <= cols.len()
}

/// A parsed CSV rendered with measured, word-wrapped columns.
pub struct Csv {
    pub columns: Vec<String>,
    pub data: Vec<Vec<String>>,
}

impl Csv {
    /// An empty table: one empty header cell, one row of one empty cell.
    pub fn new() -> (r: Self)
        ensures
            r.columns.deep_view() =~= seq![Seq::<char>::empty()],
            r.data.deep_view() =~= seq![seq![Seq::<char>::empty()]],
    {
        let mut columns: Vec<String> = Vec::new();
        columns.push(String::new());
        let mut row: Vec<String> = Vec::new();
        row.push(String::new());
        let mut data: Vec<Vec<String>> = Vec::new();
        data.push(row);
        proof {
            assert(columns.deep_view() =~~= seq![Seq::<char>::empty()]);
            assert(data.deep_view() =~~= seq![seq![Seq::<char>::empty()]]);
        }
        Csv { columns, data }
    }

    /// Parses CSV text as the fixed-capacity parser does, with the column
    /// capacity as the cell width; cells are cut by characters, not bytes.
    pub fn parse_csv_data(&mut self, data: &str, delimiter: Delimiter) -> (r: Result<(), CsvError>)
        ensures
            ({
                let lines = spec_split(data@, '\n');
                let d = delimiter.spec_char();
                let after = *final(self);
                &&& after.columns.deep_view() == spec_parsed_row(
                    lines[0],
                    d,
                    MAX_COLUMN_CAPACITY as nat,
                )
                &&& lines.len() == 1 ==> r == Err::<(), CsvError>(CsvError::NoData) && after.data
                    == old(self).data
                &&& lines.len() > 1 ==> r == Ok::<(), CsvError>(()) && after.data.deep_view()
                    == spec_parsed_rows(lines, d, MAX_COLUMN_CAPACITY as nat)
            }),
    {
        proof {
            lemma_spec_split_len(data@, '\n');
        }
        let d = delimiter.as_char();
        let lines = split_char(data, '\n');
        let ghost lv = lines.deep_view();
        let n = lines.len();
        let headers = parse_row(lines[0].as_str(), d, MAX_COLUMN_CAPACITY);
        self.columns = headers;
        if n == 1 {
            return Err(CsvError::NoData);
        }
        let mut rows: Vec<Vec<String>> = Vec::new();
        let mut i: usize = 1;
        while i < n
            invariant
                n == lines@.len(),
                lv == lines.deep_view(),
                1 <= i <= n,
                rows.deep_view() =~= lv.subrange(1, i as int).map_values(
                    |l: Seq<char>| spec_parsed_row(l, d, MAX_COLUMN_CAPACITY as nat),
                ),
            decreases n - i,
        {
            let row = parse_row(lines[i].as_str(), d, MAX_COLUMN_CAPACITY);
            rows.push(row);
            proof {
                assert(lv.subrange(1, i + 1).drop_last() =~= lv.subrange(1, i as int));
                assert(lv.subrange(1, i + 1).map_values(
                    |l: Seq<char>| spec_parsed_row(l, d, MAX_COLUMN_CAPACITY as nat),
                ) =~= lv.subrange(1, i as int).map_values(
                    |l: Seq<char>| spec_parsed_row(l, d, MAX_COLUMN_CAPACITY as nat),
                ).push(spec_parsed_row(lv[i as int], d, MAX_COLUMN_CAPACITY as nat)));
            }
            i = i + 1;
        }
        proof {
            assert(lv.subrange(1, n as int) =~= lv.skip(1));
        }
        self.data = rows;
        Ok(())
    }

    /// Measures each column: the header's length or the longest cell below
    /// it, whichever is greater.
    fn get_max_column_widths(&self) -> (r: Vec<usize>)
        requires
            rows_fit_columns(self.columns.deep_view(), self.data.deep_view()),
        ensures
            r@.len() == self.columns@.len(),
            forall|i: int|
                0 <= i < r@.len() ==> r@[i] as nat == spec_col_width(
                    self.columns.deep_view(),
                    self.data.deep_view(),
                    i,
                ),
    {
        let ghost cv = self.columns.deep_view();
        let ghost rv = self.data.deep_view();
        let cols = self.columns.len();
        let nrows = self.data.len();
        let mut widths: Vec<usize> = Vec::new();
        let mut i: usize = 0;
        while i < cols
            invariant
                cols == self.columns@.len(),
                nrows == self.data@.len(),
                cv == self.columns.deep_view(),
                rv == self.data.deep_view(),
                rows_fit_columns(cv, rv),
                0 <= i <= cols,
                widths@.len() == i,
                forall|p: int| 0 <= p < i ==> widths@[p] as nat == spec_col_width(cv, rv, p),
            decreases cols - i,
        {
            let mut w = self.columns[i].as_str().unicode_len();
            let mut k: usize = 0;
            while k < nrows
                invariant
                    nrows == self.data@.len(),
                    cv == self.columns.deep_view(),
                    rv == self.data.deep_view(),
                    i < cols == self.columns@.len(),
                    0 <= k <= nrows,
                    ({
                        let body = spec_rows_width(rv, i as int, k as int);
                        w as nat == if cv[i as int].len() >= body {
                            cv[i as int].len()
                        } else {
                            body
                        }
                    }),
                decreases nrows - k,
            {
                let row = &self.data[k];
                proof {
                    assert(rv[k as int] == self.data@[k as int].deep_view());
                }
                if i < row.len() {
                    let len = row[i].as_str().unicode_len();
                    proof {
                        assert(rv[k as int][i as int] == row@[i as int]@);
                    }
                    if len > w {
                        w = len;
                    }
                }
                k = k + 1;
            }
            widths.push(w);
            i = i + 1;
        }
        widths
    }

    /// Word-wraps a cell's text into lines of about `max_width` characters;
    /// line lengths count characters, not bytes.
    pub fn wrap_text(&self, text: &str, max_width: usize) -> (r: Vec<String>)
        ensures
            r.deep_view() == spec_wrap(text@, max_width as nat),
    {
        let words = split_whitespace_vec(text);
        let ghost wv = words.deep_view();
        let m = words.len();
        let mut lines: Vec<String> = Vec::new();
        let mut line = String::new();
        let mut k: usize = 0;
        while k < m
            invariant
                m == words@.len(),
                wv == words.deep_view(),
                0 <= k <= m,
                (lines.deep_view(), line@) == spec_wrap_fold(wv, k as int, max_width as nat),
            decreases m - k,
        {
            let word = &words[k];
            let wlen = word.as_str().unicode_len();
            let llen = line.as_str().unicode_len();
            proof {
                assert(wv[k as int] == words@[k as int]@);
            }
            let ghost ldv = lines.deep_view();
            let ghost lv0 = line@;
            if (llen as u128) + (wlen as u128) + 1 > (max_width as u128) {
                let full = line;
                lines.push(full);
                line = String::new();
                proof {
                    assert(lines.deep_view() =~~= ldv.push(lv0));
                }
            }
            if !line.as_str().is_empty() {
                push_char(&mut line, ' ');
            }
            line.append(word.as_str());
            proof {
                let st = spec_wrap_step(ldv, lv0, wv[k as int], max_width as nat);
                assert(line@ =~= st.1);
                assert((lines.deep_view(), line@) == st);
            }
            k = k + 1;
        }
        proof {
            assert(wv.take(m as int) =~= wv);
        }
        if !line.as_str().is_empty() {
            let ghost ldv = lines.deep_view();
            let last = line;
            lines.push(last);
            proof {
                assert(lines.deep_view() =~~= ldv.push(spec_wrap_fold(wv, m as int, max_width as nat).1));
            }
        }
        lines
    }

    /// Renders the parsed CSV with measured columns: the frame and header as
    /// in the fixed-capacity table, but each data cell word-wrapped over as
    /// many lines as its row needs, centered in its column's width.
    pub fn format_as_table(&self) -> (r: String)
        requires
            rows_fit_columns(self.columns.deep_view(), self.data.deep_view()),
        ensures
            r@ == spec_wrapped_table(self.columns.deep_view(), self.data.deep_view()),
    {
        let cols = self.columns.len();
        let ghost cv = self.columns.deep_view();
        let ghost rv = self.data.deep_view();
        let ghost widthsv = spec_col_widths(cv, rv);
        let max_widths = self.get_max_column_widths();
        proof {
            assert(forall|i: int| 0 <= i < cols ==> max_widths@[i] as nat == widthsv[i]);
        }

        let segment_dashes = repeat_char('─', MAX_COLUMN_CAPACITY);
        let mut base = String::new();
        let mut j: usize = 0;
        while j < cols
            invariant
                segment_dashes@ == Seq::new(MAX_COLUMN_CAPACITY as nat, |i: int| '─'),
                0 <= j <= cols,
                base@ == seq_repeat(spec_rule_segment(), j as nat),
            decreases cols - j,
        {
            base.append(segment_dashes.as_str());
            push_char(&mut base, '┬');
            j = j + 1;
        }
        let base_len = base.as_str().unicode_len();
        let base = if base_len > 0 {
            base.as_str().substring_char(0, base_len - 1).to_owned()
        } else {
            base
        };
        proof {
            assert(base@ =~= spec_base_line(cols as nat));
        }

        let mut table = String::new();
        push_char(&mut table, '╭');
        table.append(base.as_str());
        push_char(&mut table, '╮');
        push_char(&mut table, '\n');
        proof {
            assert(table@ =~= spec_top_line(base@));
        }

        let mut j: usize = 0;
        while j < cols
            invariant
                cols == self.columns@.len(),
                cv == self.columns.deep_view(),
                0 <= j <= cols,
                base@ == spec_base_line(cols as nat),
                table@ == spec_top_line(base@) + spec_header_cells(cv, j as int),
            decreases cols - j,
        {
            push_char(&mut table, '│');
            let cell = center(self.columns[j].as_str(), MAX_COLUMN_CAPACITY);
            table.append(cell.as_str());
            proof {
                assert(cv[j as int] == self.columns@[j as int]@);
                assert(table@ =~= spec_top_line(base@) + spec_header_cells(cv, j + 1));
            }
            j = j + 1;
        }
        push_char(&mut table, '│');
        push_char(&mut table, '\n');

        let header_sep_inner = replace_char(
            replace_char(base.as_str(), '─', '═').as_str(),
            '┬',
            '╪',
        );
        push_char(&mut table, '╞');
        table.append(header_sep_inner.as_str());
        push_char(&mut table, '╡');
        push_char(&mut table, '\n');
        let ghost before_body = table@;
        proof {
            assert(header_sep_inner@ =~= base@.map_values(|c: char| if c == '─' {
                '═'
            } else if c == '┬' {
                '╪'
            } else {
                c
            }));
            assert(before_body =~= spec_top_line(base@) + spec_header_cells(cv, cols as int)
                + seq!['│', '\n'] + spec_header_sep(base@));
        }

        let middle_inner = replace_char(base.as_str(), '┬', '┼');
        let mut middle = String::new();
        push_char(&mut middle, '│');
        middle.append(middle_inner.as_str());
        push_char(&mut middle, '│');
        push_char(&mut middle, '\n');
        proof {
            assert(middle@ =~= spec_middle_line(base@));
        }

        let nrows = self.data.len();
        let mut r: usize = 0;
        while r < nrows
            invariant
                nrows == self.data@.len(),
                cols == self.columns@.len(),
                cv == self.columns.deep_view(),
                rv == self.data.deep_view(),
                rows_fit_columns(cv, rv),
                widthsv == spec_col_widths(cv, rv),
                max_widths@.len() == cols,
                forall|i: int| 0 <= i < cols ==> max_widths@[i] as nat == widthsv[i],
                0 <= r <= nrows,
                base@ == spec_base_line(cols as nat),
                middle@ == spec_middle_line(base@),
                table@ == before_body + spec_wrapped_body(rv, widthsv, base@, r as int),
            decreases nrows - r,
        {
            let row = &self.data[r];
            let ghost rowv = rv[r as int];
            proof {
                assert(rowv == self.data@[r as int].deep_view());
            }
            let m = row.len();

            let mut wrapped: Vec<Vec<String>> = Vec::new();
            let mut height: usize = 0;
            let mut i: usize = 0;
            while i < m
                invariant
                    m == row@.len(),
                    rowv == row.deep_view(),
                    m <= cols,
                    max_widths@.len() == cols,
                    forall|p: int| 0 <= p < cols ==> max_widths@[p] as nat == widthsv[p],
                    0 <= i <= m,
                    wrapped@.len() == i,
                    forall|p: int|
                        0 <= p < i ==> (#[trigger] wrapped@[p]).deep_view() == spec_wrap(
                            rowv[p],
                            widthsv[p],
                        ),
                    height as nat == spec_row_height(rowv, widthsv, i as int),
                decreases m - i,
            {
                let cell_lines = self.wrap_text(row[i].as_str(), max_widths[i]);
                proof {
                    assert(rowv[i as int] == row@[i as int]@);
                }
                if cell_lines.len() > height {
                    height = cell_lines.len();
                }
                wrapped.push(cell_lines);
                i = i + 1;
            }

            let ghost row_start = table@;
            let mut jj: usize = 0;
            while jj < height
                invariant
                    m == row@.len(),
                    rowv == row.deep_view(),
                    m <= cols,
                    max_widths@.len() == cols,
                    forall|p: int| 0 <= p < cols ==> max_widths@[p] as nat == widthsv[p],
                    wrapped@.len() == m,
                    forall|p: int|
                        0 <= p < m ==> (#[trigger] wrapped@[p]).deep_view() == spec_wrap(
                            rowv[p],
                            widthsv[p],
                        ),
                    0 <= jj <= height,
                    table@ == row_start + spec_row_lines(rowv, widthsv, jj as int),
                decreases height - jj,
            {
                let ghost line_start = table@;
                let mut i: usize = 0;
                while i < m
                    invariant
                        m == row@.len(),
                        rowv == row.deep_view(),
                        m <= cols,
                        max_widths@.len() == cols,
                        forall|p: int| 0 <= p < cols ==> max_widths@[p] as nat == widthsv[p],
                        wrapped@.len() == m,
                        forall|p: int|
                            0 <= p < m ==> (#[trigger] wrapped@[p]).deep_view() == spec_wrap(
                                rowv[p],
                                widthsv[p],
                            ),
                        0 <= i <= m,
                        table@ == line_start + spec_wrapped_line(rowv, widthsv, jj as int, i as int),
                    decreases m - i,
                {
                    push_char(&mut table, '│');
                    let cell_lines = &wrapped[i];
                    let piece = if jj < cell_lines.len() {
                        center(cell_lines[jj].as_str(), max_widths[i])
                    } else {
                        center("", max_widths[i])
                    };
                    table.append(piece.as_str());
                    proof {
                        if jj < cell_lines@.len() {
                            assert(wrapped@[i as int].deep_view()[jj as int] == cell_lines@[jj as int]@);
                        } else {
                            reveal_strlit("");
                        }
                        assert(piece@ =~= spec_center(
                            spec_wrapped_cell(rowv, widthsv, i as int, jj as int),
                            widthsv[i as int],
                        ));
                        assert(table@ =~= line_start + spec_wrapped_line(
                            rowv,
                            widthsv,
                            jj as int,
                            i + 1,
                        ));
                    }
                    i = i + 1;
                }
                push_char(&mut table, '│');
                push_char(&mut table, '\n');
                proof {
                    assert(table@ =~= row_start + spec_row_lines(rowv, widthsv, jj + 1));
                }
                jj = jj + 1;
            }

            if r + 1 < nrows {
                table.append(middle.as_str());
            }
            proof {
                assert(height as nat == spec_row_height(rowv, widthsv, rowv.len() as int));
                assert(table@ =~= before_body + spec_wrapped_body(rv, widthsv, base@, r + 1));
            }
            r = r + 1;
        }

        push_char(&mut table, '╰');
        let bottom_inner = replace_char(base.as_str(), '┬', '┴');
        table.append(bottom_inner.as_str());
        push_char(&mut table, '╯');
        push_char(&mut table, '\n');
        proof {
            assert(table@ =~= spec_wrapped_table(cv, rv));
        }
        table
    }
}

} // verus!
