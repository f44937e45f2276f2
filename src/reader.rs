//! The tabular dataset, column access, and reading delimited text into it.
use vstd::prelude::*;
use vstd::string::*;
use crate::text::{count_char, count_occurrences, same_text, trim_of, trim_str};
use crate::number::{find_either, first_pos};

verus! {

/// Represents a parsed dataset with headers and rows of string values.
#[derive(Debug)]
pub struct DataFrame {
    pub headers: Vec<String>,
    pub rows: Vec<Vec<String>>,
}

/// Index of the first element of `s` equal to `x`; `s.len()` if none is.
pub open spec fn first_index<A>(s: Seq<A>, x: A) -> nat
    decreases s.len(),
{
    if s.len() == 0 {
        0
    } else if s[0] == x {
        0
    } else {
        1 + first_index(s.drop_first(), x)
    }
}

/// The cell of `row` at column `j`; a row too short to hold it reads as empty.
pub open spec fn cell_of(row: Seq<Seq<char>>, j: int) -> Seq<char> {
    if 0 <= j < row.len() {
        row[j]
    } else {
        Seq::empty()
    }
}

/// Column positions of the names in `names` that occur among `headers`, in
/// the order of `names`.
pub open spec fn selected_indices(headers: Seq<Seq<char>>, names: Seq<Seq<char>>) -> Seq<int>
    decreases names.len(),
{
    if names.len() == 0 {
        Seq::empty()
    } else {
        let prev = selected_indices(headers, names.drop_last());
        let i = first_index(headers, names.last());
        if i < headers.len() {
            prev.push(i as int)
        } else {
            prev
        }
    }
}

impl DataFrame {
    pub open spec fn header_view(&self) -> Seq<Seq<char>> {
        self.headers.deep_view()
    }

    pub open spec fn row_view(&self, r: int) -> Seq<Seq<char>> {
        self.rows[r].deep_view()
    }

    /// The cells of column `j`, one per row, in row order.
    pub open spec fn column_view(&self, j: int) -> Seq<Seq<char>> {
        Seq::new(self.rows.len() as nat, |r: int| cell_of(self.row_view(r), j))
    }

    /// Position of the column called `name`, if there is one.
    pub open spec fn index_of(&self, name: Seq<char>) -> Option<int> {
        let i = first_index(self.header_view(), name);
        if i < self.headers.len() {
            Some(i as int)
        } else {
            None
        }
    }

    /// Returns the number of rows.
    pub fn nrows(&self) -> (r: usize)
        ensures
            r == self.rows@.len(),
    {
        self.rows.len()
    }

    /// Returns the number of columns.
    pub fn ncols(&self) -> (r: usize)
        ensures
            r == self.headers@.len(),
    {
        self.headers.len()
    }

    /// Returns the index of a column by name.
    pub fn col_index(&self, name: &str) -> (r: Option<usize>)
        ensures
            r matches Some(i) ==> self.index_of(name@) == Some(i as int),
            r is None ==> self.index_of(name@) is None,
    {
        let n = self.headers.len();
        let ghost h = self.header_view();
        let mut i: usize = 0;
        while i < n
            invariant
                n == h.len(),
                h == self.header_view(),
                i <= n,
                forall|k: int| 0 <= k < i ==> h[k] != name@,
            decreases n - i,
        {
            if same_text(self.headers[i].as_str(), name) {
                proof {
                    lemma_first_index(h, name@, i as int);
                }
                return Some(i);
            }
            i += 1;
        }
        proof {
            lemma_first_index(h, name@, i as int);
        }
        None
    }

    /// Extracts a column as a vector of string references.
    pub fn column(&self, name: &str) -> (r: Option<Vec<&str>>)
        ensures
            r is Some <==> self.index_of(name@) is Some,
            r matches Some(v) ==> v@.map_values(|c: &str| c@) == self.column_view(
                self.index_of(name@)->0,
            ),
    {
        let idx = self.col_index(name)?;
        Some(self.column_cells(idx))
    }

    /// The cells of column `idx`, one per row.
    pub(crate) fn column_cells(&self, idx: usize) -> (r: Vec<&str>)
        ensures
            r@.map_values(|c: &str| c@) == self.column_view(idx as int),
    {
        let mut out: Vec<&str> = Vec::new();
        let mut r: usize = 0;
        while r < self.rows.len()
            invariant
                r <= self.rows@.len(),
                out@.len() == r,
                forall|k: int| 0 <= k < r ==> (#[trigger] out@[k])@ == cell_of(self.row_view(k), idx as int),
            decreases self.rows@.len() - r,
        {
            let row = &self.rows[r];
            if idx < row.len() {
                out.push(row[idx].as_str());
            } else {
                out.push("");
                proof { reveal_strlit(""); }
            }
            r += 1;
        }
        assert(out@.map_values(|c: &str| c@) =~= self.column_view(idx as int));
        out
    }

    /// Filter to only specific columns.
    ///
    /// Names that are not columns are skipped; the others keep their order.
    pub fn select_columns(&self, names: &[&str]) -> (r: DataFrame)
        ensures
            ({
                let idx = selected_indices(
                    self.header_view(),
                    names@.map_values(|s: &str| s@),
                );
                &&& r.header_view() == idx.map_values(|i: int| self.header_view()[i])
                &&& r.rows@.len() == self.rows@.len()
                &&& forall|k: int|
                    0 <= k < self.rows@.len() ==> #[trigger] r.row_view(k) == idx.map_values(
                        |i: int| cell_of(self.row_view(k), i),
                    )
            }),
    {
        let ghost nv = names@.map_values(|s: &str| s@);
        let mut indices: Vec<usize> = Vec::new();
        let mut k: usize = 0;
        while k < names.len()
            invariant
                k <= names@.len(),
                nv == names@.map_values(|s: &str| s@),
                indices@.map_values(|i: usize| i as int) == selected_indices(
                    self.header_view(),
                    nv.subrange(0, k as int),
                ),
                forall|m: int| 0 <= m < indices@.len() ==> indices@[m] < self.headers@.len(),
            decreases names@.len() - k,
        {
            assert(nv.subrange(0, k + 1).drop_last() =~= nv.subrange(0, k as int));
            match self.col_index(names[k]) {
                Some(i) => {
                    indices.push(i);
                    assert(indices@.map_values(|i: usize| i as int) =~= selected_indices(
                        self.header_view(),
                        nv.subrange(0, k as int),
                    ).push(i as int));
                },
                None => {},
            }
            k += 1;
        }
        assert(nv.subrange(0, names@.len() as int) =~= nv);
        let ghost idx = indices@.map_values(|i: usize| i as int);
        let mut headers: Vec<String> = Vec::new();
        let mut m: usize = 0;
        while m < indices.len()
            invariant
                m <= indices@.len(),
                idx == indices@.map_values(|i: usize| i as int),
                forall|q: int| 0 <= q < indices@.len() ==> indices@[q] < self.headers@.len(),
                headers@.len() == m,
                forall|q: int| 0 <= q < m ==> (#[trigger] headers@[q])@ == self.header_view()[idx[q]],
            decreases indices@.len() - m,
        {
            headers.push(self.headers[indices[m]].clone());
            m += 1;
        }
        assert(headers.deep_view() =~= idx.map_values(|i: int| self.header_view()[i]));
        let mut rows: Vec<Vec<String>> = Vec::new();
        let mut r: usize = 0;
        while r < self.rows.len()
            invariant
                r <= self.rows@.len(),
                idx == indices@.map_values(|i: usize| i as int),
                rows@.len() == r,
                forall|q: int|
                    0 <= q < r ==> (#[trigger] rows@[q]).deep_view() == idx.map_values(
                        |i: int| cell_of(self.row_view(q), i),
                    ),
            decreases self.rows@.len() - r,
        {
            let row = &self.rows[r];
            let mut out: Vec<String> = Vec::new();
            let mut m: usize = 0;
            while m < indices.len()
                invariant
                    m <= indices@.len(),
                    row == self.rows@[r as int],
                    idx == indices@.map_values(|i: usize| i as int),
                    out@.len() == m,
                    forall|q: int|
                        0 <= q < m ==> (#[trigger] out@[q])@ == cell_of(self.row_view(r as int), idx[q]),
                decreases indices@.len() - m,
            {
                let i = indices[m];
                if i < row.len() {
                    out.push(row[i].clone());
                } else {
                    out.push(String::new());
                }
                m += 1;
            }
            assert(out.deep_view() =~= idx.map_values(|i: int| cell_of(self.row_view(r as int), i)));
            rows.push(out);
            r += 1;
        }
        let res = DataFrame { headers, rows };
        assert forall|k: int| 0 <= k < self.rows@.len() implies #[trigger] res.row_view(k)
            == idx.map_values(|i: int| cell_of(self.row_view(k), i)) by {
            assert(res.rows@[k] == rows@[k]);
        }
        res
    }
}

pub proof fn lemma_first_index<A>(s: Seq<A>, x: A, i: int)
    requires
        0 <= i <= s.len(),
        forall|k: int| 0 <= k < i ==> s[k] != x,
        i < s.len() ==> s[i] == x,
    ensures
        first_index(s, x) == i,
    decreases i,
{
    if i > 0 {
        let t = s.drop_first();
        assert forall|k: int| 0 <= k < i - 1 implies t[k] != x by {
            assert(t[k] == s[k + 1]);
        }
        if i - 1 < t.len() {
            assert(t[i - 1] == s[i]);
        }
        lemma_first_index(t, x, i - 1);
    }
}

/// The delimiter for a first line: tab when it holds more tabs than commas,
/// comma otherwise.
pub open spec fn delimiter_for(line: Seq<char>) -> u8 {
    if count_char(line, '\t') > count_char(line, ',') {
        9u8
    } else {
        44u8
    }
}

/// Detects the delimiter (comma or tab) by inspecting the first line.
pub fn detect_delimiter(first_line: &str) -> (r: u8)
    ensures
        r == delimiter_for(first_line@),
{
    let tab_count = count_occurrences(first_line, '\t');
    let comma_count = count_occurrences(first_line, ',');
    if tab_count > comma_count {
        9u8
    } else {
        44u8
    }
}


/// Why delimited text could not be read into a dataset.
#[derive(Debug, Clone, Copy, PartialEq, Eq)]
pub enum ParseError {
    /// The first line is blank.
    Empty,
    /// The header record holds no field.
    NoColumns,
    /// The delimited-text reader rejected the input.
    Malformed,
}

#[verifier::external_type_specification]
#[verifier::external_body]
pub struct ExCsvError(csv::Error);

/// The records that a flexible delimited-text reader finds in `text` with
/// the given delimiter, header record included; `None` when it reports an
/// error.
pub uninterp spec fn csv_records(text: Seq<char>, delimiter: u8) -> Option<Seq<Seq<Seq<char>>>>;

/// Relies on csv's `Reader::records`, on a reader built with the given
/// delimiter, `flexible(true)` (records may differ in length) and
/// `has_headers(false)` (the first record is returned too): every field of
/// every record, or the first error met.
#[verifier::external_body]
fn read_records(content: &str, delimiter: u8) -> (r: Result<Vec<Vec<String>>, csv::Error>)
    ensures
        r is Ok <==> csv_records(content@, delimiter) is Some,
        r matches Ok(v) ==> v.deep_view() == csv_records(content@, delimiter)->0,
{
    let mut rdr = csv::ReaderBuilder::new()
        .delimiter(delimiter)
        .flexible(true)
        .has_headers(false)
        .from_reader(content.as_bytes());
    rdr.records().map(|rec| rec.map(|r| r.iter().map(|f| f.to_string()).collect())).collect()
}

/// The text before the first line break.
pub open spec fn first_line(s: Seq<char>) -> Seq<char> {
    s.subrange(0, first_pos(s, '\n', '\n') as int)
}

/// A record of fields, each trimmed, padded with empty cells or cut to `n`.
pub open spec fn fit_row(rec: Seq<Seq<char>>, n: nat) -> Seq<Seq<char>> {
    Seq::new(n, |j: int| if j < rec.len() { trim_of(rec[j]) } else { Seq::empty() })
}

/// Trims every field and returns `n` of them, padding with empty cells.
fn fit_fields(rec: &Vec<String>, n: usize) -> (r: Vec<String>)
    ensures
        r.deep_view() == fit_row(rec.deep_view(), n as nat),
{
    let mut out: Vec<String> = Vec::new();
    let mut j: usize = 0;
    while j < n
        invariant
            j <= n,
            out@.len() == j,
            forall|q: int| 0 <= q < j ==> (#[trigger] out@[q])@ == fit_row(rec.deep_view(), n as nat)[q],
        decreases n - j,
    {
        if j < rec.len() {
            out.push(String::from_str(trim_str(rec[j].as_str())));
        } else {
            out.push(String::new());
        }
        j += 1;
    }
    assert(out.deep_view() =~= fit_row(rec.deep_view(), n as nat));
    out
}

/// Parse delimited text into a DataFrame.
///
/// The delimiter is chosen from the first line (see `detect_delimiter`).
/// The first record gives the column names; every later record becomes a
/// row of exactly as many cells, padded with empty cells or cut. Every name
/// and cell is trimmed.
pub fn parse_csv(content: &str) -> (r: Result<DataFrame, ParseError>)
    ensures
        ({
            let line = first_line(content@);
            let recs = csv_records(content@, delimiter_for(line));
            if trim_of(line).len() == 0 {
                r == Err::<DataFrame, ParseError>(ParseError::Empty)
            } else if recs is None {
                r == Err::<DataFrame, ParseError>(ParseError::Malformed)
            } else if recs->0.len() == 0 || recs->0[0].len() == 0 {
                r == Err::<DataFrame, ParseError>(ParseError::NoColumns)
            } else {
                r matches Ok(df) && {
                    let h = recs->0[0];
                    &&& df.header_view() == h.map_values(|f: Seq<char>| trim_of(f))
                    &&& df.rows@.len() + 1 == recs->0.len()
                    &&& forall|k: int|
                        0 <= k < df.rows@.len() ==> #[trigger] df.row_view(k) == fit_row(
                            recs->0[k + 1],
                            h.len(),
                        )
                }
            }
        }),
{
    let n = content.unicode_len();
    let brk = find_either(content, 0, n, '\n', '\n');
    assert(content@.subrange(0, n as int) =~= content@);
    let line = content.substring_char(0, brk);
    if trim_str(line).unicode_len() == 0 {
        return Err(ParseError::Empty);
    }
    let delimiter = detect_delimiter(line);
    let recs = match read_records(content, delimiter) {
        Ok(v) => v,
        Err(_) => {
            return Err(ParseError::Malformed);
        },
    };
    if recs.len() == 0 || recs[0].len() == 0 {
        return Err(ParseError::NoColumns);
    }
    let ghost rv = recs.deep_view();
    let first = &recs[0];
    let width = first.len();
    let headers = fit_fields(first, width);
    assert(fit_row(rv[0], width as nat) =~= rv[0].map_values(|f: Seq<char>| trim_of(f)));
    let mut rows: Vec<Vec<String>> = Vec::new();
    let mut k: usize = 1;
    while k < recs.len()
        invariant
            1 <= k <= recs@.len(),
            rv == recs.deep_view(),
            width == rv[0].len(),
            rows@.len() + 1 == k,
            forall|q: int| 0 <= q < rows@.len() ==> (#[trigger] rows@[q]).deep_view() == fit_row(rv[q + 1], width as nat),
        decreases recs@.len() - k,
    {
        let row = fit_fields(&recs[k], width);
        rows.push(row);
        k += 1;
    }
    let df = DataFrame { headers, rows };
    assert forall|q: int| 0 <= q < df.rows@.len() implies #[trigger] df.row_view(q) == fit_row(rv[q + 1], width as nat) by {
        assert(df.rows@[q] == rows@[q]);
    }
    Ok(df)
}

} // verus!
