//! Column type inference: Boolean, Numeric or Categorical.
use vstd::prelude::*;
use vstd::string::*;
use crate::freq::{
    frequency_table, is_frequency_table, keys_of, lemma_table_keys, sorted_distinct, table_view,
};
use crate::number::{is_number, number_syntax};
use crate::reader::DataFrame;
use crate::text::{lower_of, lowercase, same_text};
use crate::utils::{cell_missing, is_missing};

verus! {

/// Inferred type for a column.
#[derive(Debug, Clone, Copy, PartialEq, Eq, Structural)]
pub enum ColumnType {
    Numeric,
    Boolean,
    Categorical,
}

impl ColumnType {
    pub open spec fn label(&self) -> Seq<char> {
        match self {
            ColumnType::Numeric => "Numeric"@,
            ColumnType::Boolean => "Boolean"@,
            ColumnType::Categorical => "Categorical"@,
        }
    }

    /// The name of the type.
    pub fn to_string(&self) -> (r: String)
        ensures
            r@ == self.label(),
    {
        match self {
            ColumnType::Numeric => String::from_str("Numeric"),
            ColumnType::Boolean => String::from_str("Boolean"),
            ColumnType::Categorical => String::from_str("Categorical"),
        }
    }
}

/// Information about a column's type.
#[derive(Debug)]
pub struct ColumnTypeInfo {
    pub name: String,
    pub col_type: ColumnType,
    pub unique_count: usize,
    pub levels: Vec<String>,
}

/// The values that are not missing, in order.
pub open spec fn non_missing(vals: Seq<Seq<char>>) -> Seq<Seq<char>> {
    vals.filter(|v: Seq<char>| !cell_missing(v))
}

/// The lower-case spellings of a truth value.
pub open spec fn boolean_word(s: Seq<char>) -> bool {
    ||| s == "true"@
    ||| s == "false"@
    ||| s == "yes"@
    ||| s == "no"@
    ||| s == "1"@
    ||| s == "0"@
}

/// Some value is present, and every present value spells a truth value in
/// any case.
pub open spec fn looks_boolean(vals: Seq<Seq<char>>) -> bool {
    let nm = non_missing(vals);
    nm.len() > 0 && forall|i: int| 0 <= i < nm.len() ==> boolean_word(lower_of(#[trigger] nm[i]))
}

/// How many of `vals` have number syntax.
pub open spec fn number_count(vals: Seq<Seq<char>>) -> nat {
    vals.filter(|v: Seq<char>| number_syntax(v)).len()
}

/// Some value is present, and at least four fifths of the present values
/// have number syntax.
pub open spec fn looks_numeric(vals: Seq<Seq<char>>) -> bool {
    let nm = non_missing(vals);
    nm.len() > 0 && 5 * number_count(nm) >= 4 * nm.len()
}

/// The type of a column: Boolean before Numeric, Categorical otherwise.
pub open spec fn type_of(vals: Seq<Seq<char>>) -> ColumnType {
    if looks_boolean(vals) {
        ColumnType::Boolean
    } else if looks_numeric(vals) {
        ColumnType::Numeric
    } else {
        ColumnType::Categorical
    }
}

/// Decimal digits of `n`, most significant first.
pub open spec fn decimal(n: nat) -> Seq<char>
    decreases n,
{
    if n < 10 {
        seq!["0123456789"@[n as int]]
    } else {
        decimal(n / 10).push("0123456789"@[(n % 10) as int])
    }
}

/// Most distinct values a column may have for its levels to be listed.
pub const MAX_LEVELS: usize = 20;

/// The levels reported for a column of type `ty` with `unique` distinct
/// present values among `vals`.
pub open spec fn levels_ok(vals: Seq<Seq<char>>, ty: ColumnType, unique: nat, levels: Seq<Seq<char>>) -> bool {
    if ty == ColumnType::Numeric {
        levels == seq!["-"@]
    } else if unique <= MAX_LEVELS {
        sorted_distinct(non_missing(vals), levels)
    } else {
        levels == seq!["("@ + decimal(unique) + " unique)"@]
    }
}

/// `info` describes the column called `name` whose cells are `vals`.
pub open spec fn describes(info: ColumnTypeInfo, name: Seq<char>, vals: Seq<Seq<char>>) -> bool {
    &&& info.name@ == name
    &&& info.col_type == type_of(vals)
    &&& info.unique_count == non_missing(vals).to_set().len()
    &&& levels_ok(vals, info.col_type, info.unique_count as nat, info.levels.deep_view())
}

/// A column whose present values all spell a truth value, in any case, is
/// Boolean, provided some value is present.
pub proof fn lemma_truth_words_are_boolean(vals: Seq<Seq<char>>)
    requires
        non_missing(vals).len() > 0,
        forall|i: int|
            0 <= i < non_missing(vals).len() ==> boolean_word(lower_of(#[trigger] non_missing(vals)[i])),
    ensures
        type_of(vals) == ColumnType::Boolean,
{
}

/// A column that is not Boolean, with some value present and at least four
/// fifths of the present values in number syntax, is Numeric.
pub proof fn lemma_mostly_numbers_are_numeric(vals: Seq<Seq<char>>)
    requires
        exists|i: int|
            0 <= i < non_missing(vals).len() && !boolean_word(lower_of(#[trigger] non_missing(vals)[i])),
        5 * number_count(non_missing(vals)) >= 4 * non_missing(vals).len(),
    ensures
        type_of(vals) == ColumnType::Numeric,
{
}

/// A column in which every cell is missing is Categorical: both other types
/// need a present value.
pub proof fn lemma_all_missing_is_categorical(vals: Seq<Seq<char>>)
    requires
        forall|i: int| 0 <= i < vals.len() ==> cell_missing(#[trigger] vals[i]),
    ensures
        non_missing(vals).len() == 0,
        type_of(vals) == ColumnType::Categorical,
{
    vals.lemma_all_neg_filter_empty(|v: Seq<char>| !cell_missing(v));
}

/// Relies on `ToString` for `usize` (its `Display`), which writes the
/// decimal digits, most significant first, without sign or padding.
#[verifier::external_body]
fn decimal_digits(n: usize) -> (r: String)
    ensures
        r@ == decimal(n as nat),
{
    n.to_string()
}

/// The level shown for a column with too many distinct values to list.
fn unique_placeholder(n: usize) -> (r: String)
    ensures
        r@ == "("@ + decimal(n as nat) + " unique)"@,
{
    let digits = decimal_digits(n);
    let mut out = String::from_str("(");
    out.append(digits.as_str());
    out.append(" unique)");
    out
}

/// The present values of `values`, in order.
fn non_missing_values(values: &[&str]) -> (r: Vec<String>)
    ensures
        r.deep_view() == non_missing(values@.map_values(|s: &str| s@)),
{
    let ghost vv = values@.map_values(|s: &str| s@);
    let mut out: Vec<String> = Vec::new();
    let mut i: usize = 0;
    while i < values.len()
        invariant
            vv == values@.map_values(|s: &str| s@),
            i <= values@.len(),
            out.deep_view() == non_missing(vv.subrange(0, i as int)),
        decreases values@.len() - i,
    {
        proof {
            reveal(Seq::filter);
            assert(vv.subrange(0, i + 1).drop_last() =~= vv.subrange(0, i as int));
        }
        let v = values[i];
        if !is_missing(v) {
            let ghost before = out.deep_view();
            out.push(String::from_str(v));
            assert(out.deep_view() =~= before.push(vv[i as int]));
        }
        i += 1;
    }
    assert(vv.subrange(0, values@.len() as int) =~= vv);
    out
}

/// Returns true if all non-missing values look boolean.
pub fn is_boolean(values: &[&str]) -> (r: bool)
    ensures
        r == looks_boolean(values@.map_values(|s: &str| s@)),
{
    let ghost vv = values@.map_values(|s: &str| s@);
    let mut seen: usize = 0;
    let mut i: usize = 0;
    while i < values.len()
        invariant
            vv == values@.map_values(|s: &str| s@),
            i <= values@.len(),
            seen == non_missing(vv.subrange(0, i as int)).len(),
            forall|k: int|
                0 <= k < seen ==> boolean_word(lower_of(#[trigger] non_missing(vv.subrange(0, i as int))[k])),
        decreases values@.len() - i,
    {
        let ghost pre = non_missing(vv.subrange(0, i as int));
        proof {
            reveal(Seq::filter);
            assert(vv.subrange(0, i + 1).drop_last() =~= vv.subrange(0, i as int));
        }
        let v = values[i];
        if !is_missing(v) {
            let lower = lowercase(v);
            let l = lower.as_str();
            if !(same_text(l, "true") || same_text(l, "false") || same_text(l, "yes")
                || same_text(l, "no") || same_text(l, "1") || same_text(l, "0")) {
                proof {
                    broadcast use vstd::seq_lib::group_filter_ensures;
                    let nm = non_missing(vv);
                    assert(vv[i as int] == v@);
                    assert(nm.contains(vv[i as int]));
                }
                return false;
            }
            assert(non_missing(vv.subrange(0, i + 1)) == pre.push(v@));
            seen += 1;
        }
        i += 1;
    }
    assert(vv.subrange(0, values@.len() as int) =~= vv);
    seen > 0
}

/// Returns true if most non-missing values can be parsed as numbers.
///
/// A column is numeric when at least four fifths of its present values have
/// number syntax, so that a few stray tokens do not disqualify it.
pub fn is_numeric(values: &[&str]) -> (r: bool)
    ensures
        r == looks_numeric(values@.map_values(|s: &str| s@)),
{
    let ghost vv = values@.map_values(|s: &str| s@);
    let mut seen: usize = 0;
    let mut parseable: usize = 0;
    let mut i: usize = 0;
    while i < values.len()
        invariant
            vv == values@.map_values(|s: &str| s@),
            i <= values@.len(),
            seen == non_missing(vv.subrange(0, i as int)).len(),
            parseable == number_count(non_missing(vv.subrange(0, i as int))),
            parseable <= seen <= i,
        decreases values@.len() - i,
    {
        let ghost pre = non_missing(vv.subrange(0, i as int));
        proof {
            reveal(Seq::filter);
            assert(vv.subrange(0, i + 1).drop_last() =~= vv.subrange(0, i as int));
        }
        let v = values[i];
        if !is_missing(v) {
            assert(non_missing(vv.subrange(0, i + 1)) == pre.push(v@));
            assert(pre.push(v@).drop_last() =~= pre);
            if is_number(v) {
                parseable += 1;
            }
            seen += 1;
        }
        i += 1;
    }
    assert(vv.subrange(0, values@.len() as int) =~= vv);
    seen > 0 && (parseable as u128) * 5 >= (seen as u128) * 4
}

/// The values of a frequency table, in its order.
fn table_keys(t: &Vec<(String, usize)>) -> (r: Vec<String>)
    ensures
        r.deep_view() == keys_of(table_view(t@)),
{
    let mut out: Vec<String> = Vec::new();
    let mut p: usize = 0;
    while p < t.len()
        invariant
            p <= t@.len(),
            out@.len() == p,
            forall|q: int| 0 <= q < p ==> (#[trigger] out@[q])@ == t@[q].0@,
        decreases t@.len() - p,
    {
        out.push(t[p].0.clone());
        p += 1;
    }
    assert(out.deep_view() =~= keys_of(table_view(t@)));
    out
}

/// Infers the type of the column whose cells are `values`.
fn column_info(name: &String, values: &Vec<&str>) -> (r: ColumnTypeInfo)
    ensures
        describes(r, name@, values@.map_values(|s: &str| s@)),
{
    let ghost vv = values@.map_values(|s: &str| s@);
    let nm = non_missing_values(values.as_slice());
    let table = frequency_table(&nm);
    proof {
        lemma_table_keys(nm.deep_view(), table_view(table@));
    }
    let unique_count = table.len();
    let col_type = if is_boolean(values.as_slice()) {
        ColumnType::Boolean
    } else if is_numeric(values.as_slice()) {
        ColumnType::Numeric
    } else {
        ColumnType::Categorical
    };
    let levels = match col_type {
        ColumnType::Numeric => vec![String::from_str("-")],
        _ => {
            if unique_count <= MAX_LEVELS {
                table_keys(&table)
            } else {
                vec![unique_placeholder(unique_count)]
            }
        },
    };
    assert(levels_ok(vv, col_type, unique_count as nat, levels.deep_view())) by {
        if col_type == ColumnType::Numeric {
            assert(levels.deep_view() =~= seq!["-"@]);
        } else if unique_count > MAX_LEVELS {
            assert(levels.deep_view() =~= seq!["("@ + decimal(unique_count as nat) + " unique)"@]);
        }
    }
    ColumnTypeInfo { name: name.clone(), col_type, unique_count, levels }
}

/// Infer the type of each column in the DataFrame.
pub fn infer_types(df: &DataFrame) -> (r: Vec<ColumnTypeInfo>)
    ensures
        r@.len() == df.headers@.len(),
        forall|j: int|
            0 <= j < r@.len() ==> describes(#[trigger] r@[j], df.header_view()[j], df.column_view(j)),
{
    let mut results: Vec<ColumnTypeInfo> = Vec::new();
    let mut j: usize = 0;
    while j < df.headers.len()
        invariant
            j <= df.headers@.len(),
            results@.len() == j,
            forall|q: int|
                0 <= q < j ==> describes(#[trigger] results@[q], df.header_view()[q], df.column_view(q)),
        decreases df.headers@.len() - j,
    {
        let cells = df.column_cells(j);
        let info = column_info(&df.headers[j], &cells);
        results.push(info);
        j += 1;
    }
    results
}

/// Returns the names of columns that are numeric.
pub fn numeric_columns(df: &DataFrame) -> (r: Vec<String>)
    ensures
        r.deep_view() == Seq::new(df.headers@.len() as nat, |j: int| j).filter(
            |j: int| type_of(df.column_view(j)) == ColumnType::Numeric,
        ).map_values(|j: int| df.header_view()[j]),
{
    let infos = infer_types(df);
    let ghost all = Seq::new(df.headers@.len() as nat, |j: int| j);
    let ghost keep = |j: int| type_of(df.column_view(j)) == ColumnType::Numeric;
    let mut out: Vec<String> = Vec::new();
    let mut j: usize = 0;
    while j < infos.len()
        invariant
            infos@.len() == df.headers@.len(),
            j <= infos@.len(),
            all == Seq::new(df.headers@.len() as nat, |j: int| j),
            keep == (|j: int| type_of(df.column_view(j)) == ColumnType::Numeric),
            forall|q: int|
                0 <= q < infos@.len() ==> describes(#[trigger] infos@[q], df.header_view()[q], df.column_view(q)),
            out.deep_view() == all.subrange(0, j as int).filter(keep).map_values(
                |j: int| df.header_view()[j],
            ),
        decreases infos@.len() - j,
    {
        proof {
            reveal(Seq::filter);
            assert(all.subrange(0, j + 1).drop_last() =~= all.subrange(0, j as int));
        }
        let ghost before = out.deep_view();
        if infos[j].col_type == ColumnType::Numeric {
            out.push(infos[j].name.clone());
            assert(out.deep_view() =~= before.push(df.header_view()[j as int]));
        }
        j += 1;
    }
    assert(all.subrange(0, infos@.len() as int) =~= all);
    out
}

} // verus!
