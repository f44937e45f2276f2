//! Frequency summary of a categorical column.
use vstd::prelude::*;
use crate::freq::{is_occurrence_tally, lemma_tally_len, occurrence_table, table_view};
use crate::rank::{is_stable_desc_order, order_desc};
use crate::reader::DataFrame;
use crate::text::{trim_of, trim_str};
use crate::types::non_missing;
use crate::utils::{cell_missing, is_missing};

verus! {

/// Most frequent values a categorical summary reports.
pub const TOP_VALUES: usize = 10;

/// Categorical summary: value counts for a column.
#[derive(Debug)]
pub struct CategoricalSummary {
    pub name: String,
    pub total: usize,
    pub missing: usize,
    pub unique: usize,
    pub top_values: Vec<(String, usize)>,
}

/// Number of missing cells among `vals`.
pub open spec fn missing_count(vals: Seq<Seq<char>>) -> nat {
    vals.filter(|v: Seq<char>| cell_missing(v)).len()
}

/// The present values of `vals`, trimmed, in order.
pub open spec fn present_trimmed(vals: Seq<Seq<char>>) -> Seq<Seq<char>> {
    non_missing(vals).map_values(|v: Seq<char>| trim_of(v))
}

/// The counts of a frequency table, as ranking keys.
pub open spec fn count_keys(t: Seq<(String, usize)>) -> Seq<u64> {
    t.map_values(|e: (String, usize)| e.1 as u64)
}

/// `top` is the head, at most `TOP_VALUES` long, of the frequency table `t`
/// of `vals` ordered by `o`: descending count, ties in order of first
/// occurrence.
pub open spec fn top_of(vals: Seq<Seq<char>>, t: Seq<(String, usize)>, o: Seq<usize>, top: Seq<(String, usize)>) -> bool {
    &&& is_occurrence_tally(vals, table_view(t))
    &&& is_stable_desc_order(count_keys(t), o)
    &&& top.len() == if t.len() < TOP_VALUES { t.len() } else { TOP_VALUES as nat }
    &&& forall|i: int| 0 <= i < top.len() ==> #[trigger] top[i] == t[o[i] as int]
}

/// Compute categorical summary for a column.
///
/// Values are trimmed before counting. The reported values are the most
/// frequent ones, by descending count; values with equal counts come in
/// the order in which they first occur.
pub fn categorical_summary(df: &DataFrame, col_name: &str) -> (r: Option<CategoricalSummary>)
    ensures
        r is Some <==> df.index_of(col_name@) is Some,
        r matches Some(s) ==> {
            let col = df.column_view(df.index_of(col_name@)->0);
            let pv = present_trimmed(col);
            &&& s.name@ == col_name@
            &&& s.total == df.rows@.len()
            &&& s.missing == missing_count(col)
            &&& s.unique == pv.to_set().len()
            &&& exists|t: Seq<(String, usize)>, o: Seq<usize>| top_of(pv, t, o, s.top_values@)
        },
{
    let idx = df.col_index(col_name)?;
    let values = df.column_cells(idx);
    let ghost col = df.column_view(idx as int);
    let ghost miss = |v: Seq<char>| cell_missing(v);
    let ghost keep = |v: Seq<char>| !cell_missing(v);
    let total = values.len();
    let mut missing: usize = 0;
    let mut present: Vec<String> = Vec::new();
    let mut i: usize = 0;
    while i < values.len()
        invariant
            values@.map_values(|c: &str| c@) == col,
            i <= values@.len(),
            miss == (|v: Seq<char>| cell_missing(v)),
            keep == (|v: Seq<char>| !cell_missing(v)),
            missing == col.subrange(0, i as int).filter(miss).len(),
            missing <= i,
            present.deep_view() == col.subrange(0, i as int).filter(keep).map_values(
                |v: Seq<char>| trim_of(v),
            ),
        decreases values@.len() - i,
    {
        proof {
            reveal(Seq::filter);
            assert(col.subrange(0, i + 1).drop_last() =~= col.subrange(0, i as int));
        }
        let v = values[i];
        assert(col[i as int] == v@);
        let ghost before = present.deep_view();
        if is_missing(v) {
            missing += 1;
        } else {
            present.push(String::from_str(trim_str(v)));
            assert(present.deep_view() =~= before.push(trim_of(v@)));
            assert(col.subrange(0, i + 1).filter(keep) == col.subrange(0, i as int).filter(keep).push(v@));
            assert(col.subrange(0, i + 1).filter(keep).map_values(|v: Seq<char>| trim_of(v))
                =~= col.subrange(0, i as int).filter(keep).map_values(|v: Seq<char>| trim_of(v)).push(trim_of(v@)));
        }
        i += 1;
    }
    assert(col.subrange(0, values@.len() as int) =~= col);
    assert(present.deep_view() == present_trimmed(col));
    let table = occurrence_table(&present);
    proof {
        lemma_tally_len(present.deep_view(), table_view(table@));
    }
    let unique = table.len();
    let mut keys: Vec<u64> = Vec::new();
    let mut p: usize = 0;
    while p < table.len()
        invariant
            p <= table@.len(),
            keys@.len() == p,
            forall|q: int| 0 <= q < p ==> keys@[q] == count_keys(table@)[q],
        decreases table@.len() - p,
    {
        keys.push(table[p].1 as u64);
        p += 1;
    }
    assert(keys@ =~= count_keys(table@));
    let order = order_desc(&keys);
    let limit = if table.len() < TOP_VALUES { table.len() } else { TOP_VALUES };
    let mut top_values: Vec<(String, usize)> = Vec::new();
    let mut k: usize = 0;
    while k < limit
        invariant
            limit <= table@.len(),
            order@.len() == table@.len(),
            forall|q: int| 0 <= q < order@.len() ==> #[trigger] order@[q] < table@.len(),
            k <= limit,
            top_values@.len() == k,
            forall|q: int| 0 <= q < k ==> #[trigger] top_values@[q] == table@[order@[q] as int],
        decreases limit - k,
    {
        let e = &table[order[k]];
        top_values.push((e.0.clone(), e.1));
        k += 1;
    }
    let s = CategoricalSummary {
        name: String::from_str(col_name),
        total,
        missing,
        unique,
        top_values,
    };
    assert(top_of(present_trimmed(col), table@, order@, s.top_values@));
    assert(s.missing == missing_count(col));
    assert(s.unique == present_trimmed(col).to_set().len());
    assert(s.total == df.rows@.len());
    assert(s.name@ == col_name@);
    assert(col == df.column_view(df.index_of(col_name@)->0));
    assert(exists|t: Seq<(String, usize)>, o: Seq<usize>| top_of(present_trimmed(col), t, o, s.top_values@));
    Some(s)
}

} // verus!
