//! Missing-value accounting: per column, and by row patterns of missing
//! cells.
use vstd::prelude::*;
use crate::freq::is_occurrence_tally;
use crate::rank::{is_stable_desc_order, order_desc, ranks_before};
use crate::reader::{cell_of, first_index, lemma_first_index, DataFrame};
use crate::stats::missing_count;
use crate::utils::{cell_missing, is_missing};

verus! {

broadcast use vstd::seq_lib::group_to_multiset_ensures, vstd::multiset::group_multiset_axioms;

/// Most frequent patterns a missing-pattern report lists.
pub const TOP_PATTERNS: usize = 10;

/// Missing data info for one column.
#[derive(Debug)]
pub struct MissingInfo {
    pub name: String,
    pub missing: usize,
    pub total: usize,
}

/// Report on missing data patterns.
#[derive(Debug)]
pub struct MissingPatternReport {
    pub total_rows: usize,
    pub rows_with_missing: usize,
    pub patterns: Vec<(Vec<String>, usize)>,
}

/// Analyze missing data for all columns.
pub fn analyze(df: &DataFrame) -> (r: Vec<MissingInfo>)
    ensures
        r@.len() == df.headers@.len(),
        forall|j: int|
            0 <= j < r@.len() ==> {
                &&& (#[trigger] r@[j]).name@ == df.header_view()[j]
                &&& r@[j].missing == missing_count(df.column_view(j))
                &&& r@[j].total == df.rows@.len()
            },
{
    let mut out: Vec<MissingInfo> = Vec::new();
    let mut j: usize = 0;
    while j < df.headers.len()
        invariant
            j <= df.headers@.len(),
            out@.len() == j,
            forall|q: int|
                0 <= q < j ==> {
                    &&& (#[trigger] out@[q]).name@ == df.header_view()[q]
                    &&& out@[q].missing == missing_count(df.column_view(q))
                    &&& out@[q].total == df.rows@.len()
                },
        decreases df.headers@.len() - j,
    {
        let values = df.column_cells(j);
        let ghost col = df.column_view(j as int);
        let ghost miss = |v: Seq<char>| cell_missing(v);
        let mut missing: usize = 0;
        let mut i: usize = 0;
        while i < values.len()
            invariant
                values@.map_values(|c: &str| c@) == col,
                i <= values@.len(),
                miss == (|v: Seq<char>| cell_missing(v)),
                missing == col.subrange(0, i as int).filter(miss).len(),
                missing <= i,
            decreases values@.len() - i,
        {
            proof {
                reveal(Seq::filter);
                assert(col.subrange(0, i + 1).drop_last() =~= col.subrange(0, i as int));
            }
            assert(col[i as int] == values@[i as int]@);
            if is_missing(values[i]) {
                missing += 1;
            }
            i += 1;
        }
        assert(col.subrange(0, values@.len() as int) =~= col);
        out.push(MissingInfo { name: df.headers[j].clone(), missing, total: values.len() });
        j += 1;
    }
    out
}

/// Returns only columns that have missing values.
pub fn only_missing(infos: &[MissingInfo]) -> (r: Vec<&MissingInfo>)
    ensures
        r@ == infos@.filter(|m: MissingInfo| m.missing > 0).map_values(|m: MissingInfo| &m),
{
    let ghost keep = |m: MissingInfo| m.missing > 0;
    let mut out: Vec<&MissingInfo> = Vec::new();
    let mut i: usize = 0;
    while i < infos.len()
        invariant
            i <= infos@.len(),
            keep == (|m: MissingInfo| m.missing > 0),
            out@ == infos@.subrange(0, i as int).filter(keep).map_values(|m: MissingInfo| &m),
        decreases infos@.len() - i,
    {
        proof {
            reveal(Seq::filter);
            assert(infos@.subrange(0, i + 1).drop_last() =~= infos@.subrange(0, i as int));
        }
        let ghost before = out@;
        if infos[i].missing > 0 {
            out.push(&infos[i]);
            assert(out@ =~= before.push(&infos@[i as int]));
        }
        i += 1;
    }
    assert(infos@.subrange(0, infos@.len() as int) =~= infos@);
    out
}

/// The fingerprint of row `r`: for each column, whether its cell is missing.
pub open spec fn fingerprint(df: &DataFrame, r: int) -> Seq<bool> {
    Seq::new(df.headers@.len() as nat, |j: int| cell_missing(cell_of(df.row_view(r), j)))
}

/// The fingerprints of all rows, in row order.
pub open spec fn fingerprints(df: &DataFrame) -> Seq<Seq<bool>> {
    Seq::new(df.rows@.len() as nat, |r: int| fingerprint(df, r))
}

/// A fingerprint with at least one missing cell.
pub open spec fn any_missing(fp: Seq<bool>) -> bool {
    fp.contains(true)
}

pub open spec fn sum_counts(t: Seq<(Seq<bool>, nat)>) -> nat
    decreases t.len(),
{
    if t.len() == 0 {
        0
    } else {
        sum_counts(t.drop_last()) + t.last().1
    }
}

/// `t` lists each distinct fingerprint of `fps` once, in the order of first
/// occurrence, with the number of its occurrences.
pub open spec fn is_pattern_tally(fps: Seq<Seq<bool>>, t: Seq<(Seq<bool>, nat)>) -> bool {
    is_occurrence_tally(fps, t)
}

pub open spec fn tally_view(t: Seq<(Vec<bool>, usize)>) -> Seq<(Seq<bool>, nat)> {
    t.map_values(|e: (Vec<bool>, usize)| (e.0@, e.1 as nat))
}

proof fn lemma_sum_update(t: Seq<(Seq<bool>, nat)>, p: int, c: nat)
    requires
        0 <= p < t.len(),
    ensures
        sum_counts(t.update(p, (t[p].0, c))) + t[p].1 == sum_counts(t) + c,
    decreases t.len(),
{
    let u = t.update(p, (t[p].0, c));
    if p < t.len() - 1 {
        assert(u.drop_last() =~= t.drop_last().update(p, (t[p].0, c)));
        lemma_sum_update(t.drop_last(), p, c);
    } else {
        assert(u.drop_last() =~= t.drop_last());
    }
}

proof fn lemma_missing_sum_update(t: Seq<(Seq<bool>, nat)>, p: int, c: nat)
    requires
        0 <= p < t.len(),
    ensures
        sum_counts(with_missing(t.update(p, (t[p].0, c)))) + (if any_missing(t[p].0) { t[p].1 } else { 0 })
            == sum_counts(with_missing(t)) + (if any_missing(t[p].0) { c } else { 0 }),
    decreases t.len(),
{
    reveal(Seq::filter);
    let u = t.update(p, (t[p].0, c));
    if p < t.len() - 1 {
        assert(u.drop_last() =~= t.drop_last().update(p, (t[p].0, c)));
        lemma_missing_sum_update(t.drop_last(), p, c);
    } else {
        assert(u.drop_last() =~= t.drop_last());
    }
    if any_missing(u.last().0) {
        assert(with_missing(u).drop_last() =~= with_missing(u.drop_last()));
    }
    if any_missing(t.last().0) {
        assert(with_missing(t).drop_last() =~= with_missing(t.drop_last()));
    }
}

proof fn lemma_missing_sum_push(t: Seq<(Seq<bool>, nat)>, e: (Seq<bool>, nat))
    ensures
        sum_counts(with_missing(t.push(e))) == sum_counts(with_missing(t)) + (if any_missing(e.0) { e.1 } else { 0 }),
{
    reveal(Seq::filter);
    assert(t.push(e).drop_last() =~= t);
    if any_missing(e.0) {
        assert(with_missing(t.push(e)).drop_last() =~= with_missing(t));
    }
}

fn row_fingerprint(df: &DataFrame, r: usize) -> (fp: Vec<bool>)
    requires
        r < df.rows@.len(),
    ensures
        fp@ == fingerprint(df, r as int),
{
    let row = &df.rows[r];
    let mut fp: Vec<bool> = Vec::new();
    let mut j: usize = 0;
    while j < df.headers.len()
        invariant
            r < df.rows@.len(),
            row == df.rows@[r as int],
            j <= df.headers@.len(),
            fp@.len() == j,
            forall|q: int| 0 <= q < j ==> fp@[q] == fingerprint(df, r as int)[q],
        decreases df.headers@.len() - j,
    {
        let m = if j < row.len() {
            assert(df.row_view(r as int)[j as int] == row@[j as int]@);
            is_missing(row[j].as_str())
        } else {
            proof {
                reveal_strlit("");
                assert(""@ =~= Seq::<char>::empty());
            }
            is_missing("")
        };
        assert(df.row_view(r as int).len() == row@.len());
        assert(m == fingerprint(df, r as int)[j as int]);
        fp.push(m);
        j += 1;
    }
    assert(fp@ =~= fingerprint(df, r as int));
    fp
}

fn same_pattern(a: &Vec<bool>, b: &Vec<bool>) -> (r: bool)
    ensures
        r == (a@ == b@),
{
    if a.len() != b.len() {
        return false;
    }
    let mut i: usize = 0;
    while i < a.len()
        invariant
            a@.len() == b@.len(),
            i <= a@.len(),
            forall|k: int| 0 <= k < i ==> a@[k] == b@[k],
        decreases a@.len() - i,
    {
        if a[i] != b[i] {
            return false;
        }
        i += 1;
    }
    assert(a@ =~= b@);
    true
}

fn find_pattern(t: &Vec<(Vec<bool>, usize)>, fp: &Vec<bool>) -> (r: Option<usize>)
    ensures
        r matches Some(p) ==> p < t@.len() && t@[p as int].0@ == fp@,
        r is None ==> forall|p: int| 0 <= p < t@.len() ==> (#[trigger] t@[p]).0@ != fp@,
{
    let mut p: usize = 0;
    while p < t.len()
        invariant
            p <= t@.len(),
            forall|q: int| 0 <= q < p ==> (#[trigger] t@[q]).0@ != fp@,
        decreases t@.len() - p,
    {
        if same_pattern(&t[p].0, fp) {
            return Some(p);
        }
        p += 1;
    }
    None
}

/// Tallies the missing-value fingerprints of the rows: each distinct
/// fingerprint once, in order of first occurrence, with its number of rows.
/// The counts add up to the number of rows.
pub fn pattern_tally(df: &DataFrame) -> (r: Vec<(Vec<bool>, usize)>)
    ensures
        is_pattern_tally(fingerprints(df), tally_view(r@)),
        sum_counts(tally_view(r@)) == df.rows@.len(),
        sum_counts(with_missing(tally_view(r@))) == fingerprints(df).filter(|fp: Seq<bool>| any_missing(fp)).len(),
{
    let ghost fv = fingerprints(df);
    let mut t: Vec<(Vec<bool>, usize)> = Vec::new();
    let ghost mut starts: Seq<int> = Seq::empty();
    let ghost mut owner: Seq<int> = Seq::empty();
    let mut r: usize = 0;
    while r < df.rows.len()
        invariant
            fv == fingerprints(df),
            r <= df.rows@.len(),
            starts.len() == t@.len(),
            forall|p: int| 0 <= p < starts.len() ==> 0 <= #[trigger] starts[p] < r,
            forall|p: int, q: int| 0 <= p < q < starts.len() ==> #[trigger] starts[p] < #[trigger] starts[q],
            forall|p: int| 0 <= p < t@.len() ==> (#[trigger] t@[p]).0@ == fv[starts[p]],
            forall|p: int, k: int| #![trigger t@[p], fv[k]] 0 <= p < t@.len() && 0 <= k < starts[p] ==> fv[k] != t@[p].0@,
            forall|p: int, q: int| 0 <= p < q < t@.len() ==> (#[trigger] t@[p]).0@ != (#[trigger] t@[q]).0@,
            forall|p: int|
                0 <= p < t@.len() ==> (#[trigger] t@[p]).1 == fv.subrange(0, r as int).to_multiset().count(
                    t@[p].0@,
                ),
            forall|p: int| 0 <= p < t@.len() ==> (#[trigger] t@[p]).1 <= r,
            owner.len() == r,
            forall|k: int| 0 <= k < r ==> 0 <= #[trigger] owner[k] < t@.len() && t@[owner[k]].0@ == fv[k],
            sum_counts(tally_view(t@)) == r,
            sum_counts(with_missing(tally_view(t@))) == fv.subrange(0, r as int).filter(
                |fp: Seq<bool>| any_missing(fp),
            ).len(),
        decreases df.rows@.len() - r,
    {
        let fp = row_fingerprint(df, r);
        let ghost pre = fv.subrange(0, r as int);
        assert(fv.subrange(0, r + 1) =~= pre.push(fp@));
        proof {
            reveal(Seq::filter);
            assert(pre.push(fp@).drop_last() =~= pre);
        }
        let ghost old_t = t@;
        match find_pattern(&t, &fp) {
            Some(p) => {
                let c = t[p].1;
                let key = t[p].0.clone();
                t.set(p, (key, c + 1));
                proof {
                    assert(tally_view(t@) =~= tally_view(old_t).update(p as int, (fp@, (c + 1) as nat)));
                    lemma_sum_update(tally_view(old_t), p as int, (c + 1) as nat);
                    lemma_missing_sum_update(tally_view(old_t), p as int, (c + 1) as nat);
                    assert forall|q: int| 0 <= q < t@.len() implies (#[trigger] t@[q]).1
                        == fv.subrange(0, r + 1).to_multiset().count(t@[q].0@) by {
                        if q != p {
                            assert(t@[q] == old_t[q]);
                        }
                    }
                    owner = owner.push(p as int);
                }
            },
            None => {
                proof {
                    assert forall|k: int| 0 <= k < r implies fv[k] != fp@ by {
                        assert(t@[owner[k]].0@ == fv[k]);
                    }
                    assert(!pre.contains(fp@));
                    starts = starts.push(r as int);
                    owner = owner.push(t@.len() as int);
                }
                t.push((fp, 1));
                proof {
                    assert(tally_view(t@).drop_last() =~= tally_view(old_t));
                    assert(tally_view(t@) =~= tally_view(old_t).push((fp@, 1nat)));
                    lemma_missing_sum_push(tally_view(old_t), (fp@, 1nat));
                    assert forall|q: int| 0 <= q < t@.len() implies (#[trigger] t@[q]).1
                        == fv.subrange(0, r + 1).to_multiset().count(t@[q].0@) by {
                        if q < old_t.len() {
                            assert(t@[q] == old_t[q]);
                        }
                    }
                }
            },
        }
        r += 1;
    }
    assert(fv.subrange(0, r as int) =~= fv);
    let ghost tv = tally_view(t@);
    assert forall|p: int, q: int| 0 <= p < q < tv.len() implies (#[trigger] tv[p]).0 != (#[trigger] tv[q]).0 by {
        assert(tv[p].0 == t@[p].0@ && tv[q].0 == t@[q].0@);
    }
    assert forall|p: int| 0 <= p < tv.len() implies fv.contains((#[trigger] tv[p]).0) && tv[p].1
        == fv.to_multiset().count(tv[p].0) by {
        assert(tv[p].0 == t@[p].0@);
        assert(fv[starts[p]] == tv[p].0);
    }
    assert forall|v: Seq<bool>| fv.contains(v) implies exists|p: int| 0 <= p < tv.len() && (#[trigger] tv[p]).0 == v by {
        let k = choose|k: int| 0 <= k < fv.len() && fv[k] == v;
        assert(tv[owner[k]].0 == v);
    }
    assert forall|p: int| 0 <= p < tv.len() implies first_index(fv, (#[trigger] tv[p]).0) == starts[p] by {
        assert(tv[p].0 == t@[p].0@);
        assert forall|k: int| 0 <= k < starts[p] implies fv[k] != tv[p].0 by {
            assert(fv[k] != t@[p].0@);
        }
        lemma_first_index(fv, tv[p].0, starts[p]);
    }
    assert forall|p: int, q: int| 0 <= p < q < tv.len() implies first_index(fv, (#[trigger] tv[p]).0)
        < first_index(fv, (#[trigger] tv[q]).0) by {
        assert(starts[p] < starts[q]);
    }
    assert(is_pattern_tally(fv, tv));
    t
}


/// The names of the columns whose bit is set in `fp`, in column order.
pub open spec fn names_of(h: Seq<Seq<char>>, fp: Seq<bool>) -> Seq<Seq<char>> {
    Seq::new(fp.len(), |j: int| j).filter(|j: int| fp[j] && j < h.len()).map_values(|j: int| h[j])
}

/// The entries of a tally whose fingerprint has a missing cell.
pub open spec fn with_missing(tv: Seq<(Seq<bool>, nat)>) -> Seq<(Seq<bool>, nat)> {
    tv.filter(|e: (Seq<bool>, nat)| any_missing(e.0))
}

pub open spec fn pattern_keys(nt: Seq<(Seq<bool>, nat)>) -> Seq<u64> {
    nt.map_values(|e: (Seq<bool>, nat)| e.1 as u64)
}

/// `pats` lists, for the first `TOP_PATTERNS` entries of the tally `tv` with
/// a missing cell taken in the order `o` (descending count, ties in order of
/// first occurrence), the names of the missing columns and the count.
pub open spec fn report_of(
    h: Seq<Seq<char>>,
    tv: Seq<(Seq<bool>, nat)>,
    o: Seq<usize>,
    pats: Seq<(Seq<Seq<char>>, nat)>,
) -> bool {
    let nt = with_missing(tv);
    &&& is_stable_desc_order(pattern_keys(nt), o)
    &&& pats.len() == if nt.len() < TOP_PATTERNS { nt.len() } else { TOP_PATTERNS as nat }
    &&& forall|i: int|
        0 <= i < pats.len() ==> #[trigger] pats[i] == (names_of(h, nt[o[i] as int].0), nt[o[i] as int].1)
}

pub open spec fn patterns_view(p: Seq<(Vec<String>, usize)>) -> Seq<(Seq<Seq<char>>, nat)> {
    p.map_values(|e: (Vec<String>, usize)| (e.0.deep_view(), e.1 as nat))
}

fn has_true(fp: &Vec<bool>) -> (r: bool)
    ensures
        r == any_missing(fp@),
{
    let mut i: usize = 0;
    while i < fp.len()
        invariant
            i <= fp@.len(),
            forall|k: int| 0 <= k < i ==> !fp@[k],
        decreases fp@.len() - i,
    {
        if fp[i] {
            assert(fp@[i as int]);
            return true;
        }
        i += 1;
    }
    false
}

/// The names of the columns whose bit is set in `fp`.
fn pattern_names(h: &Vec<String>, fp: &Vec<bool>) -> (r: Vec<String>)
    ensures
        r.deep_view() == names_of(h.deep_view(), fp@),
{
    let ghost all = Seq::new(fp@.len(), |j: int| j);
    let ghost keep = |j: int| fp@[j] && j < h@.len();
    let mut out: Vec<String> = Vec::new();
    let mut j: usize = 0;
    while j < fp.len()
        invariant
            j <= fp@.len(),
            all == Seq::new(fp@.len(), |j: int| j),
            keep == (|j: int| fp@[j] && j < h@.len()),
            out.deep_view() == all.subrange(0, j as int).filter(keep).map_values(|j: int| h.deep_view()[j]),
        decreases fp@.len() - j,
    {
        proof {
            reveal(Seq::filter);
            assert(all.subrange(0, j + 1).drop_last() =~= all.subrange(0, j as int));
        }
        let ghost before = out.deep_view();
        if fp[j] && j < h.len() {
            out.push(h[j].clone());
            assert(out.deep_view() =~= before.push(h.deep_view()[j as int]));
        }
        j += 1;
    }
    assert(all.subrange(0, fp@.len() as int) =~= all);
    out
}

/// Analyze missing data patterns (which rows have missing values in which columns).
///
/// Counts the rows with at least one missing cell, and lists the most
/// frequent fingerprints that have a missing cell, by descending count.
pub fn missing_patterns(df: &DataFrame) -> (r: MissingPatternReport)
    ensures
        r.total_rows == df.rows@.len(),
        r.rows_with_missing == fingerprints(df).filter(|fp: Seq<bool>| any_missing(fp)).len(),
        exists|tv: Seq<(Seq<bool>, nat)>, o: Seq<usize>|
            {
                &&& is_pattern_tally(fingerprints(df), tv)
                &&& sum_counts(tv) == df.rows@.len()
                &&& sum_counts(with_missing(tv)) == r.rows_with_missing
                &&& report_of(df.header_view(), tv, o, patterns_view(r.patterns@))
            },
{
    let ghost fv = fingerprints(df);
    let ghost anym = |fp: Seq<bool>| any_missing(fp);
    let total = df.rows.len();
    let mut rows_with_missing: usize = 0;
    let mut r: usize = 0;
    while r < df.rows.len()
        invariant
            fv == fingerprints(df),
            anym == (|fp: Seq<bool>| any_missing(fp)),
            r <= df.rows@.len(),
            rows_with_missing == fv.subrange(0, r as int).filter(anym).len(),
            rows_with_missing <= r,
        decreases df.rows@.len() - r,
    {
        proof {
            reveal(Seq::filter);
            assert(fv.subrange(0, r + 1).drop_last() =~= fv.subrange(0, r as int));
        }
        let fp = row_fingerprint(df, r);
        if has_true(&fp) {
            rows_with_missing += 1;
        }
        r += 1;
    }
    assert(fv.subrange(0, total as int) =~= fv);
    let t = pattern_tally(df);
    let ghost tv = tally_view(t@);
    let mut nt: Vec<(Vec<bool>, usize)> = Vec::new();
    let mut i: usize = 0;
    while i < t.len()
        invariant
            tv == tally_view(t@),
            i <= t@.len(),
            tally_view(nt@) == with_missing(tv.subrange(0, i as int)),
        decreases t@.len() - i,
    {
        proof {
            reveal(Seq::filter);
            assert(tv.subrange(0, i + 1).drop_last() =~= tv.subrange(0, i as int));
        }
        let ghost before = nt@;
        if has_true(&t[i].0) {
            nt.push((t[i].0.clone(), t[i].1));
            assert(tally_view(nt@) =~= tally_view(before).push(tv[i as int]));
        }
        i += 1;
    }
    assert(tv.subrange(0, t@.len() as int) =~= tv);
    let ghost ntv = tally_view(nt@);
    let mut keys: Vec<u64> = Vec::new();
    let mut p: usize = 0;
    while p < nt.len()
        invariant
            ntv == tally_view(nt@),
            p <= nt@.len(),
            keys@.len() == p,
            forall|q: int| 0 <= q < p ==> keys@[q] == pattern_keys(ntv)[q],
        decreases nt@.len() - p,
    {
        keys.push(nt[p].1 as u64);
        p += 1;
    }
    assert(keys@ =~= pattern_keys(ntv));
    let order = order_desc(&keys);
    let limit = if nt.len() < TOP_PATTERNS { nt.len() } else { TOP_PATTERNS };
    let mut patterns: Vec<(Vec<String>, usize)> = Vec::new();
    let mut k: usize = 0;
    while k < limit
        invariant
            ntv == tally_view(nt@),
            limit <= nt@.len(),
            order@.len() == nt@.len(),
            forall|q: int| 0 <= q < order@.len() ==> #[trigger] order@[q] < nt@.len(),
            k <= limit,
            patterns@.len() == k,
            forall|q: int|
                0 <= q < k ==> #[trigger] patterns_view(patterns@)[q] == (
                    names_of(df.header_view(), ntv[order@[q] as int].0),
                    ntv[order@[q] as int].1,
                ),
        decreases limit - k,
    {
        let e = &nt[order[k]];
        let names = pattern_names(&df.headers, &e.0);
        let ghost before = patterns@;
        patterns.push((names, e.1));
        assert forall|q: int| 0 <= q < k + 1 implies #[trigger] patterns_view(patterns@)[q] == (
            names_of(df.header_view(), ntv[order@[q] as int].0),
            ntv[order@[q] as int].1,
        ) by {
            if q < k {
                assert(patterns@[q] == before[q]);
                assert(patterns_view(patterns@)[q] == patterns_view(before)[q]);
            } else {
                assert(ntv[order@[q] as int] == (e.0@, e.1 as nat));
            }
        }
        k += 1;
    }
    let report = MissingPatternReport { total_rows: total, rows_with_missing, patterns };
    assert(report_of(df.header_view(), tv, order@, patterns_view(report.patterns@)));
    report
}


pub open spec fn seq_sum(s: Seq<nat>) -> nat
    decreases s.len(),
{
    if s.len() == 0 {
        0
    } else {
        seq_sum(s.drop_last()) + s.last()
    }
}

proof fn lemma_sum_remove(s: Seq<nat>, m: int)
    requires
        0 <= m < s.len(),
    ensures
        seq_sum(s) == seq_sum(s.remove(m)) + s[m],
    decreases s.len(),
{
    if m < s.len() - 1 {
        lemma_sum_remove(s.drop_last(), m);
        assert(s.remove(m).drop_last() =~= s.drop_last().remove(m));
        assert(s.remove(m).last() == s.last());
    } else {
        assert(s.remove(m) =~= s.drop_last());
    }
}

/// Summing the elements of `a` in the order of a permutation `o` of its
/// positions gives the sum of `a`.
proof fn lemma_sum_permuted(a: Seq<nat>, o: Seq<usize>)
    requires
        o.len() == a.len(),
        a.len() <= usize::MAX,
        o.no_duplicates(),
        forall|i: int| 0 <= i < o.len() ==> #[trigger] o[i] < a.len(),
        forall|x: usize| x < a.len() ==> #[trigger] o.contains(x),
    ensures
        seq_sum(o.map_values(|i: usize| a[i as int])) == seq_sum(a),
    decreases a.len(),
{
    let n = a.len();
    if n > 0 {
        let last = (n - 1) as usize;
        assert(o.contains(last));
        let m = choose|m: int| 0 <= m < o.len() && o[m] == last;
        let o2 = o.remove(m);
        let a2 = a.drop_last();
        assert forall|i: int| 0 <= i < o2.len() implies #[trigger] o2[i] < a2.len() by {
            if i < m {
                assert(o2[i] == o[i] && o[i] != o[m]);
            } else {
                assert(o2[i] == o[i + 1] && o[i + 1] != o[m]);
            }
        }
        assert forall|x: usize| x < a2.len() implies #[trigger] o2.contains(x) by {
            assert(o.contains(x));
            let j = choose|j: int| 0 <= j < o.len() && o[j] == x;
            if j < m {
                assert(o2[j] == x);
            } else {
                assert(j != m);
                assert(o2[j - 1] == x);
            }
        }
        assert(o2.no_duplicates()) by {
            assert forall|i: int, j: int| 0 <= i < o2.len() && 0 <= j < o2.len() && i != j implies o2[i] != o2[j] by {
                let oi = if i < m { i } else { i + 1 };
                let oj = if j < m { j } else { j + 1 };
                assert(o2[i] == o[oi] && o2[j] == o[oj]);
            }
        }
        lemma_sum_permuted(a2, o2);
        let full = o.map_values(|i: usize| a[i as int]);
        lemma_sum_remove(full, m);
        assert(full.remove(m) =~= o2.map_values(|i: usize| a2[i as int])) by {
            assert forall|i: int| 0 <= i < o2.len() implies #[trigger] full.remove(m)[i] == a2[o2[i] as int] by {
                if i < m {
                    assert(full.remove(m)[i] == full[i]);
                } else {
                    assert(full.remove(m)[i] == full[i + 1]);
                }
            }
        }
        assert(full[m] == a[n - 1]);
        assert(seq_sum(a) == seq_sum(a2) + a[n - 1]);
    } else {
        assert(o.map_values(|i: usize| a[i as int]) =~= Seq::<nat>::empty());
    }
}

/// The counts of a tally, in order.
pub open spec fn counts_of(t: Seq<(Seq<bool>, nat)>) -> Seq<nat> {
    t.map_values(|e: (Seq<bool>, nat)| e.1)
}

proof fn lemma_sum_counts(t: Seq<(Seq<bool>, nat)>)
    ensures
        sum_counts(t) == seq_sum(counts_of(t)),
    decreases t.len(),
{
    if t.len() > 0 {
        lemma_sum_counts(t.drop_last());
        assert(counts_of(t).drop_last() =~= counts_of(t.drop_last()));
    }
}

/// The total of the counts listed in a missing-pattern report.
pub open spec fn listed_total(pats: Seq<(Seq<Seq<char>>, nat)>) -> nat {
    seq_sum(pats.map_values(|e: (Seq<Seq<char>>, nat)| e.1))
}

/// When no more than `TOP_PATTERNS` fingerprints have a missing cell, the
/// report lists them all: its counts add up to the rows with a missing
/// cell, and with the rows without one to every row.
pub proof fn lemma_short_report_covers_every_row(df: &DataFrame, r: MissingPatternReport)
    requires
        r.total_rows == df.rows@.len(),
        r.rows_with_missing == fingerprints(df).filter(|fp: Seq<bool>| any_missing(fp)).len(),
        exists|tv: Seq<(Seq<bool>, nat)>, o: Seq<usize>|
            {
                &&& is_pattern_tally(fingerprints(df), tv)
                &&& sum_counts(tv) == df.rows@.len()
                &&& sum_counts(with_missing(tv)) == r.rows_with_missing
                &&& report_of(df.header_view(), tv, o, patterns_view(r.patterns@))
            },
        fingerprints(df).filter(|fp: Seq<bool>| any_missing(fp)).to_set().len() <= TOP_PATTERNS,
    ensures
        listed_total(patterns_view(r.patterns@)) == r.rows_with_missing,
        listed_total(patterns_view(r.patterns@)) + fingerprints(df).filter(
            |fp: Seq<bool>| !any_missing(fp),
        ).len() == r.total_rows,
{
    let (tv, o) = choose|tv: Seq<(Seq<bool>, nat)>, o: Seq<usize>|
        {
            &&& is_pattern_tally(fingerprints(df), tv)
            &&& sum_counts(tv) == df.rows@.len()
            &&& sum_counts(with_missing(tv)) == r.rows_with_missing
            &&& report_of(df.header_view(), tv, o, patterns_view(r.patterns@))
        };
    let nt = with_missing(tv);
    let pats = patterns_view(r.patterns@);
    let a = counts_of(nt);
    lemma_missing_entries(fingerprints(df), tv);
    assert(pats.len() == nt.len());
    assert(o.no_duplicates()) by {
        assert forall|i: int, j: int| 0 <= i < o.len() && 0 <= j < o.len() && i != j implies o[i] != o[j] by {
            if i < j {
                assert(ranks_before(pattern_keys(nt), o[i] as int, o[j] as int));
            } else {
                assert(ranks_before(pattern_keys(nt), o[j] as int, o[i] as int));
            }
        }
    }
    lemma_sum_permuted(a, o);
    assert(pats.map_values(|e: (Seq<Seq<char>>, nat)| e.1) =~= o.map_values(|i: usize| a[i as int]));
    lemma_sum_counts(nt);
    lemma_filter_split(fingerprints(df));
}

proof fn lemma_filter_keys_distinct(t: Seq<(Seq<bool>, nat)>)
    requires
        forall|p: int, q: int| 0 <= p < q < t.len() ==> (#[trigger] t[p]).0 != (#[trigger] t[q]).0,
    ensures
        forall|p: int, q: int|
            0 <= p < q < with_missing(t).len() ==> (#[trigger] with_missing(t)[p]).0 != (#[trigger] with_missing(
                t,
            )[q]).0,
    decreases t.len(),
{
    reveal(Seq::filter);
    if t.len() > 0 {
        let d = t.drop_last();
        lemma_filter_keys_distinct(d);
        let w = with_missing(d);
        if any_missing(t.last().0) {
            assert(with_missing(t) == w.push(t.last()));
            assert forall|p: int| 0 <= p < w.len() implies (#[trigger] w[p]).0 != t.last().0 by {
                d.lemma_filter_contains_rev(|e: (Seq<bool>, nat)| any_missing(e.0), w[p]);
                let i = choose|i: int| 0 <= i < d.len() && d[i] == w[p];
                assert(t[i] == d[i]);
            }
        }
    }
}

/// The entries of a tally with a missing cell are one per distinct
/// fingerprint with a missing cell.
proof fn lemma_missing_entries(fps: Seq<Seq<bool>>, tv: Seq<(Seq<bool>, nat)>)
    requires
        is_pattern_tally(fps, tv),
    ensures
        with_missing(tv).len() == fps.filter(|fp: Seq<bool>| any_missing(fp)).to_set().len(),
{
    broadcast use vstd::seq_lib::group_filter_ensures;

    let nt = with_missing(tv);
    let ks = nt.map_values(|e: (Seq<bool>, nat)| e.0);
    let fm = fps.filter(|fp: Seq<bool>| any_missing(fp));
    lemma_filter_keys_distinct(tv);
    assert(ks.no_duplicates()) by {
        assert forall|i: int, j: int| 0 <= i < ks.len() && 0 <= j < ks.len() && i != j implies ks[i] != ks[j] by {
            if i < j {
                assert(nt[i].0 != nt[j].0);
            } else {
                assert(nt[j].0 != nt[i].0);
            }
        }
    }
    assert forall|v: Seq<bool>| ks.to_set().contains(v) <==> fm.to_set().contains(v) by {
        if ks.contains(v) {
            let i = choose|i: int| 0 <= i < ks.len() && ks[i] == v;
            tv.lemma_filter_contains_rev(|e: (Seq<bool>, nat)| any_missing(e.0), nt[i]);
            let p = choose|p: int| 0 <= p < tv.len() && tv[p] == nt[i];
            assert(fps.contains(tv[p].0));
            let k = choose|k: int| 0 <= k < fps.len() && fps[k] == v;
            assert(fm.contains(fps[k]));
        }
        if fm.contains(v) {
            fps.lemma_filter_contains_rev(|fp: Seq<bool>| any_missing(fp), v);
            let p = choose|p: int| 0 <= p < tv.len() && (#[trigger] tv[p]).0 == v;
            assert(nt.contains(tv[p]));
            let i = choose|i: int| 0 <= i < nt.len() && nt[i] == tv[p];
            assert(ks[i] == v);
        }
    }
    assert(ks.to_set() =~= fm.to_set());
    ks.unique_seq_to_set();
}

/// Every fingerprint either has a missing cell or has none.
proof fn lemma_filter_split(s: Seq<Seq<bool>>)
    ensures
        s.filter(|fp: Seq<bool>| any_missing(fp)).len() + s.filter(|fp: Seq<bool>| !any_missing(fp)).len()
            == s.len(),
    decreases s.len(),
{
    reveal(Seq::filter);
    if s.len() > 0 {
        lemma_filter_split(s.drop_last());
    }
}

} // verus!
