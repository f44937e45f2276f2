//! Assembly of pairwise-correlation matrices and choice of their columns.
use vstd::prelude::*;
use crate::reader::DataFrame;
use crate::types::{numeric_columns, type_of, ColumnType};

verus! {

/// Builds the `n` by `n` matrix with `diag` on the diagonal and `pair(i, j)`
/// at both `(i, j)` and `(j, i)` for `i < j`. Each unordered pair is
/// computed once, so the matrix is symmetric whatever `pair` returns.
pub fn symmetric_matrix<T: Copy, F: Fn(usize, usize) -> T>(n: usize, diag: T, pair: F) -> (m: Vec<Vec<T>>)
    requires
        forall|i: usize, j: usize| i < j < n ==> pair.requires((i, j)),
    ensures
        m@.len() == n,
        forall|i: int| 0 <= i < n ==> (#[trigger] m@[i])@.len() == n,
        forall|i: int| 0 <= i < n ==> m@[i]@[i] == diag,
        forall|i: int, j: int| 0 <= i < n && 0 <= j < n ==> (#[trigger] m@[i]@[j]) == (#[trigger] m@[j]@[i]),
        forall|i: int, j: int| 0 <= i < j < n ==> pair.ensures((i as usize, j as usize), #[trigger] m@[i]@[j]),
{
    let mut upper: Vec<Vec<T>> = Vec::new();
    let mut i: usize = 0;
    while i < n
        invariant
            i <= n,
            upper@.len() == i,
            forall|i: usize, j: usize| i < j < n ==> pair.requires((i, j)),
            forall|a: int| 0 <= a < i ==> (#[trigger] upper@[a])@.len() == n - a - 1,
            forall|a: int, k: int|
                0 <= a < i && 0 <= k < n - a - 1 ==> pair.ensures(
                    (a as usize, (a + k + 1) as usize),
                    #[trigger] upper@[a]@[k],
                ),
        decreases n - i,
    {
        let mut row: Vec<T> = Vec::new();
        let mut j: usize = i + 1;
        while j < n
            invariant
                i < n,
                i + 1 <= j <= n,
                row@.len() == j - i - 1,
                forall|i: usize, j: usize| i < j < n ==> pair.requires((i, j)),
                forall|k: int| 0 <= k < j - i - 1 ==> pair.ensures((i, (i + k + 1) as usize), #[trigger] row@[k]),
            decreases n - j,
        {
            let v = pair(i, j);
            row.push(v);
            j += 1;
        }
        upper.push(row);
        i += 1;
    }
    let mut m: Vec<Vec<T>> = Vec::new();
    let mut a: usize = 0;
    while a < n
        invariant
            a <= n,
            upper@.len() == n,
            forall|p: int| 0 <= p < n ==> (#[trigger] upper@[p])@.len() == n - p - 1,
            m@.len() == a,
            forall|p: int| 0 <= p < a ==> (#[trigger] m@[p])@.len() == n,
            forall|p: int, q: int|
                0 <= p < a && 0 <= q < n ==> #[trigger] m@[p]@[q] == if p == q {
                    diag
                } else if p < q {
                    upper@[p]@[q - p - 1]
                } else {
                    upper@[q]@[p - q - 1]
                },
        decreases n - a,
    {
        let mut row: Vec<T> = Vec::new();
        let mut b: usize = 0;
        while b < n
            invariant
                a < n,
                b <= n,
                upper@.len() == n,
                forall|p: int| 0 <= p < n ==> (#[trigger] upper@[p])@.len() == n - p - 1,
                row@.len() == b,
                forall|q: int|
                    0 <= q < b ==> #[trigger] row@[q] == if a == q {
                        diag
                    } else if a < q {
                        upper@[a as int]@[q - a - 1]
                    } else {
                        upper@[q]@[a - q - 1]
                    },
            decreases n - b,
        {
            let v = if a == b {
                diag
            } else if a < b {
                upper[a][b - a - 1]
            } else {
                upper[b][a - b - 1]
            };
            row.push(v);
            b += 1;
        }
        m.push(row);
        a += 1;
    }
    m
}

/// The rows, up to the shorter length, at which both `x` and `y` hold a value.
pub open spec fn complete_rows<T>(x: Seq<Option<T>>, y: Seq<Option<T>>) -> Seq<int> {
    let n = if x.len() < y.len() { x.len() } else { y.len() };
    Seq::new(n, |i: int| i).filter(|i: int| x[i] is Some && y[i] is Some)
}

/// Pairwise-complete observations: the pairs of values at the rows where
/// both sides are present, in row order.
pub fn complete_pairs<T: Copy>(x: &Vec<Option<T>>, y: &Vec<Option<T>>) -> (r: Vec<(T, T)>)
    ensures
        r@ == complete_rows(x@, y@).map_values(|i: int| (x@[i]->0, y@[i]->0)),
{
    let n = if x.len() < y.len() { x.len() } else { y.len() };
    let ghost all = Seq::new(n as nat, |i: int| i);
    let ghost both = |i: int| x@[i] is Some && y@[i] is Some;
    let mut out: Vec<(T, T)> = Vec::new();
    let mut i: usize = 0;
    while i < n
        invariant
            n == if x@.len() < y@.len() { x@.len() } else { y@.len() },
            i <= n,
            all == Seq::new(n as nat, |i: int| i),
            both == (|i: int| x@[i] is Some && y@[i] is Some),
            out@ == all.subrange(0, i as int).filter(both).map_values(|i: int| (x@[i]->0, y@[i]->0)),
        decreases n - i,
    {
        proof {
            reveal(Seq::filter);
            assert(all.subrange(0, i + 1).drop_last() =~= all.subrange(0, i as int));
        }
        let ghost before = out@;
        match (x[i], y[i]) {
            (Some(a), Some(b)) => {
                out.push((a, b));
                assert(out@ =~= before.push((x@[i as int]->0, y@[i as int]->0)));
            },
            _ => {},
        }
        i += 1;
    }
    assert(all.subrange(0, n as int) =~= all);
    out
}

/// The columns of a correlation matrix: the given names that are columns of
/// `df`, in the given order, or else every numeric column in header order.
pub fn correlation_columns(df: &DataFrame, columns: Option<&[&str]>) -> (r: Vec<String>)
    ensures
        columns matches Some(names) ==> r.deep_view() == names@.map_values(|s: &str| s@).filter(
            |c: Seq<char>| df.index_of(c) is Some,
        ),
        columns is None ==> r.deep_view() == Seq::new(df.headers@.len() as nat, |j: int| j).filter(
            |j: int| type_of(df.column_view(j)) == ColumnType::Numeric,
        ).map_values(|j: int| df.header_view()[j]),
{
    match columns {
        None => numeric_columns(df),
        Some(names) => {
            let ghost nv = names@.map_values(|s: &str| s@);
            let ghost keep = |c: Seq<char>| df.index_of(c) is Some;
            let mut out: Vec<String> = Vec::new();
            let mut k: usize = 0;
            while k < names.len()
                invariant
                    k <= names@.len(),
                    nv == names@.map_values(|s: &str| s@),
                    keep == (|c: Seq<char>| df.index_of(c) is Some),
                    out.deep_view() == nv.subrange(0, k as int).filter(keep),
                decreases names@.len() - k,
            {
                proof {
                    reveal(Seq::filter);
                    assert(nv.subrange(0, k + 1).drop_last() =~= nv.subrange(0, k as int));
                }
                let ghost before = out.deep_view();
                if df.col_index(names[k]).is_some() {
                    out.push(String::from_str(names[k]));
                    assert(out.deep_view() =~= before.push(nv[k as int]));
                }
                k += 1;
            }
            assert(nv.subrange(0, names@.len() as int) =~= nv);
            out
        },
    }
}

} // verus!
