//! Frequency tables of text values: each distinct value once, in
//! lexicographic order, with the number of times it occurs.
use vstd::prelude::*;
use crate::reader::{first_index, lemma_first_index};

verus! {

broadcast use vstd::seq_lib::group_to_multiset_ensures, vstd::multiset::group_multiset_axioms;

/// Lexicographic order on character sequences, by code point.
pub open spec fn lex_le(a: Seq<char>, b: Seq<char>) -> bool
    decreases a.len(),
{
    if a.len() == 0 {
        true
    } else if b.len() == 0 {
        false
    } else if a[0] != b[0] {
        a[0] < b[0]
    } else {
        lex_le(a.drop_first(), b.drop_first())
    }
}

pub proof fn lemma_lex_antisymmetric(a: Seq<char>, b: Seq<char>)
    requires
        lex_le(a, b),
        lex_le(b, a),
    ensures
        a == b,
    decreases a.len(),
{
    if a.len() > 0 && b.len() > 0 && a[0] == b[0] {
        lemma_lex_antisymmetric(a.drop_first(), b.drop_first());
        assert(a =~= seq![a[0]] + a.drop_first());
        assert(b =~= seq![b[0]] + b.drop_first());
    } else if a.len() == 0 && b.len() == 0 {
        assert(a =~= b);
    }
}

pub open spec fn sorted_lex(s: Seq<Seq<char>>) -> bool {
    forall|i: int, j: int| 0 <= i < j < s.len() ==> lex_le(#[trigger] s[i], #[trigger] s[j])
}

/// Relies on `slice::sort` over `String`: it permutes the elements into
/// the order of `Ord for String`, which compares the UTF-8 bytes
/// lexicographically, and so the characters by code point (`lex_le`).
#[verifier::external_body]
fn sort_strings(v: &mut Vec<String>)
    ensures
        final(v).deep_view().to_multiset() == old(v).deep_view().to_multiset(),
        sorted_lex(final(v).deep_view()),
{
    v.sort();
}

/// `t` lists each distinct value of `vals` once, in lexicographic order,
/// with the number of its occurrences.
pub open spec fn is_frequency_table(vals: Seq<Seq<char>>, t: Seq<(Seq<char>, nat)>) -> bool {
    &&& forall|p: int, q: int|
        0 <= p < q < t.len() ==> lex_le((#[trigger] t[p]).0, (#[trigger] t[q]).0) && t[p].0
            != t[q].0
    &&& forall|p: int|
        0 <= p < t.len() ==> vals.contains((#[trigger] t[p]).0) && t[p].1 == vals.to_multiset().count(
            t[p].0,
        )
    &&& forall|v: Seq<char>| vals.contains(v) ==> exists|p: int| 0 <= p < t.len() && (#[trigger] t[p]).0 == v
}

/// The values of a frequency table, in its order.
pub open spec fn keys_of(t: Seq<(Seq<char>, nat)>) -> Seq<Seq<char>> {
    t.map_values(|e: (Seq<char>, nat)| e.0)
}

/// `ls` holds each distinct value of `vals` once, in lexicographic order.
pub open spec fn sorted_distinct(vals: Seq<Seq<char>>, ls: Seq<Seq<char>>) -> bool {
    &&& forall|p: int, q: int|
        0 <= p < q < ls.len() ==> lex_le(#[trigger] ls[p], #[trigger] ls[q]) && ls[p] != ls[q]
    &&& ls.to_set() == vals.to_set()
}

/// The values of a frequency table are the distinct values, sorted; there
/// are as many entries as distinct values.
pub proof fn lemma_table_keys(vals: Seq<Seq<char>>, t: Seq<(Seq<char>, nat)>)
    requires
        is_frequency_table(vals, t),
    ensures
        sorted_distinct(vals, keys_of(t)),
        t.len() == vals.to_set().len(),
{
    let ks = keys_of(t);
    assert forall|p: int, q: int| 0 <= p < q < ks.len() implies lex_le(#[trigger] ks[p], #[trigger] ks[q])
        && ks[p] != ks[q] by {
        assert(ks[p] == t[p].0 && ks[q] == t[q].0);
    }
    assert forall|v: Seq<char>| ks.to_set().contains(v) <==> vals.to_set().contains(v) by {
        if ks.contains(v) {
            let p = choose|p: int| 0 <= p < ks.len() && ks[p] == v;
            assert(t[p].0 == v);
        }
        if vals.contains(v) {
            let p = choose|p: int| 0 <= p < t.len() && (#[trigger] t[p]).0 == v;
            assert(ks[p] == v);
        }
    }
    assert(ks.to_set() =~= vals.to_set());
    assert(ks.no_duplicates()) by {
        assert forall|p: int, q: int| 0 <= p < ks.len() && 0 <= q < ks.len() && p != q implies ks[p] != ks[q] by {
            if p < q {
                assert(lex_le(ks[p], ks[q]) && ks[p] != ks[q]);
            } else {
                assert(lex_le(ks[q], ks[p]) && ks[q] != ks[p]);
            }
        }
    }
    ks.unique_seq_to_set();
}

pub open spec fn table_view(t: Seq<(String, usize)>) -> Seq<(Seq<char>, nat)> {
    t.map_values(|e: (String, usize)| (e.0@, e.1 as nat))
}

proof fn lemma_runs_contiguous(s: Seq<Seq<char>>, k: int, i: int)
    requires
        sorted_lex(s),
        0 <= k < i < s.len(),
        s[k] == s[i],
    ensures
        s[i - 1] == s[i],
{
    if k < i - 1 {
        assert(lex_le(s[k], s[i - 1]));
        assert(lex_le(s[i - 1], s[i]));
        lemma_lex_antisymmetric(s[k], s[i - 1]);
    }
}

/// Builds the frequency table of `values`.
pub fn frequency_table(values: &Vec<String>) -> (r: Vec<(String, usize)>)
    ensures
        is_frequency_table(values.deep_view(), table_view(r@)),
{
    let mut sorted = values.clone();
    assert(sorted.deep_view() =~= values.deep_view());
    sort_strings(&mut sorted);
    let ghost sv = sorted.deep_view();
    let n = sorted.len();
    let mut out: Vec<(String, usize)> = Vec::new();
    let ghost mut starts: Seq<int> = Seq::empty();
    let ghost mut owner: Seq<int> = Seq::empty();
    let mut i: usize = 0;
    while i < n
        invariant
            n == sv.len(),
            sv == sorted.deep_view(),
            sorted_lex(sv),
            i <= n,
            i < n ==> (i == 0 || sv[i - 1] != sv[i as int]),
            starts.len() == out@.len(),
            forall|p: int| 0 <= p < starts.len() ==> 0 <= #[trigger] starts[p] < i,
            forall|p: int, q: int| 0 <= p < q < starts.len() ==> #[trigger] starts[p] < #[trigger] starts[q],
            forall|p: int|
                0 <= p < starts.len() ==> (#[trigger] out@[p]).0@ == sv[starts[p]] && (starts[p] == 0
                    || sv[starts[p] - 1] != sv[starts[p]]),
            forall|p: int|
                0 <= p < out@.len() ==> (#[trigger] out@[p]).1 == sv.subrange(0, i as int).to_multiset().count(
                    out@[p].0@,
                ),
            owner.len() == i,
            forall|k: int| 0 <= k < i ==> 0 <= #[trigger] owner[k] < out@.len() && out@[owner[k]].0@ == sv[k],
        decreases n - i,
    {
        let ghost i0 = i as int;
        let ghost old_out = out@;
        assert forall|k: int| 0 <= k < i0 implies sv[k] != sv[i0] by {
            if sv[k] == sv[i0] {
                lemma_runs_contiguous(sv, k, i0);
            }
        }
        assert(!sv.subrange(0, i0).contains(sv[i0]));
        let mut j: usize = i;
        while j < n
            invariant
                i0 <= j <= n,
                i0 < n,
                i == i0,
                sorted@.len() == n,
                n == sv.len(),
                sv == sorted.deep_view(),
                out@ == old_out,
                forall|k: int| i0 <= k < j ==> sv[k] == sv[i0],
                sv.subrange(0, j as int).to_multiset().count(sv[i0]) == j - i0,
                forall|p: int|
                    0 <= p < out@.len() ==> (#[trigger] out@[p]).1 == sv.subrange(0, j as int).to_multiset().count(
                        out@[p].0@,
                    ),
                forall|p: int| 0 <= p < out@.len() ==> (#[trigger] out@[p]).0@ != sv[i0],
            ensures
                i0 < j <= n,
                j < n ==> sv[j as int] != sv[i0],
            decreases n - j,
        {
            if !(sorted[j] == sorted[i]) {
                break;
            }
            assert(sv.subrange(0, j + 1) =~= sv.subrange(0, j as int).push(sv[j as int]));
            j += 1;
        }
        proof {
            let newp = out@.len() as int;
            let ghost old_owner = owner;
            starts = starts.push(i0);
            owner = Seq::new(j as nat, |k: int| if k < i0 { old_owner[k] } else { newp });
        }
        out.push((sorted[i].clone(), j - i));
        i = j;
    }
    assert(sv.subrange(0, n as int) =~= sv);
    let ghost t = table_view(out@);
    let ghost vs = values.deep_view();
    assert forall|p: int, q: int| 0 <= p < q < t.len() implies lex_le((#[trigger] t[p]).0, (#[trigger] t[q]).0)
        && t[p].0 != t[q].0 by {
        assert(out@[p].0@ == sv[starts[p]]);
        assert(out@[q].0@ == sv[starts[q]]);
        assert(starts[p] < starts[q]);
        if sv[starts[p]] == sv[starts[q]] {
            lemma_runs_contiguous(sv, starts[p], starts[q]);
        }
    }
    assert forall|p: int| 0 <= p < t.len() implies vs.contains((#[trigger] t[p]).0) && t[p].1
        == vs.to_multiset().count(t[p].0) by {
        assert(out@[p].0@ == sv[starts[p]]);
        assert(sv.contains(sv[starts[p]]));
    }
    assert forall|v: Seq<char>| vs.contains(v) implies exists|p: int| 0 <= p < t.len() && (#[trigger] t[p]).0 == v by {
        assert(sv.to_multiset().count(v) > 0);
        let k = choose|k: int| 0 <= k < sv.len() && sv[k] == v;
        assert(t[owner[k]].0 == v);
    }
    out
}


/// `t` lists each distinct element of `xs` once, in the order of first
/// occurrence, with the number of its occurrences.
pub open spec fn is_occurrence_tally<A>(xs: Seq<A>, t: Seq<(A, nat)>) -> bool {
    &&& forall|p: int, q: int| 0 <= p < q < t.len() ==> (#[trigger] t[p]).0 != (#[trigger] t[q]).0
    &&& forall|p: int|
        0 <= p < t.len() ==> xs.contains((#[trigger] t[p]).0) && t[p].1 == xs.to_multiset().count(
            t[p].0,
        )
    &&& forall|v: A| xs.contains(v) ==> exists|p: int| 0 <= p < t.len() && (#[trigger] t[p]).0 == v
    &&& forall|p: int, q: int|
        0 <= p < q < t.len() ==> first_index(xs, (#[trigger] t[p]).0) < first_index(
            xs,
            (#[trigger] t[q]).0,
        )
}

/// A tally has one entry per distinct element.
pub proof fn lemma_tally_len<A>(xs: Seq<A>, t: Seq<(A, nat)>)
    requires
        is_occurrence_tally(xs, t),
    ensures
        t.len() == xs.to_set().len(),
{
    let ks = t.map_values(|e: (A, nat)| e.0);
    assert forall|v: A| ks.to_set().contains(v) <==> xs.to_set().contains(v) by {
        if ks.contains(v) {
            let p = choose|p: int| 0 <= p < ks.len() && ks[p] == v;
            assert(t[p].0 == v);
        }
        if xs.contains(v) {
            let p = choose|p: int| 0 <= p < t.len() && (#[trigger] t[p]).0 == v;
            assert(ks[p] == v);
        }
    }
    assert(ks.to_set() =~= xs.to_set());
    assert(ks.no_duplicates()) by {
        assert forall|p: int, q: int| 0 <= p < ks.len() && 0 <= q < ks.len() && p != q implies ks[p] != ks[q] by {
            if p < q {
                assert(t[p].0 != t[q].0);
            } else {
                assert(t[q].0 != t[p].0);
            }
        }
    }
    ks.unique_seq_to_set();
}

fn find_value(t: &Vec<(String, usize)>, v: &String) -> (r: Option<usize>)
    ensures
        r matches Some(p) ==> p < t@.len() && t@[p as int].0@ == v@,
        r is None ==> forall|p: int| 0 <= p < t@.len() ==> (#[trigger] t@[p]).0@ != v@,
{
    let mut p: usize = 0;
    while p < t.len()
        invariant
            p <= t@.len(),
            forall|q: int| 0 <= q < p ==> (#[trigger] t@[q]).0@ != v@,
        decreases t@.len() - p,
    {
        if t[p].0 == *v {
            return Some(p);
        }
        p += 1;
    }
    None
}

/// Builds the frequency table of `values` in order of first occurrence.
pub fn occurrence_table(values: &Vec<String>) -> (r: Vec<(String, usize)>)
    ensures
        is_occurrence_tally(values.deep_view(), table_view(r@)),
{
    let ghost fv = values.deep_view();
    let mut t: Vec<(String, usize)> = Vec::new();
    let ghost mut starts: Seq<int> = Seq::empty();
    let ghost mut owner: Seq<int> = Seq::empty();
    let mut r: usize = 0;
    while r < values.len()
        invariant
            fv == values.deep_view(),
            r <= values@.len(),
            starts.len() == t@.len(),
            forall|p: int| 0 <= p < starts.len() ==> 0 <= #[trigger] starts[p] < r,
            forall|p: int, q: int| 0 <= p < q < starts.len() ==> #[trigger] starts[p] < #[trigger] starts[q],
            forall|p: int| 0 <= p < t@.len() ==> (#[trigger] t@[p]).0@ == fv[starts[p]],
            forall|p: int, k: int| #![trigger t@[p], fv[k]] 0 <= p < t@.len() && 0 <= k < starts[p] ==> fv[k] != t@[p].0@,
            forall|p: int, q: int| 0 <= p < q < t@.len() ==> (#[trigger] t@[p]).0@ != (#[trigger] t@[q]).0@,
            forall|p: int|
                0 <= p < t@.len() ==> (#[trigger] t@[p]).1 == fv.subrange(0, r as int).to_multiset().count(
                    t@[p].0@,
                ),
            forall|p: int| 0 <= p < t@.len() ==> (#[trigger] t@[p]).1 <= r,
            owner.len() == r,
            forall|k: int| 0 <= k < r ==> 0 <= #[trigger] owner[k] < t@.len() && t@[owner[k]].0@ == fv[k],
        decreases values@.len() - r,
    {
        let fp = &values[r];
        let ghost pre = fv.subrange(0, r as int);
        assert(fv.subrange(0, r + 1) =~= pre.push(fp@));
        let ghost old_t = t@;
        match find_value(&t, fp) {
            Some(p) => {
                let c = t[p].1;
                let key = t[p].0.clone();
                t.set(p, (key, c + 1));
                proof {
                    assert(table_view(t@) =~= table_view(old_t).update(p as int, (fp@, (c + 1) as nat)));
                    assert forall|q: int| 0 <= q < t@.len() implies (#[trigger] t@[q]).1
                        == fv.subrange(0, r + 1).to_multiset().count(t@[q].0@) by {
                        if q != p {
                            assert(t@[q] == old_t[q]);
                        }
                    }
                    owner = owner.push(p as int);
                }
            },
            None => {
                proof {
                    assert forall|k: int| 0 <= k < r implies fv[k] != fp@ by {
                        assert(t@[owner[k]].0@ == fv[k]);
                    }
                    assert(!pre.contains(fp@));
                    starts = starts.push(r as int);
                    owner = owner.push(t@.len() as int);
                }
                t.push((fp.clone(), 1));
                proof {
                    assert(table_view(t@).drop_last() =~= table_view(old_t));
                    assert forall|q: int| 0 <= q < t@.len() implies (#[trigger] t@[q]).1
                        == fv.subrange(0, r + 1).to_multiset().count(t@[q].0@) by {
                        if q < old_t.len() {
                            assert(t@[q] == old_t[q]);
                        }
                    }
                }
            },
        }
        r += 1;
    }
    assert(fv.subrange(0, r as int) =~= fv);
    let ghost tv = table_view(t@);
    assert forall|p: int, q: int| 0 <= p < q < tv.len() implies (#[trigger] tv[p]).0 != (#[trigger] tv[q]).0 by {
        assert(tv[p].0 == t@[p].0@ && tv[q].0 == t@[q].0@);
    }
    assert forall|p: int| 0 <= p < tv.len() implies fv.contains((#[trigger] tv[p]).0) && tv[p].1
        == fv.to_multiset().count(tv[p].0) by {
        assert(tv[p].0 == t@[p].0@);
        assert(fv[starts[p]] == tv[p].0);
    }
    assert forall|v: Seq<char>| fv.contains(v) implies exists|p: int| 0 <= p < tv.len() && (#[trigger] tv[p]).0 == v by {
        let k = choose|k: int| 0 <= k < fv.len() && fv[k] == v;
        assert(tv[owner[k]].0 == v);
    }
    assert forall|p: int| 0 <= p < tv.len() implies first_index(fv, (#[trigger] tv[p]).0) == starts[p] by {
        assert(tv[p].0 == t@[p].0@);
        assert forall|k: int| 0 <= k < starts[p] implies fv[k] != tv[p].0 by {
            assert(fv[k] != t@[p].0@);
        }
        lemma_first_index(fv, tv[p].0, starts[p]);
    }
    assert forall|p: int, q: int| 0 <= p < q < tv.len() implies first_index(fv, (#[trigger] tv[p]).0)
        < first_index(fv, (#[trigger] tv[q]).0) by {
        assert(starts[p] < starts[q]);
    }
    assert(is_occurrence_tally(fv, tv));
    t
}

} // verus!
