//! Comma-separated lists of column names.
use vstd::prelude::*;
use vstd::string::*;
use crate::text::{trim_of, trim_str};

verus! {

/// The fields of `s` between commas, in order; text without a comma is one
/// field, and the empty text is one empty field.
pub open spec fn split_commas(s: Seq<char>) -> Seq<Seq<char>>
    decreases s.len(),
{
    if s.len() == 0 {
        seq![Seq::empty()]
    } else {
        let prev = split_commas(s.drop_last());
        if s.last() == ',' {
            prev.push(Seq::empty())
        } else {
            prev.update(prev.len() - 1, prev.last().push(s.last()))
        }
    }
}

proof fn lemma_names_push(done: Seq<Seq<char>>, field: Seq<char>)
    ensures
        done.push(field).map_values(|f: Seq<char>| trim_of(f)).filter(|f: Seq<char>| f.len() > 0) == if trim_of(
            field,
        ).len() > 0 {
            done.map_values(|f: Seq<char>| trim_of(f)).filter(|f: Seq<char>| f.len() > 0).push(trim_of(field))
        } else {
            done.map_values(|f: Seq<char>| trim_of(f)).filter(|f: Seq<char>| f.len() > 0)
        },
{
    reveal(Seq::filter);
    let m = done.map_values(|f: Seq<char>| trim_of(f));
    assert(done.push(field).map_values(|f: Seq<char>| trim_of(f)) =~= m.push(trim_of(field)));
    assert(m.push(trim_of(field)).drop_last() =~= m);
}

proof fn lemma_split_nonempty(s: Seq<char>)
    ensures
        split_commas(s).len() > 0,
    decreases s.len(),
{
    if s.len() > 0 {
        lemma_split_nonempty(s.drop_last());
    }
}

/// The names of a comma-separated list: each field trimmed, empty fields
/// dropped.
pub open spec fn name_list(s: Seq<char>) -> Seq<Seq<char>> {
    split_commas(s).map_values(|f: Seq<char>| trim_of(f)).filter(|f: Seq<char>| f.len() > 0)
}

/// Splits a comma-separated list of column names; each name is trimmed and
/// empty names are dropped.
pub fn parse_vars(vars: &Option<String>) -> (r: Option<Vec<String>>)
    ensures
        vars is None ==> r is None,
        vars matches Some(v) ==> r matches Some(names) && names.deep_view() == name_list(v@),
{
    let v = match vars {
        None => {
            return None;
        },
        Some(v) => v.as_str(),
    };
    let n = v.unicode_len();
    let ghost mut done: Seq<Seq<char>> = Seq::empty();
    let mut out: Vec<String> = Vec::new();
    let mut start: usize = 0;
    let mut i: usize = 0;
    assert(v@.subrange(0, 0) =~= Seq::<char>::empty());
    assert(split_commas(Seq::<char>::empty()) =~= done.push(Seq::<char>::empty()));
    while i < n
        invariant
            n == v@.len(),
            start <= i <= n,
            split_commas(v@.subrange(0, i as int)) == done.push(v@.subrange(start as int, i as int)),
            out.deep_view() == done.map_values(|f: Seq<char>| trim_of(f)).filter(|f: Seq<char>| f.len() > 0),
        decreases n - i,
    {
        let ghost pre = v@.subrange(0, i as int);
        assert(v@.subrange(0, i + 1).drop_last() =~= pre);
        proof {
            lemma_split_nonempty(pre);
        }
        if v.get_char(i) == ',' {
            let field = v.substring_char(start, i);
            let t = trim_str(field);
            proof {
                lemma_names_push(done, field@);
            }
            if t.unicode_len() > 0 {
                out.push(String::from_str(t));
            }
            proof {
                done = done.push(field@);
                assert(v@.subrange((i + 1) as int, (i + 1) as int) =~= Seq::<char>::empty());
            }
            start = i + 1;
        } else {
            assert(v@.subrange(start as int, i + 1) =~= v@.subrange(start as int, i as int).push(v@[i as int]));
        }
        i += 1;
    }
    assert(v@.subrange(0, n as int) =~= v@);
    let field = v.substring_char(start, n);
    let t = trim_str(field);
    proof {
        lemma_names_push(done, field@);
    }
    if t.unicode_len() > 0 {
        out.push(String::from_str(t));
    }
    Some(out)
}

} // verus!
