//! Operations on strings, stated over their sequences of characters.

use crate::pick::{distinct_by, lemma_distinct_step, seen_before};
use vstd::prelude::*;

verus! {

/// The strings of `s` without repetitions, each where it first occurs.
pub open spec fn distinct(s: Seq<Seq<char>>) -> Seq<Seq<char>> {
    distinct_by(s, |x: Seq<char>| x)
}

/// Whether two strings hold the same characters.
pub fn same(a: &String, b: &String) -> (r: bool)
    ensures
        r == (a@ == b@),
{
    *a == *b
}

/// Whether `list` holds a string with the characters of `s`.
pub fn contains(list: &Vec<String>, s: &String) -> (r: bool)
    ensures
        r == list.deep_view().contains(s@),
{
    let mut i: usize = 0;
    while i < list.len()
        invariant
            i <= list.len(),
            forall|k: int| 0 <= k < i ==> list.deep_view()[k] != s@,
        decreases list.len() - i,
    {
        if same(&list[i], s) {
            assert(list.deep_view()[i as int] == s@);
            return true;
        }
        i += 1;
    }
    false
}

/// A copy of a string.
pub fn copy(s: &String) -> (r: String)
    ensures
        r@ == s@,
{
    s.clone()
}

/// A copy of a list of strings.
pub fn copy_all(list: &Vec<String>) -> (r: Vec<String>)
    ensures
        r.deep_view() == list.deep_view(),
{
    let mut out: Vec<String> = Vec::new();
    let mut i: usize = 0;
    while i < list.len()
        invariant
            i <= list.len(),
            out.len() == i,
            forall|k: int| 0 <= k < i ==> out[k]@ == list[k]@,
        decreases list.len() - i,
    {
        out.push(copy(&list[i]));
        i += 1;
    }
    assert(out.deep_view() =~= list.deep_view());
    out
}

/// The strings of `list` without repetitions, each where it first occurs.
pub fn unique(list: &Vec<String>) -> (r: Vec<String>)
    ensures
        r.deep_view() == distinct(list.deep_view()),
{
    let ghost all = list.deep_view();
    let ghost key = |x: Seq<char>| x;
    let mut out: Vec<String> = Vec::new();
    let mut i: usize = 0;
    assert(out.deep_view() =~= distinct_by(all.take(0), key));
    while i < list.len()
        invariant
            i <= list.len(),
            all == list.deep_view(),
            key == |x: Seq<char>| x,
            out.deep_view() == distinct_by(all.take(i as int), key),
        decreases list.len() - i,
    {
        let mut seen = false;
        let mut j: usize = 0;
        while j < i
            invariant
                j <= i < list.len(),
                all == list.deep_view(),
                seen == exists|k: int| 0 <= k < j && #[trigger] all[k] == all[i as int],
            decreases i - j,
        {
            if same(&list[j], &list[i]) {
                assert(all[j as int] == all[i as int]);
                seen = true;
            }
            j += 1;
        }
        proof {
            if seen {
                let k = choose|k: int| 0 <= k < i && #[trigger] all[k] == all[i as int];
                assert(key(all[k]) == key(all[i as int]));
            }
            assert(seen == seen_before(all, key, i as int));
            lemma_distinct_step(all, key, i as int);
        }
        let ghost before = out.deep_view();
        if !seen {
            out.push(copy(&list[i]));
            assert(out.deep_view() =~= before.push(all[i as int]));
        }
        i += 1;
    }
    assert(all.take(list.len() as int) =~= all);
    out
}

} // verus!
