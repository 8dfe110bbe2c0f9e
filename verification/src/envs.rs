//! The environment of a project: variables with their values, each
//! variable once.

use crate::text::{copy, same};
use vstd::prelude::*;

verus! {

/// A variable with its value, as mathematical values.
pub type Binding = (Seq<char>, Seq<char>);

/// Whether no variable occurs twice.
pub open spec fn keys_distinct(s: Seq<Binding>) -> bool {
    forall|i: int, j: int| 0 <= i < j < s.len() ==> (#[trigger] s[i]).0 != (#[trigger] s[j]).0
}

/// Whether position `i` holds the variable `key`.
pub open spec fn bound_at(s: Seq<Binding>, key: Seq<char>, i: int) -> bool {
    0 <= i < s.len() && s[i].0 == key
}

/// The bindings with `key` bound to `value`: in place of the binding that
/// `key` had, or, where it had none, behind the others.
pub open spec fn put(s: Seq<Binding>, key: Seq<char>, value: Seq<char>) -> Seq<Binding> {
    if exists|i: int| bound_at(s, key, i) {
        s.update(choose|i: int| bound_at(s, key, i), (key, value))
    } else {
        s.push((key, value))
    }
}

/// What a list of bindings comes to when they are put one after the other:
/// of two bindings of one variable the later one's value stays.
pub open spec fn collected(list: Seq<Binding>) -> Seq<Binding>
    decreases list.len(),
{
    if list.len() == 0 {
        Seq::empty()
    } else {
        put(collected(list.drop_last()), list.last().0, list.last().1)
    }
}

/// Putting a binding keeps every variable once.
pub proof fn lemma_put_keeps_distinct(s: Seq<Binding>, key: Seq<char>, value: Seq<char>)
    requires
        keys_distinct(s),
    ensures
        keys_distinct(put(s, key, value)),
{
    let out = put(s, key, value);
    if exists|i: int| bound_at(s, key, i) {
        let at = choose|i: int| bound_at(s, key, i);
        assert forall|i: int, j: int| 0 <= i < j < out.len() implies (#[trigger] out[i]).0 != (
        #[trigger] out[j]).0 by {
            assert(out[i].0 == s[i].0 && out[j].0 == s[j].0);
        }
    } else {
        assert forall|i: int, j: int| 0 <= i < j < out.len() implies (#[trigger] out[i]).0 != (
        #[trigger] out[j]).0 by {
            if j == s.len() {
                assert(!bound_at(s, key, i));
                assert(out[i] == s[i]);
            } else {
                assert(out[i] == s[i] && out[j] == s[j]);
            }
        }
    }
}

/// Where every variable occurs once, the position of a variable is the one
/// that `put` writes to.
proof fn lemma_put_at(s: Seq<Binding>, key: Seq<char>, value: Seq<char>, at: int)
    requires
        keys_distinct(s),
        bound_at(s, key, at),
    ensures
        put(s, key, value) == s.update(at, (key, value)),
{
    let k = choose|i: int| bound_at(s, key, i);
    assert(bound_at(s, key, k));
    if k < at {
        assert(s[k].0 != s[at].0);
    } else if at < k {
        assert(s[at].0 != s[k].0);
    }
}

/// The bindings with one more put.
fn put_pair(pairs: Vec<(String, String)>, key: String, value: String) -> (r: Vec<(String, String)>)
    requires
        keys_distinct(pairs.deep_view()),
    ensures
        r.deep_view() == put(pairs.deep_view(), key@, value@),
        keys_distinct(r.deep_view()),
{
    let ghost before = pairs.deep_view();
    let mut out = pairs;
    let mut i: usize = 0;
    while i < out.len()
        invariant
            i <= out.len(),
            out.deep_view() == before,
            before == pairs.deep_view(),
            keys_distinct(before),
            forall|k: int| 0 <= k < i ==> !bound_at(before, key@, k),
        decreases out.len() - i,
    {
        if same(&out[i].0, &key) {
            proof {
                assert(bound_at(before, key@, i as int));
                lemma_put_at(before, key@, value@, i as int);
                lemma_put_keeps_distinct(before, key@, value@);
            }
            out.set(i, (key, value));
            assert(out.deep_view() =~= before.update(i as int, (key@, value@)));
            return out;
        }
        i += 1;
    }
    proof {
        assert(!exists|k: int| bound_at(before, key@, k));
        lemma_put_keeps_distinct(before, key@, value@);
    }
    out.push((key, value));
    assert(out.deep_view() =~= before.push((key@, value@)));
    out
}

/// The variables that a project's command runs with, each variable once.
#[derive(Debug, PartialEq, Eq, Hash)]
pub struct Envs {
    pairs: Vec<(String, String)>,
}

impl View for Envs {
    type V = Seq<Binding>;

    closed spec fn view(&self) -> Seq<Binding> {
        self.pairs.deep_view()
    }
}

impl DeepView for Envs {
    type V = Seq<Binding>;

    open spec fn deep_view(&self) -> Seq<Binding> {
        self@
    }
}

impl Clone for Envs {
    /// A copy of the environment.
    fn clone(&self) -> (r: Envs)
        ensures
            r@ == self@,
    {
        self.duplicate()
    }
}

impl Envs {
    /// What every environment keeps: no variable is bound twice.
    #[verifier::type_invariant]
    spec fn each_variable_once(self) -> bool {
        keys_distinct(self.pairs.deep_view())
    }

    /// The environment without a variable.
    pub fn new() -> (r: Envs)
        ensures
            r@ == Seq::<Binding>::empty(),
    {
        let pairs: Vec<(String, String)> = Vec::new();
        assert(pairs.deep_view() =~= Seq::<Binding>::empty());
        Envs { pairs }
    }

    /// The environment with `key` bound to `value`, in place of what `key`
    /// was bound to before.
    pub fn with(self, key: String, value: String) -> (r: Envs)
        ensures
            r@ == put(self@, key@, value@),
            keys_distinct(r@),
    {
        proof {
            use_type_invariant(&self);
        }
        Envs { pairs: put_pair(self.pairs, key, value) }
    }

    /// The environment that the bindings of `list` make, put one after the
    /// other: of two bindings of one variable the later one's value stays.
    pub fn from_pairs(list: Vec<(String, String)>) -> (r: Envs)
        ensures
            r@ == collected(list.deep_view()),
            keys_distinct(r@),
    {
        let ghost all = list.deep_view();
        let mut pairs: Vec<(String, String)> = Vec::new();
        let mut i: usize = 0;
        assert(pairs.deep_view() =~= collected(all.take(0)));
        while i < list.len()
            invariant
                i <= list.len(),
                all == list.deep_view(),
                pairs.deep_view() == collected(all.take(i as int)),
                keys_distinct(pairs.deep_view()),
            decreases list.len() - i,
        {
            proof {
                assert(all.take(i as int + 1).drop_last() =~= all.take(i as int));
                assert(all.take(i as int + 1).last() == all[i as int]);
            }
            pairs = put_pair(pairs, copy(&list[i].0), copy(&list[i].1));
            i += 1;
        }
        assert(all.take(list.len() as int) =~= all);
        Envs { pairs }
    }

    /// The bindings, in their order; no two of them bind one variable.
    pub fn pairs(&self) -> (r: Vec<(String, String)>)
        ensures
            r.deep_view() == self@,
            keys_distinct(self@),
    {
        proof {
            use_type_invariant(self);
        }
        let mut out: Vec<(String, String)> = Vec::new();
        let mut i: usize = 0;
        while i < self.pairs.len()
            invariant
                i <= self.pairs.len(),
                out.len() == i,
                forall|k: int| 0 <= k < i ==> out[k].deep_view() == self.pairs[k].deep_view(),
            decreases self.pairs.len() - i,
        {
            out.push((copy(&self.pairs[i].0), copy(&self.pairs[i].1)));
            i += 1;
        }
        assert(out.deep_view() =~= self.pairs.deep_view());
        out
    }

    /// A copy of the environment.
    pub fn duplicate(&self) -> (r: Envs)
        ensures
            r@ == self@,
    {
        let pairs = self.pairs();
        Envs { pairs }
    }
}

} // verus!
