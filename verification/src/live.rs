//! Queries on the list of live instances.

use crate::pick::{any, first, lemma_first_at, lemma_first_none};
use crate::project::{Project, RunningProject, RunningView};
use crate::text::{contains, same};
use vstd::prelude::*;

verus! {

/// Whether an instance called `name` is live.
pub open spec fn is_live(live: Seq<RunningView>, name: Seq<char>) -> bool {
    any(live, |r: RunningView| r.project.name == name)
}

/// The first live instance that is called `name`.
pub open spec fn live_named(live: Seq<RunningView>, name: Seq<char>) -> Option<RunningView> {
    first(live, |r: RunningView| r.project.name == name)
}

/// The live instances that carry the group tag, in their order.
pub open spec fn live_members(live: Seq<RunningView>, tag: Seq<char>) -> Seq<RunningView> {
    live.filter(|r: RunningView| r.project.in_group(tag))
}

/// The first live instance called `name`, if there is one.
pub fn find_running(name: &String, live: &Vec<RunningProject>) -> (r: Option<RunningProject>)
    ensures
        r.deep_view() == live_named(live.deep_view(), name@),
        r is Some <==> is_live(live.deep_view(), name@),
{
    let ghost all = live.deep_view();
    let ghost pred = |r: RunningView| r.project.name == name@;
    let mut i: usize = 0;
    while i < live.len()
        invariant
            i <= live.len(),
            all == live.deep_view(),
            pred == |r: RunningView| r.project.name == name@,
            forall|j: int| 0 <= j < i ==> !pred(#[trigger] all[j]),
        decreases live.len() - i,
    {
        if same(&live[i].name, name) {
            proof {
                assert(pred(all[i as int]));
                lemma_first_at(all, pred, i as int);
            }
            return Some(live[i].duplicate());
        }
        assert(!pred(all[i as int]));
        i += 1;
    }
    proof {
        lemma_first_none(all, pred);
    }
    None
}

/// The live instances that carry the group tag, in their order.
pub fn running_members(tag: &String, live: &Vec<RunningProject>) -> (r: Vec<RunningProject>)
    ensures
        r.deep_view() == live_members(live.deep_view(), tag@),
{
    let ghost all = live.deep_view();
    let ghost pred = |r: RunningView| r.project.in_group(tag@);
    let mut out: Vec<RunningProject> = Vec::new();
    let mut i: usize = 0;
    proof {
        reveal(Seq::filter);
        assert(all.take(0).filter(pred) =~= out.deep_view());
    }
    while i < live.len()
        invariant
            i <= live.len(),
            all == live.deep_view(),
            pred == |r: RunningView| r.project.in_group(tag@),
            out.deep_view() == all.take(i as int).filter(pred),
        decreases live.len() - i,
    {
        let tagged = match &live[i].group {
            Some(g) => contains(g, tag),
            None => false,
        };
        proof {
            reveal(Seq::filter);
            assert(all.take(i as int + 1).drop_last() =~= all.take(i as int));
            assert(all.take(i as int + 1).last() == all[i as int]);
            assert(tagged == pred(all[i as int]));
        }
        let ghost before = out.deep_view();
        if tagged {
            out.push(live[i].duplicate());
            assert(out.deep_view() =~= before.push(all[i as int]));
        }
        i += 1;
    }
    assert(all.take(live.len() as int) =~= all);
    out
}

impl Project {
    /// Whether an instance of this project is among the live ones.
    pub fn is_running(&self, live: &Vec<RunningProject>) -> (r: bool)
        ensures
            r == is_live(live.deep_view(), self@.name),
    {
        find_running(&self.name, live).is_some()
    }
}

impl RunningProject {
    /// Whether the instance's process group is among those that the
    /// platform found to have live members.
    pub fn is_running(&self, alive: &Vec<i32>) -> (r: bool)
        ensures
            r == alive@.contains(self.pid),
    {
        let mut i: usize = 0;
        while i < alive.len()
            invariant
                i <= alive.len(),
                forall|k: int| 0 <= k < i ==> alive@[k] != self.pid,
            decreases alive.len() - i,
        {
            if alive[i] == self.pid {
                return true;
            }
            i += 1;
        }
        false
    }
}

} // verus!
