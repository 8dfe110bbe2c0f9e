//! What holds of the supervisor's decisions, whatever the catalog, the
//! registry and the command.

use crate::catalog::{members, named, names, names_unique};
use crate::config::{
    handles_of, idle_part, live_of, running_part, stale_named, stale_of, EntryView, Verdict,
};
use crate::control::{
    STOP_TIMEOUT_MS, StopRequest, StopStatusView, already_running_reports, launch_all, live_names,
    restart_step, run_plan, start_plan, stop_requests, stop_status,
};
use crate::live::{is_live, live_named};
use crate::pick::{
    lemma_distinct_by, lemma_filter_map_all, lemma_filter_map_has, lemma_filter_map_nothing,
    lemma_filter_members, lemma_filter_nothing, lemma_first_at, lemma_first_is_member,
};
use crate::plan::{
    covers, dependencies_first, distinct_names, lemma_contains_add, lemma_names_contains,
    lemma_plan_deps, plan_deps, plan_start, StartFault,
};
use crate::project::{ProjectView, RunningView};
use crate::record::{lemma_record_name_key, record_key, record_name};
use crate::report::{already_running_text, unknown_text};
use crate::resolve::{
    distinct_instances, distinct_projects, expand, expand_all, expand_all_running, expand_running,
    idle_report, idle_reports,
};
use vstd::prelude::*;

verus! {

/// An instance called `name` is live where the names of the live instances
/// hold `name`.
pub proof fn lemma_live_names(live: Seq<RunningView>, name: Seq<char>)
    ensures
        is_live(live, name) <==> live_names(live).contains(name),
{
    if is_live(live, name) {
        let i = choose|i: int| 0 <= i < live.len() && (#[trigger] live[i]).project.name == name;
        assert(live_names(live)[i] == name);
    }
    if live_names(live).contains(name) {
        let i = choose|i: int| 0 <= i < live.len() && live_names(live)[i] == name;
        assert(live[i].project.name == name);
    }
}

/// Whether no project of `order` is named in `done`.
pub open spec fn untouched(order: Seq<ProjectView>, done: Seq<Seq<char>>) -> bool {
    forall|j: int| 0 <= j < order.len() ==> !done.contains((#[trigger] order[j]).name)
}

/// What starting one project launches: the project last, before it its
/// dependencies that were not started, nothing that was started, nothing twice.
pub proof fn lemma_plan_start(cat: Seq<ProjectView>, t: ProjectView, done: Seq<Seq<char>>)
    requires
        plan_start(cat, t, done) is Ok,
        !done.contains(t.name),
    ensures
        plan_start(cat, t, done)->Ok_0.len() > 0,
        plan_start(cat, t, done)->Ok_0.last() == t,
        untouched(plan_start(cat, t, done)->Ok_0, done),
        distinct_names(plan_start(cat, t, done)->Ok_0),
        dependencies_first(plan_start(cat, t, done)->Ok_0, done),
{
    let path = seq![t.name];
    let sub = plan_deps(cat, t.deps(), done, path)->Ok_0;
    let order = sub.push(t);
    lemma_plan_deps(cat, t.deps(), done, path);
    assert(path[0] == t.name);
    assert(path.contains(t.name));
    assert forall|j: int| 0 <= j < order.len() implies !done.contains(
        (#[trigger] order[j]).name,
    ) by {
        if j < sub.len() {
            assert(order[j] == sub[j]);
        }
    }
    assert forall|i: int, j: int| 0 <= i < j < order.len() implies (#[trigger] order[i]).name
        != (#[trigger] order[j]).name by {
        assert(order[i] == sub[i]);
        if j < sub.len() {
            assert(order[j] == sub[j]);
        }
    }
    assert forall|j: int| 0 <= j < order.len() implies covers(
        order.take(j),
        done,
        (#[trigger] order[j]).deps(),
    ) by {
        if j < sub.len() {
            assert(order[j] == sub[j]);
            assert(order.take(j) =~= sub.take(j));
        } else {
            assert(order.take(j) =~= sub);
        }
    }
}

/// What a start of several targets launches: nothing that was started
/// before, nothing twice, each project after its dependencies; and, where no
/// target has a fault, every target.
pub proof fn lemma_launch_all(cat: Seq<ProjectView>, done: Seq<Seq<char>>, idle: Seq<ProjectView>)
    ensures
        untouched(launch_all(cat, done, idle).0, done),
        distinct_names(launch_all(cat, done, idle).0),
        dependencies_first(launch_all(cat, done, idle).0, done),
        launch_all(cat, done, idle).1.len() == 0 ==> forall|i: int|
            0 <= i < idle.len() ==> (done + names(launch_all(cat, done, idle).0)).contains(
                (#[trigger] idle[i]).name,
            ),
    decreases idle.len(),
{
    if idle.len() == 0 {
        return ;
    }
    let prev = launch_all(cat, done, idle.drop_last());
    let out = launch_all(cat, done, idle);
    let t = idle.last();
    let seen = done + names(prev.0);
    lemma_launch_all(cat, done, idle.drop_last());
    if seen.contains(t.name) {
        assert(out == prev);
        if out.1.len() == 0 {
            assert forall|i: int| 0 <= i < idle.len() implies (done + names(out.0)).contains(
                (#[trigger] idle[i]).name,
            ) by {
                if i < idle.len() - 1 {
                    assert(idle[i] == idle.drop_last()[i]);
                }
            }
        }
        return ;
    }
    match plan_start(cat, t, seen) {
        Err(e) => {
            assert(out.0 == prev.0);
            assert(out.1.len() > 0);
        },
        Ok(order) => {
            lemma_plan_start(cat, t, seen);
            let all = prev.0 + order;
            let n = prev.0.len() as int;
            assert(out.0 == all);
            assert(names(all) =~= names(prev.0) + names(order));
            assert forall|j: int| 0 <= j < all.len() implies !done.contains(
                (#[trigger] all[j]).name,
            ) by {
                if j < n {
                    assert(all[j] == prev.0[j]);
                } else {
                    assert(all[j] == order[j - n]);
                    lemma_contains_add(done, names(prev.0), order[j - n].name);
                }
            }
            assert forall|i: int, j: int| 0 <= i < j < all.len() implies (#[trigger] all[i]).name
                != (#[trigger] all[j]).name by {
                if j < n {
                    assert(all[i] == prev.0[i] && all[j] == prev.0[j]);
                } else if i < n {
                    assert(all[i] == prev.0[i]);
                    assert(all[j] == order[j - n]);
                    assert(names(prev.0)[i] == prev.0[i].name);
                    lemma_contains_add(done, names(prev.0), order[j - n].name);
                } else {
                    assert(all[i] == order[i - n] && all[j] == order[j - n]);
                }
            }
            assert forall|j: int| 0 <= j < all.len() implies covers(
                all.take(j),
                done,
                (#[trigger] all[j]).deps(),
            ) by {
                if j < n {
                    assert(all[j] == prev.0[j]);
                    assert(all.take(j) =~= prev.0.take(j));
                } else {
                    let k = j - n;
                    assert(all[j] == order[k]);
                    assert(covers(order.take(k), seen, order[k].deps()));
                    assert(all.take(j) =~= prev.0 + order.take(k));
                    assert(names(prev.0 + order.take(k)) =~= names(prev.0) + names(order.take(k)));
                    assert(seen + names(order.take(k)) =~= done + names(all.take(j)));
                }
            }
            if out.1.len() == 0 {
                assert forall|i: int| 0 <= i < idle.len() implies (done + names(all)).contains(
                    (#[trigger] idle[i]).name,
                ) by {
                    if i < idle.len() - 1 {
                        assert(idle[i] == idle.drop_last()[i]);
                        lemma_contains_add(done, names(prev.0), idle[i].name);
                        lemma_contains_add(names(prev.0), names(order), idle[i].name);
                        lemma_contains_add(done, names(all), idle[i].name);
                    } else {
                        assert(order[order.len() - 1] == t);
                        assert(names(order)[order.len() - 1] == t.name);
                        lemma_contains_add(names(prev.0), names(order), t.name);
                        lemma_contains_add(done, names(all), t.name);
                    }
                }
            }
        },
    }
}

/// Starting what runs changes nothing. A start detaches no project that has
/// a live instance, and reports each target that has one; where every target
/// is live, it detaches nothing at all and gives one report for each target.
pub proof fn law_start_is_idempotent(
    cat: Seq<ProjectView>,
    live: Seq<RunningView>,
    targets: Seq<ProjectView>,
)
    ensures
        forall|j: int|
            0 <= j < start_plan(cat, live, targets).launches.len() ==> !is_live(
                live,
                (#[trigger] start_plan(cat, live, targets).launches[j]).name,
            ),
        forall|i: int|
            0 <= i < targets.len() && is_live(live, (#[trigger] targets[i]).name) ==> start_plan(
                cat,
                live,
                targets,
            ).diagnostics.contains(
                already_running_text(live_named(live, targets[i].name)->0.project.label()),
            ),
        (forall|i: int| 0 <= i < targets.len() ==> is_live(live, (#[trigger] targets[i]).name)) ==> {
            &&& start_plan(cat, live, targets).launches.len() == 0
            &&& start_plan(cat, live, targets).failures.len() == 0
            &&& start_plan(cat, live, targets).diagnostics.len() == targets.len()
        },
{
    let plan = start_plan(cat, live, targets);
    let idle = idle_part(live, targets);
    let found = running_part(live, targets);
    let f = |t: ProjectView| live_named(live, t.name);
    lemma_launch_all(cat, live_names(live), idle);
    assert forall|j: int| 0 <= j < plan.launches.len() implies !is_live(
        live,
        (#[trigger] plan.launches[j]).name,
    ) by {
        lemma_live_names(live, plan.launches[j].name);
    }
    assert forall|i: int|
        0 <= i < targets.len() && is_live(live, (#[trigger] targets[i]).name) implies plan.diagnostics.contains(
        already_running_text(live_named(live, targets[i].name)->0.project.label()),
    ) by {
        assert(f(targets[i]) is Some);
        lemma_filter_map_has(targets, f, i);
        let r = live_named(live, targets[i].name)->0;
        let k = choose|k: int| 0 <= k < found.len() && found[k] == r;
        assert(already_running_reports(found)[k] == already_running_text(r.project.label()));
    }
    if forall|i: int| 0 <= i < targets.len() ==> is_live(live, (#[trigger] targets[i]).name) {
        let pred = |t: ProjectView| !is_live(live, t.name);
        assert forall|i: int| 0 <= i < targets.len() implies !pred(#[trigger] targets[i]) by {}
        lemma_filter_nothing(targets, pred);
        assert forall|i: int| 0 <= i < targets.len() implies f(#[trigger] targets[i]) is Some by {
            assert(is_live(live, targets[i].name));
        }
        lemma_filter_map_all(targets, f);
    }
}

/// A start detaches nothing twice, and each project after what it depends
/// on: every dependency of a detached project is live already or detached
/// earlier by the same start.
pub proof fn law_dependencies_start_first(
    cat: Seq<ProjectView>,
    live: Seq<RunningView>,
    targets: Seq<ProjectView>,
)
    ensures
        distinct_names(start_plan(cat, live, targets).launches),
        dependencies_first(start_plan(cat, live, targets).launches, live_names(live)),
{
    lemma_launch_all(cat, live_names(live), idle_part(live, targets));
}

/// Where no target has a fault, a start detaches every target that is not live.
pub proof fn law_start_reaches_targets(
    cat: Seq<ProjectView>,
    live: Seq<RunningView>,
    targets: Seq<ProjectView>,
)
    requires
        start_plan(cat, live, targets).failures.len() == 0,
    ensures
        forall|i: int|
            0 <= i < targets.len() && !is_live(live, (#[trigger] targets[i]).name) ==> names(
                start_plan(cat, live, targets).launches,
            ).contains(targets[i].name),
{
    let plan = start_plan(cat, live, targets);
    let idle = idle_part(live, targets);
    let pred = |t: ProjectView| !is_live(live, t.name);
    lemma_launch_all(cat, live_names(live), idle);
    assert forall|i: int|
        0 <= i < targets.len() && !is_live(live, (#[trigger] targets[i]).name) implies names(
        plan.launches,
    ).contains(targets[i].name) by {
        lemma_filter_members(targets, pred, targets[i]);
        assert(targets.contains(targets[i]));
        let k = choose|k: int| 0 <= k < idle.len() && idle[k] == targets[i];
        assert((live_names(live) + names(plan.launches)).contains(idle[k].name));
        lemma_contains_add(live_names(live), names(plan.launches), targets[i].name);
        lemma_live_names(live, targets[i].name);
    }
}

/// A token that is a group tag names the group: exactly the projects of the
/// catalog that carry the tag, whether or not a project has the token as its name.
pub proof fn law_group_expansion(cat: Seq<ProjectView>, token: Seq<char>, p: ProjectView)
    requires
        members(cat, token).len() > 0,
    ensures
        expand(cat, token) == Some(members(cat, token)),
        members(cat, token).contains(p) <==> cat.contains(p) && p.in_group(token),
{
    lemma_filter_members(cat, |q: ProjectView| q.in_group(token), p);
}

/// A stop of what does not run changes nothing. A token that names no live
/// instance gives a report and no instance; and a stop of no instance sends
/// no signal and is over at once.
pub proof fn law_stop_of_idle_token(
    cat: Seq<ProjectView>,
    live: Seq<RunningView>,
    token: Seq<char>,
    elapsed_ms: u64,
)
    requires
        expand_running(live, token) is None,
    ensures
        distinct_instances(expand_all_running(live, seq![token])) == Seq::<RunningView>::empty(),
        idle_reports(cat, live, seq![token]) == seq![idle_report(cat, token)],
        named(cat, token) is None ==> idle_report(cat, token) == unknown_text(token),
        stop_requests(Seq::<RunningView>::empty()) == Seq::<StopRequest>::empty(),
        stop_status(live, Seq::<ProjectView>::empty(), elapsed_ms) == StopStatusView::Stopped,
{
    let tokens = seq![token];
    assert(tokens.drop_last() =~= Seq::<Seq<char>>::empty());
    assert(expand_all_running(live, tokens.drop_last()) =~= Seq::<RunningView>::empty());
    assert(expand_all_running(live, tokens) =~= Seq::<RunningView>::empty());
    assert(idle_reports(cat, live, tokens.drop_last()) =~= Seq::<Seq<char>>::empty());
    assert(idle_reports(cat, live, tokens) =~= seq![idle_report(cat, token)]);
    assert(stop_requests(Seq::<RunningView>::empty()) =~= Seq::<StopRequest>::empty());
}

/// A stop is complete where the processes heed the signal. A record whose
/// process group has no live member is stale, so that the read deletes it,
/// and every instance that the read gives has a live process group; and once
/// no target is live, the stop is over, whatever the time.
pub proof fn law_stop_completeness(
    entries: Seq<EntryView>,
    alive: Seq<i32>,
    i: int,
    targets: Seq<ProjectView>,
    elapsed_ms: u64,
)
    requires
        0 <= i < entries.len(),
        entries[i].handle() is Some,
        !alive.contains(entries[i].handle()->0),
    ensures
        stale_of(entries, alive).contains(entries[i].file_name),
        forall|k: int|
            0 <= k < live_of(entries, alive).len() ==> alive.contains(
                (#[trigger] live_of(entries, alive)[k]).pid,
            ),
        (forall|k: int|
            0 <= k < targets.len() ==> !is_live(
                live_of(entries, alive),
                (#[trigger] targets[k]).name,
            )) ==> stop_status(live_of(entries, alive), targets, elapsed_ms)
            == StopStatusView::Stopped,
{
    let fs = |e: EntryView|
        match e.verdict(alive) {
            Verdict::Stale => Some(e.file_name),
            _ => None,
        };
    let fl = |e: EntryView|
        match e.verdict(alive) {
            Verdict::Live(r) => Some(r),
            _ => None,
        };
    assert(entries[i].verdict(alive) is Stale);
    assert(fs(entries[i]) == Some(entries[i].file_name));
    lemma_filter_map_has(entries, fs, i);
    let now = live_of(entries, alive);
    assert forall|k: int| 0 <= k < now.len() implies alive.contains((#[trigger] now[k]).pid) by {
        assert(now.contains(now[k]));
        entries.lemma_filter_map_contains(fl, now[k]);
        let e = choose|e: EntryView| #[trigger] entries.contains(e) && fl(e) == Some(now[k]);
        assert(e.verdict(alive) == Verdict::Live(now[k]));
    }
    if forall|k: int| 0 <= k < targets.len() ==> !is_live(now, (#[trigger] targets[k]).name) {
        let f = |t: ProjectView| live_named(now, t.name);
        assert forall|k: int| 0 <= k < targets.len() implies f(#[trigger] targets[k]) is None by {
            assert(!is_live(now, targets[k].name));
        }
        lemma_filter_map_nothing(targets, f);
    }
}

/// A stop is over exactly when no target is live.
pub proof fn law_stop_is_confirmed(
    live: Seq<RunningView>,
    targets: Seq<ProjectView>,
    elapsed_ms: u64,
)
    ensures
        stop_status(live, targets, elapsed_ms) == StopStatusView::Stopped <==> forall|k: int|
            0 <= k < targets.len() ==> !is_live(live, (#[trigger] targets[k]).name),
        stop_status(live, targets, elapsed_ms) is TimedOut ==> elapsed_ms >= STOP_TIMEOUT_MS,
{
    let f = |t: ProjectView| live_named(live, t.name);
    if forall|k: int| 0 <= k < targets.len() ==> !is_live(live, (#[trigger] targets[k]).name) {
        assert forall|k: int| 0 <= k < targets.len() implies f(#[trigger] targets[k]) is None by {
            assert(!is_live(live, targets[k].name));
        }
        lemma_filter_map_nothing(targets, f);
    } else {
        let k = choose|k: int| 0 <= k < targets.len() && is_live(live, (#[trigger] targets[k]).name);
        assert(f(targets[k]) is Some);
        lemma_filter_map_has(targets, f, k);
    }
}

/// The signals of a stop go to the targets' process groups and to no other:
/// the instances that a target depends on get none, unless they are targets.
pub proof fn law_stop_spares_others(instances: Seq<RunningView>, handle: i32)
    ensures
        stop_requests(instances).len() == instances.len(),
        (exists|k: int|
            0 <= k < instances.len() && (#[trigger] stop_requests(instances)[k]).handle == handle)
            <==> (exists|k: int| 0 <= k < instances.len() && (#[trigger] instances[k]).pid == handle),
{
    let requests = stop_requests(instances);
    if exists|k: int| 0 <= k < instances.len() && (#[trigger] requests[k]).handle == handle {
        let k = choose|k: int| 0 <= k < instances.len() && (#[trigger] requests[k]).handle == handle;
        assert(instances[k].pid == handle);
    }
    if exists|k: int| 0 <= k < instances.len() && (#[trigger] instances[k]).pid == handle {
        let k = choose|k: int| 0 <= k < instances.len() && (#[trigger] instances[k]).pid == handle;
        assert(requests[k].handle == handle);
    }
}

/// A restart cycles its targets and nothing else. Once the stop is over, it
/// starts the targets as a start would: it detaches nothing that is live, so
/// that a dependency that runs keeps its instance and its handle; and where
/// no target has a fault, it detaches every target that is not live any more.
pub proof fn law_restart_scope(
    cat: Seq<ProjectView>,
    live: Seq<RunningView>,
    targets: Seq<ProjectView>,
    elapsed_ms: u64,
)
    requires
        restart_step(cat, live, targets, elapsed_ms) is Start,
    ensures
        restart_step(cat, live, targets, elapsed_ms)->plan == start_plan(cat, live, targets),
        forall|j: int|
            0 <= j < start_plan(cat, live, targets).launches.len() ==> !is_live(
                live,
                (#[trigger] start_plan(cat, live, targets).launches[j]).name,
            ),
        start_plan(cat, live, targets).failures.len() == 0 ==> forall|i: int|
            0 <= i < targets.len() && !is_live(live, (#[trigger] targets[i]).name) ==> names(
                start_plan(cat, live, targets).launches,
            ).contains(targets[i].name),
{
    law_start_is_idempotent(cat, live, targets);
    if start_plan(cat, live, targets).failures.len() == 0 {
        law_start_reaches_targets(cat, live, targets);
    }
}

/// Starting what is started launches nothing: for a project whose name is
/// among those started, no project is detached and no record is asked for.
pub proof fn law_started_is_not_started_again(
    cat: Seq<ProjectView>,
    p: ProjectView,
    done: Seq<Seq<char>>,
)
    requires
        done.contains(p.name),
    ensures
        plan_start(cat, p, done) == Ok::<Seq<ProjectView>, StartFault>(Seq::empty()),
{
}

/// Starting a project brings up what it depends on: where the start of `p`
/// is planned, each dependency of `p` is started already or is detached
/// before `p`, which comes last.
pub proof fn law_start_cascades(cat: Seq<ProjectView>, p: ProjectView, done: Seq<Seq<char>>)
    requires
        plan_start(cat, p, done) is Ok,
        !done.contains(p.name),
    ensures
        plan_start(cat, p, done)->Ok_0.last() == p,
        covers(plan_start(cat, p, done)->Ok_0.drop_last(), done, p.deps()),
{
    let sub = plan_deps(cat, p.deps(), done, seq![p.name])->Ok_0;
    lemma_plan_deps(cat, p.deps(), done, seq![p.name]);
    assert(sub.push(p).drop_last() =~= sub);
}

/// A run in the foreground detaches its target never: what `run` detaches
/// holds no project with the target's name, and the project that it runs in
/// the foreground is the target.
pub proof fn law_run_is_foreground(cat: Seq<ProjectView>, live: Seq<RunningView>, p: ProjectView)
    requires
        run_plan(cat, live, p) is Ok,
    ensures
        run_plan(cat, live, p)->Ok_0.1 == p,
        !names(run_plan(cat, live, p)->Ok_0.0).contains(p.name),
        forall|j: int|
            0 <= j < run_plan(cat, live, p)->Ok_0.0.len() ==> !is_live(
                live,
                (#[trigger] run_plan(cat, live, p)->Ok_0.0[j]).name,
            ),
{
    let path = seq![p.name];
    let order = plan_deps(cat, p.deps(), live_names(live), path)->Ok_0;
    lemma_plan_deps(cat, p.deps(), live_names(live), path);
    assert(path[0] == p.name);
    lemma_names_contains(order, p.name);
    if names(order).contains(p.name) {
        let j = choose|j: int| 0 <= j < order.len() && (#[trigger] order[j]).name == p.name;
        assert(path.contains(order[j].name));
    }
    assert forall|j: int| 0 <= j < order.len() implies !is_live(live, (#[trigger] order[j]).name) by {
        lemma_live_names(live, order[j].name);
    }
}

/// A record that was written is found again: the read of a registry that
/// holds the record of `p` under a handle with live members gives that instance.
pub proof fn law_record_is_visible(
    entries: Seq<EntryView>,
    alive: Seq<i32>,
    p: ProjectView,
    pid: i32,
    i: int,
)
    requires
        0 <= i < entries.len(),
        entries[i] == (EntryView { file_name: record_name(p.name, pid), body: Some(p) }),
        pid >= 0,
        alive.contains(pid),
    ensures
        live_of(entries, alive).contains(RunningView { project: p, pid }),
        is_live(live_of(entries, alive), p.name),
{
    let fl = |e: EntryView|
        match e.verdict(alive) {
            Verdict::Live(r) => Some(r),
            _ => None,
        };
    lemma_record_name_key(p.name, pid);
    assert(entries[i].verdict(alive) == Verdict::Live(RunningView { project: p, pid }));
    lemma_filter_map_has(entries, fl, i);
    let now = live_of(entries, alive);
    let k = choose|k: int| 0 <= k < now.len() && now[k] == (RunningView { project: p, pid });
    assert(now[k].project.name == p.name);
}

/// In a catalog whose names are unique, every project is found by its name.
pub proof fn law_lookup_finds_each(cat: Seq<ProjectView>, i: int)
    requires
        names_unique(cat),
        0 <= i < cat.len(),
    ensures
        named(cat, cat[i].name) == Some(cat[i]),
{
    let pred = |p: ProjectView| p.name == cat[i].name;
    assert(pred(cat[i]));
    assert forall|j: int| 0 <= j < i implies !pred(#[trigger] cat[j]) by {
        assert(cat[j].name != cat[i].name);
    }
    lemma_first_at(cat, pred, i);
}

/// What a token names are projects of the catalog.
pub proof fn lemma_expand_in_catalog(cat: Seq<ProjectView>, token: Seq<char>, p: ProjectView)
    requires
        expand(cat, token) is Some,
        expand(cat, token)->0.contains(p),
    ensures
        cat.contains(p),
{
    if members(cat, token).len() > 0 {
        lemma_filter_members(cat, |q: ProjectView| q.in_group(token), p);
    } else {
        lemma_first_is_member(cat, |q: ProjectView| q.name == token);
        let one = expand(cat, token)->0;
        let k = choose|k: int| 0 <= k < one.len() && one[k] == p;
        assert(one[0] == p);
    }
}

/// What the tokens name are projects of the catalog.
pub proof fn lemma_expand_all_in_catalog(
    cat: Seq<ProjectView>,
    tokens: Seq<Seq<char>>,
    p: ProjectView,
)
    requires
        expand_all(cat, tokens).contains(p),
    ensures
        cat.contains(p),
    decreases tokens.len(),
{
    if tokens.len() == 0 {
        return ;
    }
    let before = expand_all(cat, tokens.drop_last());
    let last = match expand(cat, tokens.last()) {
        Some(ps) => ps,
        None => Seq::empty(),
    };
    let all = expand_all(cat, tokens);
    let k = choose|k: int| 0 <= k < all.len() && all[k] == p;
    if k < before.len() {
        assert(before[k] == p);
        lemma_expand_all_in_catalog(cat, tokens.drop_last(), p);
    } else {
        assert(last[k - before.len()] == p);
        lemma_expand_in_catalog(cat, tokens.last(), p);
    }
}

/// The targets of a command are a set. Whatever the tokens, no two of the
/// projects that they resolve to share a name, each is a project of the
/// catalog, and each project that a token names is among them by its name.
/// In a catalog whose names are unique, a name stands for one project, so
/// that nothing is lost where one of two namesakes goes.
pub proof fn law_targets_are_a_set(cat: Seq<ProjectView>, tokens: Seq<Seq<char>>)
    ensures
        distinct_names(distinct_projects(expand_all(cat, tokens))),
        forall|i: int|
            0 <= i < distinct_projects(expand_all(cat, tokens)).len() ==> cat.contains(
                #[trigger] distinct_projects(expand_all(cat, tokens))[i],
            ),
        forall|i: int|
            0 <= i < expand_all(cat, tokens).len() ==> names(
                distinct_projects(expand_all(cat, tokens)),
            ).contains((#[trigger] expand_all(cat, tokens)[i]).name),
        names_unique(cat) ==> forall|i: int|
            0 <= i < expand_all(cat, tokens).len() ==> distinct_projects(
                expand_all(cat, tokens),
            ).contains(#[trigger] expand_all(cat, tokens)[i]),
{
    let all = expand_all(cat, tokens);
    let key = |p: ProjectView| p.name;
    let kept = distinct_projects(all);
    lemma_distinct_by(all, key);
    assert forall|i: int, j: int| 0 <= i < j < kept.len() implies (#[trigger] kept[i]).name != (
    #[trigger] kept[j]).name by {
        assert(key(kept[i]) != key(kept[j]));
    }
    assert forall|i: int| 0 <= i < kept.len() implies cat.contains(#[trigger] kept[i]) by {
        assert(all.contains(kept[i]));
        lemma_expand_all_in_catalog(cat, tokens, kept[i]);
    }
    assert forall|i: int| 0 <= i < all.len() implies names(kept).contains(
        (#[trigger] all[i]).name,
    ) by {
        let j = choose|j: int| 0 <= j < kept.len() && key(#[trigger] kept[j]) == key(all[i]);
        assert(names(kept)[j] == all[i].name);
    }
    if names_unique(cat) {
        assert forall|i: int| 0 <= i < all.len() implies kept.contains(#[trigger] all[i]) by {
            let j = choose|j: int| 0 <= j < kept.len() && key(#[trigger] kept[j]) == key(all[i]);
            assert(all.contains(all[i]));
            lemma_expand_all_in_catalog(cat, tokens, all[i]);
            assert(all.contains(kept[j]));
            lemma_expand_all_in_catalog(cat, tokens, kept[j]);
            let a = choose|a: int| 0 <= a < cat.len() && cat[a] == all[i];
            let b = choose|b: int| 0 <= b < cat.len() && cat[b] == kept[j];
            assert(cat[a].name == cat[b].name);
            assert(a == b);
        }
    }
}

/// A start keeps one instance for each name: where no two live instances
/// share a name, neither do the live instances together with what a start
/// detaches.
pub proof fn law_one_instance_per_name(
    cat: Seq<ProjectView>,
    live: Seq<RunningView>,
    targets: Seq<ProjectView>,
)
    requires
        live_names(live).no_duplicates(),
    ensures
        (live_names(live) + names(start_plan(cat, live, targets).launches)).no_duplicates(),
{
    let done = live_names(live);
    let launches = start_plan(cat, live, targets).launches;
    let all = done + names(launches);
    lemma_launch_all(cat, done, idle_part(live, targets));
    assert forall|i: int, j: int| 0 <= i < all.len() && 0 <= j < all.len() && i != j implies all[i]
        != all[j] by {
        let n = done.len() as int;
        if i < n && j < n {
            assert(done[i] != done[j]);
        } else if i < n {
            assert(all[j] == launches[j - n].name);
            assert(done[i] == all[i]);
            assert(done.contains(all[i]));
        } else if j < n {
            assert(all[i] == launches[i - n].name);
            assert(done[j] == all[j]);
            assert(done.contains(all[j]));
        } else {
            assert(all[i] == launches[i - n].name);
            assert(all[j] == launches[j - n].name);
            if i < j {
                assert(launches[i - n].name != launches[j - n].name);
            } else {
                assert(launches[j - n].name != launches[i - n].name);
            }
        }
    }
}

/// The files that a read leaves: the records of the live instances.
pub open spec fn kept_by_read(entries: Seq<EntryView>, alive: Seq<i32>) -> Seq<EntryView> {
    entries.filter(|e: EntryView| e.verdict(alive) is Live)
}

/// A read settles the registry. Once the stale files of a read are deleted,
/// a second read, while the same process groups are alive, gives the same
/// live instances and finds nothing stale.
pub proof fn law_read_settles(entries: Seq<EntryView>, alive: Seq<i32>)
    ensures
        live_of(kept_by_read(entries, alive), alive) == live_of(entries, alive),
        stale_of(kept_by_read(entries, alive), alive) == Seq::<Seq<char>>::empty(),
    decreases entries.len(),
{
    reveal(Seq::filter);
    if entries.len() == 0 {
        return ;
    }
    let rest = entries.drop_last();
    let last = entries.last();
    law_read_settles(rest, alive);
    let kept = kept_by_read(entries, alive);
    let kept_rest = kept_by_read(rest, alive);
    if last.verdict(alive) is Live {
        assert(kept == kept_rest.push(last));
        assert(kept.drop_last() =~= kept_rest);
        assert(kept.last() == last);
    } else {
        assert(kept == kept_rest);
    }
}

/// It is enough to ask the platform about the handles that the file names
/// hold: every instance that a read gives has its handle among them, and
/// among the handles that are alive.
pub proof fn law_asked_handles_suffice(entries: Seq<EntryView>, alive: Seq<i32>, k: int)
    requires
        0 <= k < live_of(entries, alive).len(),
    ensures
        handles_of(entries).contains(live_of(entries, alive)[k].pid),
        alive.contains(live_of(entries, alive)[k].pid),
{
    let fl = |e: EntryView|
        match e.verdict(alive) {
            Verdict::Live(r) => Some(r),
            _ => None,
        };
    let fh = |e: EntryView| e.handle();
    let r = live_of(entries, alive)[k];
    assert(live_of(entries, alive).contains(r));
    entries.lemma_filter_map_contains(fl, r);
    let e = choose|e: EntryView| #[trigger] entries.contains(e) && fl(e) == Some(r);
    assert(e.verdict(alive) == Verdict::Live(r));
    assert(e.handle() == Some(r.pid));
    let i = choose|i: int| 0 <= i < entries.len() && entries[i] == e;
    lemma_filter_map_has(entries, fh, i);
}

/// A restart changes the handle of what it cycles. Where the old process
/// group of an instance has no live member any more, no instance that a read
/// gives has the old handle.
pub proof fn law_restart_changes_handle(
    entries: Seq<EntryView>,
    alive: Seq<i32>,
    old_handle: i32,
    k: int,
)
    requires
        !alive.contains(old_handle),
        0 <= k < live_of(entries, alive).len(),
    ensures
        live_of(entries, alive)[k].pid != old_handle,
{
    law_asked_handles_suffice(entries, alive, k);
}

/// What runs keeps its record and its handle. The record of a live instance
/// outlasts a read, whatever records are written after it: the instance is
/// read again with the same handle, as long as its process group is alive.
pub proof fn law_live_records_persist(
    entries: Seq<EntryView>,
    written: Seq<EntryView>,
    alive: Seq<i32>,
    i: int,
)
    requires
        0 <= i < entries.len(),
        entries[i].verdict(alive) is Live,
    ensures
        kept_by_read(entries, alive).contains(entries[i]),
        live_of(kept_by_read(entries, alive) + written, alive).contains(
            entries[i].verdict(alive)->Live_0,
        ),
{
    let keep = |e: EntryView| e.verdict(alive) is Live;
    let fl = |e: EntryView|
        match e.verdict(alive) {
            Verdict::Live(r) => Some(r),
            _ => None,
        };
    assert(entries.contains(entries[i]));
    lemma_filter_members(entries, keep, entries[i]);
    let kept = kept_by_read(entries, alive);
    let k = choose|k: int| 0 <= k < kept.len() && kept[k] == entries[i];
    assert((kept + written)[k] == entries[i]);
    lemma_filter_map_has(kept + written, fl, k);
}

/// A lookup reconciles its name. The record of the name whose process
/// group has no live member is among the stale records that the lookup
/// names, and the lookup gives no instance under that handle; and what a
/// lookup names as stale, a full read names too.
pub proof fn law_lookup_reconciles(
    entries: Seq<EntryView>,
    alive: Seq<i32>,
    name: Seq<char>,
    i: int,
    stale: Seq<char>,
)
    requires
        0 <= i < entries.len(),
        entries[i].owner() == name,
        entries[i].handle() is Some,
        !alive.contains(entries[i].handle()->0),
    ensures
        stale_named(entries, alive, name).contains(entries[i].file_name),
        live_named(live_of(entries, alive), name) is Some ==> live_named(
            live_of(entries, alive),
            name,
        )->0.pid != entries[i].handle()->0,
        stale_named(entries, alive, name).contains(stale) ==> stale_of(entries, alive).contains(
            stale,
        ),
{
    let fn_ = |e: EntryView|
        if e.verdict(alive) is Stale && e.owner() == name {
            Some(e.file_name)
        } else {
            None
        };
    let fs = |e: EntryView|
        match e.verdict(alive) {
            Verdict::Stale => Some(e.file_name),
            _ => None,
        };
    assert(entries[i].verdict(alive) is Stale);
    assert(fn_(entries[i]) == Some(entries[i].file_name));
    lemma_filter_map_has(entries, fn_, i);
    let now = live_of(entries, alive);
    if live_named(now, name) is Some {
        lemma_first_is_member(now, |r: RunningView| r.project.name == name);
        let r = live_named(now, name)->0;
        let k = choose|k: int| 0 <= k < now.len() && now[k] == r;
        law_asked_handles_suffice(entries, alive, k);
    }
    if stale_named(entries, alive, name).contains(stale) {
        entries.lemma_filter_map_contains(fn_, stale);
        let e = choose|e: EntryView| #[trigger] entries.contains(e) && fn_(e) == Some(stale);
        let j = choose|j: int| 0 <= j < entries.len() && entries[j] == e;
        assert(fs(entries[j]) == Some(stale));
        lemma_filter_map_has(entries, fs, j);
    }
}

/// What cannot be read is deleted. A file whose name holds no project's
/// name with a handle, or whose content holds no project, is stale, so that
/// the read deletes it, whatever process groups are alive; and no instance
/// that the read gives comes from a file of that name.
pub proof fn law_unreadable_is_deleted(entries: Seq<EntryView>, alive: Seq<i32>, i: int)
    requires
        0 <= i < entries.len(),
        record_key(entries[i].file_name) is None || entries[i].body is None,
    ensures
        entries[i].verdict(alive) is Stale,
        stale_of(entries, alive).contains(entries[i].file_name),
        !kept_by_read(entries, alive).contains(entries[i]),
        stale_named(entries, alive, entries[i].owner()).contains(entries[i].file_name),
{
    let fs = |e: EntryView|
        match e.verdict(alive) {
            Verdict::Stale => Some(e.file_name),
            _ => None,
        };
    let name = entries[i].owner();
    let fn_ = |e: EntryView|
        if e.verdict(alive) is Stale && e.owner() == name {
            Some(e.file_name)
        } else {
            None
        };
    assert(fs(entries[i]) == Some(entries[i].file_name));
    lemma_filter_map_has(entries, fs, i);
    assert(fn_(entries[i]) == Some(entries[i].file_name));
    lemma_filter_map_has(entries, fn_, i);
    lemma_filter_members(entries, |e: EntryView| e.verdict(alive) is Live, entries[i]);
}

/// Every file is judged. A read gives an instance for each file or names
/// the file as stale: none is passed over.
pub proof fn law_every_file_is_judged(entries: Seq<EntryView>, alive: Seq<i32>)
    ensures
        live_of(entries, alive).len() + stale_of(entries, alive).len() == entries.len(),
    decreases entries.len(),
{
    if entries.len() > 0 {
        law_every_file_is_judged(entries.drop_last(), alive);
    }
}

} // verus!
