//! The order in which a project and its dependencies are started.

use crate::catalog::{named, names};
use crate::config::WorkerConfig;
use crate::pick::{first_at, lemma_first_at, lemma_first_is_member, lemma_first_none};
use crate::project::{Project, ProjectView};
use crate::report::{cycle, cycle_text, unknown_dependency, unknown_dependency_text};
use crate::text::{contains, copy, copy_all, same};
use vstd::prelude::*;
use vstd::set_lib::*;

verus! {

/// Why a project cannot be started.
#[derive(Clone, Debug, PartialEq, Eq)]
pub enum StartError {
    /// A dependency names no project of the catalog.
    UnknownDependency(String),
    /// A dependency leads back to a project that is being started.
    DependencyCycle(String),
}

/// Why a project cannot be started, as mathematical values.
pub enum StartFault {
    UnknownDependency(Seq<char>),
    DependencyCycle(Seq<char>),
}

impl View for StartError {
    type V = StartFault;

    open spec fn view(&self) -> StartFault {
        match self {
            StartError::UnknownDependency(n) => StartFault::UnknownDependency(n@),
            StartError::DependencyCycle(n) => StartFault::DependencyCycle(n@),
        }
    }
}

impl DeepView for StartError {
    type V = StartFault;

    open spec fn deep_view(&self) -> StartFault {
        self@
    }
}

impl StartFault {
    /// The line that reports the fault.
    pub open spec fn text(self) -> Seq<char> {
        match self {
            StartFault::UnknownDependency(n) => unknown_dependency_text(n),
            StartFault::DependencyCycle(n) => cycle_text(n),
        }
    }
}

impl StartError {
    /// The line that reports the error.
    pub fn message(&self) -> (r: String)
        ensures
            r@ == self@.text(),
    {
        match self {
            StartError::UnknownDependency(n) => unknown_dependency(n),
            StartError::DependencyCycle(n) => cycle(n),
        }
    }
}

/// What a planning result says, as mathematical values.
pub open spec fn outcome(r: Result<Vec<Project>, StartError>) -> Result<
    Seq<ProjectView>,
    StartFault,
> {
    match r {
        Ok(order) => Ok(order.deep_view()),
        Err(e) => Err(e@),
    }
}

/// The positions of the catalog whose names are not on the path.
pub open spec fn unvisited(cat: Seq<ProjectView>, path: Seq<Seq<char>>) -> Set<int> {
    Set::new(|i: int| 0 <= i < cat.len() && !path.contains(cat[i].name))
}

/// A name of the catalog that joins the path leaves fewer positions unvisited.
pub proof fn lemma_unvisited_shrinks(cat: Seq<ProjectView>, path: Seq<Seq<char>>, d: Seq<char>)
    requires
        named(cat, d) is Some,
        !path.contains(d),
    ensures
        unvisited(cat, path).finite(),
        unvisited(cat, path.push(d)).len() < unvisited(cat, path).len(),
{
    lemma_int_range(0, cat.len() as int);
    lemma_len_subset(unvisited(cat, path), set_int_range(0, cat.len() as int));
    let pred = |p: ProjectView| p.name == d;
    lemma_first_is_member(cat, pred);
    let j = choose|k: int| first_at(cat, pred, k);
    assert(cat[j].name == d);
    assert(unvisited(cat, path).contains(j));
    assert(path.push(d)[path.len() as int] == d);
    assert(!unvisited(cat, path.push(d)).contains(j));
    assert(unvisited(cat, path.push(d)).subset_of(unvisited(cat, path))) by {
        assert forall|i: int| unvisited(cat, path.push(d)).contains(i) implies unvisited(
            cat,
            path,
        ).contains(i) by {
            if path.contains(cat[i].name) {
                let k = choose|k: int| 0 <= k < path.len() && path[k] == cat[i].name;
                assert(path.push(d)[k] == cat[i].name);
            }
        }
    }
    unvisited(cat, path.push(d)).lemma_subset_not_in_lt(unvisited(cat, path), j);
}

/// What must be started for the dependencies `deps`, in order: each one that
/// is not yet started, after its own dependencies. `done` holds the names
/// that are live or already planned, `path` the names whose start is under
/// way. A dependency that the catalog lacks, or that is on the path, is a fault.
pub open spec fn plan_deps(
    cat: Seq<ProjectView>,
    deps: Seq<Seq<char>>,
    done: Seq<Seq<char>>,
    path: Seq<Seq<char>>,
) -> Result<Seq<ProjectView>, StartFault>
    decreases unvisited(cat, path).len(), deps.len(),
{
    if deps.len() == 0 {
        Ok(Seq::empty())
    } else {
        let d = deps.first();
        match named(cat, d) {
            None => Err(StartFault::UnknownDependency(d)),
            Some(p) => {
                if done.contains(d) {
                    plan_deps(cat, deps.drop_first(), done, path)
                } else if path.contains(d) {
                    Err(StartFault::DependencyCycle(d))
                } else {
                    proof {
                        lemma_unvisited_shrinks(cat, path, d);
                    }
                    match plan_deps(cat, p.deps(), done, path.push(d)) {
                        Err(e) => Err(e),
                        Ok(sub) => match plan_deps(
                            cat,
                            deps.drop_first(),
                            done + names(sub.push(p)),
                            path,
                        ) {
                            Err(e) => Err(e),
                            Ok(tail) => Ok(sub.push(p) + tail),
                        },
                    }
                }
            },
        }
    }
}

/// What starting `p` launches, in order: its dependencies that are not yet
/// started, then `p` itself. Where `p` is named in `done`, it is started
/// already, and nothing is launched.
pub open spec fn plan_start(cat: Seq<ProjectView>, p: ProjectView, done: Seq<Seq<char>>) -> Result<
    Seq<ProjectView>,
    StartFault,
> {
    if done.contains(p.name) {
        Ok(Seq::empty())
    } else {
        match plan_deps(cat, p.deps(), done, seq![p.name]) {
            Err(e) => Err(e),
            Ok(sub) => Ok(sub.push(p)),
        }
    }
}

/// Whether every project of `order` is the catalog's project of its name,
/// and is named neither in `done` nor on `path`.
pub open spec fn fresh(
    cat: Seq<ProjectView>,
    order: Seq<ProjectView>,
    done: Seq<Seq<char>>,
    path: Seq<Seq<char>>,
) -> bool {
    forall|j: int|
        0 <= j < order.len() ==> {
            &&& !done.contains((#[trigger] order[j]).name)
            &&& !path.contains(order[j].name)
            &&& named(cat, order[j].name) == Some(order[j])
        }
}

/// Whether no two projects of `order` share a name.
pub open spec fn distinct_names(order: Seq<ProjectView>) -> bool {
    forall|i: int, j: int|
        0 <= i < j < order.len() ==> (#[trigger] order[i]).name != (#[trigger] order[j]).name
}

/// Whether each of `deps` is named in `done` or by a project of `order`.
pub open spec fn covers(order: Seq<ProjectView>, done: Seq<Seq<char>>, deps: Seq<Seq<char>>) -> bool {
    forall|k: int| 0 <= k < deps.len() ==> (done + names(order)).contains(#[trigger] deps[k])
}

/// Whether each dependency of each project of `order` is named in `done` or
/// by a project that stands earlier in `order`.
pub open spec fn dependencies_first(order: Seq<ProjectView>, done: Seq<Seq<char>>) -> bool {
    forall|j: int|
        0 <= j < order.len() ==> covers(order.take(j), done, (#[trigger] order[j]).deps())
}

/// A name is in a concatenation where it is in one of the two parts.
pub proof fn lemma_contains_add(a: Seq<Seq<char>>, b: Seq<Seq<char>>, x: Seq<char>)
    ensures
        (a + b).contains(x) <==> a.contains(x) || b.contains(x),
{
    if a.contains(x) {
        let i = choose|i: int| 0 <= i < a.len() && a[i] == x;
        assert((a + b)[i] == x);
    }
    if b.contains(x) {
        let i = choose|i: int| 0 <= i < b.len() && b[i] == x;
        assert((a + b)[a.len() + i] == x);
    }
    if (a + b).contains(x) {
        let i = choose|i: int| 0 <= i < (a + b).len() && (a + b)[i] == x;
        if i < a.len() {
            assert(a[i] == x);
        } else {
            assert(b[i - a.len()] == x);
        }
    }
}

/// A name is among the names of `order` where a project of `order` has it.
pub proof fn lemma_names_contains(order: Seq<ProjectView>, x: Seq<char>)
    ensures
        names(order).contains(x) <==> exists|j: int| 0 <= j < order.len() && (#[trigger] order[j]).name == x,
{
    if names(order).contains(x) {
        let i = choose|i: int| 0 <= i < names(order).len() && names(order)[i] == x;
        assert(order[i].name == x);
    }
    if exists|j: int| 0 <= j < order.len() && (#[trigger] order[j]).name == x {
        let j = choose|j: int| 0 <= j < order.len() && (#[trigger] order[j]).name == x;
        assert(names(order)[j] == x);
    }
}

/// What a plan holds: projects of the catalog that were neither started nor
/// under way, none twice, each after its dependencies, and among them every
/// dependency asked for that was not started before.
pub proof fn lemma_plan_deps(
    cat: Seq<ProjectView>,
    deps: Seq<Seq<char>>,
    done: Seq<Seq<char>>,
    path: Seq<Seq<char>>,
)
    requires
        plan_deps(cat, deps, done, path) is Ok,
    ensures
        fresh(cat, plan_deps(cat, deps, done, path)->Ok_0, done, path),
        distinct_names(plan_deps(cat, deps, done, path)->Ok_0),
        covers(plan_deps(cat, deps, done, path)->Ok_0, done, deps),
        dependencies_first(plan_deps(cat, deps, done, path)->Ok_0, done),
    decreases unvisited(cat, path).len(), deps.len(),
{
    let order = plan_deps(cat, deps, done, path)->Ok_0;
    if deps.len() == 0 {
        return ;
    }
    let d = deps.first();
    let rest = deps.drop_first();
    let p = named(cat, d)->0;
    lemma_first_is_member(cat, |q: ProjectView| q.name == d);
    assert(p.name == d);
    if done.contains(d) {
        lemma_plan_deps(cat, rest, done, path);
        assert forall|k: int| 0 <= k < deps.len() implies (done + names(order)).contains(
            #[trigger] deps[k],
        ) by {
            if k == 0 {
                lemma_contains_add(done, names(order), d);
            } else {
                assert(deps[k] == rest[k - 1]);
            }
        }
        return ;
    }
    lemma_unvisited_shrinks(cat, path, d);
    let sub = plan_deps(cat, p.deps(), done, path.push(d))->Ok_0;
    let head = sub.push(p);
    let done2 = done + names(head);
    let tail = plan_deps(cat, rest, done2, path)->Ok_0;
    assert(order == head + tail);
    lemma_plan_deps(cat, p.deps(), done, path.push(d));
    lemma_plan_deps(cat, rest, done2, path);
    let n = sub.len() as int;

    assert(fresh(cat, order, done, path)) by {
        assert forall|j: int| 0 <= j < order.len() implies {
            &&& !done.contains((#[trigger] order[j]).name)
            &&& !path.contains(order[j].name)
            &&& named(cat, order[j].name) == Some(order[j])
        } by {
            if j < n {
                assert(order[j] == sub[j]);
                if path.contains(sub[j].name) {
                    let i = choose|i: int| 0 <= i < path.len() && path[i] == sub[j].name;
                    assert(path.push(d)[i] == sub[j].name);
                }
            } else if j == n {
                assert(order[j] == p);
            } else {
                assert(order[j] == tail[j - n - 1]);
                lemma_contains_add(done, names(head), tail[j - n - 1].name);
            }
        }
    }
    assert(distinct_names(order)) by {
        assert forall|i: int, j: int| 0 <= i < j < order.len() implies (#[trigger] order[i]).name
            != (#[trigger] order[j]).name by {
            if j < n {
                assert(order[i] == sub[i] && order[j] == sub[j]);
            } else if j == n {
                assert(order[i] == sub[i]);
                assert(path.push(d)[path.len() as int] == d);
                assert(path.push(d).contains(d));
            } else {
                let t = tail[j - n - 1];
                assert(order[j] == t);
                if i <= n {
                    assert(order[i] == head[i]);
                    assert(names(head)[i] == head[i].name);
                    assert(names(head).contains(head[i].name));
                    lemma_contains_add(done, names(head), t.name);
                } else {
                    assert(order[i] == tail[i - n - 1]);
                }
            }
        }
    }
    assert(names(order) =~= names(head) + names(tail));
    assert(covers(order, done, deps)) by {
        assert forall|k: int| 0 <= k < deps.len() implies (done + names(order)).contains(
            #[trigger] deps[k],
        ) by {
            if k == 0 {
                assert(order[n] == p);
                assert(names(order)[n] == d);
                lemma_contains_add(done, names(order), d);
            } else {
                assert(deps[k] == rest[k - 1]);
                assert((done2 + names(tail)).contains(rest[k - 1]));
                assert(done2 + names(tail) =~= done + names(order));
            }
        }
    }
    assert(dependencies_first(order, done)) by {
        assert forall|j: int| 0 <= j < order.len() implies covers(
            order.take(j),
            done,
            (#[trigger] order[j]).deps(),
        ) by {
            if j < n {
                assert(order[j] == sub[j]);
                assert(order.take(j) =~= sub.take(j));
            } else if j == n {
                assert(order[j] == p);
                assert(order.take(j) =~= sub);
            } else {
                let t = j - n - 1;
                assert(order[j] == tail[t]);
                assert(covers(tail.take(t), done2, tail[t].deps()));
                assert(order.take(j) =~= head + tail.take(t));
                assert(names(head + tail.take(t)) =~= names(head) + names(tail.take(t)));
                assert(done2 + names(tail.take(t)) =~= done + names(order.take(j)));
            }
        }
    }
}

/// The position of the first project called `name`.
fn find_index(name: &String, projects: &Vec<Project>) -> (r: Option<usize>)
    ensures
        match r {
            Some(i) => first_at(projects.deep_view(), |p: ProjectView| p.name == name@, i as int),
            None => named(projects.deep_view(), name@) is None,
        },
{
    let ghost cat = projects.deep_view();
    let ghost pred = |p: ProjectView| p.name == name@;
    let mut i: usize = 0;
    while i < projects.len()
        invariant
            i <= projects.len(),
            cat == projects.deep_view(),
            pred == |p: ProjectView| p.name == name@,
            forall|j: int| 0 <= j < i ==> !pred(#[trigger] cat[j]),
        decreases projects.len() - i,
    {
        if same(&projects[i].name, name) {
            assert(pred(cat[i as int]));
            return Some(i);
        }
        assert(!pred(cat[i as int]));
        i += 1;
    }
    proof {
        lemma_first_none(cat, pred);
    }
    None
}

/// Plans the dependencies `deps[k..]`: appends to `out` what must be
/// started, and to `done` the names of what was appended.
fn visit_deps(
    catalog: &Vec<Project>,
    deps: &Vec<String>,
    k: usize,
    done: &mut Vec<String>,
    path: &mut Vec<String>,
    out: &mut Vec<Project>,
) -> (r: Result<(), StartError>)
    requires
        k <= deps.len(),
    ensures
        match plan_deps(
            catalog.deep_view(),
            deps.deep_view().skip(k as int),
            old(done).deep_view(),
            old(path).deep_view(),
        ) {
            Ok(order) => {
                &&& r is Ok
                &&& final(out).deep_view() == old(out).deep_view() + order
                &&& final(done).deep_view() == old(done).deep_view() + names(order)
                &&& final(path).deep_view() == old(path).deep_view()
            },
            Err(e) => r is Err && r->Err_0@ == e,
        },
    decreases unvisited(catalog.deep_view(), old(path).deep_view()).len(), deps.len() - k,
{
    let ghost cat = catalog.deep_view();
    let ghost rest = deps.deep_view().skip(k as int);
    let ghost done0 = done.deep_view();
    let ghost path0 = path.deep_view();
    let ghost out0 = out.deep_view();
    if k >= deps.len() {
        assert(rest.len() == 0);
        assert(out.deep_view() =~= out0 + Seq::<ProjectView>::empty());
        assert(done.deep_view() =~= done0 + names(Seq::<ProjectView>::empty()));
        return Ok(());
    }
    let d = &deps[k];
    assert(rest.first() == d@);
    assert(rest.drop_first() =~= deps.deep_view().skip(k as int + 1));
    let j = match find_index(d, catalog) {
        None => {
            return Err(StartError::UnknownDependency(copy(d)));
        },
        Some(j) => j,
    };
    proof {
        lemma_first_at(cat, |p: ProjectView| p.name == d@, j as int);
    }
    let ghost p = cat[j as int];
    if contains(done, d) {
        return visit_deps(catalog, deps, k + 1, done, path, out);
    }
    if contains(path, d) {
        return Err(StartError::DependencyCycle(copy(d)));
    }
    proof {
        lemma_unvisited_shrinks(cat, path0, d@);
    }
    path.push(copy(d));
    assert(path.deep_view() =~= path0.push(d@));
    let inner = match &catalog[j].dependencies {
        Some(own) => {
            assert(own.deep_view().skip(0) =~= p.deps());
            visit_deps(catalog, own, 0, done, path, out)
        },
        None => {
            assert(p.deps().len() == 0);
            assert(out.deep_view() =~= out0 + Seq::<ProjectView>::empty());
            assert(done.deep_view() =~= done0 + names(Seq::<ProjectView>::empty()));
            Ok(())
        },
    };
    match inner {
        Err(e) => {
            return Err(e);
        },
        Ok(()) => {},
    }
    let ghost sub = plan_deps(cat, p.deps(), done0, path0.push(d@))->Ok_0;
    let ghost grown = path.deep_view();
    path.pop();
    assert(path.deep_view() =~= path0) by {
        assert(path.deep_view().len() == path0.len());
        assert forall|i: int| 0 <= i < path0.len() implies path.deep_view()[i] == path0[i] by {
            assert(path.deep_view()[i] == grown[i]);
        }
    }
    let ghost out1 = out.deep_view();
    let ghost done1 = done.deep_view();
    out.push(catalog[j].duplicate());
    done.push(copy(d));
    assert(out.deep_view() =~= out0 + sub.push(p)) by {
        assert(out.deep_view() =~= out1.push(p));
    }
    assert(done.deep_view() =~= done0 + names(sub.push(p))) by {
        assert(done.deep_view() =~= done1.push(d@));
        assert(names(sub.push(p)) =~= names(sub).push(p.name));
    }
    let r = visit_deps(catalog, deps, k + 1, done, path, out);
    proof {
        match plan_deps(cat, rest.drop_first(), done0 + names(sub.push(p)), path0) {
            Ok(tail) => {
                assert(out.deep_view() =~= out0 + (sub.push(p) + tail));
                assert(names(sub.push(p) + tail) =~= names(sub.push(p)) + names(tail));
                assert(done.deep_view() =~= done0 + names(sub.push(p) + tail));
            },
            Err(e) => {},
        }
    }
    r
}

impl Project {
    /// What must be started before this project, in order: each dependency
    /// that is not named in `done`, after its own dependencies.
    pub fn start_dependencies(&self, config: &WorkerConfig, done: &Vec<String>) -> (r: Result<
        Vec<Project>,
        StartError,
    >)
        ensures
            outcome(r) == plan_deps(
                config.projects.deep_view(),
                self@.deps(),
                done.deep_view(),
                seq![self@.name],
            ),
    {
        let mut out: Vec<Project> = Vec::new();
        let mut seen = copy_all(done);
        let mut path: Vec<String> = Vec::new();
        path.push(copy(&self.name));
        assert(path.deep_view() =~= seq![self@.name]);
        let ghost out0 = out.deep_view();
        let res = match &self.dependencies {
            Some(deps) => {
                assert(deps.deep_view().skip(0) =~= self@.deps());
                visit_deps(&config.projects, deps, 0, &mut seen, &mut path, &mut out)
            },
            None => {
                assert(self@.deps().len() == 0);
                Ok(())
            },
        };
        match res {
            Ok(()) => {
                proof {
                    let order = plan_deps(
                        config.projects.deep_view(),
                        self@.deps(),
                        done.deep_view(),
                        seq![self@.name],
                    )->Ok_0;
                    assert(out.deep_view() =~= order);
                }
                Ok(out)
            },
            Err(e) => Err(e),
        }
    }

    /// What starting this project launches, in order: the dependencies that
    /// are not named in `done`, each after its own, then the project itself.
    /// A project that is named in `done` is started already: nothing is
    /// launched for it.
    pub fn start(&self, config: &WorkerConfig, done: &Vec<String>) -> (r: Result<
        Vec<Project>,
        StartError,
    >)
        ensures
            outcome(r) == plan_start(config.projects.deep_view(), self@, done.deep_view()),
    {
        if contains(done, &self.name) {
            let none: Vec<Project> = Vec::new();
            assert(none.deep_view() =~= Seq::<ProjectView>::empty());
            return Ok(none);
        }
        match self.start_dependencies(config, done) {
            Ok(mut order) => {
                let ghost sub = order.deep_view();
                order.push(self.duplicate());
                assert(order.deep_view() =~= sub.push(self@));
                Ok(order)
            },
            Err(e) => Err(e),
        }
    }
}

} // verus!
