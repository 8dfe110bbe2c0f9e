//! What the supervisor decides for each of its commands.

use crate::catalog::{lookup, named, names};
use crate::config::{idle_part, path_in, running_part, specs_of, WorkerConfig};
use crate::live::{find_running, live_named};
use crate::plan::{plan_deps, plan_start, StartError, StartFault};
use crate::project::{Project, ProjectView, RunningProject, RunningView, WorkerProject};
use crate::report::{
    not_running, not_running_text,
    already_running, already_running_text, running, running_text, stop_failed, stop_failed_text,
};
use crate::signal::Signal;
use crate::text::copy;
use vstd::prelude::*;

verus! {

/// The time that instances are given to stop, in milliseconds.
pub const STOP_TIMEOUT_MS: u64 = 5000;

/// What `start` decides: the reports on targets that are live already, the
/// projects to detach, in order, and the faults of targets that cannot be started.
#[derive(Clone, Debug, PartialEq, Eq)]
pub struct StartPlan {
    pub diagnostics: Vec<String>,
    pub launches: Vec<Project>,
    pub failures: Vec<StartError>,
}

/// What `start` decides, as mathematical values.
pub struct StartPlanView {
    pub diagnostics: Seq<Seq<char>>,
    pub launches: Seq<ProjectView>,
    pub failures: Seq<StartFault>,
}

impl View for StartPlan {
    type V = StartPlanView;

    open spec fn view(&self) -> StartPlanView {
        StartPlanView {
            diagnostics: self.diagnostics.deep_view(),
            launches: self.launches.deep_view(),
            failures: self.failures.deep_view(),
        }
    }
}

impl StartPlanView {
    /// The report of the first fault: with it the command fails.
    pub open spec fn hard_error(self) -> Option<Seq<char>> {
        if self.failures.len() > 0 {
            Some(self.failures[0].text())
        } else {
            None
        }
    }
}

impl StartPlan {
    /// Whether the command fails, and with which report: a start fails where
    /// a target has a fault, with the report of the first fault; reports on
    /// targets that run already do not make it fail.
    pub fn hard_error(&self) -> (r: Option<String>)
        ensures
            r.deep_view() == self@.hard_error(),
    {
        if self.failures.len() > 0 {
            Some(self.failures[0].message())
        } else {
            None
        }
    }
}

/// The names of the live instances, in their order.
pub open spec fn live_names(live: Seq<RunningView>) -> Seq<Seq<char>> {
    live.map_values(|r: RunningView| r.project.name)
}

/// One report for each instance that a start found live.
pub open spec fn already_running_reports(found: Seq<RunningView>) -> Seq<Seq<char>> {
    found.map_values(|r: RunningView| already_running_text(r.project.label()))
}

/// One report for each instance that did not stop in time.
pub open spec fn stop_failed_reports(found: Seq<RunningView>) -> Seq<Seq<char>> {
    found.map_values(|r: RunningView| stop_failed_text(r.project.label()))
}

/// What is detached for the targets `idle`, taken in order, and the faults
/// of the targets that cannot be started. `done` holds the names that were
/// live before. A target that an earlier one has started is passed over; one
/// with a fault adds nothing to what is detached.
pub open spec fn launch_all(cat: Seq<ProjectView>, done: Seq<Seq<char>>, idle: Seq<ProjectView>) -> (
    Seq<ProjectView>,
    Seq<StartFault>,
)
    decreases idle.len(),
{
    if idle.len() == 0 {
        (Seq::empty(), Seq::empty())
    } else {
        let (launches, failures) = launch_all(cat, done, idle.drop_last());
        let t = idle.last();
        let seen = done + names(launches);
        if seen.contains(t.name) {
            (launches, failures)
        } else {
            match plan_start(cat, t, seen) {
                Ok(order) => (launches + order, failures),
                Err(e) => (launches, failures.push(e)),
            }
        }
    }
}

/// What `start` decides for the targets, given the live instances.
pub open spec fn start_plan(
    cat: Seq<ProjectView>,
    live: Seq<RunningView>,
    targets: Seq<ProjectView>,
) -> StartPlanView {
    let planned = launch_all(cat, live_names(live), idle_part(live, targets));
    StartPlanView {
        diagnostics: already_running_reports(running_part(live, targets)),
        launches: planned.0,
        failures: planned.1,
    }
}

/// The names of the live instances, in their order.
fn names_of_live(live: &Vec<RunningProject>) -> (r: Vec<String>)
    ensures
        r.deep_view() == live_names(live.deep_view()),
{
    let mut out: Vec<String> = Vec::new();
    let mut i: usize = 0;
    while i < live.len()
        invariant
            i <= live.len(),
            out.len() == i,
            forall|k: int| 0 <= k < i ==> out[k]@ == live[k].name@,
        decreases live.len() - i,
    {
        out.push(copy(&live[i].name));
        i += 1;
    }
    assert(out.deep_view() =~= live_names(live.deep_view()));
    out
}

/// Decides a start of the targets: a report for each that is live, and for
/// the others what to detach, dependencies first, nothing twice and nothing
/// that is live.
///
/// The decision holds for the registry as it was read. What another process
/// starts after the read is found by the detach protocol, which claims each
/// name and reads the registry again under the claim before it detaches.
pub fn start(config: &WorkerConfig, live: &Vec<RunningProject>, projects: Vec<Project>) -> (r:
    StartPlan)
    ensures
        r@ == start_plan(config.projects.deep_view(), live.deep_view(), projects.deep_view()),
{
    let ghost cat = config.projects.deep_view();
    let ghost lv = live.deep_view();
    let ghost targets = projects.deep_view();
    assert(specs_of(projects@) =~= targets);
    let (found, idle) = config.partition_projects(projects, live);
    let ghost idle_v = idle.deep_view();
    let ghost done0 = live_names(lv);

    let mut diagnostics: Vec<String> = Vec::new();
    let mut k: usize = 0;
    while k < found.len()
        invariant
            k <= found.len(),
            diagnostics.len() == k,
            forall|j: int|
                0 <= j < k ==> diagnostics[j]@ == already_running_text(
                    found.deep_view()[j].project.label(),
                ),
        decreases found.len() - k,
    {
        let label = found[k].label();
        diagnostics.push(already_running(&label));
        k += 1;
    }
    assert(diagnostics.deep_view() =~= already_running_reports(found.deep_view()));

    let mut done = names_of_live(live);
    let mut launches: Vec<Project> = Vec::new();
    let mut failures: Vec<StartError> = Vec::new();
    let mut i: usize = 0;
    assert(launches.deep_view() =~= launch_all(cat, done0, idle_v.take(0)).0);
    assert(failures.deep_view() =~= launch_all(cat, done0, idle_v.take(0)).1);
    assert(done.deep_view() =~= done0 + names(launches.deep_view()));
    while i < idle.len()
        invariant
            i <= idle.len(),
            cat == config.projects.deep_view(),
            idle_v == idle.deep_view(),
            launches.deep_view() == launch_all(cat, done0, idle_v.take(i as int)).0,
            failures.deep_view() == launch_all(cat, done0, idle_v.take(i as int)).1,
            done.deep_view() == done0 + names(launches.deep_view()),
        decreases idle.len() - i,
    {
        proof {
            assert(idle_v.take(i as int + 1).drop_last() =~= idle_v.take(i as int));
            assert(idle_v.take(i as int + 1).last() == idle_v[i as int]);
        }
        let ghost l0 = launches.deep_view();
        let ghost f0 = failures.deep_view();
        if !crate::text::contains(&done, &idle[i].name) {
            match idle[i].start(config, &done) {
                Ok(order) => {
                    let mut j: usize = 0;
                    assert(l0 + order.deep_view().take(0) =~= l0);
                    while j < order.len()
                        invariant
                            j <= order.len(),
                            launches.deep_view() == l0 + order.deep_view().take(j as int),
                            done.deep_view() == done0 + names(launches.deep_view()),
                        decreases order.len() - j,
                    {
                        let ghost l1 = launches.deep_view();
                        let ghost d1 = done.deep_view();
                        launches.push(order[j].duplicate());
                        done.push(copy(&order[j].name));
                        proof {
                            let o = order.deep_view();
                            assert(launches.deep_view() =~= l1.push(o[j as int]));
                            assert(o.take(j as int + 1) =~= o.take(j as int).push(o[j as int]));
                            assert(launches.deep_view() =~= l0 + o.take(j as int + 1));
                            assert(done.deep_view() =~= d1.push(o[j as int].name));
                            assert(names(l1.push(o[j as int])) =~= names(l1).push(o[j as int].name));
                            assert(done.deep_view() =~= done0 + names(launches.deep_view()));
                        }
                        j += 1;
                    }
                    assert(order.deep_view().take(order.len() as int) =~= order.deep_view());
                },
                Err(e) => {
                    let ghost ev = e@;
                    failures.push(e);
                    assert(failures.deep_view() =~= f0.push(ev));
                },
            }
        }
        i += 1;
    }
    assert(idle_v.take(idle.len() as int) =~= idle_v);
    StartPlan { diagnostics, launches, failures }
}

/// A signal to deliver to a process group.
#[derive(Clone, Copy, Debug, PartialEq, Eq, Structural)]
pub struct StopRequest {
    pub handle: i32,
    pub signal: Signal,
}

/// The signal that stops the instance, and the process group that gets it.
pub open spec fn request_of(r: RunningView) -> StopRequest {
    StopRequest { handle: r.pid, signal: Signal::resolve(r.project.stop_signal) }
}

/// The signals that stop the instances: one for each, in their order.
pub open spec fn stop_requests(instances: Seq<RunningView>) -> Seq<StopRequest> {
    instances.map_values(|i: RunningView| request_of(i))
}

impl RunningProject {
    /// The signal to deliver to stop this instance: the one that the
    /// project names, else the interrupt, to the instance's process group.
    pub fn stop(&self) -> (r: StopRequest)
        ensures
            r == request_of(self@),
    {
        StopRequest { handle: self.pid, signal: Signal::or_default(self.stop_signal) }
    }
}

/// The signals to deliver to stop the instances: one for each, in their order.
pub fn stop(instances: &Vec<RunningProject>) -> (r: Vec<StopRequest>)
    ensures
        r@ == stop_requests(instances.deep_view()),
{
    let mut out: Vec<StopRequest> = Vec::new();
    let mut i: usize = 0;
    while i < instances.len()
        invariant
            i <= instances.len(),
            out.len() == i,
            forall|k: int| 0 <= k < i ==> out[k] == request_of(instances.deep_view()[k]),
        decreases instances.len() - i,
    {
        out.push(instances[i].stop());
        i += 1;
    }
    assert(out@ =~= stop_requests(instances.deep_view()));
    out
}

/// How a stop stands after a look at the registry.
#[derive(Clone, Debug, PartialEq, Eq)]
pub enum StopStatus {
    /// No target is live any more.
    Stopped,
    /// Some target is live, and time is left: look again.
    Waiting,
    /// Some target is live and the time is over: one report for each.
    TimedOut(Vec<String>),
}

/// How a stop stands after a look at the registry, as mathematical values.
pub enum StopStatusView {
    Stopped,
    Waiting,
    TimedOut(Seq<Seq<char>>),
}

impl View for StopStatus {
    type V = StopStatusView;

    open spec fn view(&self) -> StopStatusView {
        match self {
            StopStatus::Stopped => StopStatusView::Stopped,
            StopStatus::Waiting => StopStatusView::Waiting,
            StopStatus::TimedOut(reports) => StopStatusView::TimedOut(reports.deep_view()),
        }
    }
}

/// How a stop of `targets` stands when `live` is what the registry holds
/// `elapsed_ms` milliseconds after the signals went out.
pub open spec fn stop_status(
    live: Seq<RunningView>,
    targets: Seq<ProjectView>,
    elapsed_ms: u64,
) -> StopStatusView {
    let left = running_part(live, targets);
    if left.len() == 0 {
        StopStatusView::Stopped
    } else if elapsed_ms < STOP_TIMEOUT_MS {
        StopStatusView::Waiting
    } else {
        StopStatusView::TimedOut(stop_failed_reports(left))
    }
}

/// Judges a stop after a look at the registry: done as soon as no target is
/// live; else to be looked at again while time is left; else given up, with
/// a report for each target that is still live.
pub fn confirm_stop(
    config: &WorkerConfig,
    instances: &Vec<RunningProject>,
    live: &Vec<RunningProject>,
    elapsed_ms: u64,
) -> (r: StopStatus)
    ensures
        r@ == stop_status(live.deep_view(), specs_of(instances@), elapsed_ms),
{
    let mut targets: Vec<RunningProject> = Vec::new();
    let mut i: usize = 0;
    while i < instances.len()
        invariant
            i <= instances.len(),
            targets.len() == i,
            forall|k: int| 0 <= k < i ==> targets[k]@ == instances[k]@,
        decreases instances.len() - i,
    {
        targets.push(instances[i].duplicate());
        i += 1;
    }
    assert(specs_of(targets@) =~= specs_of(instances@));
    let (left, _) = config.partition_projects(targets, live);
    if left.len() == 0 {
        StopStatus::Stopped
    } else if elapsed_ms < STOP_TIMEOUT_MS {
        StopStatus::Waiting
    } else {
        let mut reports: Vec<String> = Vec::new();
        let mut k: usize = 0;
        while k < left.len()
            invariant
                k <= left.len(),
                reports.len() == k,
                forall|j: int|
                    0 <= j < k ==> reports[j]@ == stop_failed_text(
                        left.deep_view()[j].project.label(),
                    ),
            decreases left.len() - k,
        {
            let label = left[k].label();
            reports.push(stop_failed(&label));
            k += 1;
        }
        assert(reports.deep_view() =~= stop_failed_reports(left.deep_view()));
        StopStatus::TimedOut(reports)
    }
}

/// How a restart stands after a look at the registry.
#[derive(Clone, Debug, PartialEq, Eq)]
pub enum RestartStep {
    /// Some instance is live, and time is left: look again.
    Wait,
    /// The stop is over: the reports on what did not stop, and the start to make.
    Start { reports: Vec<String>, plan: StartPlan },
}

/// How a restart stands after a look at the registry, as mathematical values.
pub enum RestartStepView {
    Wait,
    Start { reports: Seq<Seq<char>>, plan: StartPlanView },
}

impl View for RestartStep {
    type V = RestartStepView;

    open spec fn view(&self) -> RestartStepView {
        match self {
            RestartStep::Wait => RestartStepView::Wait,
            RestartStep::Start { reports, plan } => RestartStepView::Start {
                reports: reports.deep_view(),
                plan: plan@,
            },
        }
    }
}

/// How a restart of `targets` stands: it waits as a stop does, and once the
/// stop is over it starts the projects of the very instances that
/// were stopped, and of no others.
pub open spec fn restart_step(
    cat: Seq<ProjectView>,
    live: Seq<RunningView>,
    targets: Seq<ProjectView>,
    elapsed_ms: u64,
) -> RestartStepView {
    match stop_status(live, targets, elapsed_ms) {
        StopStatusView::Waiting => RestartStepView::Wait,
        StopStatusView::Stopped => RestartStepView::Start {
            reports: Seq::empty(),
            plan: start_plan(cat, live, targets),
        },
        StopStatusView::TimedOut(reports) => RestartStepView::Start {
            reports,
            plan: start_plan(cat, live, targets),
        },
    }
}

/// Decides a restart after a look at the registry, once the signals of
/// `stop` went out to the instances.
pub fn restart(
    config: &WorkerConfig,
    instances: Vec<RunningProject>,
    live: &Vec<RunningProject>,
    elapsed_ms: u64,
) -> (r: RestartStep)
    ensures
        r@ == restart_step(
            config.projects.deep_view(),
            live.deep_view(),
            specs_of(instances@),
            elapsed_ms,
        ),
{
    let status = confirm_stop(config, &instances, live, elapsed_ms);
    let reports = match status {
        StopStatus::Waiting => {
            return RestartStep::Wait;
        },
        StopStatus::Stopped => {
            let none: Vec<String> = Vec::new();
            assert(none.deep_view() =~= Seq::<Seq<char>>::empty());
            none
        },
        StopStatus::TimedOut(reports) => reports,
    };
    let ghost targets = specs_of(instances@);
    let mut rest = instances;
    let mut specs: Vec<Project> = Vec::new();
    let ghost mut i: int = 0;
    assert(specs.deep_view() =~= targets.take(0));
    assert(specs_of(rest@) =~= targets.skip(0));
    while rest.len() > 0
        invariant
            0 <= i <= targets.len(),
            specs_of(rest@) == targets.skip(i),
            specs.deep_view() == targets.take(i),
        decreases rest.len(),
    {
        let ghost before = rest@;
        let ghost s0 = specs.deep_view();
        let item = rest.remove(0);
        proof {
            assert(specs_of(before).len() == before.len());
            assert(targets.skip(i).len() == targets.len() - i);
            assert(specs_of(before)[0] == item.spec_project());
            assert(targets.skip(i)[0] == targets[i]);
            assert(specs_of(rest@) =~= targets.skip(i + 1)) by {
                assert forall|k: int| 0 <= k < rest@.len() implies specs_of(rest@)[k]
                    == targets.skip(i + 1)[k] by {
                    assert(rest@[k] == before[k + 1]);
                    assert(specs_of(before)[k + 1] == targets.skip(i)[k + 1]);
                }
            }
        }
        specs.push(item.into_project());
        proof {
            assert(specs.deep_view() =~= s0.push(targets[i]));
            assert(targets.take(i + 1) =~= targets.take(i).push(targets[i]));
            i = i + 1;
        }
    }
    assert(targets.take(i) =~= targets);
    RestartStep::Start { reports, plan: start(config, live, specs) }
}

/// What `run` decides: what to detach first, and the project to run in the
/// foreground.
#[derive(Clone, Debug, PartialEq, Eq)]
pub struct RunPlan {
    pub launches: Vec<Project>,
    pub foreground: Project,
}

/// What a `run` decision says, as mathematical values.
pub open spec fn run_outcome(r: Result<RunPlan, StartError>) -> Result<
    (Seq<ProjectView>, ProjectView),
    StartFault,
> {
    match r {
        Ok(plan) => Ok((plan.launches.deep_view(), plan.foreground@)),
        Err(e) => Err(e@),
    }
}

/// What `run` decides for `p`: its dependencies that are not live are
/// detached, each after its own, and `p` itself runs in the foreground.
pub open spec fn run_plan(cat: Seq<ProjectView>, live: Seq<RunningView>, p: ProjectView) -> Result<
    (Seq<ProjectView>, ProjectView),
    StartFault,
> {
    match plan_deps(cat, p.deps(), live_names(live), seq![p.name]) {
        Ok(order) => Ok((order, p)),
        Err(e) => Err(e),
    }
}

/// Decides a run in the foreground: the dependencies to detach first, and
/// the project itself, which is not detached.
pub fn run(config: &WorkerConfig, live: &Vec<RunningProject>, project: Project) -> (r: Result<
    RunPlan,
    StartError,
>)
    ensures
        run_outcome(r) == run_plan(config.projects.deep_view(), live.deep_view(), project@),
{
    let done = names_of_live(live);
    match project.start_dependencies(config, &done) {
        Ok(launches) => Ok(RunPlan { launches, foreground: project }),
        Err(e) => Err(e),
    }
}

/// The lines of `status`: one for each live instance, its name alone where
/// `quiet` is set.
pub open spec fn status_lines(live: Seq<RunningView>, quiet: bool) -> Seq<Seq<char>> {
    live.map_values(
        |r: RunningView|
            if quiet {
                r.project.name
            } else {
                running_text(r.project.label())
            },
    )
}

/// The lines of `list`: one for each project of the catalog, its name alone
/// where `quiet` is set.
pub open spec fn list_lines(cat: Seq<ProjectView>, quiet: bool) -> Seq<Seq<char>> {
    cat.map_values(
        |p: ProjectView|
            if quiet {
                p.name
            } else {
                p.label()
            },
    )
}

/// The lines that `status` prints.
pub fn status(live: &Vec<RunningProject>, quiet: bool) -> (r: Vec<String>)
    ensures
        r.deep_view() == status_lines(live.deep_view(), quiet),
{
    let mut out: Vec<String> = Vec::new();
    let mut i: usize = 0;
    while i < live.len()
        invariant
            i <= live.len(),
            out.len() == i,
            forall|k: int| 0 <= k < i ==> out[k]@ == status_lines(live.deep_view(), quiet)[k],
        decreases live.len() - i,
    {
        if quiet {
            out.push(copy(&live[i].name));
        } else {
            let label = live[i].label();
            out.push(running(&label));
        }
        i += 1;
    }
    assert(out.deep_view() =~= status_lines(live.deep_view(), quiet));
    out
}

/// The lines that `list` prints.
pub fn list(config: &WorkerConfig, quiet: bool) -> (r: Vec<String>)
    ensures
        r.deep_view() == list_lines(config.projects.deep_view(), quiet),
{
    let mut out: Vec<String> = Vec::new();
    let mut i: usize = 0;
    while i < config.projects.len()
        invariant
            i <= config.projects.len(),
            out.len() == i,
            forall|k: int|
                0 <= k < i ==> out[k]@ == list_lines(config.projects.deep_view(), quiet)[k],
        decreases config.projects.len() - i,
    {
        if quiet {
            out.push(copy(&config.projects[i].name));
        } else {
            out.push(config.projects[i].label());
        }
        i += 1;
    }
    assert(out.deep_view() =~= list_lines(config.projects.deep_view(), quiet));
    out
}

/// What `logs` decides: the instance whose output is shown, and the file
/// that holds it.
#[derive(Clone, Debug, PartialEq, Eq)]
pub struct LogsPlan {
    pub instance: RunningProject,
    pub log_file: String,
}

/// What a `logs` decision says, as mathematical values.
pub open spec fn logs_outcome(r: Result<LogsPlan, String>) -> Result<
    (RunningView, Seq<char>),
    Seq<char>,
> {
    match r {
        Ok(plan) => Ok((plan.instance@, plan.log_file@)),
        Err(report) => Err(report@),
    }
}

/// What `logs` decides for `name`: the first live instance of that name,
/// with its log file; or, where none is live, the report that the project
/// is not running, under the label that the catalog gives it.
pub open spec fn logs_plan(
    cat: Seq<ProjectView>,
    live: Seq<RunningView>,
    log_dir: Seq<char>,
    name: Seq<char>,
) -> Result<(RunningView, Seq<char>), Seq<char>> {
    match live_named(live, name) {
        Some(r) => Ok((r, path_in(log_dir, r.project.name))),
        None => Err(
            not_running_text(
                match named(cat, name) {
                    Some(p) => p.label(),
                    None => name,
                },
            ),
        ),
    }
}

/// Decides whose output `logs` shows.
pub fn logs(config: &WorkerConfig, live: &Vec<RunningProject>, name: &String) -> (r: Result<
    LogsPlan,
    String,
>)
    ensures
        logs_outcome(r) == logs_plan(
            config.projects.deep_view(),
            live.deep_view(),
            config.log_dir@,
            name@,
        ),
{
    match find_running(name, live) {
        Some(instance) => {
            let log_file = config.log_file(&instance);
            Ok(LogsPlan { instance, log_file })
        },
        None => {
            let label = match lookup(name, &config.projects) {
                Some(p) => p.label(),
                None => copy(name),
            };
            Err(not_running(&label))
        },
    }
}

} // verus!
