//! From the tokens of a command line to the projects and instances they name.

use crate::catalog::{
    all_group_tags, lookup, group_members, group_tags, members, named, names, project_names,
};
use crate::live::{find_running, live_members, live_named, running_members};
use crate::pick::{distinct_by, lemma_distinct_step, seen_before};
use crate::project::{Project, ProjectView, RunningProject, RunningView};
use crate::report::{not_running, not_running_text, unknown, unknown_text};
use crate::text::{copy, distinct, same, unique};
use vstd::prelude::*;

verus! {

/// What a token of `start` names: one project, or the members of a group.
#[derive(Clone, Debug, PartialEq, Eq)]
pub enum ActionArg {
    Project(Project),
    Group(Vec<Project>),
}

/// What a token of `stop` or `restart` names: one live instance, or the live
/// members of a group.
#[derive(Clone, Debug, PartialEq, Eq)]
pub enum ActionArgRunning {
    Project(RunningProject),
    Group(Vec<RunningProject>),
}

/// A token that names neither a group nor a project, with the names that
/// would have been accepted.
#[derive(Clone, Debug, PartialEq, Eq)]
pub struct UnknownTarget {
    pub token: String,
    pub projects: Vec<String>,
    pub groups: Vec<String>,
}

/// The projects that a token names. A group tag goes before a project's name:
/// where some project carries the token as a tag, the token names the group.
pub open spec fn expand(cat: Seq<ProjectView>, token: Seq<char>) -> Option<Seq<ProjectView>> {
    if members(cat, token).len() > 0 {
        Some(members(cat, token))
    } else {
        match named(cat, token) {
            Some(p) => Some(seq![p]),
            None => None,
        }
    }
}

/// The live instances that a token names, a group tag again before a name.
pub open spec fn expand_running(live: Seq<RunningView>, token: Seq<char>) -> Option<
    Seq<RunningView>,
> {
    if live_members(live, token).len() > 0 {
        Some(live_members(live, token))
    } else {
        match live_named(live, token) {
            Some(r) => Some(seq![r]),
            None => None,
        }
    }
}

/// The report on a token that names no live instance: a known project is not
/// running, anything else is unknown.
pub open spec fn idle_report(cat: Seq<ProjectView>, token: Seq<char>) -> Seq<char> {
    match named(cat, token) {
        Some(p) => not_running_text(p.label()),
        None => unknown_text(token),
    }
}

/// The projects that the tokens name, in the order of the tokens.
pub open spec fn expand_all(cat: Seq<ProjectView>, tokens: Seq<Seq<char>>) -> Seq<ProjectView>
    decreases tokens.len(),
{
    if tokens.len() == 0 {
        Seq::empty()
    } else {
        expand_all(cat, tokens.drop_last()) + match expand(cat, tokens.last()) {
            Some(ps) => ps,
            None => Seq::empty(),
        }
    }
}

/// One report for each token that names nothing, in the order of the tokens.
pub open spec fn unknown_reports(cat: Seq<ProjectView>, tokens: Seq<Seq<char>>) -> Seq<Seq<char>>
    decreases tokens.len(),
{
    if tokens.len() == 0 {
        Seq::empty()
    } else {
        unknown_reports(cat, tokens.drop_last()) + match expand(cat, tokens.last()) {
            Some(ps) => Seq::empty(),
            None => seq![unknown_text(tokens.last())],
        }
    }
}

/// The live instances that the tokens name, in the order of the tokens.
pub open spec fn expand_all_running(live: Seq<RunningView>, tokens: Seq<Seq<char>>) -> Seq<
    RunningView,
>
    decreases tokens.len(),
{
    if tokens.len() == 0 {
        Seq::empty()
    } else {
        expand_all_running(live, tokens.drop_last()) + match expand_running(live, tokens.last()) {
            Some(rs) => rs,
            None => Seq::empty(),
        }
    }
}

/// One report for each token that names no live instance, in the order of the tokens.
pub open spec fn idle_reports(
    cat: Seq<ProjectView>,
    live: Seq<RunningView>,
    tokens: Seq<Seq<char>>,
) -> Seq<Seq<char>>
    decreases tokens.len(),
{
    if tokens.len() == 0 {
        Seq::empty()
    } else {
        idle_reports(cat, live, tokens.drop_last()) + match expand_running(live, tokens.last()) {
            Some(rs) => Seq::empty(),
            None => seq![idle_report(cat, tokens.last())],
        }
    }
}

/// Projects without repetitions: of those that share a name the first stays.
pub open spec fn distinct_projects(s: Seq<ProjectView>) -> Seq<ProjectView> {
    distinct_by(s, |p: ProjectView| p.name)
}

/// Instances without repetitions: of those that share name and handle the
/// first stays.
pub open spec fn distinct_instances(s: Seq<RunningView>) -> Seq<RunningView> {
    distinct_by(s, |r: RunningView| (r.project.name, r.pid))
}

impl ActionArg {
    /// The projects that the argument stands for.
    pub open spec fn projects(self) -> Seq<ProjectView> {
        match self {
            ActionArg::Project(p) => seq![p@],
            ActionArg::Group(g) => g.deep_view(),
        }
    }

    /// Resolves a token against the catalog, group tags first.
    pub fn from_str(s: &String, projects: &Vec<Project>) -> (r: Result<ActionArg, UnknownTarget>)
        ensures
            match r {
                Ok(arg) => {
                    &&& expand(projects.deep_view(), s@) == Some(arg.projects())
                    &&& arg is Group <==> members(projects.deep_view(), s@).len() > 0
                },
                Err(e) => {
                    &&& expand(projects.deep_view(), s@) is None
                    &&& e.token@ == s@
                    &&& e.projects.deep_view() == names(projects.deep_view())
                    &&& e.groups.deep_view() == distinct(group_tags(projects.deep_view()))
                },
            },
    {
        let group = group_members(s, projects);
        if group.len() > 0 {
            return Ok(ActionArg::Group(group));
        }
        match lookup(s, projects) {
            Some(p) => Ok(ActionArg::Project(p)),
            None => {
                let tags = all_group_tags(projects);
                Err(
                    UnknownTarget {
                        token: copy(s),
                        projects: project_names(projects),
                        groups: unique(&tags),
                    },
                )
            },
        }
    }

    /// The projects that the argument stands for.
    pub fn into_projects(self) -> (r: Vec<Project>)
        ensures
            r.deep_view() == self.projects(),
    {
        match self {
            ActionArg::Project(p) => {
                let mut v: Vec<Project> = Vec::new();
                let ghost pv = p@;
                v.push(p);
                assert(v.deep_view() =~= seq![pv]);
                v
            },
            ActionArg::Group(g) => g,
        }
    }
}

/// What a token of `stop` or `restart` resolved to, and the report where it
/// names no live instance.
#[derive(Clone, Debug, PartialEq, Eq)]
pub struct RunningResolution {
    pub arg: ActionArgRunning,
    pub diagnostic: Option<String>,
}

impl ActionArgRunning {
    /// The instances that the argument stands for.
    pub open spec fn instances(self) -> Seq<RunningView> {
        match self {
            ActionArgRunning::Project(r) => seq![r@],
            ActionArgRunning::Group(g) => g.deep_view(),
        }
    }

    /// Resolves a token against the live instances, group tags first. A token
    /// that names no live instance gives the empty group and a report.
    pub fn from_str(s: &String, projects: &Vec<Project>, live: &Vec<RunningProject>) -> (r:
        RunningResolution)
        ensures
            match expand_running(live.deep_view(), s@) {
                Some(rs) => r.arg.instances() == rs && r.diagnostic is None,
                None => {
                    &&& r.arg.instances() == Seq::<RunningView>::empty()
                    &&& r.diagnostic.deep_view() == Some(idle_report(projects.deep_view(), s@))
                },
            },
            r.arg is Project <==> live_members(live.deep_view(), s@).len() == 0 && live_named(
                live.deep_view(),
                s@,
            ) is Some,
    {
        let group = running_members(s, live);
        if group.len() > 0 {
            return RunningResolution { arg: ActionArgRunning::Group(group), diagnostic: None };
        }
        match find_running(s, live) {
            Some(r) => RunningResolution { arg: ActionArgRunning::Project(r), diagnostic: None },
            None => {
                let text = match lookup(s, projects) {
                    Some(p) => {
                        let label = p.label();
                        not_running(&label)
                    },
                    None => unknown(s),
                };
                let none: Vec<RunningProject> = Vec::new();
                assert(none.deep_view() =~= Seq::<RunningView>::empty());
                RunningResolution { arg: ActionArgRunning::Group(none), diagnostic: Some(text) }
            },
        }
    }

    /// The instances that the argument stands for.
    pub fn into_instances(self) -> (r: Vec<RunningProject>)
        ensures
            r.deep_view() == self.instances(),
    {
        match self {
            ActionArgRunning::Project(p) => {
                let mut v: Vec<RunningProject> = Vec::new();
                let ghost pv = p@;
                v.push(p);
                assert(v.deep_view() =~= seq![pv]);
                v
            },
            ActionArgRunning::Group(g) => g,
        }
    }
}

/// The projects of `list` without repetitions: of those that share a name
/// the first stays.
pub fn unique_projects(list: &Vec<Project>) -> (r: Vec<Project>)
    ensures
        r.deep_view() == distinct_projects(list.deep_view()),
{
    let ghost all = list.deep_view();
    let ghost key = |p: ProjectView| p.name;
    let mut out: Vec<Project> = Vec::new();
    let mut i: usize = 0;
    assert(out.deep_view() =~= distinct_by(all.take(0), key));
    while i < list.len()
        invariant
            i <= list.len(),
            all == list.deep_view(),
            key == |p: ProjectView| p.name,
            out.deep_view() == distinct_by(all.take(i as int), key),
        decreases list.len() - i,
    {
        let mut seen = false;
        let mut j: usize = 0;
        while j < i
            invariant
                j <= i < list.len(),
                all == list.deep_view(),
                seen == exists|k: int| 0 <= k < j && (#[trigger] all[k]).name == all[i as int].name,
            decreases i - j,
        {
            if same(&list[j].name, &list[i].name) {
                assert(all[j as int].name == all[i as int].name);
                seen = true;
            }
            j += 1;
        }
        proof {
            if seen {
                let k = choose|k: int| 0 <= k < i && (#[trigger] all[k]).name == all[i as int].name;
                assert(key(all[k]) == key(all[i as int]));
            }
            assert(seen == seen_before(all, key, i as int));
            lemma_distinct_step(all, key, i as int);
        }
        let ghost before = out.deep_view();
        if !seen {
            out.push(list[i].duplicate());
            assert(out.deep_view() =~= before.push(all[i as int]));
        }
        i += 1;
    }
    assert(all.take(list.len() as int) =~= all);
    out
}

/// The instances of `list` without repetitions: of those that share name and
/// handle the first stays.
pub fn unique_instances(list: &Vec<RunningProject>) -> (r: Vec<RunningProject>)
    ensures
        r.deep_view() == distinct_instances(list.deep_view()),
{
    let ghost all = list.deep_view();
    let ghost key = |r: RunningView| (r.project.name, r.pid);
    let mut out: Vec<RunningProject> = Vec::new();
    let mut i: usize = 0;
    assert(out.deep_view() =~= distinct_by(all.take(0), key));
    while i < list.len()
        invariant
            i <= list.len(),
            all == list.deep_view(),
            key == |r: RunningView| (r.project.name, r.pid),
            out.deep_view() == distinct_by(all.take(i as int), key),
        decreases list.len() - i,
    {
        let mut seen = false;
        let mut j: usize = 0;
        while j < i
            invariant
                j <= i < list.len(),
                all == list.deep_view(),
                seen == exists|k: int|
                    0 <= k < j && (#[trigger] all[k]).project.name == all[i as int].project.name
                        && all[k].pid == all[i as int].pid,
            decreases i - j,
        {
            if same(&list[j].name, &list[i].name) && list[j].pid == list[i].pid {
                assert(all[j as int].project.name == all[i as int].project.name);
                seen = true;
            }
            j += 1;
        }
        proof {
            if seen {
                let k = choose|k: int|
                    0 <= k < i && (#[trigger] all[k]).project.name == all[i as int].project.name
                        && all[k].pid == all[i as int].pid;
                assert(key(all[k]) == key(all[i as int]));
            }
            assert(seen == seen_before(all, key, i as int));
            lemma_distinct_step(all, key, i as int);
        }
        let ghost before = out.deep_view();
        if !seen {
            out.push(list[i].duplicate());
            assert(out.deep_view() =~= before.push(all[i as int]));
        }
        i += 1;
    }
    assert(all.take(list.len() as int) =~= all);
    out
}

/// The projects that a command line names, and the reports on its tokens.
#[derive(Clone, Debug, PartialEq, Eq)]
pub struct Targets {
    pub projects: Vec<Project>,
    pub diagnostics: Vec<String>,
}

/// The live instances that a command line names, and the reports on its tokens.
#[derive(Clone, Debug, PartialEq, Eq)]
pub struct RunningTargets {
    pub instances: Vec<RunningProject>,
    pub diagnostics: Vec<String>,
}

/// Appends copies of the projects of `more`.
fn append_projects(out: &mut Vec<Project>, more: Vec<Project>)
    ensures
        final(out).deep_view() == old(out).deep_view() + more.deep_view(),
{
    let ghost start = out.deep_view();
    let mut i: usize = 0;
    assert(out.deep_view() =~= start + more.deep_view().take(0));
    while i < more.len()
        invariant
            i <= more.len(),
            out.deep_view() == start + more.deep_view().take(i as int),
        decreases more.len() - i,
    {
        let ghost before = out.deep_view();
        out.push(more[i].duplicate());
        assert(out.deep_view() =~= before.push(more.deep_view()[i as int]));
        assert(more.deep_view().take(i as int + 1) =~= more.deep_view().take(i as int).push(
            more.deep_view()[i as int],
        ));
        i += 1;
    }
    assert(more.deep_view().take(more.len() as int) =~= more.deep_view());
}

/// Appends copies of the instances of `more`.
fn append_instances(out: &mut Vec<RunningProject>, more: Vec<RunningProject>)
    ensures
        final(out).deep_view() == old(out).deep_view() + more.deep_view(),
{
    let ghost start = out.deep_view();
    let mut i: usize = 0;
    assert(out.deep_view() =~= start + more.deep_view().take(0));
    while i < more.len()
        invariant
            i <= more.len(),
            out.deep_view() == start + more.deep_view().take(i as int),
        decreases more.len() - i,
    {
        let ghost before = out.deep_view();
        out.push(more[i].duplicate());
        assert(out.deep_view() =~= before.push(more.deep_view()[i as int]));
        assert(more.deep_view().take(i as int + 1) =~= more.deep_view().take(i as int).push(
            more.deep_view()[i as int],
        ));
        i += 1;
    }
    assert(more.deep_view().take(more.len() as int) =~= more.deep_view());
}

/// Resolves the tokens of `start`: every project that they name, once, in the
/// order of the tokens, and a report for each token that names nothing.
pub fn resolve_projects(tokens: &Vec<String>, projects: &Vec<Project>) -> (r: Targets)
    ensures
        r.projects.deep_view() == distinct_projects(
            expand_all(projects.deep_view(), tokens.deep_view()),
        ),
        r.diagnostics.deep_view() == unknown_reports(projects.deep_view(), tokens.deep_view()),
{
    let ghost cat = projects.deep_view();
    let ghost toks = tokens.deep_view();
    let mut found: Vec<Project> = Vec::new();
    let mut diagnostics: Vec<String> = Vec::new();
    let mut i: usize = 0;
    assert(found.deep_view() =~= expand_all(cat, toks.take(0)));
    assert(diagnostics.deep_view() =~= unknown_reports(cat, toks.take(0)));
    while i < tokens.len()
        invariant
            i <= tokens.len(),
            cat == projects.deep_view(),
            toks == tokens.deep_view(),
            found.deep_view() == expand_all(cat, toks.take(i as int)),
            diagnostics.deep_view() == unknown_reports(cat, toks.take(i as int)),
        decreases tokens.len() - i,
    {
        proof {
            assert(toks.take(i as int + 1).drop_last() =~= toks.take(i as int));
            assert(toks.take(i as int + 1).last() == toks[i as int]);
        }
        let ghost before = diagnostics.deep_view();
        match ActionArg::from_str(&tokens[i], projects) {
            Ok(arg) => {
                append_projects(&mut found, arg.into_projects());
                assert(diagnostics.deep_view() =~= before + Seq::<Seq<char>>::empty());
            },
            Err(e) => {
                diagnostics.push(unknown(&tokens[i]));
                assert(diagnostics.deep_view() =~= before + seq![unknown_text(toks[i as int])]);
                assert(found.deep_view() =~= found.deep_view() + Seq::<ProjectView>::empty());
            },
        }
        i += 1;
    }
    assert(toks.take(tokens.len() as int) =~= toks);
    Targets { projects: unique_projects(&found), diagnostics }
}

/// Resolves the tokens of `stop` or `restart`: every live instance that they
/// name, once, in the order of the tokens, and a report for each token that
/// names none.
pub fn resolve_running(
    tokens: &Vec<String>,
    projects: &Vec<Project>,
    live: &Vec<RunningProject>,
) -> (r: RunningTargets)
    ensures
        r.instances.deep_view() == distinct_instances(
            expand_all_running(live.deep_view(), tokens.deep_view()),
        ),
        r.diagnostics.deep_view() == idle_reports(
            projects.deep_view(),
            live.deep_view(),
            tokens.deep_view(),
        ),
{
    let ghost cat = projects.deep_view();
    let ghost all = live.deep_view();
    let ghost toks = tokens.deep_view();
    let mut found: Vec<RunningProject> = Vec::new();
    let mut diagnostics: Vec<String> = Vec::new();
    let mut i: usize = 0;
    assert(found.deep_view() =~= expand_all_running(all, toks.take(0)));
    assert(diagnostics.deep_view() =~= idle_reports(cat, all, toks.take(0)));
    while i < tokens.len()
        invariant
            i <= tokens.len(),
            cat == projects.deep_view(),
            all == live.deep_view(),
            toks == tokens.deep_view(),
            found.deep_view() == expand_all_running(all, toks.take(i as int)),
            diagnostics.deep_view() == idle_reports(cat, all, toks.take(i as int)),
        decreases tokens.len() - i,
    {
        proof {
            assert(toks.take(i as int + 1).drop_last() =~= toks.take(i as int));
            assert(toks.take(i as int + 1).last() == toks[i as int]);
        }
        let ghost before = diagnostics.deep_view();
        let ghost found_before = found.deep_view();
        let res = ActionArgRunning::from_str(&tokens[i], projects, live);
        append_instances(&mut found, res.arg.into_instances());
        match res.diagnostic {
            Some(text) => {
                let ghost t = text@;
                diagnostics.push(text);
                assert(diagnostics.deep_view() =~= before + seq![t]);
                assert(found.deep_view() =~= found_before);
            },
            None => {
                assert(diagnostics.deep_view() =~= before + Seq::<Seq<char>>::empty());
            },
        }
        i += 1;
    }
    assert(toks.take(tokens.len() as int) =~= toks);
    RunningTargets { instances: unique_instances(&found), diagnostics }
}

/// What `start` or `run` is asked for: named targets, or a one-off command
/// under a name.
#[derive(Clone, Debug, PartialEq, Eq)]
pub enum Request {
    Named(Vec<String>),
    OneOff { name: String, cmd: String },
}

/// Why a command line asks for nothing that can be done.
#[derive(Clone, Copy, Debug, PartialEq, Eq, Structural)]
pub enum UsageError {
    /// Neither targets nor a command are given.
    Nothing,
    /// A command is given without the name that it needs.
    CommandWithoutName,
    /// A name is given without a command.
    NameWithoutCommand,
    /// Targets are given together with a command or a name.
    Both,
}

/// What a request says, as mathematical values.
pub enum RequestView {
    Named(Seq<Seq<char>>),
    OneOff { name: Seq<char>, cmd: Seq<char> },
}

impl View for Request {
    type V = RequestView;

    open spec fn view(&self) -> RequestView {
        match self {
            Request::Named(tokens) => RequestView::Named(tokens.deep_view()),
            Request::OneOff { name, cmd } => RequestView::OneOff { name: name@, cmd: cmd@ },
        }
    }
}

/// The request that the three parts of a command line make: targets alone,
/// or a command together with a name, and nothing else.
pub open spec fn request_of(
    targets: Option<Seq<Seq<char>>>,
    name: Option<Seq<char>>,
    cmd: Option<Seq<char>>,
) -> Result<RequestView, UsageError> {
    match (targets, name, cmd) {
        (Some(t), None, None) => Ok(RequestView::Named(t)),
        (None, Some(n), Some(c)) => Ok(RequestView::OneOff { name: n, cmd: c }),
        (None, None, None) => Err(UsageError::Nothing),
        (None, None, Some(c)) => Err(UsageError::CommandWithoutName),
        (None, Some(n), None) => Err(UsageError::NameWithoutCommand),
        _ => Err(UsageError::Both),
    }
}

/// What a request decision says, as mathematical values.
pub open spec fn request_outcome(r: Result<Request, UsageError>) -> Result<RequestView, UsageError> {
    match r {
        Ok(q) => Ok(q@),
        Err(e) => Err(e),
    }
}

/// Reads the request off the parts of a command line.
pub fn request(targets: Option<Vec<String>>, name: Option<String>, cmd: Option<String>) -> (r:
    Result<Request, UsageError>)
    ensures
        request_outcome(r) == request_of(targets.deep_view(), name.deep_view(), cmd.deep_view()),
{
    match targets {
        Some(t) => {
            if name.is_none() && cmd.is_none() {
                Ok(Request::Named(t))
            } else {
                Err(UsageError::Both)
            }
        },
        None => match name {
            Some(n) => match cmd {
                Some(c) => Ok(Request::OneOff { name: n, cmd: c }),
                None => Err(UsageError::NameWithoutCommand),
            },
            None => match cmd {
                Some(_) => Err(UsageError::CommandWithoutName),
                None => Err(UsageError::Nothing),
            },
        },
    }
}

} // verus!
