//! Projects and their running instances.

use crate::envs::Envs;
use crate::signal::Signal;
use crate::text::{copy, copy_all};
use vstd::prelude::*;
use vstd::string::*;

verus! {

/// What a project description says, as mathematical values.
pub struct ProjectView {
    pub name: Seq<char>,
    pub command: Seq<Seq<char>>,
    pub cwd: Seq<char>,
    pub display: Option<Seq<char>>,
    pub stop_signal: Option<Signal>,
    pub envs: Option<Seq<(Seq<char>, Seq<char>)>>,
    pub group: Option<Seq<Seq<char>>>,
    pub dependencies: Option<Seq<Seq<char>>>,
}

/// What a running instance is: a project and the handle of its process group.
pub struct RunningView {
    pub project: ProjectView,
    pub pid: i32,
}

/// A runnable command with its metadata.
#[derive(Clone, Debug, PartialEq, Eq, Hash)]
pub struct Project {
    pub name: String,
    pub command: Vec<String>,
    pub cwd: String,
    pub display: Option<String>,
    pub stop_signal: Option<Signal>,
    pub envs: Option<Envs>,
    pub group: Option<Vec<String>>,
    pub dependencies: Option<Vec<String>>,
}

/// A project that was detached, with the handle of its process group.
#[derive(Clone, Debug, PartialEq, Eq, Hash)]
pub struct RunningProject {
    pub name: String,
    pub command: Vec<String>,
    pub cwd: String,
    pub display: Option<String>,
    pub stop_signal: Option<Signal>,
    pub envs: Option<Envs>,
    pub group: Option<Vec<String>>,
    pub dependencies: Option<Vec<String>>,
    pub pid: i32,
}

impl View for Project {
    type V = ProjectView;

    open spec fn view(&self) -> ProjectView {
        ProjectView {
            name: self.name@,
            command: self.command.deep_view(),
            cwd: self.cwd@,
            display: self.display.deep_view(),
            stop_signal: self.stop_signal,
            envs: self.envs.deep_view(),
            group: self.group.deep_view(),
            dependencies: self.dependencies.deep_view(),
        }
    }
}

impl DeepView for Project {
    type V = ProjectView;

    open spec fn deep_view(&self) -> ProjectView {
        self@
    }
}

impl View for RunningProject {
    type V = RunningView;

    open spec fn view(&self) -> RunningView {
        RunningView {
            project: ProjectView {
                name: self.name@,
                command: self.command.deep_view(),
                cwd: self.cwd@,
                display: self.display.deep_view(),
                stop_signal: self.stop_signal,
                envs: self.envs.deep_view(),
                group: self.group.deep_view(),
                dependencies: self.dependencies.deep_view(),
            },
            pid: self.pid,
        }
    }
}

impl DeepView for RunningProject {
    type V = RunningView;

    open spec fn deep_view(&self) -> RunningView {
        self@
    }
}

/// What the supervisor can name and start: a project, with or without
/// a live instance.
pub trait WorkerProject: Sized {
    /// The project that the value carries.
    spec fn spec_project(&self) -> ProjectView;

    /// The project's name.
    fn name(&self) -> (r: &str)
        ensures
            r@ == self.spec_project().name,
    ;

    /// The project alone.
    fn into_project(self) -> (p: Project)
        ensures
            p@ == self.spec_project(),
    ;
}

impl WorkerProject for Project {
    open spec fn spec_project(&self) -> ProjectView {
        self@
    }

    fn name(&self) -> (r: &str) {
        self.name.as_str()
    }

    fn into_project(self) -> (p: Project) {
        self
    }
}

impl WorkerProject for RunningProject {
    open spec fn spec_project(&self) -> ProjectView {
        self@.project
    }

    fn name(&self) -> (r: &str) {
        self.name.as_str()
    }

    fn into_project(self) -> (p: Project) {
        Project::from(self)
    }
}

impl Default for Project {
    /// A project without a name and without a command.
    fn default() -> (r: Project)
        ensures
            r@ == ProjectView::blank(),
    {
        let command: Vec<String> = Vec::new();
        assert(command.deep_view() =~= Seq::<Seq<char>>::empty());
        Project {
            name: String::new(),
            command,
            cwd: String::new(),
            display: None,
            stop_signal: None,
            envs: None,
            group: None,
            dependencies: None,
        }
    }
}

impl From<RunningProject> for Project {
    /// The project of an instance, without its handle.
    fn from(value: RunningProject) -> (r: Project) {
        Project {
            name: value.name,
            command: value.command,
            cwd: value.cwd,
            display: value.display,
            stop_signal: value.stop_signal,
            envs: value.envs,
            group: value.group,
            dependencies: value.dependencies,
        }
    }
}

impl vstd::std_specs::convert::FromSpecImpl<RunningProject> for Project {
    open spec fn obeys_from_spec() -> bool {
        true
    }

    open spec fn from_spec(value: RunningProject) -> Project {
        Project {
            name: value.name,
            command: value.command,
            cwd: value.cwd,
            display: value.display,
            stop_signal: value.stop_signal,
            envs: value.envs,
            group: value.group,
            dependencies: value.dependencies,
        }
    }
}

impl ProjectView {
    /// How a project is shown to the user: its display name with the name in
    /// brackets, or the name alone.
    pub open spec fn label(self) -> Seq<char> {
        match self.display {
            Some(d) => d + " ("@ + self.name + ")"@,
            None => self.name,
        }
    }

    /// Whether the project carries the group tag.
    pub open spec fn in_group(self, tag: Seq<char>) -> bool {
        self.group is Some && self.group->0.contains(tag)
    }

    /// The project without a name and without a command.
    pub open spec fn blank() -> ProjectView {
        ProjectView {
            name: Seq::empty(),
            command: Seq::empty(),
            cwd: Seq::empty(),
            display: None,
            stop_signal: None,
            envs: None,
            group: None,
            dependencies: None,
        }
    }

    /// The group tags that the project carries.
    pub open spec fn tags(self) -> Seq<Seq<char>> {
        match self.group {
            Some(g) => g,
            None => Seq::empty(),
        }
    }

    /// The names that the project depends on.
    pub open spec fn deps(self) -> Seq<Seq<char>> {
        match self.dependencies {
            Some(d) => d,
            None => Seq::empty(),
        }
    }

    /// The project that stands for a one-off shell command.
    pub open spec fn one_off(name: Seq<char>, cmd: Seq<char>, cwd: Seq<char>) -> ProjectView {
        ProjectView {
            name,
            command: seq!["sh"@, "-c"@, cmd],
            cwd,
            display: None,
            stop_signal: None,
            envs: None,
            group: None,
            dependencies: None,
        }
    }
}

/// A copy of an optional string.
fn copy_opt(s: &Option<String>) -> (r: Option<String>)
    ensures
        r.deep_view() == s.deep_view(),
{
    match s {
        Some(v) => Some(copy(v)),
        None => None,
    }
}

/// A copy of an optional list of strings.
fn copy_opt_all(s: &Option<Vec<String>>) -> (r: Option<Vec<String>>)
    ensures
        r.deep_view() == s.deep_view(),
{
    match s {
        Some(v) => Some(copy_all(v)),
        None => None,
    }
}

/// A copy of an optional environment.
fn copy_envs(s: &Option<Envs>) -> (r: Option<Envs>)
    ensures
        r.deep_view() == s.deep_view(),
{
    match s {
        Some(v) => Some(v.duplicate()),
        None => None,
    }
}

impl Project {
    /// A copy of the project.
    pub fn duplicate(&self) -> (r: Project)
        ensures
            r@ == self@,
    {
        Project {
            name: copy(&self.name),
            command: copy_all(&self.command),
            cwd: copy(&self.cwd),
            display: copy_opt(&self.display),
            stop_signal: self.stop_signal,
            envs: copy_envs(&self.envs),
            group: copy_opt_all(&self.group),
            dependencies: copy_opt_all(&self.dependencies),
        }
    }

    /// The project that stands for a one-off command: `cmd` run by the shell in `cwd`.
    pub fn from_cmd(name: String, cmd: String, cwd: String) -> (r: Project)
        ensures
            r@ == ProjectView::one_off(name@, cmd@, cwd@),
    {
        let mut command: Vec<String> = Vec::new();
        command.push(String::from_str("sh"));
        command.push(String::from_str("-c"));
        command.push(cmd);
        assert(command.deep_view() =~= seq!["sh"@, "-c"@, cmd@]);
        Project {
            name,
            command,
            cwd,
            display: None,
            stop_signal: None,
            envs: None,
            group: None,
            dependencies: None,
        }
    }

    /// The text that names the project to the user.
    pub fn label(&self) -> (r: String)
        ensures
            r@ == self@.label(),
    {
        label_of(&self.name, &self.display)
    }

    /// The instance that this project gives under the handle `pid`.
    pub fn into_running(self, pid: i32) -> (r: RunningProject)
        ensures
            r@ == (RunningView { project: self@, pid }),
    {
        RunningProject {
            name: self.name,
            command: self.command,
            cwd: self.cwd,
            display: self.display,
            stop_signal: self.stop_signal,
            envs: self.envs,
            group: self.group,
            dependencies: self.dependencies,
            pid,
        }
    }
}

/// The label of a project with this name and display name.
fn label_of(name: &String, display: &Option<String>) -> (r: String)
    ensures
        r@ == match display.deep_view() {
            Some(d) => d + " ("@ + name@ + ")"@,
            None => name@,
        },
{
    match display {
        Some(d) => {
            let mut out = copy(d);
            out.append(" (");
            out.append(name.as_str());
            out.append(")");
            out
        },
        None => copy(name),
    }
}

impl RunningProject {
    /// A copy of the instance.
    pub fn duplicate(&self) -> (r: RunningProject)
        ensures
            r@ == self@,
    {
        RunningProject {
            name: copy(&self.name),
            command: copy_all(&self.command),
            cwd: copy(&self.cwd),
            display: copy_opt(&self.display),
            stop_signal: self.stop_signal,
            envs: copy_envs(&self.envs),
            group: copy_opt_all(&self.group),
            dependencies: copy_opt_all(&self.dependencies),
            pid: self.pid,
        }
    }

    /// The text that names the instance to the user.
    pub fn label(&self) -> (r: String)
        ensures
            r@ == self@.project.label(),
    {
        label_of(&self.name, &self.display)
    }
}

} // verus!
