//! The supervisor's configuration and its registry of live instances.

use crate::live::{find_running, is_live, live_named};
use crate::project::{Project, ProjectView, RunningProject, RunningView, WorkerProject};
use crate::numeral::read;
use crate::record::{
    file_name, parse_file_name, record_key, record_name, split_file_name, split_record_name,
};
use crate::text::{copy, same};
use vstd::prelude::*;
use vstd::string::*;

verus! {

/// The catalog as the configuration file holds it.
#[derive(Clone, Debug, PartialEq, Eq)]
pub struct Config {
    pub project: Vec<Project>,
}

/// The catalog of projects and the directories of state and logs.
#[derive(Clone, Debug, PartialEq, Eq)]
pub struct WorkerConfig {
    pub projects: Vec<Project>,
    pub state_dir: String,
    pub log_dir: String,
    pub claim_dir: String,
}

/// One file of the state directory: its name, and the project description
/// that its content holds, if the content could be read as one.
#[derive(Clone, Debug, PartialEq, Eq)]
pub struct StateEntry {
    pub file_name: String,
    pub body: Option<Project>,
}

/// One file of the state directory, as mathematical values.
pub struct EntryView {
    pub file_name: Seq<char>,
    pub body: Option<ProjectView>,
}

impl View for StateEntry {
    type V = EntryView;

    open spec fn view(&self) -> EntryView {
        EntryView { file_name: self.file_name@, body: self.body.deep_view() }
    }
}

impl DeepView for StateEntry {
    type V = EntryView;

    open spec fn deep_view(&self) -> EntryView {
        self@
    }
}

/// What the registry makes of one file.
pub enum Verdict {
    /// A file that stands for no live instance, or that cannot be read as
    /// a record at all: it is to be deleted.
    Stale,
    /// The record of a live instance.
    Live(RunningView),
}

/// A file below a directory.
pub open spec fn path_in(dir: Seq<char>, name: Seq<char>) -> Seq<char> {
    dir + seq!['/'] + name
}

impl EntryView {
    /// The project's name that the file's name holds: what stands before
    /// the last dash, or, where the name has no dash, all of it.
    pub open spec fn owner(self) -> Seq<char> {
        match split_record_name(self.file_name) {
            Some((name, handle)) => name,
            None => self.file_name,
        }
    }

    /// The handle that the file's name holds.
    pub open spec fn handle(self) -> Option<i32> {
        match record_key(self.file_name) {
            Some((name, pid)) => Some(pid),
            None => None,
        }
    }

    /// A file is the record of a live instance where its name holds a
    /// project's name and a handle, its content holds the description of
    /// the project that the name says, and the handle's process group has
    /// live members. Any other file is stale: one whose name or content
    /// cannot be read as well as one whose process group has ended.
    pub open spec fn verdict(self, alive: Seq<i32>) -> Verdict {
        match (record_key(self.file_name), self.body) {
            (Some((name, pid)), Some(p)) => if p.name == name && alive.contains(pid) {
                Verdict::Live(RunningView { project: p, pid })
            } else {
                Verdict::Stale
            },
            _ => Verdict::Stale,
        }
    }
}

/// The handles that the files' names hold, in the order of the files.
pub open spec fn handles_of(entries: Seq<EntryView>) -> Seq<i32> {
    entries.filter_map(|e: EntryView| e.handle())
}

/// The live instances among the files, in the order of the files.
pub open spec fn live_of(entries: Seq<EntryView>, alive: Seq<i32>) -> Seq<RunningView> {
    entries.filter_map(
        |e: EntryView|
            match e.verdict(alive) {
                Verdict::Live(r) => Some(r),
                _ => None,
            },
    )
}

/// The names of the stale files, in the order of the files.
pub open spec fn stale_of(entries: Seq<EntryView>, alive: Seq<i32>) -> Seq<Seq<char>> {
    entries.filter_map(
        |e: EntryView|
            match e.verdict(alive) {
                Verdict::Stale => Some(e.file_name),
                _ => None,
            },
    )
}

/// The names of the stale records of the project called `name`, in the order
/// of the files.
pub open spec fn stale_named(entries: Seq<EntryView>, alive: Seq<i32>, name: Seq<char>) -> Seq<
    Seq<char>,
> {
    entries.filter_map(
        |e: EntryView|
            if e.verdict(alive) is Stale && e.owner() == name {
                Some(e.file_name)
            } else {
                None
            },
    )
}

/// The projects that the values carry.
pub open spec fn specs_of<T: WorkerProject>(s: Seq<T>) -> Seq<ProjectView> {
    s.map_values(|t: T| t.spec_project())
}

/// For each target that is live, in the order of the targets, the first live
/// instance with its name.
pub open spec fn running_part(live: Seq<RunningView>, targets: Seq<ProjectView>) -> Seq<
    RunningView,
> {
    targets.filter_map(|t: ProjectView| live_named(live, t.name))
}

/// The targets that are not live, in their order.
pub open spec fn idle_part(live: Seq<RunningView>, targets: Seq<ProjectView>) -> Seq<ProjectView> {
    targets.filter(|t: ProjectView| !is_live(live, t.name))
}

/// The registry's answer on one name: the live instance, if there is one,
/// and the stale records of that name, which are to be deleted.
#[derive(Clone, Debug, PartialEq, Eq)]
pub struct Lookup {
    pub instance: Option<RunningProject>,
    pub stale: Vec<String>,
}

/// The registry after a read: the live instances, and the files to delete.
#[derive(Clone, Debug, PartialEq, Eq)]
pub struct Reconciled {
    pub live: Vec<RunningProject>,
    pub stale: Vec<String>,
}

/// Whether `alive` holds the handle.
fn has_handle(alive: &Vec<i32>, pid: i32) -> (r: bool)
    ensures
        r == alive@.contains(pid),
{
    let mut i: usize = 0;
    while i < alive.len()
        invariant
            i <= alive.len(),
            forall|k: int| 0 <= k < i ==> alive@[k] != pid,
        decreases alive.len() - i,
    {
        if alive[i] == pid {
            return true;
        }
        i += 1;
    }
    false
}

/// What the registry makes of one file, with the instance where it is live.
enum Judged {
    Stale,
    Live(RunningProject),
}

/// Judges one file of the state directory.
fn judge(entry: &StateEntry, alive: &Vec<i32>) -> (r: Judged)
    ensures
        match entry@.verdict(alive@) {
            Verdict::Stale => r is Stale,
            Verdict::Live(v) => r is Live && r->0@ == v,
        },
{
    match split_file_name(&entry.file_name) {
        None => Judged::Stale,
        Some((name, handle)) => match (read(handle.as_str()), &entry.body) {
            (Some(pid), Some(p)) => {
                if same(&p.name, &name) && has_handle(alive, pid) {
                    Judged::Live(p.duplicate().into_running(pid))
                } else {
                    Judged::Stale
                }
            },
            _ => Judged::Stale,
        },
    }
}

/// Whether the file is a stale record of the project called `name`.
fn stale_for(entry: &StateEntry, alive: &Vec<i32>, name: &String) -> (r: bool)
    ensures
        r == (entry@.verdict(alive@) is Stale && entry@.owner() == name@),
{
    let owned = match split_file_name(&entry.file_name) {
        None => same(&entry.file_name, name),
        Some((owner, _)) => same(&owner, name),
    };
    owned && match judge(entry, alive) {
        Judged::Stale => true,
        _ => false,
    }
}

impl WorkerConfig {
    /// The configuration of the catalog `config` found in the directory `base_dir`.
    pub fn new(config: Config, base_dir: &String) -> (r: WorkerConfig)
        ensures
            r.projects.deep_view() == config.project.deep_view(),
            r.state_dir@ == path_in(base_dir@, ".worker/state"@),
            r.log_dir@ == path_in(base_dir@, ".worker/log"@),
            r.claim_dir@ == path_in(base_dir@, ".worker/claim"@),
    {
        proof {
            reveal_strlit("/");
        }
        let mut state_dir = copy(base_dir);
        state_dir.append("/");
        state_dir.append(".worker/state");
        let mut log_dir = copy(base_dir);
        log_dir.append("/");
        log_dir.append(".worker/log");
        let mut claim_dir = copy(base_dir);
        claim_dir.append("/");
        claim_dir.append(".worker/claim");
        assert(state_dir@ =~= path_in(base_dir@, ".worker/state"@));
        assert(log_dir@ =~= path_in(base_dir@, ".worker/log"@));
        assert(claim_dir@ =~= path_in(base_dir@, ".worker/claim"@));
        WorkerConfig { projects: config.project, state_dir, log_dir, claim_dir }
    }

    /// The file that receives the output of the project.
    pub fn log_file<T: WorkerProject>(&self, project: &T) -> (r: String)
        ensures
            r@ == path_in(self.log_dir@, project.spec_project().name),
    {
        proof {
            reveal_strlit("/");
        }
        let mut out = copy(&self.log_dir);
        out.append("/");
        out.append(project.name());
        assert(out@ =~= path_in(self.log_dir@, project.spec_project().name));
        out
    }

    /// The file whose creation claims the project's name: one for each
    /// name, so that of two processes that create it at once one fails.
    pub fn claim_file<T: WorkerProject>(&self, project: &T) -> (r: String)
        ensures
            r@ == path_in(self.claim_dir@, project.spec_project().name),
    {
        proof {
            reveal_strlit("/");
        }
        let mut out = copy(&self.claim_dir);
        out.append("/");
        out.append(project.name());
        assert(out@ =~= path_in(self.claim_dir@, project.spec_project().name));
        out
    }

    /// The file that holds the record `file_name`.
    pub fn state_file(&self, file_name: &String) -> (r: String)
        ensures
            r@ == path_in(self.state_dir@, file_name@),
    {
        proof {
            reveal_strlit("/");
        }
        let mut out = copy(&self.state_dir);
        out.append("/");
        out.append(file_name.as_str());
        assert(out@ =~= path_in(self.state_dir@, file_name@));
        out
    }

    /// The record to write for the instance of `project` under the handle `pid`.
    pub fn store_state(&self, pid: i32, project: &Project) -> (r: StateEntry)
        ensures
            r@ == (EntryView {
                file_name: record_name(project@.name, pid),
                body: Some(project@),
            }),
    {
        StateEntry { file_name: file_name(&project.name, pid), body: Some(project.duplicate()) }
    }

    /// The handles that the files' names hold: those whose process groups
    /// are to be asked for live members.
    pub fn handles(&self, entries: &Vec<StateEntry>) -> (r: Vec<i32>)
        ensures
            r@ == handles_of(entries.deep_view()),
    {
        let ghost all = entries.deep_view();
        let ghost f = |e: EntryView| e.handle();
        let mut out: Vec<i32> = Vec::new();
        let mut i: usize = 0;
        assert(out@ =~= all.take(0).filter_map(f));
        while i < entries.len()
            invariant
                i <= entries.len(),
                all == entries.deep_view(),
                f == |e: EntryView| e.handle(),
                out@ == all.take(i as int).filter_map(f),
            decreases entries.len() - i,
        {
            proof {
                assert(all.take(i as int + 1).drop_last() =~= all.take(i as int));
                assert(all.take(i as int + 1).last() == all[i as int]);
            }
            let ghost before = out@;
            match parse_file_name(&entries[i].file_name) {
                Some((name, pid)) => {
                    out.push(pid);
                    assert(out@ =~= before + seq![pid]);
                },
                None => {},
            }
            i += 1;
        }
        assert(all.take(entries.len() as int) =~= all);
        out
    }

    /// Reads the registry: the live instances among the files, and the
    /// stale files, which are to be deleted. `alive` holds the handles whose
    /// process groups have live members.
    pub fn running(&self, entries: &Vec<StateEntry>, alive: &Vec<i32>) -> (r: Reconciled)
        ensures
            r.live.deep_view() == live_of(entries.deep_view(), alive@),
            r.stale.deep_view() == stale_of(entries.deep_view(), alive@),
    {
        let ghost all = entries.deep_view();
        let ghost fl = |e: EntryView|
            match e.verdict(alive@) {
                Verdict::Live(r) => Some(r),
                _ => None,
            };
        let ghost fs = |e: EntryView|
            match e.verdict(alive@) {
                Verdict::Stale => Some(e.file_name),
                _ => None,
            };
        let mut live: Vec<RunningProject> = Vec::new();
        let mut stale: Vec<String> = Vec::new();
        let mut i: usize = 0;
        assert(live.deep_view() =~= all.take(0).filter_map(fl));
        assert(stale.deep_view() =~= all.take(0).filter_map(fs));
        while i < entries.len()
            invariant
                i <= entries.len(),
                all == entries.deep_view(),
                fl == |e: EntryView|
                    match e.verdict(alive@) {
                        Verdict::Live(r) => Some(r),
                        _ => None,
                    },
                fs == |e: EntryView|
                    match e.verdict(alive@) {
                        Verdict::Stale => Some(e.file_name),
                        _ => None,
                    },
                live.deep_view() == all.take(i as int).filter_map(fl),
                stale.deep_view() == all.take(i as int).filter_map(fs),
            decreases entries.len() - i,
        {
            proof {
                assert(all.take(i as int + 1).drop_last() =~= all.take(i as int));
                assert(all.take(i as int + 1).last() == all[i as int]);
            }
            let ghost live0 = live.deep_view();
            let ghost stale0 = stale.deep_view();
            match judge(&entries[i], alive) {
                Judged::Stale => {
                    stale.push(copy(&entries[i].file_name));
                    assert(stale.deep_view() =~= stale0 + seq![all[i as int].file_name]);
                },
                Judged::Live(r) => {
                    let ghost rv = r@;
                    live.push(r);
                    assert(live.deep_view() =~= live0 + seq![rv]);
                },
            }
            i += 1;
        }
        assert(all.take(entries.len() as int) =~= all);
        Reconciled { live, stale }
    }

    /// Looks one name up in the registry, as a full read would: the live
    /// instance of the project called `name`, the first among the files if
    /// there are several, and the stale records of that name, which are to
    /// be deleted.
    pub fn get_state(&self, entries: &Vec<StateEntry>, alive: &Vec<i32>, name: &String) -> (r:
        Lookup)
        ensures
            r.instance.deep_view() == live_named(live_of(entries.deep_view(), alive@), name@),
            r.stale.deep_view() == stale_named(entries.deep_view(), alive@, name@),
    {
        let seen = self.running(entries, alive);
        let ghost all = entries.deep_view();
        let ghost fs = |e: EntryView|
            if e.verdict(alive@) is Stale && e.owner() == name@ {
                Some(e.file_name)
            } else {
                None
            };
        let mut stale: Vec<String> = Vec::new();
        let mut i: usize = 0;
        assert(stale.deep_view() =~= all.take(0).filter_map(fs));
        while i < entries.len()
            invariant
                i <= entries.len(),
                all == entries.deep_view(),
                fs == |e: EntryView|
                    if e.verdict(alive@) is Stale && e.owner() == name@ {
                        Some(e.file_name)
                    } else {
                        None
                    },
                stale.deep_view() == all.take(i as int).filter_map(fs),
            decreases entries.len() - i,
        {
            proof {
                assert(all.take(i as int + 1).drop_last() =~= all.take(i as int));
                assert(all.take(i as int + 1).last() == all[i as int]);
            }
            let ghost stale0 = stale.deep_view();
            if stale_for(&entries[i], alive, name) {
                stale.push(copy(&entries[i].file_name));
                assert(stale.deep_view() =~= stale0 + seq![all[i as int].file_name]);
            }
            i += 1;
        }
        assert(all.take(entries.len() as int) =~= all);
        Lookup { instance: find_running(name, &seen.live), stale }
    }

    /// Parts the targets into those with a live instance and those without:
    /// for a live target the instance as the registry has it, for any other
    /// its project.
    pub fn partition_projects<T: WorkerProject>(
        &self,
        projects: Vec<T>,
        live: &Vec<RunningProject>,
    ) -> (r: (Vec<RunningProject>, Vec<Project>))
        ensures
            r.0.deep_view() == running_part(live.deep_view(), specs_of(projects@)),
            r.1.deep_view() == idle_part(live.deep_view(), specs_of(projects@)),
    {
        let ghost all = specs_of(projects@);
        let ghost lv = live.deep_view();
        let ghost fr = |t: ProjectView| live_named(lv, t.name);
        let ghost fi = |t: ProjectView| !is_live(lv, t.name);
        let mut rest = projects;
        let mut running: Vec<RunningProject> = Vec::new();
        let mut idle: Vec<Project> = Vec::new();
        let ghost mut i: int = 0;
        proof {
            reveal(Seq::filter);
            assert(running.deep_view() =~= all.take(0).filter_map(fr));
            assert(idle.deep_view() =~= all.take(0).filter(fi));
            assert(specs_of(rest@) =~= all.skip(0));
        }
        while rest.len() > 0
            invariant
                0 <= i <= all.len(),
                lv == live.deep_view(),
                fr == |t: ProjectView| live_named(lv, t.name),
                fi == |t: ProjectView| !is_live(lv, t.name),
                specs_of(rest@) == all.skip(i),
                running.deep_view() == all.take(i).filter_map(fr),
                idle.deep_view() == all.take(i).filter(fi),
            decreases rest.len(),
        {
            let ghost before = rest@;
            let item = rest.remove(0);
            proof {
                reveal(Seq::filter);
                assert(specs_of(before).len() == before.len());
                assert(all.skip(i).len() == all.len() - i);
                assert(specs_of(before)[0] == item.spec_project());
                assert(all.skip(i)[0] == all[i]);
                assert(all.take(i + 1).drop_last() =~= all.take(i));
                assert(all.take(i + 1).last() == all[i]);
                assert(specs_of(rest@) =~= all.skip(i + 1)) by {
                    assert forall|k: int| 0 <= k < rest@.len() implies specs_of(rest@)[k]
                        == all.skip(i + 1)[k] by {
                        assert(rest@[k] == before[k + 1]);
                        assert(specs_of(before)[k + 1] == all.skip(i)[k + 1]);
                    }
                }
            }
            let ghost run0 = running.deep_view();
            let ghost idle0 = idle.deep_view();
            let name = String::from_str(item.name());
            match find_running(&name, live) {
                Some(r) => {
                    let ghost rv = r@;
                    running.push(r);
                    assert(running.deep_view() =~= run0 + seq![rv]);
                },
                None => {
                    idle.push(item.into_project());
                    assert(idle.deep_view() =~= idle0.push(all[i]));
                },
            }
            proof {
                i = i + 1;
            }
        }
        assert(all.take(i) =~= all);
        (running, idle)
    }
}

} // verus!
