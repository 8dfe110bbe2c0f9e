use worker::config::{Config, StateEntry, WorkerConfig};
use worker::control::{
    confirm_stop, restart as decide_restart, run as decide_run, start as decide_start,
    stop as stop_signals, RestartStep, StartPlan, StopStatus,
};
use worker::daemon::{begin, look, step, DaemonAction, DaemonEvent, DaemonStep, Fork};
use worker::report;
use worker::catalog::find_project;
use worker::project::{Project, RunningProject};
use worker::record::parse_file_name;
use worker::resolve::{request, resolve_projects, resolve_running, Request};

const MOCK: &str = "/usr/local/bin/mock";
const ECHO: &str = "echo 'Hello from test!'";

#[derive(Clone, Copy)]
enum WorkerTestProject {
    One,
    Two,
    Three,
    Four,
    Five,
    Six,
    GroupOne,
    GroupTwo,
    Unknown,
}

#[derive(Debug, PartialEq, Eq)]
enum PidError {
    FileNotFound,
}

/// A process group of the simulated platform.
struct Group {
    handle: i32,
    command: Vec<String>,
}

/// The supervisor with a state directory and a platform that are held in
/// memory: every decision is the library's, every effect is played here.
struct WorkerTestConfig {
    config: WorkerConfig,
    state: Vec<StateEntry>,
    groups: Vec<Group>,
    logs: Vec<(String, String)>,
    claims: Vec<String>,
    next_pid: i32,
    deaf: Vec<String>,
    clock_ms: u64,
}

/// What a command printed, and whether it succeeded.
struct Outcome {
    success: bool,
    stdout: String,
    stderr: String,
}

fn strings(words: &[&str]) -> Vec<String> {
    words.iter().map(|w| w.to_string()).collect()
}

fn project(name: &str, command: &[&str], group: &[&str], deps: &[&str]) -> Project {
    Project {
        name: name.to_string(),
        command: strings(command),
        cwd: "/".to_string(),
        display: None,
        stop_signal: None,
        envs: None,
        group: if group.is_empty() { None } else { Some(strings(group)) },
        dependencies: if deps.is_empty() { None } else { Some(strings(deps)) },
    }
}

fn stays_alive(command: &[String]) -> bool {
    command.first().map(|p| p == MOCK).unwrap_or(false)
        || command.iter().any(|w| w.contains("sleep"))
}

fn echoed(command: &[String]) -> String {
    let mut out = String::new();
    if command.first().map(|p| p == MOCK).unwrap_or(false) {
        out.push_str("Hello from mock!\n");
    }
    for word in command {
        let mut rest = word.as_str();
        while let Some(at) = rest.find("echo '") {
            let text = &rest[at + 6..];
            match text.find('\'') {
                Some(end) => {
                    out.push_str(&text[..end]);
                    out.push('\n');
                    rest = &text[end + 1..];
                }
                None => break,
            }
        }
    }
    out
}

impl WorkerTestConfig {
    fn new() -> Self {
        let catalog = vec![
            project("svc-1", &[MOCK, "svc-1"], &["grp-1", "grp-2"], &[]),
            project("svc-2", &[MOCK, "svc-2"], &["grp-1"], &[]),
            project("svc-3", &[MOCK, "svc-3"], &["grp-2"], &[]),
            project("svc-4", &["sh", "-c", ECHO], &[], &[]),
            project("svc-5", &[MOCK, "svc-5"], &[], &["svc-1", "svc-2"]),
            project("svc-6", &["sh", "-c", ECHO], &[], &["svc-1", "svc-2"]),
        ];
        WorkerTestConfig {
            config: WorkerConfig::new(Config { project: catalog }, &"/tmp/worker-test".to_string()),
            state: Vec::new(),
            groups: Vec::new(),
            logs: Vec::new(),
            claims: Vec::new(),
            next_pid: 4000,
            deaf: Vec::new(),
            clock_ms: 0,
        }
    }

    fn project_name(&self, project: &WorkerTestProject) -> String {
        match project {
            WorkerTestProject::One => "svc-1".into(),
            WorkerTestProject::Two => "svc-2".into(),
            WorkerTestProject::Three => "svc-3".into(),
            WorkerTestProject::Four => "svc-4".into(),
            WorkerTestProject::Five => "svc-5".into(),
            WorkerTestProject::Six => "svc-6".into(),
            WorkerTestProject::Unknown => "unknown".into(),
            WorkerTestProject::GroupOne => "grp-1".into(),
            WorkerTestProject::GroupTwo => "grp-2".into(),
        }
    }

    fn group_projects(&self, group: &WorkerTestProject) -> [WorkerTestProject; 2] {
        match group {
            WorkerTestProject::GroupOne => [WorkerTestProject::One, WorkerTestProject::Two],
            WorkerTestProject::GroupTwo => [WorkerTestProject::One, WorkerTestProject::Three],
            _ => unreachable!(),
        }
    }

    fn alive(&self) -> Vec<i32> {
        let asked = self.config.handles(&self.state);
        asked.into_iter().filter(|h| self.groups.iter().any(|g| g.handle == *h)).collect()
    }

    /// Reads the registry as every command does: stale records are deleted.
    fn live(&mut self) -> Vec<RunningProject> {
        let alive = self.alive();
        let seen = self.config.running(&self.state, &alive);
        self.state.retain(|e| !seen.stale.contains(&e.file_name));
        seen.live
    }

    /// Plays the caller's side of the protocol up to the first duplication:
    /// the claim of the name, and the look into the registry under the claim.
    fn claim(&mut self, project: &Project) -> DaemonStep {
        let first = begin();
        assert_eq!(first.action, DaemonAction::Claim);
        let file = self.config.claim_file(project);
        let claimed = if self.claims.contains(&file) {
            DaemonEvent::ClaimTaken
        } else {
            self.claims.push(file);
            DaemonEvent::Claimed
        };
        let mut now = step(first.state, claimed);
        if now.action == DaemonAction::Look {
            let live = self.live();
            now = step(now.state, look(project, &live));
        }
        now
    }

    /// Plays what follows the claim: the duplications on all three
    /// processes, or the end without a detachment.
    fn finish(&mut self, project: &Project, claimed: DaemonStep) -> DaemonAction {
        let mut caller = claimed;
        if caller.action == DaemonAction::Fork {
            let child = self.next_pid;
            self.next_pid += 1;
            let launching = caller.state;
            caller = step(launching, DaemonEvent::Forked(Fork::Parent(child)));
            assert_eq!(caller.action, DaemonAction::Wait(child));

            let session = step(launching, DaemonEvent::Forked(Fork::Child));
            assert_eq!(session.action, DaemonAction::NewSession);
            let recording = step(session.state, DaemonEvent::SessionStarted(child));
            let handle = match recording.action {
                DaemonAction::Record(handle) => handle,
                other => panic!("no record asked for: {:?}", other),
            };
            self.state.push(self.config.store_state(handle, project));
            let orphaning = step(recording.state, DaemonEvent::Recorded);
            assert_eq!(orphaning.action, DaemonAction::Fork);
            let grandchild = self.next_pid;
            self.next_pid += 1;

            let inner_parent = step(orphaning.state, DaemonEvent::Forked(Fork::Parent(grandchild)));
            assert_eq!(inner_parent.action, DaemonAction::Exit(0));

            let exec = step(orphaning.state, DaemonEvent::Forked(Fork::Child));
            assert_eq!(exec.action, DaemonAction::Exec);
            match project.run() {
                Some(call) => {
                    let mut command = vec![call.program];
                    command.extend(call.args);
                    let sink = self.config.log_file(project);
                    self.logs.retain(|(path, _)| *path != sink);
                    self.logs.push((sink, echoed(&command)));
                    if stays_alive(&command) {
                        self.groups.push(Group { handle, command });
                    }
                }
                None => {
                    let failed = step(exec.state, DaemonEvent::ExecFailed);
                    assert_eq!(failed.action, DaemonAction::Exit(1));
                }
            }
            caller = step(caller.state, DaemonEvent::Reaped);
        }
        if caller.action == DaemonAction::Release {
            let file = self.config.claim_file(project);
            self.claims.retain(|c| *c != file);
            caller = step(caller.state, DaemonEvent::Released);
        }
        caller.action
    }

    /// Plays the detach protocol for one project from beginning to end.
    fn detach(&mut self, project: &Project) -> DaemonAction {
        let claimed = self.claim(project);
        self.finish(project, claimed)
    }

    fn carry_out(&mut self, plan: StartPlan, out: &mut Outcome) {
        for line in &plan.diagnostics {
            out.stderr.push_str(line);
            out.stderr.push('\n');
        }
        for project in &plan.launches {
            match self.detach(project) {
                DaemonAction::Return => {}
                DaemonAction::AlreadyRunning => {
                    out.stderr.push_str(&report::already_running(&project.label()));
                    out.stderr.push('\n');
                }
                _ => out.success = false,
            }
        }
        for failure in &plan.failures {
            out.stderr.push_str(&failure.message());
            out.stderr.push('\n');
        }
        if plan.hard_error().is_some() {
            out.success = false;
        }
    }

    fn parts(args: &[&str]) -> (Option<Vec<String>>, Option<String>, Option<String>) {
        let mut targets: Vec<String> = Vec::new();
        let mut name = None;
        let mut cmd = None;
        let mut i = 0;
        while i < args.len() {
            if args[i] == "-n" && i + 1 < args.len() {
                name = Some(args[i + 1].to_string());
                i += 2;
            } else if args[i] == "-c" && i + 1 < args.len() {
                cmd = Some(args[i + 1].to_string());
                i += 2;
            } else {
                targets.push(args[i].to_string());
                i += 1;
            }
        }
        (if targets.is_empty() { None } else { Some(targets) }, name, cmd)
    }

    fn start(&mut self, args: &[&str]) -> Outcome {
        let mut out = Outcome { success: true, stdout: String::new(), stderr: String::new() };
        let (targets, name, cmd) = Self::parts(args);
        let projects = match request(targets, name, cmd) {
            Err(_) => {
                out.success = false;
                return out;
            }
            Ok(Request::Named(tokens)) => {
                let found = resolve_projects(&tokens, &self.config.projects);
                for line in &found.diagnostics {
                    out.stdout.push_str(line);
                    out.stdout.push('\n');
                }
                found.projects
            }
            Ok(Request::OneOff { name, cmd }) => vec![Project::from_cmd(name, cmd, "/".to_string())],
        };
        let live = self.live();
        let plan = decide_start(&self.config, &live, projects);
        self.carry_out(plan, &mut out);
        out
    }

    fn signal(&mut self, instances: &Vec<RunningProject>) {
        for wish in stop_signals(instances) {
            let deaf = &self.deaf;
            self.groups.retain(|g| {
                g.handle != wish.handle || deaf.iter().any(|n| g.command.contains(n))
            });
        }
    }

    fn stop(&mut self, tokens: &[&str]) -> Outcome {
        let mut out = Outcome { success: true, stdout: String::new(), stderr: String::new() };
        let live = self.live();
        let found = resolve_running(&strings(tokens), &self.config.projects, &live);
        for line in &found.diagnostics {
            out.stdout.push_str(line);
            out.stdout.push('\n');
        }
        self.signal(&found.instances);
        let started = self.clock_ms;
        loop {
            let live = self.live();
            match confirm_stop(&self.config, &found.instances, &live, self.clock_ms - started) {
                StopStatus::Stopped => return out,
                StopStatus::Waiting => self.clock_ms += 250,
                StopStatus::TimedOut(reports) => {
                    for line in &reports {
                        out.stderr.push_str(line);
                        out.stderr.push('\n');
                    }
                    return out;
                }
            }
        }
    }

    fn restart(&mut self, tokens: &[&str]) -> Outcome {
        let mut out = Outcome { success: true, stdout: String::new(), stderr: String::new() };
        let live = self.live();
        let found = resolve_running(&strings(tokens), &self.config.projects, &live);
        for line in &found.diagnostics {
            out.stdout.push_str(line);
            out.stdout.push('\n');
        }
        self.signal(&found.instances);
        let started = self.clock_ms;
        loop {
            let live = self.live();
            let again: Vec<RunningProject> = found.instances.iter().map(|i| i.duplicate()).collect();
            match decide_restart(&self.config, again, &live, self.clock_ms - started) {
                RestartStep::Wait => self.clock_ms += 250,
                RestartStep::Start { reports, plan } => {
                    for line in &reports {
                        out.stderr.push_str(line);
                        out.stderr.push('\n');
                    }
                    self.carry_out(plan, &mut out);
                    return out;
                }
            }
        }
    }

    fn run(&mut self, args: &[&str]) -> Outcome {
        let mut out = Outcome { success: true, stdout: String::new(), stderr: String::new() };
        let (targets, name, cmd) = Self::parts(args);
        let target = match request(targets, name, cmd) {
            Err(_) => None,
            Ok(Request::Named(tokens)) => {
                if tokens.len() == 1 {
                    find_project(&tokens[0], &self.config.projects).ok()
                } else {
                    None
                }
            }
            Ok(Request::OneOff { name, cmd }) => Some(Project::from_cmd(name, cmd, "/".to_string())),
        };
        let target = match target {
            Some(target) => target,
            None => {
                out.success = false;
                return out;
            }
        };
        let live = self.live();
        match decide_run(&self.config, &live, target) {
            Err(e) => {
                out.stderr.push_str(&e.message());
                out.stderr.push('\n');
                out.success = false;
            }
            Ok(plan) => {
                for project in &plan.launches {
                    self.detach(project);
                }
                match plan.foreground.run() {
                    Some(call) => {
                        let mut command = vec![call.program];
                        command.extend(call.args);
                        out.stdout.push_str(&echoed(&command));
                    }
                    None => out.success = false,
                }
            }
        }
        out
    }

    fn logs(&mut self, args: &[&str]) -> Outcome {
        let mut out = Outcome { success: true, stdout: String::new(), stderr: String::new() };
        let live = self.live();
        let name = args.first().map(|n| n.to_string()).unwrap_or_default();
        match worker::control::logs(&self.config, &live, &name) {
            Ok(plan) => {
                if let Some((_, text)) = self.logs.iter().find(|(path, _)| *path == plan.log_file) {
                    out.stdout.push_str(text);
                }
            }
            Err(report) => {
                out.stderr.push_str(&report);
                out.stderr.push('\n');
                out.success = false;
            }
        }
        out
    }

    fn status(&mut self) -> Vec<String> {
        let live = self.live();
        worker::control::status(&live, true)
    }

    /// The record of the project in the state directory, if there is one.
    fn state_file(&self, name: &str) -> Option<String> {
        self.state
            .iter()
            .find(|e| match parse_file_name(&e.file_name) {
                Some((owner, _)) => owner == name,
                None => false,
            })
            .map(|e| e.file_name.clone())
    }

    /// The handles of the project's process groups with live members.
    fn pids(&self, name: &str) -> Result<Vec<i32>, PidError> {
        let mut found = false;
        let mut pids = Vec::new();
        for entry in &self.state {
            if let Some((owner, handle)) = parse_file_name(&entry.file_name) {
                if owner == name {
                    found = true;
                    if self.groups.iter().any(|g| g.handle == handle) {
                        pids.push(handle);
                    }
                }
            }
        }
        if found {
            Ok(pids)
        } else {
            Err(PidError::FileNotFound)
        }
    }

    /// The live process groups that run the project's command.
    fn processes(&self, project: WorkerTestProject) -> Vec<i32> {
        let name = self.project_name(&project);
        let spec = find_project(&name, &self.config.projects).unwrap();
        self.groups.iter().filter(|g| g.command == spec.command).map(|g| g.handle).collect()
    }

    /// The live process groups that run the shell command.
    fn cmd_pids(&self, cmd: &str) -> Vec<i32> {
        self.groups
            .iter()
            .filter(|g| g.command.iter().any(|w| w == cmd))
            .map(|g| g.handle)
            .collect()
    }
}

#[test]
fn test_start_project_already_running() {
    let mut worker = WorkerTestConfig::new();
    let project = WorkerTestProject::Three;

    let project_name = worker.project_name(&project);

    let out = worker.start(&[&project_name]);
    assert!(out.success);

    let out = worker.start(&[&project_name]);
    assert_eq!(out.stderr, format!("{} is already running\n", &project_name));

    assert_eq!(worker.pids(&project_name).unwrap().len(), 1);
}

#[test]
fn test_start_unknown_project() {
    let mut worker = WorkerTestConfig::new();
    let project = worker.project_name(&WorkerTestProject::Unknown);

    let out = worker.start(&[&project]);
    assert!(out.success);
    assert_eq!(out.stdout, format!("{project} is not a project nor a running command\n"));
    assert!(worker.state.is_empty());
    assert!(worker.groups.is_empty());
}

#[test]
fn test_start_success() {
    let mut worker = WorkerTestConfig::new();
    let project = WorkerTestProject::One;

    let project_name = worker.project_name(&project);

    let out = worker.start(&[&project_name]);
    assert!(out.success);

    assert_eq!(worker.pids(&project_name).unwrap().len(), 1);
}

#[test]
fn test_start_multiple_success() {
    let mut worker = WorkerTestConfig::new();
    let project1_name = worker.project_name(&WorkerTestProject::One);
    let project2_name = worker.project_name(&WorkerTestProject::Two);

    let out = worker.start(&[&project1_name, &project2_name]);
    assert!(out.success);

    assert_eq!(worker.pids(&project1_name).unwrap().len(), 1);
    assert_eq!(worker.pids(&project2_name).unwrap().len(), 1);
}

#[test]
fn test_start_multiple_one_already_running() {
    let mut worker = WorkerTestConfig::new();
    let project1_name = worker.project_name(&WorkerTestProject::One);
    let project2_name = worker.project_name(&WorkerTestProject::Two);

    let out = worker.start(&[&project1_name]);
    assert!(out.success);

    let pid1 = worker.pids(&project1_name).unwrap()[0];

    let out = worker.start(&[&project1_name, &project2_name]);
    assert!(out.success);

    // Should not start the already running project
    let new_pids1 = worker.pids(&project1_name).unwrap();
    assert_eq!(pid1, new_pids1[0]);
    assert_eq!(new_pids1.len(), 1);

    // Verify that project 2 is running
    assert_eq!(worker.pids(&project2_name).unwrap().len(), 1);
}

#[test]
fn test_start_group_success() {
    let mut worker = WorkerTestConfig::new();
    let group1 = WorkerTestProject::GroupOne;

    let group1_name = worker.project_name(&group1);

    let out = worker.start(&[&group1_name]);
    assert!(out.success);

    let projects = worker.group_projects(&group1);
    let project1_name = worker.project_name(&projects[0]);
    let project2_name = worker.project_name(&projects[1]);

    assert_eq!(worker.pids(&project1_name).unwrap().len(), 1);
    assert_eq!(worker.pids(&project2_name).unwrap().len(), 1);
}

#[test]
fn test_start_group_and_project_success() {
    let mut worker = WorkerTestConfig::new();
    let group1 = WorkerTestProject::GroupOne;
    let project3 = WorkerTestProject::Three;

    let group1_name = worker.project_name(&group1);
    let project3_name = worker.project_name(&project3);

    let out = worker.start(&[&group1_name, &project3_name]);
    assert!(out.success);

    let projects = worker.group_projects(&group1);

    let project1_name = worker.project_name(&projects[0]);
    let project2_name = worker.project_name(&projects[1]);

    assert_eq!(worker.pids(&project1_name).unwrap().len(), 1);
    assert_eq!(worker.pids(&project2_name).unwrap().len(), 1);
    assert_eq!(worker.pids(&project3_name).unwrap().len(), 1);
}

#[test]
fn test_start_multiple_groups() {
    let mut worker = WorkerTestConfig::new();
    let group1 = WorkerTestProject::GroupOne;
    let group2 = WorkerTestProject::GroupTwo;

    let group1_name = worker.project_name(&group1);
    let group2_name = worker.project_name(&group2);

    let out = worker.start(&[&group1_name, &group2_name]);
    assert!(out.success);

    let projects1 = worker.group_projects(&group1);
    let projects2 = worker.group_projects(&group1);

    let project11_name = worker.project_name(&projects1[0]);
    let project12_name = worker.project_name(&projects1[1]);
    let project21_name = worker.project_name(&projects2[0]);
    let project22_name = worker.project_name(&projects2[1]);

    assert_eq!(worker.pids(&project11_name).unwrap().len(), 1);
    assert_eq!(worker.pids(&project12_name).unwrap().len(), 1);
    assert_eq!(worker.pids(&project21_name).unwrap().len(), 1);
    assert_eq!(worker.pids(&project22_name).unwrap().len(), 1);
}

#[test]
fn test_start_starts_dependencies() {
    let mut worker = WorkerTestConfig::new();
    let project_name = worker.project_name(&WorkerTestProject::Five);
    let dep1_name = worker.project_name(&WorkerTestProject::One);
    let dep2_name = worker.project_name(&WorkerTestProject::Two);

    let out = worker.start(&[&project_name]);
    assert!(out.success);

    assert_eq!(worker.pids(&project_name).unwrap().len(), 1);
    assert_eq!(worker.pids(&dep1_name).unwrap().len(), 1);
    assert_eq!(worker.pids(&dep2_name).unwrap().len(), 1);
}

#[test]
fn test_start_command_success() {
    let mut worker = WorkerTestConfig::new();

    let uuid = "0b54a2f4-one-off";
    let echo_cmd = format!("echo 'Hello from {}!' && sleep 5", uuid);

    let out = worker.start(&["-n", uuid, "-c", &echo_cmd]);
    assert!(out.success);

    assert_eq!(worker.pids(uuid).unwrap().len(), 1);
}

#[test]
fn test_start_command_require_name() {
    let mut worker = WorkerTestConfig::new();

    let uuid = "0b54a2f4-one-off";
    let echo_cmd = format!("echo 'Hello from {}!' && sleep 5", uuid);

    let out = worker.start(&["-c", &echo_cmd]);
    assert!(!out.success);

    assert_eq!(Err(PidError::FileNotFound), worker.pids(uuid));
}

#[test]
fn test_stop_unknown_project() {
    let mut worker = WorkerTestConfig::new();

    let project_name = worker.project_name(&WorkerTestProject::Unknown);

    let out = worker.stop(&[&project_name]);
    assert_eq!(out.stdout, format!("{project_name} is not a project nor a running command\n",));
    assert!(out.success);
}

#[test]
fn test_stop_command_not_running() {
    let mut worker = WorkerTestConfig::new();
    let project_name = worker.project_name(&WorkerTestProject::Two);

    let out = worker.stop(&[&project_name]);
    assert_eq!(out.stdout, format!("{project_name} is not running\n",));
    assert!(out.success);
    assert!(worker.state.is_empty());
}

#[test]
fn test_stop_success() {
    let mut worker = WorkerTestConfig::new();
    let project = WorkerTestProject::Two;

    let project_name = worker.project_name(&project);

    // Start the project
    let out = worker.start(&[&project_name]);
    assert!(out.success);

    // Stop the project
    let out = worker.stop(&[&project_name]);
    assert!(out.success);

    assert!(worker.state_file(&project_name).is_none());
    assert_eq!(worker.processes(project).len(), 0);
}

#[test]
fn test_stop_success_one_still_running() {
    let mut worker = WorkerTestConfig::new();
    let project2 = WorkerTestProject::Two;
    let project3 = WorkerTestProject::Three;

    let project2_name = worker.project_name(&project2);
    let project3_name = worker.project_name(&project3);

    // Start the project
    let out = worker.start(&[&project2_name, &project3_name]);
    assert!(out.success);

    // Stop the project
    let out = worker.stop(&[&project2_name]);
    assert!(out.success);

    assert!(worker.state_file(&project2_name).is_none());
    assert_eq!(worker.processes(project2).len(), 0);

    // Assert that project 3 is still running
    assert!(worker.state_file(&project3_name).is_some());
    assert_eq!(worker.processes(project3).len(), 1);
}

#[test]
fn test_stop_multiple_success() {
    let mut worker = WorkerTestConfig::new();
    let project2 = WorkerTestProject::Two;
    let project3 = WorkerTestProject::Three;

    let project2_name = worker.project_name(&project2);
    let project3_name = worker.project_name(&project3);

    // Start the projects
    let out = worker.start(&[&project2_name, &project3_name]);
    assert!(out.success);

    // Stop the projects
    let out = worker.stop(&[&project2_name, &project3_name]);
    assert!(out.success);

    assert!(worker.state_file(&project2_name).is_none());
    assert_eq!(worker.processes(project2).len(), 0);

    assert!(worker.state_file(&project3_name).is_none());
    assert_eq!(worker.processes(project3).len(), 0);
}

#[test]
fn test_stop_multiple_one_already_stopped() {
    let mut worker = WorkerTestConfig::new();
    let project2 = WorkerTestProject::Two;
    let project3 = WorkerTestProject::Three;

    let project2_name = worker.project_name(&project2);
    let project3_name = worker.project_name(&project3);

    // Start the projects
    let out = worker.start(&[&project2_name, &project3_name]);
    assert!(out.success);

    // Stop the projects
    let out = worker.stop(&[&project2_name]);
    assert!(out.success);

    assert!(worker.state_file(&project2_name).is_none());
    assert_eq!(worker.processes(project2).len(), 0);

    // Stop the projects
    let out = worker.stop(&[&project2_name, &project3_name]);
    assert!(out.success);

    // Assert that the project is still stopped
    assert!(worker.state_file(&project2_name).is_none());
    assert_eq!(worker.processes(project2).len(), 0);

    assert!(worker.state_file(&project3_name).is_none());
    assert_eq!(worker.processes(project3).len(), 0);
}

#[test]
fn test_stop_group_success() {
    let mut worker = WorkerTestConfig::new();
    let group1 = WorkerTestProject::GroupOne;

    let group1_name = worker.project_name(&group1);

    // Start the project
    let out = worker.start(&[&group1_name]);
    assert!(out.success);

    let out = worker.stop(&[&group1_name]);
    assert!(out.success);

    let projects = worker.group_projects(&group1);

    let project1_name = worker.project_name(&projects[0]);
    let project2_name = worker.project_name(&projects[1]);

    assert!(worker.state_file(&project1_name).is_none());
    assert!(worker.state_file(&project2_name).is_none());
    assert_eq!(worker.processes(projects[0]).len(), 0);
    assert_eq!(worker.processes(projects[1]).len(), 0);
}

#[test]
fn test_stop_multiple_groups_success() {
    let mut worker = WorkerTestConfig::new();
    let group1 = WorkerTestProject::GroupOne;
    let group2 = WorkerTestProject::GroupTwo;

    let group1_name = worker.project_name(&group1);
    let group2_name = worker.project_name(&group2);

    // Start the project
    let out = worker.start(&[&group1_name, &group2_name]);
    assert!(out.success);

    let out = worker.stop(&[&group1_name, &group2_name]);
    assert!(out.success);

    let projects1 = worker.group_projects(&group1);
    let projects2 = worker.group_projects(&group2);

    let project11_name = worker.project_name(&projects1[0]);
    let project12_name = worker.project_name(&projects1[1]);
    let project21_name = worker.project_name(&projects2[0]);
    let project22_name = worker.project_name(&projects2[1]);

    assert!(worker.state_file(&project11_name).is_none());
    assert!(worker.state_file(&project12_name).is_none());
    assert!(worker.state_file(&project21_name).is_none());
    assert!(worker.state_file(&project22_name).is_none());
    assert_eq!(worker.processes(projects1[0]).len(), 0);
    assert_eq!(worker.processes(projects1[1]).len(), 0);
    assert_eq!(worker.processes(projects2[0]).len(), 0);
    assert_eq!(worker.processes(projects2[1]).len(), 0);
}

#[test]
fn test_stop_groups_and_project_success() {
    let mut worker = WorkerTestConfig::new();
    let group1 = WorkerTestProject::GroupOne;
    let project3 = WorkerTestProject::Three;

    let group1_name = worker.project_name(&group1);
    let project3_name = worker.project_name(&project3);

    // Start the project
    let out = worker.start(&[&group1_name, &project3_name]);
    assert!(out.success);

    let out = worker.stop(&[&group1_name, &project3_name]);
    assert!(out.success);

    let projects1 = worker.group_projects(&group1);

    let project1_name = worker.project_name(&projects1[0]);
    let project2_name = worker.project_name(&projects1[1]);

    assert!(worker.state_file(&project1_name).is_none());
    assert!(worker.state_file(&project2_name).is_none());
    assert!(worker.state_file(&project3_name).is_none());
    assert_eq!(worker.processes(projects1[0]).len(), 0);
    assert_eq!(worker.processes(projects1[1]).len(), 0);
    assert_eq!(worker.processes(project3).len(), 0);
}

#[test]
fn test_stop_not_stop_dependencies() {
    let mut worker = WorkerTestConfig::new();
    let project = WorkerTestProject::Five;
    let dep1 = WorkerTestProject::One;
    let dep2 = WorkerTestProject::Two;

    let project_name = worker.project_name(&project);

    // Start the project
    let out = worker.start(&[&project_name]);
    assert!(out.success);

    let out = worker.stop(&[&project_name]);
    assert!(out.success);

    assert_eq!(worker.processes(project).len(), 0);
    assert_eq!(worker.processes(dep1).len(), 1);
    assert_eq!(worker.processes(dep2).len(), 1);
}

#[test]
fn test_stop_command_success() {
    let mut worker = WorkerTestConfig::new();

    let uuid = "0b54a2f4-one-off";
    let echo_cmd = format!("echo 'Hello from {}!' && sleep 5", uuid);

    let out = worker.start(&["-n", uuid, "-c", &echo_cmd]);
    assert!(out.success);

    // Stop the project
    let out = worker.stop(&[uuid]);
    assert!(out.success);

    assert!(worker.state_file(uuid).is_none());
    assert_eq!(worker.cmd_pids(&echo_cmd).len(), 0);
}

#[test]
fn test_restart_unknown_project() {
    let mut worker = WorkerTestConfig::new();

    let project_name = worker.project_name(&WorkerTestProject::Unknown);

    let out = worker.restart(&[&project_name]);
    assert_eq!(out.stdout, format!("{project_name} is not a project nor a running command\n"));
}

#[test]
fn test_restart_success() {
    let mut worker = WorkerTestConfig::new();
    let project_name = worker.project_name(&WorkerTestProject::One);

    let out = worker.start(&[&project_name]);
    assert!(out.success);

    let pid = worker.pids(&project_name).unwrap()[0];

    let out = worker.restart(&[&project_name]);
    assert!(out.success);

    let new_pid = worker.pids(&project_name).unwrap()[0];

    assert_ne!(pid, new_pid);
}

#[test]
fn test_restart_multiple_success() {
    let mut worker = WorkerTestConfig::new();
    let project1_name = worker.project_name(&WorkerTestProject::One);
    let project2_name = worker.project_name(&WorkerTestProject::Two);

    let out = worker.start(&[&project1_name, &project2_name]);
    assert!(out.success);

    let pid1 = worker.pids(&project1_name).unwrap()[0];
    let pid2 = worker.pids(&project2_name).unwrap()[0];

    let out = worker.restart(&[&project1_name, &project2_name]);
    assert!(out.success);

    let new_pid1 = worker.pids(&project1_name).unwrap()[0];
    let new_pid2 = worker.pids(&project2_name).unwrap()[0];

    assert_ne!(pid1, new_pid1);
    assert_ne!(pid2, new_pid2);
}

#[test]
fn test_restart_multiple_only_one_running() {
    let mut worker = WorkerTestConfig::new();
    let project1_name = worker.project_name(&WorkerTestProject::One);
    let project2_name = worker.project_name(&WorkerTestProject::Two);

    let out = worker.start(&[&project1_name]);
    assert!(out.success);

    let pid1 = worker.pids(&project1_name).unwrap()[0];

    let out = worker.restart(&[&project1_name, &project2_name]);
    assert!(out.success);

    let new_pid1 = worker.pids(&project1_name).unwrap()[0];
    assert_ne!(pid1, new_pid1);

    // Verify that the project that wasn't running is not started
    assert_eq!(Err(PidError::FileNotFound), worker.pids(&project2_name));
}

#[test]
fn test_restart_group_success() {
    let mut worker = WorkerTestConfig::new();
    let group = WorkerTestProject::GroupOne;

    let group_name = worker.project_name(&group);

    let out = worker.start(&[&group_name]);
    assert!(out.success);

    let projects = worker.group_projects(&group);

    let project1_name = worker.project_name(&projects[0]);
    let project2_name = worker.project_name(&projects[1]);

    let pid1 = worker.pids(&project1_name).unwrap()[0];
    let pid2 = worker.pids(&project2_name).unwrap()[0];

    let out = worker.restart(&[&group_name]);
    assert!(out.success);

    let new_pid1 = worker.pids(&project1_name).unwrap()[0];
    let new_pid2 = worker.pids(&project2_name).unwrap()[0];

    assert_ne!(pid1, new_pid1);
    assert_ne!(pid2, new_pid2);
}

#[test]
fn test_restart_multiple_group_success() {
    let mut worker = WorkerTestConfig::new();
    let group1 = WorkerTestProject::GroupOne;
    let group2 = WorkerTestProject::GroupTwo;

    let group1_name = worker.project_name(&group1);
    let group2_name = worker.project_name(&group2);

    let out = worker.start(&[&group1_name, &group2_name]);
    assert!(out.success);

    let projects1 = worker.group_projects(&group1);
    let projects2 = worker.group_projects(&group2);

    let project11_name = worker.project_name(&projects1[0]);
    let project12_name = worker.project_name(&projects1[1]);
    let project21_name = worker.project_name(&projects2[0]);
    let project22_name = worker.project_name(&projects2[1]);

    let pid1 = worker.pids(&project11_name).unwrap()[0];
    let pid2 = worker.pids(&project12_name).unwrap()[0];
    let pid3 = worker.pids(&project21_name).unwrap()[0];
    let pid4 = worker.pids(&project22_name).unwrap()[0];

    let out = worker.restart(&[&group1_name, &group2_name]);
    assert!(out.success);

    let new_pid1 = worker.pids(&project11_name).unwrap()[0];
    let new_pid2 = worker.pids(&project12_name).unwrap()[0];
    let new_pid3 = worker.pids(&project21_name).unwrap()[0];
    let new_pid4 = worker.pids(&project22_name).unwrap()[0];

    assert_ne!(pid1, new_pid1);
    assert_ne!(pid2, new_pid2);
    assert_ne!(pid3, new_pid3);
    assert_ne!(pid4, new_pid4);
}

#[test]
fn test_restart_group_one_project_running() {
    let mut worker = WorkerTestConfig::new();
    let group1 = WorkerTestProject::GroupOne;
    let projects = worker.group_projects(&group1);

    let project1_name = worker.project_name(&projects[0]);
    let project2_name = worker.project_name(&projects[1]);
    let group1_name = worker.project_name(&group1);

    let out = worker.start(&[&project1_name]);
    assert!(out.success);

    let pid1 = worker.pids(&project1_name).unwrap()[0];

    let out = worker.restart(&[&group1_name]);
    assert!(out.success);

    let new_pid1 = worker.pids(&project1_name).unwrap()[0];
    assert_ne!(pid1, new_pid1);

    // Verify that the project that wasn't running is not started
    assert_eq!(Err(PidError::FileNotFound), worker.pids(&project2_name));
}

#[test]
fn test_restart_not_restarting_dependencies() {
    let mut worker = WorkerTestConfig::new();
    let project_name = worker.project_name(&WorkerTestProject::Five);
    let dep1_name = worker.project_name(&WorkerTestProject::One);
    let dep2_name = worker.project_name(&WorkerTestProject::Two);

    let out = worker.start(&[&project_name, &project_name]);
    assert!(out.success);

    let pid = worker.pids(&project_name).unwrap()[0];
    let pid1 = worker.pids(&dep1_name).unwrap()[0];
    let pid2 = worker.pids(&dep2_name).unwrap()[0];

    let out = worker.restart(&[&project_name, &project_name]);
    assert!(out.success);

    let new_pid = worker.pids(&project_name).unwrap()[0];
    let new_pid1 = worker.pids(&dep1_name).unwrap()[0];
    let new_pid2 = worker.pids(&dep2_name).unwrap()[0];

    assert_ne!(pid, new_pid);
    assert_eq!(pid1, new_pid1);
    assert_eq!(pid2, new_pid2);
}

#[test]
fn test_restart_command_success() {
    let mut worker = WorkerTestConfig::new();

    let uuid = "0b54a2f4-one-off";
    let echo_cmd = format!("echo 'Hello from {}!' && sleep 5", uuid);

    let out = worker.start(&["-n", uuid, "-c", &echo_cmd]);
    assert!(out.success);

    let pid = worker.pids(uuid).unwrap()[0];

    let out = worker.restart(&[uuid]);
    assert!(out.success);

    let new_pid = worker.pids(uuid).unwrap()[0];
    assert_ne!(pid, new_pid);
}

#[test]
fn test_run_project() {
    let mut worker = WorkerTestConfig::new();
    let project_name = worker.project_name(&WorkerTestProject::Four);

    let out = worker.run(&[&project_name]);
    assert!(out.success);
    assert_eq!(out.stdout, "Hello from test!\n");

    assert_eq!(Err(PidError::FileNotFound), worker.pids(&project_name));
}

#[test]
fn test_run_project_starts_dependencies() {
    let mut worker = WorkerTestConfig::new();
    let project_name = worker.project_name(&WorkerTestProject::Six);
    let dep1_name = worker.project_name(&WorkerTestProject::One);
    let dep2_name = worker.project_name(&WorkerTestProject::Two);

    let out = worker.run(&[&project_name]);
    assert_eq!(out.stdout, "Hello from test!\n");

    assert_eq!(Err(PidError::FileNotFound), worker.pids(&project_name));
    assert_eq!(worker.pids(&dep1_name).unwrap().len(), 1);
    assert_eq!(worker.pids(&dep2_name).unwrap().len(), 1);
}

#[test]
fn test_run_command_success() {
    let mut worker = WorkerTestConfig::new();

    let uuid = "0b54a2f4-one-off";
    let echo_cmd = format!("echo 'Hello from {}!'", uuid);

    let out = worker.run(&["-n", uuid, "-c", &echo_cmd]);
    assert!(out.success);
    assert_eq!(out.stdout, format!("Hello from {}!\n", uuid));

    assert_eq!(Err(PidError::FileNotFound), worker.pids(uuid));
}

#[test]
fn test_run_command_require_name() {
    let mut worker = WorkerTestConfig::new();

    let uuid = "0b54a2f4-one-off";
    let echo_cmd = format!("echo 'Hello from {}!'", uuid);

    let out = worker.start(&["-c", &echo_cmd]);
    assert!(!out.success);

    assert_eq!(Err(PidError::FileNotFound), worker.pids(uuid));
}

#[test]
fn backend_group_starts_and_stops_together() {
    let mut worker = WorkerTestConfig::new();
    worker.config.projects = vec![
        project("web", &[MOCK, "web"], &["backend"], &[]),
        project("db", &[MOCK, "db"], &["backend"], &[]),
    ];

    assert!(worker.start(&["backend"]).success);
    assert_eq!(worker.status(), vec!["web".to_string(), "db".to_string()]);
    assert!(worker.state_file("web").is_some());
    assert!(worker.state_file("db").is_some());

    let started = worker.clock_ms;
    assert!(worker.stop(&["backend"]).success);
    assert!(worker.clock_ms - started < 5000);
    assert!(worker.state.is_empty());
    assert!(worker.status().is_empty());
}

#[test]
fn api_restart_keeps_the_handle_of_db() {
    let mut worker = WorkerTestConfig::new();
    worker.config.projects = vec![
        project("api", &[MOCK, "api"], &[], &["db"]),
        project("db", &[MOCK, "db"], &[], &[]),
    ];

    assert!(worker.start(&["api"]).success);
    let api = worker.pids("api").unwrap();
    let db = worker.pids("db").unwrap();
    assert_eq!(api.len(), 1);
    assert_eq!(db.len(), 1);
    assert!(db[0] < api[0]);

    assert!(worker.restart(&["api"]).success);
    assert_ne!(worker.pids("api").unwrap(), api);
    assert_eq!(worker.pids("db").unwrap(), db);
}

#[test]
fn start_of_what_does_not_exist_reports_and_succeeds() {
    let mut worker = WorkerTestConfig::new();
    let out = worker.start(&["does-not-exist"]);
    assert!(out.success);
    assert_eq!(out.stdout, "does-not-exist is not a project nor a running command\n");
    assert!(worker.state.is_empty());
}

#[test]
fn one_off_run_leaves_no_record() {
    let mut worker = WorkerTestConfig::new();
    let out = worker.run(&["-n", "temp", "-c", "echo 'hi'"]);
    assert!(out.success);
    assert_eq!(out.stdout, "hi\n");
    assert!(worker.state.iter().all(|e| !e.file_name.starts_with("temp-")));
}

#[test]
fn stop_gives_up_after_five_seconds() {
    let mut worker = WorkerTestConfig::new();
    worker.deaf.push("svc-2".to_string());
    assert!(worker.start(&["svc-1", "svc-2"]).success);

    let started = worker.clock_ms;
    let out = worker.stop(&["svc-1", "svc-2"]);
    assert!(out.success);
    assert_eq!(out.stderr, "Was not able to stop svc-2\n");
    assert_eq!(worker.clock_ms - started, 5000);
    assert!(worker.state_file("svc-1").is_none());
    assert!(worker.state_file("svc-2").is_some());
}

#[test]
fn a_command_that_exits_leaves_a_record_that_the_next_read_deletes() {
    let mut worker = WorkerTestConfig::new();
    assert!(worker.start(&["svc-4"]).success);
    assert!(worker.state_file("svc-4").is_some());
    assert!(worker.status().is_empty());
    assert!(worker.state_file("svc-4").is_none());
}

#[test]
fn a_dependency_cycle_is_a_hard_error() {
    let mut worker = WorkerTestConfig::new();
    worker.config.projects = vec![
        project("a", &[MOCK, "a"], &[], &["b"]),
        project("b", &[MOCK, "b"], &[], &["a"]),
        project("c", &[MOCK, "c"], &[], &[]),
    ];
    let out = worker.start(&["a", "c"]);
    assert!(!out.success);
    assert_eq!(out.stderr, "Dependency cycle through a\n");
    assert_eq!(Err(PidError::FileNotFound), worker.pids("a"));
    assert_eq!(Err(PidError::FileNotFound), worker.pids("b"));
    assert_eq!(worker.pids("c").unwrap().len(), 1);
}

#[test]
fn test_logs_project_not_running() {
    let mut worker = WorkerTestConfig::new();

    let project_name = worker.project_name(&WorkerTestProject::One);

    let out = worker.logs(&[&project_name]);
    assert!(!out.success);
}

#[test]
fn test_logs_success() {
    let mut worker = WorkerTestConfig::new();

    let project_name = worker.project_name(&WorkerTestProject::One);

    let out = worker.start(&[&project_name]);
    assert!(out.success);

    let out = worker.logs(&[&project_name]);
    assert!(out.success);
    assert!(out.stdout.contains("Hello from mock!"));
}

#[test]
fn test_logs_command_success() {
    let mut worker = WorkerTestConfig::new();

    let uuid = "0b54a2f4-one-off";
    let echo_cmd = format!("echo 'Hello from {}!' && sleep 5", uuid);

    let out = worker.start(&["-n", uuid, "-c", &echo_cmd]);
    assert!(out.success);

    let out = worker.logs(&[uuid]);
    assert!(out.success);
    println!("stdout: {}", out.stdout);
    assert!(out.stdout.contains(&format!("Hello from {}!", uuid)));
}

#[test]
fn two_starts_at_once_detach_one_instance() {
    let mut worker = WorkerTestConfig::new();
    let web = find_project(&"svc-1".to_string(), &worker.config.projects).unwrap();

    // Both commands read the registry before either has written a record.
    let live = worker.live();
    let first = decide_start(&worker.config, &live, vec![web.duplicate()]);
    let second = decide_start(&worker.config, &live, vec![web.duplicate()]);
    assert_eq!(first.launches.len(), 1);
    assert_eq!(second.launches.len(), 1);

    // The first holds the claim while the second asks for it.
    let held = worker.claim(&first.launches[0]);
    assert_eq!(held.action, DaemonAction::Fork);
    assert_eq!(worker.detach(&second.launches[0]), DaemonAction::AlreadyRunning);
    assert_eq!(worker.finish(&first.launches[0], held), DaemonAction::Return);

    assert_eq!(worker.pids("svc-1").unwrap().len(), 1);
    assert_eq!(worker.state.len(), 1);
    assert!(worker.claims.is_empty());
}

#[test]
fn a_start_that_comes_late_finds_the_name_live() {
    let mut worker = WorkerTestConfig::new();
    let web = find_project(&"svc-1".to_string(), &worker.config.projects).unwrap();

    // The late command read the registry before the other one began.
    let live = worker.live();
    let late = decide_start(&worker.config, &live, vec![web.duplicate()]);
    assert!(worker.start(&["svc-1"]).success);
    let handle = worker.pids("svc-1").unwrap();

    let mut out = Outcome { success: true, stdout: String::new(), stderr: String::new() };
    worker.carry_out(late, &mut out);
    assert!(out.success);
    assert_eq!(out.stderr, "svc-1 is already running\n");
    assert_eq!(worker.pids("svc-1").unwrap(), handle);
    assert_eq!(worker.state.len(), 1);
    assert!(worker.claims.is_empty());
}

#[test]
fn logs_of_what_does_not_run_reports_under_the_label() {
    let mut worker = WorkerTestConfig::new();
    worker.config.projects[0].display = Some("First".to_string());
    let out = worker.logs(&["svc-1"]);
    assert!(!out.success);
    assert_eq!(out.stderr, "First (svc-1) is not running\n");
    let out = worker.logs(&["nothing"]);
    assert_eq!(out.stderr, "nothing is not running\n");
}
