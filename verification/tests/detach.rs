use worker::daemon::{begin, look, step, DaemonAction, DaemonEvent, DaemonState, DaemonStep, Fork};
use worker::envs::Envs;
use worker::project::{Project, WorkerProject};
use worker::report;

fn strings(words: &[&str]) -> Vec<String> {
    words.iter().map(|w| w.to_string()).collect()
}

fn all_events() -> Vec<DaemonEvent> {
    vec![
        DaemonEvent::Claimed,
        DaemonEvent::ClaimTaken,
        DaemonEvent::ClaimFailed,
        DaemonEvent::Vacant,
        DaemonEvent::Occupied,
        DaemonEvent::LookFailed,
        DaemonEvent::Released,
        DaemonEvent::Forked(Fork::Parent(9)),
        DaemonEvent::Forked(Fork::Child),
        DaemonEvent::ForkFailed,
        DaemonEvent::Reaped,
        DaemonEvent::WaitFailed,
        DaemonEvent::SessionStarted(9),
        DaemonEvent::SessionFailed,
        DaemonEvent::Recorded,
        DaemonEvent::RecordFailed,
        DaemonEvent::ExecFailed,
    ]
}

fn all_states() -> Vec<DaemonState> {
    vec![
        DaemonState::Claiming,
        DaemonState::Looking,
        DaemonState::Launching,
        DaemonState::Reaping,
        DaemonState::Releasing,
        DaemonState::Declining,
        DaemonState::Failing,
        DaemonState::Detaching,
        DaemonState::Recording(5),
        DaemonState::Orphaning(5),
        DaemonState::Executing(5),
        DaemonState::Finished,
        DaemonState::Exited,
    ]
}

fn at(state: DaemonState, action: DaemonAction) -> DaemonStep {
    DaemonStep { state, action }
}

#[test]
fn the_protocol_begins_with_the_claim() {
    assert_eq!(begin(), at(DaemonState::Claiming, DaemonAction::Claim));
}

#[test]
fn under_the_claim_the_registry_is_read_again() {
    let looking = step(DaemonState::Claiming, DaemonEvent::Claimed);
    assert_eq!(looking, at(DaemonState::Looking, DaemonAction::Look));
    let launching = step(looking.state, DaemonEvent::Vacant);
    assert_eq!(launching, at(DaemonState::Launching, DaemonAction::Fork));
}

#[test]
fn a_name_that_is_claimed_is_left_alone() {
    let taken = step(DaemonState::Claiming, DaemonEvent::ClaimTaken);
    assert_eq!(taken, at(DaemonState::Finished, DaemonAction::AlreadyRunning));
}

#[test]
fn a_name_that_is_live_is_left_alone_and_the_claim_given_back() {
    let declining = step(DaemonState::Looking, DaemonEvent::Occupied);
    assert_eq!(declining, at(DaemonState::Declining, DaemonAction::Release));
    for event in all_events() {
        assert_eq!(step(declining.state, event), at(DaemonState::Finished, DaemonAction::AlreadyRunning));
    }
}

#[test]
fn the_caller_waits_for_the_first_duplicate_and_returns() {
    let waiting = step(DaemonState::Launching, DaemonEvent::Forked(Fork::Parent(321)));
    assert_eq!(waiting, at(DaemonState::Reaping, DaemonAction::Wait(321)));
    let releasing = step(waiting.state, DaemonEvent::Reaped);
    assert_eq!(releasing, at(DaemonState::Releasing, DaemonAction::Release));
    for event in all_events() {
        assert_eq!(step(releasing.state, event), at(DaemonState::Finished, DaemonAction::Return));
    }
}

#[test]
fn the_session_branch_records_then_duplicates_then_exits() {
    let session = step(DaemonState::Launching, DaemonEvent::Forked(Fork::Child));
    assert_eq!(session, at(DaemonState::Detaching, DaemonAction::NewSession));
    let record = step(session.state, DaemonEvent::SessionStarted(777));
    assert_eq!(record, at(DaemonState::Recording(777), DaemonAction::Record(777)));
    let fork = step(record.state, DaemonEvent::Recorded);
    assert_eq!(fork, at(DaemonState::Orphaning(777), DaemonAction::Fork));
    let exit = step(fork.state, DaemonEvent::Forked(Fork::Parent(778)));
    assert_eq!(exit, at(DaemonState::Exited, DaemonAction::Exit(0)));
}

#[test]
fn the_exec_branch_runs_the_command_in_the_session() {
    let exec = step(DaemonState::Orphaning(777), DaemonEvent::Forked(Fork::Child));
    assert_eq!(exec, at(DaemonState::Executing(777), DaemonAction::Exec));
    let failed = step(exec.state, DaemonEvent::ExecFailed);
    assert_eq!(failed, at(DaemonState::Exited, DaemonAction::Exit(1)));
}

#[test]
fn a_failure_without_the_claim_is_handed_back_at_once() {
    let fail = at(DaemonState::Finished, DaemonAction::Fail);
    assert_eq!(step(DaemonState::Claiming, DaemonEvent::ClaimFailed), fail);
    assert_eq!(step(DaemonState::Claiming, DaemonEvent::Vacant), fail);
    for event in all_events() {
        assert_eq!(step(DaemonState::Finished, event), fail);
        assert_eq!(step(DaemonState::Failing, event), fail);
    }
}

#[test]
fn a_failure_under_the_claim_gives_the_claim_back_first() {
    let release = at(DaemonState::Failing, DaemonAction::Release);
    assert_eq!(step(DaemonState::Looking, DaemonEvent::LookFailed), release);
    assert_eq!(step(DaemonState::Launching, DaemonEvent::ForkFailed), release);
    assert_eq!(step(DaemonState::Reaping, DaemonEvent::WaitFailed), release);
    assert_eq!(step(DaemonState::Reaping, DaemonEvent::Recorded), release);
}

#[test]
fn a_failure_in_a_duplicate_ends_it() {
    let exit = at(DaemonState::Exited, DaemonAction::Exit(1));
    assert_eq!(step(DaemonState::Detaching, DaemonEvent::SessionFailed), exit);
    assert_eq!(step(DaemonState::Recording(5), DaemonEvent::RecordFailed), exit);
    assert_eq!(step(DaemonState::Orphaning(5), DaemonEvent::ForkFailed), exit);
    assert_eq!(step(DaemonState::Detaching, DaemonEvent::Reaped), exit);
    for event in all_events() {
        assert_eq!(step(DaemonState::Executing(5), event), exit);
        assert_eq!(step(DaemonState::Exited, event), exit);
    }
}

#[test]
fn only_the_second_duplicate_runs_the_command() {
    for state in all_states() {
        for event in all_events() {
            let next = step(state, event);
            if next.action == DaemonAction::Exec {
                assert_eq!(state, DaemonState::Orphaning(5));
                assert_eq!(event, DaemonEvent::Forked(Fork::Child));
            }
            if matches!(next.action, DaemonAction::Record(_)) {
                assert_eq!(state, DaemonState::Detaching);
                assert_eq!(next.action, DaemonAction::Record(9));
            }
        }
    }
}

/// Every sequence of events of the given length, with the actions taken on it.
fn runs(length: usize) -> Vec<(Vec<DaemonEvent>, Vec<DaemonAction>)> {
    let mut all = vec![(Vec::new(), vec![begin().action], begin().state)];
    for _ in 0..length {
        let mut next = Vec::new();
        for (events, actions, state) in &all {
            for event in all_events() {
                let now = step(*state, event);
                let mut e = events.clone();
                e.push(event);
                let mut a = actions.clone();
                a.push(now.action);
                next.push((e, a, now.state));
            }
        }
        all = next;
    }
    all.into_iter().map(|(e, a, _)| (e, a)).collect()
}

#[test]
fn nothing_is_detached_without_the_claim_of_a_vacant_name() {
    let mut detached = 0;
    for (events, actions) in runs(4) {
        let busy = actions.iter().any(|a| {
            matches!(
                a,
                DaemonAction::Fork
                    | DaemonAction::Wait(_)
                    | DaemonAction::NewSession
                    | DaemonAction::Record(_)
                    | DaemonAction::Exec
            )
        });
        if busy {
            assert_eq!(events[0], DaemonEvent::Claimed);
            assert_eq!(events[1], DaemonEvent::Vacant);
            detached += 1;
        }
        if events[0] == DaemonEvent::ClaimTaken {
            assert_eq!(actions[1], DaemonAction::AlreadyRunning);
            assert!(!busy);
        }
        if events[0] == DaemonEvent::Claimed && events[1] == DaemonEvent::Occupied {
            assert_eq!(&actions[..4], &[
                DaemonAction::Claim,
                DaemonAction::Look,
                DaemonAction::Release,
                DaemonAction::AlreadyRunning,
            ]);
        }
    }
    assert!(detached > 0);
}

#[test]
fn the_caller_gives_the_claim_back_before_it_is_done() {
    for (events, actions) in runs(5) {
        if events[0] != DaemonEvent::Claimed {
            continue;
        }
        for (k, action) in actions.iter().enumerate() {
            if matches!(action, DaemonAction::Return | DaemonAction::Fail | DaemonAction::AlreadyRunning) {
                assert!(actions[..k].contains(&DaemonAction::Release), "{:?}", events);
            }
        }
    }
}

#[test]
fn the_first_word_of_a_command_is_the_program() {
    let p = Project {
        name: "web".to_string(),
        command: strings(&["npm", "run", "dev"]),
        cwd: "/srv/web".to_string(),
        display: None,
        stop_signal: None,
        envs: Some(Envs::from_pairs(vec![
            ("LISTEN".to_string(), "80".to_string()),
            ("A".to_string(), "".to_string()),
            ("LISTEN".to_string(), "8080".to_string()),
        ])),
        group: None,
        dependencies: None,
    };
    let call = p.run().unwrap();
    assert_eq!(call.program, "npm");
    assert_eq!(call.args, strings(&["run", "dev"]));
    assert_eq!(call.cwd, "/srv/web");
    assert_eq!(call.envs, vec![("LISTEN".to_string(), "8080".to_string()), ("A".to_string(), "".to_string())]);
}

#[test]
fn a_project_without_a_word_has_no_command() {
    let mut p = Project::from_cmd("t".to_string(), "true".to_string(), "/".to_string());
    let call = p.run().unwrap();
    assert_eq!(call.program, "sh");
    assert_eq!(call.args, strings(&["-c", "true"]));
    assert!(call.envs.is_empty());
    p.command.clear();
    assert!(p.run().is_none());
    p.command.push("only".to_string());
    let single = p.run().unwrap();
    assert_eq!(single.program, "only");
    assert!(single.args.is_empty());
}

#[test]
fn a_label_shows_the_display_name_first() {
    let mut p = Project::from_cmd("api".to_string(), "serve".to_string(), "/".to_string());
    assert_eq!(p.label(), "api");
    assert_eq!(p.name(), "api");
    p.display = Some("The API".to_string());
    assert_eq!(p.label(), "The API (api)");
    let r = p.duplicate().into_running(3);
    assert_eq!(r.label(), "The API (api)");
    assert_eq!(r.name(), "api");
    assert_eq!(r.pid, 3);
}

#[test]
fn an_instance_gives_back_its_project() {
    let mut p = Project::from_cmd("api".to_string(), "serve".to_string(), "/here".to_string());
    p.dependencies = Some(strings(&["db"]));
    p.group = Some(strings(&["g"]));
    let back = Project::from(p.duplicate().into_running(3));
    assert_eq!(back.name, "api");
    assert_eq!(back.command, strings(&["sh", "-c", "serve"]));
    assert_eq!(back.cwd, "/here");
    assert_eq!(back.dependencies, Some(strings(&["db"])));
    assert_eq!(back.group, Some(strings(&["g"])));
    let again = p.duplicate().into_running(4).into_project();
    assert_eq!(again.name, "api");
    assert_eq!(again.cwd, "/here");
}

#[test]
fn the_reports_read_as_they_should() {
    let x = "x".to_string();
    assert_eq!(report::already_running(&x), "x is already running");
    assert_eq!(report::not_running(&x), "x is not running");
    assert_eq!(report::unknown(&x), "x is not a project nor a running command");
    assert_eq!(report::stop_failed(&x), "Was not able to stop x");
    assert_eq!(report::running(&x), "x is running");
    assert_eq!(report::unknown_dependency(&x), "x is not a project");
    assert_eq!(report::cycle(&x), "Dependency cycle through x");
    assert_eq!(report::signal_failed(&x), "Error trying to stop project: x");
    assert_eq!(report::cleanup_failed(&x), "Could not remove stale record x");
    assert_eq!(report::launch_failed(&x), "Could not start x");
}

#[test]
fn an_environment_holds_each_variable_once() {
    let pair = |k: &str, v: &str| (k.to_string(), v.to_string());
    assert!(Envs::new().pairs().is_empty());
    assert!(Envs::from_pairs(Vec::new()).pairs().is_empty());
    let envs = Envs::from_pairs(vec![pair("A", "1"), pair("B", "2"), pair("A", "3"), pair("C", ""), pair("B", "4")]);
    assert_eq!(envs.pairs(), vec![pair("A", "3"), pair("B", "4"), pair("C", "")]);
    let more = envs.clone().with("B".to_string(), "5".to_string()).with("D".to_string(), "6".to_string());
    assert_eq!(more.pairs(), vec![pair("A", "3"), pair("B", "5"), pair("C", ""), pair("D", "6")]);
    assert_eq!(envs.duplicate(), envs);
    assert_eq!(Envs::new().with("X".to_string(), "y".to_string()).pairs(), vec![pair("X", "y")]);
}

#[test]
fn an_environment_agrees_with_a_map() {
    let keys = ["a", "b", "c"];
    for n in 0..243usize {
        let mut m = n;
        let mut list = Vec::new();
        for i in 0..5 {
            list.push((keys[m % 3].to_string(), format!("v{}", i)));
            m /= 3;
        }
        let envs = Envs::from_pairs(list.clone());
        let map: std::collections::HashMap<String, String> = list.into_iter().collect();
        let back: std::collections::HashMap<String, String> = envs.pairs().into_iter().collect();
        assert_eq!(back, map);
        assert_eq!(envs.pairs().len(), map.len());
    }
}

#[test]
fn a_look_finds_the_name_occupied_where_an_instance_is_live() {
    let web = Project::from_cmd("web".to_string(), "serve".to_string(), "/".to_string());
    let db = Project::from_cmd("db".to_string(), "serve".to_string(), "/".to_string());
    let live = vec![web.duplicate().into_running(12)];
    assert_eq!(look(&web, &live), DaemonEvent::Occupied);
    assert_eq!(look(&db, &live), DaemonEvent::Vacant);
    assert_eq!(look(&web, &Vec::new()), DaemonEvent::Vacant);
}
