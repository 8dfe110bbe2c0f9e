use worker::catalog::{all_group_tags, find_project, group_members, lookup, project_names};
use worker::project::{Project, RunningProject};
use worker::resolve::{
    request, resolve_projects, resolve_running, unique_instances, unique_projects, ActionArg,
    ActionArgRunning, Request, UsageError,
};
use worker::text::{contains, unique};

fn strings(words: &[&str]) -> Vec<String> {
    words.iter().map(|w| w.to_string()).collect()
}

fn project(name: &str, group: &[&str]) -> Project {
    Project {
        name: name.to_string(),
        command: strings(&["sleep", "60"]),
        cwd: "/srv".to_string(),
        display: None,
        stop_signal: None,
        envs: None,
        group: if group.is_empty() { None } else { Some(strings(group)) },
        dependencies: None,
    }
}

fn catalog() -> Vec<Project> {
    vec![
        project("web", &["backend", "edge"]),
        project("db", &["backend"]),
        project("edge", &[]),
        project("cron", &["jobs"]),
    ]
}

fn names(projects: &[Project]) -> Vec<&str> {
    projects.iter().map(|p| p.name.as_str()).collect()
}

fn instance_names(instances: &[RunningProject]) -> Vec<(&str, i32)> {
    instances.iter().map(|p| (p.name.as_str(), p.pid)).collect()
}

#[test]
fn find_project_gives_the_first_of_its_name() {
    let mut cat = catalog();
    let mut twin = project("db", &[]);
    twin.cwd = "/elsewhere".to_string();
    cat.push(twin);
    let found = find_project(&"db".to_string(), &cat).unwrap();
    assert_eq!(found.name, "db");
    assert_eq!(found.cwd, "/srv");
    assert!(find_project(&"DB".to_string(), &cat).is_err());
    assert!(find_project(&"backend".to_string(), &cat).is_err());
    assert_eq!(lookup(&"db".to_string(), &cat).unwrap().name, "db");
    assert!(lookup(&"nothing".to_string(), &cat).is_none());
}

#[test]
fn find_project_names_what_the_catalog_holds() {
    let cat = vec![project("a", &[]), project("b", &["t"])];
    assert_eq!(find_project(&"b".to_string(), &cat), Ok(project("b", &["t"])));
    let e = find_project(&"c".to_string(), &cat).unwrap_err();
    assert_eq!(e.name, "c");
    assert_eq!(e.valid, strings(&["a", "b"]));
    assert_eq!(e.message(), "Valid projects are a, b");
    assert!(find_project(&"t".to_string(), &cat).is_err());
    let e = find_project(&"x".to_string(), &Vec::new()).unwrap_err();
    assert_eq!(e.message(), "Valid projects are ");
    let e = find_project(&"x".to_string(), &cat[..1].to_vec()).unwrap_err();
    assert_eq!(e.message(), "Valid projects are a");
}

#[test]
fn group_members_keep_catalog_order() {
    let cat = catalog();
    assert_eq!(names(&group_members(&"backend".to_string(), &cat)), vec!["web", "db"]);
    assert_eq!(names(&group_members(&"jobs".to_string(), &cat)), vec!["cron"]);
    assert!(group_members(&"web".to_string(), &cat).is_empty());
    assert!(group_members(&"".to_string(), &cat).is_empty());
}

#[test]
fn names_and_tags_are_listed_in_catalog_order() {
    let cat = catalog();
    assert_eq!(project_names(&cat), strings(&["web", "db", "edge", "cron"]));
    assert_eq!(all_group_tags(&cat), strings(&["backend", "edge", "backend", "jobs"]));
    assert!(project_names(&Vec::new()).is_empty());
}

#[test]
fn unique_keeps_first_occurrences() {
    assert_eq!(unique(&strings(&["b", "a", "b", "c", "a"])), strings(&["b", "a", "c"]));
    assert!(unique(&Vec::new()).is_empty());
    assert!(contains(&strings(&["x", "y"]), &"y".to_string()));
    assert!(!contains(&strings(&["x", "y"]), &"z".to_string()));
}

#[test]
fn a_group_tag_goes_before_a_project_of_the_same_name() {
    let cat = catalog();
    match ActionArg::from_str(&"edge".to_string(), &cat).unwrap() {
        ActionArg::Group(members) => assert_eq!(names(&members), vec!["web"]),
        ActionArg::Project(p) => panic!("resolved to the project {}", p.name),
    }
}

#[test]
fn a_name_resolves_to_its_project() {
    let cat = catalog();
    match ActionArg::from_str(&"db".to_string(), &cat).unwrap() {
        ActionArg::Project(p) => assert_eq!(p.name, "db"),
        ActionArg::Group(_) => panic!("resolved to a group"),
    }
    assert_eq!(
        names(&ActionArg::from_str(&"db".to_string(), &cat).unwrap().into_projects()),
        vec!["db"]
    );
}

#[test]
fn an_unknown_token_carries_what_would_have_been_valid() {
    let cat = catalog();
    let e = ActionArg::from_str(&"nope".to_string(), &cat).unwrap_err();
    assert_eq!(e.token, "nope");
    assert_eq!(e.projects, strings(&["web", "db", "edge", "cron"]));
    assert_eq!(e.groups, strings(&["backend", "edge", "jobs"]));
}

#[test]
fn tokens_resolve_to_each_project_once() {
    let cat = catalog();
    let found = resolve_projects(&strings(&["db", "backend", "missing", "cron", "web", "gone"]), &cat);
    assert_eq!(names(&found.projects), vec!["db", "web", "cron"]);
    assert_eq!(
        found.diagnostics,
        strings(&[
            "missing is not a project nor a running command",
            "gone is not a project nor a running command",
        ])
    );
    let none = resolve_projects(&Vec::new(), &cat);
    assert!(none.projects.is_empty());
    assert!(none.diagnostics.is_empty());
}

#[test]
fn unique_projects_goes_by_name() {
    let mut other = project("web", &[]);
    other.cwd = "/other".to_string();
    let list = vec![project("web", &["backend"]), project("db", &[]), other];
    let kept = unique_projects(&list);
    assert_eq!(names(&kept), vec!["web", "db"]);
    assert_eq!(kept[0].cwd, "/srv");
}

#[test]
fn unique_instances_goes_by_name_and_handle() {
    let list = vec![
        project("web", &[]).into_running(10),
        project("web", &[]).into_running(11),
        project("web", &[]).into_running(10),
        project("db", &[]).into_running(10),
    ];
    assert_eq!(
        instance_names(&unique_instances(&list)),
        vec![("web", 10), ("web", 11), ("db", 10)]
    );
}

#[test]
fn running_tokens_resolve_against_the_live_instances() {
    let cat = catalog();
    let live = vec![
        project("db", &["backend"]).into_running(31),
        project("temp", &[]).into_running(32),
        project("web", &["backend", "edge"]).into_running(33),
    ];
    let group = ActionArgRunning::from_str(&"backend".to_string(), &cat, &live);
    assert!(group.diagnostic.is_none());
    assert_eq!(instance_names(&group.arg.into_instances()), vec![("db", 31), ("web", 33)]);

    let one = ActionArgRunning::from_str(&"temp".to_string(), &cat, &live);
    assert!(one.diagnostic.is_none());
    assert!(matches!(one.arg, ActionArgRunning::Project(_)));
    assert_eq!(instance_names(&one.arg.into_instances()), vec![("temp", 32)]);

    let shadowed = ActionArgRunning::from_str(&"edge".to_string(), &cat, &live);
    assert_eq!(instance_names(&shadowed.arg.into_instances()), vec![("web", 33)]);
}

#[test]
fn a_token_without_a_live_instance_gives_a_report() {
    let mut cat = catalog();
    cat[3].display = Some("Nightly jobs".to_string());
    let live = vec![project("db", &["backend"]).into_running(31)];

    let idle = ActionArgRunning::from_str(&"cron".to_string(), &cat, &live);
    assert_eq!(idle.diagnostic.unwrap(), "Nightly jobs (cron) is not running");
    assert!(idle.arg.into_instances().is_empty());

    let unknown = ActionArgRunning::from_str(&"what".to_string(), &cat, &live);
    assert_eq!(unknown.diagnostic.unwrap(), "what is not a project nor a running command");
    assert!(matches!(unknown.arg, ActionArgRunning::Group(ref g) if g.is_empty()));
}

#[test]
fn running_tokens_resolve_to_each_instance_once() {
    let cat = catalog();
    let live = vec![
        project("db", &["backend"]).into_running(31),
        project("web", &["backend", "edge"]).into_running(33),
    ];
    let found = resolve_running(&strings(&["web", "cron", "backend", "x", "db"]), &cat, &live);
    assert_eq!(instance_names(&found.instances), vec![("web", 33), ("db", 31)]);
    assert_eq!(
        found.diagnostics,
        strings(&["cron is not running", "x is not a project nor a running command"])
    );
}

#[test]
fn a_request_is_targets_or_a_named_command() {
    match request(Some(strings(&["a", "b"])), None, None) {
        Ok(Request::Named(t)) => assert_eq!(t, strings(&["a", "b"])),
        other => panic!("{:?}", other),
    }
    match request(None, Some("n".to_string()), Some("echo".to_string())) {
        Ok(Request::OneOff { name, cmd }) => {
            assert_eq!(name, "n");
            assert_eq!(cmd, "echo");
        }
        other => panic!("{:?}", other),
    }
    assert_eq!(request(None, None, None).unwrap_err(), UsageError::Nothing);
    assert_eq!(
        request(None, None, Some("echo".to_string())).unwrap_err(),
        UsageError::CommandWithoutName
    );
    assert_eq!(
        request(None, Some("n".to_string()), None).unwrap_err(),
        UsageError::NameWithoutCommand
    );
    assert_eq!(
        request(Some(strings(&["a"])), Some("n".to_string()), None).unwrap_err(),
        UsageError::Both
    );
    assert_eq!(
        request(Some(strings(&["a"])), None, Some("c".to_string())).unwrap_err(),
        UsageError::Both
    );
    assert_eq!(
        request(Some(strings(&["a"])), Some("n".to_string()), Some("c".to_string())).unwrap_err(),
        UsageError::Both
    );
}
