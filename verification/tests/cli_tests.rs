use indexmap::IndexMap;
use taskfile_runner::cli::{choose_command, task_list, task_summary, CliCommand, SummaryLine};
use taskfile_runner::deps::{collect_dep_reachable, topo_order, RunError};
use taskfile_runner::schema::{Cmd, Dep, Task, Taskfile};

fn task(desc: Option<&str>, cmds: Vec<Cmd>, deps: Vec<&str>) -> Task {
    Task {
        desc: desc.map(|d| d.to_string()),
        cmds: Some(cmds),
        deps: Some(deps.into_iter().map(|d| Dep::Simple(d.to_string())).collect()),
        vars: None,
        dir: None,
        env: None,
        silent: None,
        ignore_error: None,
    }
}

fn taskfile(tasks: Vec<(&str, Task)>) -> Taskfile {
    let mut m = IndexMap::new();
    for (k, t) in tasks {
        m.insert(k.to_string(), t);
    }
    Taskfile { version: "3".to_string(), tasks: m, vars: None, includes: None, env: None }
}

fn args(a: &[&str]) -> Vec<String> {
    a.iter().map(|s| s.to_string()).collect()
}

#[test]
fn test_list_tasks() {
    let tf = taskfile(vec![
        ("hello-world", task(Some("Say hello"), vec![Cmd::Shell("echo hello".to_string())], vec![])),
        ("build-thing", task(Some("Build the thing"), vec![Cmd::Shell("echo building".to_string())], vec![])),
        ("no-desc", task(None, vec![], vec![])),
    ]);
    let l = task_list(&tf);
    let rows: Vec<(&str, &str)> = l.entries.iter().map(|e| (e.0.as_str(), e.1.as_str())).collect();
    assert_eq!(rows, vec![("build-thing", "Build the thing"), ("hello-world", "Say hello"), ("no-desc", "")]);
    assert_eq!(l.width, 11);
    assert_eq!(task_list(&taskfile(vec![])).width, 0);
    assert_eq!(task_list(&taskfile(vec![("é", task(None, vec![], vec![]))])).width, 2);
}

#[test]
fn summary() {
    let tf = taskfile(vec![(
        "t",
        task(Some("d"), vec![Cmd::Shell("echo".to_string()), Cmd::TaskCall { task: "u".to_string(), vars: None }], vec![]),
    )]);
    let s = task_summary(&tf, "t").expect("summary");
    assert_eq!(s.name, "t");
    assert_eq!(s.desc.as_deref(), Some("d"));
    let cmds = s.cmds.expect("cmds");
    assert!(matches!(&cmds[0], SummaryLine::Shell(x) if x == "echo"));
    assert!(matches!(&cmds[1], SummaryLine::Call(x) if x == "u"));
    assert!(task_summary(&tf, "none").is_none());
}

#[test]
fn command_choice() {
    let with_default = taskfile(vec![("default", task(None, vec![], vec![]))]);
    let without = taskfile(vec![("x", task(None, vec![], vec![]))]);
    assert!(matches!(choose_command(&with_default, &args(&[])), CliCommand::Run { ref task, ref vars } if task == "default" && vars.len() == 0));
    assert!(matches!(choose_command(&without, &args(&[])), CliCommand::List));
    assert!(matches!(choose_command(&without, &args(&["list"])), CliCommand::List));
    match choose_command(&without, &args(&["greet", "NAME=world", "junk"])) {
        CliCommand::Run { task, vars } => {
            assert_eq!(task, "greet");
            assert_eq!(vars.len(), 1);
            assert_eq!(vars.get("NAME").map(|s| s.as_str()), Some("world"));
        },
        CliCommand::List => panic!("expected a run"),
    }
}

#[test]
fn run_order_and_reachability() {
    let tf = taskfile(vec![
        ("a", task(None, vec![], vec!["b", "c"])),
        ("b", task(None, vec![], vec!["d"])),
        ("c", task(None, vec![], vec!["d"])),
        ("d", task(None, vec![], vec![])),
        ("e", task(None, vec![], vec![])),
    ]);
    let reach = collect_dep_reachable(&tf, "a").ok().expect("reachable");
    assert_eq!(reach[0], "a");
    let mut sorted = reach.clone();
    sorted.sort();
    assert_eq!(sorted, vec!["a", "b", "c", "d"]);
    let order = topo_order(&tf, "a").ok().expect("order");
    let pos = |n: &str| order.iter().position(|x| x == n).unwrap();
    assert_eq!(order.len(), 4);
    assert!(pos("d") < pos("b") && pos("d") < pos("c") && pos("b") < pos("a") && pos("c") < pos("a"));
    let self_dep = taskfile(vec![("s", task(None, vec![], vec!["s"]))]);
    assert!(matches!(topo_order(&self_dep, "s"), Err(RunError::CycleDetected(ref n)) if n == "s"));
}

#[test]
fn visit_order_is_depth_first_from_the_last_dependency() {
    let tf = taskfile(vec![
        ("a", task(None, vec![], vec!["b", "c"])),
        ("b", task(None, vec![], vec!["d"])),
        ("c", task(None, vec![], vec!["d"])),
        ("d", task(None, vec![], vec![])),
    ]);
    let reach = collect_dep_reachable(&tf, "a").ok().expect("reachable");
    assert_eq!(reach, vec!["a", "c", "d", "b"]);
    let missing = taskfile(vec![("a", task(None, vec![], vec!["x", "y"]))]);
    assert!(matches!(collect_dep_reachable(&missing, "a"), Err(RunError::TaskNotFound(ref n)) if n == "y"));
    assert!(matches!(topo_order(&missing, "a"), Err(RunError::TaskNotFound(ref n)) if n == "y"));
    assert!(matches!(topo_order(&missing, "zzz"), Err(RunError::TaskNotFound(ref n)) if n == "zzz"));
}
