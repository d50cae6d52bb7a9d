use indexmap::IndexMap;
use taskfile_runner::deps::RunError;
use taskfile_runner::runner::{run_task, Action, Event};
use taskfile_runner::schema::{Cmd, Dep, Task, Taskfile, VarValue};
use taskfile_runner::vars::{parse_vars, Vars};

fn task(desc: Option<&str>, cmds: Vec<Cmd>, deps: Vec<&str>) -> Task {
    Task {
        desc: desc.map(|d| d.to_string()),
        cmds: Some(cmds),
        deps: if deps.is_empty() {
            None
        } else {
            Some(deps.into_iter().map(|d| Dep::Simple(d.to_string())).collect())
        },
        vars: None,
        dir: None,
        env: None,
        silent: None,
        ignore_error: None,
    }
}

fn shell(s: &str) -> Cmd {
    Cmd::Shell(s.to_string())
}

fn taskfile(tasks: Vec<(&str, Task)>) -> Taskfile {
    let mut m = IndexMap::new();
    for (k, t) in tasks {
        m.insert(k.to_string(), t);
    }
    Taskfile { version: "3".to_string(), tasks: m, vars: None, includes: None, env: None }
}

/// What a run did: the shell lines it ran, the Python scripts it ran, and
/// how it ended.  `exit` gives the exit of each shell line; shell variables
/// print their command.
struct Trace {
    shell: Vec<String>,
    python: Vec<(String, Vec<String>)>,
    dirs: Vec<Option<String>>,
    envs: Vec<Vec<(String, String)>>,
    echoes: Vec<bool>,
    result: Result<(), RunError>,
}

fn drive(tf: &Taskfile, name: &str, vars: &Vars, env: Vars, has_python: bool, exit: &dyn Fn(&str) -> Option<i32>) -> Trace {
    let (mut runner, mut action) = run_task(tf, name, vars, env, Some("/work".to_string()), has_python);
    let mut trace = Trace { shell: vec![], python: vec![], dirs: vec![], envs: vec![], echoes: vec![], result: Ok(()) };
    let mut guard = 0;
    loop {
        guard += 1;
        assert!(guard < 10_000, "run does not end");
        let event = match action {
            Action::Continue => Event::Proceed,
            Action::ExpandShell { sh } => Event::Expanded(format!("{sh}\n\n").into_bytes()),
            Action::RunShell(c) => {
                trace.shell.push(c.line.clone());
                trace.dirs.push(c.dir.clone());
                trace.envs.push(c.env.clone());
                trace.echoes.push(c.echo);
                match exit(&c.line) {
                    Some(code) => Event::Exited { success: code == 0, code: Some(code) },
                    None => Event::Exited { success: false, code: None },
                }
            },
            Action::RunPython(p) => {
                trace.python.push((p.script.clone(), p.args.clone()));
                Event::PythonExited(0)
            },
            Action::Finished(r) => {
                trace.result = r;
                return trace;
            },
        };
        action = runner.step(tf, event);
    }
}

fn ok(_: &str) -> Option<i32> {
    Some(0)
}

#[test]
fn test_run_simple_task() {
    let tf = taskfile(vec![("say-hello", task(Some("Echo hello"), vec![shell("echo hello")], vec![]))]);
    let t = drive(&tf, "say-hello", &Vars::new(), Vars::new(), false, &ok);
    assert!(t.result.is_ok());
    assert_eq!(t.shell, vec!["echo hello".to_string()]);
    assert_eq!(t.echoes, vec![true]);
}

#[test]
fn test_var_substitution() {
    let tf = taskfile(vec![("greet", task(Some("Greet someone"), vec![shell("echo Hello {{.NAME}}")], vec![]))]);
    let vars = parse_vars(&vec!["NAME=world".to_string()]);
    let t = drive(&tf, "greet", &vars, Vars::new(), false, &ok);
    assert!(t.result.is_ok());
    assert_eq!(t.shell, vec!["echo Hello world".to_string()]);
}

#[test]
fn test_dep_order() {
    let tf = taskfile(vec![
        ("task-a", task(Some("Task A (depends on B)"), vec![shell("echo ran-a")], vec!["task-b"])),
        ("task-b", task(Some("Task B"), vec![shell("echo ran-b")], vec![])),
    ]);
    let t = drive(&tf, "task-a", &Vars::new(), Vars::new(), false, &ok);
    assert!(t.result.is_ok());
    assert_eq!(t.shell, vec!["echo ran-b".to_string(), "echo ran-a".to_string()]);
}

#[test]
fn test_cycle_detection() {
    let tf = taskfile(vec![
        ("cycle-a", task(None, vec![shell("echo a")], vec!["cycle-b"])),
        ("cycle-b", task(None, vec![shell("echo b")], vec!["cycle-a"])),
    ]);
    let t = drive(&tf, "cycle-a", &Vars::new(), Vars::new(), false, &ok);
    assert!(t.shell.is_empty());
    match t.result {
        Err(RunError::CycleDetected(n)) => assert!(n == "cycle-a" || n == "cycle-b"),
        _ => panic!("expected a cycle error"),
    }
}

#[test]
fn missing_task_is_reported() {
    let tf = taskfile(vec![("a", task(None, vec![shell("echo a")], vec!["nope"]))]);
    let t = drive(&tf, "a", &Vars::new(), Vars::new(), false, &ok);
    match t.result {
        Err(RunError::TaskNotFound(n)) => assert_eq!(n, "nope"),
        _ => panic!("expected a missing task"),
    }
    let t = drive(&tf, "zzz", &Vars::new(), Vars::new(), false, &ok);
    assert!(matches!(t.result, Err(RunError::TaskNotFound(ref n)) if n == "zzz"));
}

#[test]
fn failing_command_stops_the_run() {
    let tf = taskfile(vec![("t", task(None, vec![shell("false"), shell("echo after")], vec![]))]);
    let fail = |l: &str| if l == "false" { Some(3) } else { Some(0) };
    let t = drive(&tf, "t", &Vars::new(), Vars::new(), false, &fail);
    assert_eq!(t.shell, vec!["false".to_string()]);
    assert!(matches!(t.result, Err(RunError::CommandFailed(3))));
}

#[test]
fn killed_command_fails_with_code_one() {
    let tf = taskfile(vec![("t", task(None, vec![shell("sleep 9")], vec![]))]);
    let killed = |_: &str| None;
    let t = drive(&tf, "t", &Vars::new(), Vars::new(), false, &killed);
    assert!(matches!(t.result, Err(RunError::CommandFailed(1))));
}

#[test]
fn ignore_error_keeps_going() {
    let mut tk = task(None, vec![shell("false"), shell("echo after")], vec![]);
    tk.ignore_error = Some(true);
    tk.silent = Some(true);
    let tf = taskfile(vec![("t", tk)]);
    let fail = |l: &str| if l == "false" { Some(1) } else { Some(0) };
    let t = drive(&tf, "t", &Vars::new(), Vars::new(), false, &fail);
    assert_eq!(t.shell, vec!["false".to_string(), "echo after".to_string()]);
    assert_eq!(t.echoes, vec![false, false]);
    assert!(t.result.is_ok());
}

#[test]
fn variable_precedence_and_builtins() {
    let mut tf_vars = IndexMap::new();
    tf_vars.insert("A".to_string(), VarValue::Scalar("tf".to_string()));
    tf_vars.insert("B".to_string(), VarValue::Scalar("tf".to_string()));
    tf_vars.insert("C".to_string(), VarValue::Scalar("tf".to_string()));
    let mut task_vars = IndexMap::new();
    task_vars.insert("B".to_string(), VarValue::Scalar("task".to_string()));
    task_vars.insert("C".to_string(), VarValue::Scalar("task".to_string()));
    task_vars.insert("S".to_string(), VarValue::Shell { sh: "echo shell".to_string() });
    let mut tk = task(None, vec![shell("{{.A}} {{.B}} {{.C}} {{.S}} {{.TASK}} {{.USER_WORKING_DIR}} {{.E}} {{.X}}")], vec![]);
    tk.vars = Some(task_vars);
    let mut tf = taskfile(vec![("t", tk)]);
    tf.vars = Some(tf_vars);
    let cli = parse_vars(&vec!["C=cli".to_string()]);
    let env = parse_vars(&vec!["E=env".to_string(), "A=env".to_string()]);
    let t = drive(&tf, "t", &cli, env, false, &ok);
    assert!(t.result.is_ok());
    assert_eq!(t.shell, vec!["tf task cli echo shell t /work env ".to_string()]);
}

#[test]
fn dir_and_env_are_substituted() {
    let mut tk = task(None, vec![shell("pwd")], vec![]);
    tk.dir = Some("/tmp/{{.SUB}}".to_string());
    let mut tenv = IndexMap::new();
    tenv.insert("LOG".to_string(), "{{.SUB}}-log".to_string());
    tk.env = Some(tenv);
    let mut tf = taskfile(vec![("t", tk)]);
    let mut fenv = IndexMap::new();
    fenv.insert("GLOBAL".to_string(), "g".to_string());
    tf.env = Some(fenv);
    let vars = parse_vars(&vec!["SUB=x".to_string()]);
    let t = drive(&tf, "t", &vars, Vars::new(), false, &ok);
    assert_eq!(t.dirs, vec![Some("/tmp/x".to_string())]);
    assert_eq!(t.envs, vec![vec![("GLOBAL".to_string(), "g".to_string()), ("LOG".to_string(), "x-log".to_string())]]);
}

#[test]
fn python_lines_go_to_the_interpreter() {
    let tf = taskfile(vec![("py", task(None, vec![shell("python3 run.py --fast  x"), shell("python")], vec![]))]);
    let t = drive(&tf, "py", &Vars::new(), Vars::new(), true, &ok);
    assert!(t.result.is_ok());
    assert!(t.shell.is_empty());
    assert_eq!(t.python, vec![
        ("run.py".to_string(), vec!["--fast".to_string(), "x".to_string()]),
        ("".to_string(), vec![]),
    ]);
    let t = drive(&tf, "py", &Vars::new(), Vars::new(), false, &ok);
    assert_eq!(t.shell.len(), 2);
    assert!(t.python.is_empty());
}

#[test]
fn task_call_runs_with_call_vars() {
    let call = Cmd::TaskCall {
        task: "inner".to_string(),
        vars: Some({
            let mut m = IndexMap::new();
            m.insert("WHO".to_string(), VarValue::Scalar("callee".to_string()));
            m
        }),
    };
    let tf = taskfile(vec![
        ("outer", task(None, vec![shell("echo before"), call, shell("echo after {{.WHO}}")], vec![])),
        ("inner", task(None, vec![shell("echo inner {{.WHO}} {{.TASK}}")], vec!["dep"])),
        ("dep", task(None, vec![shell("echo dep")], vec![])),
    ]);
    let vars = parse_vars(&vec!["WHO=caller".to_string()]);
    let t = drive(&tf, "outer", &vars, Vars::new(), false, &ok);
    assert!(t.result.is_ok());
    assert_eq!(t.shell, vec![
        "echo before".to_string(),
        "echo dep".to_string(),
        "echo inner callee inner".to_string(),
        "echo after caller".to_string(),
    ]);
}

#[test]
fn shell_variable_failure_is_io_error() {
    let mut task_vars = IndexMap::new();
    task_vars.insert("S".to_string(), VarValue::Shell { sh: "boom".to_string() });
    let mut tk = task(None, vec![shell("echo {{.S}}")], vec![]);
    tk.vars = Some(task_vars);
    let tf = taskfile(vec![("t", tk)]);
    let (mut runner, mut action) = run_task(&tf, "t", &Vars::new(), Vars::new(), None, false);
    loop {
        let event = match action {
            Action::Continue => Event::Proceed,
            Action::ExpandShell { .. } => Event::ExpandFailed("no shell".to_string()),
            Action::Finished(r) => {
                assert!(matches!(r, Err(RunError::Io(ref m)) if m == "no shell"));
                break;
            },
            _ => panic!("no command should run"),
        };
        action = runner.step(&tf, event);
    }
}
