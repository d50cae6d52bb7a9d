use taskfile_runner::cli::task_list;
use taskfile_runner::schema::{Cmd, Dep, Taskfile, VarValue};
use taskfile_runner::syon::{
    parse_bool, syon_file_to_taskfile, MappingEntry, SequenceItem, SyonDocument, SyonError, SyonFile, SyonValue,
};

fn sc(s: &str) -> SyonValue {
    SyonValue::Scalar(s.to_string())
}

fn ent(k: &str, v: SyonValue) -> MappingEntry {
    MappingEntry { key: k.to_string(), value: v }
}

fn map(es: Vec<MappingEntry>) -> SyonValue {
    SyonValue::Mapping(es)
}

fn seq(vs: Vec<SyonValue>) -> SyonValue {
    SyonValue::Sequence(vs.into_iter().map(|value| SequenceItem { value }).collect())
}

fn file(body: SyonValue) -> SyonFile {
    SyonFile { documents: vec![SyonDocument { body }] }
}

fn load(body: SyonValue) -> Result<Taskfile, SyonError> {
    syon_file_to_taskfile(file(body))
}

fn structure_msg(r: Result<Taskfile, SyonError>) -> String {
    match r {
        Err(SyonError::Structure(m)) => m,
        Err(_) => panic!("not a structure error"),
        Ok(_) => panic!("expected an error"),
    }
}

#[test]
fn test_syon_taskfile() {
    // version: 3
    // tasks:
    //   hello-syon:
    //     desc: SYON hello task
    //     cmds:
    //       - echo syon-hello
    //   build-syon:
    //     desc: SYON build task
    //     cmds:
    //       - echo syon-build
    let body = map(vec![
        ent("version", sc("3")),
        ent("tasks", map(vec![
            ent("hello-syon", map(vec![ent("desc", sc("SYON hello task")), ent("cmds", seq(vec![sc("echo syon-hello")]))])),
            ent("build-syon", map(vec![ent("desc", sc("SYON build task")), ent("cmds", seq(vec![sc("echo syon-build")]))])),
        ])),
    ]);
    let tf = load(body).ok().expect("taskfile");
    assert_eq!(tf.version, "3");
    let listing = task_list(&tf);
    let names: Vec<&str> = listing.entries.iter().map(|e| e.0.as_str()).collect();
    assert_eq!(names, vec!["build-syon", "hello-syon"]);
    assert_eq!(listing.entries[1].1, "SYON hello task");
    let hello = &tf.tasks["hello-syon"];
    assert!(matches!(&hello.cmds.as_ref().unwrap()[0], Cmd::Shell(s) if s == "echo syon-hello"));
}

#[test]
fn full_syon_document() {
    let body = map(vec![
        ent("vars", map(vec![ent("GREETING", sc("hello")), ent("WHO", map(vec![ent("sh", sc("echo world"))]))])),
        ent("env", map(vec![ent("LOG_LEVEL", sc("info"))])),
        ent("includes", map(vec![ent("sub", map(vec![
            ent("taskfile", sc("./sub/Taskfile.syon")),
            ent("dir", sc("./sub")),
            ent("optional", sc("Yes")),
        ]))])),
        ent("tasks", map(vec![ent("say-hello", map(vec![
            ent("silent", sc("FALSE")),
            ent("ignore_error", sc("1")),
            ent("dir", sc("/tmp")),
            ent("env", map(vec![ent("TASK_ENV", sc("test"))])),
            ent("vars", map(vec![ent("MSG", sc("hi"))])),
            ent("deps", seq(vec![sc("prepare-env"), map(vec![ent("task", sc("other-task")), ent("vars", map(vec![ent("K", sc("v"))]))])])),
            ent("cmds", seq(vec![
                SyonValue::LiteralBlock("echo {{.GREETING}}\n".to_string()),
                map(vec![ent("task", sc("other-task"))]),
            ])),
            ent("unknown", sc("ignored")),
        ]))])),
    ]);
    let tf = load(body).ok().expect("taskfile");
    assert_eq!(tf.version, "3");
    let vars = tf.vars.as_ref().unwrap();
    assert!(matches!(&vars["GREETING"], VarValue::Scalar(s) if s == "hello"));
    assert!(matches!(&vars["WHO"], VarValue::Shell { sh } if sh == "echo world"));
    assert_eq!(tf.env.as_ref().unwrap()["LOG_LEVEL"], "info");
    let inc = &tf.includes.as_ref().unwrap()["sub"];
    assert_eq!(inc.taskfile, "./sub/Taskfile.syon");
    assert_eq!(inc.dir.as_deref(), Some("./sub"));
    assert_eq!(inc.optional, Some(true));
    let t = &tf.tasks["say-hello"];
    assert_eq!(t.silent, Some(false));
    assert_eq!(t.ignore_error, Some(true));
    assert_eq!(t.dir.as_deref(), Some("/tmp"));
    let deps = t.deps.as_ref().unwrap();
    assert!(matches!(&deps[0], Dep::Simple(s) if s == "prepare-env"));
    assert!(matches!(&deps[1], Dep::Full { task, vars: Some(v) } if task == "other-task" && v.len() == 1));
    let cmds = t.cmds.as_ref().unwrap();
    assert!(matches!(&cmds[0], Cmd::Shell(s) if s == "echo {{.GREETING}}\n"));
    assert!(matches!(&cmds[1], Cmd::TaskCall { task, vars: None } if task == "other-task"));
}

#[test]
fn default_version_and_last_key_wins() {
    let body = map(vec![
        ent("tasks", map(vec![ent("a", map(vec![ent("desc", sc("first")), ent("desc", sc("second"))]))])),
        ent("tasks", map(vec![ent("b", map(vec![])), ent("c", map(vec![])), ent("b", map(vec![ent("desc", sc("again"))]))])),
    ]);
    let tf = load(body).ok().expect("taskfile");
    assert_eq!(tf.version, "3");
    let keys: Vec<&String> = tf.tasks.keys().collect();
    assert_eq!(keys, vec!["b", "c"]);
    assert_eq!(tf.tasks["b"].desc.as_deref(), Some("again"));
}

#[test]
fn structure_errors() {
    assert_eq!(structure_msg(syon_file_to_taskfile(SyonFile { documents: vec![] })), "SYON file has no documents");
    assert_eq!(structure_msg(load(sc("x"))), "top-level must be a mapping");
    assert_eq!(structure_msg(load(map(vec![ent("tasks", sc("x"))]))), "tasks must be a mapping");
    assert_eq!(structure_msg(load(map(vec![ent("tasks", map(vec![ent("t", sc("x"))]))]))), "task 't' must be a mapping");
    assert_eq!(structure_msg(load(map(vec![ent("version", map(vec![]))]))), "version must be a scalar");
    assert_eq!(structure_msg(load(map(vec![ent("includes", seq(vec![]))]))), "includes must be a mapping");
    assert_eq!(structure_msg(load(map(vec![ent("vars", seq(vec![]))]))), "vars must be a mapping");
    assert_eq!(structure_msg(load(map(vec![ent("env", map(vec![ent("K", map(vec![]))]))]))), "K must be a scalar");
    assert_eq!(
        structure_msg(load(map(vec![ent("includes", map(vec![ent("x", map(vec![ent("dir", sc("d"))]))]))]))),
        "include missing 'taskfile' key"
    );
    assert_eq!(structure_msg(load(map(vec![ent("includes", map(vec![ent("x", sc("d"))]))]))), "include must be a mapping");
    assert_eq!(
        structure_msg(load(map(vec![ent("vars", map(vec![ent("K", map(vec![ent("other", sc("x"))]))]))]))),
        "var 'K' mapping must have a scalar 'sh' key"
    );
    assert_eq!(
        structure_msg(load(map(vec![ent("vars", map(vec![ent("K", seq(vec![]))]))]))),
        "var 'K' must be a scalar or {sh: ...} mapping"
    );
    let in_task = |k: &str, v: SyonValue| load(map(vec![ent("tasks", map(vec![ent("t", map(vec![ent(k, v)]))]))]));
    assert_eq!(structure_msg(in_task("cmds", sc("x"))), "cmds must be a sequence");
    assert_eq!(structure_msg(in_task("deps", sc("x"))), "deps must be a sequence");
    assert_eq!(structure_msg(in_task("silent", sc("maybe"))), "silent must be a boolean (true/false)");
    assert_eq!(structure_msg(in_task("ignore_error", map(vec![]))), "ignore_error must be a scalar");
    assert_eq!(structure_msg(in_task("vars", sc("x"))), "task vars must be a mapping");
    assert_eq!(structure_msg(in_task("env", sc("x"))), "task env must be a mapping");
    assert_eq!(structure_msg(in_task("cmds", seq(vec![seq(vec![])]))), "cmd must be a string or mapping");
    assert_eq!(structure_msg(in_task("cmds", seq(vec![map(vec![])]))), "cmd task-call missing 'task' key");
    assert_eq!(structure_msg(in_task("cmds", seq(vec![map(vec![ent("task", map(vec![]))])]))), "cmd.task must be a scalar");
    assert_eq!(structure_msg(in_task("deps", seq(vec![SyonValue::LiteralBlock("x".to_string())]))), "dep must be a string or mapping");
    assert_eq!(structure_msg(in_task("deps", seq(vec![map(vec![ent("vars", sc("x"))])]))), "dep.vars must be a mapping");
}

#[test]
fn first_error_in_document_order_wins() {
    let body = map(vec![ent("vars", sc("bad")), ent("tasks", sc("bad too"))]);
    assert_eq!(structure_msg(load(body)), "vars must be a mapping");
}

#[test]
fn booleans() {
    for (s, b) in [("true", true), ("YES", true), ("1", true), ("False", false), ("no", false), ("0", false)] {
        assert!(matches!(parse_bool(s.to_string(), "x"), Ok(v) if v == b), "{s}");
    }
    assert!(matches!(parse_bool("on".to_string(), "flag"), Err(SyonError::Structure(m)) if m == "flag must be a boolean (true/false)"));
    assert!(matches!(parse_bool("TRUE ".to_string(), "flag"), Err(_)));
}
