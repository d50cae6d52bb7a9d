use indexmap::IndexMap;
use taskfile_runner::loader::{
    detect_start, detect_taskfile, format_of, merge_namespace, resolve_start, DetectAction, Format, IncludeAction,
    IncludeEvent, LoadError,
};
use taskfile_runner::paths::base_dir_of;
use taskfile_runner::schema::{Cmd, Include, Task, Taskfile};

fn task(cmd: &str) -> Task {
    Task {
        desc: None,
        cmds: Some(vec![Cmd::Shell(cmd.to_string())]),
        deps: None,
        vars: None,
        dir: None,
        env: None,
        silent: None,
        ignore_error: None,
    }
}

fn taskfile(tasks: &[&str], includes: Vec<(&str, &str, bool)>) -> Taskfile {
    let mut m = IndexMap::new();
    for t in tasks {
        m.insert(t.to_string(), task(&format!("echo {t}")));
    }
    let inc = if includes.is_empty() {
        None
    } else {
        let mut im = IndexMap::new();
        for (ns, path, optional) in includes {
            im.insert(ns.to_string(), Include { taskfile: path.to_string(), dir: None, optional: Some(optional) });
        }
        Some(im)
    };
    Taskfile { version: "3".to_string(), tasks: m, vars: None, includes: inc, env: None }
}

fn detect(start: &str, existing: &[&str]) -> (Vec<String>, Result<(String, Format), String>) {
    let mut probed = vec![];
    let (mut d, mut a) = detect_start(start);
    loop {
        match a {
            DetectAction::Probe(p) => {
                let found = existing.contains(&p.as_str());
                probed.push(p);
                a = detect_taskfile(&mut d, found);
            },
            DetectAction::Found(p, f) => return (probed, Ok((p, f))),
            DetectAction::NotFound(LoadError::NotFound(s)) => return (probed, Err(s)),
            DetectAction::NotFound(_) => panic!("unexpected error"),
        }
    }
}

#[test]
fn detection_order() {
    let (probed, r) = detect("/a/b", &["/a/Taskfile.yml", "/Taskfile.syon"]);
    assert_eq!(probed, vec![
        "/a/b/Taskfile.syon", "/a/b/Taskfile.yaml", "/a/b/Taskfile.yml",
        "/a/Taskfile.syon", "/a/Taskfile.yaml", "/a/Taskfile.yml",
    ]);
    assert!(matches!(r, Ok((ref p, Format::Yaml)) if p == "/a/Taskfile.yml"));
    let (_, r) = detect("/a/b", &["/a/b/Taskfile.syon", "/a/b/Taskfile.yaml"]);
    assert!(matches!(r, Ok((ref p, Format::Syon)) if p == "/a/b/Taskfile.syon"));
}

#[test]
fn detection_not_found() {
    let (probed, r) = detect("/x", &[]);
    assert_eq!(probed.len(), 6);
    assert_eq!(probed[5], "/Taskfile.yml");
    assert_eq!(r, Err("/x".to_string()));
}

#[test]
fn formats_and_base_dirs() {
    assert!(format_of("sub/Taskfile.syon") == Format::Syon);
    assert!(format_of("sub/Taskfile.yaml") == Format::Yaml);
    assert!(format_of("Taskfile") == Format::Yaml);
    assert_eq!(base_dir_of("/a/b/Taskfile.yaml"), "/a/b");
    assert_eq!(base_dir_of("Taskfile.yaml"), "");
    assert_eq!(base_dir_of("/"), ".");
}

#[test]
fn merge_under_namespace() {
    let mut tf = taskfile(&["build", "sub:x"], vec![]);
    let child = taskfile(&["x", "y"], vec![]);
    merge_namespace(&mut tf, "sub", child.tasks);
    let keys: Vec<&String> = tf.tasks.keys().collect();
    assert_eq!(keys, vec!["build", "sub:x", "sub:y"]);
    assert!(matches!(&tf.tasks["sub:y"].cmds.as_ref().unwrap()[0], Cmd::Shell(s) if s == "echo y"));
    assert!(matches!(&tf.tasks["sub:x"].cmds.as_ref().unwrap()[0], Cmd::Shell(s) if s == "echo x"));
    assert!(matches!(&tf.tasks["build"].cmds.as_ref().unwrap()[0], Cmd::Shell(s) if s == "echo build"));
}

/// Resolves includes against a fake file system of parsed taskfiles.
fn resolve(root: Taskfile, base: &str, files: &dyn Fn(&str) -> Option<Taskfile>) -> (Vec<String>, Result<Taskfile, LoadError>) {
    let mut loaded = vec![];
    let mut r = resolve_start(root, base.to_string());
    let mut ev = IncludeEvent::Proceed;
    loop {
        match r.resolve_step(ev) {
            IncludeAction::Continue => ev = IncludeEvent::Proceed,
            IncludeAction::CheckExists(p) => ev = IncludeEvent::Exists(files(&p).is_some()),
            IncludeAction::Load(p, _) => {
                loaded.push(p.clone());
                ev = IncludeEvent::Loaded(Ok(files(&p).unwrap()));
            },
            IncludeAction::Done(t) => return (loaded, Ok(t)),
            IncludeAction::Failed(e) => return (loaded, Err(e)),
        }
    }
}

#[test]
fn nested_includes() {
    let root = taskfile(&["main"], vec![("lib", "lib/Taskfile.yaml", false), ("opt", "missing.yaml", true)]);
    let files = |p: &str| match p {
        "/r/lib/Taskfile.yaml" => Some(taskfile(&["a"], vec![("deep", "deep/T.syon", false)])),
        "/r/lib/deep/T.syon" => Some(taskfile(&["b"], vec![])),
        _ => None,
    };
    let (loaded, r) = resolve(root, "/r", &files);
    assert_eq!(loaded, vec!["/r/lib/Taskfile.yaml", "/r/lib/deep/T.syon"]);
    let tf = r.ok().expect("resolved");
    let keys: Vec<&String> = tf.tasks.keys().collect();
    assert_eq!(keys, vec!["main", "lib:a", "lib:deep:b"]);
    assert!(tf.includes.is_none());
}

#[test]
fn missing_include_fails() {
    let root = taskfile(&["main"], vec![("lib", "lib.yaml", false)]);
    let (_, r) = resolve(root, "/r", &|_: &str| None);
    assert!(matches!(r, Err(LoadError::Io(ref m)) if m == "included taskfile not found: /r/lib.yaml"));
}
