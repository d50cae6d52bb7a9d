use taskfile_runner::vars::{
    is_python_cmd, lookup_var, parse_vars, shell_output, split_once_eq, split_python_args, split_whitespace,
    substitute_vars, trim_end_newlines, Vars,
};

fn scope(pairs: &[&str]) -> Vars {
    parse_vars(&pairs.iter().map(|s| s.to_string()).collect())
}

#[test]
fn parse_vars_splits_at_first_equals() {
    let v = parse_vars(&vec![
        "A=1".to_string(),
        "noequals".to_string(),
        "B=x=y".to_string(),
        "A=2".to_string(),
        "=empty".to_string(),
    ]);
    assert_eq!(v.len(), 3);
    assert_eq!(v.get("A").map(|s| s.as_str()), Some("2"));
    assert_eq!(v.get("B").map(|s| s.as_str()), Some("x=y"));
    assert_eq!(v.get("").map(|s| s.as_str()), Some("empty"));
    assert!(v.get("noequals").is_none());
    let (k, val) = v.entry(0);
    assert_eq!((k.as_str(), val.as_str()), ("A", "2"));
}

#[test]
fn split_once_eq_cases() {
    assert_eq!(split_once_eq("K=V"), Some(("K".to_string(), "V".to_string())));
    assert_eq!(split_once_eq("é=ü=x"), Some(("é".to_string(), "ü=x".to_string())));
    assert_eq!(split_once_eq("nothing"), None);
}

#[test]
fn insert_replaces_in_place() {
    let mut v = Vars::new();
    v.insert("X".to_string(), "1".to_string());
    v.insert("Y".to_string(), "2".to_string());
    v.insert("X".to_string(), "3".to_string());
    assert_eq!(v.len(), 2);
    assert_eq!(v.entry(0).1.as_str(), "3");
    let d = v.duplicate();
    assert_eq!(d.get("Y").map(|s| s.as_str()), Some("2"));
}

#[test]
fn lookup_falls_back_to_environment() {
    let s = scope(&["A=scope"]);
    let e = scope(&["A=env", "B=env"]);
    assert_eq!(lookup_var(&s, &e, "A"), "scope");
    assert_eq!(lookup_var(&s, &e, "B"), "env");
    assert_eq!(lookup_var(&s, &e, "C"), "");
}

#[test]
fn substitution() {
    let s = scope(&["NAME=world", "X=1"]);
    let e = scope(&["HOME=/h"]);
    assert_eq!(substitute_vars("echo Hello {{.NAME}}", &s, &e), "echo Hello world");
    assert_eq!(substitute_vars("{{ .X }}{{.X}} {{.HOME}} {{.MISSING}}!", &s, &e), "11 /h !");
    assert_eq!(substitute_vars("{{X}} {{.1X}} {.X} {{.X", &s, &e), "{{X}} {{.1X}} {.X} {{.X");
    assert_eq!(substitute_vars("no refs", &s, &e), "no refs");
    assert_eq!(substitute_vars("{{.{{.X}}}}", &s, &e), "{{.1}}");
}

#[test]
fn words_and_python() {
    assert_eq!(split_whitespace("  a\tbb \u{3000} c\n"), vec!["a", "bb", "c"]);
    assert!(split_whitespace(" \u{a0} ").is_empty());
    assert!(is_python_cmd("python3 x.py"));
    assert!(is_python_cmd("python x.py"));
    assert!(is_python_cmd("python3"));
    assert!(is_python_cmd("python"));
    assert!(!is_python_cmd("python3x"));
    assert!(!is_python_cmd(" python3 x"));
    assert!(!is_python_cmd("pythonista"));
    assert_eq!(split_python_args("python3 s.py a  b"), ("s.py".to_string(), vec!["a".to_string(), "b".to_string()]));
    assert_eq!(split_python_args("python s.py"), ("s.py".to_string(), vec![]));
    assert_eq!(split_python_args("python3"), ("".to_string(), vec![]));
    assert_eq!(split_python_args("python3   "), ("".to_string(), vec![]));
}

#[test]
fn shell_output_is_trimmed() {
    assert_eq!(trim_end_newlines("a\n\n"), "a");
    assert_eq!(trim_end_newlines("a\n b\r\n"), "a\n b\r");
    assert_eq!(shell_output(b"world\n"), "world");
    assert_eq!(shell_output(b"\xffok\n"), "\u{fffd}ok");
    assert_eq!(shell_output(b""), "");
}
