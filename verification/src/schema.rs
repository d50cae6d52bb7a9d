//! The taskfile schema (taskfile.dev v3 subset) and its mathematical views.
use vstd::prelude::*;
use indexmap::IndexMap;

use crate::ordered_map::{map_entry_values, var_entries, string_entries, include_entries, task_entries};

verus! {

/// A variable definition: a literal value or a shell command whose output
/// becomes the value.
pub enum VarValue {
    Scalar(String),
    Shell { sh: String },
}

/// Another taskfile whose tasks are merged under a namespace.
pub struct Include {
    pub taskfile: String,
    pub dir: Option<String>,
    pub optional: Option<bool>,
}

/// A command of a task: a shell line or a call of another task.
pub enum Cmd {
    Shell(String),
    TaskCall { task: String, vars: Option<IndexMap<String, VarValue>> },
}

/// A dependency of a task: a task name, or a task name with variables.
pub enum Dep {
    Simple(String),
    Full { task: String, vars: Option<IndexMap<String, VarValue>> },
}

pub struct Task {
    pub desc: Option<String>,
    pub cmds: Option<Vec<Cmd>>,
    pub deps: Option<Vec<Dep>>,
    pub vars: Option<IndexMap<String, VarValue>>,
    pub dir: Option<String>,
    pub env: Option<IndexMap<String, String>>,
    pub silent: Option<bool>,
    pub ignore_error: Option<bool>,
}

pub struct Taskfile {
    pub version: String,
    pub tasks: IndexMap<String, Task>,
    pub vars: Option<IndexMap<String, VarValue>>,
    pub includes: Option<IndexMap<String, Include>>,
    pub env: Option<IndexMap<String, String>>,
}

// ---------------------------------------------------------------------------
// Views
// ---------------------------------------------------------------------------

pub enum VarValueView {
    Scalar(Seq<char>),
    Shell(Seq<char>),
}

pub struct IncludeView {
    pub taskfile: Seq<char>,
    pub dir: Option<Seq<char>>,
    pub optional: Option<bool>,
}

pub enum CmdView {
    Shell(Seq<char>),
    TaskCall { task: Seq<char>, vars: Option<Seq<(Seq<char>, VarValueView)>> },
}

pub enum DepView {
    Simple(Seq<char>),
    Full { task: Seq<char>, vars: Option<Seq<(Seq<char>, VarValueView)>> },
}

pub struct TaskView {
    pub desc: Option<Seq<char>>,
    pub cmds: Option<Seq<CmdView>>,
    pub deps: Option<Seq<DepView>>,
    pub vars: Option<Seq<(Seq<char>, VarValueView)>>,
    pub dir: Option<Seq<char>>,
    pub env: Option<Seq<(Seq<char>, Seq<char>)>>,
    pub silent: Option<bool>,
    pub ignore_error: Option<bool>,
}

pub struct TaskfileView {
    pub version: Seq<char>,
    pub tasks: Seq<(Seq<char>, TaskView)>,
    pub vars: Option<Seq<(Seq<char>, VarValueView)>>,
    pub includes: Option<Seq<(Seq<char>, IncludeView)>>,
    pub env: Option<Seq<(Seq<char>, Seq<char>)>>,
}

pub open spec fn opt_str_view(o: Option<String>) -> Option<Seq<char>> {
    match o {
        Some(s) => Some(s@),
        None => None,
    }
}

pub open spec fn var_value_view(v: VarValue) -> VarValueView {
    v@
}

pub open spec fn string_view(s: String) -> Seq<char> {
    s@
}

pub open spec fn include_view(i: Include) -> IncludeView {
    i@
}

pub open spec fn task_view(t: Task) -> TaskView {
    t@
}

/// The view of a map of variable definitions.
pub open spec fn var_map_view(m: IndexMap<String, VarValue>) -> Seq<(Seq<char>, VarValueView)> {
    map_entry_values(var_entries(m), |v: VarValue| var_value_view(v))
}

pub open spec fn opt_var_map_view(m: Option<IndexMap<String, VarValue>>) -> Option<Seq<(Seq<char>, VarValueView)>> {
    match m {
        Some(m) => Some(var_map_view(m)),
        None => None,
    }
}

/// The view of a map of strings.
pub open spec fn string_map_view(m: IndexMap<String, String>) -> Seq<(Seq<char>, Seq<char>)> {
    map_entry_values(string_entries(m), |v: String| string_view(v))
}

pub open spec fn opt_string_map_view(m: Option<IndexMap<String, String>>) -> Option<Seq<(Seq<char>, Seq<char>)>> {
    match m {
        Some(m) => Some(string_map_view(m)),
        None => None,
    }
}

/// The view of a map of includes.
pub open spec fn include_map_view(m: IndexMap<String, Include>) -> Seq<(Seq<char>, IncludeView)> {
    map_entry_values(include_entries(m), |v: Include| include_view(v))
}

/// The view of a map of tasks.
pub open spec fn task_map_view(m: IndexMap<String, Task>) -> Seq<(Seq<char>, TaskView)> {
    map_entry_values(task_entries(m), |v: Task| task_view(v))
}

impl View for VarValue {
    type V = VarValueView;

    open spec fn view(&self) -> VarValueView {
        match self {
            VarValue::Scalar(s) => VarValueView::Scalar(s@),
            VarValue::Shell { sh } => VarValueView::Shell(sh@),
        }
    }
}

impl View for Include {
    type V = IncludeView;

    open spec fn view(&self) -> IncludeView {
        IncludeView { taskfile: self.taskfile@, dir: opt_str_view(self.dir), optional: self.optional }
    }
}

impl View for Cmd {
    type V = CmdView;

    open spec fn view(&self) -> CmdView {
        match self {
            Cmd::Shell(s) => CmdView::Shell(s@),
            Cmd::TaskCall { task, vars } => CmdView::TaskCall { task: task@, vars: opt_var_map_view(*vars) },
        }
    }
}

impl View for Dep {
    type V = DepView;

    open spec fn view(&self) -> DepView {
        match self {
            Dep::Simple(s) => DepView::Simple(s@),
            Dep::Full { task, vars } => DepView::Full { task: task@, vars: opt_var_map_view(*vars) },
        }
    }
}

pub open spec fn cmd_view(c: Cmd) -> CmdView {
    c@
}

pub open spec fn dep_view(d: Dep) -> DepView {
    d@
}

pub open spec fn opt_cmds_view(o: Option<Vec<Cmd>>) -> Option<Seq<CmdView>> {
    match o {
        Some(v) => Some(v@.map_values(|c: Cmd| cmd_view(c))),
        None => None,
    }
}

pub open spec fn opt_deps_view(o: Option<Vec<Dep>>) -> Option<Seq<DepView>> {
    match o {
        Some(v) => Some(v@.map_values(|d: Dep| dep_view(d))),
        None => None,
    }
}

impl View for Task {
    type V = TaskView;

    open spec fn view(&self) -> TaskView {
        TaskView {
            desc: opt_str_view(self.desc),
            cmds: opt_cmds_view(self.cmds),
            deps: opt_deps_view(self.deps),
            vars: opt_var_map_view(self.vars),
            dir: opt_str_view(self.dir),
            env: opt_string_map_view(self.env),
            silent: self.silent,
            ignore_error: self.ignore_error,
        }
    }
}

impl View for Taskfile {
    type V = TaskfileView;

    open spec fn view(&self) -> TaskfileView {
        TaskfileView {
            version: self.version@,
            tasks: task_map_view(self.tasks),
            vars: opt_var_map_view(self.vars),
            includes: match self.includes {
                Some(m) => Some(include_map_view(m)),
                None => None,
            },
            env: opt_string_map_view(self.env),
        }
    }
}

/// The name of the task that a dependency refers to.
pub open spec fn dep_name_view(d: DepView) -> Seq<char> {
    match d {
        DepView::Simple(s) => s,
        DepView::Full { task, .. } => task,
    }
}

/// The names of the tasks that a task depends on, in order.
pub open spec fn dep_names(t: TaskView) -> Seq<Seq<char>> {
    match t.deps {
        Some(ds) => ds.map_values(|d: DepView| dep_name_view(d)),
        None => Seq::empty(),
    }
}

/// The name of the task that a dependency refers to.
pub fn dep_task_name(dep: &Dep) -> (name: &str)
    ensures
        name@ == dep_name_view(dep@),
{
    match dep {
        Dep::Simple(s) => s.as_str(),
        Dep::Full { task, .. } => task.as_str(),
    }
}

} // verus!
