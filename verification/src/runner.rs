//! Running a task, as a sequence of decisions.
//!
//! A run executes the tasks of a run order one after the other.  For each task
//! it binds the built-in variables, evaluates the variable definitions of the
//! taskfile and of the task (a `sh:` definition takes the output of a shell
//! command), binds the variables given by the caller, and then goes through
//! the commands: a shell line runs after `{{.NAME}}` substitution (a Python
//! line goes to the embedded interpreter when there is one), a task call runs
//! the called task and its dependencies with the caller's variables and the
//! call's own.  A command that fails stops the run unless the task ignores
//! errors.
//!
//! The `Runner` takes these decisions; the caller performs the actions that it
//! asks for (running a shell, starting a command, calling the interpreter) and
//! reports what happened.
use vstd::prelude::*;
use indexmap::IndexMap;

use crate::deps::{
    all_needed_defined, get_task, has_task, is_failure, is_run_order, names_view, on_dep_cycle,
    reachable, topo_order, topo_outcome, RunError,
};
use crate::ordered_map::{
    entry_insert, entry_lookup, string_entries, string_map_get_index, string_map_len,
    var_map_get_index, var_map_len,
};
use crate::schema::{Cmd, CmdView, Task, TaskView, Taskfile, TaskfileView, VarValue, VarValueView};
use crate::vars::{
    is_python_cmd, is_python_line, python_args, python_script, shell_output, shell_output_value,
    split_python_args, strings_view, substitute, substitute_vars, Vars,
};

verus! {

// ---------------------------------------------------------------------------
// Scopes and commands
// ---------------------------------------------------------------------------

/// The scope that a task starts with: `TASK` is its name, and when the
/// working directory is known, `USER_WORKING_DIR` and `TASKFILE_DIR` are it.
pub open spec fn initial_scope(name: Seq<char>, cwd: Option<Seq<char>>) -> Seq<(Seq<char>, Seq<char>)> {
    let s = entry_insert(Seq::empty(), "TASK"@, name);
    match cwd {
        Some(c) => entry_insert(entry_insert(s, "USER_WORKING_DIR"@, c), "TASKFILE_DIR"@, c),
        None => s,
    }
}

/// `scope` with the bindings `pairs` made one after the other.
pub open spec fn insert_all(scope: Seq<(Seq<char>, Seq<char>)>, pairs: Seq<(Seq<char>, Seq<char>)>) -> Seq<(Seq<char>, Seq<char>)>
    decreases pairs.len(),
{
    if pairs.len() == 0 {
        scope
    } else {
        entry_insert(insert_all(scope, pairs.drop_last()), pairs.last().0, pairs.last().1)
    }
}

/// Environment entries with `{{.NAME}}` references substituted in the values.
pub open spec fn substituted_env(
    entries: Option<Seq<(Seq<char>, Seq<char>)>>,
    scope: Seq<(Seq<char>, Seq<char>)>,
    env: Seq<(Seq<char>, Seq<char>)>,
) -> Seq<(Seq<char>, Seq<char>)> {
    match entries {
        Some(e) => e.map_values(|p: (Seq<char>, Seq<char>)| (p.0, substitute(p.1, scope, env))),
        None => Seq::empty(),
    }
}

/// The environment that a shell command of the task gets on top of the
/// process environment: the taskfile's entries, then the task's.
pub open spec fn command_env(
    tf: TaskfileView,
    t: TaskView,
    scope: Seq<(Seq<char>, Seq<char>)>,
    env: Seq<(Seq<char>, Seq<char>)>,
) -> Seq<(Seq<char>, Seq<char>)> {
    substituted_env(tf.env, scope, env) + substituted_env(t.env, scope, env)
}

/// A shell command to run with `sh -c` (`cmd /C` on Windows).
pub struct ShellCommand {
    /// The command line, after substitution.
    pub line: String,
    /// Whether to print the line before running it.
    pub echo: bool,
    /// Whether to note that a Python line runs through the system shell.
    pub python_note: bool,
    /// The working directory, after substitution.
    pub dir: Option<String>,
    /// Variables to set in the command's environment, in order.
    pub env: Vec<(String, String)>,
}

/// A Python script to run in the embedded interpreter.
pub struct PythonCommand {
    /// The command line, after substitution.
    pub line: String,
    /// Whether to print the line before running it.
    pub echo: bool,
    pub script: String,
    pub args: Vec<String>,
}

/// What the runner asks its caller to do next.
pub enum Action {
    /// Nothing to do outside: call `step` again with `Event::Proceed`.
    Continue,
    /// Run `sh -c <sh>` and report its standard output.
    ExpandShell { sh: String },
    /// Run a shell command and report how it exited.
    RunShell(ShellCommand),
    /// Run a Python script in the embedded interpreter and report its exit code.
    RunPython(PythonCommand),
    /// The run is over.
    Finished(Result<(), RunError>),
}

/// What the caller reports back.
pub enum Event {
    /// Nothing happened outside (the answer to `Action::Continue`).
    Proceed,
    /// The standard output of the shell command of a variable.
    Expanded(Vec<u8>),
    /// The shell command of a variable could not be started.
    ExpandFailed(String),
    /// A shell command exited; `code` is absent when a signal ended it.
    Exited { success: bool, code: Option<i32> },
    /// A shell command could not be started.
    SpawnFailed(String),
    /// The Python script exited with this code.
    PythonExited(i32),
    /// The interpreter failed.
    PythonFailed(RunError),
}

pub open spec fn opt_substitute(o: Option<Seq<char>>, scope: Seq<(Seq<char>, Seq<char>)>, env: Seq<(Seq<char>, Seq<char>)>) -> Option<Seq<char>> {
    match o {
        Some(d) => Some(substitute(d, scope, env)),
        None => None,
    }
}

pub open spec fn pairs_view(v: Seq<(String, String)>) -> Seq<(Seq<char>, Seq<char>)> {
    v.map_values(|p: (String, String)| (p.0@, p.1@))
}

/// The action for the shell line `line` of task `t`: the substituted line goes
/// to the interpreter when it is a Python command and there is one, to the
/// shell otherwise.
pub open spec fn is_line_action(
    tf: TaskfileView,
    t: TaskView,
    line: Seq<char>,
    scope: Seq<(Seq<char>, Seq<char>)>,
    env: Seq<(Seq<char>, Seq<char>)>,
    has_python: bool,
    act: Action,
) -> bool {
    let e = substitute(line, scope, env);
    let echo = !(t.silent == Some(true));
    if is_python_line(e) && has_python {
        act matches Action::RunPython(p) && {
            &&& p.line@ == e
            &&& p.echo == echo
            &&& p.script@ == python_script(e)
            &&& strings_view(p.args@) == python_args(e)
        }
    } else {
        act matches Action::RunShell(c) && {
            &&& c.line@ == e
            &&& c.echo == echo
            &&& c.python_note == is_python_line(e)
            &&& crate::schema::opt_str_view(c.dir) == opt_substitute(t.dir, scope, env)
            &&& pairs_view(c.env@) == command_env(tf, t, scope, env)
        }
    }
}

/// The task ignores failing commands.
pub open spec fn ignores_errors(t: TaskView) -> bool {
    t.ignore_error == Some(true)
}

pub open spec fn opt_entries<V>(o: Option<Seq<(Seq<char>, V)>>) -> Seq<(Seq<char>, V)> {
    match o {
        Some(v) => v,
        None => Seq::empty(),
    }
}

/// The number of entries of an optional map of variable definitions.
fn var_defs_len(m: &Option<IndexMap<String, VarValue>>) -> (n: usize)
    ensures
        n == opt_entries(crate::schema::opt_var_map_view(*m)).len(),
{
    match m {
        Some(m) => var_map_len(m),
        None => 0,
    }
}

/// The entry at position `i` of an optional map of variable definitions.
fn var_def_at(m: &Option<IndexMap<String, VarValue>>, i: usize) -> (r: (&String, &VarValue))
    requires
        i < opt_entries(crate::schema::opt_var_map_view(*m)).len(),
    ensures
        r.0@ == opt_entries(crate::schema::opt_var_map_view(*m))[i as int].0,
        r.1@ == opt_entries(crate::schema::opt_var_map_view(*m))[i as int].1,
{
    let m = m.as_ref().unwrap();
    var_map_get_index(m, i).unwrap()
}

/// The scope that the task `name` starts with.
fn start_scope(name: &str, cwd: &Option<String>) -> (r: Vars)
    ensures
        r@ == initial_scope(name@, crate::schema::opt_str_view(*cwd)),
{
    let mut s = Vars::new();
    s.insert(String::from_str("TASK"), String::from_str(name));
    match cwd {
        Some(c) => {
            s.insert(String::from_str("USER_WORKING_DIR"), c.clone());
            s.insert(String::from_str("TASKFILE_DIR"), c.clone());
        },
        None => {},
    }
    s
}

/// Binds every variable of `extra`, in order.
fn bind_all(scope: &mut Vars, extra: &Vars)
    ensures
        final(scope)@ == insert_all(old(scope)@, extra@),
{
    let ghost s0 = scope@;
    let mut i: usize = 0;
    assert(extra@.take(0) =~= Seq::<(Seq<char>, Seq<char>)>::empty());
    while i < extra.len()
        invariant
            i <= extra@.len(),
            scope@ == insert_all(s0, extra@.take(i as int)),
        decreases extra@.len() - i,
    {
        let (k, v) = extra.entry(i);
        assert(extra@.take(i + 1).drop_last() =~= extra@.take(i as int));
        scope.insert(k.clone(), v.clone());
        i = i + 1;
    }
    assert(extra@.take(extra@.len() as int) =~= extra@);
}

/// Appends the entries of an optional environment map, with references
/// substituted in the values.
fn push_env(out: &mut Vec<(String, String)>, m: &Option<IndexMap<String, String>>, scope: &Vars, env: &Vars)
    ensures
        pairs_view(final(out)@) == pairs_view(old(out)@) + substituted_env(crate::schema::opt_string_map_view(*m), scope@, env@),
{
    match m {
        None => {
            assert(pairs_view(out@) =~= pairs_view(out@) + Seq::<(Seq<char>, Seq<char>)>::empty());
        },
        Some(m) => {
            let ghost o0 = pairs_view(out@);
            let ghost want = substituted_env(Some(crate::schema::string_map_view(*m)), scope@, env@);
            let n = string_map_len(m);
            let mut i: usize = 0;
            while i < n
                invariant
                    i <= n,
                    n == string_entries(*m).len(),
                    want == substituted_env(Some(crate::schema::string_map_view(*m)), scope@, env@),
                    pairs_view(out@) == o0 + want.take(i as int),
                decreases n - i,
            {
                let (k, v) = string_map_get_index(m, i).unwrap();
                let sv = substitute_vars(v.as_str(), scope, env);
                let ghost before = pairs_view(out@);
                out.push((k.clone(), sv));
                assert(pairs_view(out@) =~= before.push((k@, sv@)));
                assert(want.take(i + 1) =~= want.take(i as int).push(want[i as int]));
                i = i + 1;
            }
            assert(want.take(n as int) =~= want);
        },
    }
}

/// The action for a shell line of a task.
fn line_action(tf: &Taskfile, task: &Task, line: &str, scope: &Vars, env: &Vars, has_python: bool) -> (act: Action)
    ensures
        is_line_action(tf@, task@, line@, scope@, env@, has_python, act),
{
    let e = substitute_vars(line, scope, env);
    let echo = !(task.silent == Some(true));
    let python = is_python_cmd(e.as_str());
    if python && has_python {
        let (script, args) = split_python_args(e.as_str());
        Action::RunPython(PythonCommand { line: e, echo, script, args })
    } else {
        let dir = match &task.dir {
            Some(d) => Some(substitute_vars(d.as_str(), scope, env)),
            None => None,
        };
        let mut envs: Vec<(String, String)> = Vec::new();
        assert(pairs_view(envs@) =~= Seq::<(Seq<char>, Seq<char>)>::empty());
        push_env(&mut envs, &tf.env, scope, env);
        push_env(&mut envs, &task.env, scope, env);
        Action::RunShell(ShellCommand { line: e, echo, python_note: python, dir, env: envs })
    }
}

// ---------------------------------------------------------------------------
// The runner
// ---------------------------------------------------------------------------

/// Where a task of a run order stands.
enum Phase {
    /// Not begun.
    Start,
    /// Evaluating the taskfile's (`own` false) or the task's (`own` true)
    /// variable definitions; `idx` is the next one.
    Defs { own: bool, idx: usize, scope: Vars },
    /// Running the commands; `idx` is the next one.
    Cmds { idx: usize, scope: Vars },
    /// Evaluating the variables of the task call at command `cmd`; `idx` is
    /// the next one, `sub` the variables that the called task gets.
    Call { cmd: usize, idx: usize, scope: Vars, sub: Vars },
}

/// One run of a task and its dependencies: the run order, the variables of the
/// caller, and the position in the order.
struct Frame {
    order: Vec<String>,
    extra: Vars,
    pos: usize,
    phase: Phase,
}

/// The state of a run.  Task calls nest: each one has a frame on a stack.
pub struct Runner {
    has_python: bool,
    cwd: Option<String>,
    env: Vars,
    frames: Vec<Frame>,
}

pub enum PhaseView {
    Start,
    Defs { own: bool, idx: nat, scope: Seq<(Seq<char>, Seq<char>)> },
    Cmds { idx: nat, scope: Seq<(Seq<char>, Seq<char>)> },
    Call { cmd: nat, idx: nat, scope: Seq<(Seq<char>, Seq<char>)>, sub: Seq<(Seq<char>, Seq<char>)> },
}

pub struct FrameView {
    pub order: Seq<Seq<char>>,
    pub extra: Seq<(Seq<char>, Seq<char>)>,
    pub pos: nat,
    pub phase: PhaseView,
}

pub struct RunnerView {
    pub has_python: bool,
    pub cwd: Option<Seq<char>>,
    pub env: Seq<(Seq<char>, Seq<char>)>,
    pub frames: Seq<FrameView>,
}

spec fn phase_view(p: Phase) -> PhaseView {
    match p {
        Phase::Start => PhaseView::Start,
        Phase::Defs { own, idx, scope } => PhaseView::Defs { own, idx: idx as nat, scope: scope@ },
        Phase::Cmds { idx, scope } => PhaseView::Cmds { idx: idx as nat, scope: scope@ },
        Phase::Call { cmd, idx, scope, sub } => PhaseView::Call { cmd: cmd as nat, idx: idx as nat, scope: scope@, sub: sub@ },
    }
}

spec fn frame_view(f: Frame) -> FrameView {
    FrameView { order: names_view(f.order@), extra: f.extra@, pos: f.pos as nat, phase: phase_view(f.phase) }
}

impl View for Runner {
    type V = RunnerView;

    closed spec fn view(&self) -> RunnerView {
        RunnerView {
            has_python: self.has_python,
            cwd: crate::schema::opt_str_view(self.cwd),
            env: self.env@,
            frames: self.frames@.map_values(|f: Frame| frame_view(f)),
        }
    }
}

/// The task that a frame stands at.
pub open spec fn frame_task(tf: TaskfileView, f: FrameView) -> TaskView {
    match entry_lookup(tf.tasks, f.order[f.pos as int]) {
        Some(t) => t,
        None => arbitrary(),
    }
}

/// The taskfile's (`own` false) or the task's (`own` true) definitions.
pub open spec fn defs_part(tf: TaskfileView, t: TaskView, own: bool) -> Seq<(Seq<char>, VarValueView)> {
    if own {
        opt_entries(t.vars)
    } else {
        opt_entries(tf.vars)
    }
}

pub open spec fn cmds_of(t: TaskView) -> Seq<CmdView> {
    match t.cmds {
        Some(c) => c,
        None => Seq::empty(),
    }
}

/// The variables of a task call.
pub open spec fn call_vars(c: CmdView) -> Seq<(Seq<char>, VarValueView)> {
    match c {
        CmdView::TaskCall { vars, .. } => opt_entries(vars),
        _ => Seq::empty(),
    }
}

/// The task that a task call names.
pub open spec fn call_name(c: CmdView) -> Seq<char> {
    match c {
        CmdView::TaskCall { task, .. } => task,
        _ => Seq::empty(),
    }
}

pub open spec fn phase_wf(tf: TaskfileView, t: TaskView, p: PhaseView) -> bool {
    match p {
        PhaseView::Start => true,
        PhaseView::Defs { own, idx, .. } => idx <= defs_part(tf, t, own).len(),
        PhaseView::Cmds { idx, .. } => t.cmds is Some && idx <= cmds_of(t).len(),
        PhaseView::Call { cmd, idx, .. } => {
            &&& t.cmds is Some
            &&& cmd < cmds_of(t).len()
            &&& cmds_of(t)[cmd as int] is TaskCall
            &&& idx <= call_vars(cmds_of(t)[cmd as int]).len()
        },
    }
}

pub open spec fn frame_wf(tf: TaskfileView, f: FrameView) -> bool {
    &&& forall|j: int| 0 <= j < f.order.len() ==> has_task(tf, #[trigger] f.order[j])
    &&& f.pos <= f.order.len()
    &&& f.pos < f.order.len() ==> phase_wf(tf, frame_task(tf, f), f.phase)
}

/// Every frame of the run stands at a defined task, at a valid place.
pub open spec fn runner_wf(tf: TaskfileView, r: RunnerView) -> bool {
    forall|i: int| 0 <= i < r.frames.len() ==> frame_wf(tf, #[trigger] r.frames[i])
}

/// `r` with its top frame replaced.
pub open spec fn with_top(r: RunnerView, f: FrameView) -> RunnerView {
    RunnerView { frames: r.frames.drop_last().push(f), ..r }
}

/// `r` with no frame left.
pub open spec fn cleared(r: RunnerView) -> RunnerView {
    RunnerView { frames: Seq::empty(), ..r }
}

pub open spec fn with_phase(f: FrameView, p: PhaseView) -> FrameView {
    FrameView { phase: p, ..f }
}

/// The frame moved on to the next task of its order.
pub open spec fn next_task(f: FrameView) -> FrameView {
    FrameView { pos: f.pos + 1, phase: PhaseView::Start, ..f }
}

/// `e` is an I/O error with the message `m`.
pub open spec fn is_io_error(e: RunError, m: Seq<char>) -> bool {
    e matches RunError::Io(x) && x@ == m
}

/// The errors that a run order of `root` can fail with.
pub open spec fn is_order_error(tf: TaskfileView, root: Seq<char>, e: RunError) -> bool {
    match e {
        RunError::TaskNotFound(n) => reachable(tf, root, n@) && !has_task(tf, n@),
        RunError::CycleDetected(n) => reachable(tf, root, n@) && on_dep_cycle(tf, n@),
        _ => false,
    }
}

/// One evaluation step of a variable definition `(k, v)` into `scope`: a
/// literal binds at once, a shell definition asks for its command's output
/// and binds it when the output comes.  `next` builds the new phase from the
/// new scope.
pub open spec fn def_step(
    old: RunnerView,
    f: FrameView,
    k: Seq<char>,
    v: VarValueView,
    scope: Seq<(Seq<char>, Seq<char>)>,
    next: spec_fn(Seq<(Seq<char>, Seq<char>)>) -> PhaseView,
    ev: Event,
    new: RunnerView,
    act: Action,
) -> bool {
    match v {
        VarValueView::Scalar(x) => new == with_top(old, with_phase(f, next(entry_insert(scope, k, x)))) && act is Continue,
        VarValueView::Shell(sh) => match ev {
            Event::Expanded(out) => new == with_top(old, with_phase(f, next(entry_insert(scope, k, shell_output_value(out@)))))
                && act is Continue,
            Event::ExpandFailed(m) => new == cleared(old) && (act matches Action::Finished(Err(e)) && is_io_error(e, m@)),
            _ => new == old && (act matches Action::ExpandShell { sh: s } && s@ == sh),
        },
    }
}

/// One step of a run, from `old` on the report `ev` to `new` with the action
/// `act` (see the module documentation).
pub open spec fn step_spec(tf: TaskfileView, old: RunnerView, ev: Event, new: RunnerView, act: Action) -> bool {
    if old.frames.len() == 0 {
        new == old && act matches Action::Finished(Ok(()))
    } else {
        let f = old.frames.last();
        let rest = old.frames.drop_last();
        if f.pos >= f.order.len() {
            &&& new == RunnerView { frames: rest, ..old }
            &&& if rest.len() == 0 { act matches Action::Finished(Ok(())) } else { act is Continue }
        } else {
            let t = frame_task(tf, f);
            match f.phase {
                PhaseView::Start => {
                    &&& new == with_top(old, with_phase(f, PhaseView::Defs {
                        own: false,
                        idx: 0,
                        scope: initial_scope(f.order[f.pos as int], old.cwd),
                    }))
                    &&& act is Continue
                },
                PhaseView::Defs { own, idx, scope } => {
                    let part = defs_part(tf, t, own);
                    if idx < part.len() {
                        def_step(old, f, part[idx as int].0, part[idx as int].1, scope,
                            |s: Seq<(Seq<char>, Seq<char>)>| PhaseView::Defs { own, idx: idx + 1, scope: s }, ev, new, act)
                    } else if !own {
                        new == with_top(old, with_phase(f, PhaseView::Defs { own: true, idx: 0, scope })) && act is Continue
                    } else {
                        let s2 = insert_all(scope, f.extra);
                        &&& act is Continue
                        &&& if t.cmds is Some {
                            new == with_top(old, with_phase(f, PhaseView::Cmds { idx: 0, scope: s2 }))
                        } else {
                            new == with_top(old, next_task(f))
                        }
                    }
                },
                PhaseView::Cmds { idx, scope } => {
                    let cmds = cmds_of(t);
                    if idx >= cmds.len() {
                        new == with_top(old, next_task(f)) && act is Continue
                    } else {
                        match cmds[idx as int] {
                            CmdView::Shell(line) => match ev {
                                Event::Exited { success, code } => if success || ignores_errors(t) {
                                    new == with_top(old, with_phase(f, PhaseView::Cmds { idx: idx + 1, scope })) && act is Continue
                                } else {
                                    new == cleared(old) && act == Action::Finished(Err(RunError::CommandFailed(
                                        match code { Some(c) => c, None => 1 })))
                                },
                                Event::SpawnFailed(m) => new == cleared(old) && (act matches Action::Finished(Err(e)) && is_io_error(e, m@)),
                                Event::PythonExited(code) => if code == 0 || ignores_errors(t) {
                                    new == with_top(old, with_phase(f, PhaseView::Cmds { idx: idx + 1, scope })) && act is Continue
                                } else {
                                    new == cleared(old) && act == Action::Finished(Err(RunError::CommandFailed(code)))
                                },
                                Event::PythonFailed(e) => new == cleared(old) && act == Action::Finished(Err(e)),
                                _ => new == old && is_line_action(tf, t, line, scope, old.env, old.has_python, act),
                            },
                            CmdView::TaskCall { .. } => {
                                &&& new == with_top(old, with_phase(f, PhaseView::Call { cmd: idx, idx: 0, scope, sub: f.extra }))
                                &&& act is Continue
                            },
                        }
                    }
                },
                PhaseView::Call { cmd, idx, scope, sub } => {
                    let c = cmds_of(t)[cmd as int];
                    let cv = call_vars(c);
                    if idx < cv.len() {
                        def_step(old, f, cv[idx as int].0, cv[idx as int].1, sub,
                            |s: Seq<(Seq<char>, Seq<char>)>| PhaseView::Call { cmd, idx: idx + 1, scope, sub: s }, ev, new, act)
                    } else {
                        let name = call_name(c);
                        match topo_outcome(tf, name) {
                            Ok(order) => {
                                &&& act is Continue
                                &&& is_run_order(tf, name, order)
                                &&& all_needed_defined(tf, name)
                                &&& new == RunnerView {
                                    frames: rest.push(with_phase(f, PhaseView::Cmds { idx: cmd + 1, scope })).push(
                                        FrameView { order, extra: sub, pos: 0, phase: PhaseView::Start }),
                                    ..old
                                }
                            },
                            Err(fl) => {
                                &&& new == cleared(old)
                                &&& act matches Action::Finished(Err(e))
                                &&& is_failure(e, fl)
                                &&& is_order_error(tf, name, e)
                            },
                        }
                    }
                },
            }
        }
    }
}

impl Runner {
    fn push_frame(&mut self, f: Frame)
        ensures
            final(self)@ == (RunnerView { frames: old(self)@.frames.push(frame_view(f)), ..old(self)@ }),
    {
        self.frames.push(f);
        assert(self@.frames =~= old(self)@.frames.push(frame_view(f)));
    }

    fn pop_frame(&mut self) -> (f: Frame)
        requires
            old(self)@.frames.len() > 0,
        ensures
            final(self)@ == (RunnerView { frames: old(self)@.frames.drop_last(), ..old(self)@ }),
            frame_view(f) == old(self)@.frames.last(),
    {
        let f = self.frames.pop().unwrap();
        assert(self@.frames =~= old(self)@.frames.drop_last());
        f
    }

    fn clear_frames(&mut self)
        ensures
            final(self)@ == cleared(old(self)@),
    {
        self.frames.clear();
        assert(self@.frames =~= Seq::<FrameView>::empty());
    }

    /// One step of the run on the report `ev`: the state moves on as far as
    /// it can without outside work, and the action says what to do next.
    pub fn step(&mut self, tf: &Taskfile, ev: Event) -> (act: Action)
        requires
            runner_wf(tf@, old(self)@),
        ensures
            runner_wf(tf@, final(self)@),
            step_spec(tf@, old(self)@, ev, final(self)@, act),
    {
        if self.frames.len() == 0 {
            return Action::Finished(Ok(()));
        }
        let ghost old_v = self@;
        let f = self.pop_frame();
        let ghost fv = frame_view(f);
        proof {
            assert(old_v.frames[old_v.frames.len() - 1] == fv);
            assert(frame_wf(tf@, fv));
            assert forall|i: int| 0 <= i < self@.frames.len() implies frame_wf(tf@, #[trigger] self@.frames[i]) by {
                assert(self@.frames[i] == old_v.frames[i]);
            }
        }
        let Frame { order, extra, pos, phase } = f;
        if pos >= order.len() {
            if self.frames.len() == 0 {
                return Action::Finished(Ok(()));
            } else {
                return Action::Continue;
            }
        }
        assert(fv.order[pos as int] == order@[pos as int]@);
        let task = get_task(tf, order[pos].as_str()).unwrap();
        assert(task@ == frame_task(tf@, fv));
        let ghost t = task@;
        match phase {
            Phase::Start => {
                let scope = start_scope(order[pos].as_str(), &self.cwd);
                let nf = Frame { order, extra, pos, phase: Phase::Defs { own: false, idx: 0, scope } };
                self.push_frame(nf);
                proof { self.lemma_push_wf(tf@, old_v); }
                Action::Continue
            },
            Phase::Defs { own, idx, mut scope } => {
                let m = if own { &task.vars } else { &tf.vars };
                assert(opt_entries(crate::schema::opt_var_map_view(*m)) == defs_part(tf@, t, own));
                let len = var_defs_len(m);
                if idx < len {
                    let (k, v) = var_def_at(m, idx);
                    match v {
                        VarValue::Scalar(x) => {
                            scope.insert(k.clone(), x.clone());
                            let nf = Frame { order, extra, pos, phase: Phase::Defs { own, idx: idx + 1, scope } };
                            self.push_frame(nf);
                            proof { self.lemma_push_wf(tf@, old_v); }
                            Action::Continue
                        },
                        VarValue::Shell { sh } => {
                            match ev {
                                Event::Expanded(out) => {
                                    let val = shell_output(out.as_slice());
                                    scope.insert(k.clone(), val);
                                    let nf = Frame { order, extra, pos, phase: Phase::Defs { own, idx: idx + 1, scope } };
                                    self.push_frame(nf);
                                    proof { self.lemma_push_wf(tf@, old_v); }
                                    Action::Continue
                                },
                                Event::ExpandFailed(msg) => {
                                    self.clear_frames();
                                    Action::Finished(Err(RunError::Io(msg)))
                                },
                                _ => {
                                    let a = Action::ExpandShell { sh: sh.clone() };
                                    let nf = Frame { order, extra, pos, phase: Phase::Defs { own, idx, scope } };
                                    self.push_frame(nf);
                                    assert(self@.frames =~= old_v.frames);
                                    a
                                },
                            }
                        },
                    }
                } else if !own {
                    let nf = Frame { order, extra, pos, phase: Phase::Defs { own: true, idx: 0, scope } };
                    self.push_frame(nf);
                    proof { self.lemma_push_wf(tf@, old_v); }
                    Action::Continue
                } else {
                    bind_all(&mut scope, &extra);
                    let nf = if task.cmds.is_some() {
                        Frame { order, extra, pos, phase: Phase::Cmds { idx: 0, scope } }
                    } else {
                        Frame { order, extra, pos: pos + 1, phase: Phase::Start }
                    };
                    self.push_frame(nf);
                    proof { self.lemma_push_wf(tf@, old_v); }
                    Action::Continue
                }
            },
            Phase::Cmds { idx, scope } => {
                let n = match &task.cmds {
                    Some(c) => c.len(),
                    None => 0,
                };
                assert(n == cmds_of(t).len());
                if idx >= n {
                    let nf = Frame { order, extra, pos: pos + 1, phase: Phase::Start };
                    self.push_frame(nf);
                    proof { self.lemma_push_wf(tf@, old_v); }
                    return Action::Continue;
                }
                let cmds = task.cmds.as_ref().unwrap();
                assert(cmds_of(t)[idx as int] == cmds@[idx as int]@);
                match &cmds[idx] {
                    Cmd::Shell(line) => {
                        let ignore = match task.ignore_error {
                            Some(b) => b,
                            None => false,
                        };
                        match ev {
                            Event::Exited { success, code } => {
                                if success || ignore {
                                    let nf = Frame { order, extra, pos, phase: Phase::Cmds { idx: idx + 1, scope } };
                                    self.push_frame(nf);
                                    proof { self.lemma_push_wf(tf@, old_v); }
                                    Action::Continue
                                } else {
                                    self.clear_frames();
                                    let c = match code {
                                        Some(c) => c,
                                        None => 1,
                                    };
                                    Action::Finished(Err(RunError::CommandFailed(c)))
                                }
                            },
                            Event::SpawnFailed(msg) => {
                                self.clear_frames();
                                Action::Finished(Err(RunError::Io(msg)))
                            },
                            Event::PythonExited(code) => {
                                if code == 0 || ignore {
                                    let nf = Frame { order, extra, pos, phase: Phase::Cmds { idx: idx + 1, scope } };
                                    self.push_frame(nf);
                                    proof { self.lemma_push_wf(tf@, old_v); }
                                    Action::Continue
                                } else {
                                    self.clear_frames();
                                    Action::Finished(Err(RunError::CommandFailed(code)))
                                }
                            },
                            Event::PythonFailed(e) => {
                                self.clear_frames();
                                Action::Finished(Err(e))
                            },
                            _ => {
                                let a = line_action(tf, task, line.as_str(), &scope, &self.env, self.has_python);
                                let nf = Frame { order, extra, pos, phase: Phase::Cmds { idx, scope } };
                                self.push_frame(nf);
                                assert(self@.frames =~= old_v.frames);
                                a
                            },
                        }
                    },
                    Cmd::TaskCall { .. } => {
                        let sub = extra.duplicate();
                        let nf = Frame { order, extra, pos, phase: Phase::Call { cmd: idx, idx: 0, scope, sub } };
                        self.push_frame(nf);
                        proof { self.lemma_push_wf(tf@, old_v); }
                        Action::Continue
                    },
                }
            },
            Phase::Call { cmd, idx, scope, mut sub } => {
                let cmds = task.cmds.as_ref().unwrap();
                assert(cmds_of(t)[cmd as int] == cmds@[cmd as int]@);
                match &cmds[cmd] {
                    Cmd::Shell(_) => {
                        assert(false);
                        Action::Continue
                    },
                    Cmd::TaskCall { task: name, vars } => {
                        assert(opt_entries(crate::schema::opt_var_map_view(*vars)) == call_vars(cmds_of(t)[cmd as int]));
                        let len = var_defs_len(vars);
                        if idx < len {
                            let (k, v) = var_def_at(vars, idx);
                            match v {
                                VarValue::Scalar(x) => {
                                    sub.insert(k.clone(), x.clone());
                                    let nf = Frame { order, extra, pos, phase: Phase::Call { cmd, idx: idx + 1, scope, sub } };
                                    self.push_frame(nf);
                                    proof { self.lemma_push_wf(tf@, old_v); }
                                    Action::Continue
                                },
                                VarValue::Shell { sh } => {
                                    match ev {
                                        Event::Expanded(out) => {
                                            let val = shell_output(out.as_slice());
                                            sub.insert(k.clone(), val);
                                            let nf = Frame { order, extra, pos, phase: Phase::Call { cmd, idx: idx + 1, scope, sub } };
                                            self.push_frame(nf);
                                            proof { self.lemma_push_wf(tf@, old_v); }
                                            Action::Continue
                                        },
                                        Event::ExpandFailed(msg) => {
                                            self.clear_frames();
                                            Action::Finished(Err(RunError::Io(msg)))
                                        },
                                        _ => {
                                            let a = Action::ExpandShell { sh: sh.clone() };
                                            let nf = Frame { order, extra, pos, phase: Phase::Call { cmd, idx, scope, sub } };
                                            self.push_frame(nf);
                                            assert(self@.frames =~= old_v.frames);
                                            a
                                        },
                                    }
                                },
                            }
                        } else {
                            let ncmds = cmds.len();
                            assert(cmd < ncmds);
                            match topo_order(tf, name.as_str()) {
                                Err(e) => {
                                    self.clear_frames();
                                    Action::Finished(Err(e))
                                },
                                Ok(o) => {
                                    let ghost ord = names_view(o@);
                                    let ghost subv = sub@;
                                    let ghost scv = scope@;
                                    let nf = Frame { order, extra, pos, phase: Phase::Cmds { idx: cmd + 1, scope } };
                                    self.push_frame(nf);
                                    proof { self.lemma_push_wf(tf@, old_v); }
                                    let ghost mid = self@;
                                    let child = Frame { order: o, extra: sub, pos: 0, phase: Phase::Start };
                                    self.push_frame(child);
                                    proof {
                                        let cv = frame_view(child);
                                        assert forall|j: int| 0 <= j < cv.order.len() implies has_task(tf@, #[trigger] cv.order[j]) by {
                                            assert(cv.order.contains(cv.order[j]));
                                        }
                                        assert(frame_wf(tf@, cv));
                                        assert forall|i: int| 0 <= i < self@.frames.len() implies frame_wf(tf@, #[trigger] self@.frames[i]) by {
                                            if i < mid.frames.len() {
                                                assert(self@.frames[i] == mid.frames[i]);
                                            }
                                        }
                                        let f0 = old_v.frames.last();
                                        assert(self@ == RunnerView {
                                            frames: old_v.frames.drop_last().push(with_phase(f0, PhaseView::Cmds { idx: (cmd + 1) as nat, scope: scv })).push(
                                                FrameView { order: ord, extra: subv, pos: 0, phase: PhaseView::Start }),
                                            ..old_v
                                        });
                                        assert(call_name(cmds_of(frame_task(tf@, f0))[cmd as int]) == name@);
                                    }
                                    Action::Continue
                                },
                            }
                        }
                    },
                }
            },
        }
    }

    /// The frames below the top one keep their well-formedness, and the new
    /// top frame is well-formed.
    proof fn lemma_push_wf(&self, tf: TaskfileView, old_v: RunnerView)
        requires
            self@.frames.len() == old_v.frames.len(),
            forall|i: int| 0 <= i < self@.frames.len() - 1 ==> self@.frames[i] == old_v.frames[i],
            runner_wf(tf, old_v),
            frame_wf(tf, self@.frames.last()),
        ensures
            runner_wf(tf, self@),
    {
        assert forall|i: int| 0 <= i < self@.frames.len() implies frame_wf(tf, #[trigger] self@.frames[i]) by {
            if i < self@.frames.len() - 1 {
                assert(self@.frames[i] == old_v.frames[i]);
            }
        }
    }
}

/// Starts a run of the task `task_name` and of everything it needs, with the
/// variables `extra_vars` bound over the tasks' own ones.  `env` is the
/// process environment (the last resort when a reference names no variable),
/// `cwd` the working directory, `has_python` whether an embedded interpreter
/// takes Python lines.  The action is `Continue` when the run can start, and
/// `Finished` with the error when the task or one it needs is not defined or
/// when their dependencies form a cycle.
pub fn run_task(
    taskfile: &Taskfile,
    task_name: &str,
    extra_vars: &Vars,
    env: Vars,
    cwd: Option<String>,
    has_python: bool,
) -> (r: (Runner, Action))
    ensures
        runner_wf(taskfile@, r.0@),
        r.0@.has_python == has_python,
        r.0@.cwd == crate::schema::opt_str_view(cwd),
        r.0@.env == env@,
        r.1 is Continue <==> all_needed_defined(taskfile@, task_name@) && crate::deps::no_needed_cycle(taskfile@, task_name@),
        match topo_outcome(taskfile@, task_name@) {
            Ok(order) => {
                &&& r.1 is Continue
                &&& is_run_order(taskfile@, task_name@, order)
                &&& r.0@.frames == seq![FrameView { order, extra: extra_vars@, pos: 0, phase: PhaseView::Start }]
            },
            Err(fl) => {
                &&& r.0@.frames.len() == 0
                &&& r.1 matches Action::Finished(Err(e))
                &&& is_failure(e, fl)
                &&& is_order_error(taskfile@, task_name@, e)
            },
        },
{
    let mut runner = Runner { has_python, cwd, env, frames: Vec::new() };
    match topo_order(taskfile, task_name) {
        Err(e) => {
            assert(runner@.frames =~= Seq::<FrameView>::empty());
            (runner, Action::Finished(Err(e)))
        },
        Ok(order) => {
            let ghost ord = names_view(order@);
            let f = Frame { order, extra: extra_vars.duplicate(), pos: 0, phase: Phase::Start };
            runner.frames.push(f);
            proof {
                let fv = frame_view(f);
                assert(runner@.frames =~= seq![fv]);
                assert forall|j: int| 0 <= j < fv.order.len() implies has_task(taskfile@, #[trigger] fv.order[j]) by {
                    assert(fv.order.contains(fv.order[j]));
                }
                assert(runner_wf(taskfile@, runner@));
                assert(is_run_order(taskfile@, task_name@, ord));
            }
            (runner, Action::Continue)
        },
    }
}

/// Later bindings win: looking a name up after binding `pairs` in order finds
/// the last pair with that name, or else what `scope` held.
pub open spec fn last_binding(pairs: Seq<(Seq<char>, Seq<char>)>, k: Seq<char>) -> Option<Seq<char>>
    decreases pairs.len(),
{
    if pairs.len() == 0 {
        None
    } else if pairs.last().0 == k {
        Some(pairs.last().1)
    } else {
        last_binding(pairs.drop_last(), k)
    }
}

/// Binding variables one after the other: a name takes the value of its last
/// binding, and names that are not bound again keep their value.  This is
/// what gives the variables of the caller precedence over those of the task,
/// those of the task over those of the taskfile, and those of the taskfile
/// over the built-in ones.
pub proof fn lemma_later_bindings_win(scope: Seq<(Seq<char>, Seq<char>)>, pairs: Seq<(Seq<char>, Seq<char>)>, k: Seq<char>)
    ensures
        entry_lookup(insert_all(scope, pairs), k) == (match last_binding(pairs, k) {
            Some(v) => Some(v),
            None => entry_lookup(scope, k),
        }),
    decreases pairs.len(),
{
    if pairs.len() > 0 {
        lemma_later_bindings_win(scope, pairs.drop_last(), k);
        let s0 = insert_all(scope, pairs.drop_last());
        crate::ordered_map::lemma_insert_keys(s0, pairs.last().0, pairs.last().1);
        if pairs.last().0 != k {
            crate::ordered_map::lemma_lookup_insert_other(s0, pairs.last().0, pairs.last().1, k);
        }
    }
}

/// A shell command that exits unsuccessfully ends the run with its exit code
/// (1 when a signal ended it) and leaves nothing to run, unless the task sets
/// `ignore_error: true`; only then does the run go on with the next command.
/// An `ignore_error` that is absent or `false` does not ignore failures.
pub proof fn lemma_failing_command_stops_the_run(
    tf: TaskfileView,
    old: RunnerView,
    ev: Event,
    new: RunnerView,
    act: Action,
    code: Option<i32>,
)
    requires
        step_spec(tf, old, ev, new, act),
        old.frames.len() > 0,
        old.frames.last().pos < old.frames.last().order.len(),
        old.frames.last().phase matches PhaseView::Cmds { idx, .. } && (frame_task(tf, old.frames.last()).cmds matches Some(cs)
            && idx < cs.len() && cs[idx as int] is Shell),
        ev == (Event::Exited { success: false, code }),
    ensures
        frame_task(tf, old.frames.last()).ignore_error != Some(true) ==> {
            &&& new.frames.len() == 0
            &&& act == Action::Finished(Err::<(), RunError>(RunError::CommandFailed(match code {
                Some(c) => c,
                None => 1,
            })))
        },
        frame_task(tf, old.frames.last()).ignore_error == Some(true) ==> {
            &&& act is Continue
            &&& new.frames.len() == old.frames.len()
            &&& (old.frames.last().phase matches PhaseView::Cmds { idx, scope } ==>
                new.frames.last() == (FrameView { phase: PhaseView::Cmds { idx: idx + 1, scope }, ..old.frames.last() }))
        },
{
}

/// Every task of a run order runs its commands with the caller's variables
/// bound over its own: when the commands of the task at any position of the
/// order begin, a name bound by the caller has the caller's last value for
/// it, and any other name keeps the value that the definitions gave it.
pub proof fn lemma_caller_vars_bound_for_every_task(
    tf: TaskfileView,
    old: RunnerView,
    ev: Event,
    new: RunnerView,
    act: Action,
)
    requires
        step_spec(tf, old, ev, new, act),
        old.frames.len() > 0,
        old.frames.last().pos < old.frames.last().order.len(),
        old.frames.last().phase matches PhaseView::Defs { own, idx, .. } && own && idx >= (match frame_task(tf, old.frames.last()).vars {
            Some(v) => v.len(),
            None => 0,
        }),
        frame_task(tf, old.frames.last()).cmds is Some,
    ensures
        act is Continue,
        new.frames.len() == old.frames.len(),
        old.frames.last().phase matches PhaseView::Defs { scope, .. } ==> (new.frames.last().phase matches PhaseView::Cmds { idx: j, scope: s2 } && {
            &&& j == 0
            &&& forall|k: Seq<char>| #[trigger] entry_lookup(s2, k) == (match last_binding(old.frames.last().extra, k) {
                Some(v) => Some(v),
                None => entry_lookup(scope, k),
            })
        }),
{
    let f = old.frames.last();
    match f.phase {
        PhaseView::Defs { own, idx, scope } => {
            assert forall|k: Seq<char>| #[trigger] entry_lookup(insert_all(scope, f.extra), k) == (match last_binding(f.extra, k) {
                Some(v) => Some(v),
                None => entry_lookup(scope, k),
            }) by {
                lemma_later_bindings_win(scope, f.extra, k);
            }
        },
        _ => {},
    }
}

} // verus!
