//! What the command line asks for, and the listing and summary of tasks.
use vstd::prelude::*;

use crate::deps::{get_task, has_task, names_view};
use crate::ordered_map::{entry_lookup, task_map_get_index, task_map_len};
use crate::schema::{Cmd, CmdView, TaskView, Taskfile, TaskfileView};
use crate::text::str_eq;
use crate::vars::{parse_vars, spec_parse_vars, Vars};

verus! {

// ---------------------------------------------------------------------------
// The command
// ---------------------------------------------------------------------------

/// What a command line asks for.
pub enum CliCommand {
    /// List the tasks.
    List,
    /// Run a task with these variables.
    Run { task: String, vars: Vars },
}

/// The positional arguments: none runs `default` when there is such a task
/// and lists the tasks otherwise; `list` lists them; anything else is a task
/// name followed by `KEY=VALUE` variables.
pub fn choose_command(tf: &Taskfile, args: &Vec<String>) -> (r: CliCommand)
    ensures
        args@.len() == 0 && has_task(tf@, "default"@) ==> (r matches CliCommand::Run { task, vars }
            && task@ == "default"@ && vars@ == Seq::<(Seq<char>, Seq<char>)>::empty()),
        args@.len() == 0 && !has_task(tf@, "default"@) ==> r is List,
        args@.len() > 0 && args@[0]@ == "list"@ ==> r is List,
        args@.len() > 0 && args@[0]@ != "list"@ ==> (r matches CliCommand::Run { task, vars }
            && task@ == args@[0]@ && vars@ == spec_parse_vars(args@.skip(1).map_values(|a: String| a@))),
{
    if args.len() == 0 {
        if get_task(tf, "default").is_some() {
            return CliCommand::Run { task: String::from_str("default"), vars: Vars::new() };
        }
        return CliCommand::List;
    }
    if str_eq(args[0].as_str(), "list") {
        return CliCommand::List;
    }
    let mut rest: Vec<String> = Vec::new();
    let mut i: usize = 1;
    while i < args.len()
        invariant
            1 <= i <= args.len(),
            rest@.len() == i - 1,
            forall|j: int| 0 <= j < i - 1 ==> #[trigger] rest@[j]@ == args@[j + 1]@,
        decreases args.len() - i,
    {
        rest.push(args[i].clone());
        i = i + 1;
    }
    assert(rest@.map_values(|a: String| a@) =~= args@.skip(1).map_values(|a: String| a@));
    let vars = parse_vars(&rest);
    CliCommand::Run { task: args[0].clone(), vars }
}

// ---------------------------------------------------------------------------
// Listing
// ---------------------------------------------------------------------------

/// Lexicographic order of strings by their characters (the order of `str`).
pub open spec fn lex_le(a: Seq<char>, b: Seq<char>) -> bool
    decreases a.len(),
{
    if a.len() == 0 {
        true
    } else if b.len() == 0 {
        false
    } else if a[0] != b[0] {
        a[0] < b[0]
    } else {
        lex_le(a.drop_first(), b.drop_first())
    }
}

pub open spec fn is_lex_sorted(s: Seq<Seq<char>>) -> bool {
    forall|i: int, j: int| 0 <= i < j < s.len() ==> lex_le(#[trigger] s[i], #[trigger] s[j])
}

/// `slice::sort_unstable` on strings, whose order is lexicographic by bytes,
/// which is the order of their characters' code points.
#[verifier::external_body]
fn sort_names(v: &mut Vec<String>)
    ensures
        names_view(final(v)@).to_multiset() == names_view(old(v)@).to_multiset(),
        is_lex_sorted(names_view(final(v)@)),
{
    v.sort_unstable();
}

/// The names of the tasks, in order.
pub open spec fn task_names(tf: TaskfileView) -> Seq<Seq<char>> {
    tf.tasks.map_values(|e: (Seq<char>, TaskView)| e.0)
}

/// The description of a task as listed: its `desc`, or nothing.
pub open spec fn listed_desc(tf: TaskfileView, name: Seq<char>) -> Seq<char> {
    match entry_lookup(tf.tasks, name) {
        Some(t) => match t.desc {
            Some(d) => d,
            None => Seq::empty(),
        },
        None => Seq::empty(),
    }
}

/// The length of a string in bytes (UTF-8).
pub open spec fn byte_len(s: Seq<char>) -> usize {
    vstd::utf8::encode_utf8(s).len() as usize
}

/// The widest of the names, in bytes.
pub open spec fn max_width(names: Seq<Seq<char>>) -> usize
    decreases names.len(),
{
    if names.len() == 0 {
        0
    } else {
        let w = max_width(names.drop_last());
        let l = byte_len(names.last());
        if l > w { l } else { w }
    }
}

/// The listing of the tasks: every task name, sorted, with its description,
/// and the width of the widest name in bytes (for alignment).
pub struct TaskListing {
    pub entries: Vec<(String, String)>,
    pub width: usize,
}

pub fn task_list(tf: &Taskfile) -> (r: TaskListing)
    ensures
        names_view(r.entries@.map_values(|e: (String, String)| e.0)).to_multiset() == task_names(tf@).to_multiset(),
        is_lex_sorted(names_view(r.entries@.map_values(|e: (String, String)| e.0))),
        forall|i: int| 0 <= i < r.entries@.len() ==> (#[trigger] r.entries@[i]).1@ == listed_desc(tf@, r.entries@[i].0@),
        r.width == max_width(names_view(r.entries@.map_values(|e: (String, String)| e.0))),
{
    let n = task_map_len(&tf.tasks);
    let mut names: Vec<String> = Vec::new();
    let mut i: usize = 0;
    while i < n
        invariant
            i <= n,
            n == crate::ordered_map::task_entries(tf.tasks).len(),
            names@.len() == i,
            forall|j: int| 0 <= j < i ==> #[trigger] names@[j]@ == task_names(tf@)[j],
        decreases n - i,
    {
        let (k, _) = task_map_get_index(&tf.tasks, i).unwrap();
        names.push(k.clone());
        i = i + 1;
    }
    assert(names_view(names@) =~= task_names(tf@));
    sort_names(&mut names);
    let ghost sorted = names_view(names@);
    let mut entries: Vec<(String, String)> = Vec::new();
    let mut width: usize = 0;
    let mut i: usize = 0;
    while i < names.len()
        invariant
            i <= names@.len(),
            sorted == names_view(names@),
            entries@.len() == i,
            forall|j: int| 0 <= j < i ==> (#[trigger] entries@[j]).0@ == names@[j]@,
            forall|j: int| 0 <= j < i ==> (#[trigger] entries@[j]).1@ == listed_desc(tf@, entries@[j].0@),
            width == max_width(names_view(names@).take(i as int)),
        decreases names@.len() - i,
    {
        let name = &names[i];
        let desc = match get_task(tf, name.as_str()) {
            Some(t) => match &t.desc {
                Some(d) => d.clone(),
                None => String::new(),
            },
            None => String::new(),
        };
        let l = name.as_str().len();
        assert(names_view(names@).take(i + 1).drop_last() =~= names_view(names@).take(i as int));
        if l > width {
            width = l;
        }
        entries.push((name.clone(), desc));
        i = i + 1;
    }
    assert(names_view(names@).take(names@.len() as int) =~= names_view(names@));
    assert(names_view(entries@.map_values(|e: (String, String)| e.0)) =~= names_view(names@));
    TaskListing { entries, width }
}

// ---------------------------------------------------------------------------
// Summary
// ---------------------------------------------------------------------------

/// A command as the summary shows it.
pub enum SummaryLine {
    Shell(String),
    Call(String),
}

/// A task's name, description and commands, for `--summary`.
pub struct TaskSummary {
    pub name: String,
    pub desc: Option<String>,
    pub cmds: Option<Vec<SummaryLine>>,
}

pub open spec fn summary_line_view(l: SummaryLine) -> CmdView {
    match l {
        SummaryLine::Shell(s) => CmdView::Shell(s@),
        SummaryLine::Call(t) => CmdView::TaskCall { task: t@, vars: None },
    }
}

/// A command with the variables of a task call left out.
pub open spec fn summarized(c: CmdView) -> CmdView {
    match c {
        CmdView::Shell(s) => CmdView::Shell(s),
        CmdView::TaskCall { task, .. } => CmdView::TaskCall { task, vars: None },
    }
}

/// The summary of the task `name`, if the taskfile defines it.
pub fn task_summary(tf: &Taskfile, name: &str) -> (r: Option<TaskSummary>)
    ensures
        r is Some <==> has_task(tf@, name@),
        r matches Some(s) ==> {
            let t = entry_lookup(tf@.tasks, name@)->0;
            &&& s.name@ == name@
            &&& crate::schema::opt_str_view(s.desc) == t.desc
            &&& match (s.cmds, t.cmds) {
                (Some(ls), Some(cs)) => ls@.map_values(|l: SummaryLine| summary_line_view(l))
                    == cs.map_values(|c: CmdView| summarized(c)),
                (None, None) => true,
                _ => false,
            }
        },
{
    let task = match get_task(tf, name) {
        Some(t) => t,
        None => return None,
    };
    let desc = match &task.desc {
        Some(d) => Some(d.clone()),
        None => None,
    };
    let cmds = match &task.cmds {
        None => None,
        Some(cs) => {
            let mut out: Vec<SummaryLine> = Vec::new();
            let mut i: usize = 0;
            while i < cs.len()
                invariant
                    i <= cs@.len(),
                    out@.len() == i,
                    forall|j: int| 0 <= j < i ==> summary_line_view(#[trigger] out@[j]) == summarized(cs@[j]@),
                decreases cs@.len() - i,
            {
                let line = match &cs[i] {
                    Cmd::Shell(s) => SummaryLine::Shell(s.clone()),
                    Cmd::TaskCall { task, .. } => SummaryLine::Call(task.clone()),
                };
                out.push(line);
                i = i + 1;
            }
            assert(out@.map_values(|l: SummaryLine| summary_line_view(l)) =~= cs@.map_values(|c: Cmd| c@).map_values(|c: CmdView| summarized(c)));
            Some(out)
        },
    };
    Some(TaskSummary { name: String::from_str(name), desc, cmds })
}

} // verus!
