//! Mapping of a parsed SYON document onto the taskfile schema.
//!
//! The SYON parser yields a tree of scalars, literal blocks, mappings and
//! sequences.  `SyonValue` holds that tree as plain values; the functions here
//! walk it and build a `Taskfile`, or report the first structural problem in
//! document order.  Later keys of a mapping overwrite earlier ones, keys that
//! the schema does not know are ignored.
use vstd::prelude::*;
use indexmap::IndexMap;

use crate::ordered_map::{
    entry_insert, key_index, lemma_insert_map_values, lemma_key_index, lemma_key_index_first,
    var_entries, var_map_insert, var_map_new, string_entries, string_map_insert, string_map_new,
    include_entries, include_map_insert, include_map_new, task_entries, task_map_insert,
    task_map_new,
};
use crate::schema::{
    Cmd, CmdView, Dep, DepView, Include, IncludeView, Task, TaskView, Taskfile, TaskfileView,
    VarValue, VarValueView, var_map_view, string_map_view, include_map_view, task_map_view,
    var_value_view, string_view, include_view, task_view, opt_var_map_view, cmd_view, dep_view,
};
use crate::text::{str_eq, ascii_lower, ascii_lower_eq, concat2, concat3};

verus! {

/// One `key: value` line of a SYON mapping.
pub struct MappingEntry {
    pub key: String,
    pub value: SyonValue,
}

/// One `- value` item of a SYON sequence.
pub struct SequenceItem {
    pub value: SyonValue,
}

/// A node of a parsed SYON document.
pub enum SyonValue {
    Scalar(String),
    LiteralBlock(String),
    Mapping(Vec<MappingEntry>),
    Sequence(Vec<SequenceItem>),
    /// Any other kind of node (the mapping onto the schema rejects it).
    Other,
}

/// One document of a SYON file.
pub struct SyonDocument {
    pub body: SyonValue,
}

/// A parsed SYON file.
pub struct SyonFile {
    pub documents: Vec<SyonDocument>,
}

/// Why a SYON taskfile could not be loaded.
pub enum SyonError {
    /// The file could not be read.
    Io(String),
    /// The text is not SYON.
    Parse(String),
    /// The document does not have the shape of a taskfile.
    Structure(String),
}

/// `e` is a structure error with the message `msg`.
pub open spec fn is_structure_error(e: SyonError, msg: Seq<char>) -> bool {
    e matches SyonError::Structure(m) && m@ == msg
}

/// `r` is the outcome that the spec result `s` describes, with `f` taking the
/// value of `r` to its view.
pub open spec fn outcome_is<X, V>(r: Result<X, SyonError>, s: Result<V, Seq<char>>, f: spec_fn(X) -> V) -> bool {
    match r {
        Ok(x) => s == Ok::<V, Seq<char>>(f(x)),
        Err(e) => s matches Err(msg) && is_structure_error(e, msg),
    }
}

// ---------------------------------------------------------------------------
// Scalars, mappings and booleans
// ---------------------------------------------------------------------------

pub open spec fn spec_scalar(v: SyonValue, ctx: Seq<char>) -> Result<Seq<char>, Seq<char>> {
    match v {
        SyonValue::Scalar(s) => Ok(s@),
        SyonValue::LiteralBlock(s) => Ok(s@),
        _ => Err(ctx + " must be a scalar"@),
    }
}

pub open spec fn spec_require_mapping(v: SyonValue, ctx: Seq<char>) -> Result<Seq<MappingEntry>, Seq<char>> {
    match v {
        SyonValue::Mapping(m) => Ok(m@),
        _ => Err(ctx + " must be a mapping"@),
    }
}

/// `true`, `yes` and `1` are true, `false`, `no` and `0` are false, in any
/// ASCII case.
pub open spec fn spec_parse_bool(s: Seq<char>, ctx: Seq<char>) -> Result<bool, Seq<char>> {
    let l = ascii_lower(s);
    if l == "true"@ || l == "yes"@ || l == "1"@ {
        Ok(true)
    } else if l == "false"@ || l == "no"@ || l == "0"@ {
        Ok(false)
    } else {
        Err(ctx + " must be a boolean (true/false)"@)
    }
}

pub fn scalar(value: SyonValue, ctx: &str) -> (r: Result<String, SyonError>)
    ensures
        outcome_is(r, spec_scalar(value, ctx@), |s: String| s@),
{
    match value {
        SyonValue::Scalar(s) => Ok(s),
        SyonValue::LiteralBlock(s) => Ok(s),
        _ => Err(SyonError::Structure(concat2(ctx, " must be a scalar"))),
    }
}

pub fn require_mapping(value: SyonValue, ctx: &str) -> (r: Result<Vec<MappingEntry>, SyonError>)
    ensures
        outcome_is(r, spec_require_mapping(value, ctx@), |m: Vec<MappingEntry>| m@),
{
    match value {
        SyonValue::Mapping(m) => Ok(m),
        _ => Err(SyonError::Structure(concat2(ctx, " must be a mapping"))),
    }
}

pub fn parse_bool(s: String, ctx: &str) -> (r: Result<bool, SyonError>)
    ensures
        outcome_is(r, spec_parse_bool(s@, ctx@), |b: bool| b),
{
    let t = s.as_str();
    if ascii_lower_eq(t, "true") || ascii_lower_eq(t, "yes") || ascii_lower_eq(t, "1") {
        Ok(true)
    } else if ascii_lower_eq(t, "false") || ascii_lower_eq(t, "no") || ascii_lower_eq(t, "0") {
        Ok(false)
    } else {
        Err(SyonError::Structure(concat2(ctx, " must be a boolean (true/false)")))
    }
}

// ---------------------------------------------------------------------------
// Variables and string maps
// ---------------------------------------------------------------------------

/// The entries of a mapping as `(key, value)` pairs.
pub open spec fn entry_pairs(m: Seq<MappingEntry>) -> Seq<(Seq<char>, SyonValue)> {
    m.map_values(|e: MappingEntry| (e.key@, e.value))
}

pub open spec fn var_sh_msg(key: Seq<char>) -> Seq<char> {
    "var '"@ + key + "' mapping must have a scalar 'sh' key"@
}

pub open spec fn var_kind_msg(key: Seq<char>) -> Seq<char> {
    "var '"@ + key + "' must be a scalar or {sh: ...} mapping"@
}

/// A variable definition: a scalar, or a mapping whose first `sh` entry is a
/// scalar command.
pub open spec fn spec_var_value(key: Seq<char>, v: SyonValue) -> Result<VarValueView, Seq<char>> {
    match v {
        SyonValue::Scalar(s) => Ok(VarValueView::Scalar(s@)),
        SyonValue::Mapping(m) => {
            let i = key_index(entry_pairs(m@), "sh"@);
            if i >= 0 {
                match m@[i].value {
                    SyonValue::Scalar(s) => Ok(VarValueView::Shell(s@)),
                    _ => Err(var_sh_msg(key)),
                }
            } else {
                Err(var_sh_msg(key))
            }
        },
        _ => Err(var_kind_msg(key)),
    }
}

/// Processes the entries of a mapping in order: each entry either updates the
/// accumulated value or stops the walk with an error.
pub open spec fn fold_entries<T, A>(m: Seq<T>, init: A, step: spec_fn(A, T) -> Result<A, Seq<char>>) -> Result<A, Seq<char>>
    decreases m.len(),
{
    if m.len() == 0 {
        Ok(init)
    } else {
        match fold_entries(m.drop_last(), init, step) {
            Err(e) => Err(e),
            Ok(a) => step(a, m.last()),
        }
    }
}

/// One more entry of the walk.
pub proof fn lemma_fold_step<T, A>(m: Seq<T>, init: A, step: spec_fn(A, T) -> Result<A, Seq<char>>, i: int)
    requires
        0 <= i < m.len(),
    ensures
        fold_entries(m.take(i + 1), init, step) == (match fold_entries(m.take(i), init, step) {
            Err(e) => Err(e),
            Ok(a) => step(a, m[i]),
        }),
{
    assert(m.take(i + 1).drop_last() =~= m.take(i));
}

/// The walk over no entry.
pub proof fn lemma_fold_empty<T, A>(m: Seq<T>, init: A, step: spec_fn(A, T) -> Result<A, Seq<char>>)
    ensures
        fold_entries(m.take(0), init, step) == Ok::<A, Seq<char>>(init),
{
    assert(m.take(0) =~= Seq::<T>::empty());
}

/// The walk over all entries.
pub proof fn lemma_fold_all<T, A>(m: Seq<T>, init: A, step: spec_fn(A, T) -> Result<A, Seq<char>>)
    ensures
        fold_entries(m.take(m.len() as int), init, step) == fold_entries(m, init, step),
{
    assert(m.take(m.len() as int) =~= m);
}

/// An error on a prefix of the entries is the error of the whole walk.
pub proof fn lemma_fold_prefix_err<T, A>(m: Seq<T>, init: A, step: spec_fn(A, T) -> Result<A, Seq<char>>, n: int)
    requires
        0 <= n <= m.len(),
        fold_entries(m.take(n), init, step) is Err,
    ensures
        fold_entries(m, init, step) == fold_entries(m.take(n), init, step),
    decreases m.len() - n,
{
    if n < m.len() {
        lemma_fold_step(m, init, step, n);
        lemma_fold_prefix_err(m, init, step, n + 1);
    } else {
        lemma_fold_all(m, init, step);
    }
}

pub open spec fn var_map_step() -> spec_fn(Seq<(Seq<char>, VarValueView)>, MappingEntry) -> Result<Seq<(Seq<char>, VarValueView)>, Seq<char>> {
    |acc: Seq<(Seq<char>, VarValueView)>, e: MappingEntry| match spec_var_value(e.key@, e.value) {
        Err(x) => Err(x),
        Ok(v) => Ok(entry_insert(acc, e.key@, v)),
    }
}

/// A mapping of variable definitions, in document order.
pub open spec fn spec_var_map(m: Seq<MappingEntry>) -> Result<Seq<(Seq<char>, VarValueView)>, Seq<char>> {
    fold_entries(m, Seq::empty(), var_map_step())
}

pub open spec fn string_map_step() -> spec_fn(Seq<(Seq<char>, Seq<char>)>, MappingEntry) -> Result<Seq<(Seq<char>, Seq<char>)>, Seq<char>> {
    |acc: Seq<(Seq<char>, Seq<char>)>, e: MappingEntry| match spec_scalar(e.value, e.key@) {
        Err(x) => Err(x),
        Ok(v) => Ok(entry_insert(acc, e.key@, v)),
    }
}

/// A mapping of plain strings; a value that is not a scalar is reported
/// under its key.
pub open spec fn spec_string_map(m: Seq<MappingEntry>) -> Result<Seq<(Seq<char>, Seq<char>)>, Seq<char>> {
    fold_entries(m, Seq::empty(), string_map_step())
}

/// The value of the first `sh` entry of a mapping, when it is a scalar.
fn first_sh_scalar(entries: Vec<MappingEntry>) -> (r: Option<String>)
    ensures
        ({
            let i = key_index(entry_pairs(entries@), "sh"@);
            match r {
                Some(s) => i >= 0 && (entries@[i].value matches SyonValue::Scalar(t) && t@ == s@),
                None => !(i >= 0 && entries@[i].value is Scalar),
            }
        }),
{
    let ghost pairs = entry_pairs(entries@);
    let ghost orig = entries@;
    let mut m = entries;
    let mut j: usize = 0;
    while j < m.len()
        invariant
            j <= m.len(),
            orig == m@,
            orig == entries@,
            pairs == entry_pairs(orig),
            pairs.len() == orig.len(),
            forall|k: int| 0 <= k < j ==> pairs[k].0 != "sh"@,
        decreases m.len() - j,
    {
        if str_eq(m[j].key.as_str(), "sh") {
            assert(pairs[j as int].0 == orig[j as int].key@);
            proof {
                lemma_key_index_first(pairs, "sh"@, j as int);
            }
            let e = m.remove(j);
            assert(e == orig[j as int]);
            let r = match e.value {
                SyonValue::Scalar(s) => Some(s),
                _ => None,
            };
            return r;
        }
        assert(pairs[j as int].0 == orig[j as int].key@);
        j = j + 1;
    }
    proof {
        lemma_key_index(pairs, "sh"@);
    }
    None
}

pub fn mapping_to_var_value(key: &String, value: SyonValue) -> (r: Result<VarValue, SyonError>)
    ensures
        outcome_is(r, spec_var_value(key@, value), |v: VarValue| v@),
{
    match value {
        SyonValue::Scalar(s) => Ok(VarValue::Scalar(s)),
        SyonValue::Mapping(m) => {
            match first_sh_scalar(m) {
                Some(sh) => Ok(VarValue::Shell { sh }),
                None => Err(SyonError::Structure(
                    concat3("var '", key.as_str(), "' mapping must have a scalar 'sh' key"),
                )),
            }
        },
        _ => Err(SyonError::Structure(
            concat3("var '", key.as_str(), "' must be a scalar or {sh: ...} mapping"),
        )),
    }
}

pub fn mapping_to_var_map(entries: Vec<MappingEntry>) -> (r: Result<IndexMap<String, VarValue>, SyonError>)
    ensures
        outcome_is(r, spec_var_map(entries@), |m: IndexMap<String, VarValue>| var_map_view(m)),
{
    let ghost es = entries@;
    let mut map = var_map_new();
    proof {
        lemma_fold_empty(es, Seq::empty(), var_map_step());
    }
    assert(var_map_view(map) =~= Seq::<(Seq<char>, VarValueView)>::empty());
    for entry in it: entries
        invariant
            it.seq() == es,
            fold_entries(es.take(it.index() as int), Seq::empty(), var_map_step())
                == Ok::<Seq<(Seq<char>, VarValueView)>, Seq<char>>(var_map_view(map)),
    {
        let ghost i = it.index();
        proof {
            lemma_fold_step(es, Seq::empty(), var_map_step(), i);
        }
        let MappingEntry { key, value } = entry;
        match mapping_to_var_value(&key, value) {
            Ok(v) => {
                proof {
                    lemma_insert_map_values(var_entries(map), |x: VarValue| var_value_view(x), key@, v);
                }
                var_map_insert(&mut map, key, v);
            },
            Err(e) => {
                proof {
                    lemma_fold_prefix_err(es, Seq::empty(), var_map_step(), i + 1);
                }
                return Err(e);
            },
        }
    }
    proof {
        lemma_fold_all(es, Seq::empty(), var_map_step());
    }
    Ok(map)
}

pub fn mapping_to_string_map(entries: Vec<MappingEntry>) -> (r: Result<IndexMap<String, String>, SyonError>)
    ensures
        outcome_is(r, spec_string_map(entries@), |m: IndexMap<String, String>| string_map_view(m)),
{
    let ghost es = entries@;
    let mut map = string_map_new();
    proof {
        lemma_fold_empty(es, Seq::empty(), string_map_step());
    }
    assert(string_map_view(map) =~= Seq::<(Seq<char>, Seq<char>)>::empty());
    for entry in it: entries
        invariant
            it.seq() == es,
            fold_entries(es.take(it.index() as int), Seq::empty(), string_map_step())
                == Ok::<Seq<(Seq<char>, Seq<char>)>, Seq<char>>(string_map_view(map)),
    {
        let ghost i = it.index();
        proof {
            lemma_fold_step(es, Seq::empty(), string_map_step(), i);
        }
        let MappingEntry { key, value } = entry;
        match scalar(value, key.as_str()) {
            Ok(v) => {
                proof {
                    lemma_insert_map_values(string_entries(map), |x: String| string_view(x), key@, v);
                }
                string_map_insert(&mut map, key, v);
            },
            Err(e) => {
                proof {
                    lemma_fold_prefix_err(es, Seq::empty(), string_map_step(), i + 1);
                }
                return Err(e);
            },
        }
    }
    proof {
        lemma_fold_all(es, Seq::empty(), string_map_step());
    }
    Ok(map)
}

// ---------------------------------------------------------------------------
// Includes
// ---------------------------------------------------------------------------

/// The fields of an include read so far.
pub struct IncludeDraft {
    pub taskfile: Option<Seq<char>>,
    pub dir: Option<Seq<char>>,
    pub optional: Option<bool>,
}

pub open spec fn include_step() -> spec_fn(IncludeDraft, MappingEntry) -> Result<IncludeDraft, Seq<char>> {
    |acc: IncludeDraft, e: MappingEntry|
        if e.key@ == "taskfile"@ {
            match spec_scalar(e.value, "include.taskfile"@) {
                Err(x) => Err(x),
                Ok(s) => Ok(IncludeDraft { taskfile: Some(s), dir: acc.dir, optional: acc.optional }),
            }
        } else if e.key@ == "dir"@ {
            match spec_scalar(e.value, "include.dir"@) {
                Err(x) => Err(x),
                Ok(s) => Ok(IncludeDraft { taskfile: acc.taskfile, dir: Some(s), optional: acc.optional }),
            }
        } else if e.key@ == "optional"@ {
            match spec_scalar(e.value, "include.optional"@) {
                Err(x) => Err(x),
                Ok(s) => match spec_parse_bool(s, "optional"@) {
                    Err(x) => Err(x),
                    Ok(b) => Ok(IncludeDraft { taskfile: acc.taskfile, dir: acc.dir, optional: Some(b) }),
                },
            }
        } else {
            Ok(acc)
        }
}

pub open spec fn empty_include_draft() -> IncludeDraft {
    IncludeDraft { taskfile: None, dir: None, optional: None }
}

/// An include: its keys in document order, then the `taskfile` key is required.
pub open spec fn spec_include(m: Seq<MappingEntry>) -> Result<IncludeView, Seq<char>> {
    match fold_entries(m, empty_include_draft(), include_step()) {
        Err(x) => Err(x),
        Ok(d) => match d.taskfile {
            None => Err("include missing 'taskfile' key"@),
            Some(t) => Ok(IncludeView { taskfile: t, dir: d.dir, optional: d.optional }),
        },
    }
}

pub open spec fn opt_view(o: Option<String>) -> Option<Seq<char>> {
    match o {
        Some(s) => Some(s@),
        None => None,
    }
}

pub fn mapping_to_include(entries: Vec<MappingEntry>) -> (r: Result<Include, SyonError>)
    ensures
        outcome_is(r, spec_include(entries@), |i: Include| i@),
{
    let ghost es = entries@;
    let mut taskfile: Option<String> = None;
    let mut dir: Option<String> = None;
    let mut optional: Option<bool> = None;
    proof {
        lemma_fold_empty(es, empty_include_draft(), include_step());
    }
    for entry in it: entries
        invariant
            it.seq() == es,
            fold_entries(es.take(it.index() as int), empty_include_draft(), include_step())
                == Ok::<IncludeDraft, Seq<char>>(IncludeDraft { taskfile: opt_view(taskfile), dir: opt_view(dir), optional }),
    {
        let ghost i = it.index();
        proof {
            lemma_fold_step(es, empty_include_draft(), include_step(), i);
        }
        let MappingEntry { key, value } = entry;
        if str_eq(key.as_str(), "taskfile") {
            match scalar(value, "include.taskfile") {
                Ok(s) => taskfile = Some(s),
                Err(e) => {
                    proof { lemma_fold_prefix_err(es, empty_include_draft(), include_step(), i + 1); }
                    return Err(e);
                },
            }
        } else if str_eq(key.as_str(), "dir") {
            match scalar(value, "include.dir") {
                Ok(s) => dir = Some(s),
                Err(e) => {
                    proof { lemma_fold_prefix_err(es, empty_include_draft(), include_step(), i + 1); }
                    return Err(e);
                },
            }
        } else if str_eq(key.as_str(), "optional") {
            let b = match scalar(value, "include.optional") {
                Ok(s) => parse_bool(s, "optional"),
                Err(e) => Err(e),
            };
            match b {
                Ok(b) => optional = Some(b),
                Err(e) => {
                    proof { lemma_fold_prefix_err(es, empty_include_draft(), include_step(), i + 1); }
                    return Err(e);
                },
            }
        }
    }
    proof {
        lemma_fold_all(es, empty_include_draft(), include_step());
    }
    match taskfile {
        Some(taskfile) => Ok(Include { taskfile, dir, optional }),
        None => Err(SyonError::Structure(String::from_str("include missing 'taskfile' key"))),
    }
}

// ---------------------------------------------------------------------------
// Commands and dependencies
// ---------------------------------------------------------------------------

/// The fields of a task call read so far.
pub struct CallDraft {
    pub task: Option<Seq<char>>,
    pub vars: Option<Seq<(Seq<char>, VarValueView)>>,
}

pub open spec fn empty_call_draft() -> CallDraft {
    CallDraft { task: None, vars: None }
}

/// The `task` and `vars` keys of a task call, with the contexts that its
/// errors name.
pub open spec fn call_step(task_ctx: Seq<char>, vars_ctx: Seq<char>) -> spec_fn(CallDraft, MappingEntry) -> Result<CallDraft, Seq<char>> {
    |acc: CallDraft, e: MappingEntry|
        if e.key@ == "task"@ {
            match spec_scalar(e.value, task_ctx) {
                Err(x) => Err(x),
                Ok(s) => Ok(CallDraft { task: Some(s), vars: acc.vars }),
            }
        } else if e.key@ == "vars"@ {
            match spec_require_mapping(e.value, vars_ctx) {
                Err(x) => Err(x),
                Ok(m) => match spec_var_map(m) {
                    Err(x) => Err(x),
                    Ok(v) => Ok(CallDraft { task: acc.task, vars: Some(v) }),
                },
            }
        } else {
            Ok(acc)
        }
}

pub fn mapping_to_call(entries: Vec<MappingEntry>, task_ctx: &str, vars_ctx: &str)
    -> (r: Result<(Option<String>, Option<IndexMap<String, VarValue>>), SyonError>)
    ensures
        outcome_is(
            r,
            fold_entries(entries@, empty_call_draft(), call_step(task_ctx@, vars_ctx@)),
            |p: (Option<String>, Option<IndexMap<String, VarValue>>)| CallDraft { task: opt_view(p.0), vars: opt_var_map_view(p.1) },
        ),
{
    let ghost es = entries@;
    let ghost step = call_step(task_ctx@, vars_ctx@);
    let mut task: Option<String> = None;
    let mut vars: Option<IndexMap<String, VarValue>> = None;
    proof {
        lemma_fold_empty(es, empty_call_draft(), step);
    }
    for entry in it: entries
        invariant
            it.seq() == es,
            step == call_step(task_ctx@, vars_ctx@),
            fold_entries(es.take(it.index() as int), empty_call_draft(), step)
                == Ok::<CallDraft, Seq<char>>(CallDraft { task: opt_view(task), vars: opt_var_map_view(vars) }),
    {
        let ghost i = it.index();
        proof {
            lemma_fold_step(es, empty_call_draft(), step, i);
        }
        let MappingEntry { key, value } = entry;
        if str_eq(key.as_str(), "task") {
            match scalar(value, task_ctx) {
                Ok(s) => task = Some(s),
                Err(e) => {
                    proof { lemma_fold_prefix_err(es, empty_call_draft(), step, i + 1); }
                    return Err(e);
                },
            }
        } else if str_eq(key.as_str(), "vars") {
            let v = match require_mapping(value, vars_ctx) {
                Ok(m) => mapping_to_var_map(m),
                Err(e) => Err(e),
            };
            match v {
                Ok(v) => vars = Some(v),
                Err(e) => {
                    proof { lemma_fold_prefix_err(es, empty_call_draft(), step, i + 1); }
                    return Err(e);
                },
            }
        }
    }
    proof {
        lemma_fold_all(es, empty_call_draft(), step);
    }
    Ok((task, vars))
}

/// A command: a scalar or literal block is a shell line, a mapping is a task
/// call that must name its task.
pub open spec fn spec_cmd(v: SyonValue) -> Result<CmdView, Seq<char>> {
    match v {
        SyonValue::Scalar(s) => Ok(CmdView::Shell(s@)),
        SyonValue::LiteralBlock(s) => Ok(CmdView::Shell(s@)),
        SyonValue::Mapping(m) => match fold_entries(m@, empty_call_draft(), call_step("cmd.task"@, "cmd.vars"@)) {
            Err(x) => Err(x),
            Ok(d) => match d.task {
                None => Err("cmd task-call missing 'task' key"@),
                Some(t) => Ok(CmdView::TaskCall { task: t, vars: d.vars }),
            },
        },
        _ => Err("cmd must be a string or mapping"@),
    }
}

/// A dependency: a scalar is a task name, a mapping is a task call that must
/// name its task.
pub open spec fn spec_dep(v: SyonValue) -> Result<DepView, Seq<char>> {
    match v {
        SyonValue::Scalar(s) => Ok(DepView::Simple(s@)),
        SyonValue::Mapping(m) => match fold_entries(m@, empty_call_draft(), call_step("dep.task"@, "dep.vars"@)) {
            Err(x) => Err(x),
            Ok(d) => match d.task {
                None => Err("dep task-call missing 'task' key"@),
                Some(t) => Ok(DepView::Full { task: t, vars: d.vars }),
            },
        },
        _ => Err("dep must be a string or mapping"@),
    }
}

pub fn value_to_cmd(value: SyonValue) -> (r: Result<Cmd, SyonError>)
    ensures
        outcome_is(r, spec_cmd(value), |c: Cmd| c@),
{
    match value {
        SyonValue::Scalar(s) => Ok(Cmd::Shell(s)),
        SyonValue::LiteralBlock(s) => Ok(Cmd::Shell(s)),
        SyonValue::Mapping(entries) => {
            match mapping_to_call(entries, "cmd.task", "cmd.vars") {
                Err(e) => Err(e),
                Ok((Some(task), vars)) => Ok(Cmd::TaskCall { task, vars }),
                Ok((None, _)) => Err(SyonError::Structure(String::from_str("cmd task-call missing 'task' key"))),
            }
        },
        _ => Err(SyonError::Structure(String::from_str("cmd must be a string or mapping"))),
    }
}

pub fn value_to_dep(value: SyonValue) -> (r: Result<Dep, SyonError>)
    ensures
        outcome_is(r, spec_dep(value), |d: Dep| d@),
{
    match value {
        SyonValue::Scalar(s) => Ok(Dep::Simple(s)),
        SyonValue::Mapping(entries) => {
            match mapping_to_call(entries, "dep.task", "dep.vars") {
                Err(e) => Err(e),
                Ok((Some(task), vars)) => Ok(Dep::Full { task, vars }),
                Ok((None, _)) => Err(SyonError::Structure(String::from_str("dep task-call missing 'task' key"))),
            }
        },
        _ => Err(SyonError::Structure(String::from_str("dep must be a string or mapping"))),
    }
}

pub open spec fn cmds_step() -> spec_fn(Seq<CmdView>, SequenceItem) -> Result<Seq<CmdView>, Seq<char>> {
    |acc: Seq<CmdView>, it: SequenceItem| match spec_cmd(it.value) {
        Err(x) => Err(x),
        Ok(c) => Ok(acc.push(c)),
    }
}

pub open spec fn deps_step() -> spec_fn(Seq<DepView>, SequenceItem) -> Result<Seq<DepView>, Seq<char>> {
    |acc: Seq<DepView>, it: SequenceItem| match spec_dep(it.value) {
        Err(x) => Err(x),
        Ok(d) => Ok(acc.push(d)),
    }
}

/// The commands of a sequence, in order; the first bad item is the error.
pub open spec fn spec_cmds(items: Seq<SequenceItem>) -> Result<Seq<CmdView>, Seq<char>> {
    fold_entries(items, Seq::empty(), cmds_step())
}

/// The dependencies of a sequence, in order; the first bad item is the error.
pub open spec fn spec_deps(items: Seq<SequenceItem>) -> Result<Seq<DepView>, Seq<char>> {
    fold_entries(items, Seq::empty(), deps_step())
}

pub fn items_to_cmds(items: Vec<SequenceItem>) -> (r: Result<Vec<Cmd>, SyonError>)
    ensures
        outcome_is(r, spec_cmds(items@), |v: Vec<Cmd>| v@.map_values(|c: Cmd| cmd_view(c))),
{
    let ghost es = items@;
    let mut out: Vec<Cmd> = Vec::new();
    proof {
        lemma_fold_empty(es, Seq::empty(), cmds_step());
    }
    assert(out@.map_values(|c: Cmd| cmd_view(c)) =~= Seq::<CmdView>::empty());
    for item in it: items
        invariant
            it.seq() == es,
            fold_entries(es.take(it.index() as int), Seq::empty(), cmds_step())
                == Ok::<Seq<CmdView>, Seq<char>>(out@.map_values(|c: Cmd| cmd_view(c))),
    {
        let ghost i = it.index();
        proof {
            lemma_fold_step(es, Seq::empty(), cmds_step(), i);
        }
        match value_to_cmd(item.value) {
            Ok(c) => {
                let ghost before = out@;
                out.push(c);
                assert(out@.map_values(|c: Cmd| cmd_view(c)) =~= before.map_values(|c: Cmd| cmd_view(c)).push(cmd_view(c)));
            },
            Err(e) => {
                proof { lemma_fold_prefix_err(es, Seq::empty(), cmds_step(), i + 1); }
                return Err(e);
            },
        }
    }
    proof {
        lemma_fold_all(es, Seq::empty(), cmds_step());
    }
    Ok(out)
}

pub fn items_to_deps(items: Vec<SequenceItem>) -> (r: Result<Vec<Dep>, SyonError>)
    ensures
        outcome_is(r, spec_deps(items@), |v: Vec<Dep>| v@.map_values(|d: Dep| dep_view(d))),
{
    let ghost es = items@;
    let mut out: Vec<Dep> = Vec::new();
    proof {
        lemma_fold_empty(es, Seq::empty(), deps_step());
    }
    assert(out@.map_values(|d: Dep| dep_view(d)) =~= Seq::<DepView>::empty());
    for item in it: items
        invariant
            it.seq() == es,
            fold_entries(es.take(it.index() as int), Seq::empty(), deps_step())
                == Ok::<Seq<DepView>, Seq<char>>(out@.map_values(|d: Dep| dep_view(d))),
    {
        let ghost i = it.index();
        proof {
            lemma_fold_step(es, Seq::empty(), deps_step(), i);
        }
        match value_to_dep(item.value) {
            Ok(d) => {
                let ghost before = out@;
                out.push(d);
                assert(out@.map_values(|d: Dep| dep_view(d)) =~= before.map_values(|d: Dep| dep_view(d)).push(dep_view(d)));
            },
            Err(e) => {
                proof { lemma_fold_prefix_err(es, Seq::empty(), deps_step(), i + 1); }
                return Err(e);
            },
        }
    }
    proof {
        lemma_fold_all(es, Seq::empty(), deps_step());
    }
    Ok(out)
}

// ---------------------------------------------------------------------------
// Tasks
// ---------------------------------------------------------------------------

pub open spec fn empty_task_view() -> TaskView {
    TaskView {
        desc: None,
        cmds: None,
        deps: None,
        vars: None,
        dir: None,
        env: None,
        silent: None,
        ignore_error: None,
    }
}

/// The keys of a task: `desc`, `dir`, `silent`, `ignore_error`, `cmds`, `deps`,
/// `vars` and `env`; any other key is ignored.
pub open spec fn task_step() -> spec_fn(TaskView, MappingEntry) -> Result<TaskView, Seq<char>> {
    |t: TaskView, e: MappingEntry| {
        let k = e.key@;
        let v = e.value;
        if k == "desc"@ {
            match spec_scalar(v, "desc"@) {
                Err(x) => Err(x),
                Ok(s) => Ok(TaskView { desc: Some(s), ..t }),
            }
        } else if k == "dir"@ {
            match spec_scalar(v, "dir"@) {
                Err(x) => Err(x),
                Ok(s) => Ok(TaskView { dir: Some(s), ..t }),
            }
        } else if k == "silent"@ {
            match spec_scalar(v, "silent"@) {
                Err(x) => Err(x),
                Ok(s) => match spec_parse_bool(s, "silent"@) {
                    Err(x) => Err(x),
                    Ok(b) => Ok(TaskView { silent: Some(b), ..t }),
                },
            }
        } else if k == "ignore_error"@ {
            match spec_scalar(v, "ignore_error"@) {
                Err(x) => Err(x),
                Ok(s) => match spec_parse_bool(s, "ignore_error"@) {
                    Err(x) => Err(x),
                    Ok(b) => Ok(TaskView { ignore_error: Some(b), ..t }),
                },
            }
        } else if k == "cmds"@ {
            match v {
                SyonValue::Sequence(items) => match spec_cmds(items@) {
                    Err(x) => Err(x),
                    Ok(c) => Ok(TaskView { cmds: Some(c), ..t }),
                },
                _ => Err("cmds must be a sequence"@),
            }
        } else if k == "deps"@ {
            match v {
                SyonValue::Sequence(items) => match spec_deps(items@) {
                    Err(x) => Err(x),
                    Ok(d) => Ok(TaskView { deps: Some(d), ..t }),
                },
                _ => Err("deps must be a sequence"@),
            }
        } else if k == "vars"@ {
            match spec_require_mapping(v, "task vars"@) {
                Err(x) => Err(x),
                Ok(m) => match spec_var_map(m) {
                    Err(x) => Err(x),
                    Ok(vs) => Ok(TaskView { vars: Some(vs), ..t }),
                },
            }
        } else if k == "env"@ {
            match spec_require_mapping(v, "task env"@) {
                Err(x) => Err(x),
                Ok(m) => match spec_string_map(m) {
                    Err(x) => Err(x),
                    Ok(vs) => Ok(TaskView { env: Some(vs), ..t }),
                },
            }
        } else {
            Ok(t)
        }
    }
}

/// A task definition, its keys read in document order.
pub open spec fn spec_task(m: Seq<MappingEntry>) -> Result<TaskView, Seq<char>> {
    fold_entries(m, empty_task_view(), task_step())
}

/// `m[i]` is the last `vars` entry of the task mapping `m`, and its value is a
/// mapping of variable definitions that reads as `vs`.
pub open spec fn is_last_vars_entry(m: Seq<MappingEntry>, i: int, vs: Seq<(Seq<char>, VarValueView)>) -> bool {
    &&& 0 <= i < m.len()
    &&& m[i].key@ == "vars"@
    &&& m[i].value matches SyonValue::Mapping(vm) && spec_var_map(vm@) == Ok::<Seq<(Seq<char>, VarValueView)>, Seq<char>>(vs)
    &&& forall|j: int| i < j < m.len() ==> (#[trigger] m[j]).key@ != "vars"@
}

proof fn lemma_task_vars_kept(m: Seq<MappingEntry>, i: int, vs: Seq<(Seq<char>, VarValueView)>, n: int)
    requires
        is_last_vars_entry(m, i, vs),
        i < n <= m.len(),
    ensures
        fold_entries(m.take(n), empty_task_view(), task_step()) matches Ok(t) ==> t.vars == Some(vs),
    decreases n,
{
    lemma_fold_step(m, empty_task_view(), task_step(), n - 1);
    if n - 1 > i {
        assert(m[n - 1].key@ != "vars"@);
        lemma_task_vars_kept(m, i, vs, n - 1);
    }
}

/// A task whose last `vars` entry is a mapping of variable definitions loads
/// with exactly those definitions, in document order, as its variables.
pub proof fn lemma_task_vars_from_last_vars_entry(m: Seq<MappingEntry>, i: int, vs: Seq<(Seq<char>, VarValueView)>)
    requires
        is_last_vars_entry(m, i, vs),
    ensures
        spec_task(m) matches Ok(t) ==> t.vars == Some(vs),
{
    lemma_task_vars_kept(m, i, vs, m.len() as int);
    lemma_fold_all(m, empty_task_view(), task_step());
}

pub fn mapping_to_task(entries: Vec<MappingEntry>) -> (r: Result<Task, SyonError>)
    ensures
        outcome_is(r, spec_task(entries@), |t: Task| t@),
        forall|i: int, vs: Seq<(Seq<char>, VarValueView)>| #[trigger] is_last_vars_entry(entries@, i, vs) ==>
            (r matches Ok(t) ==> t@.vars == Some(vs)),
{
    proof {
        assert forall|i: int, vs: Seq<(Seq<char>, VarValueView)>| #[trigger] is_last_vars_entry(entries@, i, vs) implies
            (spec_task(entries@) matches Ok(t) ==> t.vars == Some(vs)) by {
            lemma_task_vars_from_last_vars_entry(entries@, i, vs);
        }
    }
    let ghost es = entries@;
    let mut task = Task {
        desc: None,
        cmds: None,
        deps: None,
        vars: None,
        dir: None,
        env: None,
        silent: None,
        ignore_error: None,
    };
    proof {
        lemma_fold_empty(es, empty_task_view(), task_step());
    }
    for entry in it: entries
        invariant
            it.seq() == es,
            fold_entries(es.take(it.index() as int), empty_task_view(), task_step()) == Ok::<TaskView, Seq<char>>(task@),
    {
        let ghost i = it.index();
        proof {
            lemma_fold_step(es, empty_task_view(), task_step(), i);
        }
        let MappingEntry { key, value } = entry;
        let k = key.as_str();
        let outcome: Result<(), SyonError> = if str_eq(k, "desc") {
            match scalar(value, "desc") {
                Ok(s) => { task.desc = Some(s); Ok(()) },
                Err(e) => Err(e),
            }
        } else if str_eq(k, "dir") {
            match scalar(value, "dir") {
                Ok(s) => { task.dir = Some(s); Ok(()) },
                Err(e) => Err(e),
            }
        } else if str_eq(k, "silent") {
            let b = match scalar(value, "silent") {
                Ok(s) => parse_bool(s, "silent"),
                Err(e) => Err(e),
            };
            match b {
                Ok(b) => { task.silent = Some(b); Ok(()) },
                Err(e) => Err(e),
            }
        } else if str_eq(k, "ignore_error") {
            let b = match scalar(value, "ignore_error") {
                Ok(s) => parse_bool(s, "ignore_error"),
                Err(e) => Err(e),
            };
            match b {
                Ok(b) => { task.ignore_error = Some(b); Ok(()) },
                Err(e) => Err(e),
            }
        } else if str_eq(k, "cmds") {
            match value {
                SyonValue::Sequence(items) => match items_to_cmds(items) {
                    Ok(c) => { task.cmds = Some(c); Ok(()) },
                    Err(e) => Err(e),
                },
                _ => Err(SyonError::Structure(String::from_str("cmds must be a sequence"))),
            }
        } else if str_eq(k, "deps") {
            match value {
                SyonValue::Sequence(items) => match items_to_deps(items) {
                    Ok(d) => { task.deps = Some(d); Ok(()) },
                    Err(e) => Err(e),
                },
                _ => Err(SyonError::Structure(String::from_str("deps must be a sequence"))),
            }
        } else if str_eq(k, "vars") {
            let v = match require_mapping(value, "task vars") {
                Ok(m) => mapping_to_var_map(m),
                Err(e) => Err(e),
            };
            match v {
                Ok(v) => { task.vars = Some(v); Ok(()) },
                Err(e) => Err(e),
            }
        } else if str_eq(k, "env") {
            let v = match require_mapping(value, "task env") {
                Ok(m) => mapping_to_string_map(m),
                Err(e) => Err(e),
            };
            match v {
                Ok(v) => { task.env = Some(v); Ok(()) },
                Err(e) => Err(e),
            }
        } else {
            Ok(())
        };
        if let Err(e) = outcome {
            proof { lemma_fold_prefix_err(es, empty_task_view(), task_step(), i + 1); }
            return Err(e);
        }
    }
    proof {
        lemma_fold_all(es, empty_task_view(), task_step());
    }
    Ok(task)
}

// ---------------------------------------------------------------------------
// The taskfile
// ---------------------------------------------------------------------------

pub open spec fn task_mapping_msg(key: Seq<char>) -> Seq<char> {
    "task '"@ + key + "' must be a mapping"@
}

pub open spec fn tasks_step() -> spec_fn(Seq<(Seq<char>, TaskView)>, MappingEntry) -> Result<Seq<(Seq<char>, TaskView)>, Seq<char>> {
    |acc: Seq<(Seq<char>, TaskView)>, e: MappingEntry| match e.value {
        SyonValue::Mapping(m) => match spec_task(m@) {
            Err(x) => Err(x),
            Ok(t) => Ok(entry_insert(acc, e.key@, t)),
        },
        _ => Err(task_mapping_msg(e.key@)),
    }
}

/// The `tasks` mapping: every value must be a task mapping.
pub open spec fn spec_tasks(m: Seq<MappingEntry>) -> Result<Seq<(Seq<char>, TaskView)>, Seq<char>> {
    fold_entries(m, Seq::empty(), tasks_step())
}

pub open spec fn includes_step() -> spec_fn(Seq<(Seq<char>, IncludeView)>, MappingEntry) -> Result<Seq<(Seq<char>, IncludeView)>, Seq<char>> {
    |acc: Seq<(Seq<char>, IncludeView)>, e: MappingEntry| match spec_require_mapping(e.value, "include"@) {
        Err(x) => Err(x),
        Ok(m) => match spec_include(m) {
            Err(x) => Err(x),
            Ok(inc) => Ok(entry_insert(acc, e.key@, inc)),
        },
    }
}

/// The `includes` mapping: every value must be an include mapping.
pub open spec fn spec_includes(m: Seq<MappingEntry>) -> Result<Seq<(Seq<char>, IncludeView)>, Seq<char>> {
    fold_entries(m, Seq::empty(), includes_step())
}

pub fn mapping_to_tasks(entries: Vec<MappingEntry>) -> (r: Result<IndexMap<String, Task>, SyonError>)
    ensures
        outcome_is(r, spec_tasks(entries@), |m: IndexMap<String, Task>| task_map_view(m)),
{
    let ghost es = entries@;
    let mut map = task_map_new();
    proof {
        lemma_fold_empty(es, Seq::empty(), tasks_step());
    }
    assert(task_map_view(map) =~= Seq::<(Seq<char>, TaskView)>::empty());
    for entry in it: entries
        invariant
            it.seq() == es,
            fold_entries(es.take(it.index() as int), Seq::empty(), tasks_step())
                == Ok::<Seq<(Seq<char>, TaskView)>, Seq<char>>(task_map_view(map)),
    {
        let ghost i = it.index();
        proof {
            lemma_fold_step(es, Seq::empty(), tasks_step(), i);
        }
        let MappingEntry { key, value } = entry;
        let t = match value {
            SyonValue::Mapping(tm) => mapping_to_task(tm),
            _ => Err(SyonError::Structure(concat3("task '", key.as_str(), "' must be a mapping"))),
        };
        match t {
            Ok(t) => {
                proof {
                    lemma_insert_map_values(task_entries(map), |x: Task| task_view(x), key@, t);
                }
                task_map_insert(&mut map, key, t);
            },
            Err(e) => {
                proof { lemma_fold_prefix_err(es, Seq::empty(), tasks_step(), i + 1); }
                return Err(e);
            },
        }
    }
    proof {
        lemma_fold_all(es, Seq::empty(), tasks_step());
    }
    Ok(map)
}

pub fn mapping_to_includes(entries: Vec<MappingEntry>) -> (r: Result<IndexMap<String, Include>, SyonError>)
    ensures
        outcome_is(r, spec_includes(entries@), |m: IndexMap<String, Include>| include_map_view(m)),
{
    let ghost es = entries@;
    let mut map = include_map_new();
    proof {
        lemma_fold_empty(es, Seq::empty(), includes_step());
    }
    assert(include_map_view(map) =~= Seq::<(Seq<char>, IncludeView)>::empty());
    for entry in it: entries
        invariant
            it.seq() == es,
            fold_entries(es.take(it.index() as int), Seq::empty(), includes_step())
                == Ok::<Seq<(Seq<char>, IncludeView)>, Seq<char>>(include_map_view(map)),
    {
        let ghost i = it.index();
        proof {
            lemma_fold_step(es, Seq::empty(), includes_step(), i);
        }
        let MappingEntry { key, value } = entry;
        let inc = match require_mapping(value, "include") {
            Ok(m) => mapping_to_include(m),
            Err(e) => Err(e),
        };
        match inc {
            Ok(inc) => {
                proof {
                    lemma_insert_map_values(include_entries(map), |x: Include| include_view(x), key@, inc);
                }
                include_map_insert(&mut map, key, inc);
            },
            Err(e) => {
                proof { lemma_fold_prefix_err(es, Seq::empty(), includes_step(), i + 1); }
                return Err(e);
            },
        }
    }
    proof {
        lemma_fold_all(es, Seq::empty(), includes_step());
    }
    Ok(map)
}

/// The top-level keys read so far.
pub struct TaskfileDraft {
    pub version: Option<Seq<char>>,
    pub tasks: Seq<(Seq<char>, TaskView)>,
    pub vars: Option<Seq<(Seq<char>, VarValueView)>>,
    pub includes: Option<Seq<(Seq<char>, IncludeView)>>,
    pub env: Option<Seq<(Seq<char>, Seq<char>)>>,
}

pub open spec fn empty_taskfile_draft() -> TaskfileDraft {
    TaskfileDraft { version: None, tasks: Seq::empty(), vars: None, includes: None, env: None }
}

/// The top-level keys: `version`, `tasks`, `vars`, `includes` and `env`; any
/// other key is ignored.
pub open spec fn taskfile_step() -> spec_fn(TaskfileDraft, MappingEntry) -> Result<TaskfileDraft, Seq<char>> {
    |d: TaskfileDraft, e: MappingEntry| {
        let k = e.key@;
        let v = e.value;
        if k == "version"@ {
            match spec_scalar(v, "version"@) {
                Err(x) => Err(x),
                Ok(s) => Ok(TaskfileDraft { version: Some(s), ..d }),
            }
        } else if k == "tasks"@ {
            match v {
                SyonValue::Mapping(m) => match spec_tasks(m@) {
                    Err(x) => Err(x),
                    Ok(ts) => Ok(TaskfileDraft { tasks: ts, ..d }),
                },
                _ => Err("tasks must be a mapping"@),
            }
        } else if k == "vars"@ {
            match spec_require_mapping(v, "vars"@) {
                Err(x) => Err(x),
                Ok(m) => match spec_var_map(m) {
                    Err(x) => Err(x),
                    Ok(vs) => Ok(TaskfileDraft { vars: Some(vs), ..d }),
                },
            }
        } else if k == "includes"@ {
            match v {
                SyonValue::Mapping(m) => match spec_includes(m@) {
                    Err(x) => Err(x),
                    Ok(is) => Ok(TaskfileDraft { includes: Some(is), ..d }),
                },
                _ => Err("includes must be a mapping"@),
            }
        } else if k == "env"@ {
            match spec_require_mapping(v, "env"@) {
                Err(x) => Err(x),
                Ok(m) => match spec_string_map(m) {
                    Err(x) => Err(x),
                    Ok(vs) => Ok(TaskfileDraft { env: Some(vs), ..d }),
                },
            }
        } else {
            Ok(d)
        }
    }
}

/// A taskfile read from the entries of the top-level mapping; without a
/// `version` key the version is "3".
pub open spec fn spec_taskfile(m: Seq<MappingEntry>) -> Result<TaskfileView, Seq<char>> {
    match fold_entries(m, empty_taskfile_draft(), taskfile_step()) {
        Err(x) => Err(x),
        Ok(d) => Ok(TaskfileView {
            version: match d.version {
                Some(s) => s,
                None => "3"@,
            },
            tasks: d.tasks,
            vars: d.vars,
            includes: d.includes,
            env: d.env,
        }),
    }
}

pub open spec fn opt_include_map_view(m: Option<IndexMap<String, Include>>) -> Option<Seq<(Seq<char>, IncludeView)>> {
    match m {
        Some(m) => Some(include_map_view(m)),
        None => None,
    }
}

pub fn mapping_to_taskfile(entries: Vec<MappingEntry>) -> (r: Result<Taskfile, SyonError>)
    ensures
        outcome_is(r, spec_taskfile(entries@), |t: Taskfile| t@),
{
    let ghost es = entries@;
    let mut version: Option<String> = None;
    let mut tasks = task_map_new();
    let mut vars: Option<IndexMap<String, VarValue>> = None;
    let mut includes: Option<IndexMap<String, Include>> = None;
    let mut env: Option<IndexMap<String, String>> = None;
    proof {
        lemma_fold_empty(es, empty_taskfile_draft(), taskfile_step());
    }
    assert(task_map_view(tasks) =~= Seq::<(Seq<char>, TaskView)>::empty());
    for entry in it: entries
        invariant
            it.seq() == es,
            fold_entries(es.take(it.index() as int), empty_taskfile_draft(), taskfile_step())
                == Ok::<TaskfileDraft, Seq<char>>(TaskfileDraft {
                    version: opt_view(version),
                    tasks: task_map_view(tasks),
                    vars: opt_var_map_view(vars),
                    includes: opt_include_map_view(includes),
                    env: crate::schema::opt_string_map_view(env),
                }),
    {
        let ghost i = it.index();
        proof {
            lemma_fold_step(es, empty_taskfile_draft(), taskfile_step(), i);
        }
        let MappingEntry { key, value } = entry;
        let k = key.as_str();
        let outcome: Result<(), SyonError> = if str_eq(k, "version") {
            match scalar(value, "version") {
                Ok(s) => { version = Some(s); Ok(()) },
                Err(e) => Err(e),
            }
        } else if str_eq(k, "tasks") {
            match value {
                SyonValue::Mapping(m) => match mapping_to_tasks(m) {
                    Ok(t) => { tasks = t; Ok(()) },
                    Err(e) => Err(e),
                },
                _ => Err(SyonError::Structure(String::from_str("tasks must be a mapping"))),
            }
        } else if str_eq(k, "vars") {
            let v = match require_mapping(value, "vars") {
                Ok(m) => mapping_to_var_map(m),
                Err(e) => Err(e),
            };
            match v {
                Ok(v) => { vars = Some(v); Ok(()) },
                Err(e) => Err(e),
            }
        } else if str_eq(k, "includes") {
            match value {
                SyonValue::Mapping(m) => match mapping_to_includes(m) {
                    Ok(m) => { includes = Some(m); Ok(()) },
                    Err(e) => Err(e),
                },
                _ => Err(SyonError::Structure(String::from_str("includes must be a mapping"))),
            }
        } else if str_eq(k, "env") {
            let v = match require_mapping(value, "env") {
                Ok(m) => mapping_to_string_map(m),
                Err(e) => Err(e),
            };
            match v {
                Ok(v) => { env = Some(v); Ok(()) },
                Err(e) => Err(e),
            }
        } else {
            Ok(())
        };
        if let Err(e) = outcome {
            proof { lemma_fold_prefix_err(es, empty_taskfile_draft(), taskfile_step(), i + 1); }
            return Err(e);
        }
    }
    proof {
        lemma_fold_all(es, empty_taskfile_draft(), taskfile_step());
    }
    let version = match version {
        Some(v) => v,
        None => String::from_str("3"),
    };
    Ok(Taskfile { version, tasks, vars, includes, env })
}

/// A whole SYON file: its first document must be a mapping.
pub open spec fn spec_syon_taskfile(f: SyonFile) -> Result<TaskfileView, Seq<char>> {
    if f.documents@.len() == 0 {
        Err("SYON file has no documents"@)
    } else {
        match f.documents@[0].body {
            SyonValue::Mapping(m) => spec_taskfile(m@),
            _ => Err("top-level must be a mapping"@),
        }
    }
}

/// The taskfile that a parsed SYON file describes.
pub fn syon_file_to_taskfile(file: SyonFile) -> (r: Result<Taskfile, SyonError>)
    ensures
        outcome_is(r, spec_syon_taskfile(file), |t: Taskfile| t@),
{
    let mut documents = file.documents;
    if documents.len() == 0 {
        return Err(SyonError::Structure(String::from_str("SYON file has no documents")));
    }
    let doc = documents.remove(0);
    match doc.body {
        SyonValue::Mapping(m) => mapping_to_taskfile(m),
        _ => Err(SyonError::Structure(String::from_str("top-level must be a mapping"))),
    }
}

} // verus!
