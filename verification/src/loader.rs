//! Finding and assembling a taskfile: the search for `Taskfile.syon`,
//! `Taskfile.yaml` and `Taskfile.yml` from a directory up to the root, and the
//! merging of included taskfiles under their namespaces.
use vstd::prelude::*;
use indexmap::IndexMap;

use crate::ordered_map::{
    entry_insert, include_map_get_index, include_map_len, task_entries, task_map_insert,
};
use crate::paths::{base_dir, base_dir_of, extension_of, join, parent_of, path_extension, path_join, path_parent};
use crate::schema::{Include, IncludeView, Task, TaskView, Taskfile, TaskfileView, task_map_view, task_view};
use crate::syon::SyonError;
use crate::text::{concat2, concat3, str_eq};

verus! {

/// Why a taskfile could not be loaded.
pub enum LoadError {
    /// No taskfile in the directory or above it.
    NotFound(String),
    /// A file could not be read, or an included file is missing.
    Io(String),
    /// A YAML taskfile could not be parsed.
    Yaml(String),
    /// A SYON taskfile could not be loaded.
    Syon(SyonError),
}

/// The two taskfile formats.
#[derive(Clone, Copy, Debug, PartialEq, Eq, Structural)]
pub enum Format {
    Yaml,
    Syon,
}

// ---------------------------------------------------------------------------
// Detection
// ---------------------------------------------------------------------------

/// The file names that are probed in each directory, in order.
pub open spec fn candidate_name(slot: nat) -> Seq<char> {
    if slot == 0 {
        "Taskfile.syon"@
    } else if slot == 1 {
        "Taskfile.yaml"@
    } else {
        "Taskfile.yml"@
    }
}

pub open spec fn candidate_format(slot: nat) -> Format {
    if slot == 0 {
        Format::Syon
    } else {
        Format::Yaml
    }
}

/// The directory `n` levels above `start` (`start` itself for 0), if there
/// is one.
pub open spec fn ancestor(start: Seq<char>, n: nat) -> Option<Seq<char>>
    decreases n,
{
    if n == 0 {
        Some(start)
    } else {
        match ancestor(start, (n - 1) as nat) {
            Some(d) => path_parent(d),
            None => None,
        }
    }
}

/// `s` ends with `suffix`.
pub open spec fn ends_with(s: Seq<char>, suffix: Seq<char>) -> bool {
    s.len() >= suffix.len() && s.subrange(s.len() - suffix.len(), s.len() as int) == suffix
}

/// The format of a candidate follows the extension of its file name: a
/// `.syon` file is SYON, a `.yaml` or `.yml` file is YAML.
pub proof fn lemma_candidate_format_follows_extension(slot: nat)
    requires
        slot < 3,
    ensures
        (candidate_format(slot) == Format::Syon) <==> ends_with(candidate_name(slot), ".syon"@),
        (candidate_format(slot) == Format::Yaml) <==> (ends_with(candidate_name(slot), ".yaml"@) || ends_with(candidate_name(slot), ".yml"@)),
{
    reveal_strlit("Taskfile.syon");
    reveal_strlit("Taskfile.yaml");
    reveal_strlit("Taskfile.yml");
    reveal_strlit(".syon");
    reveal_strlit(".yaml");
    reveal_strlit(".yml");
    let n = candidate_name(slot);
    if slot == 0 {
        assert(n.subrange(8, 13) =~= ".syon"@);
        assert(n.subrange(8, 13)[1] != ".yaml"@[1]);
        assert(n.subrange(9, 13)[0] != ".yml"@[0]);
    } else if slot == 1 {
        assert(n.subrange(8, 13) =~= ".yaml"@);
        assert(n.subrange(8, 13)[1] != ".syon"@[1]);
    } else {
        assert(n.subrange(8, 12) =~= ".yml"@);
        assert(n.subrange(7, 12)[0] != ".syon"@[0]);
    }
}

/// The search for a taskfile, standing at the candidate `slot` of the
/// directory `level` levels above `start`.
pub struct Detection {
    start: String,
    dir: String,
    slot: usize,
    level: Ghost<nat>,
}

impl Detection {
    pub closed spec fn start(&self) -> Seq<char> {
        self.start@
    }

    pub closed spec fn level(&self) -> nat {
        self.level@
    }

    pub closed spec fn slot(&self) -> nat {
        self.slot as nat
    }

    /// The search stands at a candidate of a directory on the way up.
    pub closed spec fn wf(&self) -> bool {
        &&& self.slot < 3
        &&& ancestor(self.start@, self.level@) == Some(self.dir@)
    }
}

/// The candidate path at `slot` of the directory `level` levels above `start`.
pub open spec fn candidate_path(start: Seq<char>, level: nat, slot: nat) -> Option<Seq<char>> {
    match ancestor(start, level) {
        Some(d) => Some(path_join(d, candidate_name(slot))),
        None => None,
    }
}

/// What the search asks for, or its outcome.
pub enum DetectAction {
    /// Report whether this file exists.
    Probe(String),
    /// The taskfile, and its format.
    Found(String, Format),
    /// No taskfile on the way up.
    NotFound(LoadError),
}

fn slot_name(slot: usize) -> (r: &'static str)
    requires
        slot < 3,
    ensures
        r@ == candidate_name(slot as nat),
{
    if slot == 0 {
        "Taskfile.syon"
    } else if slot == 1 {
        "Taskfile.yaml"
    } else {
        "Taskfile.yml"
    }
}

/// Starts the search in `start`: the first candidate to probe is
/// `start/Taskfile.syon`.
pub fn detect_start(start: &str) -> (r: (Detection, DetectAction))
    ensures
        r.0.wf(),
        r.0.start() == start@,
        r.0.level() == 0,
        r.0.slot() == 0,
        r.1 matches DetectAction::Probe(p) && Some(p@) == candidate_path(start@, 0, 0),
{
    let d = Detection { start: String::from_str(start), dir: String::from_str(start), slot: 0, level: Ghost(0) };
    let p = join(start, "Taskfile.syon");
    (d, DetectAction::Probe(p))
}

/// One step of the search, on the answer `exists` for the candidate that it
/// stands at: a candidate that exists is the taskfile; otherwise the next
/// candidate of the directory is probed, then those of its parent; past the
/// root there is no taskfile.  Candidates come in the order `Taskfile.syon`,
/// `Taskfile.yaml`, `Taskfile.yml`, from `start` upwards.
pub fn detect_taskfile(d: &mut Detection, exists: bool) -> (r: DetectAction)
    requires
        old(d).wf(),
    ensures
        final(d).wf(),
        final(d).start() == old(d).start(),
        exists ==> (r matches DetectAction::Found(p, f) && Some(p@) == candidate_path(old(d).start(), old(d).level(), old(d).slot())
            && f == candidate_format(old(d).slot())),
        exists ==> (r matches DetectAction::Found(_, f)
            && ((f == Format::Syon) <==> ends_with(candidate_name(old(d).slot()), ".syon"@))
            && ((f == Format::Yaml) <==> (ends_with(candidate_name(old(d).slot()), ".yaml"@)
                || ends_with(candidate_name(old(d).slot()), ".yml"@)))),
        !exists && old(d).slot() < 2 ==> final(d).level() == old(d).level() && final(d).slot() == old(d).slot() + 1
            && (r matches DetectAction::Probe(p) && Some(p@) == candidate_path(old(d).start(), final(d).level(), final(d).slot())),
        !exists && old(d).slot() == 2 && ancestor(old(d).start(), old(d).level() + 1) is Some ==> final(d).level() == old(d).level() + 1
            && final(d).slot() == 0 && (r matches DetectAction::Probe(p) && Some(p@) == candidate_path(old(d).start(), final(d).level(), 0)),
        !exists && old(d).slot() == 2 && ancestor(old(d).start(), old(d).level() + 1) is None ==>
            (r matches DetectAction::NotFound(LoadError::NotFound(s)) && s@ == old(d).start()),
{
    if exists {
        proof {
            lemma_candidate_format_follows_extension(d.slot as nat);
        }
        let p = join(d.dir.as_str(), slot_name(d.slot));
        let f = if d.slot == 0 { Format::Syon } else { Format::Yaml };
        return DetectAction::Found(p, f);
    }
    if d.slot < 2 {
        d.slot = d.slot + 1;
        let p = join(d.dir.as_str(), slot_name(d.slot));
        return DetectAction::Probe(p);
    }
    match parent_of(d.dir.as_str()) {
        Some(parent) => {
            d.dir = parent;
            d.slot = 0;
            d.level = Ghost((d.level@ + 1) as nat);
            let p = join(d.dir.as_str(), "Taskfile.syon");
            DetectAction::Probe(p)
        },
        None => {
            proof {
                assert(ancestor(d.start@, d.level@ + 1) == path_parent(d.dir@));
            }
            DetectAction::NotFound(LoadError::NotFound(d.start.clone()))
        },
    }
}

// ---------------------------------------------------------------------------
// Includes
// ---------------------------------------------------------------------------

/// The name under which an included task is merged: `namespace:task`.
pub open spec fn namespaced(ns: Seq<char>, name: Seq<char>) -> Seq<char> {
    ns + ":"@ + name
}

/// `tasks` with the tasks `child` added under the namespace `ns`, in order; a
/// name that is already there takes the included task.
pub open spec fn merged_tasks(
    tasks: Seq<(Seq<char>, TaskView)>,
    ns: Seq<char>,
    child: Seq<(Seq<char>, TaskView)>,
) -> Seq<(Seq<char>, TaskView)>
    decreases child.len(),
{
    if child.len() == 0 {
        tasks
    } else {
        entry_insert(merged_tasks(tasks, ns, child.drop_last()), namespaced(ns, child.last().0), child.last().1)
    }
}

/// The last task of `child` whose name, under the namespace `ns`, is `k`.
pub open spec fn last_included(child: Seq<(Seq<char>, TaskView)>, ns: Seq<char>, k: Seq<char>) -> Option<TaskView>
    decreases child.len(),
{
    if child.len() == 0 {
        None
    } else if namespaced(ns, child.last().0) == k {
        Some(child.last().1)
    } else {
        last_included(child.drop_last(), ns, k)
    }
}

/// After a merge, the name `ns:task` stands for the included task `task`, and
/// every name that no included task takes keeps the task it stood for.
pub proof fn lemma_merged_lookup(
    tasks: Seq<(Seq<char>, TaskView)>,
    ns: Seq<char>,
    child: Seq<(Seq<char>, TaskView)>,
    k: Seq<char>,
)
    ensures
        crate::ordered_map::entry_lookup(merged_tasks(tasks, ns, child), k) == (match last_included(child, ns, k) {
            Some(t) => Some(t),
            None => crate::ordered_map::entry_lookup(tasks, k),
        }),
    decreases child.len(),
{
    if child.len() > 0 {
        lemma_merged_lookup(tasks, ns, child.drop_last(), k);
        let s0 = merged_tasks(tasks, ns, child.drop_last());
        let key = namespaced(ns, child.last().0);
        crate::ordered_map::lemma_insert_keys(s0, key, child.last().1);
        if key != k {
            crate::ordered_map::lemma_lookup_insert_other(s0, key, child.last().1, k);
        }
    }
}

/// Adds the tasks `child` to `tf` under the namespace `ns`.
pub fn merge_namespace(tf: &mut Taskfile, ns: &str, child: IndexMap<String, Task>)
    ensures
        final(tf)@ == (TaskfileView { tasks: merged_tasks(old(tf)@.tasks, ns@, task_map_view(child)), ..old(tf)@ }),
{
    let ghost cv = task_map_view(child);
    let entries = crate::ordered_map::task_map_into_vec(child);
    let ghost ev = entries@;
    assert(cv =~= ev.map_values(|p: (String, Task)| (p.0@, p.1@)));
    let ghost t0 = tf@;
    assert(cv.take(0) =~= Seq::<(Seq<char>, TaskView)>::empty());
    for e in it: entries
        invariant
            it.seq() == ev,
            cv == ev.map_values(|p: (String, Task)| (p.0@, p.1@)),
            tf@ == (TaskfileView { tasks: merged_tasks(t0.tasks, ns@, cv.take(it.index() as int)), ..t0 }),
    {
        let ghost i = it.index();
        let (name, task) = e;
        assert(cv.take(i + 1).drop_last() =~= cv.take(i as int));
        assert(cv.take(i + 1).last() == (name@, task@));
        let key = concat3(ns, ":", name.as_str());
        proof {
            crate::ordered_map::lemma_insert_map_values(task_entries(tf.tasks), |t: Task| task_view(t), key@, task);
        }
        task_map_insert(&mut tf.tasks, key, task);
    }
    assert(cv.take(ev.len() as int) =~= cv);
}

/// The path of an included file: its `taskfile` joined onto the directory of
/// the file that includes it.
pub open spec fn include_path(base: Seq<char>, inc: IncludeView) -> Seq<char> {
    path_join(base, inc.taskfile)
}

/// A file with the extension `syon` is SYON, any other is YAML.
pub open spec fn format_of_path(p: Seq<char>) -> Format {
    if path_extension(p) == Some("syon"@) {
        Format::Syon
    } else {
        Format::Yaml
    }
}

pub fn format_of(p: &str) -> (f: Format)
    ensures
        f == format_of_path(p@),
{
    match extension_of(p) {
        Some(e) => if str_eq(e.as_str(), "syon") { Format::Syon } else { Format::Yaml },
        None => Format::Yaml,
    }
}

pub open spec fn not_found_msg(p: Seq<char>) -> Seq<char> {
    "included taskfile not found: "@ + p
}

/// A taskfile whose includes are being resolved.
struct IncludeFrame {
    tf: Taskfile,
    includes: IndexMap<String, Include>,
    idx: usize,
    base: String,
    namespace: String,
    loading: bool,
}

/// The resolution of the includes of a taskfile; included files nest, each
/// has a frame on a stack.
pub struct Resolution {
    frames: Vec<IncludeFrame>,
}

pub struct IncludeFrameView {
    pub tf: TaskfileView,
    pub includes: Seq<(Seq<char>, IncludeView)>,
    pub idx: nat,
    pub base: Seq<char>,
    pub namespace: Seq<char>,
    pub loading: bool,
}

spec fn include_frame_view(f: IncludeFrame) -> IncludeFrameView {
    IncludeFrameView {
        tf: f.tf@,
        includes: crate::schema::include_map_view(f.includes),
        idx: f.idx as nat,
        base: f.base@,
        namespace: f.namespace@,
        loading: f.loading,
    }
}

impl View for Resolution {
    type V = Seq<IncludeFrameView>;

    closed spec fn view(&self) -> Seq<IncludeFrameView> {
        self.frames@.map_values(|f: IncludeFrame| include_frame_view(f))
    }
}

/// What the resolution asks for, or its outcome.
pub enum IncludeAction {
    /// Nothing to do outside: call `resolve_step` again with `Proceed`.
    Continue,
    /// Report whether this file exists.
    CheckExists(String),
    /// Read and parse this file in this format, and report the taskfile.
    Load(String, Format),
    /// The taskfile with every include merged.
    Done(Taskfile),
    /// An include could not be resolved.
    Failed(LoadError),
}

/// What the caller reports back.
pub enum IncludeEvent {
    Proceed,
    Exists(bool),
    Loaded(Result<Taskfile, LoadError>),
}

/// Every frame stands at an include or just past the last one.
pub open spec fn resolution_wf(r: Seq<IncludeFrameView>) -> bool {
    &&& forall|i: int| 0 <= i < r.len() ==> (#[trigger] r[i]).idx <= r[i].includes.len() && r[i].tf.includes is None
    &&& forall|i: int| 0 <= i < r.len() - 1 ==> (#[trigger] r[i]).idx < r[i].includes.len()
}

/// A new frame for a taskfile: its includes taken out of it.
pub open spec fn fresh_frame(tf: TaskfileView, base: Seq<char>, ns: Seq<char>) -> IncludeFrameView {
    IncludeFrameView {
        tf: TaskfileView { includes: None, ..tf },
        includes: match tf.includes {
            Some(m) => m,
            None => Seq::empty(),
        },
        idx: 0,
        base,
        namespace: ns,
        loading: false,
    }
}

/// One step of the resolution, from `old` on the report `ev` to `new` with the
/// action `act`.  A frame goes through its includes in order: the path of an
/// include is checked, a missing optional include is skipped, a missing one
/// fails, an existing one is loaded and resolved in its own frame, relative
/// to its own directory.  A finished frame merges its tasks into the frame
/// below it under its namespace; the last one is the result.
pub open spec fn resolve_step_spec(old: Seq<IncludeFrameView>, ev: IncludeEvent, new: Seq<IncludeFrameView>, act: IncludeAction) -> bool {
    if old.len() == 0 {
        new == old && act matches IncludeAction::Failed(LoadError::NotFound(_))
    } else {
        let f = old.last();
        let rest = old.drop_last();
        if f.idx >= f.includes.len() {
            if rest.len() == 0 {
                new.len() == 0 && (act matches IncludeAction::Done(t) && t@ == f.tf)
            } else {
                let p = rest.last();
                &&& new == rest.drop_last().push(IncludeFrameView {
                    tf: TaskfileView { tasks: merged_tasks(p.tf.tasks, f.namespace, f.tf.tasks), ..p.tf },
                    idx: p.idx + 1,
                    loading: false,
                    ..p
                })
                &&& act is Continue
            }
        } else {
            let (ns, inc) = f.includes[f.idx as int];
            let path = include_path(f.base, inc);
            match ev {
                IncludeEvent::Exists(true) => {
                    &&& new == rest.push(IncludeFrameView { loading: true, ..f })
                    &&& (act matches IncludeAction::Load(q, fmt) && q@ == path && fmt == format_of_path(path))
                },
                IncludeEvent::Exists(false) => if inc.optional == Some(true) {
                    new == rest.push(IncludeFrameView { idx: f.idx + 1, loading: false, ..f }) && act is Continue
                } else {
                    new.len() == 0 && (act matches IncludeAction::Failed(LoadError::Io(m)) && m@ == not_found_msg(path))
                },
                IncludeEvent::Loaded(Ok(child)) => {
                    &&& new == rest.push(IncludeFrameView { loading: false, ..f }).push(fresh_frame(child@, base_dir(path), ns))
                    &&& act is Continue
                },
                IncludeEvent::Loaded(Err(e)) => new.len() == 0 && act == IncludeAction::Failed(e),
                IncludeEvent::Proceed => {
                    &&& new == old
                    &&& if f.loading {
                        act matches IncludeAction::Load(q, fmt) && q@ == path && fmt == format_of_path(path)
                    } else {
                        act matches IncludeAction::CheckExists(q) && q@ == path
                    }
                },
            }
        }
    }
}

/// An include whose file does not exist fails the resolution, with an I/O
/// error that names the path joined onto the includer's directory, and leaves
/// nothing to resolve, unless the include sets `optional: true`; only then is
/// it skipped.  An `optional` that is absent or `false` does not skip it.
pub proof fn lemma_missing_include_fails_unless_optional(
    old: Seq<IncludeFrameView>,
    ev: IncludeEvent,
    new: Seq<IncludeFrameView>,
    act: IncludeAction,
)
    requires
        resolve_step_spec(old, ev, new, act),
        old.len() > 0,
        old.last().idx < old.last().includes.len(),
        ev == IncludeEvent::Exists(false),
    ensures
        old.last().includes[old.last().idx as int].1.optional != Some(true) ==> {
            &&& new.len() == 0
            &&& act matches IncludeAction::Failed(LoadError::Io(m))
            &&& m@ == "included taskfile not found: "@ + path_join(old.last().base, old.last().includes[old.last().idx as int].1.taskfile)
        },
        old.last().includes[old.last().idx as int].1.optional == Some(true) ==> {
            &&& act is Continue
            &&& new == old.drop_last().push(IncludeFrameView { idx: old.last().idx + 1, loading: false, ..old.last() })
        },
{
}

fn new_frame(tf: Taskfile, base: String, namespace: String) -> (f: IncludeFrame)
    ensures
        include_frame_view(f) == fresh_frame(tf@, base@, namespace@),
{
    let mut tf = tf;
    let includes = match tf.includes.take() {
        Some(m) => m,
        None => {
            let m = crate::ordered_map::include_map_new();
            assert(crate::schema::include_map_view(m) =~= Seq::<(Seq<char>, IncludeView)>::empty());
            m
        },
    };
    IncludeFrame { tf, includes, idx: 0, base, namespace, loading: false }
}

/// Starts resolving the includes of `tf`, whose relative paths start from
/// `base`.
pub fn resolve_start(tf: Taskfile, base: String) -> (r: Resolution)
    ensures
        r@ == seq![fresh_frame(tf@, base@, Seq::empty())],
        resolution_wf(r@),
{
    let f = new_frame(tf, base, String::new());
    let mut frames = Vec::new();
    frames.push(f);
    let r = Resolution { frames };
    assert(r@ =~= seq![include_frame_view(f)]);
    r
}

impl Resolution {
    /// One step of the resolution on the report `ev`.
    pub fn resolve_step(&mut self, ev: IncludeEvent) -> (act: IncludeAction)
        requires
            resolution_wf(old(self)@),
        ensures
            resolution_wf(final(self)@),
            resolve_step_spec(old(self)@, ev, final(self)@, act),
    {
        let ghost old_v = self@;
        if self.frames.len() == 0 {
            return IncludeAction::Failed(LoadError::NotFound(String::new()));
        }
        let f = self.frames.pop().unwrap();
        let ghost fv = include_frame_view(f);
        let ghost rest = self@;
        proof {
            assert(rest =~= old_v.drop_last());
            assert(old_v[old_v.len() - 1] == fv);
        }
        let n = include_map_len(&f.includes);
        if f.idx >= n {
            if self.frames.len() == 0 {
                return IncludeAction::Done(f.tf);
            }
            let mut p = self.frames.pop().unwrap();
            let ghost pv = include_frame_view(p);
            assert(pv == rest[rest.len() - 1]);
            assert(old_v[old_v.len() - 2] == pv);
            let pn = include_map_len(&p.includes);
            assert(p.idx < pn);
            let IncludeFrame { tf, includes, idx, base, namespace, loading } = f;
            let ghost tfv = tf@;
            merge_namespace(&mut p.tf, namespace.as_str(), tf.tasks);
            p.idx = p.idx + 1;
            p.loading = false;
            let ghost before = self@;
            self.frames.push(p);
            proof {
                assert(self@ =~= before.push(include_frame_view(p)));
                assert(before =~= rest.drop_last());
                assert(self@ =~= rest.drop_last().push(IncludeFrameView {
                    tf: TaskfileView { tasks: merged_tasks(pv.tf.tasks, fv.namespace, fv.tf.tasks), ..pv.tf },
                    idx: pv.idx + 1,
                    loading: false,
                    ..pv
                }));
                assert forall|i: int| 0 <= i < self@.len() implies (#[trigger] self@[i]).idx <= self@[i].includes.len()
                    && self@[i].tf.includes is None by {
                    if i < self@.len() - 1 {
                        assert(self@[i] == old_v[i]);
                    }
                }
                assert forall|i: int| 0 <= i < self@.len() - 1 implies (#[trigger] self@[i]).idx < self@[i].includes.len() by {
                    assert(self@[i] == old_v[i]);
                }
            }
            return IncludeAction::Continue;
        }
        let (ns, inc) = include_map_get_index(&f.includes, f.idx).unwrap();
        let path = join(f.base.as_str(), inc.taskfile.as_str());
        let ns = ns.clone();
        let optional = match inc.optional {
            Some(b) => b,
            None => false,
        };
        match ev {
            IncludeEvent::Exists(true) => {
                let fmt = format_of(path.as_str());
                let mut f = f;
                f.loading = true;
                self.push_back(f, Ghost(old_v));
                IncludeAction::Load(path, fmt)
            },
            IncludeEvent::Exists(false) => {
                if optional {
                    let mut f = f;
                    f.idx = f.idx + 1;
                    f.loading = false;
                    self.push_back(f, Ghost(old_v));
                    IncludeAction::Continue
                } else {
                    self.frames = Vec::new();
                    assert(self@ =~= Seq::<IncludeFrameView>::empty());
                    IncludeAction::Failed(LoadError::Io(concat2("included taskfile not found: ", path.as_str())))
                }
            },
            IncludeEvent::Loaded(Ok(child)) => {
                assert(f.idx < n);
                let base = base_dir_of(path.as_str());
                let cf = new_frame(child, base, ns);
                let mut f = f;
                f.loading = false;
                self.push_back(f, Ghost(old_v));
                let ghost mid = self@;
                self.frames.push(cf);
                proof {
                    assert(self@ =~= mid.push(include_frame_view(cf)));
                    assert forall|i: int| 0 <= i < self@.len() implies (#[trigger] self@[i]).idx <= self@[i].includes.len()
                        && self@[i].tf.includes is None by {
                        if i < mid.len() {
                            assert(self@[i] == mid[i]);
                        }
                    }
                    assert forall|i: int| 0 <= i < self@.len() - 1 implies (#[trigger] self@[i]).idx < self@[i].includes.len() by {
                        assert(self@[i] == mid[i]);
                        if i < mid.len() - 1 {
                            assert(mid[i] == old_v[i]);
                        }
                    }
                }
                IncludeAction::Continue
            },
            IncludeEvent::Loaded(Err(e)) => {
                self.frames = Vec::new();
                assert(self@ =~= Seq::<IncludeFrameView>::empty());
                IncludeAction::Failed(e)
            },
            IncludeEvent::Proceed => {
                let loading = f.loading;
                let a = if loading {
                    let fmt = format_of(path.as_str());
                    IncludeAction::Load(path, fmt)
                } else {
                    IncludeAction::CheckExists(path)
                };
                self.push_back(f, Ghost(old_v));
                assert(self@ =~= old_v);
                a
            },
        }
    }

    /// Puts the top frame back after a step that stays within it.
    fn push_back(&mut self, f: IncludeFrame, Ghost(old_v): Ghost<Seq<IncludeFrameView>>)
        requires
            resolution_wf(old_v),
            old_v.len() > 0,
            old(self)@ == old_v.drop_last(),
            include_frame_view(f).idx <= include_frame_view(f).includes.len(),
            include_frame_view(f).tf.includes is None,
        ensures
            final(self)@ == old_v.drop_last().push(include_frame_view(f)),
            resolution_wf(final(self)@),
    {
        self.frames.push(f);
        proof {
            assert(self@ =~= old_v.drop_last().push(include_frame_view(f)));
            assert forall|i: int| 0 <= i < self@.len() implies (#[trigger] self@[i]).idx <= self@[i].includes.len()
                && self@[i].tf.includes is None by {
                if i < self@.len() - 1 {
                    assert(self@[i] == old_v[i]);
                }
            }
            assert forall|i: int| 0 <= i < self@.len() - 1 implies (#[trigger] self@[i]).idx < self@[i].includes.len() by {
                assert(self@[i] == old_v[i]);
            }
        }
    }
}

} // verus!
