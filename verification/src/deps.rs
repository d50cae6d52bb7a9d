//! Dependency resolution: the tasks that a task needs, and an order in which
//! every dependency runs before the tasks that depend on it.
use vstd::prelude::*;
use vstd::set_lib::*;

use crate::graph::{
    graph_add_edge, graph_add_node, graph_edges, graph_new, graph_nodes, graph_toposort,
    is_edge_path, is_topological_order, lemma_seq_add_to_set, on_edge_cycle, seq_add, toposort_of,
};
use crate::ordered_map::{
    entry_lookup, key_index, lemma_key_index, lemma_lookup_map_values, task_entries, task_map_get,
};
use crate::schema::{dep_names, dep_task_name, Dep, Task, TaskView, Taskfile, TaskfileView, task_view};
use crate::text::str_eq;

verus! {

/// Why a task run failed.
pub enum RunError {
    /// No task of that name.
    TaskNotFound(String),
    /// The named task depends on itself, directly or through other tasks.
    CycleDetected(String),
    /// A command exited with this code.
    CommandFailed(i32),
    /// The system could not start a command.
    Io(String),
}

/// The taskfile defines a task of that name.
pub open spec fn has_task(tf: TaskfileView, n: Seq<char>) -> bool {
    key_index(tf.tasks, n) >= 0
}

/// The names that the task `n` lists under `deps` (none when there is no such task).
pub open spec fn deps_of(tf: TaskfileView, n: Seq<char>) -> Seq<Seq<char>> {
    match entry_lookup(tf.tasks, n) {
        Some(t) => dep_names(t),
        None => Seq::empty(),
    }
}

/// The task `a` exists and lists `b` among its dependencies.
pub open spec fn depends_on(tf: TaskfileView, a: Seq<char>, b: Seq<char>) -> bool {
    has_task(tf, a) && deps_of(tf, a).contains(b)
}

/// `p` goes from a task to one of its dependencies at each step.
pub open spec fn is_dep_path(tf: TaskfileView, p: Seq<Seq<char>>) -> bool {
    &&& p.len() >= 1
    &&& forall|i: int| 0 <= i < p.len() - 1 ==> depends_on(tf, #[trigger] p[i], p[i + 1])
}

/// `n` is `root` or a dependency, direct or not, of `root`.
pub open spec fn reachable(tf: TaskfileView, root: Seq<char>, n: Seq<char>) -> bool {
    exists|p: Seq<Seq<char>>| #![trigger is_dep_path(tf, p)] is_dep_path(tf, p) && p[0] == root && p.last() == n
}

/// Following dependencies from `n` leads back to `n`.
pub open spec fn on_dep_cycle(tf: TaskfileView, n: Seq<char>) -> bool {
    exists|p: Seq<Seq<char>>| #![trigger is_dep_path(tf, p)] is_dep_path(tf, p) && p.len() >= 2 && p[0] == n && p.last() == n
}

/// Every task that `root` needs, itself included, is defined.
pub open spec fn all_needed_defined(tf: TaskfileView, root: Seq<char>) -> bool {
    forall|n: Seq<char>| reachable(tf, root, n) ==> has_task(tf, n)
}

/// No task that `root` needs lies on a dependency cycle.
pub open spec fn no_needed_cycle(tf: TaskfileView, root: Seq<char>) -> bool {
    forall|n: Seq<char>| reachable(tf, root, n) ==> !on_dep_cycle(tf, n)
}

/// The views of a list of strings.
pub open spec fn names_view(v: Seq<String>) -> Seq<Seq<char>> {
    v.map_values(|s: String| s@)
}

/// `order` holds each task that `root` needs exactly once, and every
/// dependency of a task comes before it.
pub open spec fn is_run_order(tf: TaskfileView, root: Seq<char>, order: Seq<Seq<char>>) -> bool {
    &&& order.no_duplicates()
    &&& forall|n: Seq<char>| order.contains(n) <==> reachable(tf, root, n)
    &&& forall|i: int, j: int|
        0 <= i < order.len() && 0 <= j < order.len() && #[trigger] deps_of(tf, order[j]).contains(#[trigger] order[i])
            ==> i < j
}

// ---------------------------------------------------------------------------
// Reachability
// ---------------------------------------------------------------------------

pub proof fn lemma_reachable_root(tf: TaskfileView, root: Seq<char>)
    ensures
        reachable(tf, root, root),
{
    let p = seq![root];
    assert(is_dep_path(tf, p));
}

pub proof fn lemma_reachable_step(tf: TaskfileView, root: Seq<char>, a: Seq<char>, b: Seq<char>)
    requires
        reachable(tf, root, a),
        depends_on(tf, a, b),
    ensures
        reachable(tf, root, b),
{
    let p = choose|p: Seq<Seq<char>>| is_dep_path(tf, p) && p[0] == root && p.last() == a;
    let q = p.push(b);
    assert forall|i: int| 0 <= i < q.len() - 1 implies depends_on(tf, #[trigger] q[i], q[i + 1]) by {
        if i < p.len() - 1 {
            assert(q[i] == p[i] && q[i + 1] == p[i + 1]);
        }
    }
    assert(is_dep_path(tf, q));
}

/// A set of names that holds the root and, for each of its tasks, all their
/// dependencies, holds everything that the root needs.
pub proof fn lemma_closed_holds_reachable(tf: TaskfileView, root: Seq<char>, s: Seq<Seq<char>>, n: Seq<char>)
    requires
        s.contains(root),
        forall|x: Seq<char>, d: Seq<char>| s.contains(x) && depends_on(tf, x, d) ==> s.contains(d),
        reachable(tf, root, n),
    ensures
        s.contains(n),
{
    let p = choose|p: Seq<Seq<char>>| is_dep_path(tf, p) && p[0] == root && p.last() == n;
    lemma_closed_holds_path(tf, s, p, p.len() - 1);
}

proof fn lemma_closed_holds_path(tf: TaskfileView, s: Seq<Seq<char>>, p: Seq<Seq<char>>, k: int)
    requires
        is_dep_path(tf, p),
        0 <= k < p.len(),
        s.contains(p[0]),
        forall|x: Seq<char>, d: Seq<char>| s.contains(x) && depends_on(tf, x, d) ==> s.contains(d),
    ensures
        s.contains(p[k]),
    decreases k,
{
    if k > 0 {
        lemma_closed_holds_path(tf, s, p, k - 1);
        assert(depends_on(tf, p[k - 1], p[k]));
    }
}

/// The task stored under `name`.
pub fn get_task<'a>(tf: &'a Taskfile, name: &str) -> (r: Option<&'a Task>)
    ensures
        r is Some <==> has_task(tf@, name@),
        r matches Some(t) ==> entry_lookup(tf@.tasks, name@) == Some(t@),
{
    let r = task_map_get(&tf.tasks, name);
    proof {
        lemma_lookup_map_values(task_entries(tf.tasks), |t: Task| task_view(t), name@);
        crate::ordered_map::lemma_key_index_map_values(task_entries(tf.tasks), |t: Task| task_view(t), name@);
    }
    r
}

/// Whether `v` holds a string equal to `n`.
pub fn contains_name(v: &Vec<String>, n: &str) -> (r: bool)
    ensures
        r == names_view(v@).contains(n@),
{
    let mut i: usize = 0;
    while i < v.len()
        invariant
            i <= v.len(),
            forall|j: int| 0 <= j < i ==> v@[j]@ != n@,
        decreases v.len() - i,
    {
        if str_eq(v[i].as_str(), n) {
            assert(names_view(v@)[i as int] == n@);
            return true;
        }
        i = i + 1;
    }
    assert(!names_view(v@).contains(n@)) by {
        if names_view(v@).contains(n@) {
            let j = choose|j: int| 0 <= j < names_view(v@).len() && names_view(v@)[j] == n@;
            assert(v@[j]@ == n@);
        }
    }
    false
}

/// The position of the string equal to `n` in `v`, which holds one.
pub fn position_of_name(v: &Vec<String>, n: &str) -> (r: usize)
    requires
        names_view(v@).contains(n@),
    ensures
        r < v.len(),
        v@[r as int]@ == n@,
{
    let mut i: usize = 0;
    while i < v.len()
        invariant
            i <= v.len(),
            names_view(v@).contains(n@),
            forall|j: int| 0 <= j < i ==> v@[j]@ != n@,
        decreases v.len() - i,
    {
        if str_eq(v[i].as_str(), n) {
            return i;
        }
        i = i + 1;
    }
    proof {
        let j = choose|j: int| 0 <= j < names_view(v@).len() && names_view(v@)[j] == n@;
        assert(v@[j]@ == n@);
    }
    0
}

/// All dependency names that the task entries mention, in order.
pub open spec fn all_dep_names(s: Seq<(Seq<char>, TaskView)>) -> Seq<Seq<char>>
    decreases s.len(),
{
    if s.len() == 0 {
        Seq::empty()
    } else {
        all_dep_names(s.drop_last()) + dep_names(s.last().1)
    }
}

proof fn lemma_all_dep_names(s: Seq<(Seq<char>, TaskView)>, i: int, d: Seq<char>)
    requires
        0 <= i < s.len(),
        dep_names(s[i].1).contains(d),
    ensures
        all_dep_names(s).contains(d),
    decreases s.len(),
{
    let a = all_dep_names(s.drop_last());
    let b = dep_names(s.last().1);
    if i < s.len() - 1 {
        assert(s.drop_last()[i] == s[i]);
        lemma_all_dep_names(s.drop_last(), i, d);
        let k = choose|k: int| 0 <= k < a.len() && a[k] == d;
        assert((a + b)[k] == d);
    } else {
        let k = choose|k: int| 0 <= k < b.len() && b[k] == d;
        assert((a + b)[a.len() + k] == d);
    }
}

/// Every name that can be visited from `root`.
pub open spec fn name_universe(tf: TaskfileView, root: Seq<char>) -> Set<Seq<char>> {
    all_dep_names(tf.tasks).to_set().insert(root)
}

proof fn lemma_deps_in_universe(tf: TaskfileView, root: Seq<char>, x: Seq<char>, d: Seq<char>)
    requires
        depends_on(tf, x, d),
    ensures
        name_universe(tf, root).contains(d),
{
    lemma_key_index(tf.tasks, x);
    lemma_all_dep_names(tf.tasks, key_index(tf.tasks, x), d);
}

proof fn lemma_visited_bound(vis: Seq<Seq<char>>, u: Set<Seq<char>>)
    requires
        vis.no_duplicates(),
        u.finite(),
        forall|x: Seq<char>| vis.contains(x) ==> u.contains(x),
    ensures
        vis.len() <= u.len(),
{
    vis.unique_seq_to_set();
    assert(vis.to_set().subset_of(u));
    lemma_len_subset(vis.to_set(), u);
}

proof fn lemma_contains_drop_last<A>(s: Seq<A>, x: A)
    requires
        s.len() > 0,
        s.contains(x),
    ensures
        s.drop_last().contains(x) || x == s.last(),
{
    let j = choose|j: int| 0 <= j < s.len() && s[j] == x;
    if j < s.len() - 1 {
        assert(s.drop_last()[j] == x);
    }
}

proof fn lemma_contains_push<A>(s: Seq<A>, a: A, x: A)
    ensures
        s.push(a).contains(x) <==> (s.contains(x) || x == a),
{
    if s.push(a).contains(x) {
        let j = choose|j: int| 0 <= j < s.push(a).len() && s.push(a)[j] == x;
        if j < s.len() {
            assert(s[j] == x);
        }
    }
    if s.contains(x) {
        let j = choose|j: int| 0 <= j < s.len() && s[j] == x;
        assert(s.push(a)[j] == x);
    }
    if x == a {
        assert(s.push(a)[s.len() as int] == x);
    }
}

proof fn lemma_names_push(v: Seq<String>, x: String)
    ensures
        names_view(v.push(x)) == names_view(v).push(x@),
{
    assert(names_view(v.push(x)) =~= names_view(v).push(x@));
}

proof fn lemma_names_drop_last(v: Seq<String>)
    requires
        v.len() > 0,
    ensures
        names_view(v.drop_last()) == names_view(v).drop_last(),
        names_view(v).last() == v.last()@,
{
    assert(names_view(v.drop_last()) =~= names_view(v).drop_last());
}

/// The defined tasks that are not in `visited` yet.
pub open spec fn unvisited_tasks(tf: TaskfileView, visited: Seq<Seq<char>>) -> Set<Seq<char>> {
    crate::ordered_map::entry_keys(tf.tasks).to_set().difference(visited.to_set())
}

/// The walk over the dependencies that `collect_dep_reachable` makes: take
/// the last name of `stack`; skip it when it was visited; stop with it when no
/// task has that name; otherwise visit it and put its dependencies, in their
/// order, on top of the stack.  The result is the visited names in the order
/// of their visit, or the first name found undefined.
pub open spec fn dfs_order(tf: TaskfileView, stack: Seq<Seq<char>>, visited: Seq<Seq<char>>) -> Result<Seq<Seq<char>>, Seq<char>>
    decreases unvisited_tasks(tf, visited).len(), stack.len(),
{
    if stack.len() == 0 {
        Ok(visited)
    } else {
        let name = stack.last();
        if visited.contains(name) {
            dfs_order(tf, stack.drop_last(), visited)
        } else if !has_task(tf, name) {
            Err(name)
        } else {
            proof {
                lemma_unvisited_shrinks(tf, visited, name);
            }
            dfs_order(tf, stack.drop_last() + deps_of(tf, name), visited.push(name))
        }
    }
}

/// Visiting a defined task that was not visited yet leaves one task fewer to
/// visit.
pub proof fn lemma_unvisited_shrinks(tf: TaskfileView, visited: Seq<Seq<char>>, name: Seq<char>)
    requires
        !visited.contains(name),
        has_task(tf, name),
    ensures
        unvisited_tasks(tf, visited.push(name)).len() < unvisited_tasks(tf, visited).len(),
{
    let keys = crate::ordered_map::entry_keys(tf.tasks);
    let ks = keys.to_set();
    lemma_key_index(tf.tasks, name);
    assert(keys[key_index(tf.tasks, name)] == name);
    assert(ks.contains(name));
    let d0 = unvisited_tasks(tf, visited);
    let d1 = unvisited_tasks(tf, visited.push(name));
    assert(d0.contains(name));
    assert forall|x: Seq<char>| visited.push(name).to_set().contains(x) <==> (visited.to_set().contains(x) || x == name) by {
        lemma_contains_push(visited, name, x);
    }
    assert(d1 =~= d0.remove(name));
    vstd::seq_lib::seq_to_set_is_finite(keys);
    vstd::set::axiom_set_difference_finite(ks, visited.to_set());
    vstd::set::axiom_set_remove_len(d0, name);
}

/// The tasks that `root` needs, itself included, each once, `root` first.
pub fn collect_dep_reachable(tf: &Taskfile, root: &str) -> (r: Result<Vec<String>, RunError>)
    ensures
        r is Ok <==> all_needed_defined(tf@, root@),
        r matches Ok(v) ==> {
            &&& names_view(v@).no_duplicates()
            &&& v@.len() > 0 && v@[0]@ == root@
            &&& forall|n: Seq<char>| names_view(v@).contains(n) <==> reachable(tf@, root@, n)
        },
        r matches Err(e) ==> (e matches RunError::TaskNotFound(n) && reachable(tf@, root@, n@)
            && !has_task(tf@, n@)),
        match r {
            Ok(v) => dfs_order(tf@, seq![root@], Seq::empty()) == Ok::<Seq<Seq<char>>, Seq<char>>(names_view(v@)),
            Err(e) => e matches RunError::TaskNotFound(n)
                && dfs_order(tf@, seq![root@], Seq::empty()) == Err::<Seq<Seq<char>>, Seq<char>>(n@),
        },
{
    let ghost t = tf@;
    let ghost rt = root@;
    let ghost u = name_universe(t, rt);
    let mut visited: Vec<String> = Vec::new();
    let mut stack: Vec<String> = Vec::new();
    stack.push(String::from_str(root));
    proof {
        lemma_reachable_root(t, rt);
        assert(names_view(stack@) =~= seq![rt]);
        assert(names_view(stack@)[0] == rt);
        assert(names_view(visited@) =~= Seq::<Seq<char>>::empty());
    }
    while stack.len() > 0
        invariant
            t == tf@,
            rt == root@,
            u == name_universe(t, rt),
            u.finite(),
            names_view(visited@).no_duplicates(),
            forall|i: int| 0 <= i < visited@.len() ==> has_task(t, #[trigger] names_view(visited@)[i])
                && reachable(t, rt, names_view(visited@)[i]) && u.contains(names_view(visited@)[i]),
            forall|i: int| 0 <= i < stack@.len() ==> reachable(t, rt, #[trigger] names_view(stack@)[i])
                && u.contains(names_view(stack@)[i]),
            forall|i: int, d: Seq<char>| 0 <= i < visited@.len() && #[trigger] depends_on(t, names_view(visited@)[i], d)
                ==> names_view(visited@).contains(d) || names_view(stack@).contains(d),
            names_view(visited@).contains(rt) || names_view(stack@).contains(rt),
            visited@.len() == 0 ==> names_view(stack@) == seq![rt],
            visited@.len() > 0 ==> visited@[0]@ == rt,
            dfs_order(t, seq![rt], Seq::empty()) == dfs_order(t, names_view(stack@), names_view(visited@)),
        decreases u.len() - visited@.len(), stack@.len(),
    {
        let ghost vis0 = names_view(visited@);
        let ghost stk0 = names_view(stack@);
        proof {
            assert forall|x: Seq<char>| vis0.contains(x) implies u.contains(x) by {
                let j = choose|j: int| 0 <= j < vis0.len() && vis0[j] == x;
            }
            lemma_visited_bound(vis0, u);
            lemma_names_drop_last(stack@);
        }
        let name = stack.pop().unwrap();
        let ghost stk1 = names_view(stack@);
        proof {
            assert(stk1 == stk0.drop_last());
            assert(stk0.last() == name@);
            assert(stk0[stk0.len() - 1] == name@);
            assert forall|i: int| 0 <= i < stk1.len() implies reachable(t, rt, #[trigger] stk1[i]) && u.contains(stk1[i]) by {
                assert(stk1[i] == stk0[i]);
            }
        }
        if contains_name(&visited, name.as_str()) {
            proof {
                assert forall|i: int, d: Seq<char>| 0 <= i < vis0.len() && #[trigger] depends_on(t, vis0[i], d)
                    implies vis0.contains(d) || stk1.contains(d) by {
                    if stk0.contains(d) {
                        lemma_contains_drop_last(stk0, d);
                    }
                }
                if stk0.contains(rt) {
                    lemma_contains_drop_last(stk0, rt);
                }
                assert(dfs_order(t, stk0, vis0) == dfs_order(t, stk1, vis0));
            }
            continue;
        }
        let task = match get_task(tf, name.as_str()) {
            None => {
                assert(dfs_order(t, stk0, vis0) == Err::<Seq<Seq<char>>, Seq<char>>(name@));
                return Err(RunError::TaskNotFound(name));
            },
            Some(task) => task,
        };
        proof {
            assert(reachable(t, rt, stk0[stk0.len() - 1]));
            assert(u.contains(stk0[stk0.len() - 1]));
            if vis0.len() == 0 {
                assert(stk0 == seq![rt]);
                assert(name@ == rt);
            }
            lemma_names_push(visited@, name);
        }
        visited.push(name.clone());
        let ghost vis1 = names_view(visited@);
        proof {
            assert(vis1 == vis0.push(name@));
            assert(vis1[vis0.len() as int] == name@);
            assert forall|i: int| 0 <= i < vis1.len() implies has_task(t, #[trigger] vis1[i])
                && reachable(t, rt, vis1[i]) && u.contains(vis1[i]) by {
                if i < vis0.len() {
                    assert(vis1[i] == vis0[i]);
                }
            }
            assert(vis1.no_duplicates()) by {
                assert forall|i: int, j: int| 0 <= i < vis1.len() && 0 <= j < vis1.len() && i != j
                    implies vis1[i] != vis1[j] by {
                    if i < vis0.len() && j < vis0.len() {
                        assert(vis1[i] == vis0[i] && vis1[j] == vis0[j]);
                    } else if i < vis0.len() {
                        assert(vis1[i] == vis0[i]);
                        assert(vis0.contains(vis0[i]));
                    } else if j < vis0.len() {
                        assert(vis1[j] == vis0[j]);
                        assert(vis0.contains(vis0[j]));
                    }
                }
            }
        }
        match &task.deps {
            None => {
                assert(deps_of(t, name@) =~= Seq::<Seq<char>>::empty());
            },
            Some(deps) => {
                let mut k: usize = 0;
                assert(deps_of(t, name@) == deps@.map_values(|d: Dep| d@).map_values(|d: crate::schema::DepView| crate::schema::dep_name_view(d)));
                while k < deps.len()
                    invariant
                        t == tf@,
                        rt == root@,
                        u == name_universe(t, rt),
                        k <= deps.len(),
                        names_view(visited@) == vis1,
                        deps_of(t, name@) == deps@.map_values(|d: Dep| d@).map_values(|d: crate::schema::DepView| crate::schema::dep_name_view(d)),
                        has_task(t, name@),
                        reachable(t, rt, name@),
                        names_view(stack@).len() == stk1.len() + k,
                        forall|i: int| 0 <= i < stk1.len() ==> #[trigger] names_view(stack@)[i] == stk1[i],
                        forall|j: int| 0 <= j < k ==> names_view(stack@)[stk1.len() + j] == #[trigger] deps_of(t, name@)[j],
                        forall|i: int| 0 <= i < stack@.len() ==> reachable(t, rt, #[trigger] names_view(stack@)[i])
                            && u.contains(names_view(stack@)[i]),
                    decreases deps.len() - k,
                {
                    let dn = dep_task_name(&deps[k]);
                    let ghost before = names_view(stack@);
                    assert(deps_of(t, name@)[k as int] == dn@);
                    assert(deps_of(t, name@).contains(dn@));
                    proof {
                        lemma_reachable_step(t, rt, name@, dn@);
                        lemma_deps_in_universe(t, rt, name@, dn@);
                    }
                    let s = String::from_str(dn);
                    proof {
                        lemma_names_push(stack@, s);
                    }
                    stack.push(s);
                    assert(names_view(stack@) == before.push(dn@));
                    assert forall|i: int| 0 <= i < stack@.len() implies reachable(t, rt, #[trigger] names_view(stack@)[i])
                        && u.contains(names_view(stack@)[i]) by {
                        if i < before.len() {
                            assert(names_view(stack@)[i] == before[i]);
                        }
                    }
                    assert forall|i: int| 0 <= i < stk1.len() implies #[trigger] names_view(stack@)[i] == stk1[i] by {
                        assert(names_view(stack@)[i] == before[i]);
                    }
                    assert forall|j: int| 0 <= j < k + 1 implies names_view(stack@)[stk1.len() + j] == #[trigger] deps_of(t, name@)[j] by {
                        if j < k {
                            assert(names_view(stack@)[stk1.len() + j] == before[stk1.len() + j]);
                        }
                    }
                    k = k + 1;
                }
            },
        }
        let ghost stk2 = names_view(stack@);
        proof {
            let dn = deps_of(t, name@);
            assert(forall|i: int| 0 <= i < stk1.len() ==> #[trigger] stk2[i] == stk1[i]);
            assert(forall|j: int| 0 <= j < dn.len() ==> stk2[stk1.len() + j] == #[trigger] dn[j]);
            assert forall|x: Seq<char>| stk1.contains(x) implies stk2.contains(x) by {
                let j = choose|j: int| 0 <= j < stk1.len() && stk1[j] == x;
                assert(stk2[j] == x);
            }
            assert forall|d: Seq<char>| dn.contains(d) implies stk2.contains(d) by {
                let j = choose|j: int| 0 <= j < dn.len() && dn[j] == d;
                assert(stk2[stk1.len() + j] == d);
            }
            assert forall|i: int, d: Seq<char>| 0 <= i < vis1.len() && #[trigger] depends_on(t, vis1[i], d)
                implies vis1.contains(d) || stk2.contains(d) by {
                lemma_contains_push(vis0, name@, d);
                if i < vis0.len() {
                    assert(vis1[i] == vis0[i]);
                    assert(depends_on(t, vis0[i], d));
                    if stk0.contains(d) {
                        lemma_contains_drop_last(stk0, d);
                    }
                } else {
                    assert(vis1[i] == name@);
                }
            }
            lemma_contains_push(vis0, name@, rt);
            if stk0.contains(rt) {
                lemma_contains_drop_last(stk0, rt);
            }
            assert(vis1.len() > 0 ==> visited@[0]@ == rt) by {
                if vis0.len() > 0 {
                    assert(vis1[0] == vis0[0]);
                }
            }
            assert forall|x: Seq<char>| vis1.contains(x) implies u.contains(x) by {
                let j = choose|j: int| 0 <= j < vis1.len() && vis1[j] == x;
            }
            lemma_visited_bound(vis1, u);
            assert(stk2 =~= stk1 + dn);
            assert(dfs_order(t, stk0, vis0) == dfs_order(t, stk2, vis1));
        }
    }
    proof {
        let vis = names_view(visited@);
        assert(names_view(stack@).len() == 0);
        assert forall|x: Seq<char>, d: Seq<char>| vis.contains(x) && depends_on(t, x, d) implies vis.contains(d) by {
            let i = choose|i: int| 0 <= i < vis.len() && vis[i] == x;
            assert(depends_on(t, vis[i], d));
            if names_view(stack@).contains(d) {
                let j = choose|j: int| 0 <= j < names_view(stack@).len() && names_view(stack@)[j] == d;
            }
        }
        if names_view(stack@).contains(rt) {
            let j = choose|j: int| 0 <= j < names_view(stack@).len() && names_view(stack@)[j] == rt;
        }
        assert(vis.contains(rt));
        assert forall|n: Seq<char>| reachable(t, rt, n) implies vis.contains(n) by {
            lemma_closed_holds_reachable(t, rt, vis, n);
        }
        assert forall|n: Seq<char>| vis.contains(n) implies reachable(t, rt, n) by {
            let i = choose|i: int| 0 <= i < vis.len() && vis[i] == n;
        }
        assert forall|n: Seq<char>| reachable(t, rt, n) implies has_task(t, n) by {
            lemma_closed_holds_reachable(t, rt, vis, n);
            let i = choose|i: int| 0 <= i < vis.len() && vis[i] == n;
        }
        let j = choose|j: int| 0 <= j < vis.len() && vis[j] == rt;
        assert(visited@.len() > 0);
    }
    Ok(visited)
}

// ---------------------------------------------------------------------------
// Run order
// ---------------------------------------------------------------------------

/// Every node of a path that starts at a needed task is needed.
proof fn lemma_path_reachable(tf: TaskfileView, root: Seq<char>, p: Seq<Seq<char>>, k: int)
    requires
        is_dep_path(tf, p),
        reachable(tf, root, p[0]),
        0 <= k < p.len(),
    ensures
        reachable(tf, root, p[k]),
    decreases k,
{
    if k > 0 {
        lemma_path_reachable(tf, root, p, k - 1);
        assert(depends_on(tf, p[k - 1], p[k]));
        lemma_reachable_step(tf, root, p[k - 1], p[k]);
    }
}

/// Along a dependency path the positions in a run order strictly decrease.
proof fn lemma_run_order_positions(tf: TaskfileView, root: Seq<char>, order: Seq<Seq<char>>, p: Seq<Seq<char>>, k: int)
    requires
        is_run_order(tf, root, order),
        is_dep_path(tf, p),
        reachable(tf, root, p[0]),
        1 <= k < p.len(),
    ensures
        exists|i: int, j: int| 0 <= j < i < order.len() && order[i] == p[0] && order[j] == p[k],
    decreases k,
{
    lemma_path_reachable(tf, root, p, k - 1);
    lemma_path_reachable(tf, root, p, k);
    assert(depends_on(tf, p[k - 1], p[k]));
    assert(order.contains(p[k - 1]));
    assert(order.contains(p[k]));
    let a = choose|a: int| 0 <= a < order.len() && order[a] == p[k - 1];
    let b = choose|b: int| 0 <= b < order.len() && order[b] == p[k];
    assert(deps_of(tf, order[a]).contains(order[b]));
    assert(b < a);
    if k > 1 {
        lemma_run_order_positions(tf, root, order, p, k - 1);
        let (i, j) = choose|i: int, j: int| 0 <= j < i < order.len() && order[i] == p[0] && order[j] == p[k - 1];
        assert(j == a) by {
            if j != a {
                assert(order[j] == order[a]);
            }
        }
        assert(0 <= b < i < order.len() && order[i] == p[0] && order[b] == p[k]);
    }
}

/// A run order leaves no needed task on a dependency cycle.
pub proof fn lemma_run_order_acyclic(tf: TaskfileView, root: Seq<char>, order: Seq<Seq<char>>)
    requires
        is_run_order(tf, root, order),
    ensures
        no_needed_cycle(tf, root),
{
    assert forall|n: Seq<char>| reachable(tf, root, n) implies !on_dep_cycle(tf, n) by {
        if on_dep_cycle(tf, n) {
            let p = choose|p: Seq<Seq<char>>| is_dep_path(tf, p) && p.len() >= 2 && p[0] == n && p.last() == n;
            lemma_run_order_positions(tf, root, order, p, p.len() - 1);
            let (i, j) = choose|i: int, j: int| 0 <= j < i < order.len() && order[i] == p[0] && order[j] == p[p.len() - 1];
            assert(order[i] == order[j]);
        }
    }
}

/// The edge from `a` to `b` of the dependency graph over `rv`: the task at
/// position `b` depends on the one at position `a`.
pub open spec fn dep_edge(tf: TaskfileView, rv: Seq<Seq<char>>, a: usize, b: usize) -> bool {
    &&& a < rv.len()
    &&& b < rv.len()
    &&& deps_of(tf, rv[b as int]).contains(rv[a as int])
}

pub open spec fn first_nodes(n: nat) -> Set<usize> {
    Set::new(|x: usize| x < n)
}

/// The nodes `0, 1, ..., n - 1`, in this order.
pub open spec fn node_range(n: nat) -> Seq<usize> {
    Seq::new(n, |i: int| i as usize)
}

/// `s` with the elements of `xs` added one after the other, each unless it is
/// there already.
pub open spec fn seq_add_all<A>(s: Seq<A>, xs: Seq<A>) -> Seq<A>
    decreases xs.len(),
{
    if xs.len() == 0 {
        s
    } else {
        seq_add(seq_add_all(s, xs.drop_last()), xs.last())
    }
}

/// The edges into the task at position `b` of `rv`: one from the position of
/// each of its dependencies, in the order of its `deps`.
pub open spec fn edges_into(tf: TaskfileView, rv: Seq<Seq<char>>, b: int) -> Seq<(usize, usize)> {
    deps_of(tf, rv[b]).map_values(|d: Seq<char>| (rv.index_of(d) as usize, b as usize))
}

/// The edges of the dependency graph over the first `b` tasks of `rv`, in the
/// order in which `topo_order` adds them.
pub open spec fn dep_graph_edges(tf: TaskfileView, rv: Seq<Seq<char>>, b: nat) -> Seq<(usize, usize)>
    decreases b,
{
    if b == 0 {
        Seq::empty()
    } else {
        seq_add_all(dep_graph_edges(tf, rv, (b - 1) as nat), edges_into(tf, rv, b - 1))
    }
}

/// Why no run order comes out for a root.
pub enum OrderFailure {
    /// A needed task of this name is not defined.
    Missing(Seq<char>),
    /// This needed task lies on a dependency cycle.
    Cycle(Seq<char>),
}

/// What `topo_order` gives for the root `root`: the tasks in the order of
/// `dfs_order`, then the order that `toposort` gives their dependency graph,
/// mapped back to names.
pub open spec fn topo_outcome(tf: TaskfileView, root: Seq<char>) -> Result<Seq<Seq<char>>, OrderFailure> {
    match dfs_order(tf, seq![root], Seq::empty()) {
        Err(n) => Err(OrderFailure::Missing(n)),
        Ok(rv) => match toposort_of(node_range(rv.len()), dep_graph_edges(tf, rv, rv.len())) {
            Ok(o) => Ok(o.map_values(|i: usize| rv[i as int])),
            Err(c) => Err(OrderFailure::Cycle(rv[c as int])),
        },
    }
}

/// `e` is the error that reports `f`.
pub open spec fn is_failure(e: RunError, f: OrderFailure) -> bool {
    match f {
        OrderFailure::Missing(n) => e matches RunError::TaskNotFound(m) && m@ == n,
        OrderFailure::Cycle(n) => e matches RunError::CycleDetected(m) && m@ == n,
    }
}

/// `r` is what `topo_outcome` describes.
pub open spec fn spec_topo_order(tf: TaskfileView, root: Seq<char>, r: Result<Vec<String>, RunError>) -> bool {
    match topo_outcome(tf, root) {
        Ok(o) => r matches Ok(v) && names_view(v@) == o,
        Err(f) => r matches Err(e) && is_failure(e, f),
    }
}

/// The names at the positions that a graph order lists, or, for the node of a
/// cycle, the cycle error for its name.
pub fn names_of_order(reach: &Vec<String>, res: Result<Vec<usize>, usize>) -> (r: Result<Vec<String>, RunError>)
    requires
        match res {
            Ok(o) => forall|k: int| 0 <= k < o@.len() ==> #[trigger] o@[k] < reach@.len(),
            Err(c) => c < reach@.len(),
        },
    ensures
        match res {
            Ok(o) => r matches Ok(v) && names_view(v@) == o@.map_values(|i: usize| names_view(reach@)[i as int]),
            Err(c) => r matches Err(RunError::CycleDetected(m)) && m@ == reach@[c as int]@,
        },
{
    match res {
        Err(c) => Err(RunError::CycleDetected(reach[c].clone())),
        Ok(order) => {
            let ghost o = order@;
            let ghost rv = names_view(reach@);
            let mut out: Vec<String> = Vec::new();
            let mut k: usize = 0;
            while k < order.len()
                invariant
                    k <= order.len(),
                    o == order@,
                    rv == names_view(reach@),
                    forall|m: int| 0 <= m < o.len() ==> #[trigger] o[m] < reach@.len(),
                    out@.len() == k,
                    forall|m: int| 0 <= m < k ==> #[trigger] names_view(out@)[m] == rv[o[m] as int],
                decreases order.len() - k,
            {
                let s = reach[order[k]].clone();
                proof {
                    lemma_names_push(out@, s);
                }
                out.push(s);
                assert forall|m: int| 0 <= m < k + 1 implies #[trigger] names_view(out@)[m] == rv[o[m] as int] by {
                    if m < k {
                        assert(names_view(out@)[m] == names_view(out@).drop_last()[m]);
                    }
                }
                k = k + 1;
            }
            assert(names_view(out@) =~= o.map_values(|i: usize| rv[i as int]));
            Ok(out)
        },
    }
}

/// A cycle of the position graph is a dependency cycle of the names.
#[verifier::rlimit(40)]
proof fn lemma_graph_cycle_is_dep_cycle(tf: TaskfileView, rv: Seq<Seq<char>>, e: Set<(usize, usize)>, c: usize)
    requires
        forall|a: usize, b: usize| #[trigger] e.contains((a, b)) ==> dep_edge(tf, rv, a, b),
        forall|i: int| 0 <= i < rv.len() ==> has_task(tf, #[trigger] rv[i]),
        on_edge_cycle(e, c),
    ensures
        c < rv.len(),
        on_dep_cycle(tf, rv[c as int]),
{
    let q = choose|q: Seq<usize>| is_edge_path(e, q) && q[0] == c && q.last() == c;
    assert(e.contains((q[0], q[1])));
    let n = q.len();
    let p = Seq::new(n, |t: int| rv[q[n - 1 - t] as int]);
    assert forall|t: int| 0 <= t < p.len() - 1 implies depends_on(tf, #[trigger] p[t], p[t + 1]) by {
        let s = n - 2 - t;
        assert(q[s] == q[s]);
        assert(e.contains((q[s], q[s + 1])));
        let a = q[s];
        let b = q[s + 1];
        assert(dep_edge(tf, rv, a, b));
        assert(has_task(tf, rv[b as int]));
        assert(p[t] == rv[b as int]);
        assert(p[t + 1] == rv[a as int]);
    }
    assert(is_dep_path(tf, p));
    assert(p[0] == rv[c as int]);
    assert(p.last() == rv[c as int]);
}

/// An order in which to run the tasks that `root` needs: every dependency runs
/// before the tasks that depend on it.  Fails when a needed task is not
/// defined, or when the needed tasks depend on each other in a cycle.
pub fn topo_order(tf: &Taskfile, root: &str) -> (r: Result<Vec<String>, RunError>)
    ensures
        r is Ok <==> all_needed_defined(tf@, root@) && no_needed_cycle(tf@, root@),
        r matches Ok(v) ==> is_run_order(tf@, root@, names_view(v@)),
        r matches Err(e) ==> match e {
            RunError::TaskNotFound(n) => reachable(tf@, root@, n@) && !has_task(tf@, n@),
            RunError::CycleDetected(n) => reachable(tf@, root@, n@) && on_dep_cycle(tf@, n@),
            _ => false,
        },
        spec_topo_order(tf@, root@, r),
{
    let ghost t = tf@;
    let reach = match collect_dep_reachable(tf, root) {
        Ok(v) => v,
        Err(e) => return Err(e),
    };
    let n = reach.len();
    let ghost rv = names_view(reach@);
    proof {
        assert forall|i: int| 0 <= i < rv.len() implies has_task(t, #[trigger] rv[i]) && reachable(t, root@, rv[i]) by {
            assert(rv.contains(rv[i]));
        }
    }
    let mut graph = graph_new();
    let mut i: usize = 0;
    assert(graph_nodes(graph) =~= node_range(0));
    while i < n
        invariant
            i <= n,
            n == reach@.len(),
            graph_nodes(graph) == node_range(i as nat),
            graph_edges(graph) == Seq::<(usize, usize)>::empty(),
        decreases n - i,
    {
        assert(!node_range(i as nat).contains(i)) by {
            if node_range(i as nat).contains(i) {
                let j = choose|j: int| 0 <= j < i && node_range(i as nat)[j] == i;
            }
        }
        graph_add_node(&mut graph, i);
        assert(graph_nodes(graph) =~= node_range((i + 1) as nat));
        i = i + 1;
    }
    let mut i: usize = 0;
    while i < n
        invariant
            i <= n,
            t == tf@,
            n == reach@.len(),
            rv == names_view(reach@),
            rv.no_duplicates(),
            forall|j: int| 0 <= j < rv.len() ==> has_task(t, #[trigger] rv[j]) && reachable(t, root@, rv[j]),
            forall|x: Seq<char>| rv.contains(x) <==> reachable(t, root@, x),
            graph_nodes(graph) == node_range(n as nat),
            graph_edges(graph) == dep_graph_edges(t, rv, i as nat),
            forall|a: usize, b: usize| #[trigger] graph_edges(graph).to_set().contains((a, b)) <==> dep_edge(t, rv, a, b) && b < i,
        decreases n - i,
    {
        let name = reach[i].as_str();
        assert(rv[i as int] == name@);
        let task = match get_task(tf, name) {
            Some(task) => task,
            None => {
                assert(false);
                return Err(RunError::TaskNotFound(String::from_str(name)));
            },
        };
        let ghost dn = deps_of(t, rv[i as int]);
        let ghost ein = edges_into(t, rv, i as int);
        let ghost g0 = dep_graph_edges(t, rv, i as nat);
        assert(dep_graph_edges(t, rv, (i + 1) as nat) == seq_add_all(g0, ein));
        match &task.deps {
            None => {
                assert(dn =~= Seq::<Seq<char>>::empty());
                assert(ein =~= Seq::<(usize, usize)>::empty());
                assert forall|a: usize, b: usize| #[trigger] graph_edges(graph).to_set().contains((a, b))
                    <==> dep_edge(t, rv, a, b) && b < i + 1 by {
                    if b == i && dep_edge(t, rv, a, b) {
                        assert(dn.contains(rv[a as int]));
                    }
                }
            },
            Some(deps) => {
                assert(dn == deps@.map_values(|d: Dep| d@).map_values(|d: crate::schema::DepView| crate::schema::dep_name_view(d)));
                let mut k: usize = 0;
                assert(dn.take(0) =~= Seq::<Seq<char>>::empty());
                assert(ein.take(0) =~= Seq::<(usize, usize)>::empty());
                while k < deps.len()
                    invariant
                        i < n,
                        k <= deps.len(),
                        t == tf@,
                        n == reach@.len(),
                        rv == names_view(reach@),
                        rv.no_duplicates(),
                        forall|j: int| 0 <= j < rv.len() ==> has_task(t, #[trigger] rv[j]) && reachable(t, root@, rv[j]),
                        forall|x: Seq<char>| rv.contains(x) <==> reachable(t, root@, x),
                        dn == deps_of(t, rv[i as int]),
                        dn == deps@.map_values(|d: Dep| d@).map_values(|d: crate::schema::DepView| crate::schema::dep_name_view(d)),
                        ein == edges_into(t, rv, i as int),
                        graph_nodes(graph) == node_range(n as nat),
                        graph_edges(graph) == seq_add_all(g0, ein.take(k as int)),
                        forall|a: usize, b: usize| #[trigger] graph_edges(graph).to_set().contains((a, b)) <==>
                            (dep_edge(t, rv, a, b) && b < i) || (b == i && a < n && dn.take(k as int).contains(rv[a as int])),
                    decreases deps.len() - k,
                {
                    let dname = dep_task_name(&deps[k]);
                    assert(dn[k as int] == dname@);
                    assert(dn.contains(dname@));
                    proof {
                        assert(depends_on(t, rv[i as int], dname@));
                        lemma_reachable_step(t, root@, rv[i as int], dname@);
                    }
                    let j = position_of_name(&reach, dname);
                    assert(rv[j as int] == dname@);
                    assert(ein[k as int] == (j, i)) by {
                        assert(rv.contains(dname@));
                        let x = rv.index_of(dname@);
                        assert(rv[x] == dname@);
                        assert(x == j as int);
                    }
                    let ghost e0 = graph_edges(graph);
                    graph_add_edge(&mut graph, j, i);
                    proof {
                        lemma_seq_add_to_set(e0, (j, i));
                        assert(node_range(n as nat)[j as int] == j);
                        assert(node_range(n as nat)[i as int] == i);
                        assert(ein.take(k + 1).drop_last() =~= ein.take(k as int));
                    }
                    assert(graph_nodes(graph) =~= node_range(n as nat));
                    assert(graph_edges(graph) == seq_add_all(g0, ein.take(k + 1)));
                    assert forall|a: usize, b: usize| #[trigger] graph_edges(graph).to_set().contains((a, b)) <==>
                        (dep_edge(t, rv, a, b) && b < i) || (b == i && a < n && dn.take(k + 1).contains(rv[a as int])) by {
                        assert(dn.take(k + 1) == dn.take(k as int).push(dname@));
                        assert(graph_edges(graph).to_set().contains((a, b)) <==> (e0.to_set().contains((a, b)) || (a, b) == (j, i)));
                        if a < n {
                            lemma_contains_push(dn.take(k as int), dname@, rv[a as int]);
                            if rv[a as int] == dname@ {
                                assert(a == j);
                            }
                        }
                    }
                    k = k + 1;
                }
                assert(dn.take(deps.len() as int) =~= dn);
                assert(ein.take(deps.len() as int) =~= ein);
                assert forall|a: usize, b: usize| #[trigger] graph_edges(graph).to_set().contains((a, b))
                    <==> dep_edge(t, rv, a, b) && b < i + 1 by {}
            },
        }
        i = i + 1;
    }
    let ghost e = graph_edges(graph).to_set();
    proof {
        assert(graph_nodes(graph).to_set() =~= first_nodes(n as nat)) by {
            assert forall|x: usize| x < n implies graph_nodes(graph).contains(x) by {
                assert(graph_nodes(graph)[x as int] == x);
            }
        }
    }
    let res = graph_toposort(&graph);
    let ghost gres = res;
    proof {
        match gres {
            Err(c) => {
                lemma_graph_cycle_is_dep_cycle(t, rv, e, c);
            },
            Ok(order) => {
                assert forall|k: int| 0 <= k < order@.len() implies #[trigger] order@[k] < reach@.len() by {
                    assert(order@.to_set().contains(order@[k]));
                }
            },
        }
    }
    let r = names_of_order(&reach, res);
    proof {
        match gres {
            Err(c) => {
                lemma_graph_cycle_is_dep_cycle(t, rv, e, c);
                assert(rv.contains(rv[c as int]));
            },
            Ok(order) => {
                let o = order@;
                let ov = o.map_values(|i: usize| rv[i as int]);
                assert(r matches Ok(v) && names_view(v@) == ov);
                lemma_order_is_run_order(t, root@, rv, e, o, ov);
                lemma_run_order_acyclic(t, root@, ov);
            },
        }
    }
    r
}

/// Mapping a topological order of positions back to names gives a run order.
proof fn lemma_order_is_run_order(
    tf: TaskfileView,
    root: Seq<char>,
    rv: Seq<Seq<char>>,
    e: Set<(usize, usize)>,
    o: Seq<usize>,
    ov: Seq<Seq<char>>,
)
    requires
        rv.len() <= usize::MAX,
        rv.no_duplicates(),
        forall|n: Seq<char>| rv.contains(n) <==> reachable(tf, root, n),
        forall|a: usize, b: usize| #[trigger] e.contains((a, b)) <==> dep_edge(tf, rv, a, b),
        is_topological_order(first_nodes(rv.len()), e, o),
        ov.len() == o.len(),
        forall|m: int| 0 <= m < o.len() ==> #[trigger] ov[m] == rv[o[m] as int],
    ensures
        is_run_order(tf, root, ov),
{
    assert forall|m: int| 0 <= m < o.len() implies (#[trigger] o[m]) < rv.len() by {
        assert(o.to_set().contains(o[m]));
    }
    assert(ov.no_duplicates()) by {
        assert forall|i: int, j: int| 0 <= i < ov.len() && 0 <= j < ov.len() && i != j implies ov[i] != ov[j] by {
            assert(o[i] != o[j]);
        }
    }
    assert forall|x: Seq<char>| ov.contains(x) <==> reachable(tf, root, x) by {
        if ov.contains(x) {
            let m = choose|m: int| 0 <= m < ov.len() && ov[m] == x;
            assert(rv.contains(rv[o[m] as int]));
        }
        if reachable(tf, root, x) {
            assert(rv.contains(x));
            let a = choose|a: int| 0 <= a < rv.len() && rv[a] == x;
            assert(first_nodes(rv.len()).contains(a as usize));
            assert(o.to_set().contains(a as usize));
            let m = choose|m: int| 0 <= m < o.len() && o[m] == a as usize;
            assert(ov[m] == x);
        }
    }
    assert forall|i: int, j: int|
        0 <= i < ov.len() && 0 <= j < ov.len() && #[trigger] deps_of(tf, ov[j]).contains(#[trigger] ov[i]) implies i < j by {
        assert(dep_edge(tf, rv, o[i], o[j]));
        assert(e.contains((o[i], o[j])));
        let (p, q) = choose|p: int, q: int| 0 <= p < q < o.len() && o[p] == o[i] && o[q] == o[j];
        assert(p == i);
        assert(q == j);
    }
}

} // verus!
