use vstd::prelude::*;

use crate::common::texts;
use crate::errors::TaskError;
use crate::graph::{
    add_edge, add_node, graph_edges, graph_nodes, is_topological_order, new_graph, toposort,
};
use crate::tasks::{extended_task, task_deps, Task, TaskView};
use crate::text::{concat, text_eq};
use petgraph::graphmap::DiGraphMap;

verus! {

/// The operating system whose task variants are preferred.
#[derive(Clone, Copy, PartialEq, Eq, Debug)]
pub enum Os {
    Linux,
    Windows,
    MacOS,
    Unspecified,
}

/// The suffix that names a task's variant for `os`.
pub open spec fn os_suffix(os: Os) -> Option<Seq<char>> {
    match os {
        Os::Linux => Some("linux"@),
        Os::Windows => Some("windows"@),
        Os::MacOS => Some("macos"@),
        Os::Unspecified => None,
    }
}

/// Name of the variant of task `name` for `os`: `<name>.<os>`.
pub open spec fn os_task_name(name: Seq<char>, os: Os) -> Option<Seq<char>> {
    match os_suffix(os) {
        Some(s) => Some(name + "."@ + s),
        None => None,
    }
}

/// Name of the variant of task `task_name` for `os`.
pub fn to_os_task_name(task_name: &str, os: Os) -> (r: Option<String>)
    ensures
        r matches Some(s) ==> os_task_name(task_name@, os) == Some(s@),
        r is None ==> os_task_name(task_name@, os) is None,
{
    let suffix = match os {
        Os::Linux => "linux",
        Os::Windows => "windows",
        Os::MacOS => "macos",
        Os::Unspecified => {
            return None;
        },
    };
    let mut s = String::from_str(task_name);
    s.append(".");
    s.append(suffix);
    Some(s)
}

/// No two tasks have the same name.
pub open spec fn names_unique(views: Seq<TaskView>) -> bool {
    forall|i: int, j: int| 0 <= i < j < views.len() ==> views[i].name != views[j].name
}

/// Some task is named `name`.
pub open spec fn has_name(views: Seq<TaskView>, name: Seq<char>) -> bool {
    exists|i: int| 0 <= i < views.len() && views[i].name == name
}

/// Index of the task named `name`.
pub open spec fn index_of(views: Seq<TaskView>, name: Seq<char>) -> int {
    choose|i: int| 0 <= i < views.len() && views[i].name == name
}

/// The task that a dependency named `d` stands for: the variant for `os`
/// if there is one, else the task named `d`.
pub open spec fn dep_target(views: Seq<TaskView>, d: Seq<char>, os: Os) -> Option<int> {
    match os_task_name(d, os) {
        Some(n) if has_name(views, n) => Some(index_of(views, n)),
        _ => if has_name(views, d) {
            Some(index_of(views, d))
        } else {
            None
        },
    }
}

/// Every dependency of every task stands for some task.
pub open spec fn all_deps_exist(views: Seq<TaskView>, os: Os) -> bool {
    forall|i: int, k: int|
        0 <= i < views.len() && 0 <= k < task_deps(views[i]).len() ==> (#[trigger] dep_target(
            views,
            task_deps(views[i])[k],
            os,
        )) is Some
}

/// The nodes of the dependency graph: one per task.
pub open spec fn task_nodes(n: int) -> Set<u64> {
    Set::new(|x: u64| x < n)
}

/// The edges of the dependency graph: from each task to each task its
/// dependencies stand for.
pub open spec fn dependency_edges(views: Seq<TaskView>, os: Os) -> Set<(u64, u64)> {
    Set::new(
        |e: (u64, u64)|
            exists|i: int, k: int|
                0 <= i < views.len() && 0 <= k < task_deps(views[i]).len() && #[trigger] dep_edge(
                    views,
                    os,
                    i,
                    k,
                ) == Some(e),
    )
}

/// The edge for the `k`-th dependency of task `i`.
pub open spec fn dep_edge(views: Seq<TaskView>, os: Os, i: int, k: int) -> Option<(u64, u64)> {
    match dep_target(views, task_deps(views[i])[k], os) {
        Some(j) => Some((i as u64, j as u64)),
        None => None,
    }
}

/// The tasks' dependencies can be ordered so that each task comes before
/// the tasks it depends on, that is, they hold no cycle.
pub open spec fn acyclic(views: Seq<TaskView>, os: Os) -> bool {
    exists|o: Seq<u64>| is_topological_order(o, task_nodes(views.len() as int), dependency_edges(views, os))
}

/// The tasks that the bases of task `i` stand for, in declared order.
pub open spec fn base_targets(views: Seq<TaskView>, i: int, os: Os) -> Seq<int> {
    views[i].common.extend.map_values(|d: Seq<char>| dep_target(views, d, os)->Some_0)
}

/// Task `t` after inheriting, in order, from each task of `res` that
/// `bases` points at.
pub open spec fn fold_extend(t: TaskView, bases: Seq<int>, res: Seq<TaskView>) -> TaskView
    decreases bases.len(),
{
    if bases.len() == 0 {
        t
    } else {
        extended_task(fold_extend(t, bases.drop_last(), res), res[bases.last()])
    }
}

/// `res` is the result of resolving inheritance among `orig`: each task has
/// inherited, in declared order, from the resolved tasks its bases stand for.
pub open spec fn is_resolution(orig: Seq<TaskView>, res: Seq<TaskView>, os: Os) -> bool {
    &&& res.len() == orig.len()
    &&& forall|i: int|
        0 <= i < orig.len() ==> #[trigger] res[i] == fold_extend(orig[i], base_targets(orig, i, os), res)
}

/// Message for a dependency that stands for no task.
pub open spec fn missing_dep_text(task: Seq<char>, dep: Seq<char>) -> Seq<char> {
    "Task "@ + task + " cannot inherit from non-existing task "@ + dep
}

/// Message for a task on a cycle of dependencies.
pub open spec fn task_cycle_text(task: Seq<char>) -> Seq<char> {
    "Found a cyclic dependency for task: "@ + task
}

pub open spec fn task_views(v: Seq<Task>) -> Seq<TaskView> {
    v.map_values(|t: Task| t@)
}

proof fn lemma_fold_extend_congruent(t: TaskView, bases: Seq<int>, a: Seq<TaskView>, b: Seq<TaskView>)
    requires
        forall|j: int| 0 <= j < bases.len() ==> a[bases[j]] == b[bases[j]],
    ensures
        fold_extend(t, bases, a) == fold_extend(t, bases, b),
    decreases bases.len(),
{
    if bases.len() > 0 {
        lemma_fold_extend_congruent(t, bases.drop_last(), a, b);
        assert(a[bases.last()] == b[bases[bases.len() - 1]]);
    }
}

/// Index of the task named `name`, if there is one.
pub fn find_task(tasks: &Vec<Task>, name: &str) -> (r: Option<usize>)
    requires
        names_unique(task_views(tasks@)),
    ensures
        r is None <==> !has_name(task_views(tasks@), name@),
        r matches Some(i) ==> i < tasks@.len() && i == index_of(task_views(tasks@), name@),
{
    let ghost views = task_views(tasks@);
    let mut i: usize = 0;
    while i < tasks.len()
        invariant
            i <= tasks@.len(),
            views == task_views(tasks@),
            names_unique(views),
            forall|j: int| 0 <= j < i ==> views[j].name != name@,
        decreases tasks@.len() - i,
    {
        if text_eq(tasks[i].name.as_str(), name) {
            proof {
                assert(views[i as int].name == name@);
                let c = index_of(views, name@);
                assert(c == i);
            }
            return Some(i);
        }
        i = i + 1;
    }
    None
}

/// The task that dependency `d` stands for; see `dep_target`.
pub fn find_dep_target(tasks: &Vec<Task>, d: &str, os: Os) -> (r: Option<usize>)
    requires
        names_unique(task_views(tasks@)),
    ensures
        r matches Some(i) ==> dep_target(task_views(tasks@), d@, os) == Some(i as int) && i < tasks@.len(),
        r is None ==> dep_target(task_views(tasks@), d@, os) is None,
{
    if let Some(os_name) = to_os_task_name(d, os) {
        if let Some(i) = find_task(tasks, os_name.as_str()) {
            return Some(i);
        }
    }
    find_task(tasks, d)
}


/// Edges of the dependencies that come before the `kk`-th dependency of task `i`.
pub open spec fn edges_before(views: Seq<TaskView>, os: Os, i: int, kk: int) -> Set<(u64, u64)> {
    Set::new(
        |e: (u64, u64)|
            exists|a: int, k: int|
                0 <= a < views.len() && 0 <= k < task_deps(views[a]).len() && (a < i || (a == i && k
                    < kk)) && #[trigger] dep_edge(views, os, a, k) == Some(e),
    )
}

proof fn lemma_edges_step(views: Seq<TaskView>, os: Os, i: int, kk: int)
    requires
        0 <= i < views.len(),
        0 <= kk < task_deps(views[i]).len(),
        dep_edge(views, os, i, kk) is Some,
    ensures
        edges_before(views, os, i, kk + 1) == edges_before(views, os, i, kk).insert(
            dep_edge(views, os, i, kk)->Some_0,
        ),
{
    let a = edges_before(views, os, i, kk + 1);
    let b = edges_before(views, os, i, kk).insert(dep_edge(views, os, i, kk)->Some_0);
    assert forall|e: (u64, u64)| a.contains(e) implies b.contains(e) by {
        let (x, k) = choose|x: int, k: int|
            0 <= x < views.len() && 0 <= k < task_deps(views[x]).len() && (x < i || (x == i && k
                < kk + 1)) && #[trigger] dep_edge(views, os, x, k) == Some(e);
        if !(x == i && k == kk) {
            assert(edges_before(views, os, i, kk).contains(e));
        }
    }
    assert forall|e: (u64, u64)| b.contains(e) implies a.contains(e) by {
        if e == dep_edge(views, os, i, kk)->Some_0 {
            assert(dep_edge(views, os, i, kk) == Some(e));
        } else {
            let (x, k) = choose|x: int, k: int|
                0 <= x < views.len() && 0 <= k < task_deps(views[x]).len() && (x < i || (x == i
                    && k < kk)) && #[trigger] dep_edge(views, os, x, k) == Some(e);
            assert(dep_edge(views, os, x, k) == Some(e));
        }
    }
    assert(a =~= b);
}

proof fn lemma_edges_next_task(views: Seq<TaskView>, os: Os, i: int)
    requires
        0 <= i < views.len(),
    ensures
        edges_before(views, os, i, task_deps(views[i]).len() as int) == edges_before(views, os, i + 1, 0),
{
    let a = edges_before(views, os, i, task_deps(views[i]).len() as int);
    let b = edges_before(views, os, i + 1, 0);
    assert forall|e: (u64, u64)| a.contains(e) <==> b.contains(e) by {
        if a.contains(e) {
            let (x, k) = choose|x: int, k: int|
                0 <= x < views.len() && 0 <= k < task_deps(views[x]).len() && (x < i || (x == i && k
                    < task_deps(views[i]).len())) && #[trigger] dep_edge(views, os, x, k) == Some(e);
            assert(dep_edge(views, os, x, k) == Some(e));
        }
        if b.contains(e) {
            let (x, k) = choose|x: int, k: int|
                0 <= x < views.len() && 0 <= k < task_deps(views[x]).len() && (x < i + 1 || (x == i
                    + 1 && k < 0)) && #[trigger] dep_edge(views, os, x, k) == Some(e);
            assert(dep_edge(views, os, x, k) == Some(e));
        }
    }
    assert(a =~= b);
}

proof fn lemma_edges_all(views: Seq<TaskView>, os: Os)
    ensures
        edges_before(views, os, views.len() as int, 0) == dependency_edges(views, os),
{
    let a = edges_before(views, os, views.len() as int, 0);
    let b = dependency_edges(views, os);
    assert forall|e: (u64, u64)| a.contains(e) <==> b.contains(e) by {
        if a.contains(e) {
            let (x, k) = choose|x: int, k: int|
                0 <= x < views.len() && 0 <= k < task_deps(views[x]).len() && (x < views.len() || (x
                    == views.len() && k < 0)) && #[trigger] dep_edge(views, os, x, k) == Some(e);
            assert(dep_edge(views, os, x, k) == Some(e));
        }
        if b.contains(e) {
            let (x, k) = choose|x: int, k: int|
                0 <= x < views.len() && 0 <= k < task_deps(views[x]).len() && #[trigger] dep_edge(
                    views,
                    os,
                    x,
                    k,
                ) == Some(e);
            assert(dep_edge(views, os, x, k) == Some(e));
        }
    }
    assert(a =~= b);
}

/// Builds the dependency graph of the tasks: a node for each task, and an
/// edge from each task to each task that its dependencies stand for. Also
/// returns, for each task, the tasks its bases stand for.
pub fn get_task_dependency_graph(tasks: &Vec<Task>, os: Os) -> (r: Result<
    (DiGraphMap<u64, ()>, Vec<Vec<usize>>),
    TaskError,
>)
    requires
        names_unique(task_views(tasks@)),
    ensures
        r is Ok <==> all_deps_exist(task_views(tasks@), os),
        r matches Ok((g, b)) ==> {
            &&& graph_nodes(g) == task_nodes(tasks@.len() as int)
            &&& graph_edges(g) == dependency_edges(task_views(tasks@), os)
            &&& b@.len() == tasks@.len()
            &&& forall|i: int|
                0 <= i < tasks@.len() ==> #[trigger] b@[i]@.len() == base_targets(task_views(tasks@), i, os).len()
                    && forall|j: int|
                    0 <= j < b@[i]@.len() ==> b@[i]@[j] as int == base_targets(task_views(tasks@), i, os)[j]
        },
        r matches Err(e) ==> exists|i: int, k: int|
            0 <= i < tasks@.len() && 0 <= k < task_deps(tasks@[i]@).len() && dep_target(
                task_views(tasks@),
                task_deps(tasks@[i]@)[k],
                os,
            ) is None && e == TaskError::ConfigError(e->ConfigError_0) && e->ConfigError_0@
                == missing_dep_text(tasks@[i].name@, task_deps(tasks@[i]@)[k]),
{
    let ghost views = task_views(tasks@);
    let n = tasks.len();
    let mut g = new_graph();
    let mut i: usize = 0;
    while i < n
        invariant
            n == tasks@.len(),
            i <= n,
            graph_nodes(g) == Set::new(|x: u64| x < i),
            graph_edges(g) == Set::<(u64, u64)>::empty(),
        decreases n - i,
    {
        add_node(&mut g, i as u64);
        proof {
            assert(graph_nodes(g) =~= Set::new(|x: u64| x < i + 1));
        }
        i = i + 1;
    }
    proof {
        assert(graph_nodes(g) =~= task_nodes(n as int));
        assert(edges_before(views, os, 0, 0) =~= Set::<(u64, u64)>::empty());
    }
    let mut bases: Vec<Vec<usize>> = Vec::new();
    i = 0;
    while i < n
        invariant
            n == tasks@.len(),
            views == task_views(tasks@),
            names_unique(views),
            i <= n,
            graph_nodes(g) == task_nodes(n as int),
            graph_edges(g) == edges_before(views, os, i as int, 0),
            bases@.len() == i,
            forall|a: int, k: int|
                0 <= a < i && 0 <= k < task_deps(views[a]).len() ==> (#[trigger] dep_target(
                    views,
                    task_deps(views[a])[k],
                    os,
                )) is Some,
            forall|a: int|
                0 <= a < i ==> #[trigger] bases@[a]@.len() == base_targets(views, a, os).len() && forall|j: int|
                    0 <= j < bases@[a]@.len() ==> bases@[a]@[j] as int == base_targets(views, a, os)[j],
        decreases n - i,
    {
        let deps = tasks[i].get_dependencies();
        let n_bases = tasks[i].common.extend.iter().len();
        let ghost d = task_deps(views[i as int]);
        assert(views[i as int] == tasks@[i as int]@);
        assert(n_bases <= deps@.len()) by {
            assert(texts(deps@).len() == deps@.len());
        }
        let mut b: Vec<usize> = Vec::new();
        let mut k: usize = 0;
        while k < deps.len()
            invariant
                n == tasks@.len(),
                views == task_views(tasks@),
                names_unique(views),
                i < n,
                d == task_deps(views[i as int]),
                texts(deps@) == d,
                n_bases == views[i as int].common.extend.len(),
                n_bases <= deps@.len(),
                k <= deps@.len(),
                graph_nodes(g) == task_nodes(n as int),
                graph_edges(g) == edges_before(views, os, i as int, k as int),
                b@.len() == if k < n_bases { k as int } else { n_bases as int },
                forall|j: int| 0 <= j < b@.len() ==> b@[j] as int == base_targets(views, i as int, os)[j],
                forall|j: int| 0 <= j < k ==> (#[trigger] dep_target(views, d[j], os)) is Some,
            decreases deps@.len() - k,
        {
            assert(deps@[k as int]@ == d[k as int]);
            match find_dep_target(tasks, deps[k].as_str(), os) {
                Some(j) => {
                    proof {
                        lemma_edges_step(views, os, i as int, k as int);
                        assert(dep_edge(views, os, i as int, k as int) == Some((i as u64, j as u64)));
                    }
                    add_edge(&mut g, i as u64, j as u64);
                    proof {
                        assert(graph_nodes(g) =~= task_nodes(n as int));
                    }
                    if k < n_bases {
                        proof {
                            assert(d[k as int] == views[i as int].common.extend[k as int]);
                        }
                        b.push(j);
                    }
                },
                None => {
                    let msg = concat("Task ", tasks[i].name.as_str());
                    let msg = concat(msg.as_str(), " cannot inherit from non-existing task ");
                    let msg = concat(msg.as_str(), deps[k].as_str());
                    return Err(TaskError::ConfigError(msg));
                },
            }
            k = k + 1;
        }
        proof {
            lemma_edges_next_task(views, os, i as int);
        }
        bases.push(b);
        i = i + 1;
    }
    proof {
        lemma_edges_all(views, os);
    }
    Ok((g, bases))
}


/// Resolves inheritance among the tasks: each task inherits, in declared
/// order, from the resolved tasks its bases stand for. Fails when a
/// dependency stands for no task, or when dependencies form a cycle.
pub fn resolve_task_inheritance(tasks: Vec<Task>, os: Os) -> (r: Result<Vec<Task>, TaskError>)
    requires
        names_unique(task_views(tasks@)),
        forall|i: int| 0 <= i < tasks@.len() ==> (#[trigger] tasks@[i]).common.wf(),
    ensures
        !all_deps_exist(task_views(tasks@), os) ==> (r matches Err(TaskError::ConfigError(m)) && exists|i: int, k: int|
            0 <= i < tasks@.len() && 0 <= k < task_deps(tasks@[i]@).len() && dep_target(
                task_views(tasks@),
                task_deps(tasks@[i]@)[k],
                os,
            ) is None && m@ == missing_dep_text(tasks@[i].name@, task_deps(tasks@[i]@)[k])),
        all_deps_exist(task_views(tasks@), os) && !acyclic(task_views(tasks@), os) ==> (r matches Err(
            TaskError::ConfigError(m),
        ) && exists|i: int| 0 <= i < tasks@.len() && m@ == task_cycle_text(tasks@[i].name@)),
        all_deps_exist(task_views(tasks@), os) && acyclic(task_views(tasks@), os) ==> (r matches Ok(res)
            && is_resolution(task_views(tasks@), task_views(res@), os)
            && names_unique(task_views(res@))
            && forall|i: int| 0 <= i < res@.len() ==> (#[trigger] res@[i]).common.wf()),
{
    let ghost orig = task_views(tasks@);
    let n = tasks.len();
    let (g, bases) = match get_task_dependency_graph(&tasks, os) {
        Ok(gb) => gb,
        Err(e) => {
            return Err(e);
        },
    };
    let order = match toposort(&g) {
        Ok(o) => o,
        Err(x) => {
            proof {
                assert(graph_nodes(g).contains(x));
                assert(!acyclic(orig, os));
            }
            let msg = concat("Found a cyclic dependency for task: ", tasks[x as usize].name.as_str());
            return Err(TaskError::ConfigError(msg));
        },
    };
    proof {
        assert(acyclic(orig, os));
        assert forall|p: u64| p < n implies order@.contains(p) by {
            assert(task_nodes(n as int).contains(p));
            assert(order@.to_set().contains(p));
        }
        assert(order@.len() == n) by {
            order@.unique_seq_to_set();
            assert(task_nodes(n as int) =~= Set::new(|x: u64| x < n));
            lemma_nodes_len(n as nat);
        }
        assert forall|p: int| 0 <= p < n implies #[trigger] order@[p] < n by {
            assert(order@.to_set().contains(order@[p]));
        }
    }
    let mut cur = tasks;
    let mut q = order.len();
    while q > 0
        invariant
            n == cur@.len(),
            order@.len() == n,
            forall|p: int| 0 <= p < n ==> #[trigger] order@[p] < n,
            q <= n,
            orig.len() == n,
            is_topological_order(order@, task_nodes(n as int), dependency_edges(orig, os)),
            bases@.len() == n,
            forall|i: int|
                0 <= i < n ==> #[trigger] bases@[i]@.len() == base_targets(orig, i, os).len() && forall|j: int|
                    0 <= j < bases@[i]@.len() ==> bases@[i]@[j] as int == base_targets(orig, i, os)[j],
            all_deps_exist(orig, os),
            forall|i: int| 0 <= i < n ==> (#[trigger] cur@[i]).common.wf(),
            forall|p: int| 0 <= p < q ==> #[trigger] cur@[order@[p] as int]@ == orig[order@[p] as int],
            forall|p: int|
                q <= p < n ==> #[trigger] cur@[order@[p] as int]@ == fold_extend(
                    orig[order@[p] as int],
                    base_targets(orig, order@[p] as int, os),
                    task_views(cur@),
                ),
        decreases q,
    {
        q = q - 1;
        let node = order[q] as usize;
        proof {
            assert(task_nodes(n as int).contains(order@[q as int]));
        }
        let mut t = cur[node].duplicate();
        let b = &bases[node];
        let ghost bt = base_targets(orig, node as int, os);
        let ghost before = task_views(cur@);
        // Every base comes after the node in the order, so it is resolved.
        assert forall|j: int| 0 <= j < bt.len() implies 0 <= #[trigger] bt[j] < n && bt[j] != node by {
            let d = orig[node as int].common.extend[j];
            assert(task_deps(orig[node as int])[j] == d);
            assert(dep_target(orig, task_deps(orig[node as int])[j], os) is Some);
            let tgt = dep_target(orig, d, os)->Some_0;
            assert(0 <= tgt < n);
            assert(dep_edge(orig, os, node as int, j) == Some((node as u64, tgt as u64)));
            assert(dependency_edges(orig, os).contains((node as u64, tgt as u64)));
            if tgt == node {
                assert(dependency_edges(orig, os).contains((order@[q as int], order@[q as int])));
            }
        }
        let mut j: usize = 0;
        while j < b.len()
            invariant
                n == cur@.len(),
                node < n,
                b@.len() == bt.len(),
                forall|x: int| 0 <= x < b@.len() ==> b@[x] as int == bt[x],
                forall|x: int| 0 <= x < bt.len() ==> 0 <= #[trigger] bt[x] < n,
                forall|i: int| 0 <= i < n ==> (#[trigger] cur@[i]).common.wf(),
                t.common.wf(),
                before == task_views(cur@),
                j <= b@.len(),
                t@ == fold_extend(orig[node as int], bt.subrange(0, j as int), before),
            decreases b@.len() - j,
        {
            let base = b[j];
            assert(b@[j as int] as int == bt[j as int]);
            assert(0 <= bt[j as int] < n);
            assert(cur@[base as int].common.wf());
            t.extend(&cur[base]);
            proof {
                assert(bt.subrange(0, j + 1).drop_last() =~= bt.subrange(0, j as int));
            }
            j = j + 1;
        }
        proof {
            assert(bt.subrange(0, bt.len() as int) =~= bt);
        }
        cur.set(node, t);
        proof {
            let after = task_views(cur@);
            assert forall|x: int| 0 <= x < bt.len() implies after[bt[x]] == before[bt[x]] by {
                assert(bt[x] != node);
            }
            lemma_fold_extend_congruent(orig[node as int], bt, before, after);
            assert forall|p: int| q < p < n implies #[trigger] cur@[order@[p] as int]@ == fold_extend(
                orig[order@[p] as int],
                base_targets(orig, order@[p] as int, os),
                task_views(cur@),
            ) by {
                let other = order@[p] as int;
                let obt = base_targets(orig, other, os);
                assert(order@[p] != order@[q as int]);
                assert forall|x: int| 0 <= x < obt.len() implies after[obt[x]] == before[obt[x]] by {
                    let d = orig[other].common.extend[x];
                    assert(0 <= other < n);
                    assert(task_deps(orig[other])[x] == d);
                    assert(x < task_deps(orig[other]).len());
                    assert(dep_target(orig, task_deps(orig[other])[x], os) is Some);
                    assert(dep_edge(orig, os, other, x) == Some((other as u64, obt[x] as u64)));
                    assert(dependency_edges(orig, os).contains((other as u64, obt[x] as u64)));
                    if obt[x] == node {
                        assert(dependency_edges(orig, os).contains((order@[p], order@[q as int])));
                    }
                }
                lemma_fold_extend_congruent(orig[other], obt, before, after);
            }
            assert forall|p: int| 0 <= p < q implies #[trigger] cur@[order@[p] as int]@ == orig[order@[p] as int] by {
                assert(order@[p] != order@[q as int]);
            }
        }
    }
    proof {
        let res = task_views(cur@);
        assert forall|i: int| 0 <= i < n implies #[trigger] res[i] == fold_extend(orig[i], base_targets(orig, i, os), res) by {
            assert(task_nodes(n as int).contains(i as u64));
            assert(order@.to_set().contains(i as u64));
            let p = choose|p: int| 0 <= p < order@.len() && order@[p] == i as u64;
            assert(cur@[order@[p] as int]@ == res[i]);
        }
        assert forall|i: int| 0 <= i < n implies #[trigger] res[i].name == orig[i].name by {
            lemma_fold_extend_name(orig[i], base_targets(orig, i, os), res);
        }
        assert(names_unique(res)) by {
            assert forall|i: int, j: int| 0 <= i < j < res.len() implies res[i].name != res[j].name by {
                assert(res[i].name == orig[i].name && res[j].name == orig[j].name);
            }
        }
    }
    Ok(cur)
}

/// Inheriting never changes a task's name.
pub proof fn lemma_fold_extend_name(t: TaskView, bases: Seq<int>, res: Seq<TaskView>)
    ensures
        fold_extend(t, bases, res).name == t.name,
    decreases bases.len(),
{
    if bases.len() > 0 {
        lemma_fold_extend_name(t, bases.drop_last(), res);
    }
}

proof fn lemma_nodes_len(n: nat)
    requires
        n <= u64::MAX,
    ensures
        Set::new(|x: u64| x < n).finite(),
        Set::new(|x: u64| x < n).len() == n,
    decreases n,
{
    if n == 0 {
        assert(Set::new(|x: u64| x < n) =~= Set::<u64>::empty());
    } else {
        lemma_nodes_len((n - 1) as nat);
        assert(!Set::new(|x: u64| x < (n - 1) as nat).contains((n - 1) as u64));
        assert(Set::new(|x: u64| x < n) =~= Set::new(|x: u64| x < (n - 1) as nat).insert((n - 1) as u64));
    }
}

} // verus!
