use vstd::prelude::*;

use crate::common::env_after_load;
use crate::container::{consumed, read_bases_view, read_view, ReadView};
use crate::mom_files::MomFile;
use crate::paths::relative_to_base;
use crate::graph::is_topological_order;
use crate::mom_files::{lookup, public_lookup, public_names};
use crate::resolve::{
    acyclic, all_deps_exist, base_targets, dep_edge, dep_target, dependency_edges, fold_extend,
    is_resolution, names_unique, task_nodes, Os,
};
use crate::tasks::{extended_task, task_deps, TaskView};

verus! {

proof fn lemma_fold_one(t: TaskView, b: int, res: Seq<TaskView>)
    ensures
        fold_extend(t, seq![b], res) == extended_task(t, res[b]),
{
    let bs = seq![b];
    assert(bs.drop_last() =~= Seq::<int>::empty());
    assert(fold_extend(t, bs.drop_last(), res) == t);
    assert(bs.last() == b);
    assert(bs.len() == 1);
}

proof fn lemma_fold_two(t: TaskView, b1: int, b2: int, res: Seq<TaskView>)
    ensures
        fold_extend(t, seq![b1, b2], res) == extended_task(extended_task(t, res[b1]), res[b2]),
{
    let bs = seq![b1, b2];
    assert(bs.drop_last() =~= seq![b1]);
    lemma_fold_one(t, b1, res);
    assert(bs.last() == b2);
    assert(bs.len() == 2);
}

/// A task with a single base keeps every scalar field it sets, and takes
/// each one it leaves unset from its resolved base (arguments aside when the
/// task appends to them with `args_extend`).
pub proof fn law_single_base(orig: Seq<TaskView>, res: Seq<TaskView>, os: Os, i: int, b: int)
    requires
        is_resolution(orig, res, os),
        0 <= i < orig.len(),
        base_targets(orig, i, os) == seq![b],
        orig[i].args_extend is None,
    ensures
        res[i].help == if orig[i].help is Some { orig[i].help } else { res[b].help },
        res[i].script == if orig[i].script is Some { orig[i].script } else { res[b].script },
        res[i].script_runner == if orig[i].script_runner is Some { orig[i].script_runner } else { res[b].script_runner },
        res[i].script_extension == if orig[i].script_extension is Some { orig[i].script_extension } else { res[b].script_extension },
        res[i].program == if orig[i].program is Some { orig[i].program } else { res[b].program },
        res[i].args == if orig[i].args is Some { orig[i].args } else { res[b].args },
        res[i].condition == if orig[i].condition is Some { orig[i].condition } else { res[b].condition },
        res[i].common.wd == if orig[i].common.wd is Some { orig[i].common.wd } else { res[b].common.wd },
{
    assert(res[i] == fold_extend(orig[i], base_targets(orig, i, os), res));
    lemma_fold_one(orig[i], b, res);
}

/// With two bases that both set environment variable `k`, a task that does
/// not set it takes the value of the first base.
pub proof fn law_first_base_wins(orig: Seq<TaskView>, res: Seq<TaskView>, os: Os, i: int, b1: int, b2: int, k: Seq<char>)
    requires
        is_resolution(orig, res, os),
        0 <= i < orig.len(),
        base_targets(orig, i, os) == seq![b1, b2],
        !orig[i].common.env.contains_key(k),
        res[b1].common.env.contains_key(k),
        res[b2].common.env.contains_key(k),
    ensures
        res[i].common.env.contains_key(k),
        res[i].common.env[k] == res[b1].common.env[k],
{
    assert(res[i] == fold_extend(orig[i], base_targets(orig, i, os), res));
    lemma_fold_two(orig[i], b1, b2, res);
}

/// Loading the same file of environment variables a second time without
/// `overwrite` changes nothing, and never replaces a value set before the
/// first load.
pub proof fn law_env_load_idempotent(env: Map<Seq<char>, String>, file: Map<Seq<char>, String>, k: Seq<char>)
    ensures
        env_after_load(env_after_load(env, file, false), file, false) == env_after_load(env, file, false),
        env.contains_key(k) ==> env_after_load(env_after_load(env, file, false), file, false)[k] == env[k],
{
    let once = env_after_load(env, file, false);
    assert(env_after_load(once, file, false) =~= once);
}

/// When grandparent, parent and child are resolved in a chain, the parent's
/// arguments are the grandparent's followed by a space and the parent's
/// `args_extend`, and the child, which appends nothing, has the parent's.
pub proof fn law_args_extend_chain(orig: Seq<TaskView>, res: Seq<TaskView>, os: Os, g: int, p: int, c: int)
    requires
        is_resolution(orig, res, os),
        0 <= g < orig.len(),
        0 <= p < orig.len(),
        0 <= c < orig.len(),
        res[g].args is Some,
        orig[p].args is None,
        orig[p].args_extend is Some,
        base_targets(orig, p, os) == seq![g],
        orig[c].args is None,
        orig[c].args_extend is None,
        base_targets(orig, c, os) == seq![p],
    ensures
        res[p].args == Some(res[g].args->Some_0 + " "@ + orig[p].args_extend->Some_0),
        res[c].args == res[p].args,
{
    assert(res[p] == fold_extend(orig[p], base_targets(orig, p, os), res));
    assert(res[c] == fold_extend(orig[c], base_targets(orig, c, os), res));
    lemma_fold_one(orig[p], g, res);
    lemma_fold_one(orig[c], p, res);
}

/// Two tasks that extend each other form a cycle: every dependency exists,
/// yet no order resolves them, so resolution fails naming one of them.
pub proof fn law_two_task_cycle(views: Seq<TaskView>, os: Os)
    requires
        views.len() == 2,
        dep_target(views, views[0].name, os) == Some(0int),
        dep_target(views, views[1].name, os) == Some(1int),
        views[0].common.extend == seq![views[1].name],
        views[1].common.extend == seq![views[0].name],
        views[0].cmds is None,
        views[1].cmds is None,
    ensures
        all_deps_exist(views, os),
        !acyclic(views, os),
{
    assert(task_deps(views[0]) =~= seq![views[1].name]);
    assert(task_deps(views[1]) =~= seq![views[0].name]);
    assert(dep_edge(views, os, 0, 0) == Some((0u64, 1u64)));
    assert(dep_edge(views, os, 1, 0) == Some((1u64, 0u64)));
    let edges = dependency_edges(views, os);
    assert(edges.contains((0u64, 1u64)));
    assert(edges.contains((1u64, 0u64)));
    if acyclic(views, os) {
        let o = choose|o: Seq<u64>| is_topological_order(o, task_nodes(2), edges);
        assert(task_nodes(2).contains(0u64));
        assert(task_nodes(2).contains(1u64));
        assert(o.to_set().contains(0u64));
        assert(o.to_set().contains(1u64));
        let p0 = choose|p: int| 0 <= p < o.len() && o[p] == 0u64;
        let p1 = choose|p: int| 0 <= p < o.len() && o[p] == 1u64;
        assert(edges.contains((o[p0], o[p1])));
        assert(edges.contains((o[p1], o[p0])));
    }
}

/// A private task is left out of the public names and of public lookups,
/// yet a lookup, as used for bases and for named commands, still finds it.
pub proof fn law_private_tasks(tasks: Seq<TaskView>, name: Seq<char>, os: Os)
    requires
        names_unique(tasks),
        lookup(tasks, name, os) matches Some(t) && t.private,
    ensures
        public_lookup(tasks, name, os) is None,
        dep_target(tasks, name, os) is Some,
        !public_names(tasks).contains(lookup(tasks, name, os)->Some_0.name),
{
    let i = dep_target(tasks, name, os)->Some_0;
    lemma_public_names_exclude(tasks, i);
}

proof fn lemma_public_names_exclude(tasks: Seq<TaskView>, i: int)
    requires
        names_unique(tasks),
        0 <= i < tasks.len(),
        tasks[i].private,
    ensures
        !public_names(tasks).contains(tasks[i].name),
    decreases tasks.len(),
{
    let s = tasks.drop_last();
    if i < tasks.len() - 1 {
        assert(names_unique(s));
        assert(s[i] == tasks[i]);
        lemma_public_names_exclude(s, i);
        if !tasks.last().private {
            assert(tasks.last().name != tasks[i].name);
        }
        assert(!(public_names(s) + if tasks.last().private { Seq::empty() } else { seq![tasks.last().name] }).contains(tasks[i].name));
    } else {
        lemma_public_names_no_name(s, tasks[i].name);
    }
}

proof fn lemma_public_names_no_name(s: Seq<TaskView>, n: Seq<char>)
    requires
        forall|j: int| 0 <= j < s.len() ==> s[j].name != n,
    ensures
        !public_names(s).contains(n),
    decreases s.len(),
{
    if s.len() > 0 {
        lemma_public_names_no_name(s.drop_last(), n);
        assert(!(public_names(s.drop_last()) + if s.last().private { Seq::empty() } else { seq![s.last().name] }).contains(n));
    }
}


/// Two configuration files that extend each other form a cycle: reading
/// the first reaches it again while its bases are read, and fails naming it.
pub proof fn law_two_file_cycle(cache: Map<Seq<char>, MomFile>, pa: Seq<char>, pb: Seq<char>)
    requires
        cache.dom().finite(),
        pa != pb,
        cache.contains_key(pa),
        cache.contains_key(pb),
        cache[pa]@.common.extend.len() == 1,
        relative_to_base(cache[pa]@.directory, cache[pa]@.common.extend[0]) == pb,
        cache[pb]@.common.extend.len() == 1,
        relative_to_base(cache[pb]@.directory, cache[pb]@.common.extend[0]) == pa,
    ensures
        read_view(cache, Set::empty(), pa, cache.dom().len() as int) == ReadView::Cycle(pa),
{
    let fuel = cache.dom().len() as int;
    vstd::set_lib::lemma_len_subset(set![pa, pb], cache.dom());
    assert(set![pa, pb].len() == 2) by {
        assert(set![pa, pb] =~= set![pa].insert(pb));
    }
    let la = Set::<Seq<char>>::empty().insert(pa);
    let lab = la.insert(pb);
    let fa = cache[pa]@;
    let fb = cache[pb]@;
    let ba = fa.common.extend;
    let bb = fb.common.extend;
    assert(ba.drop_last() =~= Seq::<Seq<char>>::empty());
    assert(bb.drop_last() =~= Seq::<Seq<char>>::empty());
    assert(consumed(fa).directory == fa.directory);
    assert(consumed(fb).directory == fb.directory);
    assert(read_view(cache, lab, pa, fuel - 2) == ReadView::Cycle(pa));
    assert(read_bases_view(cache, lab, consumed(fb), bb.drop_last(), fuel - 2) == ReadView::Ready(consumed(fb)));
    assert(read_bases_view(cache, lab, consumed(fb), bb, fuel - 2) == ReadView::Cycle(pa));
    assert(!la.contains(pb));
    assert(read_view(cache, la, pb, fuel - 1) == ReadView::Cycle(pa));
    assert(read_bases_view(cache, la, consumed(fa), ba.drop_last(), fuel - 1) == ReadView::Ready(consumed(fa)));
    assert(read_bases_view(cache, la, consumed(fa), ba, fuel - 1) == ReadView::Cycle(pa));
}

} // verus!
