use vstd::prelude::*;

use crate::common::{extended_common, texts, CommonFields, CommonView};
use crate::errors::TaskError;
use crate::resolve::{
    acyclic, all_deps_exist, dep_target, find_dep_target, find_task, has_name, index_of,
    is_resolution, missing_dep_text, names_unique, resolve_task_inheritance, task_cycle_text,
    task_views, Os,
};
use crate::tasks::{task_deps, validation_error, Task, TaskView};
use crate::text::concat;

verus! {

/// Versions of the configuration-file format.
#[derive(Clone, Copy, PartialEq, Eq, Debug)]
pub enum Version {
    V1,
}

/// A configuration file: shared fields and named tasks.
pub struct MomFile {
    /// Version of the file format.
    pub version: Version,
    /// Path of the file.
    pub filepath: String,
    /// Directory holding the file.
    pub directory: String,
    /// Fields shared by all its tasks.
    pub common: CommonFields,
    /// Its tasks, each under a different name.
    pub tasks: Vec<Task>,
}

/// A configuration file as plain values.
pub struct MomFileView {
    pub filepath: Seq<char>,
    pub directory: Seq<char>,
    pub common: CommonView,
    pub tasks: Seq<TaskView>,
}

impl View for MomFile {
    type V = MomFileView;

    open spec fn view(&self) -> MomFileView {
        MomFileView {
            filepath: self.filepath@,
            directory: self.directory@,
            common: self.common@,
            tasks: task_views(self.tasks@),
        }
    }
}

/// A task name is not empty, does not start with `-` and holds no `:`.
pub open spec fn valid_task_name(n: Seq<char>) -> bool {
    &&& n.len() > 0
    &&& n[0] != '-'
    &&& forall|i: int| 0 <= i < n.len() ==> n[i] != ':'
}

/// Whether `name` is a valid task name.
pub fn is_valid_task_name(name: &str) -> (r: bool)
    ensures
        r == valid_task_name(name@),
{
    let len = name.unicode_len();
    if len == 0 {
        return false;
    }
    if name.get_char(0) == '-' {
        return false;
    }
    let mut i: usize = 0;
    while i < len
        invariant
            len == name@.len(),
            i <= len,
            forall|j: int| 0 <= j < i ==> name@[j] != ':',
        decreases len - i,
    {
        if name.get_char(i) == ':' {
            return false;
        }
        i = i + 1;
    }
    true
}

/// Task `t` under name `n`.
pub open spec fn named(t: TaskView, n: Seq<char>) -> TaskView {
    TaskView { name: n, ..t }
}

/// Task `t` with its variants for each system taken out.
pub open spec fn without_variants(t: TaskView) -> TaskView {
    TaskView { linux: None, windows: None, macos: None, ..t }
}

/// The tasks that the declared task `t` named `n` stands for: its variants
/// for Linux, Windows and macOS, named `<n>.<os>`, then `t` itself.
pub open spec fn flatten_entry(n: Seq<char>, t: TaskView) -> Seq<TaskView> {
    (match t.linux {
        Some(b) => seq![named(*b, n + ".linux"@)],
        None => Seq::empty(),
    }) + (match t.windows {
        Some(b) => seq![named(*b, n + ".windows"@)],
        None => Seq::empty(),
    }) + (match t.macos {
        Some(b) => seq![named(*b, n + ".macos"@)],
        None => Seq::empty(),
    }) + seq![named(without_variants(t), n)]
}

/// The tasks that the declared entries stand for, in order.
pub open spec fn flatten_all(entries: Seq<(Seq<char>, TaskView)>) -> Seq<TaskView>
    decreases entries.len(),
{
    if entries.len() == 0 {
        Seq::empty()
    } else {
        flatten_all(entries.drop_last()) + flatten_entry(entries.last().0, entries.last().1)
    }
}

/// Every declared name is valid, the flattened tasks have distinct names,
/// and none of them sets two of script, program and commands.
pub open spec fn flatten_ok(entries: Seq<(Seq<char>, TaskView)>) -> bool {
    &&& forall|i: int| 0 <= i < entries.len() ==> valid_task_name(#[trigger] entries[i].0)
    &&& names_unique(flatten_all(entries))
    &&& forall|i: int| 0 <= i < flatten_all(entries).len() ==> validation_error(#[trigger] flatten_all(entries)[i]) is None
}

pub open spec fn entries_view(v: Seq<(String, Task)>) -> Seq<(Seq<char>, TaskView)> {
    v.map_values(|e: (String, Task)| (e.0@, e.1@))
}

/// The common fields of a task and of its variants are well formed.
pub open spec fn task_wf(t: Task) -> bool {
    &&& t.common.wf()
    &&& t.linux matches Some(b) ==> b.common.wf()
    &&& t.windows matches Some(b) ==> b.common.wf()
    &&& t.macos matches Some(b) ==> b.common.wf()
}


/// No task of `s` sets two of script, program and commands.
pub open spec fn all_valid(s: Seq<TaskView>) -> bool {
    forall|i: int| 0 <= i < s.len() ==> validation_error(#[trigger] s[i]) is None
}

proof fn lemma_unique_push(s: Seq<TaskView>, x: TaskView)
    ensures
        names_unique(s.push(x)) <==> (names_unique(s) && !has_name(s, x.name)),
        all_valid(s.push(x)) <==> (all_valid(s) && validation_error(x) is None),
{
    let t = s.push(x);
    if names_unique(t) {
        assert forall|i: int, j: int| 0 <= i < j < s.len() implies s[i].name != s[j].name by {
            assert(t[i] == s[i] && t[j] == s[j]);
        }
        if has_name(s, x.name) {
            let i = choose|i: int| 0 <= i < s.len() && s[i].name == x.name;
            assert(t[i].name == t[s.len() as int].name);
        }
    }
    if names_unique(s) && !has_name(s, x.name) {
        assert forall|i: int, j: int| 0 <= i < j < t.len() implies t[i].name != t[j].name by {
            if j == s.len() {
                assert(t[i] == s[i]);
            } else {
                assert(t[i] == s[i] && t[j] == s[j]);
            }
        }
    }
    if all_valid(t) {
        assert forall|i: int| 0 <= i < s.len() implies validation_error(#[trigger] s[i]) is None by {
            assert(t[i] == s[i]);
        }
        assert(t[s.len() as int] == x);
    }
    if all_valid(s) && validation_error(x) is None {
        assert forall|i: int| 0 <= i < t.len() implies validation_error(#[trigger] t[i]) is None by {
            if i < s.len() {
                assert(t[i] == s[i]);
            }
        }
    }
}

/// The error of adding task `t` after the tasks `flat`: a name already taken,
/// else the task's validation error, named after the task.
pub open spec fn push_error(flat: Seq<TaskView>, t: TaskView) -> Option<Seq<char>> {
    if has_name(flat, t.name) {
        Some("Duplicate task `"@ + t.name + "`"@)
    } else {
        match validation_error(t) {
            Some(m) => Some("Task `"@ + t.name + "` failed:\n"@ + ("Improperly configured:\n"@ + m)),
            None => None,
        }
    }
}

/// The first error of adding, in order, the tasks `items` after `flat`.
pub open spec fn pushes_error(flat: Seq<TaskView>, items: Seq<TaskView>) -> Option<Seq<char>>
    decreases items.len(),
{
    if items.len() == 0 {
        None
    } else {
        match push_error(flat, items[0]) {
            Some(e) => Some(e),
            None => pushes_error(flat.push(items[0]), items.drop_first()),
        }
    }
}

/// The first error of flattening the declared entries after the tasks
/// `flat`: an invalid name, else the first error of adding the tasks the
/// entry stands for.
pub open spec fn flatten_error_from(flat: Seq<TaskView>, entries: Seq<(Seq<char>, TaskView)>) -> Option<Seq<char>>
    decreases entries.len(),
{
    if entries.len() == 0 {
        None
    } else if !valid_task_name(entries[0].0) {
        Some("Invalid task name `"@ + entries[0].0 + "`"@)
    } else {
        match pushes_error(flat, flatten_entry(entries[0].0, entries[0].1)) {
            Some(e) => Some(e),
            None => flatten_error_from(flat + flatten_entry(entries[0].0, entries[0].1), entries.drop_first()),
        }
    }
}

/// The message of the first error of flattening the declared entries.
pub open spec fn flatten_error_text(entries: Seq<(Seq<char>, TaskView)>) -> Option<Seq<char>> {
    flatten_error_from(Seq::empty(), entries)
}

proof fn lemma_pushes_concat(flat: Seq<TaskView>, x: Seq<TaskView>, y: Seq<TaskView>)
    ensures
        pushes_error(flat, x + y) == match pushes_error(flat, x) {
            Some(e) => Some(e),
            None => pushes_error(flat + x, y),
        },
    decreases x.len(),
{
    if x.len() == 0 {
        assert(x + y =~= y);
        assert(flat + x =~= flat);
    } else {
        assert((x + y)[0] == x[0]);
        assert((x + y).drop_first() =~= x.drop_first() + y);
        lemma_pushes_concat(flat.push(x[0]), x.drop_first(), y);
        assert(flat.push(x[0]) + x.drop_first() =~= flat + x);
    }
}

proof fn lemma_pushes_one(flat: Seq<TaskView>, t: TaskView)
    ensures
        pushes_error(flat, seq![t]) == push_error(flat, t),
{
    assert(seq![t][0] == t);
    assert(seq![t].drop_first() =~= Seq::<TaskView>::empty());
    assert(pushes_error(flat.push(t), seq![t].drop_first()) is None);
}

/// Adds task `t` under `name`, failing on a name already taken or on a task
/// that sets two of script, program and commands.
fn push_task(flat: &mut Vec<Task>, t: Task, name: &str) -> (r: Result<(), TaskError>)
    requires
        names_unique(task_views(old(flat)@)),
        all_valid(task_views(old(flat)@)),
        forall|i: int| 0 <= i < old(flat)@.len() ==> (#[trigger] old(flat)@[i]).common.wf(),
        t.common.wf(),
    ensures
        r is Ok <==> names_unique(task_views(old(flat)@).push(named(t@, name@))) && all_valid(
            task_views(old(flat)@).push(named(t@, name@)),
        ),
        r is Ok ==> task_views(final(flat)@) == task_views(old(flat)@).push(named(t@, name@)),
        r is Err ==> *final(flat) == *old(flat),
        r matches Err(e) ==> e is ConfigError,
        r matches Err(e) ==> push_error(task_views(old(flat)@), named(t@, name@)) == Some(e->ConfigError_0@),
        r is Ok ==> push_error(task_views(old(flat)@), named(t@, name@)) is None,
        forall|i: int| 0 <= i < final(flat)@.len() ==> (#[trigger] final(flat)@[i]).common.wf(),
{
    proof {
        lemma_unique_push(task_views(flat@), named(t@, name@));
    }
    if find_task(flat, name).is_some() {
        let m = concat("Duplicate task `", name);
        let m = concat(m.as_str(), "`");
        return Err(TaskError::ConfigError(m));
    }
    let mut t = t;
    match t.setup(name) {
        Ok(()) => {},
        Err(e) => {
            return Err(TaskError::ConfigError(e.to_string()));
        },
    }
    let ghost pre = flat@;
    flat.push(t);
    proof {
        assert(task_views(flat@) =~= task_views(pre).push(named(t@, name@)));
    }
    Ok(())
}

/// Adds the tasks that the declared task `t` named `name` stands for; see
/// `flatten_entry`.
fn flatten_one(flat: &mut Vec<Task>, name: &str, t: Task) -> (r: Result<(), TaskError>)
    requires
        names_unique(task_views(old(flat)@)),
        all_valid(task_views(old(flat)@)),
        forall|i: int| 0 <= i < old(flat)@.len() ==> (#[trigger] old(flat)@[i]).common.wf(),
        task_wf(t),
    ensures
        r is Ok <==> names_unique(task_views(old(flat)@) + flatten_entry(name@, t@)) && all_valid(
            task_views(old(flat)@) + flatten_entry(name@, t@),
        ),
        r is Ok ==> task_views(final(flat)@) == task_views(old(flat)@) + flatten_entry(name@, t@),
        r matches Err(e) ==> e is ConfigError,
        r matches Err(e) ==> pushes_error(task_views(old(flat)@), flatten_entry(name@, t@)) == Some(
            e->ConfigError_0@,
        ),
        r is Ok ==> pushes_error(task_views(old(flat)@), flatten_entry(name@, t@)) is None,
        forall|i: int| 0 <= i < final(flat)@.len() ==> (#[trigger] final(flat)@[i]).common.wf(),
{
    let ghost s0 = task_views(flat@);
    let ghost tv = t@;
    let mut t = t;
    let linux = t.linux.take();
    let windows = t.windows.take();
    let macos = t.macos.take();
    assert(t@ == without_variants(tv));
    let ghost p1: Seq<TaskView> = match tv.linux {
        Some(b) => seq![named(*b, name@ + ".linux"@)],
        None => Seq::empty(),
    };
    let ghost p2: Seq<TaskView> = match tv.windows {
        Some(b) => seq![named(*b, name@ + ".windows"@)],
        None => Seq::empty(),
    };
    let ghost p3: Seq<TaskView> = match tv.macos {
        Some(b) => seq![named(*b, name@ + ".macos"@)],
        None => Seq::empty(),
    };
    let ghost last = named(without_variants(tv), name@);
    assert(flatten_entry(name@, tv) == p1 + p2 + p3 + seq![last]);
    proof {
        lemma_pushes_concat(s0, p1, p2 + (p3 + seq![last]));
        lemma_pushes_concat(s0 + p1, p2, p3 + seq![last]);
        lemma_pushes_concat(s0 + p1 + p2, p3, seq![last]);
        lemma_pushes_one(s0 + p1 + p2 + p3, last);
        assert(flatten_entry(name@, tv) =~= p1 + (p2 + (p3 + seq![last])));
        if tv.linux is Some {
            lemma_pushes_one(s0, named(*tv.linux->Some_0, name@ + ".linux"@));
        }
        if tv.windows is Some {
            lemma_pushes_one(s0 + p1, named(*tv.windows->Some_0, name@ + ".windows"@));
        }
        if tv.macos is Some {
            lemma_pushes_one(s0 + p1 + p2, named(*tv.macos->Some_0, name@ + ".macos"@));
        }
    }
    if let Some(b) = linux {
        let n = concat(name, ".linux");
        let r = push_task(flat, *b, n.as_str());
        if r.is_err() {
            proof {
                assert(s0 + p1 =~= s0.push(named(*tv.linux->Some_0, name@ + ".linux"@)));
                lemma_prefix_bad(s0 + p1, p2 + p3 + seq![last]);
                assert(s0 + flatten_entry(name@, tv) =~= (s0 + p1) + (p2 + p3 + seq![last]));
            }
            return r;
        }
    }
    proof {
        assert(task_views(flat@) =~= s0 + p1);
    }
    if let Some(b) = windows {
        let n = concat(name, ".windows");
        let r = push_task(flat, *b, n.as_str());
        if r.is_err() {
            proof {
                assert(s0 + p1 + p2 =~= (s0 + p1).push(named(*tv.windows->Some_0, name@ + ".windows"@)));
                lemma_prefix_bad(s0 + p1 + p2, p3 + seq![last]);
                assert(s0 + flatten_entry(name@, tv) =~= (s0 + p1 + p2) + (p3 + seq![last]));
            }
            return r;
        }
    }
    proof {
        assert(task_views(flat@) =~= s0 + p1 + p2);
    }
    if let Some(b) = macos {
        let n = concat(name, ".macos");
        let r = push_task(flat, *b, n.as_str());
        if r.is_err() {
            proof {
                assert(s0 + p1 + p2 + p3 =~= (s0 + p1 + p2).push(named(*tv.macos->Some_0, name@ + ".macos"@)));
                lemma_prefix_bad(s0 + p1 + p2 + p3, seq![last]);
                assert(s0 + flatten_entry(name@, tv) =~= (s0 + p1 + p2 + p3) + seq![last]);
            }
            return r;
        }
    }
    proof {
        assert(task_views(flat@) =~= s0 + p1 + p2 + p3);
    }
    let r = push_task(flat, t, name);
    proof {
        assert(s0 + flatten_entry(name@, tv) =~= (s0 + p1 + p2 + p3).push(last));
    }
    r
}

/// A sequence whose prefix has a repeated name or an invalid task has them too.
proof fn lemma_prefix_bad(a: Seq<TaskView>, b: Seq<TaskView>)
    ensures
        names_unique(a + b) ==> names_unique(a),
        all_valid(a + b) ==> all_valid(a),
{
    let t = a + b;
    if names_unique(t) {
        assert forall|i: int, j: int| 0 <= i < j < a.len() implies a[i].name != a[j].name by {
            assert(t[i] == a[i] && t[j] == a[j]);
        }
    }
    if all_valid(t) {
        assert forall|i: int| 0 <= i < a.len() implies validation_error(#[trigger] a[i]) is None by {
            assert(t[i] == a[i]);
        }
    }
}

proof fn lemma_flatten_prefix(s: Seq<(Seq<char>, TaskView)>, j: int)
    requires
        0 <= j <= s.len(),
    ensures
        flatten_all(s) == flatten_all(s.subrange(0, j)) + flatten_all(s.subrange(j, s.len() as int)),
    decreases s.len(),
{
    if j == s.len() {
        assert(s.subrange(0, j) =~= s);
        assert(s.subrange(j, s.len() as int) =~= Seq::<(Seq<char>, TaskView)>::empty());
        assert(flatten_all(s) + Seq::empty() =~= flatten_all(s));
    } else {
        lemma_flatten_prefix(s.drop_last(), j);
        assert(s.drop_last().subrange(0, j) =~= s.subrange(0, j));
        let tail = s.subrange(j, s.len() as int);
        assert(tail.drop_last() =~= s.drop_last().subrange(j, s.drop_last().len() as int));
        assert(tail.last() == s.last());
        assert(flatten_all(s) =~= flatten_all(s.subrange(0, j)) + flatten_all(tail));
    }
}

/// The tasks that the declared entries stand for, with each declared task's
/// variants for Linux, Windows and macOS added under `<name>.<os>`. Fails
/// on an invalid name, on a name taken twice, or on a task that sets two of
/// script, program and commands.
pub fn get_flat_tasks(entries: Vec<(String, Task)>) -> (r: Result<Vec<Task>, TaskError>)
    requires
        forall|i: int| 0 <= i < entries@.len() ==> task_wf(#[trigger] entries@[i].1),
    ensures
        r is Ok <==> flatten_ok(entries_view(entries@)),
        r matches Ok(v) ==> task_views(v@) == flatten_all(entries_view(entries@)) && forall|i: int|
            0 <= i < v@.len() ==> (#[trigger] v@[i]).common.wf(),
        r matches Err(e) ==> e is ConfigError && flatten_error_text(entries_view(entries@)) == Some(
            e->ConfigError_0@,
        ),
        r is Ok ==> flatten_error_text(entries_view(entries@)) is None,
{
    let ghost ev = entries_view(entries@);
    let mut flat: Vec<Task> = Vec::new();
    let mut pending = entries;
    let ghost all = pending@;
    let mut rest: Vec<(String, Task)> = Vec::new();
    // Take the entries out in declared order.
    while pending.len() > 0
        invariant
            pending@ + rest@.reverse() == all,
            ev == entries_view(all),
            all == entries@,
        decreases pending@.len(),
    {
        let e = pending.pop().unwrap();
        let ghost pre = rest@;
        rest.push(e);
        proof {
            assert(rest@.reverse() =~= seq![e] + pre.reverse());
            assert(pending@ + rest@.reverse() =~= all);
        }
    }
    proof {
        assert(rest@.reverse() =~= all);
    }
    let n = rest.len();
    let mut i: usize = 0;
    proof {
        assert(ev.subrange(0, n as int) =~= ev);
        assert(task_views(flat@) =~= Seq::<TaskView>::empty());
    }
    while i < n
        invariant
            n == all.len(),
            rest@.len() == n - i,
            forall|k: int| 0 <= k < rest@.len() ==> rest@[k] == #[trigger] all[n - 1 - k],
            forall|k: int| 0 <= k < all.len() ==> task_wf(#[trigger] all[k].1),
            ev == entries_view(all),
            all == entries@,
            i <= n,
            flatten_error_text(ev) == flatten_error_from(task_views(flat@), ev.subrange(i as int, n as int)),
            task_views(flat@) == flatten_all(ev.subrange(0, i as int)),
            names_unique(task_views(flat@)),
            all_valid(task_views(flat@)),
            forall|k: int| 0 <= k < i ==> valid_task_name(#[trigger] ev[k].0),
            forall|k: int| 0 <= k < flat@.len() ==> (#[trigger] flat@[k]).common.wf(),
        decreases n - i,
    {
        let ghost r0 = rest@;
        proof {
            let k = r0.len() - 1;
            assert(r0[k] == all[n - 1 - k]);
            assert(n - 1 - k == i);
        }
        let (name, task) = rest.pop().unwrap();
        proof {
            assert(all[i as int] == (name, task));
            assert(ev[i as int] == (name@, task@));
            assert(ev.subrange(0, i + 1).drop_last() =~= ev.subrange(0, i as int));
            assert(ev.subrange(i as int, n as int)[0] == ev[i as int]);
            assert(ev.subrange(i as int, n as int).drop_first() =~= ev.subrange(i + 1, n as int));
        }
        if !is_valid_task_name(name.as_str()) {
            assert(!valid_task_name(ev[i as int].0));
            assert(!flatten_ok(ev));
            let m = concat("Invalid task name `", name.as_str());
            let m = concat(m.as_str(), "`");
            assert(flatten_error_text(ev) == Some(m@));
            return Err(TaskError::ConfigError(m));
        }
        let ghost before = task_views(flat@);
        let r = flatten_one(&mut flat, name.as_str(), task);
        if r.is_err() {
            proof {
                lemma_flatten_prefix(ev, i + 1);
                lemma_prefix_bad(before + flatten_entry(name@, task@), flatten_all(ev.subrange(i + 1, ev.len() as int)));
                assert(flatten_all(ev.subrange(0, i + 1)) =~= before + flatten_entry(name@, task@));
                assert(!flatten_ok(ev));
            }
            return Err(r.unwrap_err());
        }
        i = i + 1;
    }
    proof {
        assert(ev.subrange(0, n as int) =~= ev);
    }
    Ok(flat)
}


/// The tasks of `other` whose names no task of `own` has, in order.
pub open spec fn added_tasks(own: Seq<TaskView>, other: Seq<TaskView>) -> Seq<TaskView>
    decreases other.len(),
{
    if other.len() == 0 {
        Seq::empty()
    } else {
        added_tasks(own, other.drop_last()) + if has_name(own, other.last().name) {
            Seq::empty()
        } else {
            seq![other.last()]
        }
    }
}

/// Names of the tasks that are not private, in order.
pub open spec fn public_names(s: Seq<TaskView>) -> Seq<Seq<char>>
    decreases s.len(),
{
    if s.len() == 0 {
        Seq::empty()
    } else {
        public_names(s.drop_last()) + if s.last().private {
            Seq::empty()
        } else {
            seq![s.last().name]
        }
    }
}

/// The task that a lookup of `name` finds: the variant for `os` if there
/// is one, else the task named `name`.
pub open spec fn lookup(tasks: Seq<TaskView>, name: Seq<char>, os: Os) -> Option<TaskView> {
    match dep_target(tasks, name, os) {
        Some(i) => Some(tasks[i]),
        None => None,
    }
}

/// What a public lookup of `name` finds: the task that `lookup` finds,
/// unless it is private.
pub open spec fn public_lookup(tasks: Seq<TaskView>, name: Seq<char>, os: Os) -> Option<TaskView> {
    match lookup(tasks, name, os) {
        Some(t) => if t.private {
            None
        } else {
            Some(t)
        },
        None => None,
    }
}

impl MomFile {
    /// Tasks have distinct names and every map has distinct keys.
    pub open spec fn wf(&self) -> bool {
        &&& self.common.wf()
        &&& names_unique(task_views(self.tasks@))
        &&& forall|i: int| 0 <= i < self.tasks@.len() ==> (#[trigger] self.tasks@[i]).common.wf()
    }

    /// An equal copy.
    pub fn duplicate(&self) -> (r: MomFile)
        ensures
            r@ == self@,
            r.wf() == self.wf(),
            r.version == self.version,
    {
        let mut tasks: Vec<Task> = Vec::new();
        let mut i: usize = 0;
        while i < self.tasks.len()
            invariant
                i <= self.tasks@.len(),
                tasks@.len() == i,
                task_views(tasks@) == task_views(self.tasks@.subrange(0, i as int)),
                forall|k: int| 0 <= k < i ==> (#[trigger] tasks@[k]).common.wf() == self.tasks@[k].common.wf(),
            decreases self.tasks@.len() - i,
        {
            let t = self.tasks[i].duplicate();
            let ghost pre = tasks@;
            let ghost tv = t@;
            tasks.push(t);
            proof {
                let a = task_views(tasks@);
                let b = task_views(self.tasks@.subrange(0, i + 1));
                assert forall|k: int| 0 <= k < a.len() implies a[k] == b[k] by {
                    if k < i {
                        assert(a[k] == task_views(pre)[k]);
                        assert(task_views(self.tasks@.subrange(0, i as int))[k] == b[k]);
                    } else {
                        assert(a[k] == tv);
                    }
                }
                assert(a =~= b);
            }
            i = i + 1;
        }
        proof {
            assert(self.tasks@.subrange(0, self.tasks@.len() as int) =~= self.tasks@);
            assert(task_views(tasks@) == task_views(self.tasks@));
        }
        let r = MomFile {
            version: self.version,
            filepath: self.filepath.clone(),
            directory: self.directory.clone(),
            common: self.common.duplicate(),
            tasks,
        };
        proof {
            if self.wf() {
                assert forall|k: int| 0 <= k < r.tasks@.len() implies (#[trigger] r.tasks@[k]).common.wf() by {
                    assert(self.tasks@[k].common.wf());
                }
            }
            if r.wf() {
                assert forall|k: int| 0 <= k < self.tasks@.len() implies (#[trigger] self.tasks@[k]).common.wf() by {
                    assert(r.tasks@[k].common.wf());
                }
            }
        }
        r
    }

    /// Builds a configuration file from its parsed parts: flattens the
    /// declared tasks and resolves inheritance among them.
    pub fn load(
        version: Version,
        filepath: String,
        directory: String,
        common: CommonFields,
        entries: Vec<(String, Task)>,
        os: Os,
    ) -> (r: Result<MomFile, TaskError>)
        requires
            common.wf(),
            forall|i: int| 0 <= i < entries@.len() ==> task_wf(#[trigger] entries@[i].1),
        ensures
            !flatten_ok(entries_view(entries@)) ==> (r matches Err(TaskError::ConfigError(m))
                && flatten_error_text(entries_view(entries@)) == Some(m@)),
            flatten_ok(entries_view(entries@)) ==> ({
                let flat = flatten_all(entries_view(entries@));
                &&& !all_deps_exist(flat, os) ==> (r matches Err(TaskError::ConfigError(m)) && exists|i: int, k: int|
                    0 <= i < flat.len() && 0 <= k < task_deps(flat[i]).len() && dep_target(flat, task_deps(flat[i])[k], os)
                        is None && m@ == missing_dep_text(flat[i].name, task_deps(flat[i])[k]))
                &&& all_deps_exist(flat, os) && !acyclic(flat, os) ==> (r matches Err(TaskError::ConfigError(m))
                    && exists|i: int| 0 <= i < flat.len() && m@ == task_cycle_text(flat[i].name))
                &&& all_deps_exist(flat, os) && acyclic(flat, os) ==> (r matches Ok(f) && f.wf()
                    && f.filepath == filepath && f.directory == directory && f.common@ == common@
                    && is_resolution(flat, f@.tasks, os))
            }),
    {
        let ghost ev = entries_view(entries@);
        let flat = match get_flat_tasks(entries) {
            Ok(v) => v,
            Err(e) => {
                return Err(e);
            },
        };
        let ghost fv = task_views(flat@);
        assert(fv == flatten_all(ev));
        let r = resolve_task_inheritance(flat, os);
        proof {
            if !all_deps_exist(fv, os) {
                let (i, k) = choose|i: int, k: int|
                    0 <= i < flat@.len() && 0 <= k < task_deps(flat@[i]@).len() && dep_target(
                        fv,
                        task_deps(flat@[i]@)[k],
                        os,
                    ) is None && r->Err_0->ConfigError_0@ == missing_dep_text(flat@[i].name@, task_deps(flat@[i]@)[k]);
                assert(fv[i] == flat@[i]@);
            } else if !acyclic(fv, os) {
                let i = choose|i: int| 0 <= i < flat@.len() && r->Err_0->ConfigError_0@ == task_cycle_text(flat@[i].name@);
                assert(fv[i] == flat@[i]@);
            }
        }
        let tasks = match r {
            Ok(v) => v,
            Err(e) => {
                return Err(e);
            },
        };
        Ok(MomFile { version, filepath, directory, common, tasks })
    }

    /// Inherits from `other`: merges the common fields, and adds each task of
    /// `other` whose name no task here has.
    pub fn extend(&mut self, other: &MomFile)
        requires
            old(self).wf(),
            other.wf(),
        ensures
            final(self).wf(),
            final(self)@ == (MomFileView {
                common: extended_common(old(self)@.common, other@.common),
                tasks: old(self)@.tasks + added_tasks(old(self)@.tasks, other@.tasks),
                ..old(self)@
            }),
    {
        self.common.extend(&other.common);
        assert(self.tasks == old(self).tasks);
        let ghost own = task_views(self.tasks@);
        let ghost theirs = task_views(other.tasks@);
        let n = self.tasks.len();
        let mut i: usize = 0;
        while i < other.tasks.len()
            invariant
                other.wf(),
                self.common.wf(),
                self.filepath == old(self).filepath,
                self.directory == old(self).directory,
                self.common@ == extended_common(old(self)@.common, other@.common),
                own == task_views(old(self).tasks@),
                own == task_views(self.tasks@.subrange(0, n as int)),
                theirs == task_views(other.tasks@),
                n <= self.tasks@.len(),
                i <= other.tasks@.len(),
                task_views(self.tasks@) == own + added_tasks(own, theirs.subrange(0, i as int)),
                names_unique(task_views(self.tasks@)),
                forall|k: int| 0 <= k < self.tasks@.len() ==> (#[trigger] self.tasks@[k]).common.wf(),
                forall|k: int| n <= k < self.tasks@.len() ==> exists|j: int| 0 <= j < i && #[trigger] task_views(self.tasks@)[k].name == theirs[j].name,
            decreases other.tasks@.len() - i,
        {
            let t = &other.tasks[i];
            let ghost pre = task_views(self.tasks@);
            proof {
                assert(theirs.subrange(0, i + 1).drop_last() =~= theirs.subrange(0, i as int));
                assert(theirs[i as int] == t@);
            }
            let found_own = find_in_prefix(&self.tasks, n, t.name.as_str());
            if !found_own {
                let found_added = find_task(&self.tasks, t.name.as_str());
                proof {
                    if found_added.is_some() {
                        let k = index_of(pre, t@.name);
                        assert(pre[k].name == t@.name);
                        let j = choose|j: int| 0 <= j < i && #[trigger] task_views(self.tasks@)[k].name == theirs[j].name;
                        assert(theirs[j].name == theirs[i as int].name);
                    }
                }
                let c = t.duplicate();
                self.tasks.push(c);
                proof {
                    assert(task_views(self.tasks@) =~= pre.push(t@));
                    assert(task_views(self.tasks@.subrange(0, n as int)) =~= task_views(self.tasks@).subrange(0, n as int));
                    assert(task_views(self.tasks@) =~= own + added_tasks(own, theirs.subrange(0, i + 1)));
                    assert(names_unique(task_views(self.tasks@))) by {
                        lemma_unique_push_name(pre, t@);
                    }
                    assert forall|k: int| n <= k < self.tasks@.len() implies exists|j: int| 0 <= j < i + 1 && #[trigger] task_views(self.tasks@)[k].name == theirs[j].name by {
                        if k == self.tasks@.len() - 1 {
                            assert(task_views(self.tasks@)[k].name == theirs[i as int].name);
                        } else {
                            assert(task_views(self.tasks@)[k] == pre[k]);
                            let j = choose|j: int| 0 <= j < i && #[trigger] pre[k].name == theirs[j].name;
                        }
                    }
                }
            } else {
                proof {
                    assert(task_views(self.tasks@) =~= own + added_tasks(own, theirs.subrange(0, i + 1)));
                }
            }
            i = i + 1;
        }
        proof {
            assert(theirs.subrange(0, other.tasks@.len() as int) =~= theirs);
        }
    }

    /// The working directory, if set, resolved against the file's directory.
    pub fn working_directory(&self) -> (r: Option<String>)
        ensures
            self.common.wd is None ==> r is None,
            self.common.wd matches Some(wd) ==> (r matches Some(p) && p@ == crate::paths::relative_to_base(
                self.directory@,
                wd@,
            )),
    {
        match &self.common.wd {
            Some(wd) => Some(crate::paths::get_path_relative_to_base(self.directory.as_str(), wd.as_str())),
            None => None,
        }
    }

    /// The task a lookup of `task_name` finds; see `lookup`.
    pub fn get_task_ref(&self, task_name: &str, os: Os) -> (r: Option<&Task>)
        requires
            self.wf(),
        ensures
            r matches Some(t) ==> lookup(self@.tasks, task_name@, os) == Some(t@),
            r is None ==> lookup(self@.tasks, task_name@, os) is None,
    {
        match find_dep_target(&self.tasks, task_name, os) {
            Some(i) => Some(&self.tasks[i]),
            None => None,
        }
    }

    /// A copy of the task a lookup of `task_name` finds; see `lookup`.
    pub fn get_task(&self, task_name: &str, os: Os) -> (r: Option<Task>)
        requires
            self.wf(),
        ensures
            r matches Some(t) ==> lookup(self@.tasks, task_name@, os) == Some(t@) && t.common.wf(),
            r is None ==> lookup(self@.tasks, task_name@, os) is None,
    {
        match find_dep_target(&self.tasks, task_name, os) {
            Some(i) => Some(self.tasks[i].duplicate()),
            None => None,
        }
    }

    /// A copy of the task a public lookup of `task_name` finds; see `public_lookup`.
    pub fn get_public_task(&self, task_name: &str, os: Os) -> (r: Option<Task>)
        requires
            self.wf(),
        ensures
            r matches Some(t) ==> public_lookup(self@.tasks, task_name@, os) == Some(t@) && t.common.wf(),
            r is None ==> public_lookup(self@.tasks, task_name@, os) is None,
    {
        match find_dep_target(&self.tasks, task_name, os) {
            Some(i) => {
                if self.tasks[i].is_private() {
                    None
                } else {
                    Some(self.tasks[i].duplicate())
                }
            },
            None => None,
        }
    }

    /// Whether a lookup of `task_name` finds a task.
    pub fn has_task(&self, task_name: &str, os: Os) -> (r: bool)
        requires
            self.wf(),
        ensures
            r == lookup(self@.tasks, task_name@, os) is Some,
    {
        find_dep_target(&self.tasks, task_name, os).is_some()
    }

    /// Names of the tasks that are not private, in order.
    pub fn get_public_task_names(&self) -> (r: Vec<String>)
        ensures
            texts(r@) == public_names(self@.tasks),
    {
        let ghost views = task_views(self.tasks@);
        let mut r: Vec<String> = Vec::new();
        let mut i: usize = 0;
        while i < self.tasks.len()
            invariant
                views == task_views(self.tasks@),
                i <= self.tasks@.len(),
                texts(r@) == public_names(views.subrange(0, i as int)),
            decreases self.tasks@.len() - i,
        {
            proof {
                assert(views.subrange(0, i + 1).drop_last() =~= views.subrange(0, i as int));
            }
            let ghost pre = r@;
            if !self.tasks[i].is_private() {
                r.push(self.tasks[i].name.clone());
                proof {
                    assert(texts(r@) =~= texts(pre).push(self.tasks@[i as int].name@));
                }
            }
            proof {
                assert(texts(r@) =~= public_names(views.subrange(0, i + 1)));
            }
            i = i + 1;
        }
        proof {
            assert(views.subrange(0, self.tasks@.len() as int) =~= views);
        }
        r
    }
}

proof fn lemma_unique_push_name(s: Seq<TaskView>, x: TaskView)
    requires
        names_unique(s),
        !has_name(s, x.name),
    ensures
        names_unique(s.push(x)),
{
    lemma_unique_push(s, x);
}

/// Whether one of the first `n` tasks is named `name`.
fn find_in_prefix(tasks: &Vec<Task>, n: usize, name: &str) -> (r: bool)
    requires
        n <= tasks@.len(),
    ensures
        r == has_name(task_views(tasks@.subrange(0, n as int)), name@),
{
    let ghost views = task_views(tasks@.subrange(0, n as int));
    let mut i: usize = 0;
    while i < n
        invariant
            n <= tasks@.len(),
            views == task_views(tasks@.subrange(0, n as int)),
            i <= n,
            forall|j: int| 0 <= j < i ==> views[j].name != name@,
        decreases n - i,
    {
        if crate::text::text_eq(tasks[i].name.as_str(), name) {
            assert(views[i as int].name == name@);
            return true;
        }
        i = i + 1;
    }
    false
}

} // verus!
