use vstd::prelude::*;

use crate::common::texts;
use crate::errors::{AwareTaskError, TaskError};
use crate::keyed_map::KeyedMap;
use crate::common::CommonView;
use crate::mom_files::{lookup, MomFile};
use crate::resolve::Os;
use crate::tasks::{extended_task, validation_error, Task, TaskView};
use crate::text::{concat, text_eq};

verus! {

/// The way a task runs.
#[derive(Clone, Copy, PartialEq, Eq, Debug)]
pub enum RunMode {
    Script,
    Program,
    Cmds,
    Nothing,
}

/// A command the runner carries out itself instead of starting a process.
#[derive(Clone, Copy, PartialEq, Eq, Debug)]
pub enum BuiltinCommand {
    Echo,
}

/// The built-in command called `name`, if there is one.
pub fn get_builtin_command(name: &str) -> (r: Option<BuiltinCommand>)
    ensures
        r == if name@ == "echo"@ {
            Some(BuiltinCommand::Echo)
        } else {
            None
        },
{
    if text_eq(name, "echo") {
        Some(BuiltinCommand::Echo)
    } else {
        None
    }
}

/// `items` joined with single spaces.
pub open spec fn spaced(items: Seq<Seq<char>>) -> Seq<char>
    decreases items.len(),
{
    if items.len() == 0 {
        Seq::empty()
    } else if items.len() == 1 {
        items[0]
    } else {
        spaced(items.drop_last()) + " "@ + items.last()
    }
}

/// The line the `echo` built-in prints: its arguments joined with spaces.
pub fn echo_line(args: &Vec<String>) -> (r: String)
    ensures
        r@ == spaced(texts(args@)),
{
    let ghost v = texts(args@);
    let mut s = String::new();
    let mut i: usize = 0;
    while i < args.len()
        invariant
            v == texts(args@),
            i <= args@.len(),
            s@ == spaced(v.subrange(0, i as int)),
        decreases args@.len() - i,
    {
        proof {
            assert(v.subrange(0, i + 1).drop_last() =~= v.subrange(0, i as int));
        }
        if i > 0 {
            s.append(" ");
        }
        s.append(args[i].as_str());
        i = i + 1;
    }
    proof {
        assert(v.subrange(0, args@.len() as int) =~= v);
    }
    s
}

/// Decimal digits of `n`.
pub open spec fn decimal(n: nat) -> Seq<char>
    decreases n,
{
    if n < 10 {
        seq![digit_char(n)]
    } else {
        decimal(n / 10).push(digit_char(n % 10))
    }
}

pub open spec fn digit_char(d: nat) -> char {
    if d == 0 { '0' } else if d == 1 { '1' } else if d == 2 { '2' } else if d == 3 { '3' } else if d == 4 {
        '4'
    } else if d == 5 { '5' } else if d == 6 { '6' } else if d == 7 { '7' } else if d == 8 { '8' } else { '9' }
}

/// Decimal text of `n`, with a leading `-` when it is negative.
pub open spec fn int_text(n: int) -> Seq<char> {
    if n < 0 {
        "-"@ + decimal((-n) as nat)
    } else {
        decimal(n as nat)
    }
}

fn digit(d: u64) -> (c: char)
    requires
        d < 10,
    ensures
        c == digit_char(d as nat),
{
    if d == 0 { '0' } else if d == 1 { '1' } else if d == 2 { '2' } else if d == 3 { '3' } else if d == 4 {
        '4'
    } else if d == 5 { '5' } else if d == 6 { '6' } else if d == 7 { '7' } else if d == 8 { '8' } else { '9' }
}

fn decimal_text(n: u64) -> (r: Vec<char>)
    ensures
        r@ == decimal(n as nat),
    decreases n,
{
    if n < 10 {
        let mut v: Vec<char> = Vec::new();
        v.push(digit(n));
        proof {
            assert(v@ =~= seq![digit_char(n as nat)]);
        }
        v
    } else {
        let mut v = decimal_text(n / 10);
        v.push(digit(n % 10));
        v
    }
}

/// Text of the characters `v`.
fn chars_text(v: &Vec<char>) -> (r: String)
    ensures
        r@ == v@,
{
    let mut s = String::new();
    let mut i: usize = 0;
    while i < v.len()
        invariant
            i <= v@.len(),
            s@ == v@.subrange(0, i as int),
        decreases v@.len() - i,
    {
        let c = v[i];
        let one = char_text(c);
        s.append(one.as_str());
        proof {
            assert(s@ =~= v@.subrange(0, i + 1));
        }
        i = i + 1;
    }
    proof {
        assert(v@.subrange(0, v@.len() as int) =~= v@);
    }
    s
}

/// Relies on `char::to_string`: the text holding just `c`.
#[verifier::external_body]
fn char_text(c: char) -> (r: String)
    ensures
        r@ == seq![c],
{
    c.to_string()
}

/// Decimal text of `n`; see `int_text`.
pub fn int_to_text(n: i32) -> (r: String)
    ensures
        r@ == int_text(n as int),
{
    if n < 0 {
        let m: u64 = (0i64 - n as i64) as u64;
        let d = decimal_text(m);
        let t = chars_text(&d);
        concat("-", t.as_str())
    } else {
        let d = decimal_text(n as u64);
        chars_text(&d)
    }
}

/// The outcome of a finished process: success, or a runtime error that
/// gives the exit code when there is one.
pub fn exit_status_result(success: bool, code: Option<i32>) -> (r: Result<(), TaskError>)
    ensures
        success ==> r is Ok,
        !success && code is None ==> (r matches Err(TaskError::RuntimeError(m))
            && m@ == "Process did not terminate correctly"@),
        !success && code is Some ==> (r matches Err(TaskError::RuntimeError(m))
            && m@ == "Process terminated with exit code "@ + int_text(code->Some_0 as int)),
{
    if success {
        return Ok(());
    }
    match code {
        None => Err(TaskError::RuntimeError(String::from_str("Process did not terminate correctly"))),
        Some(c) => {
            let t = int_to_text(c);
            Err(TaskError::RuntimeError(concat("Process terminated with exit code ", t.as_str())))
        },
    }
}

/// The name under which the `index`-th command of task `task` runs:
/// `<task>.cmds.<index>`.
pub fn cmd_display_name(task: &str, index: u32) -> (r: String)
    ensures
        r@ == task@ + ".cmds."@ + int_text(index as int),
{
    let t = concat(task, ".cmds.");
    let d = decimal_text(index as u64);
    let n = chars_text(&d);
    concat(t.as_str(), n.as_str())
}

/// Task `sub` run from the commands of `caller`, with the caller's
/// environment, variables and snippets winning over its own.
pub open spec fn with_caller_precedence(sub: TaskView, caller: TaskView) -> TaskView {
    TaskView {
        common: CommonView {
            env: sub.common.env.union_prefer_right(caller.common.env),
            vars: sub.common.vars.union_prefer_right(caller.common.vars),
            incl: sub.common.incl.union_prefer_right(caller.common.incl),
            ..sub.common
        },
        ..sub
    }
}

/// Task `sub` declared in the commands of `caller`, with its own
/// environment, variables and snippets winning over the caller's.
pub open spec fn with_own_precedence(sub: TaskView, caller: TaskView) -> TaskView {
    TaskView {
        common: CommonView {
            env: caller.common.env.union_prefer_right(sub.common.env),
            vars: caller.common.vars.union_prefer_right(sub.common.vars),
            incl: caller.common.incl.union_prefer_right(sub.common.incl),
            ..sub.common
        },
        ..sub
    }
}

/// Task `t` after inheriting, in order, from the tasks that lookups of
/// `bases` find, when all are found.
pub open spec fn extend_from_lookups(t: TaskView, bases: Seq<Seq<char>>, tasks: Seq<TaskView>, os: Os) -> Option<TaskView>
    decreases bases.len(),
{
    if bases.len() == 0 {
        Some(t)
    } else {
        match extend_from_lookups(t, bases.drop_last(), tasks, os) {
            Some(a) => match lookup(tasks, bases.last(), os) {
                Some(b) => Some(extended_task(a, b)),
                None => None,
            },
            None => None,
        }
    }
}

/// The first of `bases`, in order, that no lookup finds.
pub open spec fn first_missing_base(bases: Seq<Seq<char>>, tasks: Seq<TaskView>, os: Os) -> Option<Seq<char>>
    decreases bases.len(),
{
    if bases.len() == 0 {
        None
    } else if lookup(tasks, bases[0], os) is None {
        Some(bases[0])
    } else {
        first_missing_base(bases.drop_first(), tasks, os)
    }
}

proof fn lemma_first_missing(bases: Seq<Seq<char>>, tasks: Seq<TaskView>, os: Os, j: int)
    requires
        0 <= j < bases.len(),
        forall|k: int| 0 <= k < j ==> (#[trigger] lookup(tasks, bases[k], os)) is Some,
        lookup(tasks, bases[j], os) is None,
    ensures
        first_missing_base(bases, tasks, os) == Some(bases[j]),
    decreases j,
{
    if j > 0 {
        assert(lookup(tasks, bases[0], os) is Some);
        let rest = bases.drop_first();
        assert forall|k: int| 0 <= k < j - 1 implies (#[trigger] lookup(tasks, rest[k], os)) is Some by {
            assert(rest[k] == bases[k + 1]);
        }
        assert(rest[j - 1] == bases[j]);
        lemma_first_missing(rest, tasks, os, j - 1);
    }
}

impl Task {
    /// Prepares the task that the `index`-th command of `self` runs by name:
    /// a copy of the task a lookup of `sub_name` finds, named
    /// `<name>.cmds.<index>.<sub_name>` and validated, with the caller's
    /// environment, variables and snippets winning over its own.
    pub fn prepare_named(&self, file: &MomFile, sub_name: &str, index: u32, os: Os) -> (r: Result<Task, TaskError>)
        requires
            self.common.wf(),
            file.wf(),
        ensures
            lookup(file@.tasks, sub_name@, os) is None ==> (r matches Err(TaskError::NotFound(n)) && n@ == sub_name@),
            lookup(file@.tasks, sub_name@, os) matches Some(t) ==> {
                let name = self.name@ + ".cmds."@ + int_text(index as int) + "."@ + sub_name@;
                &&& validation_error(t) is None ==> (r matches Ok(s) && s.common.wf()
                    && s@ == with_caller_precedence(TaskView { name: name, ..t }, self@))
                &&& validation_error(t) matches Some(m) ==> (r matches Err(TaskError::RuntimeError(e))
                    && e@ == "Task `"@ + name + "` failed:\n"@ + "Improperly configured:\n"@ + m)
            },
    {
        let mut sub = match file.get_task(sub_name, os) {
            Some(t) => t,
            None => {
                return Err(TaskError::NotFound(String::from_str(sub_name)));
            },
        };
        let shown = cmd_display_name(self.name.as_str(), index);
        let shown = concat(shown.as_str(), ".");
        let shown = concat(shown.as_str(), sub_name);
        self.pass_to_named(&mut sub);
        match sub.setup(shown.as_str()) {
            Ok(()) => Ok(sub),
            Err(e) => Err(TaskError::from_aware(e)),
        }
    }


    /// Prepares `declared`, the anonymous task given as the `index`-th
    /// command of `self`: named `<name>.cmds.<index>` and validated, it
    /// inherits in order from the tasks that lookups of its bases find, then
    /// takes the caller's environment, variables and snippets where it has none.
    pub fn prepare_inline(&self, declared: Task, file: &MomFile, index: u32, os: Os) -> (r: Result<Task, TaskError>)
        requires
            self.common.wf(),
            declared.common.wf(),
            file.wf(),
        ensures
            ({
                let name = self.name@ + ".cmds."@ + int_text(index as int);
                &&& validation_error(declared@) matches Some(m) ==> (r matches Err(TaskError::RuntimeError(e))
                    && e@ == "Task `"@ + name + "` failed:\n"@ + "Improperly configured:\n"@ + m)
                &&& validation_error(declared@) is None ==> match extend_from_lookups(
                    TaskView { name: name, ..declared@ },
                    declared@.common.extend,
                    file@.tasks,
                    os,
                ) {
                    Some(x) => r matches Ok(s) && s.common.wf() && s@ == with_own_precedence(x, self@),
                    None => r matches Err(TaskError::NotFound(n)) && first_missing_base(
                        declared@.common.extend,
                        file@.tasks,
                        os,
                    ) == Some(n@),
                }
            }),
    {
        let mut sub = declared;
        let shown = cmd_display_name(self.name.as_str(), index);
        match sub.setup(shown.as_str()) {
            Ok(()) => {},
            Err(e) => {
                return Err(TaskError::from_aware(e));
            },
        }
        let ghost start = sub@;
        let bases = sub.common.extend.iter();
        let ghost names = crate::common::texts(bases@);
        let mut j: usize = 0;
        while j < bases.len()
            invariant
                file.wf(),
                names == crate::common::texts(bases@),
                names == start.common.extend,
                validation_error(declared@) is None,
                forall|k: int| 0 <= k < j ==> (#[trigger] lookup(file@.tasks, names[k], os)) is Some,
                start == (TaskView { name: self.name@ + ".cmds."@ + int_text(index as int), ..declared@ }),
                sub.common.wf(),
                j <= bases@.len(),
                extend_from_lookups(start, names.subrange(0, j as int), file@.tasks, os) == Some(sub@),
            decreases bases@.len() - j,
        {
            proof {
                assert(names.subrange(0, j + 1).drop_last() =~= names.subrange(0, j as int));
                assert(names.subrange(0, j + 1).last() == bases@[j as int]@);
            }
            match file.get_task(bases[j].as_str(), os) {
                Some(b) => {
                    assert(lookup(file@.tasks, names[j as int], os) is Some);
                    sub.extend(&b);
                },
                None => {
                    proof {
                        assert(lookup(file@.tasks, names[j as int], os) is None);
                        assert(extend_from_lookups(start, names.subrange(0, j + 1), file@.tasks, os) is None);
                        lemma_lookups_stop(start, names, file@.tasks, os, j + 1);
                        lemma_first_missing(names, file@.tasks, os, j as int);
                    }
                    return Err(TaskError::NotFound(bases[j].clone()));
                },
            }
            j = j + 1;
        }
        proof {
            assert(names.subrange(0, bases@.len() as int) =~= names);
        }
        self.pass_to_inline(&mut sub);
        Ok(sub)
    }
}

proof fn lemma_lookups_stop(t: TaskView, bases: Seq<Seq<char>>, tasks: Seq<TaskView>, os: Os, j: int)
    requires
        1 <= j <= bases.len(),
        extend_from_lookups(t, bases.subrange(0, j), tasks, os) is None,
    ensures
        extend_from_lookups(t, bases, tasks, os) is None,
    decreases bases.len() - j,
{
    if j < bases.len() {
        assert(bases.subrange(0, j + 1).drop_last() =~= bases.subrange(0, j));
        lemma_lookups_stop(t, bases, tasks, os, j + 1);
    } else {
        assert(bases.subrange(0, j) =~= bases);
    }
}


impl Task {
    /// What running the task does once its condition, if any, is known:
    /// nothing when the condition does not hold, else the task's run mode; a
    /// task with nothing to run fails, the error naming the task.
    pub fn decide_run(&self, condition_holds: bool) -> (r: Result<Option<RunMode>, AwareTaskError>)
        ensures
            !condition_holds ==> r == Ok::<Option<RunMode>, AwareTaskError>(None),
            condition_holds && self.script is None && self.program is None && self.cmds is None ==> (r matches Err(e)
                && e.task_name@ == self.name@ && (e.error matches TaskError::ConfigError(m) && m@ == "Nothing to run."@)),
            condition_holds && !(self.script is None && self.program is None && self.cmds is None) ==> (r matches Ok(
                Some(mode),
            ) && mode == self.run_mode_spec()),
    {
        if !condition_holds {
            return Ok(None);
        }
        match self.run_mode() {
            RunMode::Nothing => Err(
                AwareTaskError::new(self.name.as_str(), TaskError::ConfigError(String::from_str("Nothing to run."))),
            ),
            mode => Ok(Some(mode)),
        }
    }

    /// How the task runs; see `run_mode`.
    pub open spec fn run_mode_spec(&self) -> RunMode {
        if self.script is Some {
            RunMode::Script
        } else if self.program is Some {
            RunMode::Program
        } else if self.cmds is Some {
            RunMode::Cmds
        } else {
            RunMode::Nothing
        }
    }

    /// How the task runs: its script if it has one, else its program, else
    /// its commands.
    pub fn run_mode(&self) -> (r: RunMode)
        ensures
            r == self.run_mode_spec(),
    {
        if self.script.is_some() {
            RunMode::Script
        } else if self.program.is_some() {
            RunMode::Program
        } else if self.cmds.is_some() {
            RunMode::Cmds
        } else {
            RunMode::Nothing
        }
    }

    /// The working directory the task's commands run in, before
    /// expansion: the task's own if set, else the file's.
    pub fn working_dir_in(&self, file: &MomFile) -> (r: Option<String>)
        ensures
            crate::common::opt_text(r) == crate::common::inherit_if_unset(self.common@.wd, file.common@.wd),
    {
        match &self.common.wd {
            Some(wd) => Some(wd.clone()),
            None => crate::common::copy_opt_text(&file.common.wd),
        }
    }

    /// The task's environment over `env`: the task's own values win.
    pub fn get_env(&self, env: &KeyedMap<String>) -> (r: KeyedMap<String>)
        requires
            self.common.wf(),
            env.wf(),
        ensures
            r.wf(),
            r@ == env@.union_prefer_right(self.common.env@),
    {
        let mut r = self.common.env.duplicate();
        r.merge_prefer_existing(env);
        r
    }

    /// The task's variables over `vars`: the task's own values win.
    pub fn get_vars(&self, vars: &KeyedMap<serde_json::Value>) -> (r: KeyedMap<serde_json::Value>)
        requires
            self.common.wf(),
            vars.wf(),
        ensures
            r.wf(),
            r@ == vars@.union_prefer_right(self.common.vars@),
    {
        let mut r = self.common.vars.duplicate();
        r.merge_prefer_existing(vars);
        r
    }

    /// The task's snippets over `incl`: the task's own values win.
    pub fn get_templates(&self, incl: &KeyedMap<String>) -> (r: KeyedMap<String>)
        requires
            self.common.wf(),
            incl.wf(),
        ensures
            r.wf(),
            r@ == incl@.union_prefer_right(self.common.incl@),
    {
        let mut r = self.common.incl.duplicate();
        r.merge_prefer_existing(incl);
        r
    }

    /// Prepares `sub`, a task run by name from the commands of `self`: the caller's
    /// environment, variables and snippets win over `sub`'s own.
    pub fn pass_to_named(&self, sub: &mut Task)
        requires
            self.common.wf(),
            old(sub).common.wf(),
        ensures
            final(sub).common.wf(),
            final(sub).common@.env == old(sub).common@.env.union_prefer_right(self.common@.env),
            final(sub).common@.vars == old(sub).common@.vars.union_prefer_right(self.common@.vars),
            final(sub).common@.incl == old(sub).common@.incl.union_prefer_right(self.common@.incl),
            final(sub)@ == (crate::tasks::TaskView {
                common: crate::common::CommonView {
                    env: final(sub).common@.env,
                    vars: final(sub).common@.vars,
                    incl: final(sub).common@.incl,
                    ..old(sub)@.common
                },
                ..old(sub)@
            }),
    {
        sub.common.env = self.get_env(&sub.common.env);
        sub.common.vars = self.get_vars(&sub.common.vars);
        sub.common.incl = self.get_templates(&sub.common.incl);
    }

    /// Prepares `sub`, an anonymous task declared in the commands of `self`:
    /// `sub`'s own environment, variables and snippets win over the caller's.
    pub fn pass_to_inline(&self, sub: &mut Task)
        requires
            self.common.wf(),
            old(sub).common.wf(),
        ensures
            final(sub).common.wf(),
            final(sub).common@.env == self.common@.env.union_prefer_right(old(sub).common@.env),
            final(sub).common@.vars == self.common@.vars.union_prefer_right(old(sub).common@.vars),
            final(sub).common@.incl == self.common@.incl.union_prefer_right(old(sub).common@.incl),
            final(sub)@ == (crate::tasks::TaskView {
                common: crate::common::CommonView {
                    env: final(sub).common@.env,
                    vars: final(sub).common@.vars,
                    incl: final(sub).common@.incl,
                    ..old(sub)@.common
                },
                ..old(sub)@
            }),
    {
        sub.common.env = sub.get_env(&self.common.env);
        sub.common.vars = sub.get_vars(&self.common.vars);
        sub.common.incl = sub.get_templates(&self.common.incl);
    }
}

} // verus!
