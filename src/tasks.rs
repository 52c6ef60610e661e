use vstd::prelude::*;

use crate::common::{copy_opt_text, texts, extended_common, inherit_if_unset, opt_text, CommonFields, CommonView};
use crate::errors::{AwareTaskError, TaskError};

verus! {

/// A template that decides whether a task runs.
pub struct TaskCondition(pub String);

/// One entry of a task's command list.
pub enum Cmd {
    /// Runs a named task.
    TaskName(String),
    /// Runs an anonymous task declared in place.
    Task(Box<Task>),
    /// Runs a command line.
    Cmd(String),
}

/// A named unit of work.
pub struct Task {
    /// Name of the task, set by `setup`.
    pub name: String,
    /// Fields shared with configuration files.
    pub common: CommonFields,
    /// Condition to run the task.
    pub condition: Option<TaskCondition>,
    /// Help text.
    pub help: Option<String>,
    /// Script to run.
    pub script: Option<String>,
    /// Program that runs the script.
    pub script_runner: Option<String>,
    /// Extension of the script file.
    pub script_extension: Option<String>,
    /// Program to run.
    pub program: Option<String>,
    /// Arguments of the program.
    pub args: Option<String>,
    /// Commands to run.
    pub cmds: Option<Vec<Cmd>>,
    /// Arguments appended to the inherited ones.
    pub args_extend: Option<String>,
    /// Variant of the task for Linux.
    pub linux: Option<Box<Task>>,
    /// Variant of the task for Windows.
    pub windows: Option<Box<Task>>,
    /// Variant of the task for macOS.
    pub macos: Option<Box<Task>>,
    /// Whether the task is hidden from listing and direct invocation.
    pub private: bool,
}

/// A task as plain values.
pub struct TaskView {
    pub name: Seq<char>,
    pub common: CommonView,
    pub condition: Option<Seq<char>>,
    pub help: Option<Seq<char>>,
    pub script: Option<Seq<char>>,
    pub script_runner: Option<Seq<char>>,
    pub script_extension: Option<Seq<char>>,
    pub program: Option<Seq<char>>,
    pub args: Option<Seq<char>>,
    pub cmds: Option<Seq<CmdView>>,
    pub args_extend: Option<Seq<char>>,
    pub linux: Option<Box<TaskView>>,
    pub windows: Option<Box<TaskView>>,
    pub macos: Option<Box<TaskView>>,
    pub private: bool,
}

/// A command entry as plain values.
pub enum CmdView {
    TaskName(Seq<char>),
    Task(Box<TaskView>),
    Cmd(Seq<char>),
}

pub open spec fn condition_text(c: Option<TaskCondition>) -> Option<Seq<char>> {
    match c {
        Some(t) => Some(t.0@),
        None => None,
    }
}

pub open spec fn sub_task_view(o: Option<Box<Task>>) -> Option<Box<TaskView>>
    decreases o,
{
    match o {
        Some(b) => Some(Box::new(task_view(*b))),
        None => None,
    }
}

pub open spec fn opt_cmds_view(o: Option<Vec<Cmd>>) -> Option<Seq<CmdView>>
    decreases o,
{
    match o {
        Some(v) => Some(cmds_view(v@)),
        None => None,
    }
}

pub open spec fn task_view(t: Task) -> TaskView
    decreases t,
{
    TaskView {
        name: t.name@,
        common: t.common@,
        condition: condition_text(t.condition),
        help: opt_text(t.help),
        script: opt_text(t.script),
        script_runner: opt_text(t.script_runner),
        script_extension: opt_text(t.script_extension),
        program: opt_text(t.program),
        args: opt_text(t.args),
        cmds: opt_cmds_view(t.cmds),
        args_extend: opt_text(t.args_extend),
        linux: sub_task_view(t.linux),
        windows: sub_task_view(t.windows),
        macos: sub_task_view(t.macos),
        private: t.private,
    }
}

pub open spec fn cmds_view(s: Seq<Cmd>) -> Seq<CmdView>
    decreases s,
{
    if s.len() == 0 {
        Seq::empty()
    } else {
        cmds_view(s.drop_last()).push(cmd_view(s.last()))
    }
}

pub open spec fn cmd_view(c: Cmd) -> CmdView
    decreases c,
{
    match c {
        Cmd::TaskName(n) => CmdView::TaskName(n@),
        Cmd::Task(t) => CmdView::Task(Box::new(task_view(*t))),
        Cmd::Cmd(s) => CmdView::Cmd(s@),
    }
}

impl View for Task {
    type V = TaskView;

    open spec fn view(&self) -> TaskView {
        task_view(*self)
    }
}


/// Value of `into` after inheriting from `from`.
pub open spec fn inherit_opt(into: Option<Seq<char>>, from: Option<Seq<char>>) -> Option<Seq<char>> {
    inherit_if_unset(into, from)
}

/// Arguments after inheriting from a base whose arguments are `base`, then
/// appending the task's own `args_extend`, separated by a space.
pub open spec fn extended_args(
    own: Option<Seq<char>>,
    base: Option<Seq<char>>,
    args_extend: Option<Seq<char>>,
) -> Option<Seq<char>> {
    let inherited = inherit_opt(own, base);
    match args_extend {
        Some(e) => Some(
            match inherited {
                Some(a) => a,
                None => Seq::empty(),
            } + " "@ + e,
        ),
        None => inherited,
    }
}

/// Task `t` after inheriting from `base`: each of help, script,
/// script runner, script extension, program, arguments, commands and
/// condition is taken from the base only where `t` has none; common fields
/// are merged with `t`'s values winning; `args_extend` is appended to the
/// arguments and consumed.
pub open spec fn extended_task(t: TaskView, base: TaskView) -> TaskView {
    TaskView {
        common: extended_common(t.common, base.common),
        condition: inherit_if_unset(t.condition, base.condition),
        help: inherit_opt(t.help, base.help),
        script: inherit_opt(t.script, base.script),
        script_runner: inherit_opt(t.script_runner, base.script_runner),
        script_extension: inherit_opt(t.script_extension, base.script_extension),
        program: inherit_opt(t.program, base.program),
        args: extended_args(t.args, base.args, t.args_extend),
        cmds: inherit_if_unset(t.cmds, base.cmds),
        args_extend: None,
        ..t
    }
}

/// The message of the validation error of `t`, if it has one.
pub open spec fn validation_error(t: TaskView) -> Option<Seq<char>> {
    if t.script is Some && t.program is Some {
        Some("Cannot set both `script` and `program`."@)
    } else if t.script is Some && t.cmds is Some {
        Some("Cannot set both `cmds` and `script`."@)
    } else if t.program is Some && t.cmds is Some {
        Some("Cannot set both `cmds` and `program`."@)
    } else {
        None
    }
}

/// Names a task depends on: its bases, then the named tasks of its
/// commands, with the dependencies of anonymous tasks in their place.
pub open spec fn task_deps(t: TaskView) -> Seq<Seq<char>>
    decreases t,
{
    t.common.extend + match t.cmds {
        Some(c) => cmds_deps(c),
        None => Seq::empty(),
    }
}

pub open spec fn cmds_deps(s: Seq<CmdView>) -> Seq<Seq<char>>
    decreases s,
{
    if s.len() == 0 {
        Seq::empty()
    } else {
        cmds_deps(s.drop_last()) + match s.last() {
            CmdView::TaskName(n) => seq![n],
            CmdView::Task(b) => task_deps(*b),
            CmdView::Cmd(_) => Seq::empty(),
        }
    }
}

impl Cmd {
    /// An equal copy.
    pub fn duplicate(&self) -> (r: Cmd)
        ensures
            cmd_view(r) == cmd_view(*self),
        decreases self,
    {
        match self {
            Cmd::TaskName(n) => Cmd::TaskName(n.clone()),
            Cmd::Task(t) => {
                let c = t.duplicate();
                Cmd::Task(Box::new(c))
            },
            Cmd::Cmd(s) => Cmd::Cmd(s.clone()),
        }
    }
}

/// An equal copy of a command list.
pub fn copy_cmds(v: &Vec<Cmd>) -> (r: Vec<Cmd>)
    ensures
        cmds_view(r@) == cmds_view(v@),
    decreases v,
{
    let mut r: Vec<Cmd> = Vec::new();
    let mut i: usize = 0;
    while i < v.len()
        invariant
            i <= v@.len(),
            cmds_view(r@) == cmds_view(v@.subrange(0, i as int)),
        decreases v@.len() - i,
    {
        proof {
            vstd::std_specs::vec::axiom_vec_index_decreases(*v, i as int);
        }
        let c = v[i].duplicate();
        let ghost pre = r@;
        r.push(c);
        proof {
            assert(r@.drop_last() =~= pre);
            assert(v@.subrange(0, i + 1).drop_last() =~= v@.subrange(0, i as int));
        }
        i = i + 1;
    }
    proof {
        assert(v@.subrange(0, v@.len() as int) =~= v@);
    }
    r
}

/// An equal copy of an optional variant task.
fn copy_sub_task(o: &Option<Box<Task>>) -> (r: Option<Box<Task>>)
    ensures
        sub_task_view(r) == sub_task_view(*o),
    decreases o,
{
    match o {
        Some(b) => {
            let c = b.duplicate();
            Some(Box::new(c))
        },
        None => None,
    }
}

impl Task {
    /// An equal copy.
    pub fn duplicate(&self) -> (r: Task)
        ensures
            r@ == self@,
            r.common.wf() == self.common.wf(),
        decreases self,
    {
        let cmds = match &self.cmds {
            Some(v) => Some(copy_cmds(v)),
            None => None,
        };
        let condition = match &self.condition {
            Some(c) => Some(TaskCondition(c.0.clone())),
            None => None,
        };
        let r = Task {
            name: self.name.clone(),
            common: self.common.duplicate(),
            condition,
            help: copy_opt_text(&self.help),
            script: copy_opt_text(&self.script),
            script_runner: copy_opt_text(&self.script_runner),
            script_extension: copy_opt_text(&self.script_extension),
            program: copy_opt_text(&self.program),
            args: copy_opt_text(&self.args),
            cmds,
            args_extend: copy_opt_text(&self.args_extend),
            linux: copy_sub_task(&self.linux),
            windows: copy_sub_task(&self.windows),
            macos: copy_sub_task(&self.macos),
            private: self.private,
        };
        r
    }

    /// A task with nothing set.
    pub fn new() -> (r: Task)
        ensures
            r.common.wf(),
            r@.name.len() == 0,
            r@.common.extend.len() == 0,
            r@.condition is None && r@.help is None && r@.script is None && r@.script_runner is None,
            r@.script_extension is None && r@.program is None && r@.args is None && r@.cmds is None,
            r@.args_extend is None && r@.linux is None && r@.windows is None && r@.macos is None,
            !r@.private,
    {
        Task {
            name: String::new(),
            common: CommonFields::new(),
            condition: None,
            help: None,
            script: None,
            script_runner: None,
            script_extension: None,
            program: None,
            args: None,
            cmds: None,
            args_extend: None,
            linux: None,
            windows: None,
            macos: None,
            private: false,
        }
    }

    /// Inherits from `base`; see `extended_task`.
    pub fn extend(&mut self, base: &Task)
        requires
            old(self).common.wf(),
            base.common.wf(),
        ensures
            final(self).common.wf(),
            final(self)@ == extended_task(old(self)@, base@),
    {
        if self.help.is_none() {
            self.help = copy_opt_text(&base.help);
        }
        if self.script.is_none() {
            self.script = copy_opt_text(&base.script);
        }
        if self.script_runner.is_none() {
            self.script_runner = copy_opt_text(&base.script_runner);
        }
        if self.script_extension.is_none() {
            self.script_extension = copy_opt_text(&base.script_extension);
        }
        if self.program.is_none() {
            self.program = copy_opt_text(&base.program);
        }
        if self.args.is_none() {
            self.args = copy_opt_text(&base.args);
        }
        if self.cmds.is_none() {
            self.cmds = match &base.cmds {
                Some(v) => Some(copy_cmds(v)),
                None => None,
            };
        }
        if self.condition.is_none() {
            self.condition = match &base.condition {
                Some(c) => Some(TaskCondition(c.0.clone())),
                None => None,
            };
        }
        self.common.extend(&base.common);
        let extra = self.args_extend.take();
        if let Some(extra) = extra {
            let mut args = match self.args.take() {
                Some(a) => a,
                None => String::new(),
            };
            args.append(" ");
            args.append(extra.as_str());
            self.args = Some(args);
        }
    }

    /// Checks that at most one of script, program and commands is set.
    pub fn validate(&self) -> (r: Result<(), TaskError>)
        ensures
            validation_error(self@) is None ==> r is Ok,
            validation_error(self@) matches Some(m) ==> r matches Err(TaskError::ConfigError(e)) && e@ == m,
    {
        if self.script.is_some() && self.program.is_some() {
            return Err(TaskError::ConfigError(String::from_str("Cannot set both `script` and `program`.")));
        }
        if self.script.is_some() && self.cmds.is_some() {
            return Err(TaskError::ConfigError(String::from_str("Cannot set both `cmds` and `script`.")));
        }
        if self.program.is_some() && self.cmds.is_some() {
            return Err(TaskError::ConfigError(String::from_str("Cannot set both `cmds` and `program`.")));
        }
        Ok(())
    }

    /// Names the task depends on; see `task_deps`.
    pub fn get_dependencies(&self) -> (r: Vec<String>)
        ensures
            texts(r@) == task_deps(self@),
        decreases self,
    {
        let mut deps = self.common.extend.iter();
        if let Some(cmds) = &self.cmds {
            let mut i: usize = 0;
            while i < cmds.len()
                invariant
                    i <= cmds@.len(),
                    self.cmds == Some(*cmds),
                    texts(deps@) == self.common.extend.items() + cmds_deps(cmds_view(cmds@.subrange(0, i as int))),
                decreases cmds@.len() - i,
            {
                proof {
                    vstd::std_specs::vec::axiom_vec_index_decreases(*cmds, i as int);
                    assert(cmds@.subrange(0, i + 1).drop_last() =~= cmds@.subrange(0, i as int));
                }
                let ghost pre = deps@;
                match &cmds[i] {
                    Cmd::TaskName(n) => {
                        deps.push(n.clone());
                        proof {
                            assert(texts(deps@) =~= texts(pre).push(n@));
                        }
                    },
                    Cmd::Task(t) => {
                        proof {
                            assert(decreases_to!(*self => self.cmds));
                            assert(self.cmds->Some_0 == *cmds);
                            assert(decreases_to!(self.cmds => self.cmds->Some_0));
                            assert(decreases_to!(*cmds => cmds[i as int]));
                            assert(decreases_to!(cmds[i as int] => **t));
                            assert(decreases_to!(*self => **t));
                        }
                        let mut more = t.get_dependencies();
                        deps.append(&mut more);
                        proof {
                            assert(texts(deps@) =~= texts(pre) + task_deps(t@));
                        }
                    },
                    Cmd::Cmd(_) => {},
                }
                proof {
                    let s = cmds_view(cmds@.subrange(0, i + 1));
                    assert(s.drop_last() == cmds_view(cmds@.subrange(0, i as int)));
                    assert(s.last() == cmd_view(cmds@[i as int]));
                    assert(texts(deps@) =~= self.common.extend.items() + cmds_deps(s));
                }
                i = i + 1;
            }
            proof {
                assert(cmds@.subrange(0, cmds@.len() as int) =~= cmds@);
            }
        } else {
            proof {
                assert(texts(deps@) =~= task_deps(self@));
            }
        }
        deps
    }

    /// Sets the task's name and validates it; the error names the task.
    pub fn setup(&mut self, name: &str) -> (r: Result<(), AwareTaskError>)
        ensures
            final(self)@ == (TaskView { name: name@, ..old(self)@ }),
            final(self).common.wf() == old(self).common.wf(),
            validation_error(old(self)@) is None ==> r is Ok,
            validation_error(old(self)@) matches Some(m) ==> (r matches Err(e) && e.task_name@ == name@
                && (e.error matches TaskError::ConfigError(c) && c@ == m)),
    {
        self.name = String::from_str(name);
        match self.validate() {
            Ok(()) => Ok(()),
            Err(e) => Err(AwareTaskError::new(name, e)),
        }
    }

    /// Name of the task.
    pub fn get_name(&self) -> (r: &str)
        ensures
            r@ == self.name@,
    {
        self.name.as_str()
    }

    /// Whether the task is private.
    pub fn is_private(&self) -> (r: bool)
        ensures
            r == self.private,
    {
        self.private
    }
}

} // verus!
