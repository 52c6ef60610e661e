use mom_task::common::{CommonFields, StringOrVecString};
use mom_task::engine::{
    cmd_display_name, echo_line, exit_status_result, get_builtin_command, BuiltinCommand, RunMode,
};
use mom_task::errors::TaskError;
use mom_task::keyed_map::KeyedMap;
use mom_task::mom_files::{MomFile, Version};
use mom_task::render::{condition_text_holds, temp_script_name};
use mom_task::resolve::{to_os_task_name, Os};
use mom_task::tasks::{Cmd, Task};

fn load(entries: Vec<(&str, Task)>) -> MomFile {
    let entries = entries.into_iter().map(|(n, t)| (n.to_string(), t)).collect();
    MomFile::load(
        Version::V1,
        "/p/mom.root.yml".to_string(),
        "/p".to_string(),
        CommonFields::new(),
        entries,
        Os::Linux,
    )
    .unwrap()
}

fn bases(t: &mut Task, names: &[&str]) {
    t.common.extend = StringOrVecString::Multiple(names.iter().map(|s| s.to_string()).collect());
}

#[test]
fn single_base_fills_unset_fields_only() {
    let mut base = Task::new();
    base.help = Some("base help".to_string());
    base.program = Some("bash".to_string());
    base.args = Some("-c echo".to_string());
    base.common.wd = Some("/base".to_string());
    let mut child = Task::new();
    child.help = Some("own help".to_string());
    bases(&mut child, &["base"]);
    let f = load(vec![("base", base), ("child", child)]);
    let c = f.get_task("child", Os::Linux).unwrap();
    assert_eq!(c.help.as_deref(), Some("own help"));
    assert_eq!(c.program.as_deref(), Some("bash"));
    assert_eq!(c.args.as_deref(), Some("-c echo"));
    assert_eq!(c.common.wd.as_deref(), Some("/base"));
    assert_eq!(c.script, None);
    let names: Vec<String> = c.common.extend.iter();
    assert_eq!(names, vec!["base".to_string()]);
}

#[test]
fn first_listed_base_wins_env() {
    let mut b1 = Task::new();
    b1.common.env.insert("K".to_string(), "one".to_string());
    let mut b2 = Task::new();
    b2.common.env.insert("K".to_string(), "two".to_string());
    b2.common.env.insert("L".to_string(), "two".to_string());
    let mut t = Task::new();
    t.common.env.insert("M".to_string(), "own".to_string());
    bases(&mut t, &["b1", "b2"]);
    let f = load(vec![("b1", b1), ("b2", b2), ("t", t)]);
    let t = f.get_task("t", Os::Linux).unwrap();
    assert_eq!(t.common.env.get("K").map(|s| s.as_str()), Some("one"));
    assert_eq!(t.common.env.get("L").map(|s| s.as_str()), Some("two"));
    assert_eq!(t.common.env.get("M").map(|s| s.as_str()), Some("own"));
}

#[test]
fn args_extend_chain() {
    let mut g = Task::new();
    g.program = Some("echo".to_string());
    g.args = Some("hello".to_string());
    let mut p = Task::new();
    p.args_extend = Some("world".to_string());
    bases(&mut p, &["grandparent"]);
    let mut c = Task::new();
    bases(&mut c, &["parent"]);
    let f = load(vec![("grandparent", g), ("parent", p), ("child", c)]);
    let p = f.get_task("parent", Os::Linux).unwrap();
    let c = f.get_task("child", Os::Linux).unwrap();
    assert_eq!(p.args.as_deref(), Some("hello world"));
    assert_eq!(p.args_extend, None);
    assert_eq!(c.args.as_deref(), Some("hello world"));
}

#[test]
fn args_extend_without_inherited_args() {
    let b = Task::new();
    let mut t = Task::new();
    t.args_extend = Some("x".to_string());
    bases(&mut t, &["b"]);
    let f = load(vec![("b", b), ("t", t)]);
    let t = f.get_task("t", Os::Linux).unwrap();
    assert_eq!(t.args.as_deref(), Some(" x"));
}

#[test]
fn env_file_load_keeps_existing_values() {
    let mut common = CommonFields::new();
    common.env.insert("VAR1".to_string(), "TASK_VAL1".to_string());
    let mut file = KeyedMap::new();
    file.insert("VAR1".to_string(), "OTHER_VAL1".to_string());
    file.insert("VAR2".to_string(), "OTHER_VAL2".to_string());
    common.apply_env_file(&file, false);
    common.apply_env_file(&file, false);
    assert_eq!(common.env.get("VAR1").map(|s| s.as_str()), Some("TASK_VAL1"));
    assert_eq!(common.env.get("VAR2").map(|s| s.as_str()), Some("OTHER_VAL2"));
    assert_eq!(common.env.len(), 2);
    common.apply_env_file(&file, true);
    assert_eq!(common.env.get("VAR1").map(|s| s.as_str()), Some("OTHER_VAL1"));
}

#[test]
fn run_mode_and_nothing_to_run() {
    let mut t = Task::new();
    assert_eq!(t.run_mode(), RunMode::Nothing);
    t.cmds = Some(vec![]);
    assert_eq!(t.run_mode(), RunMode::Cmds);
    t.cmds = None;
    t.program = Some("echo".to_string());
    assert_eq!(t.run_mode(), RunMode::Program);
    t.program = None;
    t.script = Some("echo hello".to_string());
    assert_eq!(t.run_mode(), RunMode::Script);
}

#[test]
fn dry_run_scenario_task_runs_script() {
    let mut hello = Task::new();
    hello.script = Some("echo hello".to_string());
    let f = load(vec![("hello", hello)]);
    let t = f.get_public_task("hello", Os::Linux).unwrap();
    assert_eq!(t.run_mode(), RunMode::Script);
}

#[test]
fn sub_task_precedence() {
    let mut parent = Task::new();
    parent.common.env.insert("A".to_string(), "parent".to_string());
    parent.common.env.insert("B".to_string(), "parent".to_string());
    let mut named = Task::new();
    named.common.env.insert("A".to_string(), "child".to_string());
    named.common.env.insert("C".to_string(), "child".to_string());
    let mut inline = Task::new();
    inline.common.env.insert("A".to_string(), "child".to_string());
    inline.common.env.insert("C".to_string(), "child".to_string());

    parent.pass_to_named(&mut named);
    assert_eq!(named.common.env.get("A").map(|s| s.as_str()), Some("parent"));
    assert_eq!(named.common.env.get("B").map(|s| s.as_str()), Some("parent"));
    assert_eq!(named.common.env.get("C").map(|s| s.as_str()), Some("child"));

    parent.pass_to_inline(&mut inline);
    assert_eq!(inline.common.env.get("A").map(|s| s.as_str()), Some("child"));
    assert_eq!(inline.common.env.get("B").map(|s| s.as_str()), Some("parent"));
    assert_eq!(inline.common.env.get("C").map(|s| s.as_str()), Some("child"));
}

#[test]
fn exit_status_messages() {
    assert_eq!(exit_status_result(true, Some(0)), Ok(()));
    assert_eq!(
        exit_status_result(false, Some(2)),
        Err(TaskError::RuntimeError("Process terminated with exit code 2".to_string()))
    );
    assert_eq!(
        exit_status_result(false, Some(-130)),
        Err(TaskError::RuntimeError("Process terminated with exit code -130".to_string()))
    );
    assert_eq!(
        exit_status_result(false, None),
        Err(TaskError::RuntimeError("Process did not terminate correctly".to_string()))
    );
}

#[test]
fn builtin_echo() {
    assert_eq!(get_builtin_command("echo"), Some(BuiltinCommand::Echo));
    assert_eq!(get_builtin_command("ls"), None);
    let args = vec!["Hello".to_string(), "World".to_string()];
    assert_eq!(echo_line(&args), "Hello World");
    assert_eq!(echo_line(&vec![]), "");
}

#[test]
fn command_names() {
    assert_eq!(cmd_display_name("test", 0), "test.cmds.0");
    assert_eq!(cmd_display_name("other-test", 12), "other-test.cmds.12");
    assert_eq!(to_os_task_name("sample", Os::Linux).as_deref(), Some("sample.linux"));
    assert_eq!(to_os_task_name("sample", Os::Unspecified), None);
}

#[test]
fn condition_text() {
    assert!(condition_text_holds("true"));
    assert!(condition_text_holds("  TRUE \n"));
    assert!(!condition_text_holds("false"));
    assert!(!condition_text_holds("yes"));
}

#[test]
fn test_create_temp_script() {
    let a = temp_script_name("sample", "/p/mom.root.yml", "echo hello world", "sh");
    let b = temp_script_name("sample", "/p/mom.root.yml", "echo hello world", ".sh");
    let c = temp_script_name("sample2", "/p/mom.root.yml", "echo hello world", "sh");
    let d = temp_script_name("sample", "/p/mom.root.yml", "echo hello world", "");
    assert_eq!(a, b);
    assert_ne!(a, c);
    assert!(a.ends_with(".sh"));
    assert_eq!(d.len(), 32);
    assert_eq!(a, format!("{}.sh", d));
    assert_eq!(d, d.to_uppercase());
    assert_ne!(d, "sample/p/mom.root.ymlecho hello world");
}

#[test]
fn named_and_inline_sub_tasks() {
    let mut base = Task::new();
    base.program = Some("echo".to_string());
    base.common.env.insert("A".to_string(), "base".to_string());
    let mut helper = Task::new();
    helper.script = Some("echo helper".to_string());
    helper.common.env.insert("A".to_string(), "helper".to_string());
    let mut parent = Task::new();
    parent.common.env.insert("A".to_string(), "parent".to_string());
    parent.common.env.insert("P".to_string(), "parent".to_string());
    parent.cmds = Some(vec![Cmd::TaskName("helper".to_string())]);
    let f = load(vec![("base", base), ("helper", helper), ("parent", parent)]);
    let parent = f.get_task("parent", Os::Linux).unwrap();

    let named = parent.prepare_named(&f, "helper", 0, Os::Linux).unwrap();
    assert_eq!(named.name, "parent.cmds.0.helper");
    assert_eq!(named.common.env.get("A").map(|s| s.as_str()), Some("parent"));

    assert_eq!(
        parent.prepare_named(&f, "t2", 1, Os::Linux).err(),
        Some(TaskError::NotFound("t2".to_string()))
    );

    let mut inline = Task::new();
    bases(&mut inline, &["base"]);
    inline.args = Some("hi".to_string());
    let prepared = parent.prepare_inline(inline, &f, 2, Os::Linux).unwrap();
    assert_eq!(prepared.name, "parent.cmds.2");
    assert_eq!(prepared.program.as_deref(), Some("echo"));
    assert_eq!(prepared.common.env.get("A").map(|s| s.as_str()), Some("base"));
    assert_eq!(prepared.common.env.get("P").map(|s| s.as_str()), Some("parent"));

    let mut missing = Task::new();
    bases(&mut missing, &["nope"]);
    assert_eq!(
        parent.prepare_inline(missing, &f, 3, Os::Linux).err(),
        Some(TaskError::NotFound("nope".to_string()))
    );
}

#[test]
fn working_dir_prefers_task() {
    let mut common = CommonFields::new();
    common.wd = Some("/file/wd".to_string());
    let f = MomFile::load(Version::V1, "/p/mom.yml".to_string(), "/p".to_string(), common, vec![], Os::Linux)
        .unwrap();
    let mut t = Task::new();
    assert_eq!(t.working_dir_in(&f).as_deref(), Some("/file/wd"));
    t.common.wd = Some("sub".to_string());
    assert_eq!(t.working_dir_in(&f).as_deref(), Some("sub"));
    assert_eq!(f.working_directory().as_deref(), Some("/file/wd"));
}

#[test]
fn optional_missing_files_are_skipped() {
    use_spec(mom_task::common::VarsFileSpec::from_path(".env".to_string()));
}

fn use_spec(spec: mom_task::common::VarsFileSpec) {
    assert!(!spec.should_read(false));
    assert!(spec.should_read(true));
    let required = mom_task::common::VarsFileSpec { required: true, ..spec };
    assert!(required.should_read(false));
}

#[test]
fn run_decision() {
    let mut t = Task::new();
    t.name = "t".to_string();
    assert!(matches!(t.decide_run(false), Ok(None)));
    let e = t.decide_run(true).err().unwrap();
    assert_eq!(e.to_string(), "Task `t` failed:\nImproperly configured:\nNothing to run.");
    t.program = Some("echo".to_string());
    assert!(matches!(t.decide_run(true), Ok(Some(RunMode::Program))));
}

#[test]
fn working_dir_made_absolute_at_setup() {
    let mut c = CommonFields::new();
    c.wd = Some("sub".to_string());
    c.resolve_wd("/base");
    assert_eq!(c.wd.as_deref(), Some("/base/sub"));
    c.wd = Some(".".to_string());
    c.resolve_wd("/base");
    assert_eq!(c.wd.as_deref(), Some("/base"));
    c.wd = Some("/abs".to_string());
    c.resolve_wd("/base");
    assert_eq!(c.wd.as_deref(), Some("/abs"));
}
