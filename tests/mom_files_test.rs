use mom_task::common::{CommonFields, StringOrVecString};
use mom_task::container::{MomFilesContainer, ReadOutcome};
use mom_task::errors::TaskError;
use mom_task::mom_files::{is_valid_task_name, MomFile, Version};
use mom_task::resolve::Os;
use mom_task::tasks::{Cmd, Task};

fn script_task(script: &str) -> Task {
    let mut t = Task::new();
    t.script = Some(script.to_string());
    t
}

fn extending(mut t: Task, bases: &[&str]) -> Task {
    t.common.extend = StringOrVecString::Multiple(bases.iter().map(|s| s.to_string()).collect());
    t
}

fn load(entries: Vec<(&str, Task)>) -> Result<MomFile, TaskError> {
    let entries = entries.into_iter().map(|(n, t)| (n.to_string(), t)).collect();
    MomFile::load(
        Version::V1,
        "/project/mom.root.yml".to_string(),
        "/project".to_string(),
        CommonFields::new(),
        entries,
        Os::Linux,
    )
}

fn config_message(r: Result<MomFile, TaskError>) -> String {
    match r {
        Err(TaskError::ConfigError(m)) => m,
        Err(e) => panic!("unexpected error {}", e.to_string()),
        Ok(_) => panic!("expected an error"),
    }
}

#[test]
fn test_mom_file_flatten_task() {
    let mut t = script_task("echo hello");
    t.windows = Some(Box::new(script_task("echo hello windows")));
    t.macos = Some(Box::new(script_task("echo hello macos")));
    t.linux = Some(Box::new(script_task("echo hello linux")));
    let mom_file = load(vec![("test", t)]).unwrap();

    let find = |name: &str| mom_file.tasks.iter().find(|t| t.name == name);
    let task = find("test");
    assert!(task.is_some());
    assert_eq!(task.unwrap().script.as_deref().unwrap(), "echo hello");

    let task = find("test.windows");
    assert!(task.is_some());
    assert_eq!(task.unwrap().script.as_deref().unwrap(), "echo hello windows");

    let task = find("test.macos");
    assert!(task.is_some());
    assert_eq!(task.unwrap().script.as_deref().unwrap(), "echo hello macos");
}

fn three_tasks() -> MomFile {
    let mut t3 = script_task("echo hello again");
    t3.private = true;
    load(vec![
        ("task_1", script_task("echo hello")),
        ("task_2", script_task("echo hello again")),
        ("task_3", t3),
    ])
    .unwrap()
}

#[test]
fn test_mom_file_get_task() {
    let mom_file = three_tasks();

    let task_nam = mom_file.get_task("task_1", Os::Linux);
    assert!(task_nam.is_some());
    assert_eq!(task_nam.unwrap().get_name(), "task_1");

    let task_nam = mom_file.get_task("task_2", Os::Linux);
    assert!(task_nam.is_some());
    assert_eq!(task_nam.unwrap().get_name(), "task_2");

    let task_nam = mom_file.get_task("task_3", Os::Linux);
    assert!(task_nam.is_some());
    assert_eq!(task_nam.unwrap().get_name(), "task_3");
}

#[test]
fn test_mom_file_get_non_private_task() {
    let mom_file = three_tasks();

    let task_nam = mom_file.get_public_task("task_1", Os::Linux);
    assert!(task_nam.is_some());
    assert_eq!(task_nam.unwrap().get_name(), "task_1");

    let task_nam = mom_file.get_public_task("task_2", Os::Linux);
    assert!(task_nam.is_some());
    assert_eq!(task_nam.unwrap().get_name(), "task_2");

    let task_nam = mom_file.get_public_task("task_3", Os::Linux);
    assert!(task_nam.is_none());
}

#[test]
fn private_task_is_hidden_but_usable_as_base() {
    let mut base = script_task("echo base");
    base.private = true;
    base.help = Some("base help".to_string());
    let child = extending(Task::new(), &["base"]);
    let mom_file = load(vec![("base", base), ("child", child)]).unwrap();
    let names = mom_file.get_public_task_names();
    assert_eq!(names, vec!["child".to_string()]);
    assert!(mom_file.get_public_task("base", Os::Linux).is_none());
    assert!(mom_file.get_task("base", Os::Linux).is_some());
    let child = mom_file.get_public_task("child", Os::Linux).unwrap();
    assert_eq!(child.script.as_deref(), Some("echo base"));
    assert!(!child.private);
}

#[test]
fn test_task_circular_dependencies_return_error() {
    let r = load(vec![
        ("task_1", extending(script_task("echo hello"), &["task_2"])),
        ("task_2", extending(script_task("echo hello again"), &["task_1"])),
    ]);
    // Either task may be named.
    assert!(config_message(r).starts_with("Found a cyclic dependency for task: task_"));

    let mut t1 = Task::new();
    t1.cmds = Some(vec![Cmd::TaskName("task_2".to_string())]);
    let mut inline = extending(Task::new(), &["task_1"]);
    inline.cmds = Some(vec![Cmd::Cmd("some command".to_string())]);
    let mut t2 = Task::new();
    t2.cmds = Some(vec![Cmd::Task(Box::new(inline))]);
    let r = load(vec![("task_1", t1), ("task_2", t2)]);
    assert!(config_message(r).starts_with("Found a cyclic dependency for task: task_"));
}

#[test]
fn test_inherit_non_existing_task_return_err() {
    let r = load(vec![("task_1", extending(script_task("echo hello"), &["task_2"]))]);
    assert!(config_message(r).contains("Task task_1 cannot inherit from non-existing task task_2"));
}

#[test]
fn test_valid_task_name() {
    let r = load(vec![("-invalid_task_name", script_task("echo hello"))]);
    assert!(config_message(r).contains("Invalid task name `-invalid_task_name`"));

    let r = load(vec![("invalid:task_name", script_task("echo hello"))]);
    assert!(config_message(r).contains("Invalid task name `invalid:task_name`"));

    let r = load(vec![("", script_task("echo hello"))]);
    assert!(config_message(r).contains("Invalid task name ``"));

    assert!(is_valid_task_name("hello-world"));
}

#[test]
fn test_validate() {
    let mut t = script_task("hello world");
    t.program = Some("some_program".to_string());
    assert!(config_message(load(vec![("sample", t)])).contains("Cannot set both `script` and `program`."));

    let mut t = script_task("something");
    t.cmds = Some(vec![Cmd::Cmd("cmd1".to_string()), Cmd::Cmd("cmd2".to_string())]);
    assert!(config_message(load(vec![("sample", t)])).contains("Cannot set both `cmds` and `script`."));

    let mut t = Task::new();
    t.program = Some("sample script".to_string());
    t.cmds = Some(vec![Cmd::Cmd("some command".to_string())]);
    assert!(config_message(load(vec![("sample", t)])).contains("Cannot set both `cmds` and `program`."));
}

#[test]
fn duplicate_variant_name_is_rejected() {
    let mut t = script_task("echo hello");
    t.linux = Some(Box::new(script_task("echo hello linux")));
    let r = load(vec![("test", t), ("test.linux", script_task("echo other"))]);
    assert!(config_message(r).contains("Duplicate task `test.linux`"));
}

#[test]
fn os_variant_is_preferred_for_bases_and_lookup() {
    let mut t = script_task("echo plain");
    t.linux = Some(Box::new(script_task("echo linux")));
    let child = extending(Task::new(), &["hello"]);
    let mom_file = load(vec![("hello", t), ("child", child)]).unwrap();
    let found = mom_file.get_task("hello", Os::Linux).unwrap();
    assert_eq!(found.get_name(), "hello.linux");
    let found = mom_file.get_task("hello", Os::Windows).unwrap();
    assert_eq!(found.get_name(), "hello");
    let child = mom_file.get_task("child", Os::Linux).unwrap();
    assert_eq!(child.script.as_deref(), Some("echo linux"));
}

#[test]
fn named_command_to_missing_task_fails_at_load() {
    let mut t = Task::new();
    t.cmds = Some(vec![Cmd::Cmd("echo a".to_string()), Cmd::TaskName("t2".to_string())]);
    let r = load(vec![("t1", t)]);
    assert!(config_message(r).contains("Task t1 cannot inherit from non-existing task t2"));
}

fn file_with(path: &str, bases: &[&str], tasks: Vec<(&str, Task)>) -> MomFile {
    let mut common = CommonFields::new();
    common.extend = StringOrVecString::Multiple(bases.iter().map(|s| s.to_string()).collect());
    let entries = tasks.into_iter().map(|(n, t)| (n.to_string(), t)).collect();
    let dir = path.rsplit_once('/').unwrap().0.to_string();
    MomFile::load(Version::V1, path.to_string(), dir, common, entries, Os::Linux).unwrap()
}

#[test]
fn test_extend_cyclic_dependency() {
    let mut mom_files = MomFilesContainer::new();
    let source = file_with("/tmp/x/mom.source.yml", &["mom.target.yml"], vec![("t1", script_task("echo hello t1"))]);
    let target = file_with("/tmp/x/mom.target.yml", &["mom.source.yml"], vec![("t1", script_task("echo hello t1.1"))]);
    mom_files.insert("/tmp/x/mom.source.yml".to_string(), source);
    mom_files.insert("/tmp/x/mom.target.yml".to_string(), target);

    let config_file = mom_files.read_mom_file("/tmp/x/mom.target.yml");
    match config_file {
        Err(TaskError::ConfigError(m)) => {
            assert!(m.starts_with("Found a cyclic dependency for mom file: "))
        }
        _ => panic!("expected a cycle"),
    }
}

#[test]
fn reading_asks_for_missing_files_then_merges() {
    let mut mom_files = MomFilesContainer::new();
    let mut own = script_task("echo hello t1.1");
    own.common.env.insert("EVAR1".to_string(), "ROOT_EVAL1.1".to_string());
    let source = file_with("/tmp/y/mom.source.yml", &["./mom.target.yml"], vec![("t1", own)]);
    mom_files.insert("/tmp/y/mom.source.yml".to_string(), source);
    match mom_files.read_mom_file("/tmp/y/mom.source.yml") {
        Ok(ReadOutcome::NeedsFile(p)) => assert_eq!(p, "/tmp/y/mom.target.yml"),
        _ => panic!("expected a request for the base"),
    }
    let mut base_task = script_task("echo hello t1");
    base_task.common.env.insert("EVAR2".to_string(), "ROOT_EVAL2".to_string());
    let target = file_with("/tmp/y/mom.target.yml", &[], vec![("t1", base_task), ("t2", script_task("echo t2"))]);
    mom_files.insert("/tmp/y/mom.target.yml".to_string(), target);
    match mom_files.read_mom_file("/tmp/y/mom.source.yml") {
        Ok(ReadOutcome::Ready(f)) => {
            let t1 = f.get_task("t1", Os::Linux).unwrap();
            assert_eq!(t1.script.as_deref(), Some("echo hello t1.1"));
            assert!(f.get_task("t2", Os::Linux).is_some());
            assert!(f.common.extend.is_empty());
        }
        _ => panic!("expected the merged file"),
    }
}

#[test]
fn flatten_error_messages_are_exact() {
    let mut t = script_task("echo hi");
    t.program = Some("foo".to_string());
    assert_eq!(
        config_message(load(vec![("task_1", t)])),
        "Task `task_1` failed:\nImproperly configured:\nCannot set both `script` and `program`."
    );
    assert_eq!(config_message(load(vec![("a:b", script_task("x"))])), "Invalid task name `a:b`");
    let mut t = script_task("echo hello");
    t.linux = Some(Box::new(script_task("echo hello linux")));
    assert_eq!(
        config_message(load(vec![("test", t), ("test.linux", script_task("x"))])),
        "Duplicate task `test.linux`"
    );
}
