use mom_task::common::StringOrVecString;
use mom_task::resolve::{resolve_task_inheritance, Os};
use mom_task::tasks::Task;

fn named(name: &str, base: &str) -> Task {
    let mut t = Task::new();
    t.name = name.to_string();
    t.common.extend = StringOrVecString::Single(base.to_string());
    t
}

#[test]
fn two_task_cycle_names_one_task() {
    let r = resolve_task_inheritance(vec![named("task_1", "task_2"), named("task_2", "task_1")], Os::Linux);
    match r {
        Err(e) => {
            let m = e.to_string();
            assert!(m.contains("cyclic dependency"));
            assert!(m.contains("task_1") || m.contains("task_2"));
        }
        Ok(_) => panic!("expected a cycle"),
    }
}

#[test]
fn string_or_vec_iteration() {
    let s = StringOrVecString::Single("a".to_string());
    assert_eq!(s.iter(), vec!["a".to_string()]);
    assert!(!s.is_empty());
    let m = StringOrVecString::Multiple(vec![]);
    assert!(m.is_empty());
    assert_eq!(StringOrVecString::Multiple(vec!["x".to_string(), "y".to_string()]).iter().len(), 2);
}
