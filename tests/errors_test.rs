use mom_task::errors::{AwareTaskError, TaskError};

#[test]
fn test_from_err_to_task_error() {
    let err = std::io::Error::new(std::io::ErrorKind::Other, "test");
    let task_err = TaskError::from_io_message(&err.to_string());
    let expected = TaskError::RuntimeError(String::from("test"));
    assert_eq!(task_err, expected);

    assert_eq!(task_err.to_string(), "Runtime error:\ntest");
}

#[test]
fn test_from_err_with_inner_to_task_error() {
    let err = std::io::Error::new(std::io::ErrorKind::Other, "test");
    let err = std::io::Error::new(std::io::ErrorKind::Other, err);
    let task_err = TaskError::from_io_message(&err.to_string());
    let expected = TaskError::RuntimeError(String::from("test"));
    assert_eq!(task_err, expected);

    assert_eq!(task_err.to_string(), "Runtime error:\ntest");
}

#[test]
fn test_from_tera_err_wit_cause_to_task_error() {
    // Template errors carry a cause, which goes on its own line.
    let err = tera::Error::from(std::io::Error::new(std::io::ErrorKind::Other, "test"));
    let mut chain: Vec<String> = vec![err.to_string()];
    let mut source = std::error::Error::source(&err);
    while let Some(inner) = source {
        chain.push(inner.to_string());
        source = inner.source();
    }
    let task_err = TaskError::from_template_error_chain(&chain);
    let expected = TaskError::ConfigError(String::from(
        "Io error while writing rendered value to output: Other\nCaused by: test",
    ));
    assert_eq!(task_err, expected);

    assert_eq!(task_err.to_string(), "Improperly configured:\nIo error while writing rendered value to output: Other\nCaused by: test");
}

#[test]
fn test_from_aware_task_error_to_task_error() {
    let err = AwareTaskError::new("test", TaskError::ConfigError(String::from("test")));
    let task_err = TaskError::from_aware(err);
    let expected = TaskError::RuntimeError(String::from(
        "Task `test` failed:\nImproperly configured:\ntest",
    ));
    assert_eq!(task_err, expected);

    assert_eq!(
        task_err.to_string(),
        "Runtime error:\nTask `test` failed:\nImproperly configured:\ntest"
    );
}

#[test]
fn test_not_found_task_err() {
    let err = TaskError::NotFound(String::from("test"));
    assert_eq!(err.to_string(), "Task `test` not found.");
}
