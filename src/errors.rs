use vstd::prelude::*;

verus! {

/// An error that can occur while loading or running a task.
#[derive(Debug, PartialEq, Eq)]
pub enum TaskError {
    /// A failure while running a task.
    RuntimeError(String),
    /// A static misconfiguration.
    ConfigError(String),
    /// A referenced task does not exist.
    NotFound(String),
}

/// Message shown for an error.
pub open spec fn task_error_text(e: TaskError) -> Seq<char> {
    match e {
        TaskError::RuntimeError(r) => "Runtime error:\n"@ + r@,
        TaskError::ConfigError(r) => "Improperly configured:\n"@ + r@,
        TaskError::NotFound(n) => "Task `"@ + n@ + "` not found."@,
    }
}

/// Message shown for an error that knows the task it came from.
pub open spec fn aware_error_text(e: AwareTaskError) -> Seq<char> {
    "Task `"@ + e.task_name@ + "` failed:\n"@ + task_error_text(e.error)
}

/// Joins an error message with the messages of its causes, one per line.
pub open spec fn cause_chain_text(chain: Seq<Seq<char>>) -> Seq<char>
    decreases chain.len(),
{
    if chain.len() == 0 {
        Seq::empty()
    } else if chain.len() == 1 {
        chain[0]
    } else {
        cause_chain_text(chain.drop_last()) + "\nCaused by: "@ + chain.last()
    }
}

impl TaskError {
    /// The message of this error.
    pub fn to_string(&self) -> (r: String)
        ensures
            r@ == task_error_text(*self),
    {
        match self {
            TaskError::RuntimeError(reason) => {
                let mut s = String::from_str("Runtime error:\n");
                s.append(reason.as_str());
                s
            },
            TaskError::ConfigError(reason) => {
                let mut s = String::from_str("Improperly configured:\n");
                s.append(reason.as_str());
                s
            },
            TaskError::NotFound(name) => {
                let mut s = String::from_str("Task `");
                s.append(name.as_str());
                s.append("` not found.");
                s
            },
        }
    }

    /// An I/O failure becomes a runtime error carrying the failure's message.
    pub fn from_io_message(message: &str) -> (r: TaskError)
        ensures
            r matches TaskError::RuntimeError(m) && m@ == message@,
    {
        TaskError::RuntimeError(String::from_str(message))
    }

    /// A template-engine failure becomes a configuration error whose message
    /// lists the failure and each of its causes, outermost first.
    pub fn from_template_error_chain(chain: &Vec<String>) -> (r: TaskError)
        ensures
            r matches TaskError::ConfigError(m) && m@ == cause_chain_text(chain@.map_values(|s: String| s@)),
    {
        let ghost views = chain@.map_values(|s: String| s@);
        let mut text = String::new();
        let mut i: usize = 0;
        while i < chain.len()
            invariant
                i <= chain.len(),
                views == chain@.map_values(|s: String| s@),
                text@ == cause_chain_text(views.subrange(0, i as int)),
            decreases chain.len() - i,
        {
            proof {
                assert(views.subrange(0, i + 1).drop_last() =~= views.subrange(0, i as int));
            }
            if i > 0 {
                text.append("\nCaused by: ");
            }
            text.append(chain[i].as_str());
            i = i + 1;
        }
        proof {
            assert(views.subrange(0, chain.len() as int) =~= views);
        }
        TaskError::ConfigError(text)
    }

    /// A failed sub-task becomes a runtime error of its caller, whose
    /// message is the sub-task's full message.
    pub fn from_aware(err: AwareTaskError) -> (r: TaskError)
        ensures
            r matches TaskError::RuntimeError(m) && m@ == aware_error_text(err),
    {
        TaskError::RuntimeError(err.to_string())
    }
}

/// An error tagged with the name of the task that failed.
#[derive(Debug, PartialEq, Eq)]
pub struct AwareTaskError {
    /// Name of the task that failed.
    pub task_name: String,
    /// The error that made it fail.
    pub error: TaskError,
}

impl AwareTaskError {
    /// Tags `error` with the task `task_name`.
    pub fn new(task_name: &str, error: TaskError) -> (r: AwareTaskError)
        ensures
            r.task_name@ == task_name@,
            r.error == error,
    {
        AwareTaskError { task_name: String::from_str(task_name), error }
    }

    /// The message of this error: the task's name, then the cause.
    pub fn to_string(&self) -> (r: String)
        ensures
            r@ == aware_error_text(*self),
    {
        let mut s = String::from_str("Task `");
        s.append(self.task_name.as_str());
        s.append("` failed:\n");
        let inner = self.error.to_string();
        s.append(inner.as_str());
        s
    }
}

} // verus!
