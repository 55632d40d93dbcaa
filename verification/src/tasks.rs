//! The development tasks and how their command line is read.

use vstd::prelude::*;

verus! {

/// A development task, as named on the command line.
#[derive(Debug)]
pub enum Task {
    /// Override the dependency `package` with the local sources at `path`.
    Override { package: String, path: String },
    /// Prepare the development environment.
    Prepare,
    /// Print the list of tasks.
    Usage,
}

/// Why the command line of a task is refused.
#[derive(Debug, Clone, Copy, PartialEq, Eq, Structural)]
pub enum TaskError {
    /// `override` came without the name of the crate.
    MissingCrateName,
    /// `override` came without the path of the local sources.
    MissingSourcesPath,
}

impl TaskError {
    /// The message that reports the error.
    pub fn message(&self) -> (r: String)
        ensures
            r@ == match self {
                TaskError::MissingCrateName => "Missing crate name"@,
                TaskError::MissingSourcesPath => "Missing local sources path"@,
            },
    {
        match self {
            TaskError::MissingCrateName => String::from_str("Missing crate name"),
            TaskError::MissingSourcesPath => String::from_str("Missing local sources path"),
        }
    }
}

/// The task named by the arguments (the program name left out): `override`
/// with a crate name and a path, `prepare`, or else the usage; arguments
/// after those a task reads are ignored.
pub fn parse_task(args: &Vec<String>) -> (r: Result<Task, TaskError>)
    ensures
        args@.len() > 0 && args@[0]@ == "override"@ ==> match r {
            Ok(Task::Override { package, path }) => args@.len() >= 3 && package@ == args@[1]@
                && path@ == args@[2]@,
            Err(TaskError::MissingCrateName) => args@.len() == 1,
            Err(TaskError::MissingSourcesPath) => args@.len() == 2,
            _ => false,
        },
        args@.len() > 0 && args@[0]@ == "prepare"@ ==> r matches Ok(Task::Prepare),
        args@.len() == 0 || (args@[0]@ != "override"@ && args@[0]@ != "prepare"@) ==> r matches Ok(
            Task::Usage,
        ),
{
    proof {
        reveal_strlit("override");
        reveal_strlit("prepare");
        assert("override"@.len() != "prepare"@.len());
    }
    if args.len() == 0 {
        return Ok(Task::Usage);
    }
    if args[0] == String::from_str("override") {
        if args.len() < 2 {
            return Err(TaskError::MissingCrateName);
        }
        if args.len() < 3 {
            return Err(TaskError::MissingSourcesPath);
        }
        Ok(Task::Override { package: args[1].clone(), path: args[2].clone() })
    } else if args[0] == String::from_str("prepare") {
        Ok(Task::Prepare)
    } else {
        Ok(Task::Usage)
    }
}

/// The list of tasks, as printed when no known task is named.
pub fn usage() -> (r: String)
    ensures
        r@ == "Tasks:\n\noverride Override dependency with local source\nprepare  Prepare development environment\n"@,
{
    String::from_str(
        "Tasks:\n\noverride Override dependency with local source\nprepare  Prepare development environment\n",
    )
}

} // verus!
