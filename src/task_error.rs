use vstd::prelude::*;

verus! {

/// Why a task failed.
#[derive(Clone, Debug)]
enum TaskErrorCause {
    /// Its process could not be started.
    Spawn { msg: String },
    /// Its command exited unsuccessfully.
    Exit { command: String, exit_code: i32 },
    /// The task runner itself failed.
    Internal,
}

/// The failure of one task.
#[derive(Clone, Debug)]
pub struct TaskError {
    task_id: String,
    cause: TaskErrorCause,
}

/// A warning raised while running one task.
#[derive(Clone, Debug)]
pub struct TaskWarning {
    pub task_id: String,
    pub missing_platform_env: Vec<String>,
}

/// A change to the lockfile: emptied, or holding new content.
#[derive(Clone, Debug, PartialEq, Eq)]
pub enum LockfileChange {
    Empty,
    WithContent(Vec<u8>),
}

/// A change that a package watcher reports.
#[derive(Clone, Debug, PartialEq, Eq)]
pub enum PackageChangeEvent {
    /// The files of the named package changed.
    Package { name: String },
    /// The set of packages has to be discovered again.
    Rediscover,
}

impl TaskError {
    /// The exit code of the failed command, where the task failed by one.
    pub closed spec fn spec_exit_code(&self) -> Option<i32> {
        match self.cause {
            TaskErrorCause::Exit { exit_code, .. } => Some(exit_code),
            _ => None,
        }
    }

    pub closed spec fn spec_task_id(&self) -> Seq<char> {
        self.task_id@
    }

    /// The task `task_id` failed because `command` exited with `exit_code`.
    pub fn from_exit(task_id: String, command: String, exit_code: i32) -> (r: Self)
        ensures
            r.spec_exit_code() == Some(exit_code),
            r.spec_task_id() == task_id@,
    {
        TaskError { task_id, cause: TaskErrorCause::Exit { command, exit_code } }
    }

    /// The process of task `task_id` could not be started, for the reason
    /// `msg`.
    pub fn from_spawn(task_id: String, msg: String) -> (r: Self)
        ensures
            r.spec_exit_code() is None,
            r.spec_task_id() == task_id@,
    {
        TaskError { task_id, cause: TaskErrorCause::Spawn { msg } }
    }

    /// The task runner failed while running task `task_id`.
    pub fn internal(task_id: String) -> (r: Self)
        ensures
            r.spec_exit_code() is None,
            r.spec_task_id() == task_id@,
    {
        TaskError { task_id, cause: TaskErrorCause::Internal }
    }

    /// The exit code of the failed command, where the task failed by one.
    pub fn exit_code(&self) -> (r: Option<i32>)
        ensures
            r == self.spec_exit_code(),
    {
        match self.cause {
            TaskErrorCause::Exit { exit_code, .. } => Some(exit_code),
            _ => None,
        }
    }
}

} // verus!
