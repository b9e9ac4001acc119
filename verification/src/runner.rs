//! Subprocess results and the environment through which commands run.
use vstd::prelude::*;

verus! {

/// Result of a subprocess execution.
#[derive(Debug, Clone, PartialEq)]
pub struct RunResult {
    pub exit_code: i32,
    pub stdout: String,
    pub stderr: String,
}

impl RunResult {
    pub fn new(exit_code: i32, stdout: String, stderr: String) -> (r: Self)
        ensures
            r.exit_code == exit_code,
            r.stdout == stdout,
            r.stderr == stderr,
    {
        RunResult { exit_code, stdout, stderr }
    }

    pub fn success(stdout: String) -> (r: Self)
        ensures
            r.exit_code == 0,
            r.stdout == stdout,
            r.stderr@ == Seq::<char>::empty(),
    {
        Self::new(0, stdout, String::new())
    }

    pub fn failure(exit_code: i32, stderr: String) -> (r: Self)
        ensures
            r.exit_code == exit_code,
            r.stdout@ == Seq::<char>::empty(),
            r.stderr == stderr,
    {
        Self::new(exit_code, String::new(), stderr)
    }

    pub fn is_success(&self) -> (b: bool)
        ensures
            b == (self.exit_code == 0),
    {
        self.exit_code == 0
    }
}

/// Why a file could not be read or written.
#[derive(Debug, Clone, PartialEq)]
pub struct IoError {
    /// The operating system refused access.
    pub permission_denied: bool,
    /// The error as the operating system describes it.
    pub message: String,
}

/// One entry of a directory listing.
#[derive(Debug, Clone, PartialEq)]
pub struct DirEntry {
    pub name: String,
    pub is_dir: bool,
    pub is_file: bool,
    pub is_symlink: bool,
    /// Size in bytes of a file (0 for other entries or when unknown).
    pub len: u64,
}

/// Operating system the commands run on.
#[derive(Debug, Clone, Copy, PartialEq, Eq, Structural)]
pub enum HostOs {
    MacOs,
    Linux,
    Windows,
    Other,
}

/// Kind of a progress message.
#[derive(Debug, Clone, Copy, PartialEq, Eq, Structural)]
pub enum Level {
    Info,
    Success,
    Warn,
    Error,
    Detail,
}

/// Handle to a process left running in the background.
pub trait BackgroundProcess {
    /// `Some(exit_code)` once the process has exited, `None` while it still runs.
    fn exit_code(&mut self) -> Option<i32>;
}

/// The environment commands act on: subprocesses, and the few other things the
/// command logic asks of the machine. Real and scripted implementations exist;
/// nothing is promised about what any of them answers.
pub trait Runner {
    fn run(&self, executable: &str, args: &[&str], working_dir: Option<&str>) -> RunResult;

    fn which(&self, executable: &str) -> Option<String>;

    /// The operating system the commands run on.
    fn host_os(&self) -> HostOs;

    /// Start `executable` in the background with stdout and stderr appended to
    /// `log_path`. The process outlives this one. `None` when the runner cannot
    /// spawn (test doubles) or the spawn failed.
    fn spawn_detached(&self, executable: &str, args: &[&str], log_path: &str) -> (r: Option<
        Box<dyn BackgroundProcess>,
    >)
        default_ensures
            r is None,
    {
        None
    }

    /// The value of an environment variable, when set.
    fn env_var(&self, name: &str) -> (r: Option<String>)
        default_ensures
            r is None,
    {
        None
    }

    /// Whether a file or directory exists at `path`.
    fn path_exists(&self, path: &str) -> (r: bool)
        default_ensures
            !r,
    {
        false
    }

    /// Whether a directory exists at `path`.
    fn is_dir(&self, path: &str) -> (r: bool)
        default_ensures
            !r,
    {
        false
    }

    /// Whether a regular file exists at `path`.
    fn is_file(&self, path: &str) -> (r: bool)
        default_ensures
            !r,
    {
        false
    }

    /// The names of the entries of the directory at `path`, when it can be read.
    fn list_dir(&self, path: &str) -> (r: Option<Vec<String>>)
        default_ensures
            r is None,
    {
        None
    }

    /// The contents of the text file at `path`.
    fn read_file(&self, path: &str) -> (r: Result<String, IoError>)
        default_ensures
            r is Err,
    {
        Err(IoError { permission_denied: false, message: String::new() })
    }

    /// The first `max_bytes` bytes of the file at `path`, decoded as UTF-8 with
    /// invalid sequences replaced; `None` when it cannot be read.
    fn read_head(&self, path: &str, max_bytes: usize) -> (r: Option<String>)
        default_ensures
            r is None,
    {
        None
    }

    /// Replaces the contents of the file at `path`.
    fn write_file(&self, path: &str, contents: &str) -> (r: Result<(), IoError>)
        default_ensures
            r is Err,
    {
        Err(IoError { permission_denied: false, message: String::new() })
    }

    /// Copies the file at `from` to `to`.
    fn copy_file(&self, from: &str, to: &str) -> (r: Result<(), IoError>)
        default_ensures
            r is Err,
    {
        Err(IoError { permission_denied: false, message: String::new() })
    }

    /// The user's home directory, when known.
    fn home_dir(&self) -> (r: Option<String>)
        default_ensures
            r is None,
    {
        None
    }

    /// Removes the directory at `path` with everything in it.
    fn remove_dir_all(&self, path: &str) -> (r: Result<(), IoError>)
        default_ensures
            r is Err,
    {
        Err(IoError { permission_denied: false, message: String::new() })
    }

    /// Removes the file at `path`.
    fn remove_file(&self, path: &str) -> (r: Result<(), IoError>)
        default_ensures
            r is Err,
    {
        Err(IoError { permission_denied: false, message: String::new() })
    }

    /// Creates the directory at `path` and its missing parents.
    fn create_dir_all(&self, path: &str) -> (r: Result<(), IoError>)
        default_ensures
            r is Err,
    {
        Err(IoError { permission_denied: false, message: String::new() })
    }

    /// The entries of the directory at `path` (symbolic links not followed),
    /// when it can be read.
    fn dir_entries(&self, path: &str) -> (r: Option<Vec<DirEntry>>)
        default_ensures
            r is None,
    {
        None
    }

    /// The canonical form of `path`, when it can be resolved.
    fn canonicalize(&self, path: &str) -> (r: Option<String>)
        default_ensures
            r is None,
    {
        None
    }

    /// Asks the user to pick one of `items`; `default` when nobody can answer.
    fn select(&self, prompt: &str, items: &[&str], default: usize) -> (r: usize)
        default_ensures
            r == default,
    {
        default
    }

    /// Directory for scratch files such as emulator logs.
    fn temp_dir(&self) -> (r: String)
        default_ensures
            r@.len() == 0,
    {
        String::new()
    }

    /// Waits `interval` before the next poll of a pending state.
    fn pause(&self, interval: std::time::Duration) {
    }

    /// Asks the user for a line of text; empty when nobody can answer.
    fn prompt(&self, prompt: &str) -> (r: String)
        default_ensures
            r@.len() == 0,
    {
        String::new()
    }

    /// Asks the user for a secret without echoing it; empty when nobody can answer.
    fn prompt_password(&self, prompt: &str) -> (r: String)
        default_ensures
            r@.len() == 0,
    {
        String::new()
    }

    /// Asks the user a yes/no question; `default` when nobody can answer.
    fn confirm(&self, prompt: &str, default: bool) -> (r: bool)
        default_ensures
            r == default,
    {
        default
    }

    /// Shows a progress message to the user.
    fn report(&self, level: Level, message: &str) {
    }
}


/// `Duration::from_secs`. Nothing is stated of the value: it is only handed to
/// `Runner::pause`.
#[verifier::external_body]
pub fn seconds(secs: u64) -> std::time::Duration {
    std::time::Duration::from_secs(secs)
}

} // verus!
