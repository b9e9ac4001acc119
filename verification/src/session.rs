//! A runner together with the record of what was asked of it.
//!
//! Commands act on the machine through a `Runner`, whose answers nothing here
//! can predict. A `Session` forwards each request to its runner and keeps, as
//! ghost state, the request with the answer that came back. Contracts then say
//! which requests a command makes, in which order, and how its result follows
//! from the answers it actually got. Progress messages and pauses are not
//! recorded.
use vstd::prelude::*;
use crate::runner::{BackgroundProcess, DirEntry, HostOs, IoError, Level, RunResult, Runner};

verus! {

/// One request to the runner with the answer it gave.
pub enum Call {
    /// A subprocess: executable, arguments, working directory, reply.
    Run { exe: Seq<char>, args: Seq<Seq<char>>, dir: Option<Seq<char>>, reply: RunResult },
    /// `PATH` lookup of an executable.
    Which { exe: Seq<char>, reply: Option<Seq<char>> },
    /// The operating system.
    Host { reply: HostOs },
    /// An environment variable.
    EnvVar { name: Seq<char>, reply: Option<Seq<char>> },
    /// Whether anything exists at a path.
    PathExists { path: Seq<char>, reply: bool },
    /// Whether a directory exists at a path.
    IsDir { path: Seq<char>, reply: bool },
    /// Whether a regular file exists at a path.
    IsFile { path: Seq<char>, reply: bool },
    /// The entry names of a directory.
    ListDir { path: Seq<char>, reply: Option<Seq<Seq<char>>> },
    /// The entries of a directory.
    DirEntries { path: Seq<char>, reply: Option<Seq<DirEntry>> },
    /// A whole text file, or the error: whether access was denied, and the
    /// message.
    ReadFile { path: Seq<char>, reply: Result<Seq<char>, (bool, Seq<char>)> },
    /// The head of a file.
    ReadHead { path: Seq<char>, max: usize, reply: Option<Seq<char>> },
    /// Replacing a file's contents.
    WriteFile { path: Seq<char>, contents: Seq<char>, reply: Result<(), (bool, Seq<char>)> },
    /// Copying a file.
    CopyFile { from: Seq<char>, to: Seq<char>, reply: Result<(), (bool, Seq<char>)> },
    /// Removing a directory tree.
    RemoveDirAll { path: Seq<char>, reply: Result<(), (bool, Seq<char>)> },
    /// Removing a file.
    RemoveFile { path: Seq<char>, reply: Result<(), (bool, Seq<char>)> },
    /// Creating a directory and its parents.
    CreateDirAll { path: Seq<char>, reply: Result<(), (bool, Seq<char>)> },
    /// Resolving a path.
    Canonicalize { path: Seq<char>, reply: Option<Seq<char>> },
    /// The home directory.
    HomeDir { reply: Option<Seq<char>> },
    /// A yes/no question to the user.
    Confirm { prompt: Seq<char>, default: bool, reply: bool },
    /// A choice among items.
    Select { prompt: Seq<char>, items: Seq<Seq<char>>, default: usize, reply: usize },
    /// A line of text from the user.
    Prompt { prompt: Seq<char>, reply: Seq<char> },
    /// A secret from the user.
    PromptPassword { prompt: Seq<char>, reply: Seq<char> },
    /// A background process, with its output appended to a log file.
    Spawn { exe: Seq<char>, args: Seq<Seq<char>>, log_path: Seq<char>, started: bool },
    /// The scratch directory.
    TempDir { reply: Seq<char> },
}

/// Whether `c` removes something from the file system.
pub open spec fn is_removal(c: Call) -> bool {
    c is RemoveDirAll || c is RemoveFile
}

/// A subprocess that only reads: `git ... worktree list` and `go env ...`.
pub open spec fn read_only_command(exe: Seq<char>, args: Seq<Seq<char>>) -> bool {
    ||| exe == "git"@ && args.len() >= 4 && args[2] == "worktree"@ && args[3] == "list"@
    ||| exe == "go"@ && args.len() >= 1 && args[0] == "env"@
}

/// Whether `c` may change the file system: a removal, a write, a copy, a
/// directory creation, or a subprocess other than a read-only one.
pub open spec fn changes_disk(c: Call) -> bool {
    ||| is_removal(c)
    ||| c is WriteFile
    ||| c is CopyFile
    ||| c is CreateDirAll
    ||| (c matches Call::Run { exe, args, .. } && !read_only_command(exe, args))
}

/// Whether `c` is an `adb -s <serial> emu kill`, which stops an emulator.
pub open spec fn kills_emulator(c: Call) -> bool {
    c matches Call::Run { args, .. } && args.len() == 4 && args[2] == "emu"@ && args[3] == "kill"@
}

/// `new` extends `old` without stopping any emulator.
pub open spec fn spares_emulators(old: Seq<Call>, new: Seq<Call>) -> bool {
    extends(old, new) && forall|i: int| old.len() <= i < new.len() ==> !kills_emulator(#[trigger] new[i])
}

/// None of the requests recorded in `new` after those of `old` may change the
/// file system.
pub open spec fn quiet(old: Seq<Call>, new: Seq<Call>) -> bool {
    forall|i: int| old.len() <= i < new.len() ==> !changes_disk(#[trigger] new[i])
}

/// `new` extends `old` with requests none of which may change the file system.
pub open spec fn reads_only(old: Seq<Call>, new: Seq<Call>) -> bool {
    extends(old, new) && quiet(old, new)
}

/// The views of a list of string slices.
pub open spec fn strs_view(s: Seq<&str>) -> Seq<Seq<char>> {
    s.map_values(|a: &str| a@)
}

/// The view of an optional string slice.
pub open spec fn opt_str(o: Option<&str>) -> Option<Seq<char>> {
    match o {
        Some(s) => Some(s@),
        None => None,
    }
}

/// The view of an optional string.
pub open spec fn opt_string(o: Option<String>) -> Option<Seq<char>> {
    match o {
        Some(s) => Some(s@),
        None => None,
    }
}

/// The names of a directory listing.
pub open spec fn opt_names(r: Option<Vec<String>>) -> Option<Seq<Seq<char>>> {
    match r {
        Some(v) => Some(crate::paths::string_views(v@)),
        None => None,
    }
}

/// The entries of a directory listing.
pub open spec fn opt_entries(r: Option<Vec<DirEntry>>) -> Option<Seq<DirEntry>> {
    match r {
        Some(v) => Some(v@),
        None => None,
    }
}

/// The text of a file read, or its error as plain values.
pub open spec fn read_reply(r: Result<String, IoError>) -> Result<Seq<char>, (bool, Seq<char>)> {
    match r {
        Ok(t) => Ok(t@),
        Err(e) => Err((e.permission_denied, e.message@)),
    }
}

/// The outcome of a file-system change as plain values.
pub open spec fn io_reply(r: Result<(), IoError>) -> Result<(), (bool, Seq<char>)> {
    match r {
        Ok(_) => Ok(()),
        Err(e) => Err((e.permission_denied, e.message@)),
    }
}

/// `new` is `old` with more requests recorded after it.
pub open spec fn extends(old: Seq<Call>, new: Seq<Call>) -> bool {
    old.len() <= new.len() && forall|i: int| 0 <= i < old.len() ==> new[i] == old[i]
}

/// The requests recorded in `new` after those of `old`.
pub open spec fn since(old: Seq<Call>, new: Seq<Call>) -> Seq<Call> {
    new.subrange(old.len() as int, new.len() as int)
}

/// The requests recorded up to `mid` stay at the front of those recorded up
/// to `end`.
pub proof fn lemma_since_prefix(start: Seq<Call>, mid: Seq<Call>, end: Seq<Call>)
    requires
        extends(start, mid),
        extends(mid, end),
    ensures
        extends(start, end),
        since(start, end).len() == since(start, mid).len() + since(mid, end).len(),
        since(start, end).take(since(start, mid).len() as int) == since(start, mid),
        since(start, end).skip(since(start, mid).len() as int) == since(mid, end),
{
    assert(since(start, end).take(since(start, mid).len() as int) =~= since(start, mid));
    assert(since(start, end).skip(since(start, mid).len() as int) =~= since(mid, end));
}

/// A subprocess request for `exe` with `args` and no working directory.
pub open spec fn is_run(c: Call, exe: Seq<char>, args: Seq<Seq<char>>) -> bool {
    c matches Call::Run { exe: e, args: a, dir, reply } && e == exe && a == args && dir is None
}

/// The reply of a subprocess request.
pub open spec fn reply_of(c: Call) -> RunResult
    recommends
        c is Run,
{
    match c {
        Call::Run { reply, .. } => reply,
        _ => vstd::pervasive::arbitrary(),
    }
}

/// A runner and the requests made of it so far.
pub struct Session<'a, R: Runner> {
    runner: &'a R,
    log: Ghost<Seq<Call>>,
}

impl<'a, R: Runner> Session<'a, R> {
    /// The requests made so far, each with its answer, oldest first.
    pub closed spec fn calls(&self) -> Seq<Call> {
        self.log@
    }

    /// The runner the session asks.
    pub closed spec fn source(&self) -> &'a R {
        self.runner
    }

    /// A session on `runner` with nothing asked yet.
    pub fn new(runner: &'a R) -> (s: Self)
        ensures
            s.calls() == Seq::<Call>::empty(),
            s.source() == runner,
    {
        Session { runner, log: Ghost(Seq::empty()) }
    }

    /// The runner the session asks, for work whose requests the session does
    /// not record (an operation handed to `run_on_platform` records its own).
    pub fn source_runner(&self) -> (r: &'a R)
        ensures
            r == self.source(),
    {
        self.runner
    }

    /// Runs a subprocess.
    pub fn run(&mut self, exe: &str, args: &[&str], dir: Option<&str>) -> (r: RunResult)
        ensures
            final(self).source() == old(self).source(),
            final(self).calls() == old(self).calls().push(
                Call::Run { exe: exe@, args: strs_view(args@), dir: opt_str(dir), reply: r },
            ),
    {
        let r = self.runner.run(exe, args, dir);
        proof {
            self.log@ = self.log@.push(Call::Run { exe: exe@, args: strs_view(args@), dir: opt_str(dir), reply: r });
        }
        r
    }

    /// Looks `exe` up on `PATH`.
    pub fn which(&mut self, exe: &str) -> (r: Option<String>)
        ensures
            final(self).source() == old(self).source(),
            final(self).calls() == old(self).calls().push(Call::Which { exe: exe@, reply: opt_string(r) }),
    {
        let r = self.runner.which(exe);
        proof {
            self.log@ = self.log@.push(Call::Which { exe: exe@, reply: opt_string(r) });
        }
        r
    }

    /// The operating system.
    pub fn host_os(&mut self) -> (r: HostOs)
        ensures
            final(self).source() == old(self).source(),
            final(self).calls() == old(self).calls().push(Call::Host { reply: r }),
    {
        let r = self.runner.host_os();
        proof {
            self.log@ = self.log@.push(Call::Host { reply: r });
        }
        r
    }

    /// An environment variable.
    pub fn env_var(&mut self, name: &str) -> (r: Option<String>)
        ensures
            final(self).source() == old(self).source(),
            final(self).calls() == old(self).calls().push(Call::EnvVar { name: name@, reply: opt_string(r) }),
    {
        let r = self.runner.env_var(name);
        proof {
            self.log@ = self.log@.push(Call::EnvVar { name: name@, reply: opt_string(r) });
        }
        r
    }

    /// Whether anything exists at `path`.
    pub fn path_exists(&mut self, path: &str) -> (r: bool)
        ensures
            final(self).source() == old(self).source(),
            final(self).calls() == old(self).calls().push(Call::PathExists { path: path@, reply: r }),
    {
        let r = self.runner.path_exists(path);
        proof {
            self.log@ = self.log@.push(Call::PathExists { path: path@, reply: r });
        }
        r
    }

    /// Whether a directory exists at `path`.
    pub fn is_dir(&mut self, path: &str) -> (r: bool)
        ensures
            final(self).source() == old(self).source(),
            final(self).calls() == old(self).calls().push(Call::IsDir { path: path@, reply: r }),
    {
        let r = self.runner.is_dir(path);
        proof {
            self.log@ = self.log@.push(Call::IsDir { path: path@, reply: r });
        }
        r
    }

    /// Whether a regular file exists at `path`.
    pub fn is_file(&mut self, path: &str) -> (r: bool)
        ensures
            final(self).source() == old(self).source(),
            final(self).calls() == old(self).calls().push(Call::IsFile { path: path@, reply: r }),
    {
        let r = self.runner.is_file(path);
        proof {
            self.log@ = self.log@.push(Call::IsFile { path: path@, reply: r });
        }
        r
    }

    /// The entry names of the directory at `path`.
    pub fn list_dir(&mut self, path: &str) -> (r: Option<Vec<String>>)
        ensures
            final(self).source() == old(self).source(),
            final(self).calls() == old(self).calls().push(
                Call::ListDir { path: path@, reply: opt_names(r) },
            ),
    {
        let r = self.runner.list_dir(path);
        proof {
            self.log@ = self.log@.push(
                Call::ListDir { path: path@, reply: opt_names(r) },
            );
        }
        r
    }

    /// The entries of the directory at `path`.
    pub fn dir_entries(&mut self, path: &str) -> (r: Option<Vec<DirEntry>>)
        ensures
            final(self).source() == old(self).source(),
            final(self).calls() == old(self).calls().push(
                Call::DirEntries { path: path@, reply: opt_entries(r) },
            ),
    {
        let r = self.runner.dir_entries(path);
        proof {
            self.log@ = self.log@.push(Call::DirEntries { path: path@, reply: opt_entries(r) });
        }
        r
    }

    /// The contents of the text file at `path`.
    pub fn read_file(&mut self, path: &str) -> (r: Result<String, IoError>)
        ensures
            final(self).source() == old(self).source(),
            final(self).calls() == old(self).calls().push(
                Call::ReadFile { path: path@, reply: read_reply(r) },
            ),
    {
        let r = self.runner.read_file(path);
        proof {
            self.log@ = self.log@.push(Call::ReadFile { path: path@, reply: read_reply(r) });
        }
        r
    }

    /// The first `max_bytes` bytes of the file at `path`.
    pub fn read_head(&mut self, path: &str, max_bytes: usize) -> (r: Option<String>)
        ensures
            final(self).source() == old(self).source(),
            final(self).calls() == old(self).calls().push(
                Call::ReadHead { path: path@, max: max_bytes, reply: opt_string(r) },
            ),
    {
        let r = self.runner.read_head(path, max_bytes);
        proof {
            self.log@ = self.log@.push(Call::ReadHead { path: path@, max: max_bytes, reply: opt_string(r) });
        }
        r
    }

    /// Replaces the contents of the file at `path`.
    pub fn write_file(&mut self, path: &str, contents: &str) -> (r: Result<(), IoError>)
        ensures
            final(self).source() == old(self).source(),
            final(self).calls() == old(self).calls().push(
                Call::WriteFile { path: path@, contents: contents@, reply: io_reply(r) },
            ),
    {
        let r = self.runner.write_file(path, contents);
        proof {
            self.log@ = self.log@.push(Call::WriteFile { path: path@, contents: contents@, reply: io_reply(r) });
        }
        r
    }

    /// Copies the file at `from` to `to`.
    pub fn copy_file(&mut self, from: &str, to: &str) -> (r: Result<(), IoError>)
        ensures
            final(self).source() == old(self).source(),
            final(self).calls() == old(self).calls().push(Call::CopyFile { from: from@, to: to@, reply: io_reply(r) }),
    {
        let r = self.runner.copy_file(from, to);
        proof {
            self.log@ = self.log@.push(Call::CopyFile { from: from@, to: to@, reply: io_reply(r) });
        }
        r
    }

    /// Removes the directory tree at `path`.
    pub fn remove_dir_all(&mut self, path: &str) -> (r: Result<(), IoError>)
        ensures
            final(self).source() == old(self).source(),
            final(self).calls() == old(self).calls().push(Call::RemoveDirAll { path: path@, reply: io_reply(r) }),
    {
        let r = self.runner.remove_dir_all(path);
        proof {
            self.log@ = self.log@.push(Call::RemoveDirAll { path: path@, reply: io_reply(r) });
        }
        r
    }

    /// Removes the file at `path`.
    pub fn remove_file(&mut self, path: &str) -> (r: Result<(), IoError>)
        ensures
            final(self).source() == old(self).source(),
            final(self).calls() == old(self).calls().push(Call::RemoveFile { path: path@, reply: io_reply(r) }),
    {
        let r = self.runner.remove_file(path);
        proof {
            self.log@ = self.log@.push(Call::RemoveFile { path: path@, reply: io_reply(r) });
        }
        r
    }

    /// Creates the directory at `path` and its missing parents.
    pub fn create_dir_all(&mut self, path: &str) -> (r: Result<(), IoError>)
        ensures
            final(self).source() == old(self).source(),
            final(self).calls() == old(self).calls().push(Call::CreateDirAll { path: path@, reply: io_reply(r) }),
    {
        let r = self.runner.create_dir_all(path);
        proof {
            self.log@ = self.log@.push(Call::CreateDirAll { path: path@, reply: io_reply(r) });
        }
        r
    }

    /// The canonical form of `path`.
    pub fn canonicalize(&mut self, path: &str) -> (r: Option<String>)
        ensures
            final(self).source() == old(self).source(),
            final(self).calls() == old(self).calls().push(Call::Canonicalize { path: path@, reply: opt_string(r) }),
    {
        let r = self.runner.canonicalize(path);
        proof {
            self.log@ = self.log@.push(Call::Canonicalize { path: path@, reply: opt_string(r) });
        }
        r
    }

    /// The user's home directory.
    pub fn home_dir(&mut self) -> (r: Option<String>)
        ensures
            final(self).source() == old(self).source(),
            final(self).calls() == old(self).calls().push(Call::HomeDir { reply: opt_string(r) }),
    {
        let r = self.runner.home_dir();
        proof {
            self.log@ = self.log@.push(Call::HomeDir { reply: opt_string(r) });
        }
        r
    }

    /// Asks the user a yes/no question.
    pub fn confirm(&mut self, prompt: &str, default: bool) -> (r: bool)
        ensures
            final(self).source() == old(self).source(),
            final(self).calls() == old(self).calls().push(Call::Confirm { prompt: prompt@, default, reply: r }),
    {
        let r = self.runner.confirm(prompt, default);
        proof {
            self.log@ = self.log@.push(Call::Confirm { prompt: prompt@, default, reply: r });
        }
        r
    }

    /// Asks the user to pick one of `items`.
    pub fn select(&mut self, prompt: &str, items: &[&str], default: usize) -> (r: usize)
        ensures
            final(self).source() == old(self).source(),
            final(self).calls() == old(self).calls().push(
                Call::Select { prompt: prompt@, items: strs_view(items@), default, reply: r },
            ),
    {
        let r = self.runner.select(prompt, items, default);
        proof {
            self.log@ = self.log@.push(Call::Select { prompt: prompt@, items: strs_view(items@), default, reply: r });
        }
        r
    }

    /// Asks the user for a line of text.
    pub fn prompt(&mut self, prompt: &str) -> (r: String)
        ensures
            final(self).source() == old(self).source(),
            final(self).calls() == old(self).calls().push(Call::Prompt { prompt: prompt@, reply: r@ }),
    {
        let r = self.runner.prompt(prompt);
        proof {
            self.log@ = self.log@.push(Call::Prompt { prompt: prompt@, reply: r@ });
        }
        r
    }

    /// Asks the user for a secret.
    pub fn prompt_password(&mut self, prompt: &str) -> (r: String)
        ensures
            final(self).source() == old(self).source(),
            final(self).calls() == old(self).calls().push(Call::PromptPassword { prompt: prompt@, reply: r@ }),
    {
        let r = self.runner.prompt_password(prompt);
        proof {
            self.log@ = self.log@.push(Call::PromptPassword { prompt: prompt@, reply: r@ });
        }
        r
    }

    /// Starts a background process.
    pub fn spawn_detached(&mut self, exe: &str, args: &[&str], log_path: &str) -> (r: Option<Box<dyn BackgroundProcess>>)
        ensures
            final(self).source() == old(self).source(),
            final(self).calls() == old(self).calls().push(
                Call::Spawn { exe: exe@, args: strs_view(args@), log_path: log_path@, started: r is Some },
            ),
    {
        let r = self.runner.spawn_detached(exe, args, log_path);
        proof {
            self.log@ = self.log@.push(Call::Spawn { exe: exe@, args: strs_view(args@), log_path: log_path@, started: r is Some });
        }
        r
    }

    /// The scratch directory.
    pub fn temp_dir(&mut self) -> (r: String)
        ensures
            final(self).source() == old(self).source(),
            final(self).calls() == old(self).calls().push(Call::TempDir { reply: r@ }),
    {
        let r = self.runner.temp_dir();
        proof {
            self.log@ = self.log@.push(Call::TempDir { reply: r@ });
        }
        r
    }

    /// Shows a progress message; not recorded.
    pub fn report(&mut self, level: Level, message: &str)
        ensures
            final(self).source() == old(self).source(),
            final(self).calls() == old(self).calls(),
    {
        self.runner.report(level, message);
    }

    /// Waits before the next poll; not recorded.
    pub fn pause(&mut self, interval: std::time::Duration)
        ensures
            final(self).source() == old(self).source(),
            final(self).calls() == old(self).calls(),
    {
        self.runner.pause(interval);
    }
}

} // verus!
