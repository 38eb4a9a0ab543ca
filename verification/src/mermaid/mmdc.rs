//! The external Mermaid CLI (`mmdc`): its configuration, its failure modes
//! and their messages. Running the process, the `PATH` search and the
//! caches are the application's part; it reports what happened through the
//! constructors here.
use vstd::prelude::*;
use crate::util::text::{decimal, push_char, push_decimal, push_str, to_owned, trim};

verus! {

/// Default hard timeout for one `mmdc` invocation, in milliseconds.
pub const DEFAULT_TIMEOUT_MS: u64 = 10_000;

/// Longest stderr excerpt kept in an [`MmdcError::Exit`], in characters.
pub const STDERR_EXCERPT: usize = 400;

/// A failure while rendering through `mmdc`.
#[derive(Debug, Clone, PartialEq, Eq)]
pub enum MmdcError {
    /// The configured command was not found on `PATH`.
    NotFound(String),
    /// The process could not be started.
    Spawn {
        /// Command that failed to start.
        command: String,
        /// OS error text.
        message: String,
    },
    /// The process exceeded the deadline and was killed.
    Timeout {
        /// Command that timed out.
        command: String,
        /// Timeout in seconds.
        seconds: u64,
    },
    /// The process exited with a non-zero status.
    Exit {
        /// Command that failed.
        command: String,
        /// Exit status description.
        status: String,
        /// Captured stderr (trimmed).
        stderr: String,
    },
    /// The output file was missing or unreadable.
    Output {
        /// Command that produced the output.
        command: String,
        /// I/O or decode error text.
        message: String,
    },
}

/// The message of an [`MmdcError`].
pub open spec fn mmdc_error_text(e: MmdcError) -> Seq<char> {
    match e {
        MmdcError::NotFound(c) => "`"@ + c@ + "` was not found on PATH"@,
        MmdcError::Spawn { command, message } => "cannot start `"@ + command@ + "`: "@ + message@,
        MmdcError::Timeout { command, seconds } => "`"@ + command@ + "` timed out after "@ + decimal(
            seconds as nat,
        ) + "s"@,
        MmdcError::Exit { command, status, stderr } => "`"@ + command@ + "` exited with "@ + status@
            + ": "@ + stderr@,
        MmdcError::Output { command, message } => "cannot read the diagram rendered by `"@ + command@
            + "`: "@ + message@,
    }
}

impl MmdcError {
    /// The error's message.
    pub fn describe(&self) -> (s: String)
        ensures
            s@ == mmdc_error_text(*self),
    {
        match self {
            MmdcError::NotFound(c) => {
                let mut s = to_owned("`");
                push_str(&mut s, c.as_str());
                push_str(&mut s, "` was not found on PATH");
                s
            },
            MmdcError::Spawn { command, message } => {
                let mut s = to_owned("cannot start `");
                push_str(&mut s, command.as_str());
                push_str(&mut s, "`: ");
                push_str(&mut s, message.as_str());
                s
            },
            MmdcError::Timeout { command, seconds } => {
                let mut s = to_owned("`");
                push_str(&mut s, command.as_str());
                push_str(&mut s, "` timed out after ");
                push_decimal(&mut s, *seconds);
                push_str(&mut s, "s");
                s
            },
            MmdcError::Exit { command, status, stderr } => {
                let mut s = to_owned("`");
                push_str(&mut s, command.as_str());
                push_str(&mut s, "` exited with ");
                push_str(&mut s, status.as_str());
                push_str(&mut s, ": ");
                push_str(&mut s, stderr.as_str());
                s
            },
            MmdcError::Output { command, message } => {
                let mut s = to_owned("cannot read the diagram rendered by `");
                push_str(&mut s, command.as_str());
                push_str(&mut s, "`: ");
                push_str(&mut s, message.as_str());
                s
            },
        }
    }
}

/// The stderr excerpt kept in an exit error: the trimmed text, cut to its
/// first [`STDERR_EXCERPT`] characters and marked with `…` when longer.
pub open spec fn stderr_excerpt(s: Seq<char>) -> Seq<char> {
    let t = trim(s);
    if t.len() <= 400 {
        t
    } else {
        t.take(400) + "…"@
    }
}

/// Shortens captured stderr for an error message.
pub fn trim_stderr(s: &str) -> (out: String)
    ensures
        out@ == stderr_excerpt(s@),
{
    let t = crate::util::text::trim_chars(crate::util::text::chars_of(s).as_slice());
    if t.len() <= STDERR_EXCERPT {
        return crate::util::text::string_of(t.as_slice());
    }
    let mut out = String::new();
    let mut k: usize = 0;
    while k < STDERR_EXCERPT
        invariant
            k <= STDERR_EXCERPT,
            STDERR_EXCERPT < t@.len(),
            out@ == t@.take(k as int),
        decreases STDERR_EXCERPT - k,
    {
        push_char(&mut out, t[k]);
        k += 1;
        assert(t@.take(k as int) == t@.take(k - 1).push(t@[k - 1]));
    }
    push_str(&mut out, "…");
    out
}

/// The description of an exit status: the exit code in decimal, or
/// `signal` when the process was killed by one.
pub open spec fn status_text(code: Option<i32>) -> Seq<char> {
    match code {
        Some(c) => if c < 0 {
            "-"@ + decimal((-(c as int)) as nat)
        } else {
            decimal(c as nat)
        },
        None => "signal"@,
    }
}

/// Renders Mermaid sources through the `mmdc` CLI: the command, the hard
/// timeout and the on-disk cache directory.
#[derive(Debug, Clone)]
pub struct MmdcRunner {
    command: String,
    timeout_ms: u64,
    cache_dir: Option<String>,
}

impl MmdcRunner {
    pub closed spec fn command_view(&self) -> Seq<char> {
        self.command@
    }

    pub closed spec fn timeout_view(&self) -> u64 {
        self.timeout_ms
    }

    pub closed spec fn cache_dir_view(&self) -> Option<Seq<char>> {
        match self.cache_dir {
            Some(d) => Some(d@),
            None => None,
        }
    }

    /// A runner for `command` with the default timeout and the given cache
    /// location (the platform's cache directory, looked up by the caller).
    pub fn new(command: &str, cache_dir: Option<String>) -> (r: Self)
        ensures
            r.command_view() == command@,
            r.timeout_view() == DEFAULT_TIMEOUT_MS,
            r.cache_dir_view() == (match cache_dir {
                Some(d) => Some(d@),
                None => None::<Seq<char>>,
            }),
    {
        MmdcRunner { command: to_owned(command), timeout_ms: DEFAULT_TIMEOUT_MS, cache_dir }
    }

    /// Overrides the hard timeout.
    pub fn with_timeout(self, timeout_ms: u64) -> (r: Self)
        ensures
            r.command_view() == self.command_view(),
            r.timeout_view() == timeout_ms,
            r.cache_dir_view() == self.cache_dir_view(),
    {
        MmdcRunner { timeout_ms, ..self }
    }

    /// Overrides (or disables, with `None`) the on-disk cache directory.
    pub fn with_cache_dir(self, dir: Option<String>) -> (r: Self)
        ensures
            r.command_view() == self.command_view(),
            r.timeout_view() == self.timeout_view(),
            r.cache_dir_view() == (match dir {
                Some(d) => Some(d@),
                None => None::<Seq<char>>,
            }),
    {
        MmdcRunner { cache_dir: dir, ..self }
    }

    /// The configured command name.
    pub fn command(&self) -> (c: &str)
        ensures
            c@ == self.command_view(),
    {
        self.command.as_str()
    }

    /// The hard timeout in milliseconds.
    pub fn timeout_ms(&self) -> (t: u64)
        ensures
            t == self.timeout_view(),
    {
        self.timeout_ms
    }

    /// The on-disk cache directory, if any.
    pub fn cache_dir(&self) -> (d: Option<&str>)
        ensures
            match d {
                Some(s) => self.cache_dir_view() == Some(s@),
                None => self.cache_dir_view() is None,
            },
    {
        match &self.cache_dir {
            Some(d) => Some(d.as_str()),
            None => None,
        }
    }

    /// The error for a command that is not on `PATH`.
    pub fn not_found(&self) -> (e: MmdcError)
        ensures
            e matches MmdcError::NotFound(c) && c@ == self.command_view(),
    {
        MmdcError::NotFound(to_owned(self.command.as_str()))
    }

    /// The error for a process that could not be started.
    pub fn spawn_error(&self, message: &str) -> (e: MmdcError)
        ensures
            e matches MmdcError::Spawn { command, message: m } && command@ == self.command_view() && m@ == message@,
    {
        MmdcError::Spawn { command: to_owned(self.command.as_str()), message: to_owned(message) }
    }

    /// The error for a process killed at the deadline: the timeout in whole
    /// seconds, at least one.
    pub fn timeout_error(&self) -> (e: MmdcError)
        ensures
            e matches MmdcError::Timeout { command, seconds } && command@ == self.command_view()
                && seconds == (if self.timeout_view() / 1000 >= 1 { self.timeout_view() / 1000 } else { 1 }),
    {
        let secs = self.timeout_ms / 1000;
        MmdcError::Timeout { command: to_owned(self.command.as_str()), seconds: if secs >= 1 { secs } else { 1 } }
    }

    /// The error for a non-zero exit: the status and the stderr excerpt.
    pub fn exit_error(&self, code: Option<i32>, stderr: &str) -> (e: MmdcError)
        ensures
            e matches MmdcError::Exit { command, status, stderr: st } && command@ == self.command_view()
                && status@ == status_text(code) && st@ == stderr_excerpt(stderr@),
    {
        let status = match code {
            Some(c) => {
                let mut s = String::new();
                if c < 0 {
                    push_char(&mut s, '-');
                    let m: i64 = -(c as i64);
                    push_decimal(&mut s, m as u64);
                } else {
                    push_decimal(&mut s, c as u64);
                }
                s
            },
            None => to_owned("signal"),
        };
        proof {
            reveal_strlit("-");
        }
        MmdcError::Exit { command: to_owned(self.command.as_str()), status, stderr: trim_stderr(stderr) }
    }

    /// The error for an output that was missing or could not be decoded.
    pub fn output_error(&self, message: &str) -> (e: MmdcError)
        ensures
            e matches MmdcError::Output { command, message: m } && command@ == self.command_view() && m@ == message@,
    {
        MmdcError::Output { command: to_owned(self.command.as_str()), message: to_owned(message) }
    }
}

} // verus!
