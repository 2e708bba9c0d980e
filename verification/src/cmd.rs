//! The decision core of the bounded process executor.
//!
//! The executor runs one external command under a wall-clock timeout and a
//! cumulative output cap, owns its process group, and escalates signals when
//! a limit is violated.  Spawning, signalling and reading streams are I/O
//! and live in the binary around the library; everything the supervision
//! loop decides — when to keep waiting, when to abort and why, what to tell
//! the user, and which process groups are live — is verified here.

use vstd::prelude::*;
use vstd::string::*;

verus! {

/// How often the supervision loop polls the child, in milliseconds.
pub const POLL_INTERVAL_MS: u64 = 10;

/// How long the executor waits after the graceful terminate signal before it
/// escalates to a forceful kill, in milliseconds.
pub const GRACE_PERIOD_MS: u64 = 200;

/// The default wall-clock timeout of one execution, in milliseconds.
pub const DEFAULT_TIMEOUT_MS: u64 = 60_000;

/// The cumulative output cap of one execution, in bytes.
pub const DEFAULT_OUTPUT_LIMIT: usize = 220_000;

/// The tighter wall-clock timeout of the build step, in milliseconds.
pub const BUILD_TIMEOUT_MS: u64 = 30_000;

/// The kind of spawn or stream failure, classified so that callers can react
/// differently to a missing program and to a binary of the wrong format.
#[derive(Debug, Clone, Copy, PartialEq, Eq, Structural)]
pub enum IoKind {
    /// The program was not found (usually: the build never produced it).
    NotFound,
    /// The binary exists but cannot be executed on this machine.
    ExecFormat,
    /// Any other I/O failure.
    Other,
}

/// A spawn or stream failure: its classification and the underlying message.
#[derive(Debug, Clone)]
pub struct IoFailure {
    pub kind: IoKind,
    pub message: String,
}

/// Why one execution failed.  `Timeout` carries the configured timeout in
/// milliseconds, `OutputLimit` the byte count observed when the cap was
/// exceeded.
#[derive(Debug, Clone)]
pub enum ExecError {
    Timeout(u64),
    OutputLimit(usize),
    Io(IoFailure),
}

/// Options for one execution: working directory, wall-clock timeout in
/// milliseconds, whether stderr is captured into the same buffer as stdout,
/// and the cumulative output cap in bytes.
pub struct ExecOptions {
    pub cwd: Option<String>,
    pub timeout_ms: u64,
    pub capture_stderr: bool,
    pub output_limit: usize,
}

impl Default for ExecOptions {
    /// One minute of wall-clock time, stderr captured, 220 kB of output.
    fn default() -> (r: Self)
        ensures
            r.cwd is None,
            r.timeout_ms == 60_000,
            r.capture_stderr,
            r.output_limit == 220_000,
    {
        ExecOptions {
            cwd: None,
            timeout_ms: DEFAULT_TIMEOUT_MS,
            capture_stderr: true,
            output_limit: DEFAULT_OUTPUT_LIMIT,
        }
    }
}

/// What the supervision loop does after one poll of the child.
#[derive(Debug, Clone, Copy, PartialEq, Eq, Structural)]
pub enum PollVerdict {
    /// The child is within its limits: sleep one poll interval and look again.
    KeepWaiting,
    /// The child exited on its own: collect the captured output.
    Finished,
    /// The wall clock passed the timeout: terminate the process group.
    TimedOut,
    /// The output cap was exceeded: terminate the process group.
    OutputExceeded,
}

/// The verdict of one poll: a natural exit wins over everything, then the
/// timeout is checked, then the output cap.  Both limits are strict: a child
/// exactly at a limit is still within it.
pub open spec fn spec_poll_decision(
    exited: bool,
    elapsed_ms: u64,
    total_bytes: usize,
    timeout_ms: u64,
    output_limit: usize,
) -> PollVerdict {
    if exited {
        PollVerdict::Finished
    } else if elapsed_ms > timeout_ms {
        PollVerdict::TimedOut
    } else if total_bytes > output_limit {
        PollVerdict::OutputExceeded
    } else {
        PollVerdict::KeepWaiting
    }
}

/// Decides one step of the supervision loop from what the poll observed:
/// whether the child has exited, the elapsed wall-clock time, and the bytes
/// captured so far.
pub fn poll_decision(
    exited: bool,
    elapsed_ms: u64,
    total_bytes: usize,
    timeout_ms: u64,
    output_limit: usize,
) -> (r: PollVerdict)
    ensures
        r == spec_poll_decision(exited, elapsed_ms, total_bytes, timeout_ms, output_limit),
{
    if exited {
        PollVerdict::Finished
    } else if elapsed_ms > timeout_ms {
        PollVerdict::TimedOut
    } else if total_bytes > output_limit {
        PollVerdict::OutputExceeded
    } else {
        PollVerdict::KeepWaiting
    }
}

/// A child that runs past its timeout is detected: once the elapsed time
/// exceeds the timeout and the child has not exited, the verdict is
/// `TimedOut`, never `KeepWaiting`, whatever the output counter shows.
pub proof fn lemma_timeout_detected(
    elapsed_ms: u64,
    total_bytes: usize,
    timeout_ms: u64,
    output_limit: usize,
)
    requires
        elapsed_ms > timeout_ms,
    ensures
        spec_poll_decision(false, elapsed_ms, total_bytes, timeout_ms, output_limit)
            == PollVerdict::TimedOut,
{
}

/// A child that writes past the output cap is detected, and one exactly at
/// or under the cap is not: within the timeout, the verdict is
/// `OutputExceeded` exactly when the byte count exceeds the cap, and a child
/// that exits at or under the cap finishes normally.
pub proof fn lemma_output_limit_boundary(
    exited: bool,
    elapsed_ms: u64,
    total_bytes: usize,
    timeout_ms: u64,
    output_limit: usize,
)
    requires
        elapsed_ms <= timeout_ms,
    ensures
        !exited ==> ((spec_poll_decision(exited, elapsed_ms, total_bytes, timeout_ms, output_limit)
            == PollVerdict::OutputExceeded) <==> total_bytes > output_limit),
        exited ==> spec_poll_decision(exited, elapsed_ms, total_bytes, timeout_ms, output_limit)
            == PollVerdict::Finished,
{
}

/// After the graceful terminate signal and the grace period, the executor
/// escalates to a forceful kill exactly when the child is still running.
pub fn escalate_after_grace(still_running: bool) -> (kill: bool)
    ensures
        kill == still_running,
{
    still_running
}

/// The registry of live process groups.  The executor tracks every group it
/// spawns and removes it on return, on every exit path, so that an external
/// interrupt can sweep-terminate everything in flight.  The binary holds one
/// registry behind a lock; the operations themselves are verified here.
pub struct PgidRegistry {
    entries: Vec<i32>,
}

impl PgidRegistry {
    /// The set of live process groups.
    pub closed spec fn groups(&self) -> Set<i32> {
        self.entries@.to_set()
    }

    /// The registry never lists a group twice.
    pub closed spec fn wf(&self) -> bool {
        self.entries@.no_duplicates()
    }

    /// An empty registry.
    pub fn new() -> (r: Self)
        ensures
            r.wf(),
            r.groups() == Set::<i32>::empty(),
    {
        let r = PgidRegistry { entries: Vec::new() };
        proof {
            assert(r.entries@.to_set() =~= Set::<i32>::empty());
        }
        r
    }

    /// Whether `pgid` is currently tracked.
    pub fn contains(&self, pgid: i32) -> (r: bool)
        ensures
            r == self.groups().contains(pgid),
    {
        let mut i: usize = 0;
        while i < self.entries.len()
            invariant
                i <= self.entries@.len(),
                forall|k: int| 0 <= k < i ==> self.entries@[k] != pgid,
            decreases self.entries.len() - i,
        {
            if self.entries[i] == pgid {
                proof {
                    assert(self.entries@.to_set().contains(pgid));
                }
                return true;
            }
            i = i + 1;
        }
        proof {
            assert(!self.entries@.contains(pgid));
        }
        false
    }

    /// Adds a process group at spawn.
    pub fn track(&mut self, pgid: i32)
        requires
            old(self).wf(),
        ensures
            final(self).wf(),
            final(self).groups() == old(self).groups().insert(pgid),
    {
        if !self.contains(pgid) {
            self.entries.push(pgid);
            proof {
                assert(self.entries@.drop_last() =~= old(self).entries@);
                assert(self.entries@ =~= old(self).entries@.push(pgid));
                old(self).entries@.lemma_push_to_set_commute(pgid);
            }
        } else {
            proof {
                assert(old(self).entries@.to_set().contains(pgid));
                assert(self.entries@.to_set() =~= old(self).entries@.to_set().insert(pgid));
            }
        }
    }

    /// Removes a process group on return from the executor.
    pub fn untrack(&mut self, pgid: i32)
        requires
            old(self).wf(),
        ensures
            final(self).wf(),
            final(self).groups() == old(self).groups().remove(pgid),
    {
        let mut i: usize = 0;
        while i < self.entries.len()
            invariant
                i <= self.entries@.len(),
                self.entries@ == old(self).entries@,
                old(self).wf(),
                forall|k: int| 0 <= k < i ==> self.entries@[k] != pgid,
            decreases self.entries.len() - i,
        {
            if self.entries[i] == pgid {
                self.entries.remove(i);
                proof {
                    assert(self.entries@ =~= old(self).entries@.subrange(0, i as int)
                        + old(self).entries@.subrange(
                        i as int + 1,
                        old(self).entries@.len() as int,
                    ));
                    lemma_remove_one_to_set(old(self).entries@, i as int);
                }
                return ;
            }
            i = i + 1;
        }
        proof {
            assert(!self.entries@.contains(pgid));
            assert(!self.entries@.to_set().contains(pgid));
            assert(self.entries@.to_set() =~= old(self).entries@.to_set().remove(pgid));
        }
    }

    /// The groups to signal when the whole run is interrupted.
    pub fn snapshot(&self) -> (r: Vec<i32>)
        ensures
            r@.to_set() == self.groups(),
    {
        let mut out: Vec<i32> = Vec::new();
        let mut i: usize = 0;
        while i < self.entries.len()
            invariant
                i <= self.entries@.len(),
                out@ == self.entries@.subrange(0, i as int),
            decreases self.entries.len() - i,
        {
            out.push(self.entries[i]);
            i = i + 1;
            proof {
                assert(out@ =~= self.entries@.subrange(0, i as int));
            }
        }
        proof {
            assert(out@ =~= self.entries@);
        }
        out
    }
}

/// Removing the only occurrence of an element from a duplicate-free sequence
/// removes exactly that element from its set.
proof fn lemma_remove_one_to_set(s: Seq<i32>, i: int)
    requires
        s.no_duplicates(),
        0 <= i < s.len(),
    ensures
        (s.subrange(0, i) + s.subrange(i + 1, s.len() as int)).no_duplicates(),
        (s.subrange(0, i) + s.subrange(i + 1, s.len() as int)).to_set() == s.to_set().remove(s[i]),
{
    let t = s.subrange(0, i) + s.subrange(i + 1, s.len() as int);
    assert forall|x: i32| t.to_set().contains(x) implies s.to_set().remove(s[i]).contains(x) by {
        let k = choose|k: int| 0 <= k < t.len() && t[k] == x;
        if k < i {
            assert(s[k] == x);
        } else {
            assert(s[k + 1] == x);
        }
    }
    assert forall|x: i32| s.to_set().remove(s[i]).contains(x) implies t.to_set().contains(x) by {
        let k = choose|k: int| 0 <= k < s.len() && s[k] == x;
        assert(k != i);
        if k < i {
            assert(t[k] == x);
        } else {
            assert(t[k - 1] == x);
        }
    }
    assert(t.to_set() =~= s.to_set().remove(s[i]));
    assert forall|p: int, q: int| 0 <= p < q < t.len() implies t[p] != t[q] by {
        let sp = if p < i { p } else { p + 1 };
        let sq = if q < i { q } else { q + 1 };
        assert(t[p] == s[sp] && t[q] == s[sq]);
    }
}

/// The user-facing diagnostic for an executor failure, as the test evaluator
/// reports it: a bounded, human-readable line, never a raw error value.
pub open spec fn spec_exec_error_message(e: ExecError, program: Seq<char>) -> Seq<char> {
    match e {
        ExecError::Timeout(_) => "Program timed out (infinite loop?)"@,
        ExecError::OutputLimit(_) => "Program produced too much output (infinite loop?)"@,
        ExecError::Io(f) => match f.kind {
            IoKind::ExecFormat => "OSError: [Errno 8] Exec format error: '"@ + program + "'"@,
            IoKind::NotFound => "Program not found (build failed?)"@,
            IoKind::Other => "IO error: "@ + f.message@,
        },
    }
}

/// Maps an executor failure to its per-case diagnostic.  `program` is the
/// executable the test tried to run, named in the exec-format diagnostic.
pub fn exec_error_message(e: &ExecError, program: &str) -> (r: String)
    ensures
        r@ == spec_exec_error_message(*e, program@),
{
    match e {
        ExecError::Timeout(_) => String::from_str("Program timed out (infinite loop?)"),
        ExecError::OutputLimit(_) => String::from_str(
            "Program produced too much output (infinite loop?)",
        ),
        ExecError::Io(f) => {
            match f.kind {
                IoKind::ExecFormat => {
                    let mut s = String::from_str("OSError: [Errno 8] Exec format error: '");
                    s.append(program);
                    s.append("'");
                    s
                },
                IoKind::NotFound => String::from_str("Program not found (build failed?)"),
                IoKind::Other => {
                    let mut s = String::from_str("IO error: ");
                    s.append(f.message.as_str());
                    s
                },
            }
        },
    }
}

} // verus!

verus! {

/// What the ad-hoc shell command runner prints for one submission: the
/// captured text as it is, or the fixed one-line diagnostic of the failure.
pub open spec fn spec_shell_result_message(res: Result<String, ExecError>) -> Seq<char> {
    match res {
        Ok(out) => out@,
        Err(ExecError::Timeout(_)) => "Command timed out"@,
        Err(ExecError::OutputLimit(_)) => "Output limit exceeded"@,
        Err(ExecError::Io(f)) => "IO error: "@ + f.message@,
    }
}

/// Maps one shell command's outcome to the line shown for its submission.
pub fn shell_result_message(res: Result<String, ExecError>) -> (r: String)
    ensures
        r@ == spec_shell_result_message(res),
{
    match res {
        Ok(out) => out,
        Err(ExecError::Timeout(_)) => String::from_str("Command timed out"),
        Err(ExecError::OutputLimit(_)) => String::from_str("Output limit exceeded"),
        Err(ExecError::Io(f)) => {
            let mut s = String::from_str("IO error: ");
            s.append(f.message.as_str());
            s
        },
    }
}

} // verus!
