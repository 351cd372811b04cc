//! The decisions of running a `parallel:` group: which signal to pass on to
//! the jobs when a stop arrives, and what the group reports once every job
//! has finished.

use vstd::prelude::*;

use crate::exec::{Finished, exit_code, exit_code_of};

verus! {

/// Where the jobs' standard output goes.
#[derive(Debug, Clone, Copy, PartialEq, Eq, Structural)]
pub enum Output {
    /// Inherit this process' stdout, like any other command the menu runs.
    Inherit,
    /// Write to stderr instead: with `--print`, stdout is a command
    /// substitution that the shell wrapper evaluates, and output landing
    /// there would be run, not shown.
    Stderr,
}

/// `libc::SIGKILL`, the signal that cannot be caught or ignored: 9 on every
/// platform `libc` supports.
#[verifier::external_body]
fn sigkill() -> (r: i32)
    ensures
        r == 9,
{
    libc::SIGKILL
}

/// The signal to pass on: the first stop goes on as it arrived, so a job sees
/// the `SIGINT` or `SIGTERM` it would have got from the terminal and can
/// clean up. Anything after that is the user asking again, and is a kill,
/// including a second stop that landed in the same look as the first.
pub open spec fn escalated(forwarded: usize, count: usize, signal: i32) -> i32 {
    if forwarded == 0 && count == 1 {
        signal
    } else {
        9
    }
}

/// The signal to pass on when `count` stops have arrived, the last of them
/// `signal`, after `forwarded` were already passed on.
pub fn escalate(forwarded: usize, count: usize, signal: i32) -> (r: i32)
    ensures
        r == escalated(forwarded, count, signal),
{
    if forwarded == 0 && count == 1 {
        signal
    } else {
        sigkill()
    }
}

/// The stops passed on to a running group so far, which decide what the
/// next one escalates to.
pub struct Stops {
    forwarded: usize,
}

impl Stops {
    /// How many stops were passed on, capped at `usize::MAX`.
    pub closed spec fn forwarded_view(&self) -> usize {
        self.forwarded
    }

    /// A group just started; `failed_to_start` means a job could not be
    /// spawned and the rest was already sent `SIGTERM`, which counts as one
    /// stop passed on, so that a stop from the user then kills.
    pub fn new(failed_to_start: bool) -> (r: Stops)
        ensures
            r.forwarded_view() == if failed_to_start {
                1usize
            } else {
                0usize
            },
    {
        Stops { forwarded: if failed_to_start {
            1
        } else {
            0
        } }
    }

    /// `count` stops arrived, the last of them `signal`: the signal to send
    /// to every job still running (see [`escalated`]). Each of them counts,
    /// since two stops in one look are the user asking twice.
    pub fn on_stops(&mut self, count: usize, signal: i32) -> (r: i32)
        ensures
            r == escalated(old(self).forwarded_view(), count, signal),
            final(self).forwarded_view() == if old(self).forwarded_view() + count > usize::MAX {
                usize::MAX
            } else {
                (old(self).forwarded_view() + count) as usize
            },
    {
        let r = escalate(self.forwarded, count, signal);
        self.forwarded = self.forwarded.saturating_add(count);
        r
    }

    /// A job could not be waited for: how it ended is unknown, so the rest of
    /// the group is killed rather than left running.
    pub fn on_wait_failure(&mut self) -> (r: i32)
        ensures
            r == 9,
            final(self).forwarded_view() == if old(self).forwarded_view() == usize::MAX {
                usize::MAX
            } else {
                (old(self).forwarded_view() + 1) as usize
            },
    {
        self.forwarded = self.forwarded.saturating_add(1);
        sigkill()
    }
}

/// The code the group reports: the first non-zero exit code, in the order
/// the jobs are written, so a failure is not swallowed by a later success;
/// or 0. A job not known to have finished counts for nothing.
pub open spec fn first_failure(statuses: Seq<Option<Finished>>) -> u8
    decreases statuses.len(),
{
    if statuses.len() == 0 {
        0
    } else {
        match statuses[0] {
            Some(f) => if exit_code_of(f.code, f.signal) != 0 {
                exit_code_of(f.code, f.signal)
            } else {
                first_failure(statuses.drop_first())
            },
            None => first_failure(statuses.drop_first()),
        }
    }
}

/// The code the group reports (see [`first_failure`]).
pub fn group_exit_code(statuses: &Vec<Option<Finished>>) -> (r: u8)
    ensures
        r == first_failure(statuses@),
{
    let mut i: usize = 0;
    assert(statuses@.subrange(0, statuses@.len() as int) =~= statuses@);
    while i < statuses.len()
        invariant
            i <= statuses@.len(),
            first_failure(statuses@.subrange(i as int, statuses@.len() as int)) == first_failure(statuses@),
        decreases statuses@.len() - i,
    {
        let ghost rest = statuses@.subrange(i as int, statuses@.len() as int);
        proof {
            assert(rest.drop_first() =~= statuses@.subrange(i + 1, statuses@.len() as int));
            assert(rest[0] == statuses@[i as int]);
        }
        if let Some(f) = &statuses[i] {
            let code = exit_code(f);
            if code != 0 {
                return code;
            }
        }
        i = i + 1;
    }
    proof {
        assert(statuses@.subrange(i as int, statuses@.len() as int) =~= Seq::<Option<Finished>>::empty());
    }
    0
}

} // verus!
