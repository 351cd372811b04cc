//! How a selected command is run: which shell interprets it, and what exit
//! code is reported for it afterwards.

use vstd::prelude::*;

verus! {

/// The shell named by a `$SHELL` setting of `env_value`: that shell when it
/// is set and not empty, else `/bin/sh`, the one POSIX guarantees exists.
pub open spec fn shell_for(env_value: Option<Seq<char>>) -> Seq<char> {
    match env_value {
        Some(s) => if s.len() > 0 {
            s
        } else {
            "/bin/sh"@
        },
        None => "/bin/sh"@,
    }
}

/// The shell used to interpret a menu command, given the value of `$SHELL`.
pub fn shell_from(env_value: Option<String>) -> (r: String)
    ensures
        r@ == shell_for(crate::text::opt_view(env_value)),
{
    match env_value {
        Some(s) => {
            if s.as_str().unicode_len() > 0 {
                return s;
            }
            "/bin/sh".to_owned()
        },
        None => "/bin/sh".to_owned(),
    }
}

/// How a waited-for process ended: its exit code, or the signal that killed
/// it.
#[derive(Clone, Copy, Debug)]
pub struct Finished {
    pub code: Option<i32>,
    pub signal: Option<i32>,
}

/// The exit code to report, the way a POSIX shell would: the process' own
/// code clamped to `0..=255`, or `128 + signal` when a signal ended it. A
/// process with neither reports `1`, a failure rather than success.
pub open spec fn exit_code_of(code: Option<i32>, signal: Option<i32>) -> u8 {
    match code {
        Some(c) => if c < 0 {
            0
        } else if c > 255 {
            255
        } else {
            c as u8
        },
        None => match signal {
            Some(s) => if s < 0 {
                128
            } else if s > 127 {
                255
            } else {
                (128 + s) as u8
            },
            None => 1,
        },
    }
}

/// The exit code to report for a finished command (see [`exit_code_of`]).
pub fn exit_code(status: &Finished) -> (r: u8)
    ensures
        r == exit_code_of(status.code, status.signal),
{
    if let Some(code) = status.code {
        if code < 0 {
            return 0;
        }
        if code > 255 {
            return 255;
        }
        return code as u8;
    }
    match status.signal {
        Some(signal) => {
            if signal < 0 {
                128
            } else if signal > 127 {
                255
            } else {
                128 + (signal as u8)
            }
        },
        None => 1,
    }
}

} // verus!
