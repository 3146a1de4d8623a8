//! What the command line asks for, and what a check ends in.

use vstd::prelude::*;
use vstd::string::*;
use crate::check::CheckResult;
use crate::text::{eq_ignore_ascii_case, eq_ignoring_ascii_case};

verus! {

/// The options of the check subcommand.
#[derive(Debug, Clone, Copy, PartialEq, Eq, Structural)]
pub struct CheckArgs {
    /// Stop on first failure.
    pub fail_fast: bool,
    /// Never prompt to open the interface on failure.
    pub no_tui: bool,
    /// Suppress the output of commands that pass.
    pub mute_success: bool,
}

/// The options of the init-hooks subcommand.
#[derive(Debug, Clone, Copy, PartialEq, Eq, Structural)]
pub struct InitHooksArgs {
    /// Overwrite an existing hook.
    pub force: bool,
}

/// Outcome of the check subcommand.
#[derive(Debug)]
pub enum CheckOutcome {
    /// The check is over; return this exit code.
    Done(u8),
    /// The check failed and the user wants the interface with its results.
    OpenTui(CheckResult),
}

/// Whether a failed check asks the user to open the interface: only where
/// prompting is not ruled out and both input and error output are a
/// terminal.
pub fn should_prompt(args: &CheckArgs, exit_code: i32, stdin_terminal: bool, stderr_terminal: bool) -> (r:
    bool)
    ensures
        r == (exit_code != 0 && !args.no_tui && stdin_terminal && stderr_terminal),
{
    exit_code != 0 && !args.no_tui && stdin_terminal && stderr_terminal
}

/// The prompt of a failed check.
pub fn prompt_text() -> (r: &'static str)
    ensures
        r@ == "Open TUI to investigate? [y/N] "@,
{
    "Open TUI to investigate? [y/N] "
}

/// What a check ends in. A passed check is done with exit code 0. A failed
/// one opens the interface where the user was asked and answered `y`, and
/// is done with exit code 1 otherwise.
pub fn outcome(result: CheckResult, answer: Option<&str>) -> (r: CheckOutcome)
    ensures
        match r {
            CheckOutcome::Done(code) => {
                &&& code == if result.exit_code == 0 {
                    0u8
                } else {
                    1u8
                }
                &&& result.exit_code != 0 ==> !(answer matches Some(a) && eq_ignoring_ascii_case(
                    a@,
                    "y"@,
                ))
            },
            CheckOutcome::OpenTui(handed) => {
                &&& handed == result
                &&& result.exit_code != 0
                &&& answer matches Some(a) && eq_ignoring_ascii_case(a@, "y"@)
            },
        },
{
    if result.exit_code == 0 {
        return CheckOutcome::Done(0);
    }
    match answer {
        Some(a) => {
            if eq_ignore_ascii_case(a, "y") {
                CheckOutcome::OpenTui(result)
            } else {
                CheckOutcome::Done(1)
            }
        },
        None => CheckOutcome::Done(1),
    }
}

} // verus!
