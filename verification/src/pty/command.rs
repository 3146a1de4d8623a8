//! How a command is handed to the shell.

use vstd::prelude::*;
use vstd::string::*;
use crate::commands::auto::strs;
use crate::commands::command::Command;
use crate::commands::env::{env_merged, env_set, env_view, env_with, merge_env, EnvView};

verus! {

/// The environment of a child: the parent's, overlaid by the command's own
/// entries, with `TERM` forced to `xterm-256color`.
pub open spec fn child_env(parent: EnvView, own: EnvView) -> EnvView {
    env_with(env_merged(parent, own), "TERM"@, "xterm-256color"@)
}

/// The environment in which a command's child process runs.
pub fn child_environment(parent: &Vec<(String, String)>, command: &Command) -> (r: Vec<
    (String, String),
>)
    ensures
        env_view(r@) == child_env(env_view(parent@), command@.env),
{
    let mut env = merge_env(parent, &command.env);
    env_set(&mut env, String::from_str("TERM"), String::from_str("xterm-256color"));
    env
}

/// The program that interprets a command's shell string.
pub fn shell_program() -> (r: String)
    ensures
        r@ == "sh"@,
{
    String::from_str("sh")
}

/// The arguments that hand a command's shell string to the shell.
pub fn shell_arguments(command: &Command) -> (r: Vec<String>)
    ensures
        strs(r@) == seq!["-c"@, command@.cmd],
{
    let mut args: Vec<String> = Vec::new();
    args.push(String::from_str("-c"));
    args.push(command.cmd.clone());
    assert(strs(args@) =~= seq!["-c"@, command@.cmd]);
    args
}

} // verus!
