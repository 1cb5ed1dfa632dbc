//! The decisions the command line tool makes around a scan: where to look,
//! what to require, how to run the command it builds, and how to exit.

use vstd::prelude::*;
use crate::launch::{
    join, join_path, text, text_bytes, tmux_new_window_cmd, tmux_words, words_view, Cmd,
    DOT_CODEX_DIR, FAILURE,
};

verus! {

/// The exit status of the tool: the status the run ended with, or a
/// failure where the run went wrong (its error is reported by the caller).
pub fn entry(outcome: Result<u8, String>) -> (code: u8)
    ensures
        code == (match outcome {
            Ok(c) => c,
            Err(_) => FAILURE,
        }),
{
    match outcome {
        Ok(c) => c,
        Err(_) => FAILURE,
    }
}

/// Whether to run the command in a new tmux window: only inside tmux, and
/// only where that was not turned off.
pub fn should_use_tmux(no_tmux: bool, in_tmux: bool) -> (r: bool)
    ensures
        r == (!no_tmux && in_tmux),
{
    !no_tmux && in_tmux
}

/// What to do with the command that resumes a session.
pub enum Action {
    /// Print it and stop.
    Print(Cmd),
    /// Run it in a new tmux window.
    RunTmux(Cmd),
    /// Run it here, in the session's directory, and exit with its status.
    RunInline(Cmd),
}

/// Decides what to do with `cmd`. A dry run prints the command that would
/// run, which inside tmux is the one that opens the window in
/// `session_cwd`.
pub fn plan_action(dry_run: bool, use_tmux: bool, session_cwd: &Vec<u8>, cmd: Cmd) -> (r: Action)
    ensures
        dry_run && use_tmux ==> (r matches Action::Print(c) && c.program@ == text("tmux")
            && words_view(c.args@) == tmux_words(session_cwd@, cmd)),
        dry_run && !use_tmux ==> r == Action::Print(cmd),
        !dry_run && use_tmux ==> r == Action::RunTmux(cmd),
        !dry_run && !use_tmux ==> r == Action::RunInline(cmd),
{
    if dry_run {
        if use_tmux {
            Action::Print(tmux_new_window_cmd(session_cwd, &cmd))
        } else {
            Action::Print(cmd)
        }
    } else if use_tmux {
        Action::RunTmux(cmd)
    } else {
        Action::RunInline(cmd)
    }
}

/// The view of a text that may be absent.
pub open spec fn text_opt(t: Option<&str>) -> Option<Seq<char>> {
    match t {
        Some(v) => Some(v@),
        None => None,
    }
}

/// The complaint about a path, labelled `label` and shown as `shown`, that
/// is not a directory; it names the variable `env_var` that gave the path,
/// if one did.
pub open spec fn not_a_directory(label: Seq<char>, env_var: Option<Seq<char>>, shown: Seq<char>) -> Seq<char> {
    match env_var {
        Some(v) => label + " (from "@ + v + ") is not a directory: "@ + shown,
        None => label + " is not a directory: "@ + shown,
    }
}

/// Requires a path to be a directory, given whether it is one.
pub fn require_dir(is_dir: bool, label: &str, env_var: Option<&str>, shown: &str) -> (r: Result<(), String>)
    ensures
        is_dir ==> r is Ok,
        !is_dir ==> (r matches Err(m) && m@ == not_a_directory(label@, text_opt(env_var), shown@)),
{
    if is_dir {
        return Ok(());
    }
    let mut m = label.to_owned();
    match env_var {
        Some(v) => {
            m.append(" (from ");
            m.append(v);
            m.append(") is not a directory: ");
        },
        None => {
            m.append(" is not a directory: ");
        },
    }
    m.append(shown);
    Err(m)
}

/// The complaint when no state directory is given and no home directory is
/// known.
pub const NO_HOME: &'static str = "CODEX_CODEXDIR is not set and $HOME is empty; please set CODEX_CODEXDIR";

/// The state directory to use when none is given: `.codex` in the home
/// directory `home`, which must be known and not empty.
pub fn default_codexdir(home: &Option<Vec<u8>>) -> (r: Result<Vec<u8>, String>)
    ensures
        match home {
            Some(h) if h@.len() > 0 => r matches Ok(d) && d@ == join(h@, text(DOT_CODEX_DIR)),
            _ => r matches Err(m) && m@ == NO_HOME@,
        },
{
    match home {
        Some(h) => {
            if h.len() > 0 {
                let name = text_bytes(DOT_CODEX_DIR);
                return Ok(join_path(h, &name));
            }
        },
        None => {},
    }
    Err(NO_HOME.to_owned())
}

} // verus!
