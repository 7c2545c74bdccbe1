//! What a session does with a command line: refuse it while a child runs, change the
//! working directory, or start a program.
use vstd::prelude::*;
use crate::text::{joined, join_from, split_words, text_eq, views, words};

verus! {

/// What a non-blocking wait reported about the session's child process.
#[derive(Debug, PartialEq, Eq, Structural, Clone, Copy)]
pub enum ChildProbe {
    /// No child is attached.
    NoChild,
    /// The child has not terminated.
    Running,
    /// The child has terminated and its status has not been taken yet.
    Exited,
}

/// A command line, split at whitespace.
#[derive(Debug)]
pub enum CommandLine {
    /// The line holds no word.
    Empty,
    /// `cd` followed by the directory, its words joined by single spaces.
    ChangeDir(String),
    /// A program and its arguments, to run without a shell.
    Program { program: String, args: Vec<String> },
}

/// What `run_command` does.
#[derive(Debug)]
pub struct RunPlan {
    /// Whether the exited child is reaped first and its status reported.
    pub reap: bool,
    /// What the line asks for.
    pub action: CommandLine,
}

/// Why a command line was refused.
#[derive(Debug, PartialEq, Eq, Structural, Clone, Copy)]
pub enum SessionError {
    /// A child is still running; it is left as it is.
    Busy,
}

/// The word `cd`.
pub open spec fn cd_word() -> Seq<char> {
    seq!['c', 'd']
}

impl CommandLine {
    /// Whether this is the reading of a line whose words are `w`.
    pub open spec fn reads(&self, w: Seq<Seq<char>>) -> bool {
        match self {
            CommandLine::Empty => w.len() == 0,
            CommandLine::ChangeDir(target) => w.len() > 0 && w[0] == cd_word() && target@ == joined(
                w.skip(1),
            ),
            CommandLine::Program { program, args } => w.len() > 0 && w[0] != cd_word()
                && program@ == w[0] && views(args@) == w.skip(1),
        }
    }
}

/// Splits `line` into an empty line, a change of directory, or a program with arguments.
/// No shell: no quoting, no globbing.
pub fn parse_command_line(line: &str) -> (r: CommandLine)
    ensures
        r.reads(words(line@)),
{
    let w = split_words(line);
    if w.len() == 0 {
        return CommandLine::Empty;
    }
    proof {
        reveal_strlit("cd");
        assert("cd"@ =~= cd_word());
        assert(views(w@)[0] == w@[0]@);
    }
    if text_eq(w[0].as_str(), "cd") {
        let target = join_from(&w, 1);
        CommandLine::ChangeDir(target)
    } else {
        let mut w = w;
        let ghost all = views(w@);
        let program = w.remove(0);
        assert(views(w@) =~= all.skip(1));
        CommandLine::Program { program, args: w }
    }
}

/// Decides what `run_command` does with `line` given what a wait reported about the child:
/// refuse with `Busy` while it runs, leaving it untouched; otherwise reap it if it has
/// exited, and act on the line.
pub fn plan_command(probe: ChildProbe, line: &str) -> (r: Result<RunPlan, SessionError>)
    ensures
        probe == ChildProbe::Running ==> r == Err::<RunPlan, SessionError>(SessionError::Busy),
        probe != ChildProbe::Running ==> (r matches Ok(plan) && plan.reap == (probe
            == ChildProbe::Exited) && plan.action.reads(words(line@))),
{
    match probe {
        ChildProbe::Running => Err(SessionError::Busy),
        ChildProbe::NoChild => Ok(RunPlan { reap: false, action: parse_command_line(line) }),
        ChildProbe::Exited => Ok(RunPlan { reap: true, action: parse_command_line(line) }),
    }
}

/// The text sent to a child's standard input for `text`: the text and a newline.
pub fn stdin_line(text: &str) -> (r: String)
    ensures
        r@ == text@.push('\n'),
{
    let mut r = text.to_owned();
    proof {
        reveal_strlit("\n");
    }
    r.append("\n");
    assert(r@ =~= text@.push('\n'));
    r
}

} // verus!
