//! How a connection reads a client's message: which operation it asks for.
use vstd::prelude::*;
use crate::text::{
    split_words, starts_with, text_eq, trim_trailing_nuls, views, without_trailing_nuls, words,
};

verus! {

/// Where a client's message goes.
#[derive(Debug, PartialEq, Eq, Structural, Clone, Copy)]
pub enum Route {
    /// Send the named signal to the running child.
    Signal,
    /// Hand the session and its running child to the pool.
    Orphan,
    /// Forward the message to the running child's standard input.
    Stdin,
    /// End the connection.
    Disconnect,
    /// A process-manager command (`rspi ...`).
    Manager,
    /// Run the message as a command line.
    Run,
}

/// Where a message goes, given whether the session has a child attached.
/// With a child, `SIG...` signals it, `rspi orphan` parks it, and anything else is its
/// input. Without one, `SIG...` ends the connection, other `rspi ...` messages go to the
/// process manager, and anything else is a command line.
pub open spec fn route_of(has_child: bool, m: Seq<char>) -> Route {
    let sig = m.len() >= 3 && m.take(3) == "SIG"@;
    let orphan = m == "rspi orphan"@;
    let manager = m.len() >= 4 && m.take(4) == "rspi"@;
    if has_child {
        if sig {
            Route::Signal
        } else if orphan {
            Route::Orphan
        } else {
            Route::Stdin
        }
    } else if sig {
        Route::Disconnect
    } else if manager && !orphan {
        Route::Manager
    } else {
        Route::Run
    }
}

/// Decides where the message `msg` goes.
pub fn route_message(has_child: bool, msg: &str) -> (r: Route)
    ensures
        r == route_of(has_child, msg@),
{
    proof {
        reveal_strlit("SIG");
        reveal_strlit("rspi");
    }
    let sig = starts_with(msg, "SIG");
    let orphan = text_eq(msg, "rspi orphan");
    if has_child {
        if sig {
            Route::Signal
        } else if orphan {
            Route::Orphan
        } else {
            Route::Stdin
        }
    } else if sig {
        Route::Disconnect
    } else if starts_with(msg, "rspi") && !orphan {
        Route::Manager
    } else {
        Route::Run
    }
}

/// A process-manager command: the word after `rspi` and its argument.
#[derive(Debug)]
pub enum RsPiCmd {
    /// List the parked sessions.
    Procs,
    /// Take a parked session, by index or name.
    Adopt(Option<String>),
    /// Park this session.
    Orphan,
    /// Send a file to the client.
    GetFile(Option<String>),
    /// Receive a file from the client.
    SendFile(Option<String>),
    /// Any other word: show the list of commands.
    Help,
    /// No word after the first: nothing to do.
    Nothing,
}

/// The word at index `i` of `w`, if there is one.
pub open spec fn word_at(w: Seq<Seq<char>>, i: int) -> Option<Seq<char>> {
    if 0 <= i < w.len() {
        Some(w[i])
    } else {
        None
    }
}

/// The character sequence of an optional string.
pub open spec fn opt_view(o: Option<String>) -> Option<Seq<char>> {
    match o {
        Some(s) => Some(s@),
        None => None,
    }
}

impl RsPiCmd {
    /// Whether this is the reading of a message whose words are `w`; the first word is the
    /// one that sent the message here and is not looked at.
    pub open spec fn reads(&self, w: Seq<Seq<char>>) -> bool {
        if w.len() < 2 {
            *self is Nothing
        } else {
            let c = w[1];
            let arg = word_at(w, 2);
            if c == "procs"@ {
                *self is Procs
            } else if c == "adopt"@ {
                *self matches RsPiCmd::Adopt(a) && opt_view(a) == arg
            } else if c == "orphan"@ {
                *self is Orphan
            } else if c == "getfile"@ {
                *self matches RsPiCmd::GetFile(a) && opt_view(a) == arg
            } else if c == "sendfile"@ {
                *self matches RsPiCmd::SendFile(a) && opt_view(a) == arg
            } else {
                *self is Help
            }
        }
    }

    /// Reads a process-manager message such as `rspi adopt 2`.
    pub fn parse(msg: &str) -> (r: RsPiCmd)
        ensures
            r.reads(words(msg@)),
    {
        let mut w = split_words(msg);
        let ghost ws = views(w@);
        if w.len() < 2 {
            return RsPiCmd::Nothing;
        }
        assert(ws[1] == w@[1]@);
        let arg = if w.len() > 2 {
            let a = w.remove(2);
            assert(ws[2] == a@);
            Some(a)
        } else {
            None
        };
        assert(opt_view(arg) == word_at(ws, 2));
        let c = w[1].as_str();
        if text_eq(c, "procs") {
            RsPiCmd::Procs
        } else if text_eq(c, "adopt") {
            RsPiCmd::Adopt(arg)
        } else if text_eq(c, "orphan") {
            RsPiCmd::Orphan
        } else if text_eq(c, "getfile") {
            RsPiCmd::GetFile(arg)
        } else if text_eq(c, "sendfile") {
            RsPiCmd::SendFile(arg)
        } else {
            RsPiCmd::Help
        }
    }
}

/// Whether a connection's first message `received` is the password `expected`; trailing
/// NUL characters of the message do not count.
pub fn password_accepted(expected: &str, received: &str) -> (r: bool)
    ensures
        r == (expected@ == without_trailing_nuls(received@)),
{
    text_eq(expected, trim_trailing_nuls(received))
}

} // verus!
