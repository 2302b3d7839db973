//! The commands that a user can give, and how they are read from the words
//! of a line.

use crate::text::str_eq;
use vstd::prelude::*;

verus! {

/// What a user can ask a session for.
pub enum DebuggerCommand {
    Quit,
    /// Start the target with these arguments.
    Run(Vec<String>),
    Continue,
    Backtrace,
    /// Set a breakpoint at this place: `*` and an address, a line number or
    /// the name of a function.
    Breakpoint(String),
    Step,
    Next,
    Finish,
    /// Show the variable of this name.
    Print(String),
}

/// What the first word of a line asks for.
#[derive(Clone, Copy, Debug, PartialEq, Eq)]
pub enum Keyword {
    Quit,
    Run,
    Continue,
    Backtrace,
    Breakpoint,
    Step,
    Next,
    Finish,
    Print,
}

/// The meaning of a first word; `None` for a word that is no command.
pub open spec fn keyword(word: Seq<char>) -> Option<Keyword> {
    if word == "q"@ || word == "quit"@ {
        Some(Keyword::Quit)
    } else if word == "r"@ || word == "run"@ {
        Some(Keyword::Run)
    } else if word == "c"@ || word == "cont"@ || word == "continue"@ {
        Some(Keyword::Continue)
    } else if word == "bt"@ || word == "back"@ || word == "backtrace"@ {
        Some(Keyword::Backtrace)
    } else if word == "b"@ || word == "break"@ {
        Some(Keyword::Breakpoint)
    } else if word == "s"@ || word == "step"@ {
        Some(Keyword::Step)
    } else if word == "n"@ || word == "next"@ {
        Some(Keyword::Next)
    } else if word == "fin"@ || word == "finish"@ {
        Some(Keyword::Finish)
    } else if word == "p"@ || word == "print"@ {
        Some(Keyword::Print)
    } else {
        None
    }
}

/// The word after the command, or the empty text where there is none.
pub open spec fn argument(tokens: Seq<&str>) -> Seq<char> {
    if tokens.len() > 1 {
        tokens[1]@
    } else {
        Seq::empty()
    }
}

/// `args` are the words after the command, in their order.
pub open spec fn arguments(tokens: Seq<&str>, args: Seq<String>) -> bool {
    &&& args.len() == tokens.len() - 1
    &&& forall|i: int| 0 <= i < args.len() ==> (#[trigger] args[i])@ == tokens[i + 1]@
}

/// Tells what the first word of a line asks for.
pub fn read_keyword(word: &str) -> (k: Option<Keyword>)
    ensures
        k == keyword(word@),
{
    if str_eq(word, "q") || str_eq(word, "quit") {
        Some(Keyword::Quit)
    } else if str_eq(word, "r") || str_eq(word, "run") {
        Some(Keyword::Run)
    } else if str_eq(word, "c") || str_eq(word, "cont") || str_eq(word, "continue") {
        Some(Keyword::Continue)
    } else if str_eq(word, "bt") || str_eq(word, "back") || str_eq(word, "backtrace") {
        Some(Keyword::Backtrace)
    } else if str_eq(word, "b") || str_eq(word, "break") {
        Some(Keyword::Breakpoint)
    } else if str_eq(word, "s") || str_eq(word, "step") {
        Some(Keyword::Step)
    } else if str_eq(word, "n") || str_eq(word, "next") {
        Some(Keyword::Next)
    } else if str_eq(word, "fin") || str_eq(word, "finish") {
        Some(Keyword::Finish)
    } else if str_eq(word, "p") || str_eq(word, "print") {
        Some(Keyword::Print)
    } else {
        None
    }
}

fn second_word(tokens: &Vec<&str>) -> (word: String)
    ensures
        word@ == argument(tokens@),
{
    if tokens.len() > 1 {
        tokens[1].to_owned()
    } else {
        String::new()
    }
}

impl DebuggerCommand {
    /// Reads a command from the words of a line, of which there is at least
    /// one. The first word says which command it is; `run` takes all the
    /// words after it, `break` and `print` the first of them.
    pub fn from_tokens(tokens: &Vec<&str>) -> (command: Option<DebuggerCommand>)
        requires
            tokens@.len() > 0,
        ensures
            match keyword(tokens@[0]@) {
                None => command is None,
                Some(Keyword::Quit) => command == Some(DebuggerCommand::Quit),
                Some(Keyword::Run) => command matches Some(DebuggerCommand::Run(args))
                    && arguments(tokens@, args@),
                Some(Keyword::Continue) => command == Some(DebuggerCommand::Continue),
                Some(Keyword::Backtrace) => command == Some(DebuggerCommand::Backtrace),
                Some(Keyword::Breakpoint) => command matches Some(
                    DebuggerCommand::Breakpoint(place),
                ) && place@ == argument(tokens@),
                Some(Keyword::Step) => command == Some(DebuggerCommand::Step),
                Some(Keyword::Next) => command == Some(DebuggerCommand::Next),
                Some(Keyword::Finish) => command == Some(DebuggerCommand::Finish),
                Some(Keyword::Print) => command matches Some(DebuggerCommand::Print(name))
                    && name@ == argument(tokens@),
            },
    {
        match read_keyword(tokens[0]) {
            None => None,
            Some(Keyword::Quit) => Some(DebuggerCommand::Quit),
            Some(Keyword::Run) => {
                let mut args: Vec<String> = Vec::new();
                let mut i: usize = 1;
                while i < tokens.len()
                    invariant
                        1 <= i <= tokens@.len(),
                        args@.len() == i - 1,
                        forall|k: int|
                            0 <= k < args@.len() ==> (#[trigger] args@[k])@ == tokens@[k + 1]@,
                    decreases tokens@.len() - i,
                {
                    args.push(tokens[i].to_owned());
                    i += 1;
                }
                Some(DebuggerCommand::Run(args))
            },
            Some(Keyword::Continue) => Some(DebuggerCommand::Continue),
            Some(Keyword::Backtrace) => Some(DebuggerCommand::Backtrace),
            Some(Keyword::Breakpoint) => Some(DebuggerCommand::Breakpoint(second_word(tokens))),
            Some(Keyword::Step) => Some(DebuggerCommand::Step),
            Some(Keyword::Next) => Some(DebuggerCommand::Next),
            Some(Keyword::Finish) => Some(DebuggerCommand::Finish),
            Some(Keyword::Print) => Some(DebuggerCommand::Print(second_word(tokens))),
        }
    }
}

} // verus!
