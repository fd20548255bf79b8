//! The operator's commands, recognised from the words of one input line.

use vstd::prelude::*;

verus! {

/// One command of the operator.
#[derive(Debug)]
pub enum DebuggerCommand {
    /// End the session.
    Quit,
    /// Start the target anew with these arguments.
    Run(Vec<String>),
    /// Let the stopped process run on.
    Cont,
    /// Show the call stack of the stopped process.
    Back,
    /// Set a breakpoint at this location.
    Break(String),
}

/// A command with its texts as sequences of characters.
pub enum CommandModel {
    Quit,
    Run(Seq<Seq<char>>),
    Cont,
    Back,
    Break(Seq<char>),
}

impl View for DebuggerCommand {
    type V = CommandModel;

    open spec fn view(&self) -> CommandModel {
        match self {
            DebuggerCommand::Quit => CommandModel::Quit,
            DebuggerCommand::Run(args) => CommandModel::Run(args@.map_values(|s: String| s@)),
            DebuggerCommand::Cont => CommandModel::Cont,
            DebuggerCommand::Back => CommandModel::Back,
            DebuggerCommand::Break(location) => CommandModel::Break(location@),
        }
    }
}

/// The texts of a line's words.
pub open spec fn texts(tokens: Seq<&str>) -> Seq<Seq<char>> {
    tokens.map_values(|t: &str| t@)
}

pub open spec fn names_quit(word: Seq<char>) -> bool {
    word == "q"@ || word == "quit"@
}

pub open spec fn names_run(word: Seq<char>) -> bool {
    word == "r"@ || word == "run"@
}

pub open spec fn names_cont(word: Seq<char>) -> bool {
    word == "c"@ || word == "cont"@ || word == "continue"@
}

pub open spec fn names_back(word: Seq<char>) -> bool {
    word == "bt"@ || word == "back"@ || word == "backtrace"@
}

pub open spec fn names_break(word: Seq<char>) -> bool {
    word == "b"@ || word == "break"@
}

/// The command that a line's words spell, if any: the first word names
/// the command, `run` takes all further words as arguments, `break` takes
/// the second word as its location and is no command without one.
pub open spec fn command_of(words: Seq<Seq<char>>) -> Option<CommandModel> {
    if words.len() == 0 {
        None
    } else if names_quit(words[0]) {
        Some(CommandModel::Quit)
    } else if names_run(words[0]) {
        Some(CommandModel::Run(words.subrange(1, words.len() as int)))
    } else if names_cont(words[0]) {
        Some(CommandModel::Cont)
    } else if names_back(words[0]) {
        Some(CommandModel::Back)
    } else if names_break(words[0]) {
        if words.len() >= 2 {
            Some(CommandModel::Break(words[1]))
        } else {
            None
        }
    } else {
        None
    }
}

/// Whether two strings hold the same text.
pub fn same_text(a: &str, b: &str) -> (same: bool)
    ensures
        same == (a@ == b@),
{
    let n: usize = a.unicode_len();
    if n != b.unicode_len() {
        return false;
    }
    let mut i: usize = 0;
    while i < n
        invariant
            i <= n,
            n == a@.len(),
            n == b@.len(),
            forall|j: int| 0 <= j < i ==> a@[j] == b@[j],
        decreases n - i,
    {
        if a.get_char(i) != b.get_char(i) {
            return false;
        }
        i += 1;
    }
    assert(a@ =~= b@);
    true
}

impl DebuggerCommand {
    /// Recognises the command that the words of a line spell. A line that
    /// spells none yields `None`.
    pub fn from_tokens(tokens: &Vec<&str>) -> (command: Option<DebuggerCommand>)
        ensures
            match command {
                Some(c) => command_of(texts(tokens@)) == Some(c@),
                None => command_of(texts(tokens@)) is None,
            },
    {
        if tokens.len() == 0 {
            return None;
        }
        let word: &str = tokens[0];
        assert(texts(tokens@)[0] == word@);
        if same_text(word, "q") || same_text(word, "quit") {
            Some(DebuggerCommand::Quit)
        } else if same_text(word, "r") || same_text(word, "run") {
            let mut args: Vec<String> = Vec::new();
            let mut i: usize = 1;
            while i < tokens.len()
                invariant
                    1 <= i <= tokens.len(),
                    args@.len() == i - 1,
                    forall|j: int| 0 <= j < args@.len() ==> (#[trigger] args@[j])@ == tokens@[j + 1]@,
                decreases tokens.len() - i,
            {
                args.push(tokens[i].to_owned());
                i += 1;
            }
            assert(args@.map_values(|s: String| s@) =~= texts(tokens@).subrange(
                1,
                tokens@.len() as int,
            ));
            Some(DebuggerCommand::Run(args))
        } else if same_text(word, "c") || same_text(word, "cont") || same_text(word, "continue") {
            Some(DebuggerCommand::Cont)
        } else if same_text(word, "bt") || same_text(word, "back") || same_text(word, "backtrace") {
            Some(DebuggerCommand::Back)
        } else if same_text(word, "b") || same_text(word, "break") {
            if tokens.len() >= 2 {
                assert(texts(tokens@)[1] == tokens@[1]@);
                Some(DebuggerCommand::Break(tokens[1].to_owned()))
            } else {
                None
            }
        } else {
            None
        }
    }
}

} // verus!
