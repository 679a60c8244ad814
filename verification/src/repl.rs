//! What the interactive loop makes of a line of input: one of its own
//! commands, or source text to be shown as tokens.
use vstd::prelude::*;
use vstd::string::*;
use crate::lexer::Lexer;
use crate::scan::tokens_from;
use crate::text::text_eq;
use crate::token::Token;

verus! {

/// A command of the interactive loop.
#[derive(Debug, Clone, Copy, PartialEq, Eq, Structural)]
pub enum Commands {
    Exit,
    Help,
}

/// The command that `word` names, if it names one.
pub open spec fn command_of(word: Seq<char>) -> Option<Commands> {
    if word == ".exit"@ {
        Some(Commands::Exit)
    } else if word == ".help"@ {
        Some(Commands::Help)
    } else {
        None
    }
}

/// The message for a word that names no command.
pub open spec fn unknown_command(word: Seq<char>) -> Seq<char> {
    "Unknown command: "@ + word
}

impl Commands {
    /// Reads a command from its name; a word that names none is answered
    /// with a message.
    pub fn from_str(s: &str) -> (r: Result<Self, String>)
        ensures
            match r {
                Ok(command) => command_of(s@) == Some(command),
                Err(message) => command_of(s@) is None && message@ == unknown_command(s@),
            },
    {
        if text_eq(s, ".exit") {
            Ok(Self::Exit)
        } else if text_eq(s, ".help") {
            Ok(Self::Help)
        } else {
            let mut message = String::from_str("Unknown command: ");
            message.append(s);
            Err(message)
        }
    }
}

/// A line without the whitespace at its two ends, where whitespace is what
/// the Unicode property `White_Space` holds of. It is left without a
/// definition here and is given by [`trim`].
pub uninterp spec fn trimmed(line: Seq<char>) -> Seq<char>;

/// Calls `str::trim` of the standard library. Nothing is claimed of the
/// result but that it depends on the line alone.
#[verifier::external_body]
fn trim(line: &str) -> (word: &str)
    ensures
        word@ == trimmed(line@),
{
    line.trim()
}

/// What the loop does with a line.
#[derive(Debug, PartialEq, Eq)]
pub enum Action {
    /// Carry out a command.
    Run(Commands),
    /// Show the tokens of the line.
    Show(Vec<Token>),
}

/// Decides what to do with a line of which `word` is what is left without
/// the whitespace at its ends: where `word` names a command, that command
/// is run; otherwise the whole line is read as source text, and its tokens
/// are shown.
pub fn respond(word: &str, line: &str) -> (action: Action)
    ensures
        match command_of(word@) {
            Some(command) => action == Action::Run(command),
            None => action matches Action::Show(tokens) && tokens@ == tokens_from(line@, 0),
        },
{
    match Commands::from_str(word) {
        Ok(command) => Action::Run(command),
        Err(_) => {
            let mut lexer = Lexer::new(line);
            Action::Show(lexer.tokenize())
        },
    }
}

/// Decides what to do with a line: where the line, without the whitespace
/// at its ends, names a command, that command is run; otherwise the whole
/// line is read as source text, and its tokens are shown.
pub fn interpret(line: &str) -> (action: Action)
    ensures
        match command_of(trimmed(line@)) {
            Some(command) => action == Action::Run(command),
            None => action matches Action::Show(tokens) && tokens@ == tokens_from(line@, 0),
        },
{
    respond(trim(line), line)
}

} // verus!
