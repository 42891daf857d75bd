use vstd::prelude::*;
use vstd::string::StringExecFns;
use vstd::string::StringSliceAdditionalSpecFns;
use vstd::utf8::*;
use crate::chars::{lowercase, to_lowercase, trim, trimmed};
use crate::text::{str_eq, str_starts_with, text_starts_with};

verus! {

/// A key that was pressed in answer to a question.
#[derive(Debug, Clone, Copy, PartialEq, Eq, Structural)]
pub enum Key {
    Char(char),
    Enter,
    Other,
}

/// What the assistant is asked to do.
#[derive(Debug, Clone, Copy, PartialEq, Eq, Structural)]
pub enum Mode {
    Chat,
    Agent,
    Explain,
    Rag,
    Context,
    LeptosMode,
    Query,
}

/// What is done with a line that the user typed into a chat.
#[derive(Debug, Clone, Copy, PartialEq, Eq, Structural)]
pub enum Turn {
    /// The line is blank: the user is asked again.
    Skip,
    /// The user wants to leave.
    Quit,
    /// The line is a request.
    Ask,
}

/// The answer that a key gives to a question of yes or no, if it gives
/// one: `y` and `n` in either case say yes and no, Enter says what the
/// default is, any other key says nothing.
pub open spec fn answer_of(key: Key, default_yes: bool) -> Option<bool> {
    match key {
        Key::Char(c) => if c == 'y' || c == 'Y' {
            Some(true)
        } else if c == 'n' || c == 'N' {
            Some(false)
        } else {
            None
        },
        Key::Enter => Some(default_yes),
        Key::Other => None,
    }
}

/// The answer that a key gives to a question of yes or no, if it gives one.
pub fn confirmation_for_key(key: Key, default_yes: bool) -> (answer: Option<bool>)
    ensures
        answer == answer_of(key, default_yes),
{
    match key {
        Key::Char(c) => if c == 'y' || c == 'Y' {
            Some(true)
        } else if c == 'n' || c == 'N' {
            Some(false)
        } else {
            None
        },
        Key::Enter => Some(default_yes),
        Key::Other => None,
    }
}

/// A question of yes or no as it is shown: the question, and the two
/// answers with the default in capitals.
pub fn confirmation_prompt(prompt: &str, default_yes: bool) -> (shown: String)
    ensures
        shown@ == prompt@ + (if default_yes {
            " [Y/n] "@
        } else {
            " [y/N] "@
        }),
{
    let mut shown = String::from_str(prompt);
    if default_yes {
        shown.append(" [Y/n] ");
    } else {
        shown.append(" [y/N] ");
    }
    shown
}

/// Whether a typed line says yes: it is blank, or it begins with a `y` in
/// either case.
pub open spec fn says_yes(line: Seq<char>) -> bool {
    trimmed(line).len() == 0 || text_starts_with(lowercase(trimmed(line)), "y"@)
}

/// Whether a typed line says yes.
pub fn is_yes(line: &str) -> (yes: bool)
    ensures
        yes == says_yes(line@),
{
    let answer = trim(line);
    if answer.is_empty() {
        return true;
    }
    let lower = to_lowercase(answer);
    str_starts_with(lower.as_str(), "y")
}

/// What the flags of the command line ask for. Of several flags the first
/// in this order counts: chat, agent, explain, rag, context, Leptos mode;
/// without any flag a query is answered.
pub open spec fn mode_of(chat: bool, agent: bool, explain: bool, rag: bool, context: bool, leptos_mode: bool) -> Mode {
    if chat {
        Mode::Chat
    } else if agent {
        Mode::Agent
    } else if explain {
        Mode::Explain
    } else if rag {
        Mode::Rag
    } else if context {
        Mode::Context
    } else if leptos_mode {
        Mode::LeptosMode
    } else {
        Mode::Query
    }
}

/// What the flags of the command line ask for.
pub fn select_mode(chat: bool, agent: bool, explain: bool, rag: bool, context: bool, leptos_mode: bool) -> (mode:
    Mode)
    ensures
        mode == mode_of(chat, agent, explain, rag, context, leptos_mode),
{
    if chat {
        Mode::Chat
    } else if agent {
        Mode::Agent
    } else if explain {
        Mode::Explain
    } else if rag {
        Mode::Rag
    } else if context {
        Mode::Context
    } else if leptos_mode {
        Mode::LeptosMode
    } else {
        Mode::Query
    }
}

/// Whether a line typed into the shell's chat ends the chat: it is the
/// word `exit` in any mix of cases.
pub fn ends_chat(line: &str) -> (ends: bool)
    ensures
        ends == (lowercase(line@) == "exit"@),
{
    let lower = to_lowercase(line);
    str_eq(lower.as_str(), "exit")
}

/// Whether two texts of ASCII letters are the same but for the case of
/// their letters.
pub open spec fn same_ignoring_ascii_case(a: Seq<u8>, b: Seq<u8>) -> bool {
    a.len() == b.len() && forall|i: int| 0 <= i < a.len() ==> ascii_lower(#[trigger] a[i]) == ascii_lower(b[i])
}

/// A byte with an ASCII capital turned into its small letter.
pub open spec fn ascii_lower(b: u8) -> u8 {
    if 65 <= b <= 90 {
        (b + 32) as u8
    } else {
        b
    }
}

fn same_ignoring_case(a: &[u8], b: &[u8]) -> (same: bool)
    ensures
        same == same_ignoring_ascii_case(a@, b@),
{
    if a.len() != b.len() {
        return false;
    }
    let mut i: usize = 0;
    while i < a.len()
        invariant
            i <= a.len(),
            a.len() == b.len(),
            forall|j: int| 0 <= j < i ==> ascii_lower(#[trigger] a[j]) == ascii_lower(b[j]),
        decreases a.len() - i,
    {
        let x = if 65 <= a[i] && a[i] <= 90 {
            a[i] + 32
        } else {
            a[i]
        };
        let y = if 65 <= b[i] && b[i] <= 90 {
            b[i] + 32
        } else {
            b[i]
        };
        if x != y {
            return false;
        }
        i += 1;
    }
    true
}

/// What is done with a line typed into the assistant's chat: a blank line
/// is passed over; `exit` and `quit`, in any mix of ASCII cases and with
/// white space around them, end the chat; any other line is a request.
pub open spec fn turn_of(line: Seq<char>) -> Turn {
    let bytes = encode_utf8(trimmed(line));
    if trimmed(line).len() == 0 {
        Turn::Skip
    } else if same_ignoring_ascii_case(bytes, "exit".spec_bytes()) || same_ignoring_ascii_case(
        bytes,
        "quit".spec_bytes(),
    ) {
        Turn::Quit
    } else {
        Turn::Ask
    }
}

/// What is done with a line typed into the assistant's chat.
pub fn chat_turn(line: &str) -> (turn: Turn)
    ensures
        turn == turn_of(line@),
{
    let said = trim(line);
    if said.is_empty() {
        Turn::Skip
    } else if same_ignoring_case(said.as_bytes(), "exit".as_bytes()) || same_ignoring_case(
        said.as_bytes(),
        "quit".as_bytes(),
    ) {
        Turn::Quit
    } else {
        Turn::Ask
    }
}

} // verus!
