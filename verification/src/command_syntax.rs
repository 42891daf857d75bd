use vstd::prelude::*;
use vstd::string::StringSliceAdditionalSpecFns;
use vstd::utf8::*;
use crate::byte_search::{contains_exec, contains_sub, ends_with, ends_with_exec};
use crate::chars::{chars_of, trim, trimmed};

verus! {

/// What is wrong with a shell command.
#[derive(Debug, Clone, Copy, PartialEq, Eq, Structural)]
pub enum SyntaxError {
    UnmatchedClosingParenthesis,
    UnmatchedClosingBracket,
    UnmatchedClosingBrace,
    UnclosedSingleQuote,
    UnclosedDoubleQuote,
    UnmatchedParentheses,
    UnmatchedBrackets,
    UnmatchedBraces,
    IncompleteExpression,
    IncompleteAwk,
}

/// Where a reading of a command stands: how many parentheses, brackets and
/// braces are open, whether it is inside quotes, and whether the next
/// character is escaped.
pub struct Reading {
    pub parens: nat,
    pub brackets: nat,
    pub braces: nat,
    pub in_single: bool,
    pub in_double: bool,
    pub escaped: bool,
}

/// The reading before the first character.
pub open spec fn start_of_reading() -> Reading {
    Reading { parens: 0, brackets: 0, braces: 0, in_single: false, in_double: false, escaped: false }
}

/// The reading after one more character. An escaped character counts for
/// nothing; quotes open and close unless they stand inside quotes of the
/// other kind; parentheses, brackets and braces count outside quotes, and
/// one that closes what is not open is an error.
pub open spec fn read_char(r: Reading, c: char) -> Result<Reading, SyntaxError> {
    let quoted = r.in_single || r.in_double;
    if r.escaped {
        Ok(Reading { escaped: false, ..r })
    } else if c == '\\' {
        Ok(Reading { escaped: true, ..r })
    } else if c == '\'' {
        Ok(if r.in_double { r } else { Reading { in_single: !r.in_single, ..r } })
    } else if c == '"' {
        Ok(if r.in_single { r } else { Reading { in_double: !r.in_double, ..r } })
    } else if quoted {
        Ok(r)
    } else if c == '(' {
        Ok(Reading { parens: r.parens + 1, ..r })
    } else if c == ')' {
        if r.parens == 0 {
            Err(SyntaxError::UnmatchedClosingParenthesis)
        } else {
            Ok(Reading { parens: (r.parens - 1) as nat, ..r })
        }
    } else if c == '[' {
        Ok(Reading { brackets: r.brackets + 1, ..r })
    } else if c == ']' {
        if r.brackets == 0 {
            Err(SyntaxError::UnmatchedClosingBracket)
        } else {
            Ok(Reading { brackets: (r.brackets - 1) as nat, ..r })
        }
    } else if c == '{' {
        Ok(Reading { braces: r.braces + 1, ..r })
    } else if c == '}' {
        if r.braces == 0 {
            Err(SyntaxError::UnmatchedClosingBrace)
        } else {
            Ok(Reading { braces: (r.braces - 1) as nat, ..r })
        }
    } else {
        Ok(r)
    }
}

/// The reading after the first `n` characters, or the first error among them.
pub open spec fn read_prefix(chars: Seq<char>, n: nat) -> Result<Reading, SyntaxError>
    decreases n,
{
    if n == 0 {
        Ok(start_of_reading())
    } else {
        match read_prefix(chars, (n - 1) as nat) {
            Ok(r) => read_char(r, chars[n - 1]),
            Err(e) => Err(e),
        }
    }
}

/// Whether the last character of a command was escaped.
pub open spec fn last_is_escaped(chars: Seq<char>) -> bool {
    chars.len() > 0 && (read_prefix(chars, (chars.len() - 1) as nat) matches Ok(r) && r.escaped)
}

/// Whether a command ends where something has to follow.
pub open spec fn ends_open(bytes: Seq<u8>) -> bool {
    ends_with(bytes, "&&".spec_bytes()) || ends_with(bytes, "||".spec_bytes()) || ends_with(
        bytes,
        "|".spec_bytes(),
    ) || ends_with(bytes, ";".spec_bytes())
}

/// Whether a command calls awk with what looks like half an expression.
pub open spec fn awk_looks_incomplete(bytes: Seq<u8>) -> bool {
    contains_sub(bytes, "awk".spec_bytes()) && (ends_with(bytes, "$".spec_bytes()) || (contains_sub(
        bytes,
        "$".spec_bytes(),
    ) && !contains_sub(bytes, "{print".spec_bytes()) && !contains_sub(bytes, "{print ".spec_bytes())))
}

/// What is found in a command after it was read to its end without error.
pub open spec fn verdict_at_end(cmd: Seq<char>, r: Reading) -> Result<(), SyntaxError> {
    let bytes = encode_utf8(cmd);
    if r.in_single {
        Err(SyntaxError::UnclosedSingleQuote)
    } else if r.in_double {
        Err(SyntaxError::UnclosedDoubleQuote)
    } else if r.parens != 0 {
        Err(SyntaxError::UnmatchedParentheses)
    } else if r.brackets != 0 {
        Err(SyntaxError::UnmatchedBrackets)
    } else if r.braces != 0 {
        Err(SyntaxError::UnmatchedBraces)
    } else if !last_is_escaped(cmd) && ends_open(bytes) {
        Err(SyntaxError::IncompleteExpression)
    } else if awk_looks_incomplete(bytes) {
        Err(SyntaxError::IncompleteAwk)
    } else {
        Ok(())
    }
}

/// What is wrong with a command, if anything, the white space around it
/// left aside.
pub open spec fn syntax_verdict(cmd: Seq<char>) -> Result<(), SyntaxError> {
    let cmd = trimmed(cmd);
    match read_prefix(cmd, cmd.len()) {
        Err(e) => Err(e),
        Ok(r) => verdict_at_end(cmd, r),
    }
}

impl SyntaxError {
    /// What is said of the error.
    pub fn message(&self) -> (text: &'static str)
        ensures
            text@ == match *self {
                SyntaxError::UnmatchedClosingParenthesis => "Unmatched closing parenthesis"@,
                SyntaxError::UnmatchedClosingBracket => "Unmatched closing bracket"@,
                SyntaxError::UnmatchedClosingBrace => "Unmatched closing brace"@,
                SyntaxError::UnclosedSingleQuote => "Unclosed single quote"@,
                SyntaxError::UnclosedDoubleQuote => "Unclosed double quote"@,
                SyntaxError::UnmatchedParentheses => "Unmatched parentheses"@,
                SyntaxError::UnmatchedBrackets => "Unmatched brackets"@,
                SyntaxError::UnmatchedBraces => "Unmatched braces"@,
                SyntaxError::IncompleteExpression => "Command ends with incomplete expression"@,
                SyntaxError::IncompleteAwk => "Potentially incomplete awk expression"@,
            },
    {
        match self {
            SyntaxError::UnmatchedClosingParenthesis => "Unmatched closing parenthesis",
            SyntaxError::UnmatchedClosingBracket => "Unmatched closing bracket",
            SyntaxError::UnmatchedClosingBrace => "Unmatched closing brace",
            SyntaxError::UnclosedSingleQuote => "Unclosed single quote",
            SyntaxError::UnclosedDoubleQuote => "Unclosed double quote",
            SyntaxError::UnmatchedParentheses => "Unmatched parentheses",
            SyntaxError::UnmatchedBrackets => "Unmatched brackets",
            SyntaxError::UnmatchedBraces => "Unmatched braces",
            SyntaxError::IncompleteExpression => "Command ends with incomplete expression",
            SyntaxError::IncompleteAwk => "Potentially incomplete awk expression",
        }
    }
}

/// Checks the basic syntax of a shell command: quotes are closed;
/// parentheses, brackets and braces outside quotes match; the command does
/// not end with an operator that wants something after it, unless its last
/// character is escaped; and a call of awk does not look cut off.
pub fn validate_command_syntax(cmd: &str) -> (result: Result<(), SyntaxError>)
    ensures
        result == syntax_verdict(cmd@),
{
    let stripped = trim(cmd);
    let chars = chars_of(stripped);
    let mut parens: usize = 0;
    let mut brackets: usize = 0;
    let mut braces: usize = 0;
    let mut in_single = false;
    let mut in_double = false;
    let mut escaped = false;
    let mut last_escaped = false;
    let mut i: usize = 0;
    while i < chars.len()
        invariant
            i <= chars.len(),
            chars@ == stripped@,
            stripped@ == trimmed(cmd@),
            parens <= i,
            brackets <= i,
            braces <= i,
            read_prefix(chars@, i as nat) == Ok::<Reading, SyntaxError>(
                Reading {
                    parens: parens as nat,
                    brackets: brackets as nat,
                    braces: braces as nat,
                    in_single,
                    in_double,
                    escaped,
                },
            ),
            last_escaped == (i > 0 && (read_prefix(chars@, (i - 1) as nat) matches Ok(r) && r.escaped)),
        decreases chars.len() - i,
    {
        let c = chars[i];
        let ghost before = read_prefix(chars@, i as nat);
        proof {
            assert(read_prefix(chars@, (i + 1) as nat) == read_char(before->Ok_0, chars@[i as int]));
            if read_char(before->Ok_0, chars@[i as int]) is Err {
                lemma_error_stays(chars@, (i + 1) as nat, chars@.len());
            }
        }
        last_escaped = escaped;
        if escaped {
            escaped = false;
        } else if c == '\\' {
            escaped = true;
        } else if c == '\'' {
            if !in_double {
                in_single = !in_single;
            }
        } else if c == '"' {
            if !in_single {
                in_double = !in_double;
            }
        } else if in_single || in_double {
        } else if c == '(' {
            parens += 1;
        } else if c == ')' {
            if parens == 0 {
                return Err(SyntaxError::UnmatchedClosingParenthesis);
            }
            parens -= 1;
        } else if c == '[' {
            brackets += 1;
        } else if c == ']' {
            if brackets == 0 {
                return Err(SyntaxError::UnmatchedClosingBracket);
            }
            brackets -= 1;
        } else if c == '{' {
            braces += 1;
        } else if c == '}' {
            if braces == 0 {
                return Err(SyntaxError::UnmatchedClosingBrace);
            }
            braces -= 1;
        }
        i += 1;
    }
    if in_single {
        return Err(SyntaxError::UnclosedSingleQuote);
    }
    if in_double {
        return Err(SyntaxError::UnclosedDoubleQuote);
    }
    if parens != 0 {
        return Err(SyntaxError::UnmatchedParentheses);
    }
    if brackets != 0 {
        return Err(SyntaxError::UnmatchedBrackets);
    }
    if braces != 0 {
        return Err(SyntaxError::UnmatchedBraces);
    }
    let bytes = stripped.as_bytes();
    if !last_escaped && (ends_with_exec(bytes, "&&".as_bytes()) || ends_with_exec(bytes, "||".as_bytes())
        || ends_with_exec(bytes, "|".as_bytes()) || ends_with_exec(bytes, ";".as_bytes())) {
        return Err(SyntaxError::IncompleteExpression);
    }
    if contains_exec(bytes, "awk".as_bytes()) && (ends_with_exec(bytes, "$".as_bytes()) || (contains_exec(
        bytes,
        "$".as_bytes(),
    ) && !contains_exec(bytes, "{print".as_bytes()) && !contains_exec(bytes, "{print ".as_bytes()))) {
        return Err(SyntaxError::IncompleteAwk);
    }
    Ok(())
}

/// Once a reading has met an error, it stays with it.
proof fn lemma_error_stays(chars: Seq<char>, n: nat, m: nat)
    requires
        n <= m,
        read_prefix(chars, n) is Err,
    ensures
        read_prefix(chars, m) == read_prefix(chars, n),
    decreases m - n,
{
    if n < m {
        lemma_error_stays(chars, n, (m - 1) as nat);
    }
}

} // verus!
