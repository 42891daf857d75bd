use vstd::prelude::*;
use vstd::string::StringExecFns;
use vstd::string::StringSliceAdditionalSpecFns;
use vstd::utf8::*;
use crate::boundaries::{lemma_boundary_around_ascii, substr};
use crate::byte_search::lines_of;
use crate::chars::{chars_of, push_char, trim, trimmed};
use crate::chat::Message;
use crate::json::{json_string_array, string_array};
use crate::text::{
    join, join_slices, lemma_slices_decode, lines_exec, slice_texts, str_ends_with, str_eq,
    str_starts_with, text_ends_with, text_lines, text_starts_with, texts,
};

verus! {

broadcast use vstd::utf8::encode_utf8_valid_utf8;

/// What opens and closes a block of code in a reply.
pub const FENCE: &'static str = "```";

/// Whether a reply stands between code fences.
pub open spec fn is_fenced(reply: Seq<char>) -> bool {
    text_starts_with(reply, FENCE@) && text_ends_with(reply, FENCE@)
}

/// A reply of at least three lines whose first line begins with a fence and
/// whose last line is a fence.
pub open spec fn is_fenced_block(reply: Seq<char>) -> bool {
    let lines = text_lines(reply);
    is_fenced(reply) && lines.len() >= 3 && text_starts_with(trimmed(lines[0]), FENCE@) && trimmed(
        lines.last(),
    ) == FENCE@
}

/// The lines of a reply between its first and its last.
pub open spec fn inner_lines(reply: Seq<char>) -> Seq<char> {
    let lines = text_lines(reply);
    trimmed(join(lines.subrange(1, lines.len() - 1), "\n"@))
}

/// The command in a reply: what stands between the code fences where the
/// reply is a fenced block, else the reply itself; in either case without
/// the white space around it.
pub open spec fn cleaned_command(raw: Seq<char>) -> Seq<char> {
    let reply = trimmed(raw);
    if is_fenced_block(reply) {
        inner_lines(reply)
    } else {
        reply
    }
}

/// Takes the command out of a reply that may stand between code fences.
pub fn clean_command_output(raw: &str) -> (command: String)
    ensures
        command@ == cleaned_command(raw@),
{
    let reply = trim(raw);
    if str_starts_with(reply, FENCE) && str_ends_with(reply, FENCE) {
        let lines = lines_exec(reply);
        proof {
            lemma_slices_decode(lines@, lines_of(reply.spec_bytes()));
            assert(slice_texts(lines@) =~= text_lines(reply@));
        }
        if lines.len() >= 3 {
            if str_starts_with(trim(lines[0]), FENCE) && str_eq(trim(lines[lines.len() - 1]), FENCE) {
                let inner = join_slices(&lines, 1, lines.len() - 1, "\n");
                return String::from_str(trim(inner.as_str()));
            }
        }
    }
    String::from_str(reply)
}

/// Where a scan for a JSON value stands: how deep it is in brackets, and
/// where the value began that is being read.
pub struct Nesting {
    pub depth: int,
    pub start: Option<int>,
}

/// Whether a byte opens a JSON value of the kinds looked for.
pub open spec fn opens(b: u8, arrays_too: bool) -> bool {
    b == 123 || (arrays_too && b == 91)
}

/// Whether a byte closes a JSON value of the kinds looked for.
pub open spec fn closes(b: u8, arrays_too: bool) -> bool {
    b == 125 || (arrays_too && b == 93)
}

/// The first stretch of `bytes[i..]` that closes at depth zero after a
/// value began, read from the given state on.
pub open spec fn balanced_from(bytes: Seq<u8>, arrays_too: bool, i: int, at: Nesting) -> Option<(int, int)>
    decreases bytes.len() - i,
{
    if i >= bytes.len() {
        None
    } else if opens(bytes[i], arrays_too) {
        balanced_from(
            bytes,
            arrays_too,
            i + 1,
            Nesting { depth: at.depth + 1, start: if at.depth == 0 { Some(i) } else { at.start } },
        )
    } else if closes(bytes[i], arrays_too) {
        if at.depth == 1 && at.start is Some {
            Some((at.start->0, i + 1))
        } else {
            balanced_from(bytes, arrays_too, i + 1, Nesting { depth: at.depth - 1, start: at.start })
        }
    } else {
        balanced_from(bytes, arrays_too, i + 1, at)
    }
}

/// Whether a reply is, from its first to its last byte, one JSON value of
/// the kinds looked for, going by those two bytes.
pub open spec fn looks_whole(bytes: Seq<u8>, arrays_too: bool) -> bool {
    bytes.len() > 0 && ((bytes[0] == 123 && bytes.last() == 125) || (arrays_too && bytes[0] == 91
        && bytes.last() == 93))
}

/// The JSON value in a noisy reply: the whole reply, without the white
/// space around it, where that begins and ends like a value; else the first
/// stretch that runs from an opening bracket to the bracket that closes it.
pub open spec fn json_in(raw: Seq<char>, arrays_too: bool) -> Option<Seq<char>> {
    let reply = trimmed(raw);
    let bytes = encode_utf8(reply);
    if looks_whole(bytes, arrays_too) {
        Some(reply)
    } else {
        match balanced_from(bytes, arrays_too, 0, Nesting { depth: 0, start: None }) {
            Some(span) => Some(decode_utf8(bytes.subrange(span.0, span.1))),
            None => None,
        }
    }
}

/// Finds the JSON value in a noisy reply, objects only or arrays too.
pub fn find_json<'a>(raw: &'a str, arrays_too: bool) -> (found: Option<&'a str>)
    ensures
        match found {
            Some(text) => json_in(raw@, arrays_too) == Some(text@),
            None => json_in(raw@, arrays_too) is None,
        },
{
    let reply = trim(raw);
    let data = reply.as_bytes();
    let ghost bytes = reply.spec_bytes();
    let len = data.len();
    if len > 0 && ((data[0] == 123 && data[len - 1] == 125) || (arrays_too && data[0] == 91 && data[len - 1]
        == 93)) {
        return Some(reply);
    }
    let mut depth: i128 = 0;
    let mut start: Option<usize> = None;
    let mut i: usize = 0;
    while i < len
        invariant
            i <= len,
            len == bytes.len(),
            data@ == bytes,
            bytes == reply.spec_bytes(),
            reply@ == trimmed(raw@),
            valid_utf8(bytes),
            !looks_whole(bytes, arrays_too),
            -(i as int) <= depth <= i,
            start matches Some(s) ==> s < i && is_char_boundary(bytes, s as int),
            balanced_from(
                bytes,
                arrays_too,
                i as int,
                Nesting {
                    depth: depth as int,
                    start: match start {
                        Some(s) => Some(s as int),
                        None => None,
                    },
                },
            ) == balanced_from(bytes, arrays_too, 0, Nesting { depth: 0, start: None }),
        decreases len - i,
    {
        let b = data[i];
        if b == 123 || (arrays_too && b == 91) {
            if depth == 0 {
                proof {
                    lemma_boundary_around_ascii(bytes, i as int);
                }
                start = Some(i);
            }
            depth += 1;
        } else if b == 125 || (arrays_too && b == 93) {
            depth -= 1;
            if depth == 0 {
                match start {
                    Some(s) => {
                        proof {
                            lemma_boundary_around_ascii(bytes, i as int);
                        }
                        let found = substr(reply, s, i + 1);
                        proof {
                            encode_utf8_decode_utf8(found@);
                        }
                        return Some(found);
                    },
                    None => {},
                }
            }
        }
        i += 1;
    }
    None
}

/// Finds the JSON object in a noisy reply.
pub fn extract_last_json<'a>(raw: &'a str) -> (found: Option<&'a str>)
    ensures
        match found {
            Some(text) => json_in(raw@, false) == Some(text@),
            None => json_in(raw@, false) is None,
        },
{
    find_json(raw, false)
}

/// Where a scan for a JSON array stands.
pub struct ArrayScan {
    pub depth: int,
    pub start: Option<int>,
    pub in_string: bool,
    pub escaped: bool,
}

/// The first stretch of `bytes[i..]` that runs from a bracket opened
/// outside strings at depth zero to the bracket that closes it, read from
/// the given state on. Inside a string a backslash escapes the next byte.
pub open spec fn array_from(bytes: Seq<u8>, i: int, at: ArrayScan) -> Option<(int, int)>
    decreases bytes.len() - i,
{
    if i >= bytes.len() {
        None
    } else if at.escaped {
        array_from(bytes, i + 1, ArrayScan { escaped: false, ..at })
    } else if bytes[i] == 34 {
        array_from(bytes, i + 1, ArrayScan { in_string: !at.in_string, ..at })
    } else if bytes[i] == 92 {
        array_from(bytes, i + 1, ArrayScan { escaped: at.in_string, ..at })
    } else if at.in_string {
        array_from(bytes, i + 1, at)
    } else if bytes[i] == 91 {
        array_from(
            bytes,
            i + 1,
            ArrayScan { depth: at.depth + 1, start: if at.depth == 0 { Some(i) } else { at.start }, ..at },
        )
    } else if bytes[i] == 93 {
        if at.depth == 1 && at.start is Some {
            Some((at.start->0, i + 1))
        } else {
            array_from(bytes, i + 1, ArrayScan { depth: at.depth - 1, ..at })
        }
    } else {
        array_from(bytes, i + 1, at)
    }
}

/// The JSON array in a text that may hold other things: the first stretch
/// from an opening bracket outside strings to the bracket that closes it.
pub open spec fn array_in(text: Seq<char>) -> Option<Seq<char>> {
    let bytes = encode_utf8(text);
    match array_from(bytes, 0, ArrayScan { depth: 0, start: None, in_string: false, escaped: false }) {
        Some(span) => Some(decode_utf8(bytes.subrange(span.0, span.1))),
        None => None,
    }
}

/// Finds the JSON array in a text that may hold other things.
pub fn extract_json_array<'a>(text: &'a str) -> (found: Option<&'a str>)
    ensures
        match found {
            Some(array) => array_in(text@) == Some(array@),
            None => array_in(text@) is None,
        },
{
    let data = text.as_bytes();
    let ghost bytes = text.spec_bytes();
    let len = data.len();
    let mut depth: i128 = 0;
    let mut start: Option<usize> = None;
    let mut in_string = false;
    let mut escaped = false;
    let mut i: usize = 0;
    while i < len
        invariant
            i <= len,
            len == bytes.len(),
            data@ == bytes,
            bytes == text.spec_bytes(),
            valid_utf8(bytes),
            -(i as int) <= depth <= i,
            start matches Some(s) ==> s < i && is_char_boundary(bytes, s as int),
            array_from(
                bytes,
                i as int,
                ArrayScan {
                    depth: depth as int,
                    start: match start {
                        Some(s) => Some(s as int),
                        None => None,
                    },
                    in_string,
                    escaped,
                },
            ) == array_from(bytes, 0, ArrayScan { depth: 0, start: None, in_string: false, escaped: false }),
        decreases len - i,
    {
        let b = data[i];
        if escaped {
            escaped = false;
        } else if b == 34 {
            in_string = !in_string;
        } else if b == 92 {
            if in_string {
                escaped = true;
            }
        } else if in_string {
        } else if b == 91 {
            if depth == 0 {
                proof {
                    lemma_boundary_around_ascii(bytes, i as int);
                }
                start = Some(i);
            }
            depth += 1;
        } else if b == 93 {
            depth -= 1;
            if depth == 0 {
                match start {
                    Some(s) => {
                        proof {
                            lemma_boundary_around_ascii(bytes, i as int);
                        }
                        let found = substr(text, s, i + 1);
                        proof {
                            encode_utf8_decode_utf8(found@);
                        }
                        return Some(found);
                    },
                    None => {},
                }
            }
        }
        i += 1;
    }
    None
}

/// Where the cleaning of JSON text stands: what was kept so far, and
/// whether it is inside a string, after a backslash, or inside a comment.
pub struct Cleaning {
    pub kept: Seq<char>,
    pub in_string: bool,
    pub escaped: bool,
    pub in_comment: bool,
}

/// The cleaning after the character at position `i`. A character after a
/// backslash inside a string is kept as it is. Two slashes outside a string
/// begin a comment, which ends with the line; of a comment only backslashes
/// are kept.
pub open spec fn clean_char(chars: Seq<char>, i: int, at: Cleaning) -> Cleaning {
    let c = chars[i];
    let with_c = at.kept.push(c);
    if at.escaped {
        Cleaning { kept: with_c, escaped: false, ..at }
    } else if c == '"' {
        if at.in_comment {
            at
        } else {
            Cleaning { kept: with_c, in_string: !at.in_string, ..at }
        }
    } else if c == '\\' {
        Cleaning { kept: with_c, escaped: at.in_string, ..at }
    } else if c == '/' {
        if !at.in_string && i + 1 < chars.len() && chars[i + 1] == '/' {
            Cleaning { in_comment: true, ..at }
        } else if !at.in_comment {
            Cleaning { kept: with_c, ..at }
        } else {
            at
        }
    } else if c == '\n' || c == '\r' {
        if at.in_comment {
            Cleaning { in_comment: false, ..at }
        } else {
            Cleaning { kept: with_c, ..at }
        }
    } else if at.in_comment {
        at
    } else {
        Cleaning { kept: with_c, ..at }
    }
}

/// The cleaning after the first `n` characters.
pub open spec fn cleaning_after(chars: Seq<char>, n: nat) -> Cleaning
    decreases n,
{
    if n == 0 {
        Cleaning { kept: seq![], in_string: false, escaped: false, in_comment: false }
    } else {
        clean_char(chars, n - 1, cleaning_after(chars, (n - 1) as nat))
    }
}

/// JSON text without its line comments and without the white space around it.
pub open spec fn cleaned_json(content: Seq<char>) -> Seq<char> {
    trimmed(cleaning_after(content, content.len()).kept)
}

/// Removes line comments from JSON text.
pub fn clean_json_content(content: &str) -> (cleaned: String)
    ensures
        cleaned@ == cleaned_json(content@),
{
    let chars = chars_of(content);
    let mut kept = String::new();
    let mut in_string = false;
    let mut escaped = false;
    let mut in_comment = false;
    let mut i: usize = 0;
    while i < chars.len()
        invariant
            i <= chars.len(),
            chars@ == content@,
            cleaning_after(chars@, i as nat) == (Cleaning { kept: kept@, in_string, escaped, in_comment }),
        decreases chars.len() - i,
    {
        let c = chars[i];
        if escaped {
            push_char(&mut kept, c);
            escaped = false;
        } else if c == '"' {
            if !in_comment {
                in_string = !in_string;
                push_char(&mut kept, c);
            }
        } else if c == '\\' {
            if in_string {
                escaped = true;
            }
            push_char(&mut kept, c);
        } else if c == '/' {
            if !in_string && i + 1 < chars.len() && chars[i + 1] == '/' {
                in_comment = true;
            } else if !in_comment {
                push_char(&mut kept, c);
            }
        } else if c == '\n' || c == '\r' {
            if in_comment {
                in_comment = false;
            } else {
                push_char(&mut kept, c);
            }
        } else if !in_comment {
            push_char(&mut kept, c);
        }
        i += 1;
    }
    String::from_str(trim(kept.as_str()))
}

/// The lines among the given ones that are not blank, each without the
/// white space around it.
pub open spec fn filled_among(lines: Seq<Seq<char>>) -> Seq<Seq<char>>
    decreases lines.len(),
{
    if lines.len() == 0 {
        seq![]
    } else {
        let before = filled_among(lines.drop_last());
        let line = trimmed(lines.last());
        if line.len() > 0 {
            before.push(line)
        } else {
            before
        }
    }
}

/// The lines of a reply that are not blank, each without the white space
/// around it.
pub open spec fn reply_lines(raw: Seq<char>) -> Seq<Seq<char>> {
    filled_among(text_lines(raw))
}

/// The lines of a reply that are not blank, each without the white space
/// around it. A streamed reply holds one JSON value on each of them.
pub fn response_lines<'a>(raw: &'a str) -> (filled: Vec<&'a str>)
    ensures
        slice_texts(filled@) == reply_lines(raw@),
{
    let lines = lines_exec(raw);
    proof {
        lemma_slices_decode(lines@, lines_of(raw.spec_bytes()));
        assert(slice_texts(lines@) =~= text_lines(raw@));
    }
    let mut filled: Vec<&'a str> = Vec::new();
    let mut i: usize = 0;
    assert(slice_texts(lines@).take(0) =~= Seq::<Seq<char>>::empty());
    assert(slice_texts(filled@) =~= Seq::<Seq<char>>::empty());
    while i < lines.len()
        invariant
            i <= lines.len(),
            slice_texts(filled@) == filled_among(slice_texts(lines@).take(i as int)),
        decreases lines.len() - i,
    {
        let line = trim(lines[i]);
        let ghost before = slice_texts(filled@);
        proof {
            let longer = slice_texts(lines@).take(i + 1);
            assert(longer.drop_last() =~= slice_texts(lines@).take(i as int));
            assert(longer.last() == lines[i as int]@);
        }
        if !line.is_empty() {
            filled.push(line);
            assert(slice_texts(filled@) =~= before.push(line@));
        }
        i += 1;
    }
    assert(slice_texts(lines@).take(lines.len() as int) =~= slice_texts(lines@));
    filled
}

/// Whether a message is there and is the assistant's.
pub open spec fn is_from_assistant(message: Option<Message>) -> bool {
    message is Some && message->0.role@ == "assistant"@
}

/// The position of the last of the first `n` messages that is the
/// assistant's, if there is one.
pub open spec fn last_from_assistant(messages: Seq<Option<Message>>, n: int) -> Option<int>
    decreases n,
{
    if n <= 0 {
        None
    } else if is_from_assistant(messages[n - 1]) {
        Some(n - 1)
    } else {
        last_from_assistant(messages, n - 1)
    }
}

/// What a message says, if it is there.
pub open spec fn content_of(message: Option<&Message>) -> Option<Seq<char>> {
    match message {
        Some(m) => Some(m.content@),
        None => None,
    }
}

/// The command in the model's reply, where `line_messages` holds, for each
/// line of the reply that is not blank, the message that the line is, if it
/// is one; `whole` the message that the whole reply is; and `extracted` the
/// message that the JSON object found in the reply is. The last line that
/// is a message of the assistant counts; failing that, the whole reply as a
/// message; failing that, the object found in it; failing that, the reply
/// as it is.
pub open spec fn command_in_reply(
    raw: Seq<char>,
    line_messages: Seq<Option<Message>>,
    whole: Option<Seq<char>>,
    extracted: Option<Seq<char>>,
) -> Seq<char> {
    match last_from_assistant(line_messages, line_messages.len() as int) {
        Some(at) => cleaned_command(line_messages[at]->0.content@),
        None => match whole {
            Some(content) => cleaned_command(content),
            None => match extracted {
                Some(content) => cleaned_command(content),
                None => cleaned_command(raw),
            },
        },
    }
}

/// Takes the command out of the model's reply to a request for one command.
pub fn command_from_reply(
    raw: &str,
    line_messages: &Vec<Option<Message>>,
    whole: Option<&Message>,
    extracted: Option<&Message>,
) -> (command: String)
    ensures
        command@ == command_in_reply(raw@, line_messages@, content_of(whole), content_of(extracted)),
{
    let mut n: usize = line_messages.len();
    while n > 0
        invariant
            n <= line_messages.len(),
            last_from_assistant(line_messages@, n as int) == last_from_assistant(
                line_messages@,
                line_messages.len() as int,
            ),
        decreases n,
    {
        match &line_messages[n - 1] {
            Some(message) => {
                if str_eq(message.role.as_str(), "assistant") {
                    return clean_command_output(message.content.as_str());
                }
            },
            None => {},
        }
        n -= 1;
    }
    match whole {
        Some(message) => clean_command_output(message.content.as_str()),
        None => match extracted {
            Some(message) => clean_command_output(message.content.as_str()),
            None => clean_command_output(raw),
        },
    }
}

/// The plan that a message's content holds: the content, cleaned of code
/// fences, as a JSON array of strings; failing that, and if `thorough`, the
/// same without comments; failing that, the JSON object found in it.
pub open spec fn plan_in_content(content: Seq<char>, thorough: bool) -> Option<Seq<Seq<char>>> {
    let cleaned = cleaned_command(content);
    if json_string_array(cleaned) is Some {
        json_string_array(cleaned)
    } else if thorough && json_string_array(cleaned_json(cleaned)) is Some {
        json_string_array(cleaned_json(cleaned))
    } else if json_in(cleaned, false) is Some {
        json_string_array(json_in(cleaned, false)->0)
    } else {
        None
    }
}

/// Reads a plan out of a message's content.
pub fn plan_from_content(content: &str, thorough: bool) -> (plan: Option<Vec<String>>)
    ensures
        match plan {
            Some(commands) => plan_in_content(content@, thorough) == Some(texts(commands@)),
            None => plan_in_content(content@, thorough) is None,
        },
{
    let cleaned = clean_command_output(content);
    match string_array(cleaned.as_str()) {
        Some(commands) => {
            return Some(commands);
        },
        None => {},
    }
    if thorough {
        let uncommented = clean_json_content(cleaned.as_str());
        match string_array(uncommented.as_str()) {
            Some(commands) => {
                return Some(commands);
            },
            None => {},
        }
    }
    match extract_last_json(cleaned.as_str()) {
        Some(json) => string_array(json),
        None => None,
    }
}

/// The plan in the last of the first `n` lines that is a message of the
/// assistant with a plan in it.
pub open spec fn plan_in_lines(messages: Seq<Option<Message>>, n: int) -> Option<Seq<Seq<char>>>
    decreases n,
{
    if n <= 0 {
        None
    } else if is_from_assistant(messages[n - 1]) && plan_in_content(messages[n - 1]->0.content@, true) is Some {
        plan_in_content(messages[n - 1]->0.content@, true)
    } else {
        plan_in_lines(messages, n - 1)
    }
}

/// The plan in what was found in a reply as a JSON object: the plan in the
/// message that the object is, or the object itself as an array.
pub open spec fn plan_in_extract(json: Seq<char>, extracted: Option<Seq<char>>) -> Option<Seq<Seq<char>>> {
    if extracted is Some && plan_in_content(extracted->0, false) is Some {
        plan_in_content(extracted->0, false)
    } else {
        json_string_array(json)
    }
}

/// The plan in the model's reply to a request for a plan, with
/// `line_messages`, `whole` and `extracted` as for a single command. The
/// reply is tried as a JSON array of strings as it is and cleaned of code
/// fences, then its lines as messages from the last on, then the reply as
/// one message, then the array and the object found in it. A reply in which
/// no plan is found gives the empty plan.
pub open spec fn plan_in_reply(
    raw: Seq<char>,
    line_messages: Seq<Option<Message>>,
    whole: Option<Seq<char>>,
    extracted: Option<Seq<char>>,
) -> Seq<Seq<char>> {
    if json_string_array(raw) is Some {
        json_string_array(raw)->0
    } else if json_string_array(cleaned_command(raw)) is Some {
        json_string_array(cleaned_command(raw))->0
    } else if plan_in_lines(line_messages, line_messages.len() as int) is Some {
        plan_in_lines(line_messages, line_messages.len() as int)->0
    } else if whole is Some && plan_in_content(whole->0, true) is Some {
        plan_in_content(whole->0, true)->0
    } else if array_in(raw) is Some && json_string_array(array_in(raw)->0) is Some {
        json_string_array(array_in(raw)->0)->0
    } else if json_in(raw, false) is Some && plan_in_extract(json_in(raw, false)->0, extracted) is Some {
        plan_in_extract(json_in(raw, false)->0, extracted)->0
    } else {
        seq![]
    }
}

/// Takes the plan out of the model's reply to a request for a plan.
pub fn plan_from_reply(
    raw: &str,
    line_messages: &Vec<Option<Message>>,
    whole: Option<&Message>,
    extracted: Option<&Message>,
) -> (commands: Vec<String>)
    ensures
        texts(commands@) == plan_in_reply(raw@, line_messages@, content_of(whole), content_of(extracted)),
{
    match string_array(raw) {
        Some(commands) => {
            return commands;
        },
        None => {},
    }
    let cleaned = clean_command_output(raw);
    match string_array(cleaned.as_str()) {
        Some(commands) => {
            return commands;
        },
        None => {},
    }
    let mut n: usize = line_messages.len();
    while n > 0
        invariant
            n <= line_messages.len(),
            json_string_array(raw@) is None,
            json_string_array(cleaned_command(raw@)) is None,
            plan_in_lines(line_messages@, n as int) == plan_in_lines(line_messages@, line_messages.len() as int),
        decreases n,
    {
        match &line_messages[n - 1] {
            Some(message) => {
                if str_eq(message.role.as_str(), "assistant") {
                    match plan_from_content(message.content.as_str(), true) {
                        Some(commands) => {
                            return commands;
                        },
                        None => {},
                    }
                }
            },
            None => {},
        }
        n -= 1;
    }
    match whole {
        Some(message) => {
            match plan_from_content(message.content.as_str(), true) {
                Some(commands) => {
                    return commands;
                },
                None => {},
            }
        },
        None => {},
    }
    match extract_json_array(raw) {
        Some(array) => {
            match string_array(array) {
                Some(commands) => {
                    return commands;
                },
                None => {},
            }
        },
        None => {},
    }
    match extract_last_json(raw) {
        Some(json) => {
            match extracted {
                Some(message) => {
                    match plan_from_content(message.content.as_str(), false) {
                        Some(commands) => {
                            return commands;
                        },
                        None => {},
                    }
                },
                None => {},
            }
            match string_array(json) {
                Some(commands) => {
                    return commands;
                },
                None => {},
            }
        },
        None => {},
    }
    let commands: Vec<String> = Vec::new();
    assert(texts(commands@) =~= Seq::<Seq<char>>::empty());
    commands
}

} // verus!
