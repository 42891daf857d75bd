use vstd::prelude::*;
use vstd::string::StringExecFns;
use vstd::string::StringSliceAdditionalSpecFns;
use vstd::utf8::*;
use crate::boundaries::{lemma_boundary_around_ascii, substr};
use crate::byte_search::lines_of;
use crate::chars::{chars_of, string_of, strip_char, strip_start, stripped_of, trim, trimmed};
use crate::json::{json_string_array, parse_string_array};
use crate::replies::{array_in, extract_json_array, FENCE, find_json, is_fenced, json_in};
use crate::text::{
    join, join_slices, lemma_slices_decode, lines_exec, slice_texts, str_ends_with, str_eq,
    str_starts_with, text_ends_with, text_lines, text_starts_with, texts,
};

verus! {

broadcast use vstd::utf8::encode_utf8_valid_utf8;

/// A text without the backticks, then the double quotes, then the single
/// quotes, then the white space around it.
pub open spec fn unquoted(s: Seq<char>) -> Seq<char> {
    trimmed(stripped_of(stripped_of(stripped_of(s, '`'), '"'), '\''))
}

fn unquote(text: &str) -> (bare: String)
    ensures
        bare@ == unquoted(text@),
{
    let a = strip_char(text, '`');
    let b = strip_char(a.as_str(), '"');
    let c = strip_char(b.as_str(), '\'');
    String::from_str(trim(c.as_str()))
}

/// A reply of at least three lines that stands between code fences and
/// whose last line is a fence.
pub open spec fn is_fenced_reply(reply: Seq<char>) -> bool {
    let lines = text_lines(reply);
    is_fenced(reply) && lines.len() >= 3 && trimmed(lines.last()) == FENCE@
}

/// The command in a reply: the lines between the first and the last where
/// the reply is fenced, else the reply without quotes around it.
pub open spec fn cleaned_output(raw: Seq<char>) -> Seq<char> {
    let reply = trimmed(raw);
    let lines = text_lines(reply);
    if is_fenced_reply(reply) {
        trimmed(join(lines.subrange(1, lines.len() - 1), "\n"@))
    } else {
        unquoted(reply)
    }
}

/// Takes the command out of a reply: removes code fences, backticks and the
/// quotes around it.
pub fn clean_command_output(raw: &str) -> (command: String)
    ensures
        command@ == cleaned_output(raw@),
{
    let reply = trim(raw);
    if str_starts_with(reply, FENCE) && str_ends_with(reply, FENCE) {
        let lines = lines_exec(reply);
        proof {
            lemma_slices_decode(lines@, lines_of(reply.spec_bytes()));
            assert(slice_texts(lines@) =~= text_lines(reply@));
        }
        if lines.len() >= 3 && str_eq(trim(lines[lines.len() - 1]), FENCE) {
            let inner = join_slices(&lines, 1, lines.len() - 1, "\n");
            return String::from_str(trim(inner.as_str()));
        }
    }
    unquote(reply)
}

/// Finds the JSON object or array in a noisy reply.
pub fn extract_last_json<'a>(raw: &'a str) -> (found: Option<&'a str>)
    ensures
        match found {
            Some(text) => json_in(raw@, true) == Some(text@),
            None => json_in(raw@, true) is None,
        },
{
    find_json(raw, true)
}

/// The position of the first line feed at or after `i`, if there is one.
pub open spec fn first_line_feed(bytes: Seq<u8>, i: int) -> Option<int>
    decreases bytes.len() - i,
{
    if i >= bytes.len() {
        None
    } else if bytes[i] == 10 {
        Some(i)
    } else {
        first_line_feed(bytes, i + 1)
    }
}

/// What stands between the fences of a fenced reply: what follows the
/// first line, or the first byte where there is one line only, up to the
/// closing fence.
pub open spec fn fenced_body(reply: Seq<char>) -> Seq<char> {
    let bytes = encode_utf8(reply);
    let from = match first_line_feed(bytes, 0) {
        Some(at) => at + 1,
        None => 1,
    };
    let to = bytes.len() - 3;
    if from <= to {
        trimmed(decode_utf8(bytes.subrange(from, to)))
    } else {
        seq![]
    }
}

/// The command in a response: what stands between its code fences where it
/// is fenced, the whole response else; without white space, backticks and
/// quotes around it.
pub open spec fn command_in(response: Seq<char>) -> Seq<char> {
    let reply = trimmed(response);
    unquoted(if is_fenced(reply) { fenced_body(reply) } else { reply })
}

proof fn lemma_fence_is_three_bytes()
    ensures
        FENCE.spec_bytes().len() == 3,
        forall|i: int| 0 <= i < 3 ==> #[trigger] FENCE.spec_bytes()[i] == 96,
{
    reveal_strlit("```");
    vstd::string::is_ascii_spec_bytes(FENCE);
}

/// Takes the command out of a response that may stand between code fences.
pub fn extract_command_from_response(response: &str) -> (command: String)
    ensures
        command@ == command_in(response@),
{
    let reply = trim(response);
    if !(str_starts_with(reply, FENCE) && str_ends_with(reply, FENCE)) {
        return unquote(reply);
    }
    let data = reply.as_bytes();
    let ghost bytes = reply.spec_bytes();
    let len = data.len();
    proof {
        lemma_fence_is_three_bytes();
        assert(bytes.subrange(0, 3) == FENCE.spec_bytes());
        assert(bytes.subrange(len - 3, len as int) == FENCE.spec_bytes());
        assert(bytes[0] == bytes.subrange(0, 3)[0]);
        assert(bytes[len - 3] == bytes.subrange(len - 3, len as int)[0]);
        lemma_boundary_around_ascii(bytes, 0);
        lemma_boundary_around_ascii(bytes, len - 3);
    }
    let mut at: usize = 0;
    while at < len && data[at] != 10
        invariant
            at <= len,
            len == bytes.len(),
            data@ == bytes,
            first_line_feed(bytes, at as int) == first_line_feed(bytes, 0),
        decreases len - at,
    {
        at += 1;
    }
    let from: usize = if at < len {
        proof {
            lemma_boundary_around_ascii(bytes, at as int);
        }
        at + 1
    } else {
        1
    };
    let to: usize = len - 3;
    if from <= to {
        let body = substr(reply, from, to);
        proof {
            encode_utf8_decode_utf8(body@);
        }
        unquote(trim(body))
    } else {
        proof {
            reveal_strlit("");
            assert(""@ =~= Seq::<char>::empty());
        }
        unquote("")
    }
}

/// Whether a character marks an item of a list.
pub open spec fn is_list_marker() -> spec_fn(char) -> bool {
    |c: char| c == '-' || c == '*' || c == '\u{2022}'
}

/// Whether a byte may end the number of a list item.
pub open spec fn ends_numbering(b: u8) -> bool {
    b == 41 || b == 46 || b == 58
}

/// The position of the first closing parenthesis, full stop or colon at or
/// after `i`.
pub open spec fn first_numbering_end(bytes: Seq<u8>, i: int) -> Option<int>
    decreases bytes.len() - i,
{
    if i >= bytes.len() {
        None
    } else if ends_numbering(bytes[i]) {
        Some(i)
    } else {
        first_numbering_end(bytes, i + 1)
    }
}

/// A line without the number at its start: what follows a closing
/// parenthesis, full stop or colon within the line's first four bytes.
pub open spec fn unnumbered(line: Seq<char>) -> Seq<char> {
    let bytes = encode_utf8(line);
    match first_numbering_end(bytes, 0) {
        Some(at) => if at < 4 {
            trimmed(decode_utf8(bytes.subrange(at + 1, bytes.len() as int)))
        } else {
            line
        },
        None => line,
    }
}

/// The command on a line of a list: the line without list markers and
/// numbering at its start and without commas and double quotes around it.
pub open spec fn command_on(line: Seq<char>) -> Seq<char> {
    stripped_of(trimmed(stripped_of(unnumbered(trimmed(strip_start(line, is_list_marker()))), ',')), '"')
}

/// Whether a line may hold a command: it is not empty, does not begin or
/// end with a code fence, and is not a bracket alone.
pub open spec fn may_hold_command(line: Seq<char>) -> bool {
    line.len() > 0 && !text_starts_with(line, FENCE@) && !text_ends_with(line, FENCE@) && line != "["@
        && line != "]"@
}

/// The commands on the given lines, one for each line that may hold one and
/// on which something is left.
pub open spec fn commands_on(lines: Seq<Seq<char>>) -> Seq<Seq<char>>
    decreases lines.len(),
{
    if lines.len() == 0 {
        seq![]
    } else {
        let before = commands_on(lines.drop_last());
        let line = trimmed(lines.last());
        if may_hold_command(line) && command_on(line).len() > 0 {
            before.push(command_on(line))
        } else {
            before
        }
    }
}

/// What a response gives as a plan where it is read as text: the first of
/// the response itself, the command cleaned out of it, the array found in
/// it, and the JSON value found in it, that is a JSON array of strings.
pub open spec fn plan_from_json(raw: Seq<char>) -> Option<Seq<Seq<char>>> {
    if json_string_array(raw) is Some {
        json_string_array(raw)
    } else if json_string_array(cleaned_output(raw)) is Some {
        json_string_array(cleaned_output(raw))
    } else if array_in(raw) is Some && json_string_array(array_in(raw)->0) is Some {
        json_string_array(array_in(raw)->0)
    } else if json_in(raw, true) is Some && json_string_array(json_in(raw, true)->0) is Some {
        json_string_array(json_in(raw, true)->0)
    } else {
        None
    }
}

/// The plan in a response: the JSON array of commands in it, or, where
/// there is none, one command for each line.
pub open spec fn plan_in(raw: Seq<char>) -> Seq<Seq<char>> {
    match plan_from_json(raw) {
        Some(commands) => commands,
        None => commands_on(text_lines(raw)),
    }
}

fn strip_list_markers(line: &str) -> (rest: String)
    ensures
        rest@ == strip_start(line@, is_list_marker()),
{
    let chars = chars_of(line);
    let mut lo: usize = 0;
    assert(chars@.subrange(0, chars@.len() as int) =~= chars@);
    while lo < chars.len() && (chars[lo] == '-' || chars[lo] == '*' || chars[lo] == '\u{2022}')
        invariant
            lo <= chars.len(),
            strip_start(chars@.subrange(lo as int, chars@.len() as int), is_list_marker()) == strip_start(
                chars@,
                is_list_marker(),
            ),
        decreases chars.len() - lo,
    {
        proof {
            let rest = chars@.subrange(lo as int, chars@.len() as int);
            assert(rest.drop_first() =~= chars@.subrange(lo + 1, chars@.len() as int));
        }
        lo += 1;
    }
    string_of(vstd::slice::slice_subrange(chars.as_slice(), lo, chars.len()))
}

fn remove_numbering<'a>(line: &'a str) -> (rest: &'a str)
    ensures
        rest@ == unnumbered(line@),
{
    let data = line.as_bytes();
    let ghost bytes = line.spec_bytes();
    let len = data.len();
    let mut at: usize = 0;
    while at < len && !(data[at] == 41 || data[at] == 46 || data[at] == 58)
        invariant
            at <= len,
            len == bytes.len(),
            data@ == bytes,
            first_numbering_end(bytes, at as int) == first_numbering_end(bytes, 0),
        decreases len - at,
    {
        at += 1;
    }
    if at < len && at < 4 {
        proof {
            lemma_boundary_around_ascii(bytes, at as int);
            is_char_boundary_start_end_of_seq(bytes);
        }
        let rest = substr(line, at + 1, len);
        proof {
            encode_utf8_decode_utf8(rest@);
        }
        trim(rest)
    } else {
        line
    }
}

fn command_on_line(line: &str) -> (command: String)
    ensures
        command@ == command_on(line@),
{
    let unmarked = strip_list_markers(line);
    let body = remove_numbering(trim(unmarked.as_str()));
    let uncommaed = strip_char(body, ',');
    strip_char(trim(uncommaed.as_str()), '"')
}

/// Reads a plan out of a response: a list of commands.
pub fn parse_agent_plan(raw: &str) -> (commands: Vec<String>)
    ensures
        texts(commands@) == plan_in(raw@),
{
    match parse_string_array(raw) {
        Ok(commands) => {
            return commands;
        },
        Err(_) => {},
    }
    let cleaned = clean_command_output(raw);
    match parse_string_array(cleaned.as_str()) {
        Ok(commands) => {
            return commands;
        },
        Err(_) => {},
    }
    match extract_json_array(raw) {
        Some(array) => {
            match parse_string_array(array) {
                Ok(commands) => {
                    return commands;
                },
                Err(_) => {},
            }
        },
        None => {},
    }
    match extract_last_json(raw) {
        Some(json) => {
            match parse_string_array(json) {
                Ok(commands) => {
                    return commands;
                },
                Err(_) => {},
            }
        },
        None => {},
    }
    assert(plan_from_json(raw@) is None);
    commands_from_lines(raw)
}

/// Reads a list of commands from the lines of a text: one command for each
/// line that may hold one, without list markers, numbering, commas and
/// quotes around it.
pub fn commands_from_lines(raw: &str) -> (commands: Vec<String>)
    ensures
        texts(commands@) == commands_on(text_lines(raw@)),
{
    let lines = lines_exec(raw);
    proof {
        lemma_slices_decode(lines@, lines_of(raw.spec_bytes()));
        assert(slice_texts(lines@) =~= text_lines(raw@));
    }
    let mut commands: Vec<String> = Vec::new();
    let mut i: usize = 0;
    assert(slice_texts(lines@).take(0) =~= Seq::<Seq<char>>::empty());
    assert(texts(commands@) =~= Seq::<Seq<char>>::empty());
    while i < lines.len()
        invariant
            i <= lines.len(),
            texts(commands@) == commands_on(slice_texts(lines@).take(i as int)),
        decreases lines.len() - i,
    {
        let line = trim(lines[i]);
        let ghost before = texts(commands@);
        proof {
            let longer = slice_texts(lines@).take(i + 1);
            assert(longer.drop_last() =~= slice_texts(lines@).take(i as int));
            assert(longer.last() == lines[i as int]@);
        }
        if !line.is_empty() && !str_starts_with(line, FENCE) && !str_ends_with(line, FENCE) && !str_eq(line, "[")
            && !str_eq(line, "]") {
            let command = command_on_line(line);
            if !command.as_str().is_empty() {
                commands.push(command);
                assert(texts(commands@) =~= before.push(command_on(line@)));
            }
        }
        i += 1;
    }
    assert(slice_texts(lines@).take(lines.len() as int) =~= slice_texts(lines@));
    commands
}

/// What a request for one command says before the description of the system.
pub const COMMAND_PROMPT_HEAD: &'static str = "You are on a system with: ";

/// What a request for one command says between the system and the task.
pub const COMMAND_PROMPT_MIDDLE: &'static str = ". Generate a bash command to: ";

/// What a request for one command says after the task.
pub const COMMAND_PROMPT_TAIL: &'static str = ". Respond with only the exact command to run, without any formatting, backticks, quotes, or explanation. Ensure the command is complete, syntactically correct, and uses standard Unix tools. For size comparisons, use appropriate units like -BG for gigabytes in df.";

/// What a request for a plan says before the description of the system.
pub const AGENT_PROMPT_HEAD: &'static str = "You are an assistant that turns a user's goal into a sequence of POSIX shell commands that can be run one-by-one with confirmation in between.\nEnvironment: ";

/// What a request for a plan says between the system and the task.
pub const AGENT_PROMPT_MIDDLE: &'static str = ".\nConstraints:\n- Respond ONLY with a JSON array of strings. Each element must be a complete shell command ready to run.\n- No prose, no markdown, no comments. If you cannot produce a valid JSON array, respond with [].\n- Prefer Debian/Ubuntu defaults (apt/apt-get, systemctl) unless otherwise implied.\n- Use real paths; avoid placeholders like /path/to.\n- Keep commands minimal and idempotent (check state before changing it).\n\nUser request: ";

/// What a request for an explanation says before the content.
pub const EXPLAIN_PROMPT_HEAD: &'static str = "Explain this content in detail:\n\n";

/// The request for one command that does a task on the given system.
pub fn command_prompt(system_info: &str, task: &str) -> (prompt: String)
    ensures
        prompt@ == COMMAND_PROMPT_HEAD@ + system_info@ + COMMAND_PROMPT_MIDDLE@ + task@ + COMMAND_PROMPT_TAIL@,
{
    let mut prompt = String::from_str(COMMAND_PROMPT_HEAD);
    prompt.append(system_info);
    prompt.append(COMMAND_PROMPT_MIDDLE);
    prompt.append(task);
    prompt.append(COMMAND_PROMPT_TAIL);
    prompt
}

/// The request for a plan of commands that reaches a goal on the given system.
pub fn agent_prompt(system_info: &str, task: &str) -> (prompt: String)
    ensures
        prompt@ == AGENT_PROMPT_HEAD@ + system_info@ + AGENT_PROMPT_MIDDLE@ + task@,
{
    let mut prompt = String::from_str(AGENT_PROMPT_HEAD);
    prompt.append(system_info);
    prompt.append(AGENT_PROMPT_MIDDLE);
    prompt.append(task);
    prompt
}

/// The request to explain the content of a file.
pub fn explain_prompt(content: &str) -> (prompt: String)
    ensures
        prompt@ == EXPLAIN_PROMPT_HEAD@ + content@,
{
    let mut prompt = String::from_str(EXPLAIN_PROMPT_HEAD);
    prompt.append(content);
    prompt
}

} // verus!
