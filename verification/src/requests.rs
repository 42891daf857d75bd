use vstd::prelude::*;
use vstd::string::StringExecFns;
use crate::chars::{trim, trimmed};
use crate::chat::{Message, message_models, MessageModel};

verus! {

/// What is asked of the model for one command, up to the working directory.
pub const COMMAND_REQUEST_HEAD: &'static str = "Convert the user's last request into ONE POSIX shell command. Current working directory: ";

/// What is asked of the model for one command, from the working directory on.
pub const COMMAND_REQUEST_TAIL: &'static str = ". Use actual paths and commands that will work in this environment. Avoid placeholders like '/path/to/' - use real paths or relative paths. Common patterns: 'disk space/free space' → df -h, 'folder sizes/largest folders' → du -sh */ | sort -hr. Distinguish between filesystem space (df) and folder sizes (du). Cache management: 'clear cache' uses --retrain flag, 'show cache' → cat ~/.config/qwen_cli_assistant/cache.json. Output ONLY the command, no markdown, no explanation.";

/// What the model is told before it is asked for a plan.
pub const PLAN_SYSTEM_PROMPT: &'static str = "You turn a user's goal into an ordered list of POSIX shell commands that can be executed one-by-one with confirmation between each step.\n\nConstraints:\n- Respond with ONLY a JSON array of strings. Each array element is a single shell command ready to run. If you cannot produce a valid JSON array, respond with [].\n- Do not include markdown, prose, or any text outside the JSON array. No comments.\n- Avoid placeholders like /path/to; use real or relative paths based on the current working directory when implied.\n- Prefer non-destructive, idempotent steps that check state before changing it (e.g., `which sshd || sudo apt-get install -y openssh-server`).\n- Target Debian/Ubuntu defaults unless the user specifies otherwise; use apt/apt-get and systemctl where relevant.\n- When the request is high-level, still emit concrete commands (e.g., to view sshd status use `systemctl status ssh`).\n- Keep each command minimal so it can be confirmed interactively.\n\nExample response format:\n[\"sudo apt-get update\", \"sudo apt-get install -y openssh-server\", \"sudo systemctl enable --now ssh\"]\n\nGenerate the plan based on the user's request.\n  ";

/// What the model is told before it is asked for a script.
pub const SCRIPT_SYSTEM_PROMPT: &'static str = "Generate a POSIX-compatible bash script only.\nReturn only the script text, no markdown.";

/// The request for one command, for the given working directory.
pub open spec fn command_request(cwd: Seq<char>) -> MessageModel {
    MessageModel { role: "user"@, content: COMMAND_REQUEST_HEAD@ + cwd + COMMAND_REQUEST_TAIL@ }
}

/// What the model is told about where it runs.
pub open spec fn environment_context(cwd: Seq<char>, platform: Seq<char>) -> Seq<char> {
    "Environment context: cwd='"@ + cwd + "', platform='"@ + platform
        + "'. Use paths that work here and avoid placeholders."@
}

fn message(role: &str, content: String) -> (m: Message)
    ensures
        m@ == (MessageModel { role: role@, content: content@ }),
{
    Message { role: String::from_str(role), content }
}

/// The messages that are sent for one command: the chat so far, and the
/// request to turn its last turn into one command.
pub fn command_messages(messages: &Vec<Message>, cwd: &str) -> (sent: Vec<Message>)
    ensures
        message_models(sent@) == message_models(messages@).push(command_request(cwd@)),
{
    let mut sent: Vec<Message> = Vec::new();
    let mut i: usize = 0;
    while i < messages.len()
        invariant
            i <= messages.len(),
            sent.len() == i,
            forall|j: int| 0 <= j < i ==> (#[trigger] sent[j])@ == messages[j]@,
        decreases messages.len() - i,
    {
        sent.push(message(messages[i].role.as_str(), messages[i].content.clone()));
        i += 1;
    }
    let mut content = String::from_str(COMMAND_REQUEST_HEAD);
    content.append(cwd);
    content.append(COMMAND_REQUEST_TAIL);
    sent.push(message("user", content));
    assert(message_models(sent@) =~= message_models(messages@).push(command_request(cwd@)));
    sent
}

/// The messages that are sent for a plan: what the model is to do, where it
/// runs, and what the user wants.
pub fn plan_messages(cwd: &str, platform: &str, user_prompt: &str) -> (sent: Vec<Message>)
    ensures
        message_models(sent@) == seq![
            MessageModel { role: "system"@, content: PLAN_SYSTEM_PROMPT@ },
            MessageModel { role: "user"@, content: environment_context(cwd@, platform@) },
            MessageModel { role: "user"@, content: user_prompt@ },
        ],
{
    let mut context = String::from_str("Environment context: cwd='");
    context.append(cwd);
    context.append("', platform='");
    context.append(platform);
    context.append("'. Use paths that work here and avoid placeholders.");
    let mut sent: Vec<Message> = Vec::new();
    sent.push(message("system", String::from_str(PLAN_SYSTEM_PROMPT)));
    sent.push(message("user", context));
    sent.push(message("user", String::from_str(user_prompt)));
    assert(message_models(sent@) =~= seq![
        MessageModel { role: "system"@, content: PLAN_SYSTEM_PROMPT@ },
        MessageModel { role: "user"@, content: environment_context(cwd@, platform@) },
        MessageModel { role: "user"@, content: user_prompt@ },
    ]);
    sent
}

/// The messages that are sent for a script: what the model is to do, and
/// what the user wants.
pub fn script_messages(user_prompt: &str) -> (sent: Vec<Message>)
    ensures
        message_models(sent@) == seq![
            MessageModel { role: "system"@, content: SCRIPT_SYSTEM_PROMPT@ },
            MessageModel { role: "user"@, content: user_prompt@ },
        ],
{
    let mut sent: Vec<Message> = Vec::new();
    sent.push(message("system", String::from_str(SCRIPT_SYSTEM_PROMPT)));
    sent.push(message("user", String::from_str(user_prompt)));
    assert(message_models(sent@) =~= seq![
        MessageModel { role: "system"@, content: SCRIPT_SYSTEM_PROMPT@ },
        MessageModel { role: "user"@, content: user_prompt@ },
    ]);
    sent
}

/// The script in the model's reply: the reply without the white space
/// around it.
pub fn script_from_reply(raw: &str) -> (script: String)
    ensures
        script@ == trimmed(raw@),
{
    String::from_str(trim(raw))
}

} // verus!
