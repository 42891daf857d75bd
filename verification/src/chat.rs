use vstd::prelude::*;
use vstd::string::StringExecFns;

verus! {

/// One turn of a chat with the model.
#[derive(Debug, Clone)]
pub struct Message {
    pub role: String,
    pub content: String,
}

/// What a message is, mathematically.
pub struct MessageModel {
    pub role: Seq<char>,
    pub content: Seq<char>,
}

impl View for Message {
    type V = MessageModel;

    open spec fn view(&self) -> MessageModel {
        MessageModel { role: self.role@, content: self.content@ }
    }
}

/// The models of a vector of messages.
pub open spec fn message_models(messages: Seq<Message>) -> Seq<MessageModel> {
    Seq::new(messages.len(), |i: int| messages[i]@)
}

/// A chat with the model, from the system prompt on.
pub struct ChatSession {
    pub messages: Vec<Message>,
}

/// What the model is told about safety.
pub open spec fn safety_note(safe_mode: bool) -> Seq<char> {
    if safe_mode {
        "Avoid destructive operations, never format disks, and avoid sudo. When in doubt, prefer read-only commands and conservative actions."@
    } else {
        "The user will review all commands before running."@
    }
}

/// What the model is told about its task.
pub open spec fn base_instructions() -> Seq<char> {
    "Convert natural language requests into POSIX shell commands. Use actual paths, not placeholders like '/path/to/'. Commands should work in the current environment. Prefer robust commands that handle errors gracefully."@
}

/// The first message of every chat: who the model is, where it runs, what
/// it is to do and how careful it is to be.
pub open spec fn system_prompt(safe_mode: bool, cwd: Seq<char>, platform: Seq<char>) -> Seq<char> {
    "You are a CLI assistant. Environment: Current working directory is '"@ + cwd + "', running on "@
        + platform + " platform.\n\n"@ + base_instructions() + "\n\n"@ + safety_note(safe_mode)
}

impl ChatSession {
    /// A chat that holds only the system prompt, for the given working
    /// directory and platform.
    pub fn new(safe_mode: bool, cwd: &str, platform: &str) -> (session: Self)
        ensures
            message_models(session.messages@) == seq![
                MessageModel { role: "system"@, content: system_prompt(safe_mode, cwd@, platform@) },
            ],
    {
        let mut content = String::from_str("You are a CLI assistant. Environment: Current working directory is '");
        content.append(cwd);
        content.append("', running on ");
        content.append(platform);
        content.append(" platform.\n\n");
        content.append(
            "Convert natural language requests into POSIX shell commands. Use actual paths, not placeholders like '/path/to/'. Commands should work in the current environment. Prefer robust commands that handle errors gracefully.",
        );
        content.append("\n\n");
        if safe_mode {
            content.append(
                "Avoid destructive operations, never format disks, and avoid sudo. When in doubt, prefer read-only commands and conservative actions.",
            );
        } else {
            content.append("The user will review all commands before running.");
        }
        let mut messages: Vec<Message> = Vec::new();
        messages.push(Message { role: String::from_str("system"), content });
        assert(message_models(messages@) =~= seq![
            MessageModel { role: "system"@, content: system_prompt(safe_mode, cwd@, platform@) },
        ]);
        ChatSession { messages }
    }

    /// Adds what the user said.
    pub fn push_user(&mut self, content: String)
        ensures
            message_models(final(self).messages@) == message_models(old(self).messages@).push(
                MessageModel { role: "user"@, content: content@ },
            ),
    {
        self.messages.push(Message { role: String::from_str("user"), content });
        assert(message_models(self.messages@) =~= message_models(old(self).messages@).push(
            MessageModel { role: "user"@, content: content@ },
        ));
    }

    /// Adds what the model answered.
    pub fn push_assistant(&mut self, content: String)
        ensures
            message_models(final(self).messages@) == message_models(old(self).messages@).push(
                MessageModel { role: "assistant"@, content: content@ },
            ),
    {
        self.messages.push(Message { role: String::from_str("assistant"), content });
        assert(message_models(self.messages@) =~= message_models(old(self).messages@).push(
            MessageModel { role: "assistant"@, content: content@ },
        ));
    }
}

} // verus!
