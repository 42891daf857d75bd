use vstd::prelude::*;
use vstd::hash_map::StringHashMap;
use vstd::string::StringExecFns;

verus! {

/// One turn of a conversation.
#[derive(Debug, Clone)]
pub struct Message {
    pub role: String,
    pub content: String,
}

/// What a message is, mathematically.
pub struct MessageModel {
    pub role: Seq<char>,
    pub content: Seq<char>,
}

impl View for Message {
    type V = MessageModel;

    open spec fn view(&self) -> MessageModel {
        MessageModel { role: self.role@, content: self.content@ }
    }
}

/// The models of a vector of messages.
pub open spec fn message_models(messages: Seq<Message>) -> Seq<MessageModel> {
    Seq::new(messages.len(), |i: int| messages[i]@)
}

/// A conversation with what is known of its setting.
pub struct Session {
    pub id: String,
    pub context: StringHashMap<String>,
    pub history: Vec<Message>,
}

impl Session {
    /// A session without context or history.
    pub fn new(id: String) -> (session: Self)
        ensures
            session.id == id,
            session.context@ == Map::<Seq<char>, String>::empty(),
            session.history@ == Seq::<Message>::empty(),
    {
        Session { id, context: StringHashMap::new(), history: Vec::new() }
    }

    /// Adds a message at the end of the history.
    pub fn add_message(&mut self, role: &str, content: &str)
        ensures
            final(self).id == old(self).id,
            final(self).context == old(self).context,
            message_models(final(self).history@) == message_models(old(self).history@).push(
                MessageModel { role: role@, content: content@ },
            ),
    {
        let message = Message { role: String::from_str(role), content: String::from_str(content) };
        self.history.push(message);
        assert(message_models(self.history@) =~= message_models(old(self).history@).push(
            MessageModel { role: role@, content: content@ },
        ));
    }
}

} // verus!
