//! The body of a chat-completion request, built message by message.
use vstd::prelude::*;
use vstd::string::StringExecFns;

verus! {

#[derive(Clone, Copy, Debug, PartialEq, Eq, Structural)]
pub enum Role {
    System,
    User,
}

#[derive(Clone, Copy, Debug, PartialEq, Eq, Structural)]
pub enum ResponseFormat {
    JsonObject,
    Text,
}

pub struct Message {
    pub role: Role,
    pub content: String,
}

pub struct OpenAiRequest {
    pub model: String,
    pub response_format: Option<ResponseFormat>,
    pub messages: Vec<Message>,
}

/// The role and text of each message, in order.
pub open spec fn conversation(messages: Seq<Message>) -> Seq<(Role, Seq<char>)> {
    messages.map_values(|m: Message| (m.role, m.content@))
}

impl OpenAiRequest {
    /// A request to `model` with no messages and no response format.
    pub fn new(model: &str) -> (r: OpenAiRequest)
        ensures
            r.model@ == model@,
            r.response_format is None,
            r.messages@.len() == 0,
    {
        OpenAiRequest { model: String::from_str(model), response_format: None, messages: Vec::new() }
    }

    /// The request with one more message at the end.
    pub fn append_message(self, role: Role, msg: String) -> (r: OpenAiRequest)
        ensures
            r.model == self.model,
            r.response_format == self.response_format,
            conversation(r.messages@) == conversation(self.messages@).push((role, msg@)),
    {
        let mut r = self;
        let ghost before = r.messages@;
        r.messages.push(Message { role, content: msg });
        assert(conversation(r.messages@) =~= conversation(before).push((role, msg@)));
        r
    }

    /// The request with the given response format.
    pub fn response_format(self, fmt: Option<ResponseFormat>) -> (r: OpenAiRequest)
        ensures
            r.model == self.model,
            r.response_format == fmt,
            r.messages == self.messages,
    {
        let mut r = self;
        r.response_format = fmt;
        r
    }
}

} // verus!
