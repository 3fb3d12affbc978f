//! Messages to the user.
use vstd::prelude::*;

verus! {

/// How a message is to be taken.
#[derive(Debug, Clone, Copy, PartialEq, Eq, Structural)]
pub enum MessageType {
    Error,
    Warning,
    Info,
}

/// A message to the user.
#[derive(Debug)]
pub struct Message {
    pub kind: MessageType,
    pub text: String,
}

/// Model of [`Message`].
pub struct MessageModel {
    pub kind: MessageType,
    pub text: Seq<char>,
}

impl View for Message {
    type V = MessageModel;

    open spec fn view(&self) -> MessageModel {
        MessageModel { kind: self.kind, text: self.text@ }
    }
}

/// An error message.
pub open spec fn error_text(text: Seq<char>) -> MessageModel {
    MessageModel { kind: MessageType::Error, text }
}

/// A warning.
pub open spec fn warning_text(text: Seq<char>) -> MessageModel {
    MessageModel { kind: MessageType::Warning, text }
}

/// A piece of information.
pub open spec fn info_text(text: Seq<char>) -> MessageModel {
    MessageModel { kind: MessageType::Info, text }
}

/// Model of an optional message.
pub open spec fn message_model(m: Option<Message>) -> Option<MessageModel> {
    match m {
        Some(x) => Some(x@),
        None => None,
    }
}

impl Message {
    pub fn error(text: &str) -> (m: Self)
        ensures
            m@ == error_text(text@),
    {
        Message { kind: MessageType::Error, text: text.to_owned() }
    }

    pub fn warning(text: &str) -> (m: Self)
        ensures
            m@ == warning_text(text@),
    {
        Message { kind: MessageType::Warning, text: text.to_owned() }
    }

    pub fn info(text: &str) -> (m: Self)
        ensures
            m@ == info_text(text@),
    {
        Message { kind: MessageType::Info, text: text.to_owned() }
    }
}

/// A message has its kind and its text.
pub proof fn law_messages(text: Seq<char>, m: Message)
    ensures
        error_text(text).kind == MessageType::Error && error_text(text).text == text,
        warning_text(text).kind == MessageType::Warning && warning_text(text).text == text,
        info_text(text).kind == MessageType::Info && info_text(text).text == text,
        m@.kind == m.kind && m@.text == m.text@,
        message_model(Some(m)) == Some(m@),
        message_model(None) is None,
{
}

} // verus!
