//! Conversations: messages, and how a prompt or a turn is framed.
//!
//! An instruct model given raw text does not fail, it continues the text. So what goes
//! through the chat template, and what does not, is decided in one place.
use vstd::prelude::*;

verus! {

/// One message of a conversation.
#[derive(Debug, Clone, PartialEq, Eq)]
pub struct Message {
    pub role: String,
    pub content: String,
}

impl Message {
    /// Who speaks, and what they say.
    pub open spec fn parts(self) -> (Seq<char>, Seq<char>) {
        (self.role@, self.content@)
    }

    pub fn new(role: &str, content: &str) -> (message: Self)
        ensures
            message.parts() == (role@, content@),
    {
        Message { role: copied(role), content: copied(content) }
    }
}

/// The messages of a conversation as pairs of role and content.
pub open spec fn conversation(messages: Seq<Message>) -> Seq<(Seq<char>, Seq<char>)> {
    messages.map_values(|m: Message| m.parts())
}

/// A text of its own with the same characters.
pub fn copied(text: &str) -> (out: String)
    ensures
        out@ == text@,
{
    let mut out = String::new();
    out.append(text);
    assert(out@ =~= text@);
    out
}

/// How a text reaches the tokenizer.
#[derive(Debug, Clone, PartialEq, Eq)]
pub enum Framing {
    /// As it is.
    Raw(String),
    /// Through the model's chat template, with the answer begun.
    Template(Vec<Message>),
}

/// A [`Framing`] without its representation.
pub enum Framed {
    Raw(Seq<char>),
    Template(Seq<(Seq<char>, Seq<char>)>),
}

impl View for Framing {
    type V = Framed;

    open spec fn view(&self) -> Framed {
        match self {
            Framing::Raw(text) => Framed::Raw(text@),
            Framing::Template(messages) => Framed::Template(conversation(messages@)),
        }
    }
}

/// How a prompt is framed. A system prompt has no place in raw completion, so asking for
/// one implies the template.
pub open spec fn prompt_framing(prompt: Seq<char>, chat: bool, system: Option<Seq<char>>) -> Framed {
    match system {
        Some(s) => Framed::Template(seq![("system"@, s), ("user"@, prompt)]),
        None => if chat {
            Framed::Template(seq![("user"@, prompt)])
        } else {
            Framed::Raw(prompt)
        },
    }
}

/// The text of a string that may be absent.
pub open spec fn text_if(text: Option<&str>) -> Option<Seq<char>> {
    match text {
        Some(t) => Some(t@),
        None => None,
    }
}

/// Frames a prompt.
pub fn framed(prompt: &str, chat: bool, system: Option<&str>) -> (framing: Framing)
    ensures
        framing@ == prompt_framing(prompt@, chat, text_if(system)),
{
    let mut messages: Vec<Message> = Vec::new();
    match system {
        Some(s) => {
            messages.push(Message::new("system", s));
            messages.push(Message::new("user", prompt));
            assert(conversation(messages@) =~= seq![("system"@, s@), ("user"@, prompt@)]);
        },
        None => {
            if !chat {
                return Framing::Raw(copied(prompt));
            }
            messages.push(Message::new("user", prompt));
            assert(conversation(messages@) =~= seq![("user"@, prompt@)]);
        },
    }
    Framing::Template(messages)
}

/// How a turn of the user is framed: through the template in a conversation, else
/// between the prefix and the suffix asked for.
pub open spec fn turn_framing(
    line: Seq<char>,
    in_conversation: bool,
    prefix: Seq<char>,
    suffix: Seq<char>,
) -> Framed {
    if in_conversation {
        Framed::Template(seq![("user"@, line)])
    } else {
        Framed::Raw(prefix + line + suffix)
    }
}

/// Frames a turn of the user.
pub fn framed_turn(line: &str, in_conversation: bool, prefix: &str, suffix: &str) -> (framing:
    Framing)
    ensures
        framing@ == turn_framing(line@, in_conversation, prefix@, suffix@),
{
    if in_conversation {
        let mut messages: Vec<Message> = Vec::new();
        messages.push(Message::new("user", line));
        assert(conversation(messages@) =~= seq![("user"@, line@)]);
        return Framing::Template(messages);
    }
    let mut text = copied(prefix);
    text.append(line);
    text.append(suffix);
    assert(text@ =~= prefix@ + line@ + suffix@);
    Framing::Raw(text)
}

/// A system prompt is never dropped: it is the first message of what is sent.
pub proof fn a_system_prompt_is_always_sent(prompt: Seq<char>, chat: bool, system: Seq<char>)
    ensures
        prompt_framing(prompt, chat, Some(system)) matches Framed::Template(sent) && sent.len()
            == 2 && sent[0] == ("system"@, system) && sent[1] == ("user"@, prompt),
{
}

} // verus!
