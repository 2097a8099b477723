//! The envelope types the hub exchanges with clients: the decoded inbound
//! actions and the outbound message structs with their JSON renderings.

use vstd::prelude::*;

use crate::codec::chat_json_chars;
use crate::codec::chatters_json_chars;
use crate::codec::spec_chat_json;
use crate::codec::spec_chatters_json;
use crate::codec::spec_system_json;
use crate::codec::system_json_chars;
use crate::text::chars_to_string;
use crate::text::str_to_chars;

verus! {

/// One decoded inbound envelope: a login request or a chat line.
#[derive(Debug, PartialEq, Eq)]
pub enum Actions {
    Login { name: String },
    Message { chatter: String, text: String },
}

/// The specification-level image of [`Actions`].
pub enum ActionView {
    Login { name: Seq<char> },
    Message { chatter: Seq<char>, text: Seq<char> },
}

impl View for Actions {
    type V = ActionView;

    open spec fn view(&self) -> ActionView {
        match self {
            Actions::Login { name } => ActionView::Login { name: name@ },
            Actions::Message { chatter, text } => ActionView::Message {
                chatter: chatter@,
                text: text@,
            },
        }
    }
}

/// Why an inbound text was rejected: not of the expected shape, or a
/// well-formed object whose tag names no known action.
#[derive(Debug, PartialEq, Eq, Structural, Clone, Copy)]
pub enum DecodeError {
    Malformed,
    UnknownTag,
}

/// A broadcast chat line, stamped with a wall-clock time in milliseconds.
pub struct ChatMessage {
    pub type_: String,
    pub chatter: String,
    pub time: u64,
    pub text: String,
}

impl ChatMessage {
    pub fn new(chatter: String, time: u64, text: String) -> (r: Self)
        ensures
            r.type_@ == "Message"@,
            r.chatter@ == chatter@,
            r.time == time,
            r.text@ == text@,
    {
        Self { type_: String::from_str("Message"), chatter, time, text }
    }

    /// The wire form: `{"type":TAG,"chatter":C,"time":N,"text":T}`.
    pub fn to_json(&self) -> (r: String)
        ensures
            r@ == spec_chat_json(self.type_@, self.chatter@, self.time, self.text@),
    {
        let tag = str_to_chars(self.type_.as_str());
        let chatter = str_to_chars(self.chatter.as_str());
        let text = str_to_chars(self.text.as_str());
        let out = chat_json_chars(&tag, &chatter, self.time, &text);
        chars_to_string(&out)
    }
}

/// A system notice: a join announcement or a login acknowledgement.
pub struct SystemMessage {
    pub type_: String,
    pub text: String,
}

impl SystemMessage {
    /// The wire form: `{"type":TAG,"text":T}`.
    pub fn to_json(&self) -> (r: String)
        ensures
            r@ == spec_system_json(self.type_@, self.text@),
    {
        let tag = str_to_chars(self.type_.as_str());
        let text = str_to_chars(self.text.as_str());
        let out = system_json_chars(&tag, &text);
        chars_to_string(&out)
    }
}

/// The roster snapshot: every registered display name.
pub struct ChattersMessage {
    pub type_: String,
    pub chatters: Vec<String>,
}

impl ChattersMessage {
    pub fn new(chatters: Vec<String>) -> (r: Self)
        ensures
            r.type_@ == "Chatters"@,
            r.chatters@ == chatters@,
    {
        Self { type_: String::from_str("Chatters"), chatters }
    }

    /// The wire form: `{"type":TAG,"chatters":[N1,N2,...]}`.
    pub fn to_json(&self) -> (r: String)
        ensures
            r@ == spec_chatters_json(
                self.type_@,
                self.chatters@.map_values(|s: String| s@),
            ),
    {
        let tag = str_to_chars(self.type_.as_str());
        let mut names: Vec<Vec<char>> = Vec::new();
        let mut i: usize = 0;
        while i < self.chatters.len()
            invariant
                i <= self.chatters@.len(),
                names@.len() == i,
                forall|j: int| 0 <= j < i ==> names@[j]@ == self.chatters@[j]@,
            decreases self.chatters@.len() - i,
        {
            names.push(str_to_chars(self.chatters[i].as_str()));
            i = i + 1;
        }
        let out = chatters_json_chars(&tag, &names);
        proof {
            assert(names@.map_values(|n: Vec<char>| n@) =~~= self.chatters@.map_values(
                |s: String| s@,
            ));
        }
        chars_to_string(&out)
    }
}

} // verus!
