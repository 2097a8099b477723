//! The client's side of the protocol: decoding the four outbound message
//! shapes the hub emits, and the state a connected client keeps — its own
//! login, the lines to show, the roster — updated one server message at a
//! time.

use vstd::prelude::*;

use crate::codec::is_hex_char;
use crate::codec::parse_str_body;
use crate::codec::spec_str_body;
use crate::codec::sub_at;
use crate::codec::match_at;
use crate::message::DecodeError;
use crate::text::chars_eq;
use crate::text::chars_to_string;
use crate::text::str_to_chars;

verus! {

/// A message as a connected client receives it.
#[derive(Debug, PartialEq, Eq)]
pub enum ServerMessages {
    LoginSystem { text: String },
    JoinSystem { text: String },
    Message { chatter: String, time: u64, text: String },
    Chatters { chatters: Vec<String> },
}

/// The specification-level image of [`ServerMessages`].
pub enum ServerMessageView {
    LoginSystem { text: Seq<char> },
    JoinSystem { text: Seq<char> },
    Message { chatter: Seq<char>, time: u64, text: Seq<char> },
    Chatters { chatters: Seq<Seq<char>> },
}

impl View for ServerMessages {
    type V = ServerMessageView;

    open spec fn view(&self) -> ServerMessageView {
        match self {
            ServerMessages::LoginSystem { text } => ServerMessageView::LoginSystem {
                text: text@,
            },
            ServerMessages::JoinSystem { text } => ServerMessageView::JoinSystem { text: text@ },
            ServerMessages::Message { chatter, time, text } => ServerMessageView::Message {
                chatter: chatter@,
                time: *time,
                text: text@,
            },
            ServerMessages::Chatters { chatters } => ServerMessageView::Chatters {
                chatters: chatters@.map_values(|s: String| s@),
            },
        }
    }
}

pub open spec fn is_digit(c: char) -> bool {
    0x30 <= c as u32 && c as u32 <= 0x39
}

/// Fold the digits from `i` on into `acc`; stop at the first non-digit.
/// A value past `u64::MAX` fails.
pub open spec fn spec_number_tail(s: Seq<char>, i: int, acc: u64) -> Option<(u64, int)>
    decreases s.len() - i,
{
    if 0 <= i < s.len() && is_digit(s[i]) {
        let d = (s[i] as u32 - 0x30) as u64;
        if acc > (u64::MAX - d) / 10 {
            None
        } else {
            spec_number_tail(s, i + 1, (acc * 10 + d) as u64)
        }
    } else {
        Some((acc, i))
    }
}

/// Parse an unsigned decimal number at `i`: at least one digit.
pub open spec fn spec_number(s: Seq<char>, i: int) -> Option<(u64, int)> {
    if 0 <= i < s.len() && is_digit(s[i]) {
        spec_number_tail(s, i, 0)
    } else {
        None
    }
}

fn digit_check(c: char) -> (r: bool)
    ensures
        r == is_digit(c),
{
    let u = c as u32;
    0x30 <= u && u <= 0x39
}

/// Parse a decimal number per [`spec_number`].
pub fn parse_number(s: &Vec<char>, start: usize) -> (r: Option<(u64, usize)>)
    ensures
        match spec_number(s@, start as int) {
            Some(p) => r matches Some(q) && q.0 == p.0 && q.1 == p.1,
            None => r is None,
        },
{
    if start >= s.len() || !digit_check(s[start]) {
        return None;
    }
    let mut i: usize = start;
    let mut acc: u64 = 0;
    loop
        invariant
            start <= i <= s@.len(),
            start < s@.len(),
            is_digit(s@[start as int]),
            (match spec_number_tail(s@, i as int, acc) {
                Some(p) => spec_number_tail(s@, start as int, 0) == Some::<(u64, int)>(
                    (p.0, p.1),
                ),
                None => spec_number_tail(s@, start as int, 0) is None,
            }),
        decreases s@.len() - i,
    {
        if i >= s.len() {
            return Some((acc, i));
        }
        let c = s[i];
        if !digit_check(c) {
            return Some((acc, i));
        }
        let d = (c as u32 - 0x30) as u64;
        if acc > (u64::MAX - d) / 10 {
            return None;
        }
        acc = acc * 10 + d;
        i = i + 1;
    }
}

/// Every parsed string body ends after where it began, within the text.
pub proof fn lemma_str_body_bounds(s: Seq<char>, i: int)
    ensures
        spec_str_body(s, i) matches Some(p) ==> i < p.1 <= s.len(),
    decreases s.len() - i,
{
    if 0 <= i < s.len() {
        if s[i] as u32 == 0x5c {
            if i + 1 < s.len() && s[i + 1] as u32 == 0x75 {
                if i + 5 < s.len() {
                    lemma_str_body_bounds(s, i + 6);
                }
            } else if i + 1 < s.len() {
                lemma_str_body_bounds(s, i + 2);
            }
        } else {
            lemma_str_body_bounds(s, i + 1);
        }
    }
}

/// After one array member: either `]` closes the array, or `,` and a quote
/// begin the next member.
pub open spec fn spec_str_array_tail(s: Seq<char>, i: int) -> Option<(Seq<Seq<char>>, int)>
    decreases s.len() - i,
    via spec_str_array_tail_dec
{
    if i < 0 || i >= s.len() {
        None
    } else if s[i] as u32 == 0x5d {
        Some((Seq::empty(), i + 1))
    } else if s[i] as u32 == 0x2c && i + 1 < s.len() && s[i + 1] as u32 == 0x22 {
        match spec_str_body(s, i + 2) {
            Some(p) => match spec_str_array_tail(s, p.1) {
                Some(q) => Some((seq![p.0] + q.0, q.1)),
                None => None,
            },
            None => None,
        }
    } else {
        None
    }
}

#[via_fn]
proof fn spec_str_array_tail_dec(s: Seq<char>, i: int) {
    lemma_str_body_bounds(s, i + 2);
}

/// A JSON array of strings, starting just after its `[`.
pub open spec fn spec_str_array(s: Seq<char>, i: int) -> Option<(Seq<Seq<char>>, int)> {
    if 0 <= i < s.len() && s[i] as u32 == 0x5d {
        Some((Seq::empty(), i + 1))
    } else if 0 <= i < s.len() && s[i] as u32 == 0x22 {
        match spec_str_body(s, i + 1) {
            Some(p) => match spec_str_array_tail(s, p.1) {
                Some(q) => Some((seq![p.0] + q.0, q.1)),
                None => None,
            },
            None => None,
        }
    } else {
        None
    }
}

/// Parse a string array per [`spec_str_array`], handing the members out as
/// strings.
pub fn parse_str_array(s: &Vec<char>, start: usize) -> (r: Option<(Vec<String>, usize)>)
    ensures
        match spec_str_array(s@, start as int) {
            Some(p) => r matches Some(q) && q.0@.map_values(|x: String| x@) == p.0 && q.1 == p.1,
            None => r is None,
        },
{
    if start >= s.len() {
        return None;
    }
    let mut acc: Vec<String> = Vec::new();
    let c0 = s[start];
    if c0 as u32 == 0x5d {
        proof {
            assert(acc@.map_values(|x: String| x@) =~= Seq::<Seq<char>>::empty());
        }
        return Some((acc, start + 1));
    }
    if !(c0 as u32 == 0x22) {
        return None;
    }
    let first = match parse_str_body(s, start + 1) {
        Some(p) => p,
        None => {
            return None;
        },
    };
    acc.push(chars_to_string(&first.0));
    let mut i: usize = first.1;
    loop
        invariant
            (match spec_str_array_tail(s@, i as int) {
                Some(p) => spec_str_array(s@, start as int) matches Some(w) && w.0 == acc@.map_values(
                    |x: String| x@,
                ) + p.0 && w.1 == p.1,
                None => spec_str_array(s@, start as int) is None,
            }),
        decreases s@.len() - i,
    {
        let ghost acc0 = acc@.map_values(|x: String| x@);
        if i >= s.len() {
            return None;
        }
        let c = s[i];
        if c as u32 == 0x5d {
            proof {
                assert(acc0 + Seq::<Seq<char>>::empty() =~= acc0);
            }
            return Some((acc, i + 1));
        }
        if !(c as u32 == 0x2c && i + 1 < s.len() && s[i + 1] as u32 == 0x22) {
            return None;
        }
        let next = match parse_str_body(s, i + 2) {
            Some(p) => p,
            None => {
                return None;
            },
        };
        proof {
            lemma_str_body_bounds(s@, i + 2 as int);
        }
        acc.push(chars_to_string(&next.0));
        i = next.1;
        proof {
            match spec_str_array_tail(s@, i as int) {
                Some(p) => {
                    assert(acc@.map_values(|x: String| x@) =~= acc0.push(next.0@));
                    assert(acc0 + (seq![next.0@] + p.0) =~= acc0.push(next.0@) + p.0);
                },
                None => {},
            }
        }
    }
}

/// The exact shape of a decodable server message, mirroring what the hub
/// emits: `{"type":` TAG and then, by tag, `,"text":` T `}` for the two
/// system notices, `,"chatter":` C `,"time":` N `,"text":` T `}` for a chat
/// line, or `,"chatters":[` NAMES `]}` for the roster snapshot. An unknown
/// tag is a [`DecodeError::UnknownTag`]; any other mismatch is a
/// [`DecodeError::Malformed`].
pub open spec fn spec_decode_server(s: Seq<char>) -> Result<ServerMessageView, DecodeError> {
    let pre = "{\"type\":\""@;
    if !sub_at(s, 0, pre) {
        Err(DecodeError::Malformed)
    } else {
        match spec_str_body(s, pre.len() as int) {
            None => Err(DecodeError::Malformed),
            Some(tp) => {
                if tp.0 == "LoginSystem"@ {
                    match spec_decode_text_tail(s, tp.1) {
                        Some(t) => Ok(ServerMessageView::LoginSystem { text: t }),
                        None => Err(DecodeError::Malformed),
                    }
                } else if tp.0 == "JoinSystem"@ {
                    match spec_decode_text_tail(s, tp.1) {
                        Some(t) => Ok(ServerMessageView::JoinSystem { text: t }),
                        None => Err(DecodeError::Malformed),
                    }
                } else if tp.0 == "Message"@ {
                    spec_decode_chat_line_tail(s, tp.1)
                } else if tp.0 == "Chatters"@ {
                    spec_decode_chatters_tail(s, tp.1)
                } else {
                    Err(DecodeError::UnknownTag)
                }
            },
        }
    }
}

/// After a system tag: `,"text":` T `}` and the end of the text.
pub open spec fn spec_decode_text_tail(s: Seq<char>, i: int) -> Option<Seq<char>> {
    let key = ",\"text\":\""@;
    if !sub_at(s, i, key) {
        None
    } else {
        match spec_str_body(s, i + key.len()) {
            None => None,
            Some(tp) => {
                if tp.1 + 1 == s.len() && s[tp.1] as u32 == 0x7d {
                    Some(tp.0)
                } else {
                    None
                }
            },
        }
    }
}

/// After a `Message` tag: chatter, timestamp, text, and the end.
pub open spec fn spec_decode_chat_line_tail(s: Seq<char>, i: int) -> Result<
    ServerMessageView,
    DecodeError,
> {
    let ckey = ",\"chatter\":\""@;
    if !sub_at(s, i, ckey) {
        Err(DecodeError::Malformed)
    } else {
        match spec_str_body(s, i + ckey.len()) {
            None => Err(DecodeError::Malformed),
            Some(cp) => {
                let nkey = ",\"time\":"@;
                if !sub_at(s, cp.1, nkey) {
                    Err(DecodeError::Malformed)
                } else {
                    match spec_number(s, cp.1 + nkey.len()) {
                        None => Err(DecodeError::Malformed),
                        Some(np) => {
                            let tkey = ",\"text\":\""@;
                            if !sub_at(s, np.1, tkey) {
                                Err(DecodeError::Malformed)
                            } else {
                                match spec_str_body(s, np.1 + tkey.len()) {
                                    None => Err(DecodeError::Malformed),
                                    Some(xp) => {
                                        if xp.1 + 1 == s.len() && s[xp.1] as u32 == 0x7d {
                                            Ok(
                                                ServerMessageView::Message {
                                                    chatter: cp.0,
                                                    time: np.0,
                                                    text: xp.0,
                                                },
                                            )
                                        } else {
                                            Err(DecodeError::Malformed)
                                        }
                                    },
                                }
                            }
                        },
                    }
                }
            },
        }
    }
}

/// After a `Chatters` tag: `,"chatters":[` NAMES `]}` and the end.
pub open spec fn spec_decode_chatters_tail(s: Seq<char>, i: int) -> Result<
    ServerMessageView,
    DecodeError,
> {
    let key = ",\"chatters\":["@;
    if !sub_at(s, i, key) {
        Err(DecodeError::Malformed)
    } else {
        match spec_str_array(s, i + key.len()) {
            None => Err(DecodeError::Malformed),
            Some(ap) => {
                if ap.1 + 1 == s.len() && s[ap.1] as u32 == 0x7d {
                    Ok(ServerMessageView::Chatters { chatters: ap.0 })
                } else {
                    Err(DecodeError::Malformed)
                }
            },
        }
    }
}

/// Decode one server message, exactly per [`spec_decode_server`].
pub fn decode_server_message(s: &str) -> (r: Result<ServerMessages, DecodeError>)
    ensures
        (spec_decode_server(s@) matches Ok(a) ==> r matches Ok(v) && v@ == a),
        (spec_decode_server(s@) matches Err(e) ==> r == Err::<ServerMessages, DecodeError>(e)),
{
    let cs = str_to_chars(s);
    let pre = str_to_chars("{\"type\":\"");
    if !match_at(&cs, 0, &pre) {
        return Err(DecodeError::Malformed);
    }
    let tp = match parse_str_body(&cs, pre.len()) {
        Some(tp) => tp,
        None => {
            return Err(DecodeError::Malformed);
        },
    };
    let login_tag = str_to_chars("LoginSystem");
    let join_tag = str_to_chars("JoinSystem");
    let message_tag = str_to_chars("Message");
    let chatters_tag = str_to_chars("Chatters");
    if chars_eq(&tp.0, &login_tag) {
        match decode_text_tail(&cs, tp.1) {
            Some(t) => Ok(ServerMessages::LoginSystem { text: t }),
            None => Err(DecodeError::Malformed),
        }
    } else if chars_eq(&tp.0, &join_tag) {
        match decode_text_tail(&cs, tp.1) {
            Some(t) => Ok(ServerMessages::JoinSystem { text: t }),
            None => Err(DecodeError::Malformed),
        }
    } else if chars_eq(&tp.0, &message_tag) {
        let ckey = str_to_chars(",\"chatter\":\"");
        if !match_at(&cs, tp.1, &ckey) {
            return Err(DecodeError::Malformed);
        }
        let cp = match parse_str_body(&cs, tp.1 + ckey.len()) {
            Some(cp) => cp,
            None => {
                return Err(DecodeError::Malformed);
            },
        };
        let nkey = str_to_chars(",\"time\":");
        if !match_at(&cs, cp.1, &nkey) {
            return Err(DecodeError::Malformed);
        }
        let np = match parse_number(&cs, cp.1 + nkey.len()) {
            Some(np) => np,
            None => {
                return Err(DecodeError::Malformed);
            },
        };
        let tkey = str_to_chars(",\"text\":\"");
        if !match_at(&cs, np.1, &tkey) {
            return Err(DecodeError::Malformed);
        }
        let xp = match parse_str_body(&cs, np.1 + tkey.len()) {
            Some(xp) => xp,
            None => {
                return Err(DecodeError::Malformed);
            },
        };
        if xp.1 < cs.len() && xp.1 + 1 == cs.len() && cs[xp.1] as u32 == 0x7d {
            Ok(
                ServerMessages::Message {
                    chatter: chars_to_string(&cp.0),
                    time: np.0,
                    text: chars_to_string(&xp.0),
                },
            )
        } else {
            Err(DecodeError::Malformed)
        }
    } else if chars_eq(&tp.0, &chatters_tag) {
        let key = str_to_chars(",\"chatters\":[");
        if !match_at(&cs, tp.1, &key) {
            return Err(DecodeError::Malformed);
        }
        let ap = match parse_str_array(&cs, tp.1 + key.len()) {
            Some(ap) => ap,
            None => {
                return Err(DecodeError::Malformed);
            },
        };
        if ap.1 < cs.len() && ap.1 + 1 == cs.len() && cs[ap.1] as u32 == 0x7d {
            Ok(ServerMessages::Chatters { chatters: ap.0 })
        } else {
            Err(DecodeError::Malformed)
        }
    } else {
        Err(DecodeError::UnknownTag)
    }
}

/// What a connected client keeps: the login the hub acknowledged, the
/// lines to show, and the roster as last announced.
pub struct Model {
    pub login: String,
    pub messages: Vec<ServerMessages>,
    pub chatters: Vec<String>,
}

impl Model {
    /// A fresh client: no login, nothing to show, empty roster.
    pub fn new() -> (r: Self)
        ensures
            r.login@ == Seq::<char>::empty(),
            r.messages@ == Seq::<ServerMessages>::empty(),
            r.chatters@ == Seq::<String>::empty(),
    {
        Model { login: String::new(), messages: Vec::new(), chatters: Vec::new() }
    }

    /// Apply one server message: an acknowledgement whose text is not
    /// `"false"` records the login and routes to the chat view; a roster
    /// snapshot replaces the roster; a join notice or a chat line is
    /// appended to the display. The result says whether to render again,
    /// and whether to route to the chat view.
    pub fn update(&mut self, msg: ServerMessages) -> (r: (bool, bool))
        ensures
            (match msg@ {
                ServerMessageView::LoginSystem { text } => {
                    if text == "false"@ {
                        *final(self) == *old(self) && r == (false, false)
                    } else {
                        final(self).login@ == text && final(self).messages == old(self).messages
                            && final(self).chatters == old(self).chatters && r == (true, true)
                    }
                },
                ServerMessageView::Chatters { chatters } => {
                    &&& final(self).chatters@.map_values(|s: String| s@) == chatters
                    &&& final(self).login == old(self).login
                    &&& final(self).messages == old(self).messages
                    &&& r == (true, false)
                },
                _ => {
                    &&& final(self).messages@ == old(self).messages@.push(msg)
                    &&& final(self).login == old(self).login
                    &&& final(self).chatters == old(self).chatters
                    &&& r == (true, false)
                },
            }),
    {
        match msg {
            ServerMessages::LoginSystem { text } => {
                let rejected = String::from_str("false");
                if text == rejected {
                    (false, false)
                } else {
                    self.login = text;
                    (true, true)
                }
            },
            ServerMessages::Chatters { chatters } => {
                self.chatters = chatters;
                (true, false)
            },
            other => {
                self.messages.push(other);
                (true, false)
            },
        }
    }
}

/// Parse `,"text":` T `}` to the end, per [`spec_decode_text_tail`].
fn decode_text_tail(cs: &Vec<char>, i: usize) -> (r: Option<String>)
    ensures
        match spec_decode_text_tail(cs@, i as int) {
            Some(t) => r matches Some(v) && v@ == t,
            None => r is None,
        },
{
    let n = cs.len();
    let key = str_to_chars(",\"text\":\"");
    if !match_at(cs, i, &key) {
        return None;
    }
    proof {
        assert(i + key@.len() <= n);
    }
    let tp = match parse_str_body(cs, i + key.len()) {
        Some(tp) => tp,
        None => {
            return None;
        },
    };
    if tp.1 < cs.len() && tp.1 + 1 == cs.len() && cs[tp.1] as u32 == 0x7d {
        Some(chars_to_string(&tp.0))
    } else {
        None
    }
}

} // verus!
