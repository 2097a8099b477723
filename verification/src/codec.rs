//! The wire protocol: JSON shapes of the envelopes the hub exchanges with
//! clients, as specification-level character sequences, with executable
//! encoders proved against them.
//!
//! Outbound messages are objects in a fixed field order; strings are quoted
//! with the usual JSON escapes (`\"`, `\\`, `\b`, `\t`, `\n`, `\f`, `\r`,
//! and `\u00XX` for the remaining control characters).

use vstd::prelude::*;

use crate::message::ActionView;
use crate::message::Actions;
use crate::message::DecodeError;
use crate::text::chars_eq;
use crate::text::chars_to_string;
use crate::text::push_all;
use crate::text::str_to_chars;

verus! {

// ---------------------------------------------------------------------------
// String escaping
// ---------------------------------------------------------------------------

/// Lower-case hex digit for a value below 16.
pub open spec fn hex_digit(n: u32) -> char {
    if n < 10 {
        ((n + 48) as u8) as char
    } else {
        ((n + 87) as u8) as char
    }
}

/// How one character appears inside a JSON string literal.
pub open spec fn esc_char(c: char) -> Seq<char> {
    if c as u32 == 0x22 {
        seq!['\\', '"']
    } else if c as u32 == 0x5c {
        seq!['\\', '\\']
    } else if c as u32 == 0x8 {
        seq!['\\', 'b']
    } else if c as u32 == 0x9 {
        seq!['\\', 't']
    } else if c as u32 == 0xa {
        seq!['\\', 'n']
    } else if c as u32 == 0xc {
        seq!['\\', 'f']
    } else if c as u32 == 0xd {
        seq!['\\', 'r']
    } else if (c as u32) < 0x20 {
        seq!['\\', 'u', '0', '0', hex_digit((c as u32) / 16), hex_digit((c as u32) % 16)]
    } else {
        seq![c]
    }
}

/// A whole string, escaped character by character.
pub open spec fn esc(s: Seq<char>) -> Seq<char>
    decreases s.len(),
{
    if s.len() == 0 {
        Seq::empty()
    } else {
        esc_char(s[0]) + esc(s.skip(1))
    }
}

/// A quoted, escaped JSON string literal.
pub open spec fn json_string(s: Seq<char>) -> Seq<char> {
    seq!['"'] + esc(s) + seq!['"']
}

pub proof fn lemma_esc_snoc(s: Seq<char>, c: char)
    ensures
        esc(s.push(c)) == esc(s) + esc_char(c),
    decreases s.len(),
{
    if s.len() == 0 {
        assert(s.push(c)[0] == c);
        assert(s.push(c).skip(1) =~= Seq::<char>::empty());
        assert(esc(s.push(c)) == esc_char(c) + esc(Seq::<char>::empty()));
        assert(esc(Seq::<char>::empty()) == Seq::<char>::empty());
        assert(esc_char(c) + Seq::<char>::empty() =~= esc_char(c));
        assert(esc(s) == Seq::<char>::empty());
        assert(Seq::<char>::empty() + esc_char(c) =~= esc_char(c));
    } else {
        assert(s.push(c)[0] == s[0]);
        assert(s.push(c).skip(1) =~= s.skip(1).push(c));
        lemma_esc_snoc(s.skip(1), c);
        assert(esc(s.push(c)) == esc_char(s[0]) + (esc(s.skip(1)) + esc_char(c)));
        assert(esc_char(s[0]) + (esc(s.skip(1)) + esc_char(c)) =~= (esc_char(s[0]) + esc(s.skip(1)))
            + esc_char(c));
    }
}

fn hex_digit_char(n: u32) -> (r: char)
    requires
        n < 16,
    ensures
        r == hex_digit(n),
{
    if n < 10 {
        ((n + 48) as u8) as char
    } else {
        ((n + 87) as u8) as char
    }
}

/// Append the escaped form of `s` to `out`.
pub fn push_escaped(out: &mut Vec<char>, s: &Vec<char>)
    ensures
        final(out)@ == old(out)@ + esc(s@),
{
    let mut i: usize = 0;
    proof {
        assert(out@ =~= old(out)@ + esc(s@.take(0)));
    }
    while i < s.len()
        invariant
            i <= s@.len(),
            out@ == old(out)@ + esc(s@.take(i as int)),
        decreases s@.len() - i,
    {
        let c = s[i];
        let u = c as u32;
        if u == 0x22 {
            out.push('\\');
            out.push('"');
        } else if u == 0x5c {
            out.push('\\');
            out.push('\\');
        } else if u == 0x8 {
            out.push('\\');
            out.push('b');
        } else if u == 0x9 {
            out.push('\\');
            out.push('t');
        } else if u == 0xa {
            out.push('\\');
            out.push('n');
        } else if u == 0xc {
            out.push('\\');
            out.push('f');
        } else if u == 0xd {
            out.push('\\');
            out.push('r');
        } else if u < 0x20 {
            out.push('\\');
            out.push('u');
            out.push('0');
            out.push('0');
            out.push(hex_digit_char(u / 16));
            out.push(hex_digit_char(u % 16));
        } else {
            out.push(c);
        }
        proof {
            lemma_esc_snoc(s@.take(i as int), s@[i as int]);
            assert(s@.take(i as int).push(s@[i as int]) =~= s@.take(i + 1 as int));
            assert(out@ =~= old(out)@ + esc(s@.take(i + 1 as int)));
        }
        i = i + 1;
    }
    proof {
        assert(s@.take(s@.len() as int) =~= s@);
    }
}

// ---------------------------------------------------------------------------
// Decimal rendering of timestamps
// ---------------------------------------------------------------------------

/// The decimal digits of `n`, most significant first.
pub open spec fn dec_digits(n: nat) -> Seq<char>
    decreases n,
{
    if n < 10 {
        seq![((n + 48) as u8) as char]
    } else {
        dec_digits(n / 10) + seq![((n % 10 + 48) as u8) as char]
    }
}

/// Append the decimal rendering of `n` to `out`.
pub fn push_u64(out: &mut Vec<char>, n: u64)
    ensures
        final(out)@ == old(out)@ + dec_digits(n as nat),
    decreases n,
{
    if n < 10 {
        out.push(((n + 48) as u8) as char);
    } else {
        push_u64(out, n / 10);
        out.push(((n % 10 + 48) as u8) as char);
    }
}

// ---------------------------------------------------------------------------
// Outbound message shapes
// ---------------------------------------------------------------------------

/// `{"type":TAG,"text":TEXT}` — the shape shared by `JoinSystem` and
/// `LoginSystem` notices.
pub open spec fn spec_system_json(tag: Seq<char>, text: Seq<char>) -> Seq<char> {
    "{\"type\":"@ + json_string(tag) + ",\"text\":"@ + json_string(text) + "}"@
}

/// `{"type":TAG,"chatter":C,"time":N,"text":T}` — the broadcast chat line.
pub open spec fn spec_chat_json(tag: Seq<char>, chatter: Seq<char>, time: u64, text: Seq<char>) -> Seq<char> {
    "{\"type\":"@ + json_string(tag) + ",\"chatter\":"@ + json_string(chatter) + ",\"time\":"@
        + dec_digits(time as nat) + ",\"text\":"@ + json_string(text) + "}"@
}

/// The members of a `Chatters` array, comma separated.
pub open spec fn spec_name_array(names: Seq<Seq<char>>) -> Seq<char>
    decreases names.len(),
{
    if names.len() == 0 {
        Seq::empty()
    } else if names.len() == 1 {
        json_string(names[0])
    } else {
        json_string(names[0]) + ","@ + spec_name_array(names.skip(1))
    }
}

/// `{"type":TAG,"chatters":[...]}` — the roster snapshot.
pub open spec fn spec_chatters_json(tag: Seq<char>, names: Seq<Seq<char>>) -> Seq<char> {
    "{\"type\":"@ + json_string(tag) + ",\"chatters\":["@ + spec_name_array(names) + "]}"@
}

/// Append `json_string(s@)` to `out`.
pub fn push_json_string(out: &mut Vec<char>, s: &Vec<char>)
    ensures
        final(out)@ == old(out)@ + json_string(s@),
{
    out.push('"');
    push_escaped(out, s);
    out.push('"');
    proof {
        assert(out@ =~= old(out)@ + json_string(s@));
    }
}

/// Append the characters of the literal `s` to `out`.
pub fn push_lit(out: &mut Vec<char>, s: &str)
    ensures
        final(out)@ == old(out)@ + s@,
{
    let v = str_to_chars(s);
    push_all(out, &v);
}

/// Encode a system notice (`JoinSystem` / `LoginSystem`).
pub fn system_json_chars(tag: &Vec<char>, text: &Vec<char>) -> (r: Vec<char>)
    ensures
        r@ == spec_system_json(tag@, text@),
{
    let mut out: Vec<char> = Vec::new();
    push_lit(&mut out, "{\"type\":");
    push_json_string(&mut out, tag);
    push_lit(&mut out, ",\"text\":");
    push_json_string(&mut out, text);
    push_lit(&mut out, "}");
    proof {
        assert(out@ =~= spec_system_json(tag@, text@));
    }
    out
}

/// Encode a broadcast chat message.
pub fn chat_json_chars(tag: &Vec<char>, chatter: &Vec<char>, time: u64, text: &Vec<char>) -> (r:
    Vec<char>)
    ensures
        r@ == spec_chat_json(tag@, chatter@, time, text@),
{
    let mut out: Vec<char> = Vec::new();
    push_lit(&mut out, "{\"type\":");
    push_json_string(&mut out, tag);
    push_lit(&mut out, ",\"chatter\":");
    push_json_string(&mut out, chatter);
    push_lit(&mut out, ",\"time\":");
    push_u64(&mut out, time);
    push_lit(&mut out, ",\"text\":");
    push_json_string(&mut out, text);
    push_lit(&mut out, "}");
    proof {
        assert(out@ =~= spec_chat_json(tag@, chatter@, time, text@));
    }
    out
}

/// Encode a roster snapshot over the given names.
pub fn chatters_json_chars(tag: &Vec<char>, names: &Vec<Vec<char>>) -> (r: Vec<char>)
    ensures
        r@ == spec_chatters_json(tag@, names@.map_values(|n: Vec<char>| n@)),
{
    let mut out: Vec<char> = Vec::new();
    push_lit(&mut out, "{\"type\":");
    push_json_string(&mut out, tag);
    push_lit(&mut out, ",\"chatters\":[");
    let ghost head = "{\"type\":"@ + json_string(tag@) + ",\"chatters\":["@;
    let ghost m = names@.map_values(|n: Vec<char>| n@);
    proof {
        assert(out@ =~= head + spec_name_array(m.take(0)));
    }
    let mut i: usize = 0;
    while i < names.len()
        invariant
            i <= names@.len(),
            m == names@.map_values(|n: Vec<char>| n@),
            m.len() == names@.len(),
            out@ == head + spec_name_array(m.take(i as int)),
        decreases names@.len() - i,
    {
        if i > 0 {
            push_lit(&mut out, ",");
        }
        push_json_string(&mut out, &names[i]);
        proof {
            lemma_name_array_snoc(m.take(i as int), m[i as int]);
            assert(m.take(i as int).push(m[i as int]) =~= m.take(i + 1 as int));
            assert(out@ =~= head + spec_name_array(m.take(i + 1 as int)));
        }
        i = i + 1;
    }
    push_lit(&mut out, "]}");
    proof {
        assert(m.take(m.len() as int) =~= m);
        assert(out@ =~= spec_chatters_json(tag@, m));
    }
    out
}

// ---------------------------------------------------------------------------
// Decoding of inbound envelopes
// ---------------------------------------------------------------------------

/// The character named by a short escape, if the escape is a known one.
pub open spec fn unesc_char(c: char) -> Option<char> {
    if c as u32 == 0x22 {
        Some('"')
    } else if c as u32 == 0x5c {
        Some('\\')
    } else if c as u32 == 0x2f {
        Some('/')
    } else if c as u32 == 0x62 {
        Some('\u{8}')
    } else if c as u32 == 0x74 {
        Some('\t')
    } else if c as u32 == 0x6e {
        Some('\n')
    } else if c as u32 == 0x66 {
        Some('\u{c}')
    } else if c as u32 == 0x72 {
        Some('\r')
    } else {
        None
    }
}

pub open spec fn is_hex_char(c: char) -> bool {
    (0x30 <= c as u32 && c as u32 <= 0x39) || (0x61 <= c as u32 && c as u32 <= 0x66) || (0x41
        <= c as u32 && c as u32 <= 0x46)
}

/// The value of a hex digit.
pub open spec fn hex_val(c: char) -> u32 {
    if c as u32 >= 0x61 {
        (c as u32 - 0x57) as u32
    } else if c as u32 >= 0x41 {
        (c as u32 - 0x37) as u32
    } else {
        (c as u32 - 0x30) as u32
    }
}

/// Parse the body of a JSON string starting just after its opening quote:
/// the unescaped content, and the index just past the closing quote.
/// Escapes accepted: the short ones and `\u00XX`; a bare control character
/// or an unknown escape fails.
pub open spec fn spec_str_body(s: Seq<char>, i: int) -> Option<(Seq<char>, int)>
    decreases s.len() - i,
{
    if i < 0 || i >= s.len() {
        None
    } else if s[i] as u32 == 0x22 {
        Some((Seq::empty(), i + 1))
    } else if s[i] as u32 == 0x5c {
        if i + 1 >= s.len() {
            None
        } else if s[i + 1] as u32 == 0x75 {
            if i + 5 < s.len() && s[i + 2] as u32 == 0x30 && s[i + 3] as u32 == 0x30 && is_hex_char(
                s[i + 4],
            ) && is_hex_char(s[i + 5]) {
                match spec_str_body(s, i + 6) {
                    Some(p) => Some(
                        (seq![((hex_val(s[i + 4]) * 16 + hex_val(s[i + 5])) as u8) as char] + p.0, p.1),
                    ),
                    None => None,
                }
            } else {
                None
            }
        } else {
            match unesc_char(s[i + 1]) {
                Some(c) => match spec_str_body(s, i + 2) {
                    Some(p) => Some((seq![c] + p.0, p.1)),
                    None => None,
                },
                None => None,
            }
        }
    } else if (s[i] as u32) < 0x20 {
        None
    } else {
        match spec_str_body(s, i + 1) {
            Some(p) => Some((seq![s[i]] + p.0, p.1)),
            None => None,
        }
    }
}

/// Whether `p` occurs in `s` at position `i`.
pub open spec fn sub_at(s: Seq<char>, i: int, p: Seq<char>) -> bool {
    0 <= i && i + p.len() <= s.len() && s.subrange(i, i + p.len()) == p
}

/// The exact shape of a decodable inbound text: `{"type":` TAG `,"name":`
/// NAME `}` for a login, `{"type":` TAG `,"chatter":` C `,"text":` T `}`
/// for a chat line, all values JSON strings, no padding. A text of that
/// shape whose tag names no known action is a [`DecodeError::UnknownTag`];
/// anything else is [`DecodeError::Malformed`].
pub open spec fn spec_decode(s: Seq<char>) -> Result<ActionView, DecodeError> {
    let pre = "{\"type\":\""@;
    if !sub_at(s, 0, pre) {
        Err(DecodeError::Malformed)
    } else {
        match spec_str_body(s, pre.len() as int) {
            None => Err(DecodeError::Malformed),
            Some(tp) => {
                if tp.0 == "Login"@ {
                    spec_decode_login_tail(s, tp.1)
                } else if tp.0 == "Message"@ {
                    spec_decode_chat_tail(s, tp.1)
                } else {
                    Err(DecodeError::UnknownTag)
                }
            },
        }
    }
}

/// After a `Login` tag: `,"name":` NAME `}` and the end of the text.
pub open spec fn spec_decode_login_tail(s: Seq<char>, i: int) -> Result<ActionView, DecodeError> {
    let key = ",\"name\":\""@;
    if !sub_at(s, i, key) {
        Err(DecodeError::Malformed)
    } else {
        match spec_str_body(s, i + key.len()) {
            None => Err(DecodeError::Malformed),
            Some(np) => {
                if np.1 + 1 == s.len() && s[np.1] as u32 == 0x7d {
                    Ok(ActionView::Login { name: np.0 })
                } else {
                    Err(DecodeError::Malformed)
                }
            },
        }
    }
}

/// After a `Message` tag: `,"chatter":` C `,"text":` T `}` and the end.
pub open spec fn spec_decode_chat_tail(s: Seq<char>, i: int) -> Result<ActionView, DecodeError> {
    let ckey = ",\"chatter\":\""@;
    if !sub_at(s, i, ckey) {
        Err(DecodeError::Malformed)
    } else {
        match spec_str_body(s, i + ckey.len()) {
            None => Err(DecodeError::Malformed),
            Some(cp) => {
                let tkey = ",\"text\":\""@;
                if !sub_at(s, cp.1, tkey) {
                    Err(DecodeError::Malformed)
                } else {
                    match spec_str_body(s, cp.1 + tkey.len()) {
                        None => Err(DecodeError::Malformed),
                        Some(xp) => {
                            if xp.1 + 1 == s.len() && s[xp.1] as u32 == 0x7d {
                                Ok(ActionView::Message { chatter: cp.0, text: xp.0 })
                            } else {
                                Err(DecodeError::Malformed)
                            }
                        },
                    }
                }
            },
        }
    }
}

fn unescape_char(e: char) -> (r: Option<char>)
    ensures
        r == unesc_char(e),
{
    let u = e as u32;
    if u == 0x22 {
        Some('"')
    } else if u == 0x5c {
        Some('\\')
    } else if u == 0x2f {
        Some('/')
    } else if u == 0x62 {
        Some('\u{8}')
    } else if u == 0x74 {
        Some('\t')
    } else if u == 0x6e {
        Some('\n')
    } else if u == 0x66 {
        Some('\u{c}')
    } else if u == 0x72 {
        Some('\r')
    } else {
        None
    }
}

fn hex_value(c: char) -> (r: u32)
    requires
        is_hex_char(c),
    ensures
        r == hex_val(c),
{
    let u = c as u32;
    if u >= 0x61 {
        u - 0x57
    } else if u >= 0x41 {
        u - 0x37
    } else {
        u - 0x30
    }
}

fn is_hex(c: char) -> (r: bool)
    ensures
        r == is_hex_char(c),
{
    let u = c as u32;
    (0x30 <= u && u <= 0x39) || (0x61 <= u && u <= 0x66) || (0x41 <= u && u <= 0x46)
}

/// Parse a JSON string body beginning at `start`, per [`spec_str_body`].
pub fn parse_str_body(s: &Vec<char>, start: usize) -> (r: Option<(Vec<char>, usize)>)
    ensures
        match spec_str_body(s@, start as int) {
            Some(p) => r matches Some(q) && q.0@ == p.0 && q.1 == p.1,
            None => r is None,
        },
{
    let mut i: usize = start;
    let mut acc: Vec<char> = Vec::new();
    loop
        invariant
            start <= i,
            (match spec_str_body(s@, i as int) {
                Some(p) => spec_str_body(s@, start as int) == Some::<(Seq<char>, int)>(
                    (acc@ + p.0, p.1),
                ),
                None => spec_str_body(s@, start as int) is None,
            }),
        decreases s@.len() - i,
    {
        if i >= s.len() {
            return None;
        }
        let ghost i0 = i as int;
        let ghost acc0 = acc@;
        let c = s[i];
        let u = c as u32;
        if u == 0x22 {
            proof {
                assert(acc@ + Seq::<char>::empty() =~= acc@);
            }
            return Some((acc, i + 1));
        } else if u == 0x5c {
            if i + 1 >= s.len() {
                return None;
            }
            let e = s[i + 1];
            if e as u32 == 0x75 {
                if s.len() - i <= 5 {
                    return None;
                }
                if !(s[i + 2] as u32 == 0x30 && s[i + 3] as u32 == 0x30) {
                    return None;
                }
                let h = s[i + 4];
                let l = s[i + 5];
                if !is_hex(h) || !is_hex(l) {
                    return None;
                }
                let v = hex_value(h) * 16 + hex_value(l);
                acc.push((v as u8) as char);
                i = i + 6;
                proof {
                    match spec_str_body(s@, i as int) {
                        Some(p) => {
                            assert(acc0 + (seq![((hex_val(s@[i0 + 4]) * 16 + hex_val(
                                s@[i0 + 5],
                            )) as u8) as char] + p.0) =~= acc@ + p.0);
                        },
                        None => {},
                    }
                }
            } else {
                match unescape_char(e) {
                    Some(d) => {
                        acc.push(d);
                        i = i + 2;
                        proof {
                            match spec_str_body(s@, i as int) {
                                Some(p) => {
                                    assert(acc0 + (seq![d] + p.0) =~= acc@ + p.0);
                                },
                                None => {},
                            }
                        }
                    },
                    None => {
                        return None;
                    },
                }
            }
        } else if u < 0x20 {
            return None;
        } else {
            acc.push(c);
            i = i + 1;
            proof {
                match spec_str_body(s@, i as int) {
                    Some(p) => {
                        assert(acc0 + (seq![c] + p.0) =~= acc@ + p.0);
                    },
                    None => {},
                }
            }
        }
    }
}

/// Whether `p` occurs in `s` at position `i`.
pub fn match_at(s: &Vec<char>, i: usize, p: &Vec<char>) -> (r: bool)
    ensures
        r == sub_at(s@, i as int, p@),
{
    if i > s.len() || s.len() - i < p.len() {
        return false;
    }
    let mut j: usize = 0;
    while j < p.len()
        invariant
            s@.len() <= usize::MAX,
            i + p@.len() <= s@.len(),
            j <= p@.len(),
            forall|k: int| 0 <= k < j ==> s@[i + k] == p@[k],
        decreases p@.len() - j,
    {
        if s[i + j] != p[j] {
            proof {
                assert(s@.subrange(i as int, i + p@.len())[j as int] == s@[i + j]);
            }
            return false;
        }
        j = j + 1;
    }
    proof {
        assert(s@.subrange(i as int, i + p@.len()) =~= p@);
    }
    true
}

/// Decode one inbound text into an action, exactly per [`spec_decode`].
pub fn decode_action(s: &str) -> (r: Result<Actions, DecodeError>)
    ensures
        (spec_decode(s@) matches Ok(a) ==> r matches Ok(v) && v@ == a),
        (spec_decode(s@) matches Err(e) ==> r == Err::<Actions, DecodeError>(e)),
{
    let cs = str_to_chars(s);
    let pre = str_to_chars("{\"type\":\"");
    if !match_at(&cs, 0, &pre) {
        return Err(DecodeError::Malformed);
    }
    let tp = match parse_str_body(&cs, pre.len()) {
        Some(tp) => tp,
        None => {
            return Err(DecodeError::Malformed);
        },
    };
    let login_tag = str_to_chars("Login");
    let message_tag = str_to_chars("Message");
    if chars_eq(&tp.0, &login_tag) {
        let key = str_to_chars(",\"name\":\"");
        if !match_at(&cs, tp.1, &key) {
            return Err(DecodeError::Malformed);
        }
        let np = match parse_str_body(&cs, tp.1 + key.len()) {
            Some(np) => np,
            None => {
                return Err(DecodeError::Malformed);
            },
        };
        if np.1 < cs.len() && np.1 + 1 == cs.len() && cs[np.1] as u32 == 0x7d {
            Ok(Actions::Login { name: chars_to_string(&np.0) })
        } else {
            Err(DecodeError::Malformed)
        }
    } else if chars_eq(&tp.0, &message_tag) {
        let ckey = str_to_chars(",\"chatter\":\"");
        if !match_at(&cs, tp.1, &ckey) {
            return Err(DecodeError::Malformed);
        }
        let cp = match parse_str_body(&cs, tp.1 + ckey.len()) {
            Some(cp) => cp,
            None => {
                return Err(DecodeError::Malformed);
            },
        };
        let tkey = str_to_chars(",\"text\":\"");
        if !match_at(&cs, cp.1, &tkey) {
            return Err(DecodeError::Malformed);
        }
        let xp = match parse_str_body(&cs, cp.1 + tkey.len()) {
            Some(xp) => xp,
            None => {
                return Err(DecodeError::Malformed);
            },
        };
        if xp.1 < cs.len() && xp.1 + 1 == cs.len() && cs[xp.1] as u32 == 0x7d {
            Ok(
                Actions::Message {
                    chatter: chars_to_string(&cp.0),
                    text: chars_to_string(&xp.0),
                },
            )
        } else {
            Err(DecodeError::Malformed)
        }
    } else {
        Err(DecodeError::UnknownTag)
    }
}

// ---------------------------------------------------------------------------
// Client requests, and the round trip through the decoder
// ---------------------------------------------------------------------------

/// The login request a client sends: `{"type":"Login","name":NAME}`.
pub open spec fn spec_login_request(name: Seq<char>) -> Seq<char> {
    "{\"type\":\""@ + esc("Login"@) + "\",\"name\":\""@ + esc(name) + "\"}"@
}

/// The chat request a client sends:
/// `{"type":"Message","chatter":C,"text":T}`.
pub open spec fn spec_chat_request(chatter: Seq<char>, text: Seq<char>) -> Seq<char> {
    "{\"type\":\""@ + esc("Message"@) + "\",\"chatter\":\""@ + esc(chatter) + "\",\"text\":\""@
        + esc(text) + "\"}"@
}

/// Encode a login request for the given display name.
pub fn login_request_json(name: &str) -> (r: String)
    ensures
        r@ == spec_login_request(name@),
{
    let mut out: Vec<char> = Vec::new();
    push_lit(&mut out, "{\"type\":\"");
    let tag = str_to_chars("Login");
    push_escaped(&mut out, &tag);
    push_lit(&mut out, "\",\"name\":\"");
    let cs = str_to_chars(name);
    push_escaped(&mut out, &cs);
    push_lit(&mut out, "\"}");
    proof {
        assert(out@ =~= spec_login_request(name@));
    }
    chars_to_string(&out)
}

/// Encode a chat request for the given chatter and text.
pub fn chat_request_json(chatter: &str, text: &str) -> (r: String)
    ensures
        r@ == spec_chat_request(chatter@, text@),
{
    let mut out: Vec<char> = Vec::new();
    push_lit(&mut out, "{\"type\":\"");
    let tag = str_to_chars("Message");
    push_escaped(&mut out, &tag);
    push_lit(&mut out, "\",\"chatter\":\"");
    let cs = str_to_chars(chatter);
    push_escaped(&mut out, &cs);
    push_lit(&mut out, "\",\"text\":\"");
    let ts = str_to_chars(text);
    push_escaped(&mut out, &ts);
    push_lit(&mut out, "\"}");
    proof {
        assert(out@ =~= spec_chat_request(chatter@, text@));
    }
    chars_to_string(&out)
}

pub proof fn lemma_hex_digit_inverse(n: u32)
    requires
        n < 16,
    ensures
        is_hex_char(hex_digit(n)),
        hex_val(hex_digit(n)) == n,
{
}

/// Parsing an escaped string body inverts escaping: wherever `esc(s)` and a
/// closing quote stand in a text, the parse returns exactly `s` and stops
/// just past the quote.
pub proof fn lemma_parse_esc(full: Seq<char>, i: int, s: Seq<char>)
    requires
        0 <= i,
        i + esc(s).len() + 1 <= full.len(),
        full.subrange(i, i + esc(s).len() + 1) == esc(s) + seq!['"'],
    ensures
        spec_str_body(full, i) == Some((s, i + esc(s).len() + 1)),
    decreases s.len(),
{
    let sub = full.subrange(i, i + esc(s).len() + 1);
    if s.len() == 0 {
        assert(esc(s).len() == 0);
        assert(full[i] == sub[0]);
        assert(sub[0] == (esc(s) + seq!['"'])[0]);
        assert(Seq::<char>::empty() =~= s);
    } else {
        let c = s[0];
        let e = esc_char(c);
        let tail = esc(s.skip(1));
        assert(esc(s) == e + tail);
        assert forall|k: int| 0 <= k < e.len() implies full[i + k] == e[k] by {
            assert(sub[k] == (esc(s) + seq!['"'])[k]);
        }
        let i2 = i + e.len();
        assert(full.subrange(i2, i2 + tail.len() + 1) =~= tail + seq!['"']) by {
            assert forall|k: int| 0 <= k < tail.len() + 1 implies full.subrange(
                i2,
                i2 + tail.len() + 1,
            )[k] == (tail + seq!['"'])[k] by {
                assert(full[i2 + k] == sub[e.len() + k]);
                assert(sub[e.len() + k] == (esc(s) + seq!['"'])[e.len() + k]);
            }
        }
        lemma_parse_esc(full, i2, s.skip(1));
        assert(seq![c] + s.skip(1) =~= s);
        let u = c as u32;
        vstd::utf8::char_u32_cast(c, u);
        if u == 0x22 || u == 0x5c || u == 0x8 || u == 0x9 || u == 0xa || u == 0xc || u == 0xd {
            if u == 0x22 {
                assert(e =~= seq!['\\', '"']);
                assert(unesc_char('"') == Some('"'));
            } else if u == 0x5c {
                assert(e =~= seq!['\\', '\\']);
                assert(unesc_char('\\') == Some('\\'));
            } else if u == 0x8 {
                assert(e =~= seq!['\\', 'b']);
                assert(unesc_char('b') == Some('\u{8}'));
            } else if u == 0x9 {
                assert(e =~= seq!['\\', 't']);
                assert(unesc_char('t') == Some('\t'));
            } else if u == 0xa {
                assert(e =~= seq!['\\', 'n']);
                assert(unesc_char('n') == Some('\n'));
            } else if u == 0xc {
                assert(e =~= seq!['\\', 'f']);
                assert(unesc_char('f') == Some('\u{c}'));
            } else {
                assert(e =~= seq!['\\', 'r']);
                assert(unesc_char('r') == Some('\r'));
            }
            assert(full[i] == '\\');
            assert(full[i + 1] == e[1]);
            assert(unesc_char(e[1]) == Some(c));
            assert(spec_str_body(full, i) == Some((s, i + esc(s).len() + 1)));
        } else if u < 0x20 {
            assert(full[i] == '\\');
            assert(full[i + 1] == 'u');
            assert(full[i + 2] == '0');
            assert(full[i + 3] == '0');
            assert(full[i + 4] == hex_digit(u / 16));
            assert(full[i + 5] == hex_digit(u % 16));
            lemma_hex_digit_inverse(u / 16);
            lemma_hex_digit_inverse(u % 16);
            assert(hex_val(full[i + 4]) * 16 + hex_val(full[i + 5]) == u);
            assert((((u as u8) as char)) == c);
            assert(spec_str_body(full, i) == Some((s, i + esc(s).len() + 1)));
        } else {
            assert(full[i] == c);
            assert(spec_str_body(full, i) == Some((s, i + esc(s).len() + 1)));
        }
    }
}

/// Law: decoding inverts encoding. A login request for any display name
/// decodes back to exactly that login action.
pub proof fn lemma_login_round_trip(name: Seq<char>)
    ensures
        spec_decode(spec_login_request(name)) == Ok::<ActionView, DecodeError>(
            ActionView::Login { name },
        ),
{
    reveal_strlit("{\"type\":\"");
    reveal_strlit("\",\"name\":\"");
    reveal_strlit(",\"name\":\"");
    reveal_strlit("\"}");
    let s = spec_login_request(name);
    let a = "{\"type\":\""@;
    let et = esc("Login"@);
    let b = "\",\"name\":\""@;
    let key = ",\"name\":\""@;
    let en = esc(name);
    let c = "\"}"@;
    assert(b =~= seq!['"'] + key);
    assert(c =~= seq!['"', '}']);
    let i1: int = a.len() as int + et.len() as int + 1;
    let i2: int = i1 + key.len() as int;
    let j: int = i2 + en.len() as int + 1;
    assert(s.subrange(0, a.len() as int) =~= a);
    assert(s.subrange(a.len() as int, a.len() as int + et.len() as int + 1) =~= et + seq!['"']);
    lemma_parse_esc(s, a.len() as int, "Login"@);
    assert(s.subrange(i1, i1 + key.len() as int) =~= key);
    assert(s.subrange(i2, i2 + en.len() as int + 1) =~= en + seq!['"']);
    lemma_parse_esc(s, i2, name);
    assert(s[j] == '}');
    assert(j + 1 == s.len());
}

/// Law: decoding inverts encoding. A chat request for any chatter and text
/// decodes back to exactly that chat action.
pub proof fn lemma_chat_round_trip(chatter: Seq<char>, text: Seq<char>)
    ensures
        spec_decode(spec_chat_request(chatter, text)) == Ok::<ActionView, DecodeError>(
            ActionView::Message { chatter, text },
        ),
{
    reveal_strlit("Login");
    reveal_strlit("Message");
    assert("Message"@ != "Login"@);
    reveal_strlit("{\"type\":\"");
    reveal_strlit("\",\"chatter\":\"");
    reveal_strlit(",\"chatter\":\"");
    reveal_strlit("\",\"text\":\"");
    reveal_strlit(",\"text\":\"");
    reveal_strlit("\"}");
    let s = spec_chat_request(chatter, text);
    let a = "{\"type\":\""@;
    let et = esc("Message"@);
    let b = "\",\"chatter\":\""@;
    let ckey = ",\"chatter\":\""@;
    let ec = esc(chatter);
    let d = "\",\"text\":\""@;
    let tkey = ",\"text\":\""@;
    let ex = esc(text);
    let c = "\"}"@;
    assert(b =~= seq!['"'] + ckey);
    assert(d =~= seq!['"'] + tkey);
    assert(c =~= seq!['"', '}']);
    let i1: int = a.len() as int + et.len() as int + 1;
    let i2: int = i1 + ckey.len() as int;
    let i3: int = i2 + ec.len() as int + 1;
    let i4: int = i3 + tkey.len() as int;
    let j: int = i4 + ex.len() as int + 1;
    assert(s.subrange(0, a.len() as int) =~= a);
    assert(s.subrange(a.len() as int, a.len() as int + et.len() as int + 1) =~= et + seq!['"']);
    lemma_parse_esc(s, a.len() as int, "Message"@);
    assert(s.subrange(i1, i1 + ckey.len() as int) =~= ckey);
    assert(s.subrange(i2, i2 + ec.len() as int + 1) =~= ec + seq!['"']);
    lemma_parse_esc(s, i2, chatter);
    assert(s.subrange(i3, i3 + tkey.len() as int) =~= tkey);
    assert(s.subrange(i4, i4 + ex.len() as int + 1) =~= ex + seq!['"']);
    lemma_parse_esc(s, i4, text);
    assert(s[j] == '}');
    assert(j + 1 == s.len());
}

pub proof fn lemma_name_array_snoc(names: Seq<Seq<char>>, n: Seq<char>)
    ensures
        spec_name_array(names.push(n)) == spec_name_array(names) + (if names.len() == 0 {
            Seq::<char>::empty()
        } else {
            ","@
        }) + json_string(n),
    decreases names.len(),
{
    if names.len() == 0 {
        assert(names.push(n).len() == 1);
        assert(names.push(n)[0] == n);
        assert(spec_name_array(names.push(n)) =~= spec_name_array(names) + Seq::<char>::empty()
            + json_string(n));
    } else {
        assert(names.push(n).skip(1) =~= names.skip(1).push(n));
        lemma_name_array_snoc(names.skip(1), n);
        if names.len() == 1 {
            assert(names.skip(1).len() == 0);
            assert(spec_name_array(names.push(n)) =~= spec_name_array(names) + ","@ + json_string(
                n,
            ));
        } else {
            assert(spec_name_array(names.push(n)) =~= spec_name_array(names) + ","@ + json_string(
                n,
            ));
        }
    }
}

} // verus!
