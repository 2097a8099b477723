//! The connection registry and broadcast hub.
//!
//! The hub owns the roster: display name to connection identifier, names
//! unique. It processes one inbound envelope at a time. Delivery itself is
//! a capability of the surrounding transport; the hub computes, for each
//! event, the outbound text and the exact set of recipients, and evicts an
//! entry when told its delivery failed. A successful login runs three
//! rounds in a fixed order: the join notice to the whole roster (new entry
//! included), the login acknowledgement to the new connection alone, then
//! the roster snapshot to the whole roster.

use vstd::prelude::*;

use crate::codec::spec_chat_json;
use crate::codec::spec_chatters_json;
use crate::codec::spec_system_json;
use crate::message::ChatMessage;
use crate::message::ChattersMessage;
use crate::message::SystemMessage;
use crate::text::chars_eq;
use crate::text::chars_to_string;
use crate::text::str_to_chars;

verus! {

/// One registry entry: a display name and the identifier of the connection
/// that registered it.
pub struct Chatter {
    pub name: Vec<char>,
    pub conn: u64,
}

/// The hub: the authoritative roster of connected identities.
pub struct ChatServer {
    chatters: Vec<Chatter>,
}

/// The names of a roster, in registration order.
pub open spec fn names_of(r: Seq<(Seq<char>, u64)>) -> Seq<Seq<char>> {
    r.map_values(|p: (Seq<char>, u64)| p.0)
}

/// The connection identifiers of a roster, in registration order.
pub open spec fn conns_of(r: Seq<(Seq<char>, u64)>) -> Seq<u64> {
    r.map_values(|p: (Seq<char>, u64)| p.1)
}

/// Pairwise-distinct, non-empty display names: the registry invariant.
pub open spec fn wf_roster(r: Seq<(Seq<char>, u64)>) -> bool {
    &&& forall|i: int, j: int| 0 <= i < j < r.len() ==> r[i].0 != r[j].0
    &&& forall|i: int| 0 <= i < r.len() ==> r[i].0.len() > 0
}

/// What a login does to the roster: nothing when the name is taken, else
/// the entry joins at the end.
pub open spec fn spec_login(r: Seq<(Seq<char>, u64)>, name: Seq<char>, conn: u64) -> Seq<
    (Seq<char>, u64),
> {
    if names_of(r).contains(name) {
        r
    } else {
        r.push((name, conn))
    }
}

/// What an eviction does to the roster: every entry under that name leaves,
/// the rest keep their order.
pub open spec fn spec_remove(r: Seq<(Seq<char>, u64)>, name: Seq<char>) -> Seq<(Seq<char>, u64)>
    decreases r.len(),
{
    if r.len() == 0 {
        Seq::empty()
    } else if r[0].0 == name {
        spec_remove(r.skip(1), name)
    } else {
        seq![r[0]] + spec_remove(r.skip(1), name)
    }
}

pub proof fn lemma_spec_remove_absent(r: Seq<(Seq<char>, u64)>, name: Seq<char>)
    requires
        forall|j: int| 0 <= j < r.len() ==> r[j].0 != name,
    ensures
        spec_remove(r, name) == r,
    decreases r.len(),
{
    if r.len() == 0 {
        assert(spec_remove(r, name) =~= r);
    } else {
        lemma_spec_remove_absent(r.skip(1), name);
        assert(seq![r[0]] + r.skip(1) =~= r);
    }
}

pub proof fn lemma_spec_remove_at(r: Seq<(Seq<char>, u64)>, name: Seq<char>, i: int)
    requires
        0 <= i < r.len(),
        r[i].0 == name,
        forall|j: int| 0 <= j < r.len() && j != i ==> r[j].0 != name,
    ensures
        spec_remove(r, name) == r.remove(i),
    decreases r.len(),
{
    if i == 0 {
        lemma_spec_remove_absent(r.skip(1), name);
        assert(r.remove(0) =~= r.skip(1));
    } else {
        lemma_spec_remove_at(r.skip(1), name, i - 1);
        assert(seq![r[0]] + r.skip(1).remove(i - 1) =~= r.remove(i));
    }
}

impl ChatServer {
    /// The roster as a sequence of (name, connection) pairs.
    pub closed spec fn roster(self) -> Seq<(Seq<char>, u64)> {
        self.chatters@.map_values(|c: Chatter| (c.name@, c.conn))
    }

    pub open spec fn names(self) -> Seq<Seq<char>> {
        names_of(self.roster())
    }

    pub open spec fn conns(self) -> Seq<u64> {
        conns_of(self.roster())
    }

    pub open spec fn wf(self) -> bool {
        wf_roster(self.roster())
    }

    /// A fresh hub with an empty registry.
    pub fn new() -> (s: Self)
        ensures
            s.wf(),
            s.roster() == Seq::<(Seq<char>, u64)>::empty(),
    {
        let s = ChatServer { chatters: Vec::new() };
        proof {
            assert(s.roster() =~= Seq::<(Seq<char>, u64)>::empty());
        }
        s
    }

    /// How many identities are registered.
    pub fn len(&self) -> (r: usize)
        ensures
            r == self.roster().len(),
    {
        self.chatters.len()
    }

    /// The index of the entry under `name`, if the name is registered.
    fn find_name(&self, name: &Vec<char>) -> (r: Option<usize>)
        ensures
            match r {
                Some(i) => i < self.roster().len() && self.roster()[i as int].0 == name@,
                None => !self.names().contains(name@),
            },
    {
        let mut i: usize = 0;
        while i < self.chatters.len()
            invariant
                i <= self.chatters@.len(),
                forall|j: int| 0 <= j < i ==> self.chatters@[j].name@ != name@,
            decreases self.chatters@.len() - i,
        {
            if chars_eq(&self.chatters[i].name, name) {
                return Some(i);
            }
            i = i + 1;
        }
        proof {
            assert(forall|j: int|
                0 <= j < self.names().len() ==> self.names()[j] == self.chatters@[j].name@);
        }
        None
    }

    /// Whether `name` is currently registered.
    pub fn contains_name(&self, name: &str) -> (r: bool)
        ensures
            r == self.names().contains(name@),
    {
        let cs = str_to_chars(name);
        match self.find_name(&cs) {
            Some(i) => {
                proof {
                    assert(self.names()[i as int] == self.roster()[i as int].0);
                }
                true
            },
            None => false,
        }
    }

    /// A snapshot of the registry: each name with its connection identifier,
    /// in registration order. A broadcast delivers to exactly these.
    pub fn entries(&self) -> (r: Vec<(String, u64)>)
        ensures
            r@.map_values(|p: (String, u64)| (p.0@, p.1)) == self.roster(),
    {
        let mut r: Vec<(String, u64)> = Vec::new();
        let mut i: usize = 0;
        while i < self.chatters.len()
            invariant
                i <= self.chatters@.len(),
                r@.len() == i,
                forall|j: int|
                    0 <= j < i ==> (#[trigger] r@[j]).0@ == self.chatters@[j].name@ && r@[j].1
                        == self.chatters@[j].conn,
            decreases self.chatters@.len() - i,
        {
            let name = chars_to_string(&self.chatters[i].name);
            let conn = self.chatters[i].conn;
            r.push((name, conn));
            i = i + 1;
        }
        proof {
            assert(r@.map_values(|p: (String, u64)| (p.0@, p.1)) =~= self.roster());
        }
        r
    }

    /// The registered names, in registration order.
    pub fn names_vec(&self) -> (r: Vec<String>)
        ensures
            r@.map_values(|s: String| s@) == self.names(),
    {
        let mut r: Vec<String> = Vec::new();
        let mut i: usize = 0;
        while i < self.chatters.len()
            invariant
                i <= self.chatters@.len(),
                r@.len() == i,
                forall|j: int| 0 <= j < i ==> (#[trigger] r@[j])@ == self.chatters@[j].name@,
            decreases self.chatters@.len() - i,
        {
            r.push(chars_to_string(&self.chatters[i].name));
            i = i + 1;
        }
        proof {
            assert(r@.map_values(|s: String| s@) =~= self.names());
        }
        r
    }

    /// Evict the entry under `name`: after a delivery to it has failed, it
    /// is no longer live. Nothing changes when the name is absent.
    pub fn remove(&mut self, name: &str) -> (r: bool)
        requires
            old(self).wf(),
        ensures
            final(self).wf(),
            final(self).roster() == spec_remove(old(self).roster(), name@),
            r == old(self).names().contains(name@),
    {
        let cs = str_to_chars(name);
        match self.find_name(&cs) {
            Some(i) => {
                proof {
                    assert(forall|j: int|
                        0 <= j < self.roster().len() && j != i ==> self.roster()[j].0 != name@);
                    lemma_spec_remove_at(self.roster(), name@, i as int);
                    assert(self.names()[i as int] == self.roster()[i as int].0);
                }
                self.chatters.remove(i);
                proof {
                    assert(self.roster() =~= old(self).roster().remove(i as int));
                    old(self).roster().remove_ensures(i as int);
                    assert forall|a: int, b: int|
                        0 <= a < b < self.roster().len() implies self.roster()[a].0
                        != self.roster()[b].0 by {
                        let r0 = old(self).roster();
                        if a < i as int {
                            assert(self.roster()[a] == r0[a]);
                        } else {
                            assert(self.roster()[a] == r0[a + 1]);
                        }
                        if b < i as int {
                            assert(self.roster()[b] == r0[b]);
                        } else {
                            assert(self.roster()[b] == r0[b + 1]);
                        }
                    }
                    assert forall|a: int|
                        0 <= a < self.roster().len() implies self.roster()[a].0.len() > 0 by {
                        let r0 = old(self).roster();
                        if a < i as int {
                            assert(self.roster()[a] == r0[a]);
                        } else {
                            assert(self.roster()[a] == r0[a + 1]);
                        }
                    }
                }
                true
            },
            None => {
                proof {
                    assert(forall|j: int|
                        0 <= j < self.roster().len() ==> self.names()[j] == self.roster()[j].0);
                    assert forall|j: int|
                        0 <= j < self.roster().len() implies self.roster()[j].0 != name@ by {
                        if self.roster()[j].0 == name@ {
                            assert(self.names()[j] == name@);
                            assert(self.names().contains(name@));
                        }
                    }
                    lemma_spec_remove_absent(self.roster(), name@);
                }
                false
            },
        }
    }

    /// Process a login request. When the name is already registered nothing
    /// changes and nothing is sent (the duplicate gets no reply). Otherwise
    /// the entry joins the registry and the join notice to broadcast comes
    /// back; the login acknowledgement and the roster snapshot follow, in
    /// that order, through [`Self::login_ack`] and [`Self::chatters_message`].
    pub fn login_begin(&mut self, name: &str, conn: u64) -> (r: Option<String>)
        requires
            old(self).wf(),
            name@.len() > 0,
        ensures
            final(self).wf(),
            final(self).roster() == spec_login(old(self).roster(), name@, conn),
            r is Some <==> !old(self).names().contains(name@),
            r matches Some(t) ==> t@ == spec_system_json("JoinSystem"@, name@ + " joined!"@),
    {
        let cs = str_to_chars(name);
        match self.find_name(&cs) {
            Some(i) => {
                proof {
                    assert(self.names()[i as int] == self.roster()[i as int].0);
                }
                None
            },
            None => {
                self.chatters.push(Chatter { name: cs, conn });
                proof {
                    assert(self.roster() =~= old(self).roster().push((name@, conn)));
                    let r0 = old(self).roster();
                    let r1 = self.roster();
                    assert(forall|j: int| 0 <= j < r0.len() ==> names_of(r0)[j] == r0[j].0);
                    assert forall|j: int| 0 <= j < r0.len() implies r0[j].0 != name@ by {
                        if r0[j].0 == name@ {
                            assert(names_of(r0)[j] == name@);
                            assert(names_of(r0).contains(name@));
                        }
                    }
                    assert forall|a: int, b: int|
                        0 <= a < b < r1.len() implies r1[a].0 != r1[b].0 by {
                        assert(r1[a] == r0[a]);
                        if b == r1.len() - 1 {
                            assert(r1[b] == (name@, conn));
                        } else {
                            assert(r1[b] == r0[b]);
                        }
                    }
                    assert forall|a: int| 0 <= a < r1.len() implies r1[a].0.len() > 0 by {
                        if a == r1.len() - 1 {
                            assert(r1[a] == (name@, conn));
                        } else {
                            assert(r1[a] == r0[a]);
                        }
                    }
                }
                let mut text = String::from_str(name);
                text.append(" joined!");
                let msg = SystemMessage { type_: String::from_str("JoinSystem"), text };
                Some(msg.to_json())
            },
        }
    }

    /// The login acknowledgement: the `LoginSystem` text and the connection
    /// it is unicast to, present exactly when `name` is registered (the new
    /// entry may itself have been evicted by a failed join delivery).
    pub fn login_ack(&self, name: &str) -> (r: Option<(String, u64)>)
        requires
            self.wf(),
        ensures
            r is Some <==> self.names().contains(name@),
            r matches Some(p) ==> p.0@ == spec_system_json("LoginSystem"@, name@)
                && self.roster().contains((name@, p.1)),
    {
        let cs = str_to_chars(name);
        match self.find_name(&cs) {
            Some(i) => {
                let conn = self.chatters[i].conn;
                let msg = SystemMessage {
                    type_: String::from_str("LoginSystem"),
                    text: String::from_str(name),
                };
                proof {
                    assert(self.names()[i as int] == self.roster()[i as int].0);
                    assert(self.roster()[i as int] == (name@, conn));
                }
                Some((msg.to_json(), conn))
            },
            None => None,
        }
    }

    /// The roster snapshot to broadcast: exactly the current names.
    pub fn chatters_message(&self) -> (r: String)
        ensures
            r@ == spec_chatters_json("Chatters"@, self.names()),
    {
        let msg = ChattersMessage::new(self.names_vec());
        msg.to_json()
    }
}

/// The broadcast chat line for a given timestamp. The caller-supplied
/// `chatter` is not checked against any registered name.
pub fn chat_text_at(chatter: &str, time: u64, text: &str) -> (r: String)
    ensures
        r@ == spec_chat_json("Message"@, chatter@, time, text@),
{
    let msg = ChatMessage::new(String::from_str(chatter), time, String::from_str(text));
    msg.to_json()
}

/// Relies on `SystemTime::now` and `SystemTime::duration_since`: the wall
/// clock, in milliseconds since the epoch (0 when the clock reads earlier
/// than the epoch). The result depends on the machine, so nothing is
/// promised of it.
#[verifier::external_body]
fn now_millis() -> u64 {
    std::time::SystemTime::now()
        .duration_since(std::time::UNIX_EPOCH)
        .map(|d| d.as_millis() as u64)
        .unwrap_or(0)
}

/// The roster that a sequence of logins leaves behind, starting from a
/// fresh registry: each login in turn, as [`spec_login`] has it.
pub open spec fn apply_logins(logins: Seq<(Seq<char>, u64)>) -> Seq<(Seq<char>, u64)>
    decreases logins.len(),
{
    if logins.len() == 0 {
        Seq::empty()
    } else {
        spec_login(apply_logins(logins.drop_last()), logins.last().0, logins.last().1)
    }
}

/// Law: N logins under pairwise-distinct names against a fresh registry
/// all land, and the final registry holds exactly those N entries.
pub proof fn lemma_distinct_logins(logins: Seq<(Seq<char>, u64)>)
    requires
        forall|i: int, j: int| 0 <= i < j < logins.len() ==> logins[i].0 != logins[j].0,
    ensures
        apply_logins(logins) == logins,
        apply_logins(logins).len() == logins.len(),
    decreases logins.len(),
{
    if logins.len() == 0 {
        assert(apply_logins(logins) =~= logins);
    } else {
        let pre = logins.drop_last();
        let last = logins.last();
        assert(forall|i: int| 0 <= i < pre.len() ==> pre[i] == logins[i]);
        lemma_distinct_logins(pre);
        if names_of(pre).contains(last.0) {
            let j = choose|j: int| 0 <= j < names_of(pre).len() && names_of(pre)[j] == last.0;
            assert(pre[j].0 == last.0);
            assert(logins[j].0 == logins[logins.len() - 1].0);
            assert(false);
        }
        assert(apply_logins(logins) == pre.push(last));
        assert(pre.push(last) =~= logins);
    }
}

/// Law: evicting a failed entry removes exactly it. After the eviction its
/// name is gone from the registry, and every entry under another name is
/// still there; nothing new appears.
pub proof fn lemma_evict_membership(r: Seq<(Seq<char>, u64)>, name: Seq<char>, p: (Seq<char>, u64))
    ensures
        spec_remove(r, name).contains(p) <==> (r.contains(p) && p.0 != name),
    decreases r.len(),
{
    broadcast use vstd::seq_lib::group_seq_properties;

    if r.len() == 0 {
    } else {
        lemma_evict_membership(r.skip(1), name, p);
        if r.contains(p) {
            let k = choose|k: int| 0 <= k < r.len() && r[k] == p;
            if k > 0 {
                assert(r.skip(1)[k - 1] == p);
                assert(r.skip(1).contains(p));
            }
        }
        if r[0].0 == name {
            assert(spec_remove(r, name) == spec_remove(r.skip(1), name));
            if r.skip(1).contains(p) {
                assert(r.contains(p));
            }
        } else {
            let rest = spec_remove(r.skip(1), name);
            assert(spec_remove(r, name) == seq![r[0]] + rest);
            if (seq![r[0]] + rest).contains(p) {
                let k = choose|k: int|
                    0 <= k < (seq![r[0]] + rest).len() && (seq![r[0]] + rest)[k] == p;
                if k == 0 {
                    assert(p == r[0]);
                    assert(r.contains(p));
                } else {
                    assert(rest[k - 1] == p);
                    assert(rest.contains(p));
                    assert(r.skip(1).contains(p));
                    assert(r.contains(p));
                }
            }
            if r.contains(p) && p.0 != name {
                if p == r[0] {
                    assert((seq![r[0]] + rest)[0] == p);
                    assert((seq![r[0]] + rest).contains(p));
                } else {
                    let k = choose|k: int| 0 <= k < r.len() && r[k] == p;
                    assert(r.skip(1)[k - 1] == p);
                    assert(r.skip(1).contains(p));
                    let m = choose|m: int| 0 <= m < rest.len() && rest[m] == p;
                    assert((seq![r[0]] + rest)[m + 1] == p);
                    assert((seq![r[0]] + rest).contains(p));
                }
            }
        }
    }
}

/// Law: after an eviction the evicted name is absent from the registry.
pub proof fn lemma_evict_gone(r: Seq<(Seq<char>, u64)>, name: Seq<char>)
    ensures
        !names_of(spec_remove(r, name)).contains(name),
{
    let s = spec_remove(r, name);
    if names_of(s).contains(name) {
        let j = choose|j: int| 0 <= j < names_of(s).len() && names_of(s)[j] == name;
        assert(s[j].0 == name);
        assert(s.contains(s[j]));
        lemma_evict_membership(r, name, s[j]);
        assert(false);
    }
}

/// Law: what each round of a successful login delivers, and to whom. With
/// the rounds run in their fixed order — join notice, acknowledgement,
/// roster snapshot — the new client is in the join and snapshot audiences
/// and is the sole target of the acknowledgement; every client connected
/// before receives the join notice and the snapshot and never the
/// acknowledgement.
pub proof fn lemma_login_sequence(r0: Seq<(Seq<char>, u64)>, name: Seq<char>, conn: u64)
    requires
        !names_of(r0).contains(name),
        !conns_of(r0).contains(conn),
    ensures
        spec_login(r0, name, conn) == r0.push((name, conn)),
        conns_of(spec_login(r0, name, conn)) == conns_of(r0).push(conn),
        names_of(spec_login(r0, name, conn)) == names_of(r0).push(name),
        forall|i: int|
            0 <= i < spec_login(r0, name, conn).len() && spec_login(r0, name, conn)[i].0 == name
                ==> spec_login(r0, name, conn)[i].1 == conn,
        forall|c: u64| conns_of(r0).contains(c) ==> c != conn,
{
    let r1 = spec_login(r0, name, conn);
    assert(r1 == r0.push((name, conn)));
    assert(conns_of(r1) =~= conns_of(r0).push(conn));
    assert(names_of(r1) =~= names_of(r0).push(name));
    assert forall|i: int| 0 <= i < r1.len() && r1[i].0 == name implies r1[i].1 == conn by {
        if i < r0.len() {
            assert(names_of(r0)[i] == r0[i].0);
            assert(names_of(r0).contains(name));
        }
    }
}

/// Law: the roster snapshot names are exactly the current registry key
/// set — one entry per key, no duplicates, whatever order logins came in.
pub proof fn lemma_roster_snapshot_exact(r: Seq<(Seq<char>, u64)>)
    requires
        wf_roster(r),
    ensures
        names_of(r).no_duplicates(),
        forall|n: Seq<char>|
            names_of(r).contains(n) <==> exists|i: int| 0 <= i < r.len() && r[i].0 == n,
{
    assert(forall|j: int| 0 <= j < r.len() ==> names_of(r)[j] == r[j].0);
    assert forall|i: int, j: int|
        0 <= i < names_of(r).len() && 0 <= j < names_of(r).len() && i != j implies names_of(r)[i]
        != names_of(r)[j] by {
        if i < j {
            assert(r[i].0 != r[j].0);
        } else {
            assert(r[j].0 != r[i].0);
        }
    }
    assert forall|n: Seq<char>|
        names_of(r).contains(n) <==> exists|i: int| 0 <= i < r.len() && r[i].0 == n by {
        if names_of(r).contains(n) {
            let j = choose|j: int| 0 <= j < names_of(r).len() && names_of(r)[j] == n;
            assert(r[j].0 == n);
        }
        if exists|i: int| 0 <= i < r.len() && r[i].0 == n {
            let j = choose|j: int| 0 <= j < r.len() && r[j].0 == n;
            assert(names_of(r)[j] == n);
            assert(names_of(r).contains(n));
        }
    }
}

/// The broadcast chat line, stamped once with the current wall clock; the
/// text and the timestamp it carries.
pub fn chat_broadcast_text(chatter: &str, text: &str) -> (r: (String, u64))
    ensures
        r.0@ == spec_chat_json("Message"@, chatter@, r.1, text@),
{
    let time = now_millis();
    (chat_text_at(chatter, time, text), time)
}

} // verus!
