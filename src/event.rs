//! Who a user is, the notifications the registry hands out, and their
//! text on the wire.

use vstd::arithmetic::power::pow;
use vstd::prelude::*;

verus! {

/// A connected user as other occupants see them.
pub struct Identity {
    pub id: u128,
    pub username: String,
}

impl Identity {
    pub fn duplicate(&self) -> (r: Identity)
        ensures
            r == *self,
    {
        Identity { id: self.id, username: self.username.clone() }
    }
}

/// A notification for one connection.
pub enum Event {
    /// Sent only to the connection that joins: who was in the room before it.
    RoomState(Vec<Identity>),
    UserJoined(Identity),
    UserLeft(Identity),
}

/// What an event says, with the snapshot as a sequence.
pub enum EventView {
    RoomState(Seq<Identity>),
    UserJoined(Identity),
    UserLeft(Identity),
}

impl View for Event {
    type V = EventView;

    open spec fn view(&self) -> EventView {
        match self {
            Event::RoomState(users) => EventView::RoomState(users@),
            Event::UserJoined(u) => EventView::UserJoined(*u),
            Event::UserLeft(u) => EventView::UserLeft(*u),
        }
    }
}

/// The lower-case hexadecimal digit of `n`, for `0 <= n < 16`.
pub open spec fn hex_digit(n: int) -> char {
    if n < 10 {
        ((48 + n) as u32) as char
    } else {
        ((87 + n) as u32) as char
    }
}

/// The `k`-th of the 32 hexadecimal digits of `id`, most significant first.
pub open spec fn nibble(id: u128, k: int) -> int {
    (id as int / pow(16, (31 - k) as nat)) % 16
}

/// Digits `from` up to `to` of `id`.
pub open spec fn hex_run(id: u128, from: int, to: int) -> Seq<char> {
    Seq::new((to - from) as nat, |i: int| hex_digit(nibble(id, from + i)))
}

/// The hyphenated lower-case text of a UUID: its 32 hexadecimal digits in
/// groups of 8, 4, 4, 4 and 12.
pub open spec fn uuid_text(id: u128) -> Seq<char> {
    hex_run(id, 0, 8) + seq!['-'] + hex_run(id, 8, 12) + seq!['-'] + hex_run(id, 12, 16) + seq![
        '-',
    ] + hex_run(id, 16, 20) + seq!['-'] + hex_run(id, 20, 32)
}

/// How one character stands inside a JSON string literal: a quote, a
/// backslash and the control characters are escaped, the rest stands as is.
pub open spec fn json_escape(c: char) -> Seq<char> {
    if c == '"' {
        seq!['\\', '"']
    } else if c == '\\' {
        seq!['\\', '\\']
    } else if c == '\u{8}' {
        seq!['\\', 'b']
    } else if c == '\u{c}' {
        seq!['\\', 'f']
    } else if c == '\n' {
        seq!['\\', 'n']
    } else if c == '\r' {
        seq!['\\', 'r']
    } else if c == '\t' {
        seq!['\\', 't']
    } else if (c as u32) < 0x20 {
        seq!['\\', 'u', '0', '0', hex_digit((c as u32) as int / 16), hex_digit((c as u32) as int % 16)]
    } else {
        seq![c]
    }
}

pub open spec fn json_escaped(s: Seq<char>) -> Seq<char>
    decreases s.len(),
{
    if s.len() == 0 {
        Seq::empty()
    } else {
        json_escaped(s.drop_last()) + json_escape(s.last())
    }
}

/// A string as a quoted and escaped JSON string literal.
pub open spec fn json_quoted(s: Seq<char>) -> Seq<char> {
    seq!['"'] + json_escaped(s) + seq!['"']
}

/// Relies on `uuid::Uuid::from_u128` and its `Display`, which writes the
/// hyphenated lower-case form (`format_hyphenated` in its `fmt` module).
#[verifier::external_body]
fn uuid_string(id: u128) -> (r: String)
    ensures
        r@ == uuid_text(id),
{
    uuid::Uuid::from_u128(id).to_string()
}

/// Relies on `serde_json::Value`'s `Display` for a string value: a quote,
/// then each character escaped by the table of its `ser` module, then a quote.
#[verifier::external_body]
fn quote_json(s: &str) -> (r: String)
    ensures
        r@ == json_quoted(s@),
{
    serde_json::Value::String(s.to_owned()).to_string()
}

pub open spec fn identity_json(u: Identity) -> Seq<char> {
    "{\"id\":\""@ + uuid_text(u.id) + "\",\"username\":"@ + json_quoted(u.username@) + "}"@
}

/// The identities as the comma-separated elements of a JSON array.
pub open spec fn identities_json(us: Seq<Identity>) -> Seq<char>
    decreases us.len(),
{
    if us.len() == 0 {
        Seq::empty()
    } else if us.len() == 1 {
        identity_json(us[0])
    } else {
        identities_json(us.drop_last()) + ","@ + identity_json(us.last())
    }
}

/// The JSON text of an event.
pub open spec fn event_json(e: EventView) -> Seq<char> {
    match e {
        EventView::RoomState(us) => "{\"type\":\"room_state\",\"users\":["@ + identities_json(us)
            + "]}"@,
        EventView::UserJoined(u) => "{\"type\":\"user_joined\",\"user\":"@ + identity_json(u)
            + "}"@,
        EventView::UserLeft(u) => "{\"type\":\"user_left\",\"user\":"@ + identity_json(u) + "}"@,
    }
}

impl Identity {
    pub fn to_json(&self) -> (r: String)
        ensures
            r@ == identity_json(*self),
    {
        let mut s = String::from_str("{\"id\":\"");
        let id_text = uuid_string(self.id);
        s.append(id_text.as_str());
        s.append("\",\"username\":");
        let name_text = quote_json(self.username.as_str());
        s.append(name_text.as_str());
        s.append("}");
        s
    }
}

impl Event {
    /// The text frame that carries this event.
    pub fn to_json(&self) -> (r: String)
        ensures
            r@ == event_json(self@),
    {
        match self {
            Event::RoomState(users) => {
                let mut s = String::from_str("{\"type\":\"room_state\",\"users\":[");
                let ghost head = s@;
                let mut i: usize = 0;
                while i < users.len()
                    invariant
                        i <= users@.len(),
                        s@ == head + identities_json(users@.subrange(0, i as int)),
                    decreases users@.len() - i,
                {
                    let ghost before = users@.subrange(0, i as int);
                    let item = users[i].to_json();
                    if i > 0 {
                        s.append(",");
                    }
                    s.append(item.as_str());
                    i = i + 1;
                    proof {
                        let now = users@.subrange(0, i as int);
                        assert(now.drop_last() =~= before);
                        assert(now.last() == users@[i - 1]);
                        if i == 1 {
                            assert(before =~= Seq::<Identity>::empty());
                        }
                    }
                }
                assert(users@.subrange(0, users@.len() as int) =~= users@);
                s.append("]}");
                s
            },
            Event::UserJoined(u) => {
                let mut s = String::from_str("{\"type\":\"user_joined\",\"user\":");
                let item = u.to_json();
                s.append(item.as_str());
                s.append("}");
                s
            },
            Event::UserLeft(u) => {
                let mut s = String::from_str("{\"type\":\"user_left\",\"user\":");
                let item = u.to_json();
                s.append(item.as_str());
                s.append("}");
                s
            },
        }
    }
}

} // verus!
