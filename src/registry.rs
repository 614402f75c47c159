//! The process-wide room registry: which connected user occupies which
//! room, and what each of their queues has been offered. Every operation
//! takes `&mut self`, so whoever shares the registry between connections
//! serialises them behind one lock, and a move touching two rooms is a
//! single step.
//!
//! A registry is modelled as the sequence of `(room, identity)` pairs of its
//! occupants in order of arrival, and beside it, position for position, the
//! texts offered so far to each occupant's queue. A room's occupants are the
//! identities of the pairs that name it, in that order.

use vstd::prelude::*;
use crate::event::{event_json, Event, EventView, Identity};
use crate::outbound::Outbox;

verus! {

/// One connected user in one room, with the queue that reaches them.
pub struct Occupant {
    pub room: u128,
    pub user: Identity,
    pub outbound: Outbox,
}

pub struct Registry {
    entries: Vec<Occupant>,
}

/// What a move did.
pub struct MoveReport {
    /// The room the user was taken from; `None` when they had no connection.
    pub from: Option<u128>,
    /// Whether `from` is the room the caller named as the old one.
    pub as_expected: bool,
}

/// No user id occurs twice: each user occupies at most one room, once.
pub open spec fn unique_users(s: Seq<(u128, Identity)>) -> bool {
    forall|i: int, j: int|
        0 <= i < s.len() && 0 <= j < s.len() && #[trigger] s[i].1.id == #[trigger] s[j].1.id
            ==> i == j
}

pub open spec fn present(s: Seq<(u128, Identity)>, u: u128) -> bool {
    exists|i: int| 0 <= i < s.len() && #[trigger] s[i].1.id == u
}

/// Where user `u` stands in the sequence (meaningful when present).
pub open spec fn position(s: Seq<(u128, Identity)>, u: u128) -> int {
    choose|i: int| 0 <= i < s.len() && #[trigger] s[i].1.id == u
}

/// The room that holds user `u`, if any.
pub open spec fn located(s: Seq<(u128, Identity)>, u: u128) -> Option<u128> {
    if present(s, u) {
        Some(s[position(s, u)].0)
    } else {
        None
    }
}

/// The occupants of room `r`, in order of arrival.
pub open spec fn users_in(s: Seq<(u128, Identity)>, r: u128) -> Seq<Identity>
    decreases s.len(),
{
    if s.len() == 0 {
        Seq::empty()
    } else if s.last().0 == r {
        users_in(s.drop_last(), r).push(s.last().1)
    } else {
        users_in(s.drop_last(), r)
    }
}

/// The queues' records after `text` is offered to every occupant of room
/// `r` but `skip`; every other record stays as it was.
pub open spec fn deliver(
    s: Seq<(u128, Identity)>,
    boxes: Seq<Seq<Seq<char>>>,
    r: u128,
    skip: u128,
    text: Seq<char>,
) -> Seq<Seq<Seq<char>>> {
    Seq::new(
        boxes.len(),
        |i: int|
            if s[i].0 == r && s[i].1.id != skip {
                boxes[i].push(text)
            } else {
                boxes[i]
            },
    )
}

/// The registry without user `u`.
pub open spec fn evicted(s: Seq<(u128, Identity)>, u: u128) -> Seq<(u128, Identity)> {
    if present(s, u) {
        s.remove(position(s, u))
    } else {
        s
    }
}

/// The records after user `u` is taken out: theirs goes with them, and each
/// other occupant of their room is offered a "user left" about them.
pub open spec fn boxes_after_evict(s: Seq<(u128, Identity)>, boxes: Seq<Seq<Seq<char>>>, u: u128) -> Seq<
    Seq<Seq<char>>,
> {
    if present(s, u) {
        let k = position(s, u);
        deliver(s.remove(k), boxes.remove(k), s[k].0, u, event_json(EventView::UserLeft(s[k].1)))
    } else {
        boxes
    }
}

/// The records after `who`, whose queue had been offered `own`, is put into
/// room `r`: every occupant already there is offered a "user joined" about
/// `who`, and `who`'s own queue the room's state as it was, and nothing else.
pub open spec fn boxes_after_seat(
    s: Seq<(u128, Identity)>,
    boxes: Seq<Seq<Seq<char>>>,
    r: u128,
    who: Identity,
    own: Seq<Seq<char>>,
) -> Seq<Seq<Seq<char>>> {
    deliver(s, boxes, r, who.id, event_json(EventView::UserJoined(who))).push(
        own.push(event_json(EventView::RoomState(users_in(s, r)))),
    )
}

/// The registry after `who` joins room `r`: an earlier record of the same
/// user is taken out first, then `who` arrives last.
pub open spec fn join_after(s: Seq<(u128, Identity)>, r: u128, who: Identity) -> Seq<
    (u128, Identity),
> {
    evicted(s, who.id).push((r, who))
}

/// The registry after user `u` moves to room `r`; unchanged when `u` is
/// not connected.
pub open spec fn move_after(s: Seq<(u128, Identity)>, u: u128, r: u128) -> Seq<
    (u128, Identity),
> {
    if present(s, u) {
        evicted(s, u).push((r, s[position(s, u)].1))
    } else {
        s
    }
}

/// The records after user `u` moves to room `r`: the mover keeps their own
/// record, to which the new room's state is added.
pub open spec fn boxes_after_move(s: Seq<(u128, Identity)>, boxes: Seq<Seq<Seq<char>>>, u: u128, r: u128) -> Seq<
    Seq<Seq<char>>,
> {
    if present(s, u) {
        boxes_after_seat(
            evicted(s, u),
            boxes_after_evict(s, boxes, u),
            r,
            s[position(s, u)].1,
            boxes[position(s, u)],
        )
    } else {
        boxes
    }
}

proof fn lemma_position(s: Seq<(u128, Identity)>, u: u128, i: int)
    requires
        unique_users(s),
        0 <= i < s.len(),
        s[i].1.id == u,
    ensures
        present(s, u),
        position(s, u) == i,
{
    assert(present(s, u));
    let j = position(s, u);
    assert(s[j].1.id == s[i].1.id);
}

proof fn lemma_evicted_unique(s: Seq<(u128, Identity)>, u: u128)
    requires
        unique_users(s),
    ensures
        unique_users(evicted(s, u)),
        !present(evicted(s, u), u),
{
    if present(s, u) {
        let k = position(s, u);
        let t = s.remove(k);
        assert forall|i: int, j: int|
            0 <= i < t.len() && 0 <= j < t.len() && #[trigger] t[i].1.id == #[trigger] t[j].1.id
                implies i == j by {
            let i2 = if i < k { i } else { i + 1 };
            let j2 = if j < k { j } else { j + 1 };
            assert(t[i] == s[i2]);
            assert(t[j] == s[j2]);
        }
        if present(t, u) {
            let i = choose|i: int| 0 <= i < t.len() && #[trigger] t[i].1.id == u;
            let i2 = if i < k { i } else { i + 1 };
            assert(t[i] == s[i2]);
            assert(s[k].1.id == u);
        }
    }
}

proof fn lemma_push_unique(s: Seq<(u128, Identity)>, p: (u128, Identity))
    requires
        unique_users(s),
        !present(s, p.1.id),
    ensures
        unique_users(s.push(p)),
        present(s.push(p), p.1.id),
{
    let t = s.push(p);
    assert forall|i: int, j: int|
        0 <= i < t.len() && 0 <= j < t.len() && #[trigger] t[i].1.id == #[trigger] t[j].1.id
            implies i == j by {
        if i < s.len() && j == s.len() {
            assert(s[i].1.id == p.1.id);
        }
        if j < s.len() && i == s.len() {
            assert(s[j].1.id == p.1.id);
        }
    }
    assert(t[s.len() as int].1.id == p.1.id);
}

proof fn lemma_users_in_member(s: Seq<(u128, Identity)>, r: u128, k: int)
    requires
        0 <= k < users_in(s, r).len(),
    ensures
        exists|i: int| 0 <= i < s.len() && s[i].0 == r && #[trigger] s[i].1 == users_in(s, r)[k],
    decreases s.len(),
{
    let t = s.drop_last();
    if s.last().0 == r && k == users_in(s, r).len() - 1 {
        assert(s[s.len() - 1].1 == users_in(s, r)[k]);
    } else {
        lemma_users_in_member(t, r, k);
        let i = choose|i: int| 0 <= i < t.len() && t[i].0 == r && #[trigger] t[i].1 == users_in(t, r)[k];
        assert(s[i] == t[i]);
    }
}

proof fn lemma_users_in_push(s: Seq<(u128, Identity)>, p: (u128, Identity))
    ensures
        users_in(s.push(p), p.0) == users_in(s, p.0).push(p.1),
{
    assert(s.push(p).drop_last() =~= s);
}

proof fn lemma_evicted_keeps(s: Seq<(u128, Identity)>, w: u128, u: u128)
    requires
        unique_users(s),
        w != u,
    ensures
        located(evicted(s, w), u) == located(s, u),
{
    lemma_evicted_unique(s, w);
    if present(s, w) {
        let k = position(s, w);
        let t = s.remove(k);
        if present(s, u) {
            let p = position(s, u);
            assert(p != k);
            let p2 = if p < k { p } else { p - 1 };
            assert(t[p2] == s[p]);
            lemma_position(t, u, p2);
        } else if present(t, u) {
            let i = choose|i: int| 0 <= i < t.len() && #[trigger] t[i].1.id == u;
            let i2 = if i < k { i } else { i + 1 };
            assert(t[i] == s[i2]);
        }
    }
}

impl View for Registry {
    type V = Seq<(u128, Identity)>;

    closed spec fn view(&self) -> Seq<(u128, Identity)> {
        self.entries@.map_values(|o: Occupant| (o.room, o.user))
    }
}

impl Registry {
    /// What each occupant's queue has been offered, position for position
    /// with the view.
    pub closed spec fn inboxes(&self) -> Seq<Seq<Seq<char>>> {
        self.entries@.map_values(|o: Occupant| o.outbound.offered())
    }

    pub open spec fn wf(&self) -> bool {
        &&& unique_users(self@)
        &&& self.inboxes().len() == self@.len()
    }

    /// An empty registry.
    pub fn new() -> (r: Registry)
        ensures
            r@ == Seq::<(u128, Identity)>::empty(),
            r.wf(),
    {
        let r = Registry { entries: Vec::new() };
        assert(r@ =~= Seq::<(u128, Identity)>::empty());
        r
    }

    /// The occupants of `room`, in order of arrival.
    pub fn occupants(&self, room: u128) -> (r: Vec<Identity>)
        ensures
            r@ == users_in(self@, room),
    {
        let mut users: Vec<Identity> = Vec::new();
        let mut i: usize = 0;
        while i < self.entries.len()
            invariant
                i <= self@.len(),
                self@.len() == self.entries@.len(),
                users@ == users_in(self@.subrange(0, i as int), room),
            decreases self.entries@.len() - i,
        {
            let ghost before = self@.subrange(0, i as int);
            if self.entries[i].room == room {
                users.push(self.entries[i].user.duplicate());
            }
            i = i + 1;
            proof {
                let now = self@.subrange(0, i as int);
                assert(now.drop_last() =~= before);
                assert(now.last() == self@[i - 1]);
            }
        }
        assert(self@.subrange(0, self@.len() as int) =~= self@);
        users
    }

    fn locate(&self, user_id: u128) -> (r: Option<usize>)
        requires
            self.wf(),
        ensures
            match r {
                Some(i) => i < self@.len() && self@[i as int].1.id == user_id && present(
                    self@,
                    user_id,
                ) && position(self@, user_id) == i,
                None => !present(self@, user_id),
            },
    {
        let mut i: usize = 0;
        while i < self.entries.len()
            invariant
                i <= self@.len(),
                self@.len() == self.entries@.len(),
                self.wf(),
                forall|j: int| 0 <= j < i ==> #[trigger] self@[j].1.id != user_id,
            decreases self.entries@.len() - i,
        {
            if self.entries[i].user.id == user_id {
                proof {
                    lemma_position(self@, user_id, i as int);
                }
                return Some(i);
            }
            i = i + 1;
        }
        None
    }

    /// The room that holds `user_id`, if they are connected.
    pub fn room_of(&self, user_id: u128) -> (r: Option<u128>)
        requires
            self.wf(),
        ensures
            r == located(self@, user_id),
    {
        match self.locate(user_id) {
            Some(i) => Some(self.entries[i].room),
            None => None,
        }
    }

    /// Offers `ev` to the queue of every occupant of `room` but `skip`, once
    /// each. A queue that does not take it changes nothing for the others,
    /// and no other queue is touched.
    pub fn broadcast_message(&mut self, room: u128, skip: u128, ev: &Event)
        requires
            old(self).wf(),
        ensures
            final(self).wf(),
            final(self)@ == old(self)@,
            final(self).inboxes() == deliver(
                old(self)@,
                old(self).inboxes(),
                room,
                skip,
                event_json(ev@),
            ),
    {
        let ghost s = self@;
        let ghost b = self.inboxes();
        let text = ev.to_json();
        let mut i: usize = 0;
        while i < self.entries.len()
            invariant
                i <= s.len(),
                self.entries@.len() == s.len(),
                b.len() == s.len(),
                self@ == s,
                self.inboxes().len() == s.len(),
                forall|j: int|
                    0 <= j < i ==> #[trigger] self.inboxes()[j] == deliver(
                        s,
                        b,
                        room,
                        skip,
                        text@,
                    )[j],
                forall|j: int| i <= j < s.len() ==> #[trigger] self.inboxes()[j] == b[j],
            decreases s.len() - i,
        {
            let ghost pre = self.entries@;
            let ghost bpre = self.inboxes();
            proof {
                assert(bpre[i as int] == b[i as int]);
                assert(bpre[i as int] == pre[i as int].outbound.offered());
                assert(s[i as int] == (pre[i as int].room, pre[i as int].user));
            }
            if self.entries[i].room == room && self.entries[i].user.id != skip {
                let copy = text.clone();
                let _ = self.entries[i].outbound.offer(copy);
                assert(self.entries@[i as int].outbound.offered() == pre[i as int].outbound.offered().push(text@));
            }
            proof {
                assert(self.entries@.len() == pre.len());
                assert(self.entries@[i as int].room == pre[i as int].room);
                assert(self.entries@[i as int].user == pre[i as int].user);
                assert forall|j: int| 0 <= j < pre.len() && j != i implies #[trigger] self.entries@[j]
                    == pre[j] by {}
                assert forall|j: int| 0 <= j < s.len() && j != i implies #[trigger] self.inboxes()[j]
                    == bpre[j] by {
                    assert(self.entries@[j] == pre[j]);
                }
                assert(self.inboxes()[i as int] == deliver(s, b, room, skip, text@)[i as int]);
            }
            assert(self@ =~= s);
            i = i + 1;
        }
        assert(self.inboxes() =~= deliver(s, b, room, skip, text@));
    }

    /// Takes `user_id` out wherever they are and tells the rest of that room.
    fn evict(&mut self, user_id: u128) -> (r: Option<Occupant>)
        requires
            old(self).wf(),
        ensures
            final(self).wf(),
            final(self)@ == evicted(old(self)@, user_id),
            final(self).inboxes() == boxes_after_evict(old(self)@, old(self).inboxes(), user_id),
            match r {
                Some(o) => {
                    &&& present(old(self)@, user_id)
                    &&& (o.room, o.user) == old(self)@[position(old(self)@, user_id)]
                    &&& o.outbound.offered() == old(self).inboxes()[position(old(self)@, user_id)]
                },
                None => !present(old(self)@, user_id),
            },
    {
        proof {
            lemma_evicted_unique(self@, user_id);
        }
        match self.locate(user_id) {
            Some(i) => {
                let ghost s = self@;
                let ghost b = self.inboxes();
                let occ = self.entries.remove(i);
                assert(self@ =~= s.remove(i as int));
                assert(self.inboxes() =~= b.remove(i as int));
                let left = Event::UserLeft(occ.user.duplicate());
                self.broadcast_message(occ.room, user_id, &left);
                Some(occ)
            },
            None => None,
        }
    }

    /// Puts `occ` into its room: the room's state goes to `occ` alone, a
    /// "user joined" to the others.
    fn seat(&mut self, occ: Occupant)
        requires
            old(self).wf(),
            !present(old(self)@, occ.user.id),
        ensures
            final(self).wf(),
            final(self)@ == old(self)@.push((occ.room, occ.user)),
            final(self).inboxes() == boxes_after_seat(
                old(self)@,
                old(self).inboxes(),
                occ.room,
                occ.user,
                occ.outbound.offered(),
            ),
    {
        let ghost s = self@;
        let ghost own = occ.outbound.offered();
        let mut occ = occ;
        let users = self.occupants(occ.room);
        let snapshot = Event::RoomState(users);
        let _ = occ.outbound.offer(snapshot.to_json());
        let joined = Event::UserJoined(occ.user.duplicate());
        self.broadcast_message(occ.room, occ.user.id, &joined);
        let ghost b1 = self.inboxes();
        proof {
            lemma_push_unique(s, (occ.room, occ.user));
        }
        self.entries.push(occ);
        assert(self@ =~= s.push((occ.room, occ.user)));
        assert(self.inboxes() =~= b1.push(own.push(event_json(EventView::RoomState(users_in(s, occ.room))))));
    }

    /// Puts user `user` into `room` with the queue `outbound`. An earlier
    /// record of the same user, in any room, is taken out first with a
    /// "user left" to its room. The joiner's queue is then offered the room's
    /// state as it was just before their arrival, and every other occupant's
    /// a "user joined".
    pub fn join(&mut self, room: u128, user: Identity, outbound: Outbox)
        requires
            old(self).wf(),
        ensures
            final(self).wf(),
            final(self)@ == join_after(old(self)@, room, user),
            final(self).inboxes() == boxes_after_seat(
                evicted(old(self)@, user.id),
                boxes_after_evict(old(self)@, old(self).inboxes(), user.id),
                room,
                user,
                outbound.offered(),
            ),
    {
        let _ = self.evict(user.id);
        proof {
            lemma_evicted_unique(old(self)@, user.id);
        }
        self.seat(Occupant { room, user, outbound });
    }

    /// Takes `user_id` out of `room` and tells the others there. Nothing
    /// happens, and `None` comes back, when the user is not in that room.
    pub fn leave(&mut self, room: u128, user_id: u128) -> (r: Option<Identity>)
        requires
            old(self).wf(),
        ensures
            final(self).wf(),
            located(old(self)@, user_id) == Some(room) ==> {
                &&& final(self)@ == evicted(old(self)@, user_id)
                &&& final(self).inboxes() == boxes_after_evict(
                    old(self)@,
                    old(self).inboxes(),
                    user_id,
                )
                &&& r == Some(old(self)@[position(old(self)@, user_id)].1)
            },
            located(old(self)@, user_id) != Some(room) ==> {
                &&& final(self)@ == old(self)@
                &&& final(self).inboxes() == old(self).inboxes()
                &&& r.is_none()
            },
    {
        match self.room_of(user_id) {
            Some(current) => {
                if current == room {
                    match self.evict(user_id) {
                        Some(o) => Some(o.user),
                        None => None,
                    }
                } else {
                    None
                }
            },
            None => None,
        }
    }

    /// Takes `user_id` out of whichever room holds them, as when their
    /// connection ends, and tells the others there.
    pub fn disconnect(&mut self, user_id: u128) -> (r: Option<Identity>)
        requires
            old(self).wf(),
        ensures
            final(self).wf(),
            final(self)@ == evicted(old(self)@, user_id),
            final(self).inboxes() == boxes_after_evict(old(self)@, old(self).inboxes(), user_id),
            r == if present(old(self)@, user_id) {
                Some(old(self)@[position(old(self)@, user_id)].1)
            } else {
                None
            },
    {
        match self.evict(user_id) {
            Some(o) => Some(o.user),
            None => None,
        }
    }

    /// Moves connected user `user_id` to `new_room_id` in one step, with
    /// their own queue: a "user left" to the rest of the room they were in,
    /// the new room's state to them, a "user joined" to the occupants of the
    /// new room. A user who is not connected is no error: nothing changes
    /// and nobody is told. `old_room_id` is where the caller believed the
    /// user to be; the report says whether that was so.
    pub fn change_room(&mut self, user_id: u128, old_room_id: Option<u128>, new_room_id: u128) -> (r:
        MoveReport)
        requires
            old(self).wf(),
        ensures
            final(self).wf(),
            final(self)@ == move_after(old(self)@, user_id, new_room_id),
            final(self).inboxes() == boxes_after_move(
                old(self)@,
                old(self).inboxes(),
                user_id,
                new_room_id,
            ),
            r.from == located(old(self)@, user_id),
            r.as_expected == (r.from == old_room_id),
    {
        let gone = self.evict(user_id);
        proof {
            lemma_evicted_unique(old(self)@, user_id);
        }
        match gone {
            Some(occ) => {
                let from = occ.room;
                let moved = Occupant { room: new_room_id, user: occ.user, outbound: occ.outbound };
                self.seat(moved);
                let as_expected = match old_room_id {
                    Some(o) => o == from,
                    None => false,
                };
                MoveReport { from: Some(from), as_expected }
            },
            None => {
                let as_expected = old_room_id.is_none();
                MoveReport { from: None, as_expected }
            },
        }
    }
}

/// A user is among the occupants of at most one room: every operation keeps
/// the registry well formed, and in a well-formed registry two rooms that
/// both list the same user are the same room.
pub proof fn lemma_single_occupancy(reg: &Registry, u: u128, r1: u128, k1: int, r2: u128, k2: int)
    requires
        reg.wf(),
        0 <= k1 < users_in(reg@, r1).len(),
        0 <= k2 < users_in(reg@, r2).len(),
        users_in(reg@, r1)[k1].id == u,
        users_in(reg@, r2)[k2].id == u,
    ensures
        r1 == r2,
        located(reg@, u) == Some(r1),
{
    let s = reg@;
    lemma_users_in_member(s, r1, k1);
    lemma_users_in_member(s, r2, k2);
    let i1 = choose|i: int| 0 <= i < s.len() && s[i].0 == r1 && #[trigger] s[i].1 == users_in(s, r1)[k1];
    let i2 = choose|i: int| 0 <= i < s.len() && s[i].0 == r2 && #[trigger] s[i].1 == users_in(s, r2)[k2];
    assert(s[i1].1.id == s[i2].1.id);
    lemma_position(s, u, i1);
}

/// A move of a connected user leaves them in exactly one room, the new one:
/// never in both rooms, never in neither.
pub proof fn lemma_move_lands_once(s: Seq<(u128, Identity)>, u: u128, r: u128)
    requires
        unique_users(s),
        present(s, u),
    ensures
        unique_users(move_after(s, u, r)),
        located(move_after(s, u, r), u) == Some(r),
        users_in(move_after(s, u, r), r).last().id == u,
{
    let p = position(s, u);
    let t = evicted(s, u);
    lemma_evicted_unique(s, u);
    lemma_push_unique(t, (r, s[p].1));
    let m = t.push((r, s[p].1));
    lemma_position(m, u, t.len() as int);
    lemma_users_in_push(t, (r, s[p].1));
}

/// A join, leave or disconnect of another user leaves user `u` where they
/// were; with the move lemma above, however the operations of several
/// connections are ordered, a moved user ends up in exactly one room.
pub proof fn lemma_others_keep_room(s: Seq<(u128, Identity)>, u: u128, r: u128, who: Identity, w: u128)
    requires
        unique_users(s),
        who.id != u,
        w != u,
    ensures
        located(join_after(s, r, who), u) == located(s, u),
        located(evicted(s, w), u) == located(s, u),
{
    lemma_evicted_keeps(s, who.id, u);
    lemma_evicted_keeps(s, w, u);
    let t = evicted(s, who.id);
    lemma_evicted_unique(s, who.id);
    lemma_push_unique(t, (r, who));
    let m = t.push((r, who));
    if present(t, u) {
        let p = position(t, u);
        assert(m[p] == t[p]);
        lemma_position(m, u, p);
    } else if present(m, u) {
        let i = choose|i: int| 0 <= i < m.len() && #[trigger] m[i].1.id == u;
        assert(i < t.len());
        assert(m[i] == t[i]);
    }
}

/// A broadcast offers its text once to each occupant of the room but the
/// one left out, whatever became of earlier offers: a full or closed queue
/// costs its owner the message and nobody else. Queues outside the room are
/// left alone.
pub proof fn lemma_broadcast_reaches_others(
    s: Seq<(u128, Identity)>,
    b: Seq<Seq<Seq<char>>>,
    r: u128,
    skip: u128,
    text: Seq<char>,
)
    requires
        b.len() == s.len(),
    ensures
        deliver(s, b, r, skip, text).len() == b.len(),
        forall|i: int|
            0 <= i < s.len() && s[i].0 == r && s[i].1.id != skip ==> #[trigger] deliver(
                s,
                b,
                r,
                skip,
                text,
            )[i] == b[i].push(text),
        forall|i: int|
            0 <= i < s.len() && (s[i].0 != r || s[i].1.id == skip) ==> #[trigger] deliver(
                s,
                b,
                r,
                skip,
                text,
            )[i] == b[i],
{
}

/// Nobody is told of their own coming or going. A user taken out of the
/// registry leaves with their queue, and the "user left" goes to the others;
/// the "user joined" goes to every occupant but the joiner, whose own queue
/// is offered the room's state and nothing else.
pub proof fn lemma_no_self_notification(
    s: Seq<(u128, Identity)>,
    b: Seq<Seq<Seq<char>>>,
    r: u128,
    who: Identity,
    own: Seq<Seq<char>>,
)
    requires
        unique_users(s),
        b.len() == s.len(),
    ensures
        !present(evicted(s, who.id), who.id),
        boxes_after_evict(s, b, who.id).len() == evicted(s, who.id).len(),
        boxes_after_seat(s, b, r, who, own).last() == own.push(
            event_json(EventView::RoomState(users_in(s, r))),
        ),
        forall|i: int|
            0 <= i < s.len() && #[trigger] s[i].1.id == who.id ==> boxes_after_seat(
                s,
                b,
                r,
                who,
                own,
            )[i] == b[i],
{
    lemma_evicted_unique(s, who.id);
    if present(s, who.id) {
        let k = position(s, who.id);
        assert(s.remove(k).len() == b.remove(k).len());
    }
}

/// The room state that a joiner is offered lists exactly the room's
/// occupants at the instant of joining, the joiner left out; the joiner is
/// the room's newest occupant.
pub proof fn lemma_join_snapshot(
    s: Seq<(u128, Identity)>,
    b: Seq<Seq<Seq<char>>>,
    r: u128,
    who: Identity,
    own: Seq<Seq<char>>,
)
    ensures
        boxes_after_seat(
            evicted(s, who.id),
            boxes_after_evict(s, b, who.id),
            r,
            who,
            own,
        ).last() == own.push(
            event_json(EventView::RoomState(users_in(join_after(s, r, who), r).drop_last())),
        ),
        users_in(join_after(s, r, who), r).last() == who,
{
    let t = evicted(s, who.id);
    lemma_users_in_push(t, (r, who));
    assert(users_in(join_after(s, r, who), r).drop_last() =~= users_in(t, r));
}

/// Likewise after a move: the mover keeps their own queue, to which the new
/// room's state, as it was just before they arrived, is added.
pub proof fn lemma_move_snapshot(s: Seq<(u128, Identity)>, b: Seq<Seq<Seq<char>>>, u: u128, r: u128)
    requires
        present(s, u),
    ensures
        boxes_after_move(s, b, u, r).last() == b[position(s, u)].push(
            event_json(EventView::RoomState(users_in(move_after(s, u, r), r).drop_last())),
        ),
{
    let t = evicted(s, u);
    let who = s[position(s, u)].1;
    lemma_users_in_push(t, (r, who));
    assert(users_in(move_after(s, u, r), r).drop_last() =~= users_in(t, r));
}

} // verus!
