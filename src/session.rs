//! The decisions of one connection's reader loop. The loop itself, the
//! socket and the writer task live with the caller, which hands each frame
//! read to `Session::on_frame` and carries out the step that comes back.

use vstd::prelude::*;

verus! {

/// The room of a user whose room could not be looked up or is not set.
pub const NO_ROOM: u128 = 0;

/// The text that a client sends to ask whether the connection is alive.
pub open spec fn heartbeat_probe() -> Seq<char> {
    "__ping__"@
}

/// The text that answers the probe.
pub open spec fn heartbeat_reply() -> Seq<char> {
    "__pong__"@
}

/// What the reader loop got from the socket.
pub enum Frame {
    Text(String),
    /// A binary, ping or pong frame.
    Other,
    /// The peer closed the connection.
    Close,
    /// The read failed or the stream ended.
    Failed,
}

/// What the reader loop does next.
pub enum Step {
    /// Put this text on the connection's own outbound queue.
    Reply(String),
    /// An application message: noted, and otherwise left alone.
    Observe(String),
    /// Nothing to do.
    Ignore,
    /// The connection is over: stop both loops, then leave the registry.
    Stop,
}

/// One connection's reader state.
pub struct Session {
    pub user_id: u128,
    pub open: bool,
}

/// The room a new connection joins, from what the lookup of the user's
/// current room gave: `None` when the lookup failed, `Some(None)` when the
/// user has no room.
pub fn starting_room(looked_up: Option<Option<u128>>) -> (r: u128)
    ensures
        r == match looked_up {
            Some(Some(room)) => room,
            _ => NO_ROOM,
        },
{
    match looked_up {
        Some(Some(room)) => room,
        _ => NO_ROOM,
    }
}

impl Session {
    pub fn new(user_id: u128) -> (r: Session)
        ensures
            r.user_id == user_id,
            r.open,
    {
        Session { user_id, open: true }
    }

    /// Decides what to do with a frame. The heartbeat probe gets exactly one
    /// reply and touches nothing else; a close or a failed read ends the
    /// session; once over, a session only stops.
    pub fn on_frame(&mut self, frame: Frame) -> (r: Step)
        ensures
            final(self).user_id == old(self).user_id,
            !old(self).open ==> r is Stop && !final(self).open,
            old(self).open ==> match frame {
                Frame::Text(t) => if t@ == heartbeat_probe() {
                    r matches Step::Reply(reply) && reply@ == heartbeat_reply() && final(self).open
                } else {
                    r == Step::Observe(t) && final(self).open
                },
                Frame::Other => r is Ignore && final(self).open,
                Frame::Close => r is Stop && !final(self).open,
                Frame::Failed => r is Stop && !final(self).open,
            },
    {
        if !self.open {
            return Step::Stop;
        }
        match frame {
            Frame::Text(t) => {
                let probe = String::from_str("__ping__");
                if t == probe {
                    Step::Reply(String::from_str("__pong__"))
                } else {
                    Step::Observe(t)
                }
            },
            Frame::Other => Step::Ignore,
            Frame::Close | Frame::Failed => {
                self.open = false;
                Step::Stop
            },
        }
    }

    /// The writer loop ended (its peer went away): the session is over.
    pub fn on_writer_done(&mut self)
        ensures
            final(self).user_id == old(self).user_id,
            !final(self).open,
    {
        self.open = false;
    }
}

} // verus!
