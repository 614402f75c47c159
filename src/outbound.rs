//! The outbound queue of one connection: a tokio unbounded channel of text
//! frames, with a record of every text offered to it. The registry only ever
//! pushes onto it.

use vstd::prelude::*;

verus! {

/// tokio's unbounded sender, carried as an opaque value.
#[verifier::external_type_specification]
#[verifier::external_body]
#[verifier::reject_recursive_types(T)]
pub struct ExUnboundedSender<T>(tokio::sync::mpsc::UnboundedSender<T>);

/// The sending half of one connection's queue.
pub struct Outbox {
    tx: tokio::sync::mpsc::UnboundedSender<String>,
    sent: Ghost<Seq<Seq<char>>>,
}

impl Outbox {
    /// The texts offered to this queue so far, oldest first.
    pub closed spec fn offered(&self) -> Seq<Seq<char>> {
        self.sent@
    }

    pub fn new(tx: tokio::sync::mpsc::UnboundedSender<String>) -> (r: Outbox)
        ensures
            r.offered() == Seq::<Seq<char>>::empty(),
    {
        Outbox { tx, sent: Ghost(Seq::empty()) }
    }

    /// Relies on tokio's `UnboundedSender::send`: it enqueues `text` without
    /// waiting, and fails only when the receiving half has been dropped. That
    /// depends on another task, so nothing is promised of the outcome; the
    /// text counts as offered either way.
    #[verifier::external_body]
    pub(crate) fn offer(&mut self, text: String) -> (accepted: bool)
        ensures
            final(self).offered() == old(self).offered().push(text@),
    {
        self.tx.send(text).is_ok()
    }
}

} // verus!
