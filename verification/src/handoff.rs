//! The turn-taking discipline over the shared payload region. The region
//! has no lock of its own: exclusivity comes entirely from the handoff —
//! the coordinator must not touch the region between signaling the control
//! event and receiving the ready notification, and the worker must not
//! touch it except between clearing the event and sending that
//! notification. This module states the discipline as a four-state token
//! and proves that it never lets both sides write at once.

use vstd::prelude::*;

verus! {

/// Who may write the payload region, as the handoff protocol has it.
#[derive(Clone, Copy, PartialEq, Eq, Structural, Debug)]
pub enum Turn {
    /// The coordinator owns the region and composes a request.
    CoordinatorWriting,
    /// The control event is raised; the worker has not yet woken. Nobody
    /// writes.
    EventRaised,
    /// The worker cleared the event and owns the region: it reads the
    /// request and writes the response in place.
    WorkerWriting,
    /// The ready notification is in flight; the coordinator has not yet
    /// received it. Nobody writes.
    ReadyRaised,
}

/// The handoff token. Each transition is one step of the protocol; the
/// contracts force the discipline, and `lemma_single_writer` is the
/// exclusivity they buy.
pub struct Handoff {
    pub turn: Turn,
}

impl Handoff {
    /// The region is writable by the coordinator only while it holds the
    /// turn.
    pub open spec fn coordinator_writable(&self) -> bool {
        self.turn == Turn::CoordinatorWriting
    }

    /// The region is writable by the worker only between clearing the
    /// event and sending the ready notification.
    pub open spec fn worker_writable(&self) -> bool {
        self.turn == Turn::WorkerWriting
    }

    /// After the startup rendezvous the worker writes first: it owns the
    /// region until its initial reset snapshot is announced.
    pub fn startup() -> (r: Handoff)
        ensures
            r.turn == Turn::WorkerWriting,
    {
        Handoff { turn: Turn::WorkerWriting }
    }

    /// The coordinator finishes writing a request and raises the control
    /// event; it gives the region up until the ready notification comes
    /// back.
    pub fn coordinator_signal(&mut self)
        requires
            old(self).turn == Turn::CoordinatorWriting,
        ensures
            final(self).turn == Turn::EventRaised,
            !final(self).coordinator_writable(),
    {
        self.turn = Turn::EventRaised;
    }

    /// The worker wakes from the event and clears it before any further
    /// work, so a later signal is neither missed nor re-triggers this
    /// wait; it now owns the region.
    pub fn worker_wake(&mut self)
        requires
            old(self).turn == Turn::EventRaised,
        ensures
            final(self).turn == Turn::WorkerWriting,
    {
        self.turn = Turn::WorkerWriting;
    }

    /// The worker finishes writing its response and sends the ready byte;
    /// it gives the region up until the next wake.
    pub fn worker_notify(&mut self)
        requires
            old(self).turn == Turn::WorkerWriting,
        ensures
            final(self).turn == Turn::ReadyRaised,
            !final(self).worker_writable(),
    {
        self.turn = Turn::ReadyRaised;
    }

    /// The coordinator receives the ready byte: the response is readable
    /// and the region is its to overwrite with the next request.
    pub fn coordinator_receive(&mut self)
        requires
            old(self).turn == Turn::ReadyRaised,
        ensures
            final(self).turn == Turn::CoordinatorWriting,
    {
        self.turn = Turn::CoordinatorWriting;
    }

    /// Whether the coordinator side reports the region writable.
    pub fn coordinator_writable_now(&self) -> (r: bool)
        ensures
            r == self.coordinator_writable(),
    {
        match self.turn {
            Turn::CoordinatorWriting => true,
            _ => false,
        }
    }

    /// Whether the worker side reports the region writable.
    pub fn worker_writable_now(&self) -> (r: bool)
        ensures
            r == self.worker_writable(),
    {
        match self.turn {
            Turn::WorkerWriting => true,
            _ => false,
        }
    }
}

/// At no point of the protocol do both parties hold the region: the
/// payload buffer has one writer at a time, with no lock inside it.
pub proof fn lemma_single_writer(h: Handoff)
    ensures
        !(h.coordinator_writable() && h.worker_writable()),
{
}

} // verus!
