//! The polling engine's consumer end and the hand-off discipline.
//!
//! A background producer rescans the process table on a fixed cadence
//! and hands each snapshot to the consumer through a bounded,
//! single-slot channel with a non-blocking send: under backpressure
//! the newer snapshot is dropped, a vanished consumer terminates the
//! producer, and the consumer's poll never blocks.  The thread and the
//! operating-system channel live in the embedding host; this module
//! holds the consumer end, the producer's decision rule, and a
//! verified model of the single-slot hand-off.

use std::sync::mpsc::Receiver;
use vstd::prelude::*;

use crate::snapshot::Snapshot;
use crate::text::parse_dec_usize;
use crate::text::spec_all_dec;
use crate::text::spec_dec_value;

verus! {

/// Declares `std::sync::mpsc::Receiver` so that the consumer end of
/// the hand-off channel can live in a field; the value is opaque here.
#[verifier::external_type_specification]
#[verifier::external_body]
#[verifier::reject_recursive_types(T)]
pub struct ExReceiver<T>(Receiver<T>);

/// Consumer handle of the polling engine: the receiving end of the
/// producer's single-slot hand-off channel.
pub struct ProcScanner {
    proc_receiver: Receiver<Snapshot>,
}

impl ProcScanner {
    /// Wrap the consumer end of a hand-off channel whose producer
    /// sends snapshots.
    pub fn from_receiver(proc_receiver: Receiver<Snapshot>) -> (r: ProcScanner) {
        ProcScanner { proc_receiver }
    }

    /// Relies on `std::sync::mpsc::Receiver::try_recv`: non-blocking,
    /// returns a value only when the producer has sent one, and an
    /// error both on an empty channel and on a vanished producer.
    #[verifier::external_body]
    pub fn process_info(&self) -> (r: Option<Snapshot>) {
        self.proc_receiver.try_recv().ok()
    }
}

/// What one non-blocking hand-off attempt told the producer.
#[derive(Clone, Copy, Debug, PartialEq, Eq, Structural)]
pub enum SendOutcome {
    /// The slot was empty and took the snapshot.
    Accepted,
    /// The consumer has not polled yet; the snapshot was dropped.
    SlotFull,
    /// The consumer end is gone.
    Disconnected,
}

/// What the producer does after one hand-off attempt.
#[derive(Clone, Copy, Debug, PartialEq, Eq, Structural)]
pub enum ProducerStep {
    /// Sleep for the period, then scan again.
    ContinueScanning,
    /// Exit the producer thread.
    Terminate,
}

/// The producer's decision rule: a full slot is not an error — the
/// snapshot was dropped and scanning continues after the period; only
/// a vanished consumer terminates the producer.  The producer never
/// blocks on the hand-off.
pub fn producer_step(outcome: SendOutcome) -> (r: ProducerStep)
    ensures
        r is Terminate <==> outcome is Disconnected,
{
    match outcome {
        SendOutcome::Accepted => ProducerStep::ContinueScanning,
        SendOutcome::SlotFull => ProducerStep::ContinueScanning,
        SendOutcome::Disconnected => ProducerStep::Terminate,
    }
}

/// A `/proc` entry name denotes a candidate PID exactly when it is a
/// non-empty string of decimal digits whose value fits the machine
/// word; `self`, `cpuinfo` and the other non-process entries fail
/// this test.
pub fn is_pid_name(name: &str) -> (r: bool)
    ensures
        r == (name@.len() > 0 && spec_all_dec(name@) && spec_dec_value(name@) <= usize::MAX),
{
    parse_dec_usize(name).is_some()
}

/// Model of the single-slot hand-off: the producer's non-blocking
/// offer stores a snapshot only into an empty slot, stamping it with
/// the number of offers made, and the consumer's poll empties the
/// slot.  Every polled snapshot is strictly newer than every snapshot
/// polled before it, so none is observed twice and staleness is
/// bounded by one period per unpolled offer.
pub struct SnapshotSlot {
    /// The snapshot waiting for the consumer, if any.
    pub slot: Option<Snapshot>,
    /// Stamp of the waiting snapshot: the value of `produced` when it
    /// was stored.
    pub slot_seq: u64,
    /// How many snapshots the producer has offered.
    pub produced: u64,
    /// Stamp of the newest snapshot the consumer has polled, zero
    /// before the first.
    pub delivered: u64,
}

impl SnapshotSlot {
    /// The stamps are consistent: nothing is delivered before it is
    /// produced, and a waiting snapshot is newer than everything
    /// already delivered.
    pub open spec fn wf(self) -> bool {
        &&& self.delivered <= self.produced
        &&& self.slot_seq <= self.produced
        &&& (self.slot is Some ==> self.delivered < self.slot_seq)
    }

    /// An empty hand-off.
    pub fn new() -> (r: SnapshotSlot)
        ensures
            r.wf(),
            r.slot is None,
            r.produced == 0,
            r.delivered == 0,
    {
        SnapshotSlot { slot: None, slot_seq: 0, produced: 0, delivered: 0 }
    }

    /// The producer's non-blocking send: an empty slot takes the
    /// snapshot, a full slot drops it.  Returns whether the snapshot
    /// was taken; either way the producer is free to continue at
    /// once.
    pub fn offer(&mut self, snapshot: Snapshot) -> (r: bool)
        requires
            old(self).wf(),
            old(self).produced < u64::MAX,
        ensures
            final(self).wf(),
            final(self).produced == old(self).produced + 1,
            final(self).delivered == old(self).delivered,
            r == (old(self).slot is None),
            r ==> final(self).slot == Some(snapshot) && final(self).slot_seq == final(self).produced,
            !r ==> final(self).slot == old(self).slot && final(self).slot_seq == old(self).slot_seq,
    {
        self.produced = self.produced + 1;
        if self.slot.is_none() {
            self.slot = Some(snapshot);
            self.slot_seq = self.produced;
            true
        } else {
            false
        }
    }

    /// The consumer's non-blocking poll: takes the waiting snapshot
    /// if there is one.  A delivered snapshot is strictly newer than
    /// every snapshot delivered before it, and is never delivered
    /// again.
    pub fn poll(&mut self) -> (r: Option<Snapshot>)
        requires
            old(self).wf(),
        ensures
            final(self).wf(),
            final(self).slot is None,
            final(self).produced == old(self).produced,
            r == old(self).slot,
            r is Some ==> final(self).delivered == old(self).slot_seq && final(self).delivered
                > old(self).delivered,
            r is None ==> final(self).delivered == old(self).delivered,
    {
        let taken = self.slot.take();
        if taken.is_some() {
            self.delivered = self.slot_seq;
        }
        taken
    }
}

} // verus!
