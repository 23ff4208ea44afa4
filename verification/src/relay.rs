//! Delivery decision machine: drains pending batches oldest-first, then
//! attempts the freshly collected batch, caching it durably on failure.

use vstd::prelude::*;

use crate::store::{StoreScan, list_pending, sorted_strict, spec_recognized};

verus! {

/// How a delivery round ended.
///
/// `Delivered` also covers the no-sink mode, where the fresh batch is emitted
/// on standard output and the store-and-forward machinery is bypassed.
#[derive(Clone, Copy, Debug, PartialEq, Eq, Structural)]
pub enum Outcome {
    Delivered,
    CachedLocally,
    FatalIoFailure,
}

/// The process exit status a round's outcome calls for: a delivery failure
/// with successful caching is a success (the data was not lost); only an
/// unrecoverable storage failure is reported as an error.
pub fn exit_code(outcome: Outcome) -> (code: i32)
    ensures
        code == 0 <==> outcome != Outcome::FatalIoFailure,
        code == 0 || code == 1,
{
    match outcome {
        Outcome::Delivered => 0,
        Outcome::CachedLocally => 0,
        Outcome::FatalIoFailure => 1,
    }
}

/// Where the machine stands within one delivery round.
#[derive(Clone, Copy, Debug, PartialEq, Eq, Structural)]
pub enum RelayPhase {
    /// Waiting for the shell to look at the store location.
    Scanning,
    /// No sink is configured: waiting for the fresh batch to be written to
    /// standard output.
    Emitting,
    /// Waiting for the delivery attempt of one pending entry.
    Draining,
    /// The pending entry was accepted: waiting for its record to be removed.
    Removing,
    /// Waiting for the delivery attempt of the fresh batch.
    Fresh,
    /// Waiting for the fresh batch to be persisted into the store.
    Caching,
    /// The round is over.
    Done(Outcome),
}

/// What the machine asks the unverified shell to do next. The shell performs
/// the action and reports back whether it succeeded.
#[derive(Clone, Copy, Debug, PartialEq, Eq, Structural)]
pub enum RelayAction {
    /// Look at the store location and report what is in it.
    ScanStore,
    /// Write the fresh batch, serialized, to standard output.
    EmitFresh,
    /// Deliver the pending entry with this identifier to the sink; success
    /// means the sink acknowledged it.
    UploadPending(u64),
    /// Delete the durable record of this acknowledged pending entry.
    RemovePending(u64),
    /// Deliver the fresh batch to the sink.
    UploadFresh,
    /// Persist the fresh batch as a new pending entry.
    PersistFresh,
    /// Nothing further: the round ended with this outcome.
    Finish(Outcome),
}

/// Mathematical image of a [`Relay`].
pub struct RelayModel {
    pub pending: Seq<u64>,
    pub next: int,
    pub phase: RelayPhase,
}

/// The machine's internal invariant: while a pending entry is in flight, its
/// index points into the pending sequence.
pub open spec fn relay_inv(m: RelayModel) -> bool {
    (m.phase is Draining || m.phase is Removing) ==> 0 <= m.next < m.pending.len()
}

/// The phases whose pending action ends with a success-or-failure report.
pub open spec fn relay_active(m: RelayModel) -> bool {
    m.phase == RelayPhase::Emitting || m.phase == RelayPhase::Draining || m.phase
        == RelayPhase::Removing || m.phase == RelayPhase::Fresh || m.phase == RelayPhase::Caching
}

/// The transition relation of the delivery round, one reported result at a
/// time: pending entries are attempted oldest first and each is removed once
/// acknowledged; the first failure while draining — or a rejected fresh
/// batch — routes the fresh batch into the store; only a failure of that
/// caching step is fatal.
pub open spec fn spec_relay_step(m: RelayModel, ok: bool) -> (RelayModel, RelayAction) {
    match m.phase {
        RelayPhase::Emitting => if ok {
            (
                RelayModel { phase: RelayPhase::Done(Outcome::Delivered), ..m },
                RelayAction::Finish(Outcome::Delivered),
            )
        } else {
            (
                RelayModel { phase: RelayPhase::Done(Outcome::FatalIoFailure), ..m },
                RelayAction::Finish(Outcome::FatalIoFailure),
            )
        },
        RelayPhase::Draining => if ok {
            (RelayModel { phase: RelayPhase::Removing, ..m }, RelayAction::RemovePending(m.pending[m.next]))
        } else {
            (RelayModel { phase: RelayPhase::Caching, ..m }, RelayAction::PersistFresh)
        },
        RelayPhase::Removing => if ok {
            if m.next + 1 < m.pending.len() {
                (
                    RelayModel { next: m.next + 1, phase: RelayPhase::Draining, ..m },
                    RelayAction::UploadPending(m.pending[m.next + 1]),
                )
            } else {
                (RelayModel { phase: RelayPhase::Fresh, ..m }, RelayAction::UploadFresh)
            }
        } else {
            (RelayModel { phase: RelayPhase::Caching, ..m }, RelayAction::PersistFresh)
        },
        RelayPhase::Fresh => if ok {
            (
                RelayModel { phase: RelayPhase::Done(Outcome::Delivered), ..m },
                RelayAction::Finish(Outcome::Delivered),
            )
        } else {
            (RelayModel { phase: RelayPhase::Caching, ..m }, RelayAction::PersistFresh)
        },
        RelayPhase::Caching => if ok {
            (
                RelayModel { phase: RelayPhase::Done(Outcome::CachedLocally), ..m },
                RelayAction::Finish(Outcome::CachedLocally),
            )
        } else {
            (
                RelayModel { phase: RelayPhase::Done(Outcome::FatalIoFailure), ..m },
                RelayAction::Finish(Outcome::FatalIoFailure),
            )
        },
        RelayPhase::Scanning => (m, RelayAction::ScanStore),
        RelayPhase::Done(o) => (m, RelayAction::Finish(o)),
    }
}

/// The delivery decision machine for one round: it never performs I/O
/// itself; it emits [`RelayAction`]s and consumes the shell's reports.
pub struct Relay {
    pending: Vec<u64>,
    next: usize,
    phase: RelayPhase,
}

impl View for Relay {
    type V = RelayModel;

    closed spec fn view(&self) -> RelayModel {
        RelayModel { pending: self.pending@, next: self.next as int, phase: self.phase }
    }
}

impl Relay {
    /// Opens a round. With a sink configured the store is examined first;
    /// without one, the fresh batch goes to standard output and the
    /// store-and-forward machinery is bypassed entirely.
    pub fn start(has_sink: bool) -> (r: (Relay, RelayAction))
        ensures
            relay_inv(r.0@),
            r.0@.pending.len() == 0,
            has_sink ==> r.0@.phase == RelayPhase::Scanning && r.1 == RelayAction::ScanStore,
            !has_sink ==> r.0@.phase == RelayPhase::Emitting && r.1 == RelayAction::EmitFresh,
    {
        if has_sink {
            (Relay { pending: Vec::new(), next: 0, phase: RelayPhase::Scanning }, RelayAction::ScanStore)
        } else {
            (Relay { pending: Vec::new(), next: 0, phase: RelayPhase::Emitting }, RelayAction::EmitFresh)
        }
    }

    /// Feeds the machine what the shell saw at the store location. The
    /// pending entries are taken up oldest first; a location that could not
    /// be read aborts the drain and routes the fresh batch to the store.
    pub fn on_listing(&mut self, scan: &StoreScan) -> (action: RelayAction)
        requires
            old(self)@.phase == RelayPhase::Scanning,
        ensures
            relay_inv(final(self)@),
            match scan {
                StoreScan::Missing => {
                    &&& final(self)@.phase == RelayPhase::Fresh
                    &&& action == RelayAction::UploadFresh
                },
                StoreScan::Listed(names) => {
                    &&& sorted_strict(final(self)@.pending)
                    &&& (forall|x: u64|
                        final(self)@.pending.contains(x) <==> spec_recognized(names@, x))
                    &&& (final(self)@.pending.len() == 0 ==> final(self)@.phase
                        == RelayPhase::Fresh && action == RelayAction::UploadFresh)
                    &&& (final(self)@.pending.len() > 0 ==> final(self)@.phase
                        == RelayPhase::Draining && final(self)@.next == 0 && action
                        == RelayAction::UploadPending(final(self)@.pending[0]))
                },
                StoreScan::Failed => {
                    &&& final(self)@.phase == RelayPhase::Caching
                    &&& action == RelayAction::PersistFresh
                },
            },
    {
        match list_pending(scan) {
            Ok(ids) => {
                if ids.len() == 0 {
                    self.pending = ids;
                    self.phase = RelayPhase::Fresh;
                    RelayAction::UploadFresh
                } else {
                    let first = ids[0];
                    self.pending = ids;
                    self.next = 0;
                    self.phase = RelayPhase::Draining;
                    RelayAction::UploadPending(first)
                }
            },
            Err(_) => {
                self.phase = RelayPhase::Caching;
                RelayAction::PersistFresh
            },
        }
    }

    /// Feeds the machine the shell's report on the action last requested,
    /// and hands out the next one.
    pub fn on_result(&mut self, ok: bool) -> (action: RelayAction)
        requires
            relay_inv(old(self)@),
            relay_active(old(self)@),
        ensures
            relay_inv(final(self)@),
            (final(self)@, action) == spec_relay_step(old(self)@, ok),
    {
        match self.phase {
            RelayPhase::Emitting => {
                if ok {
                    self.phase = RelayPhase::Done(Outcome::Delivered);
                    RelayAction::Finish(Outcome::Delivered)
                } else {
                    self.phase = RelayPhase::Done(Outcome::FatalIoFailure);
                    RelayAction::Finish(Outcome::FatalIoFailure)
                }
            },
            RelayPhase::Draining => {
                if ok {
                    self.phase = RelayPhase::Removing;
                    RelayAction::RemovePending(self.pending[self.next])
                } else {
                    self.phase = RelayPhase::Caching;
                    RelayAction::PersistFresh
                }
            },
            RelayPhase::Removing => {
                if ok {
                    proof {
                        assert(self@.phase is Removing);
                        assert(self.next < self.pending.len());
                    }
                    if self.next + 1 < self.pending.len() {
                        self.next = self.next + 1;
                        self.phase = RelayPhase::Draining;
                        RelayAction::UploadPending(self.pending[self.next])
                    } else {
                        self.phase = RelayPhase::Fresh;
                        RelayAction::UploadFresh
                    }
                } else {
                    self.phase = RelayPhase::Caching;
                    RelayAction::PersistFresh
                }
            },
            RelayPhase::Fresh => {
                if ok {
                    self.phase = RelayPhase::Done(Outcome::Delivered);
                    RelayAction::Finish(Outcome::Delivered)
                } else {
                    self.phase = RelayPhase::Caching;
                    RelayAction::PersistFresh
                }
            },
            RelayPhase::Caching => {
                if ok {
                    self.phase = RelayPhase::Done(Outcome::CachedLocally);
                    RelayAction::Finish(Outcome::CachedLocally)
                } else {
                    self.phase = RelayPhase::Done(Outcome::FatalIoFailure);
                    RelayAction::Finish(Outcome::FatalIoFailure)
                }
            },
            RelayPhase::Scanning => RelayAction::ScanStore,
            RelayPhase::Done(o) => RelayAction::Finish(o),
        }
    }
}

/// With no destination configured, the round emits the fresh batch on the
/// standard output channel and ends delivered: from the emitting state a
/// successful write finishes the round at once, so no store scan, no upload
/// and no persist action is ever requested.
pub proof fn lemma_no_sink_round()
    ensures
        ({
            let m0 = RelayModel { pending: Seq::empty(), next: 0, phase: RelayPhase::Emitting };
            let s1 = spec_relay_step(m0, true);
            s1.0.phase == RelayPhase::Done(Outcome::Delivered) && s1.1 == RelayAction::Finish(
                Outcome::Delivered,
            )
        }),
{
}

/// With a destination configured and nothing pending, an unreachable sink
/// routes the fresh batch into the store and the round still ends
/// successfully: the failed fresh attempt asks for a persist, and the
/// successful persist closes the round as cached, not as an error.
pub proof fn lemma_unreachable_sink_caches()
    ensures
        ({
            let m0 = RelayModel { pending: Seq::empty(), next: 0, phase: RelayPhase::Fresh };
            let s1 = spec_relay_step(m0, false);
            let s2 = spec_relay_step(s1.0, true);
            &&& s1.1 == RelayAction::PersistFresh
            &&& s2.0.phase == RelayPhase::Done(Outcome::CachedLocally)
            &&& s2.1 == RelayAction::Finish(Outcome::CachedLocally)
        }),
{
}

/// With one pending entry and a reachable sink, the round makes exactly two
/// delivery attempts in causal order — the pending entry, then the fresh
/// batch — and the pending entry's record is removed right after its attempt
/// is acknowledged.
pub proof fn lemma_drain_then_fresh(e: u64)
    ensures
        ({
            let m0 = RelayModel { pending: seq![e], next: 0, phase: RelayPhase::Draining };
            let s1 = spec_relay_step(m0, true);
            let s2 = spec_relay_step(s1.0, true);
            let s3 = spec_relay_step(s2.0, true);
            &&& s1.1 == RelayAction::RemovePending(e)
            &&& s2.1 == RelayAction::UploadFresh
            &&& s3.0.phase == RelayPhase::Done(Outcome::Delivered)
            &&& s3.1 == RelayAction::Finish(Outcome::Delivered)
        }),
{
}

} // verus!
