//! The two ends of the handshake between transactions and the replacement of the memory map.
//!
//! Two counters are shared: how many transactions are live, and how many replacements want new
//! transactions kept out. A transaction counts itself first and looks for blockers afterwards; a
//! replacement blocks first and looks for transactions afterwards. So at least one of the two sees
//! the other. The counters are read and changed, in one order that all threads agree on, by the
//! program around this module; what follows from each reading is decided here.

use vstd::prelude::*;

verus! {

/// How far a transaction has come in going live.
#[derive(Clone, Copy, Debug, PartialEq, Eq, Structural)]
pub enum GuardStage {
    /// It is not counted yet.
    Announce,
    /// It is counted, and has not looked for blockers since.
    Check,
    /// It is counted and has seen a blocker, so it must be uncounted again.
    Retreat,
    /// It is not counted, and waits for the blockers to go.
    Wait,
    /// It is live.
    Live,
}

/// What is to be done next for a transaction that is going live.
#[derive(Clone, Copy, Debug, PartialEq, Eq, Structural)]
pub enum GuardAction {
    /// Add one to the count of live transactions.
    CountTransaction,
    /// Read the count of blockers.
    ReadBlockers,
    /// Take one from the count of live transactions.
    UncountTransaction,
    /// Read the count of blockers, and let other threads run where there are some.
    AwaitBlockers,
    /// Go on: the transaction is live.
    Proceed,
}

/// What was done for a transaction that is going live.
#[derive(Clone, Copy, Debug, PartialEq, Eq, Structural)]
pub enum GuardEvent {
    /// The transaction was counted.
    Counted,
    /// The count of blockers was read.
    Blockers(u32),
    /// The transaction was uncounted.
    Uncounted,
}

impl GuardStage {
    /// What is to be done at this stage.
    pub open spec fn next_action(self) -> GuardAction {
        match self {
            GuardStage::Announce => GuardAction::CountTransaction,
            GuardStage::Check => GuardAction::ReadBlockers,
            GuardStage::Retreat => GuardAction::UncountTransaction,
            GuardStage::Wait => GuardAction::AwaitBlockers,
            GuardStage::Live => GuardAction::Proceed,
        }
    }

    /// The stage after an event; one that does not answer the action changes nothing.
    pub open spec fn after(self, event: GuardEvent) -> GuardStage {
        match (self, event) {
            (GuardStage::Announce, GuardEvent::Counted) => GuardStage::Check,
            (GuardStage::Check, GuardEvent::Blockers(count)) => if count == 0 {
                GuardStage::Live
            } else {
                GuardStage::Retreat
            },
            (GuardStage::Retreat, GuardEvent::Uncounted) => GuardStage::Wait,
            (GuardStage::Wait, GuardEvent::Blockers(count)) => if count == 0 {
                GuardStage::Announce
            } else {
                GuardStage::Wait
            },
            _ => self,
        }
    }
}

/// A transaction on its way to going live, and then live. As long as it is live it is counted, so
/// that operations that must exclude live transactions can wait for it to close.
#[derive(Clone, Copy, Debug)]
pub struct TransactionGuard {
    pub stage: GuardStage,
}

impl TransactionGuard {
    /// A transaction that is to go live, and for which nothing was done yet.
    pub fn new() -> (guard: TransactionGuard)
        ensures
            guard.stage == GuardStage::Announce,
    {
        TransactionGuard { stage: GuardStage::Announce }
    }

    /// What is to be done next.
    pub fn action(&self) -> (action: GuardAction)
        ensures
            action == self.stage.next_action(),
    {
        match self.stage {
            GuardStage::Announce => GuardAction::CountTransaction,
            GuardStage::Check => GuardAction::ReadBlockers,
            GuardStage::Retreat => GuardAction::UncountTransaction,
            GuardStage::Wait => GuardAction::AwaitBlockers,
            GuardStage::Live => GuardAction::Proceed,
        }
    }

    /// Takes note of what was done.
    pub fn step(&mut self, event: GuardEvent)
        ensures
            final(self).stage == old(self).stage.after(event),
    {
        self.stage = match (self.stage, event) {
            (GuardStage::Announce, GuardEvent::Counted) => GuardStage::Check,
            (GuardStage::Check, GuardEvent::Blockers(count)) => if count == 0 {
                GuardStage::Live
            } else {
                GuardStage::Retreat
            },
            (GuardStage::Retreat, GuardEvent::Uncounted) => GuardStage::Wait,
            (GuardStage::Wait, GuardEvent::Blockers(count)) => if count == 0 {
                GuardStage::Announce
            } else {
                GuardStage::Wait
            },
            (stage, _) => stage,
        };
    }

    /// Whether every live transaction has closed, by a reading of their count.
    pub fn wait_for_transactions_to_finish(tx_count: u32) -> (finished: bool)
        ensures
            finished == (tx_count == 0),
    {
        tx_count == 0
    }
}

impl GuardStage {
    /// The stage after events, one after another.
    pub open spec fn after_all(self, events: Seq<GuardEvent>) -> GuardStage
        decreases events.len(),
    {
        if events.len() == 0 {
            self
        } else {
            self.after(events[0]).after_all(events.skip(1))
        }
    }
}

/// A transaction that counts itself and then sees no blocker goes live.
pub proof fn a_transaction_goes_live_without_blockers()
    ensures
        GuardStage::Announce.next_action() == GuardAction::CountTransaction,
        GuardStage::Announce.after(GuardEvent::Counted).next_action() == GuardAction::ReadBlockers,
        GuardStage::Announce.after(GuardEvent::Counted).after(
            GuardEvent::Blockers(0),
        ).next_action() == GuardAction::Proceed,
{
}

/// A transaction that sees blockers, however many, takes itself out of the count again, and waits for
/// as long as it reads that there are some. Once there are none it begins again.
pub proof fn a_transaction_waits_for_blockers(blockers: u32, seen: Seq<u32>)
    requires
        blockers != 0,
        forall|i: int| #![trigger seen[i]] 0 <= i < seen.len() ==> seen[i] != 0,
    ensures
        ({
            let counted = GuardStage::Announce.after(GuardEvent::Counted);
            let retreating = counted.after(GuardEvent::Blockers(blockers));
            let waiting = retreating.after(GuardEvent::Uncounted);
            let still_waiting = waiting.after_all(
                Seq::new(seen.len(), |i: int| GuardEvent::Blockers(seen[i])),
            );
            &&& retreating.next_action() == GuardAction::UncountTransaction
            &&& waiting.next_action() == GuardAction::AwaitBlockers
            &&& still_waiting.next_action() == GuardAction::AwaitBlockers
            &&& still_waiting.after(GuardEvent::Blockers(0)) == GuardStage::Announce
        }),
{
    lemma_waits(seen);
}

proof fn lemma_waits(seen: Seq<u32>)
    requires
        forall|i: int| #![trigger seen[i]] 0 <= i < seen.len() ==> seen[i] != 0,
    ensures
        GuardStage::Wait.after_all(Seq::new(seen.len(), |i: int| GuardEvent::Blockers(seen[i])))
            == GuardStage::Wait,
    decreases seen.len(),
{
    let events = Seq::new(seen.len(), |i: int| GuardEvent::Blockers(seen[i]));
    if seen.len() > 0 {
        let rest = seen.skip(1);
        assert(seen[0] != 0);
        assert forall|i: int| #![trigger rest[i]] 0 <= i < rest.len() implies rest[i] != 0 by {
            assert(rest[i] == seen[i + 1]);
        }
        lemma_waits(rest);
        assert(events.skip(1) =~= Seq::new(
            rest.len(),
            |i: int| GuardEvent::Blockers(rest[i]),
        ));
    }
}

} // verus!
