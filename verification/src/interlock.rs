//! Why no transaction is live while the memory map is replaced.
//!
//! Any number of transactions and any number of replacements run side by side. Each goes through
//! the stages that `transaction_guard` and `resizing` give it, and they meet in two shared
//! counters, which every thread sees change in the same order. The laws below hold however the
//! steps of the threads follow one another.

use vstd::prelude::*;

use crate::resizing::{MapReplacement, ReplacementAction, ReplacementEvent, ReplacementStage};
use crate::transaction_guard::{GuardAction, GuardEvent, GuardStage};

verus! {

/// The two counters, and the stages of everyone who uses them.
#[verifier::ext_equal]
pub struct Interlock {
    /// The count of live transactions.
    pub tx_count: int,
    /// The count of blockers.
    pub blocker_count: int,
    /// The transactions that are going live or are live.
    pub transactions: Map<int, GuardStage>,
    /// The replacements of the map that are not over.
    pub replacements: Map<int, MapReplacement>,
}

/// One step of one thread.
pub enum InterlockStep {
    /// A transaction is to go live.
    Arrive(int),
    /// A transaction does what its stage asks for. One that waits for the blockers to go only
    /// polls, and may read a count that is out of date: any count at all.
    Advance(int, u32),
    /// A live transaction closes.
    Leave(int),
    /// A replacement of the map by one of this size is to begin.
    Begin(int, usize),
    /// A replacement does what its stage asks for. Setting the size of the map ends with a result
    /// code.
    Replace(int, i32),
    /// A replacement that is over is forgotten.
    End(int),
}

impl GuardStage {
    /// Whether a transaction is counted at this stage.
    pub open spec fn is_counted(self) -> bool {
        self is Check || self is Retreat || self is Live
    }
}

impl Interlock {
    /// Nobody uses the counters, and both are zero.
    pub open spec fn is_initial(self) -> bool {
        &&& self.tx_count == 0
        &&& self.blocker_count == 0
        &&& self.transactions == Map::<int, GuardStage>::empty()
        &&& self.replacements == Map::<int, MapReplacement>::empty()
    }

    /// The transactions that are counted.
    pub open spec fn counted(self) -> Set<int> {
        self.transactions.dom().filter(|id: int| self.transactions[id].is_counted())
    }

    /// The replacements that keep new transactions out.
    pub open spec fn blocking(self) -> Set<int> {
        self.replacements.dom().filter(|id: int| self.replacements[id].blocks())
    }

    /// Whether a transaction is live.
    pub open spec fn is_live(self, id: int) -> bool {
        self.transactions.dom().contains(id) && self.transactions[id] is Live
    }

    /// Whether a replacement may replace the map.
    pub open spec fn replaces(self, id: int) -> bool {
        self.replacements.dom().contains(id) && self.replacements[id].stage is Replace
    }

    /// Whether a step can be taken. The counters have 32 bits, so there are never more
    /// transactions or replacements than that holds.
    pub open spec fn enables(self, step: InterlockStep) -> bool {
        match step {
            InterlockStep::Arrive(id) => !self.transactions.dom().contains(id)
                && self.transactions.dom().len() < u32::MAX,
            InterlockStep::Advance(id, seen) => self.transactions.dom().contains(id),
            InterlockStep::Leave(id) => self.is_live(id),
            InterlockStep::Begin(id, size) => !self.replacements.dom().contains(id)
                && self.replacements.dom().len() < u32::MAX,
            InterlockStep::Replace(id, code) => self.replacements.dom().contains(id),
            InterlockStep::End(id) => self.replacements.dom().contains(id)
                && self.replacements[id].stage is Finished,
        }
    }

    /// The counters and the stages after a transaction did what its stage asks for.
    pub open spec fn after_advance(self, id: int, seen: u32) -> Interlock {
        let stage = self.transactions[id];
        let (tx_count, event) = match stage.next_action() {
            GuardAction::CountTransaction => (self.tx_count + 1, Some(GuardEvent::Counted)),
            GuardAction::ReadBlockers => (
                self.tx_count,
                Some(GuardEvent::Blockers(self.blocker_count as u32)),
            ),
            GuardAction::UncountTransaction => (self.tx_count - 1, Some(GuardEvent::Uncounted)),
            GuardAction::AwaitBlockers => (self.tx_count, Some(GuardEvent::Blockers(seen))),
            GuardAction::Proceed => (self.tx_count, None),
        };
        match event {
            Some(event) => Interlock {
                tx_count,
                transactions: self.transactions.insert(id, stage.after(event)),
                ..self
            },
            None => self,
        }
    }

    /// The counters and the stages after a replacement did what its stage asks for.
    pub open spec fn after_replace(self, id: int, code: i32) -> Interlock {
        let replacement = self.replacements[id];
        let (blocker_count, event) = match replacement.next_action() {
            ReplacementAction::BlockTransactions => (
                self.blocker_count + 1,
                Some(ReplacementEvent::Blocked),
            ),
            ReplacementAction::ReadTransactionCount => (
                self.blocker_count,
                Some(ReplacementEvent::TransactionCount(self.tx_count as u32)),
            ),
            ReplacementAction::SetMapSize(size) => (
                self.blocker_count,
                Some(ReplacementEvent::MapSizeSet(code)),
            ),
            ReplacementAction::UnblockTransactions => (
                self.blocker_count - 1,
                Some(ReplacementEvent::Unblocked),
            ),
            ReplacementAction::Done(result) => (self.blocker_count, None),
        };
        match event {
            Some(event) => Interlock {
                blocker_count,
                replacements: self.replacements.insert(id, replacement.after(event)),
                ..self
            },
            None => self,
        }
    }

    /// The counters and the stages after a step.
    pub open spec fn after(self, step: InterlockStep) -> Interlock {
        match step {
            InterlockStep::Arrive(id) => Interlock {
                transactions: self.transactions.insert(id, GuardStage::Announce),
                ..self
            },
            InterlockStep::Advance(id, seen) => self.after_advance(id, seen),
            InterlockStep::Leave(id) => Interlock {
                tx_count: self.tx_count - 1,
                transactions: self.transactions.remove(id),
                ..self
            },
            InterlockStep::Begin(id, size) => Interlock {
                replacements: self.replacements.insert(
                    id,
                    MapReplacement { size, stage: ReplacementStage::Block },
                ),
                ..self
            },
            InterlockStep::Replace(id, code) => self.after_replace(id, code),
            InterlockStep::End(id) => Interlock {
                replacements: self.replacements.remove(id),
                ..self
            },
        }
    }

    /// What holds at all times: the counters count what they are meant to count, and no transaction
    /// is live while a replacement may replace the map.
    pub open spec fn is_sound(self) -> bool {
        &&& self.transactions.dom().finite()
        &&& self.replacements.dom().finite()
        &&& self.transactions.dom().len() <= u32::MAX
        &&& self.replacements.dom().len() <= u32::MAX
        &&& self.tx_count == self.counted().len()
        &&& self.blocker_count == self.blocking().len()
        &&& forall|reader: int, writer: int|
            !(#[trigger] self.is_live(reader) && #[trigger] self.replaces(writer))
    }

    /// Whether this is what a run of steps, each of which could be taken, leads to.
    pub open spec fn leads_to(self, steps: Seq<InterlockStep>, end: Interlock) -> bool
        decreases steps.len(),
    {
        if steps.len() == 0 {
            end == self
        } else {
            self.enables(steps[0]) && self.after(steps[0]).leads_to(steps.skip(1), end)
        }
    }
}

/// The size of a part of a finite set is at most that of the set.
proof fn lemma_part(whole: Set<int>, part: Set<int>)
    requires
        whole.finite(),
        part.subset_of(whole),
    ensures
        part.finite(),
        part.len() <= whole.len(),
{
    vstd::set_lib::lemma_len_subset(part, whole);
}

/// Every step keeps the counters right, and keeps live transactions and the replacement of the map
/// apart.
pub proof fn steps_keep_the_interlock_sound(interlock: Interlock, step: InterlockStep)
    requires
        interlock.is_sound(),
        interlock.enables(step),
    ensures
        interlock.after(step).is_sound(),
{
    let next = interlock.after(step);
    lemma_part(interlock.transactions.dom(), interlock.counted());
    lemma_part(interlock.replacements.dom(), interlock.blocking());
    assert forall|writer: int| #[trigger] interlock.replaces(writer) implies interlock.blocker_count
        > 0 by {
        assert(interlock.blocking().contains(writer));
    }
    assert forall|reader: int| #[trigger] interlock.is_live(reader) implies interlock.tx_count
        > 0 by {
        assert(interlock.counted().contains(reader));
    }
    match step {
        InterlockStep::Arrive(id) => {
            assert(next.counted() =~= interlock.counted());
            assert(next.blocking() =~= interlock.blocking());
        },
        InterlockStep::Advance(id, seen) => {
            let dom = interlock.transactions.dom();
            assert(next.transactions.dom() =~= dom);
            assert(next.blocking() =~= interlock.blocking());
            match interlock.transactions[id] {
                GuardStage::Announce => {
                    assert(next.counted() =~= interlock.counted().insert(id));
                },
                GuardStage::Retreat => {
                    assert(next.counted() =~= interlock.counted().remove(id));
                },
                _ => {
                    assert(next.counted() =~= interlock.counted());
                },
            }
        },
        InterlockStep::Leave(id) => {
            assert(next.counted() =~= interlock.counted().remove(id));
            assert(next.blocking() =~= interlock.blocking());
        },
        InterlockStep::Begin(id, size) => {
            assert(next.counted() =~= interlock.counted());
            assert(next.blocking() =~= interlock.blocking());
        },
        InterlockStep::Replace(id, code) => {
            let dom = interlock.replacements.dom();
            assert(next.replacements.dom() =~= dom);
            assert(next.counted() =~= interlock.counted());
            match interlock.replacements[id].stage {
                ReplacementStage::Block => {
                    assert(next.blocking() =~= interlock.blocking().insert(id));
                },
                ReplacementStage::Unblock { code } => {
                    assert(next.blocking() =~= interlock.blocking().remove(id));
                },
                _ => {
                    assert(next.blocking() =~= interlock.blocking());
                },
            }
        },
        InterlockStep::End(id) => {
            assert(next.counted() =~= interlock.counted());
            assert(next.blocking() =~= interlock.blocking());
        },
    }
    assert forall|reader: int, writer: int|
        !(#[trigger] next.is_live(reader) && #[trigger] next.replaces(writer)) by {
        if next.is_live(reader) && next.replaces(writer) {
            if interlock.is_live(reader) {
                // The replacement has just read the count of transactions.
                assert(!interlock.replaces(writer));
                assert(interlock.tx_count as u32 > 0);
            } else {
                // The transaction has just read the count of blockers.
                assert(interlock.replaces(writer));
                assert(interlock.blocker_count as u32 > 0);
            }
        }
    }
}

/// Nobody is live at the start, so the interlock is sound there.
pub proof fn the_start_is_sound(interlock: Interlock)
    requires
        interlock.is_initial(),
    ensures
        interlock.is_sound(),
{
    assert(interlock.counted() =~= Set::<int>::empty());
    assert(interlock.blocking() =~= Set::<int>::empty());
}

/// However the steps of the threads follow one another, no transaction is ever live while the
/// memory map may be replaced.
pub proof fn no_transaction_is_live_during_a_replacement(
    start: Interlock,
    steps: Seq<InterlockStep>,
    end: Interlock,
    transaction: int,
    replacement: int,
)
    requires
        start.is_initial(),
        start.leads_to(steps, end),
    ensures
        !(end.is_live(transaction) && end.replaces(replacement)),
{
    the_start_is_sound(start);
    lemma_runs_keep_the_interlock_sound(start, steps, end);
}

proof fn lemma_runs_keep_the_interlock_sound(
    start: Interlock,
    steps: Seq<InterlockStep>,
    end: Interlock,
)
    requires
        start.is_sound(),
        start.leads_to(steps, end),
    ensures
        end.is_sound(),
    decreases steps.len(),
{
    if steps.len() > 0 {
        steps_keep_the_interlock_sound(start, steps[0]);
        lemma_runs_keep_the_interlock_sound(start.after(steps[0]), steps.skip(1), end);
    }
}

/// While a replacement keeps new transactions out, no transaction goes live that is not live
/// already.
pub proof fn no_transaction_goes_live_while_blocked(
    interlock: Interlock,
    step: InterlockStep,
    transaction: int,
)
    requires
        interlock.is_sound(),
        interlock.enables(step),
        interlock.blocking() != Set::<int>::empty(),
        interlock.after(step).is_live(transaction),
    ensures
        interlock.is_live(transaction),
{
    lemma_part(interlock.replacements.dom(), interlock.blocking());
    if interlock.blocking().len() == 0 {
        assert(interlock.blocking() =~= Set::<int>::empty()) by {
            interlock.blocking().lemma_len0_is_empty();
        }
    }
    assert(interlock.blocker_count as u32 > 0);
}

/// Once every transaction has closed and every replacement is over, both counters are zero again,
/// so nobody is kept out and nobody is waited for.
pub proof fn counters_return_to_zero(interlock: Interlock)
    requires
        interlock.is_sound(),
        interlock.transactions.dom() == Set::<int>::empty(),
        interlock.replacements.dom() == Set::<int>::empty(),
    ensures
        interlock.tx_count == 0,
        interlock.blocker_count == 0,
{
    assert(interlock.counted() =~= Set::<int>::empty());
    assert(interlock.blocking() =~= Set::<int>::empty());
}

} // verus!
