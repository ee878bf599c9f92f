//! What a resize of the memory map comes to, while other threads use the environment.
//!
//! One thread resizes. The others begin transactions, commit changes and close them, as the
//! interlock lets them. No other thread replaces the map: whoever does holds the lock on that. The
//! environment reports itself as it is, and sets its map to the size that it is asked for, unless it
//! fails.

use vstd::prelude::*;

use crate::cursor_model::StoredItem;
use crate::environment::Info;
use crate::growing::Contents;
use crate::interlock::{Interlock, InterlockStep};
use crate::resizing::{
    Errno, MapReplacement, ReplacementAction, ReplacementEvent, ReplacementStage, Resize,
    ResizeAction, ResizeEvent, ResizeStage,
};

verus! {

/// What is committed to an environment: the pages that it takes, and the items of each database, by
/// the name of the database.
pub struct Committed {
    pub pages: Contents,
    pub databases: Map<Option<Seq<char>>, Seq<StoredItem>>,
}

/// A resize, and the environment whose map is resized.
pub struct ResizingMap {
    pub resize: Resize,
    /// The size of the map.
    pub map_size: usize,
    /// What is committed.
    pub committed: Committed,
    /// The transactions, and the replacement of the map where one is under way.
    pub interlock: Interlock,
}

/// One step of one thread.
pub enum ResizingStep {
    /// The thread that resizes did what was due, and this came of it.
    Resize(ResizeEvent),
    /// A transaction takes a step.
    Transaction(InterlockStep),
    /// A live transaction commits, and this is what is committed since.
    Commit(int, Committed),
}

/// The one replacement of the map.
pub open spec fn the_replacement() -> int {
    0
}

/// Whether an event is an outcome of what a replacement asks for next.
pub open spec fn is_outcome_of(event: ReplacementEvent, replacement: MapReplacement) -> bool {
    match replacement.stage {
        ReplacementStage::Block => event is Blocked,
        ReplacementStage::Drain => event is TransactionCount,
        ReplacementStage::Replace => event is MapSizeSet,
        ReplacementStage::Unblock { code } => event is Unblocked,
        ReplacementStage::Finished { code } => false,
    }
}

/// The result code of setting the size of the map.
pub open spec fn code_of(event: ReplacementEvent) -> i32 {
    match event {
        ReplacementEvent::MapSizeSet(code) => code,
        _ => crate::error::MDB_SUCCESS,
    }
}

impl ResizingMap {
    /// A resize begins, what is committed fits the map, and no replacement is under way. There may
    /// be transactions, at any stage.
    pub open spec fn is_start(self) -> bool {
        &&& self.resize.is_valid()
        &&& self.resize.stage is ReadStat
        &&& self.committed.pages.size() <= self.map_size
        &&& self.interlock.is_sound()
        &&& self.interlock.replacements == Map::<int, MapReplacement>::empty()
    }

    /// The size that the map is to be set to, where that is what the resize asks for next.
    pub open spec fn size_asked_for(self) -> Option<usize> {
        match self.resize.next_action() {
            ResizeAction::Replace(ReplacementAction::SetMapSize(size)) => Some(size),
            _ => None,
        }
    }

    /// Whether the map is set to another size in this step.
    pub open spec fn sets_the_map(self, step: ResizingStep) -> bool {
        &&& self.size_asked_for() is Some
        &&& step == ResizingStep::Resize(
            ResizeEvent::Replacement(ReplacementEvent::MapSizeSet(0)),
        )
    }

    /// Whether a step can be taken. What the environment reports of itself is so; a failure is
    /// always possible. What is committed fits the map.
    pub open spec fn enables(self, step: ResizingStep) -> bool {
        match step {
            ResizingStep::Resize(event) => match event {
                ResizeEvent::Stat(Ok(stat)) => stat.page_size == self.committed.pages.page_size,
                ResizeEvent::Info(Ok(info)) => info.map_size == self.map_size && info.last_pgno
                    == self.committed.pages.last_pgno,
                ResizeEvent::Replacement(event) => {
                    &&& self.resize.stage matches ResizeStage::Replace { plan, replacement }
                        ==> is_outcome_of(event, replacement)
                    &&& event matches ReplacementEvent::TransactionCount(count) ==> count
                        == self.interlock.tx_count as u32
                },
                _ => true,
            },
            ResizingStep::Transaction(step) => {
                &&& step is Arrive || step is Advance || step is Leave
                &&& self.interlock.enables(step)
            },
            ResizingStep::Commit(id, committed) => {
                &&& self.interlock.is_live(id)
                &&& committed.pages.page_size == self.committed.pages.page_size
                &&& committed.pages.size() <= self.map_size
            },
        }
    }

    /// The size of the map after it was set. A size that is less than what is committed takes is
    /// silently raised to that.
    pub open spec fn set_to(self, size: usize) -> usize {
        if size < self.committed.pages.size() {
            self.committed.pages.size() as usize
        } else {
            size
        }
    }

    /// The interlock after the thread that resizes did what was due.
    pub open spec fn interlock_after(self, event: ResizeEvent, errno: Errno) -> Interlock {
        let next = self.resize.after(event, errno);
        match (self.resize.stage, event) {
            (ResizeStage::ReadFreeSpace { plan }, _) => if next.stage is Replace {
                self.interlock.after(InterlockStep::Begin(the_replacement(), plan.new_map_size))
            } else {
                self.interlock
            },
            (ResizeStage::Replace { plan, replacement }, ResizeEvent::Replacement(event)) => {
                let interlock = self.interlock.after(
                    InterlockStep::Replace(the_replacement(), code_of(event)),
                );
                if next.stage is Replace {
                    interlock
                } else {
                    interlock.after(InterlockStep::End(the_replacement()))
                }
            },
            _ => self.interlock,
        }
    }

    /// The resize and the environment after a step.
    pub open spec fn after(self, step: ResizingStep, errno: Errno) -> ResizingMap {
        match step {
            ResizingStep::Resize(event) => ResizingMap {
                resize: self.resize.after(event, errno),
                map_size: match self.size_asked_for() {
                    Some(size) => if self.sets_the_map(step) {
                        self.set_to(size)
                    } else {
                        self.map_size
                    },
                    None => self.map_size,
                },
                committed: self.committed,
                interlock: self.interlock_after(event, errno),
            },
            ResizingStep::Transaction(step) => ResizingMap {
                interlock: self.interlock.after(step),
                ..self
            },
            ResizingStep::Commit(id, committed) => ResizingMap { committed, ..self },
        }
    }

    /// Whether the map was set to the size that was planned.
    spec fn is_set(self) -> bool {
        match self.resize.stage {
            ResizeStage::Replace { plan, replacement } => replacement.stage
                == (ReplacementStage::Unblock { code: crate::error::MDB_SUCCESS }),
            ResizeStage::Notify { plan } => true,
            ResizeStage::Finished { result: Ok(size) } => true,
            _ => false,
        }
    }

    /// What holds at each point of a run that began with a map of this size.
    spec fn is_on_its_way(self, old_size: usize) -> bool {
        &&& self.resize.is_valid()
        &&& self.committed.pages.size() <= self.map_size
        &&& self.interlock.is_sound()
        &&& self.interlock.replacements == match self.resize.stage {
            ResizeStage::Replace { plan, replacement } => Map::<
                int,
                MapReplacement,
            >::empty().insert(the_replacement(), replacement),
            _ => Map::<int, MapReplacement>::empty(),
        }
        &&& !self.is_set() ==> self.map_size == old_size
        &&& match self.resize.stage {
            ResizeStage::ReadFreeSpace { plan } => plan.old_map_size == old_size,
            ResizeStage::Replace { plan, replacement } => plan.old_map_size == old_size && (
            self.is_set() ==> self.map_size == plan.new_map_size),
            ResizeStage::Notify { plan } => plan.old_map_size == old_size && self.map_size
                == plan.new_map_size,
            ResizeStage::Finished { result: Ok(size) } => self.map_size == size && old_size < size,
            _ => true,
        }
    }
}

/// Whether these are the states that a run of steps, each of which could be taken, goes through.
pub open spec fn is_run(
    states: Seq<ResizingMap>,
    steps: Seq<ResizingStep>,
    errno: Errno,
) -> bool {
    &&& states.len() == steps.len() + 1
    &&& forall|i: int|
        #![trigger steps[i]]
        0 <= i < steps.len() ==> states[i].enables(steps[i]) && states[i + 1] == states[i].after(
            steps[i],
            errno,
        )
}

/// Whether the map was replaced in this step of a run, and in no other up to this end: it had its old
/// size before, and has the size that it was set to since. No transaction was live, so that those
/// that were live at the start had ended. The replacement changed nothing of what is committed.
pub open spec fn is_replacement_point(
    states: Seq<ResizingMap>,
    steps: Seq<ResizingStep>,
    at: int,
    end: int,
) -> bool {
    &&& 0 <= at < end
    &&& states[at].sets_the_map(steps[at])
    &&& forall|id: int| !#[trigger] states[at].interlock.is_live(id)
    &&& states[at + 1].committed == states[at].committed
    &&& forall|j: int|
        #![trigger states[j]]
        0 <= j <= end ==> states[j].map_size == if j <= at {
            states[0].map_size
        } else {
            states[end].map_size
        }
}

proof fn lemma_stays_on_its_way(
    map: ResizingMap,
    step: ResizingStep,
    errno: Errno,
    old_size: usize,
)
    requires
        map.is_on_its_way(old_size),
        map.enables(step),
    ensures
        map.after(step, errno).is_on_its_way(old_size),
        map.after(step, errno).is_set() == (map.is_set() || map.sets_the_map(step)),
        map.is_set() ==> map.after(step, errno).map_size == map.map_size,
{
    let next = map.after(step, errno);
    match step {
        ResizingStep::Resize(event) => {
            match (map.resize.stage, event) {
                (ResizeStage::ReadInfo { stat }, ResizeEvent::Info(Ok(info))) => {
                    if let Ok(plan) = crate::environment::plan_of(
                        stat,
                        info,
                        map.resize.increase,
                        map.resize.settings,
                    ) {
                        crate::environment::resize_grows_within_steps(
                            stat,
                            info,
                            map.resize.increase,
                            map.resize.settings,
                            plan,
                        );
                    }
                },
                (ResizeStage::ReadFreeSpace { plan }, _) => {
                    if next.resize.stage is Replace {
                        crate::interlock::steps_keep_the_interlock_sound(
                            map.interlock,
                            InterlockStep::Begin(the_replacement(), plan.new_map_size),
                        );
                    }
                },
                (ResizeStage::Replace { plan, replacement }, ResizeEvent::Replacement(event)) => {
                    let step = InterlockStep::Replace(the_replacement(), code_of(event));
                    assert(map.interlock.replacements[the_replacement()] == replacement);
                    crate::interlock::steps_keep_the_interlock_sound(map.interlock, step);
                    let interlock = map.interlock.after(step);
                    assert(interlock.replacements =~= Map::<int, MapReplacement>::empty().insert(
                        the_replacement(),
                        replacement.after(event),
                    ));
                    if !(next.resize.stage is Replace) {
                        crate::interlock::steps_keep_the_interlock_sound(
                            interlock,
                            InterlockStep::End(the_replacement()),
                        );
                        assert(next.interlock.replacements =~= Map::<
                            int,
                            MapReplacement,
                        >::empty());
                    }
                },
                _ => {},
            }
        },
        ResizingStep::Transaction(step) => {
            crate::interlock::steps_keep_the_interlock_sound(map.interlock, step);
        },
        ResizingStep::Commit(id, committed) => {},
    }
}

/// Where the map was set in a run, it was so at one point, where no transaction was live. Before it
/// had its old size, and since then it has its new one.
proof fn lemma_run(
    states: Seq<ResizingMap>,
    steps: Seq<ResizingStep>,
    errno: Errno,
    end: int,
) -> (at: int)
    requires
        is_run(states, steps, errno),
        states[0].is_start(),
        0 <= end < states.len(),
    ensures
        states[end].is_on_its_way(states[0].map_size),
        states[end].is_set() ==> is_replacement_point(states, steps, at, end),
    decreases end,
{
    if end == 0 {
        0
    } else {
        let last = end - 1;
        let at = lemma_run(states, steps, errno, last);
        assert(states[last].enables(steps[last]));
        lemma_stays_on_its_way(states[last], steps[last], errno, states[0].map_size);
        if states[last].is_set() {
            at
        } else {
            if states[end].is_set() {
                assert forall|id: int| !#[trigger] states[last].interlock.is_live(id) by {
                    assert(states[last].interlock.replaces(the_replacement()));
                }
                assert forall|j: int| #![trigger states[j]] 0 <= j <= last implies states[j].map_size
                    == states[0].map_size by {
                    lemma_not_set_before(states, steps, errno, j, last);
                }
            }
            last
        }
    }
}

/// While the map was not set, it has its old size.
proof fn lemma_not_set_before(
    states: Seq<ResizingMap>,
    steps: Seq<ResizingStep>,
    errno: Errno,
    i: int,
    end: int,
)
    requires
        is_run(states, steps, errno),
        states[0].is_start(),
        0 <= i <= end < states.len(),
        !states[end].is_set(),
    ensures
        states[i].map_size == states[0].map_size,
    decreases end,
{
    if i < end {
        let last = end - 1;
        lemma_run_is_on_its_way(states, steps, errno, last);
        assert(states[last].enables(steps[last]));
        lemma_stays_on_its_way(states[last], steps[last], errno, states[0].map_size);
        lemma_not_set_before(states, steps, errno, i, last);
    } else {
        lemma_run_is_on_its_way(states, steps, errno, end);
    }
}

proof fn lemma_run_is_on_its_way(
    states: Seq<ResizingMap>,
    steps: Seq<ResizingStep>,
    errno: Errno,
    end: int,
)
    requires
        is_run(states, steps, errno),
        states[0].is_start(),
        0 <= end < states.len(),
    ensures
        states[end].is_on_its_way(states[0].map_size),
    decreases end,
{
    if end > 0 {
        lemma_run_is_on_its_way(states, steps, errno, end - 1);
        assert(states[end - 1].enables(steps[end - 1]));
        lemma_stays_on_its_way(states[end - 1], steps[end - 1], errno, states[0].map_size);
    }
}

/// Whether no transaction commits from one point of a run to another.
pub open spec fn nothing_commits(steps: Seq<ResizingStep>, from: int, to: int) -> bool {
    forall|i: int| #![trigger steps[i]] from <= i < to ==> !(steps[i] is Commit)
}

/// Only a commit changes what is committed.
proof fn lemma_committed_stays(
    states: Seq<ResizingMap>,
    steps: Seq<ResizingStep>,
    errno: Errno,
    from: int,
    to: int,
)
    requires
        is_run(states, steps, errno),
        0 <= from <= to < states.len(),
        nothing_commits(steps, from, to),
    ensures
        states[to].committed == states[from].committed,
    decreases to - from,
{
    if from < to {
        lemma_committed_stays(states, steps, errno, from, to - 1);
        assert(states[to - 1].enables(steps[to - 1]));
    }
}

/// A resize that ends well leaves the map at the size that it returns, which is more than before. The
/// map was replaced at one point, and at that point no transaction was live: those that were live
/// when the resize began had ended. What was committed then is committed still, whatever the other
/// threads do, until one of them commits a change.
pub proof fn a_resize_gives_the_size_of_the_map(
    states: Seq<ResizingMap>,
    steps: Seq<ResizingStep>,
    errno: Errno,
    new_size: usize,
) -> (at: int)
    requires
        is_run(states, steps, errno),
        states[0].is_start(),
        states.last().resize.stage == (ResizeStage::Finished { result: Ok(new_size) }),
    ensures
        states.last().map_size == new_size,
        states[0].map_size < new_size,
        forall|info: Info|
            #[trigger] states.last().enables(ResizingStep::Resize(ResizeEvent::Info(Ok(info))))
                ==> info.map_size == new_size,
        is_replacement_point(states, steps, at, steps.len() as int),
        forall|j: int|
            #![trigger states[j]]
            at <= j < states.len() && nothing_commits(steps, at, j) ==> states[j].committed
                == states[at].committed,
{
    let end = steps.len() as int;
    let at = lemma_run(states, steps, errno, end);
    assert forall|j: int|
        #![trigger states[j]]
        at <= j < states.len() && nothing_commits(steps, at, j) implies states[j].committed
        == states[at].committed by {
        lemma_committed_stays(states, steps, errno, at, j);
    }
    at
}

/// A resize that ends with an error, or that cannot go on, leaves the map at the size that it had.
pub proof fn a_resize_that_fails_leaves_the_map(
    states: Seq<ResizingMap>,
    steps: Seq<ResizingStep>,
    errno: Errno,
)
    requires
        is_run(states, steps, errno),
        states[0].is_start(),
        match states.last().resize.stage {
            ResizeStage::Finished { result: Err(error) } => true,
            ResizeStage::Broken { fault } => true,
            _ => false,
        },
    ensures
        states.last().map_size == states[0].map_size,
        nothing_commits(steps, 0, steps.len() as int) ==> states.last().committed
            == states[0].committed,
{
    lemma_run_is_on_its_way(states, steps, errno, steps.len() as int);
    if nothing_commits(steps, 0, steps.len() as int) {
        lemma_committed_stays(states, steps, errno, 0, steps.len() as int);
    }
}

} // verus!
