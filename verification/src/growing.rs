//! What growing ahead of a write transaction comes to.
//!
//! The laws here follow a growth from its start, in an environment that reports itself as it is and
//! sets its map to the size that it is asked for, unless it fails.

use vstd::prelude::*;

use crate::resizing::{
    Errno, Growth, GrowthAction, GrowthStage, ReplacementAction, ReplacementEvent,
    ReplacementStage, Resize, ResizeAction, ResizeEvent, ResizeStage,
};

verus! {

/// What is stored in an environment. It stays the same while the map grows.
pub struct Contents {
    pub page_size: u32,
    pub last_pgno: usize,
}

impl Contents {
    /// The size that the pages in use take.
    pub open spec fn size(self) -> int {
        self.page_size * self.last_pgno
    }
}

/// A growth, and the map that grows.
pub struct GrowingMap {
    pub growth: Growth,
    /// The size of the map.
    pub map_size: usize,
    /// How many rounds of growing are over that another one followed.
    pub rounds: nat,
}

impl GrowingMap {
    /// Growing begins, and the contents fit the map.
    pub open spec fn is_start(self, contents: Contents) -> bool {
        &&& self.growth.is_valid()
        &&& self.growth.stage is ReadInitialInfo
        &&& self.rounds == 0
        &&& contents.size() <= self.map_size
    }

    /// Whether the environment can answer this: what it reports of itself is so. A failure is
    /// always possible.
    pub open spec fn can_answer(self, event: ResizeEvent, contents: Contents) -> bool {
        match event {
            ResizeEvent::Stat(Ok(stat)) => stat.page_size == contents.page_size,
            ResizeEvent::Info(Ok(info)) => info.map_size == self.map_size && info.last_pgno
                == contents.last_pgno,
            _ => true,
        }
    }

    /// The size of the map after an event: the one that was asked for, where it was set.
    pub open spec fn map_size_after(self, event: ResizeEvent) -> usize {
        match (self.growth.next_action(), event) {
            (
                GrowthAction::Resize(ResizeAction::Replace(ReplacementAction::SetMapSize(size))),
                ResizeEvent::Replacement(ReplacementEvent::MapSizeSet(code)),
            ) => if code == 0 {
                size
            } else {
                self.map_size
            },
            _ => self.map_size,
        }
    }

    /// The growth and the map after an event.
    pub open spec fn after(self, event: ResizeEvent, errno: Errno) -> GrowingMap {
        let growth = self.growth.after(event, errno);
        GrowingMap {
            growth,
            map_size: self.map_size_after(event),
            rounds: if self.growth.stage is Resize && growth.stage is ReadStat {
                self.rounds + 1
            } else {
                self.rounds
            },
        }
    }

    /// Whether this is where a run of events, each of which the environment can answer, leads.
    pub open spec fn leads_to(
        self,
        events: Seq<ResizeEvent>,
        errno: Errno,
        contents: Contents,
        end: GrowingMap,
    ) -> bool
        decreases events.len(),
    {
        if events.len() == 0 {
            end == self
        } else {
            self.can_answer(events[0], contents) && self.after(events[0], errno).leads_to(
                events.skip(1),
                errno,
                contents,
                end,
            )
        }
    }

    /// Whether the map is that of a resize: as large as before until it was set, and as large as
    /// planned since.
    spec fn follows(self, resize: Resize) -> bool {
        match resize.stage {
            ResizeStage::ReadFreeSpace { plan } => plan.old_map_size == self.map_size,
            ResizeStage::Replace { plan, replacement } => self.map_size == match replacement.stage {
                ReplacementStage::Unblock { code } => if code == crate::error::MDB_SUCCESS {
                    plan.new_map_size
                } else {
                    plan.old_map_size
                },
                _ => plan.old_map_size,
            },
            ResizeStage::Notify { plan } => self.map_size == plan.new_map_size,
            _ => true,
        }
    }

    /// What holds at each point of a run.
    spec fn is_on_its_way(self, contents: Contents) -> bool {
        &&& self.growth.is_valid()
        &&& contents.size() <= self.map_size
        &&& match self.growth.stage {
            GrowthStage::ReadInitialInfo => self.rounds == 0,
            GrowthStage::ReadStat { target } => {
                &&& contents.size() <= target.initial_map_size
                &&& self.has_grown(target.initial_map_size as int, target.required_space as int)
            },
            GrowthStage::ReadInfo { target, stat } => {
                &&& contents.size() <= target.initial_map_size
                &&& self.has_grown(target.initial_map_size as int, target.required_space as int)
                &&& stat.page_size == contents.page_size
            },
            GrowthStage::Resize { target, resize } => {
                &&& contents.size() <= target.initial_map_size
                &&& self.has_grown_at_least(target.initial_map_size as int)
                &&& resize.plan_in_hand() matches Some(plan) ==> target.initial_map_size
                    + self.rounds * self.growth.settings.min_resize_step <= plan.old_map_size
                &&& self.follows(resize)
                &&& resize.stage matches ResizeStage::ReadInfo { stat } ==> stat.page_size
                    == contents.page_size
            },
            GrowthStage::Finished { result: Ok(_) } => self.growth.headroom matches Some(headroom)
                ==> contents.size() + headroom <= self.map_size,
            _ => true,
        }
    }

    /// The map has grown by the smallest step in each round.
    spec fn has_grown_at_least(self, initial: int) -> bool {
        initial + self.rounds * self.growth.settings.min_resize_step <= self.map_size
    }

    /// The same, and where rounds are over that did not end growing, the map is short of the
    /// target.
    spec fn has_grown(self, initial: int, required: int) -> bool {
        &&& self.has_grown_at_least(initial)
        &&& self.rounds > 0 ==> self.map_size < initial + required
    }
}

proof fn lemma_stays_on_its_way(
    map: GrowingMap,
    event: ResizeEvent,
    errno: Errno,
    contents: Contents,
)
    requires
        map.is_on_its_way(contents),
        map.can_answer(event, contents),
    ensures
        map.after(event, errno).is_on_its_way(contents),
        map.map_size <= map.after(event, errno).map_size,
{
    let next = map.after(event, errno);
    let min = map.growth.settings.min_resize_step as int;
    assert((map.rounds + 1) * min == map.rounds * min + min) by (nonlinear_arith);
    assert(0 * min == 0) by (nonlinear_arith);
    match map.growth.stage {
        GrowthStage::Resize { target, resize } => {
            if let ResizeStage::ReadInfo { stat } = resize.stage {
                if let ResizeEvent::Info(Ok(info)) = event {
                    if let Ok(plan) = crate::environment::plan_of(
                        stat,
                        info,
                        resize.increase,
                        resize.settings,
                    ) {
                        crate::environment::resize_grows_within_steps(
                            stat,
                            info,
                            resize.increase,
                            resize.settings,
                            plan,
                        );
                    }
                }
            }
        },
        _ => {},
    }
}

proof fn lemma_runs_stay_on_their_way(
    start: GrowingMap,
    events: Seq<ResizeEvent>,
    errno: Errno,
    contents: Contents,
    end: GrowingMap,
)
    requires
        start.is_on_its_way(contents),
        start.leads_to(events, errno, contents, end),
    ensures
        end.is_on_its_way(contents),
        end.growth.headroom == start.growth.headroom,
        end.growth.settings == start.growth.settings,
        start.map_size <= end.map_size,
    decreases events.len(),
{
    if events.len() > 0 {
        lemma_stays_on_its_way(start, events[0], errno, contents);
        lemma_runs_stay_on_their_way(
            start.after(events[0], errno),
            events.skip(1),
            errno,
            contents,
            end,
        );
    }
}

/// Growing never leaves the map smaller than it was, however far it comes and however it ends.
pub proof fn growing_never_shrinks_the_map(
    start: GrowingMap,
    events: Seq<ResizeEvent>,
    errno: Errno,
    contents: Contents,
    end: GrowingMap,
)
    requires
        start.is_start(contents),
        start.leads_to(events, errno, contents, end),
    ensures
        start.map_size <= end.map_size,
{
    lemma_runs_stay_on_their_way(start, events, errno, contents, end);
}

/// Where growing ends well, the headroom that was asked for fits the map beside the contents.
pub proof fn growing_makes_room_for_the_headroom(
    start: GrowingMap,
    events: Seq<ResizeEvent>,
    errno: Errno,
    contents: Contents,
    end: GrowingMap,
    headroom: usize,
)
    requires
        start.is_start(contents),
        start.growth.headroom == Some(headroom),
        start.leads_to(events, errno, contents, end),
        end.growth.stage matches GrowthStage::Finished { result: Ok(_) },
    ensures
        contents.size() + headroom <= end.map_size,
        start.map_size <= end.map_size,
{
    lemma_runs_stay_on_their_way(start, events, errno, contents, end);
}

/// Growing does not go on for ever: the rounds that another one follows are fewer than smallest
/// steps fit into the space that is required.
pub proof fn growing_takes_few_rounds(
    start: GrowingMap,
    events: Seq<ResizeEvent>,
    errno: Errno,
    contents: Contents,
    end: GrowingMap,
)
    requires
        start.is_start(contents),
        start.leads_to(events, errno, contents, end),
        end.rounds > 0,
    ensures
        end.growth.stage matches GrowthStage::ReadStat { target } ==> end.rounds
            * end.growth.settings.min_resize_step < target.required_space,
{
    lemma_runs_stay_on_their_way(start, events, errno, contents, end);
}

/// Whether nothing failed: what was to be read was read, the disk has the space for a whole step, and
/// the size of the map was set.
pub open spec fn is_fine(event: ResizeEvent, step: int) -> bool {
    match event {
        ResizeEvent::Stat(Err(error)) => false,
        ResizeEvent::Info(Err(error)) => false,
        ResizeEvent::FreeSpace(Ok(free)) => free >= step,
        ResizeEvent::FreeSpace(Err(code)) => false,
        ResizeEvent::Replacement(ReplacementEvent::MapSizeSet(code)) => code == 0,
        _ => true,
    }
}

/// What holds at each point of a run in which nothing failed.
spec fn has_no_failure(growth: Growth, contents: Contents) -> bool {
    match growth.stage {
        GrowthStage::Finished { result: Err(error) } => false,
        GrowthStage::Resize { target, resize } => match resize.stage {
            ResizeStage::ReadInfo { stat } => stat.page_size == contents.page_size,
            ResizeStage::ReadFreeSpace { plan } => plan.new_map_size - plan.old_map_size
                < growth.settings.max_resize_step + contents.page_size,
            ResizeStage::Replace { plan, replacement } => replacement.stage
                matches ReplacementStage::Unblock { code } ==> code == 0,
            _ => true,
        },
        _ => true,
    }
}

proof fn lemma_no_failure(map: GrowingMap, event: ResizeEvent, errno: Errno, contents: Contents)
    requires
        map.growth.is_valid(),
        map.can_answer(event, contents),
        is_fine(event, map.growth.settings.max_resize_step + contents.page_size),
        has_no_failure(map.growth, contents),
    ensures
        map.after(event, errno).growth.is_valid(),
        map.after(event, errno).growth.settings == map.growth.settings,
        has_no_failure(map.after(event, errno).growth, contents),
{
    if let GrowthStage::Resize { target, resize } = map.growth.stage {
        if let ResizeStage::ReadInfo { stat } = resize.stage {
            if let ResizeEvent::Info(Ok(info)) = event {
                if let Ok(plan) = crate::environment::plan_of(
                    stat,
                    info,
                    resize.increase,
                    resize.settings,
                ) {
                    crate::environment::resize_grows_within_steps(
                        stat,
                        info,
                        resize.increase,
                        resize.settings,
                        plan,
                    );
                }
            }
        }
    }
}

proof fn lemma_runs_without_failure(
    start: GrowingMap,
    events: Seq<ResizeEvent>,
    errno: Errno,
    contents: Contents,
    end: GrowingMap,
)
    requires
        start.growth.is_valid(),
        has_no_failure(start.growth, contents),
        start.leads_to(events, errno, contents, end),
        forall|i: int|
            #![trigger events[i]]
            0 <= i < events.len() ==> is_fine(
                events[i],
                start.growth.settings.max_resize_step + contents.page_size,
            ),
    ensures
        has_no_failure(end.growth, contents),
    decreases events.len(),
{
    if events.len() > 0 {
        assert(is_fine(events[0], start.growth.settings.max_resize_step + contents.page_size));
        lemma_no_failure(start, events[0], errno, contents);
        let rest = events.skip(1);
        assert forall|i: int| #![trigger rest[i]] 0 <= i < rest.len() implies is_fine(
            rest[i],
            start.growth.settings.max_resize_step + contents.page_size,
        ) by {
            assert(rest[i] == events[i + 1]);
        }
        lemma_runs_without_failure(start.after(events[0], errno), rest, errno, contents, end);
    }
}

/// Growing ends with an error only where something failed: where the environment reports itself, sets
/// its map, and the disk has the space for a whole step and a page each time it is asked, the
/// transaction is never refused, however large the map is.
pub proof fn growing_fails_only_where_something_failed(
    start: GrowingMap,
    events: Seq<ResizeEvent>,
    errno: Errno,
    contents: Contents,
    end: GrowingMap,
)
    requires
        start.is_start(contents),
        start.leads_to(events, errno, contents, end),
        forall|i: int|
            #![trigger events[i]]
            0 <= i < events.len() ==> is_fine(
                events[i],
                start.growth.settings.max_resize_step + contents.page_size,
            ),
    ensures
        !(end.growth.next_action() matches GrowthAction::Done(Err(_))),
{
    lemma_runs_without_failure(start, events, errno, contents, end);
}

} // verus!
