//! What is asked for, call by call, when the map is replaced, resized, or grown ahead of a write
//! transaction, and what comes of it.
//!
//! The laws here say which calls are made with which arguments, whatever each of them ends with,
//! and that nothing but a call that failed, or too little space, makes an end that is not a success.

use vstd::prelude::*;

use crate::environment::{Info, ResizeFault, ResizePlan, Stat};
use crate::error::Error;
use crate::resizing::{
    Errno, Growth, GrowthAction, GrowthStage, GrowthTarget, MapReplacement, ReplacementAction,
    ReplacementEvent, ReplacementStage, Resize, ResizeAction, ResizeEvent, ResizeStage,
};

verus! {

impl MapReplacement {
    /// The replacement after events, one after another.
    pub open spec fn after_all(self, events: Seq<ReplacementEvent>) -> MapReplacement
        decreases events.len(),
    {
        if events.len() == 0 {
            self
        } else {
            self.after(events[0]).after_all(events.skip(1))
        }
    }

    /// What is asked for before each of these events.
    pub open spec fn actions(self, events: Seq<ReplacementEvent>) -> Seq<ReplacementAction>
        decreases events.len(),
    {
        if events.len() == 0 {
            Seq::empty()
        } else {
            seq![self.next_action()] + self.after(events[0]).actions(events.skip(1))
        }
    }
}

impl Resize {
    /// The resize after events, one after another.
    pub open spec fn after_all(self, events: Seq<ResizeEvent>, errno: Errno) -> Resize
        decreases events.len(),
    {
        if events.len() == 0 {
            self
        } else {
            self.after(events[0], errno).after_all(events.skip(1), errno)
        }
    }

    /// What is asked for before each of these events.
    pub open spec fn actions(self, events: Seq<ResizeEvent>, errno: Errno) -> Seq<ResizeAction>
        decreases events.len(),
    {
        if events.len() == 0 {
            Seq::empty()
        } else {
            seq![self.next_action()] + self.after(events[0], errno).actions(events.skip(1), errno)
        }
    }
}

/// The counts of live transactions, read one after another.
pub open spec fn counts(read: Seq<u32>) -> Seq<ReplacementEvent> {
    Seq::new(read.len(), |i: int| ReplacementEvent::TransactionCount(read[i]))
}

/// Reading the count of live transactions so many times.
pub open spec fn reads(times: nat) -> Seq<ReplacementAction> {
    Seq::new(times, |i: int| ReplacementAction::ReadTransactionCount)
}

/// What happens when the map is replaced: transactions are blocked, live ones are counted until there
/// are none, the size is set with a result code, and transactions are let in again.
pub open spec fn replacement_events(read: Seq<u32>, code: i32) -> Seq<ReplacementEvent> {
    seq![ReplacementEvent::Blocked] + counts(read) + seq![
        ReplacementEvent::TransactionCount(0),
        ReplacementEvent::MapSizeSet(code),
        ReplacementEvent::Unblocked,
    ]
}

/// What is asked for when the map is replaced by one of this size.
pub open spec fn replacement_actions(size: usize, times: nat) -> Seq<ReplacementAction> {
    seq![ReplacementAction::BlockTransactions] + reads(times + 1) + seq![
        ReplacementAction::SetMapSize(size),
        ReplacementAction::UnblockTransactions,
    ]
}

/// As long as transactions are live, a replacement does nothing but count them.
proof fn lemma_drain(size: usize, read: Seq<u32>, rest: Seq<ReplacementEvent>)
    requires
        forall|i: int| #![trigger read[i]] 0 <= i < read.len() ==> read[i] != 0,
    ensures
        ({
            let drain = MapReplacement { size, stage: ReplacementStage::Drain };
            &&& drain.actions(counts(read) + rest) == reads(read.len()) + drain.actions(rest)
            &&& drain.after_all(counts(read) + rest) == drain.after_all(rest)
        }),
    decreases read.len(),
{
    let drain = MapReplacement { size, stage: ReplacementStage::Drain };
    let events = counts(read) + rest;
    if read.len() == 0 {
        assert(events =~= rest);
        assert(reads(0) + drain.actions(rest) =~= drain.actions(rest));
    } else {
        let later = read.skip(1);
        assert(read[0] != 0);
        assert forall|i: int| #![trigger later[i]] 0 <= i < later.len() implies later[i] != 0 by {
            assert(later[i] == read[i + 1]);
        }
        lemma_drain(size, later, rest);
        assert(events[0] == ReplacementEvent::TransactionCount(read[0]));
        assert(events.skip(1) =~= counts(later) + rest);
        assert(seq![ReplacementAction::ReadTransactionCount] + (reads(later.len())
            + drain.actions(rest)) =~= reads(read.len()) + drain.actions(rest));
    }
}

/// Replacing the map asks LMDB once to set its size, to just the size that was given, whatever that
/// is. Before that new transactions are blocked and the live ones are counted, as often as there are
/// some, and after it transactions are let in again. It ends well where the size was set, and
/// otherwise with the error of that call.
pub proof fn the_size_that_was_given_is_set(size: usize, read: Seq<u32>, code: i32)
    requires
        forall|i: int| #![trigger read[i]] 0 <= i < read.len() ==> read[i] != 0,
    ensures
        ({
            let start = MapReplacement { size, stage: ReplacementStage::Block };
            let events = replacement_events(read, code);
            &&& start.actions(events) == replacement_actions(size, read.len())
            &&& match start.after_all(events).next_action() {
                ReplacementAction::Done(Ok(())) => code == 0,
                ReplacementAction::Done(Err(error)) => code != 0 && crate::error::stands_for(
                    error,
                    code,
                ),
                _ => false,
            }
        }),
{
    let start = MapReplacement { size, stage: ReplacementStage::Block };
    let drain = MapReplacement { size, stage: ReplacementStage::Drain };
    let last = seq![
        ReplacementEvent::TransactionCount(0),
        ReplacementEvent::MapSizeSet(code),
        ReplacementEvent::Unblocked,
    ];
    let events = replacement_events(read, code);
    crate::error::only_zero_is_success(code);
    lemma_drain(size, read, last);
    assert(events[0] == ReplacementEvent::Blocked);
    assert(events.skip(1) =~= counts(read) + last);
    reveal_with_fuel(MapReplacement::actions, 4);
    reveal_with_fuel(MapReplacement::after_all, 4);
    assert(last.skip(1) =~= seq![
        ReplacementEvent::MapSizeSet(code),
        ReplacementEvent::Unblocked,
    ]);
    assert(last.skip(1).skip(1) =~= seq![ReplacementEvent::Unblocked]);
    assert(last.skip(1).skip(1).skip(1) =~= Seq::<ReplacementEvent>::empty());
    assert(drain.actions(last) =~= seq![
        ReplacementAction::ReadTransactionCount,
        ReplacementAction::SetMapSize(size),
        ReplacementAction::UnblockTransactions,
    ]);
    assert(start.actions(events) =~= replacement_actions(size, read.len()));
}

/// The replacement events as those of a resize.
pub open spec fn as_resize_events(events: Seq<ReplacementEvent>) -> Seq<ResizeEvent> {
    events.map_values(|event: ReplacementEvent| ResizeEvent::Replacement(event))
}

/// The replacement actions as those of a resize.
pub open spec fn as_resize_actions(actions: Seq<ReplacementAction>) -> Seq<ResizeAction> {
    actions.map_values(|action: ReplacementAction| ResizeAction::Replace(action))
}

/// As long as a replacement is not over, a resize does what the replacement asks for.
proof fn lemma_resize_replaces(
    resize: Resize,
    plan: ResizePlan,
    replacement: MapReplacement,
    events: Seq<ReplacementEvent>,
    errno: Errno,
)
    requires
        resize.stage == (ResizeStage::Replace { plan, replacement }),
        forall|k: int|
            0 <= k < events.len() ==> !((#[trigger] replacement.after_all(
                events.take(k),
            )).stage is Finished),
        events.len() > 0,
    ensures
        resize.actions(as_resize_events(events), errno) == as_resize_actions(
            replacement.actions(events),
        ),
        ({
            let end = replacement.after_all(events);
            let last = resize.after_all(as_resize_events(events), errno);
            &&& last.has_callback == resize.has_callback
            &&& last.stage == match end.next_action() {
                ReplacementAction::Done(Ok(())) => if resize.has_callback {
                    ResizeStage::Notify { plan }
                } else {
                    ResizeStage::Finished { result: Ok(plan.new_map_size) }
                },
                ReplacementAction::Done(Err(error)) => ResizeStage::Finished { result: Err(error) },
                _ => ResizeStage::Replace { plan, replacement: end },
            }
        }),
    decreases events.len(),
{
    let all = as_resize_events(events);
    let next = replacement.after(events[0]);
    let rest = events.skip(1);
    let following = resize.after(all[0], errno);
    assert(all[0] == ResizeEvent::Replacement(events[0]));
    assert(all.skip(1) =~= as_resize_events(rest));
    assert(replacement.after_all(events.take(0)) == replacement);
    if rest.len() == 0 {
        reveal_with_fuel(Resize::actions, 2);
        reveal_with_fuel(Resize::after_all, 2);
        reveal_with_fuel(MapReplacement::after_all, 2);
        assert(as_resize_events(rest) =~= Seq::<ResizeEvent>::empty());
        assert(resize.actions(all, errno) =~= seq![ResizeAction::Replace(replacement.next_action())]);
        assert(next.actions(rest) =~= Seq::<ReplacementAction>::empty());
        assert(as_resize_actions(replacement.actions(events)) =~= seq![
            ResizeAction::Replace(replacement.next_action()),
        ]);
    } else {
        assert(events.take(1).skip(1) =~= Seq::<ReplacementEvent>::empty());
        assert(replacement.after_all(events.take(1)) == next.after_all(events.take(1).skip(1)));
        assert forall|k: int| 0 <= k < rest.len() implies !((#[trigger] next.after_all(
            rest.take(k),
        )).stage is Finished) by {
            assert(events.take(k + 1).skip(1) =~= rest.take(k));
            assert(replacement.after_all(events.take(k + 1)) == next.after_all(rest.take(k)));
        }
        assert(next == next.after_all(rest.take(0)));
        lemma_resize_replaces(following, plan, next, rest, errno);
        assert(as_resize_actions(replacement.actions(events)) =~= seq![
            ResizeAction::Replace(replacement.next_action()),
        ] + as_resize_actions(next.actions(rest)));
    }
}

/// A replacement is not over before the last of these events.
proof fn lemma_not_over(size: usize, read: Seq<u32>, code: i32, k: int)
    requires
        forall|i: int| #![trigger read[i]] 0 <= i < read.len() ==> read[i] != 0,
        0 <= k < replacement_events(read, code).len(),
    ensures
        !((MapReplacement { size, stage: ReplacementStage::Block }).after_all(
            replacement_events(read, code).take(k),
        ).stage is Finished),
{
    let start = MapReplacement { size, stage: ReplacementStage::Block };
    let drain = MapReplacement { size, stage: ReplacementStage::Drain };
    let events = replacement_events(read, code);
    let part = events.take(k);
    if k > 0 {
        assert(part[0] == ReplacementEvent::Blocked);
        let drained = if k - 1 < read.len() {
            k - 1
        } else {
            read.len() as int
        };
        let some = read.take(drained);
        let rest = part.skip(1 + drained);
        assert forall|i: int| #![trigger some[i]] 0 <= i < some.len() implies some[i] != 0 by {
            assert(some[i] == read[i]);
        }
        assert(part.skip(1) =~= counts(some) + rest);
        lemma_drain(size, some, rest);
        reveal_with_fuel(MapReplacement::after_all, 4);
        if rest.len() > 0 {
            assert(rest[0] == ReplacementEvent::TransactionCount(0));
            if rest.len() > 1 {
                assert(rest.skip(1)[0] == ReplacementEvent::MapSizeSet(code));
            }
        }
    }
}

/// Where the disk has more free space than the map is to grow by, a resize goes on to replace the
/// map: it asks for the statistics, the information and the free space, and then, whatever the size
/// of the map, for the replacement by one of the planned size. It returns that size where the map
/// was set, after the callback, if there is one, was told of both sizes and of the size that was in
/// use. Otherwise it ends with the error of setting the map.
pub proof fn a_resize_with_space_replaces_the_map(
    resize: Resize,
    stat: Stat,
    info: Info,
    plan: ResizePlan,
    free: u64,
    read: Seq<u32>,
    code: i32,
    errno: Errno,
)
    requires
        resize.stage is ReadStat,
        resize.settings.is_valid(),
        crate::environment::plan_of(stat, info, resize.increase, resize.settings) == Ok::<
            _,
            ResizeFault,
        >(plan),
        free > plan.new_map_size - plan.old_map_size,
        forall|i: int| #![trigger read[i]] 0 <= i < read.len() ==> read[i] != 0,
    ensures
        ({
            let events = seq![
                ResizeEvent::Stat(Ok(stat)),
                ResizeEvent::Info(Ok(info)),
                ResizeEvent::FreeSpace(Ok(free)),
            ] + as_resize_events(replacement_events(read, code));
            let actions = seq![
                ResizeAction::ReadStat,
                ResizeAction::ReadInfo,
                ResizeAction::ReadFreeSpace,
            ] + as_resize_actions(replacement_actions(plan.new_map_size, read.len()));
            let end = resize.after_all(events, errno);
            &&& resize.actions(events, errno) == actions
            &&& match end.next_action() {
                ResizeAction::Notify(report) => {
                    &&& code == 0
                    &&& resize.has_callback
                    &&& report.old_size == info.map_size
                    &&& report.new_size == plan.new_map_size
                    &&& report.occupied_size_before_resize == stat.page_size * info.last_pgno
                    &&& end.after(ResizeEvent::Notified, errno).next_action()
                        == ResizeAction::Done(Ok(plan.new_map_size))
                },
                ResizeAction::Done(Ok(size)) => code == 0 && !resize.has_callback && size
                    == plan.new_map_size,
                ResizeAction::Done(Err(error)) => code != 0 && crate::error::stands_for(error, code),
                _ => false,
            }
        }),
{
    let replacement = MapReplacement {
        size: plan.new_map_size,
        stage: ReplacementStage::Block,
    };
    let tail = replacement_events(read, code);
    let events = seq![
        ResizeEvent::Stat(Ok(stat)),
        ResizeEvent::Info(Ok(info)),
        ResizeEvent::FreeSpace(Ok(free)),
    ] + as_resize_events(tail);
    let first = resize.after(events[0], errno);
    let second = first.after(events[1], errno);
    let third = second.after(events[2], errno);
    assert(third.stage == (ResizeStage::Replace { plan, replacement }));
    assert(events.skip(1)[0] == events[1]);
    assert(events.skip(1).skip(1)[0] == events[2]);
    assert(events.skip(1).skip(1).skip(1) =~= as_resize_events(tail));
    assert forall|k: int| 0 <= k < tail.len() implies !((#[trigger] replacement.after_all(
        tail.take(k),
    )).stage is Finished) by {
        lemma_not_over(plan.new_map_size, read, code, k);
    }
    lemma_resize_replaces(third, plan, replacement, tail, errno);
    the_size_that_was_given_is_set(plan.new_map_size, read, code);
    reveal_with_fuel(Resize::actions, 4);
    reveal_with_fuel(Resize::after_all, 4);
    assert(resize.actions(events, errno) =~= seq![
        ResizeAction::ReadStat,
        ResizeAction::ReadInfo,
        ResizeAction::ReadFreeSpace,
    ] + as_resize_actions(replacement_actions(plan.new_map_size, read.len())));
}

/// A resize that is worked out, but that the disk has no more free space for than it grows the map
/// by, ends with "no space left on device". Where the free space cannot be told, it ends with the
/// error number of that, or with an input/output error where there is none. It ends for no other
/// reason, and never touches the map then.
pub proof fn a_resize_without_space_ends(
    resize: Resize,
    plan: ResizePlan,
    free_space: Result<u64, Option<i32>>,
    errno: Errno,
)
    requires
        resize.is_valid(),
        resize.stage == (ResizeStage::ReadFreeSpace { plan }),
    ensures
        match resize.after(ResizeEvent::FreeSpace(free_space), errno).next_action() {
            ResizeAction::Done(Err(error)) => match free_space {
                Ok(free) => free <= plan.new_map_size - plan.old_map_size && error
                    == Error::Other(errno.enospc),
                Err(Some(code)) => error == Error::Other(code),
                Err(None) => error == Error::Other(errno.eio),
            },
            ResizeAction::Replace(action) => action == ReplacementAction::BlockTransactions
                && match free_space {
                Ok(free) => free > plan.new_map_size - plan.old_map_size,
                Err(code) => false,
            },
            _ => false,
        },
{
}

/// A resize that cannot read the statistics or the information ends with the error of that, and one
/// whose sizes do not fit the machine cannot go on.
pub proof fn a_resize_that_cannot_be_planned_ends(
    resize: Resize,
    stat: Stat,
    info: Info,
    error: Error,
    errno: Errno,
)
    requires
        resize.stage is ReadStat,
    ensures
        resize.after(ResizeEvent::Stat(Err(error)), errno).next_action() == ResizeAction::Done(
            Err(error),
        ),
        ({
            let planning = resize.after(ResizeEvent::Stat(Ok(stat)), errno);
            &&& planning.next_action() == ResizeAction::ReadInfo
            &&& planning.after(ResizeEvent::Info(Err(error)), errno).next_action()
                == ResizeAction::Done(Err(error))
            &&& planning.after(ResizeEvent::Info(Ok(info)), errno).next_action()
                == match crate::environment::plan_of(stat, info, resize.increase, resize.settings) {
                Ok(plan) => ResizeAction::ReadFreeSpace,
                Err(fault) => ResizeAction::Break(fault),
            }
        }),
{
}

/// Growing ahead of a write transaction reads the size of the map, and then whether it must grow.
/// Where it need not, nothing else is asked for, and growing ends well. Where it must, it is resized
/// by the headroom, or else by the percentage of the size that was read first.
pub proof fn growing_resizes_where_it_must(
    growth: Growth,
    initial: Info,
    stat: Stat,
    info: Info,
    asked: int,
    errno: Errno,
)
    requires
        growth.is_valid(),
        growth.stage is ReadInitialInfo,
        crate::environment::is_asked_for(
            asked,
            initial.map_size,
            growth.headroom,
            growth.settings,
        ),
        asked <= usize::MAX,
    ensures
        ({
            let first = growth.after(ResizeEvent::Info(Ok(initial)), errno);
            let second = first.after(ResizeEvent::Stat(Ok(stat)), errno);
            let third = second.after(ResizeEvent::Info(Ok(info)), errno);
            &&& growth.next_action() == GrowthAction::Resize(ResizeAction::ReadInfo)
            &&& first.next_action() == GrowthAction::Resize(ResizeAction::ReadStat)
            &&& second.next_action() == GrowthAction::Resize(ResizeAction::ReadInfo)
            &&& match crate::environment::resize_need(
                stat,
                info,
                growth.headroom,
                growth.settings.resize_trigger_fraction@,
            ) {
                Ok(false) => third.next_action() == GrowthAction::Done(Ok(())),
                Ok(true) => third.stage matches GrowthStage::Resize { target, resize } && {
                    &&& third.next_action() == GrowthAction::Resize(ResizeAction::ReadStat)
                    &&& resize.stage is ReadStat
                    &&& resize.increase == Some(asked as usize)
                    &&& resize.settings == growth.settings
                    &&& resize.has_callback == growth.has_callback
                    &&& target.initial_map_size == initial.map_size
                    &&& target.required_space == asked
                },
                Err(fault) => third.next_action() == GrowthAction::Break(fault),
            }
        }),
{
    crate::environment::a_ratio_is_a_percentage(
        initial.map_size as int,
        growth.settings.default_resize_ratio_percentage as int,
    );
}

/// While the map is resized, growing asks for what the resize asks for. Once the resize ends with a
/// size, growing ends well where the map has grown by all that was required, and asks again whether
/// it must grow where it has not. A resize that fails ends growing with its error.
pub proof fn growing_goes_on_until_the_target_is_reached(
    growth: Growth,
    resize: Resize,
    event: ResizeEvent,
    errno: Errno,
)
    requires
        growth.is_valid(),
        growth.stage matches GrowthStage::Resize { target, resize: inner } && inner == resize,
    ensures
        growth.next_action() == GrowthAction::Resize(resize.next_action()),
        growth.stage matches GrowthStage::Resize { target, resize: inner } && {
            let next = growth.after(event, errno);
            let goal = target.initial_map_size + target.required_space;
            match resize.after(event, errno).next_action() {
                ResizeAction::Done(Ok(size)) => if goal > usize::MAX {
                    next.next_action() == GrowthAction::Break(ResizeFault::TargetSizeTooLarge)
                } else if size >= goal {
                    next.next_action() == GrowthAction::Done(Ok(()))
                } else {
                    next.stage == (GrowthStage::ReadStat { target })
                },
                ResizeAction::Done(Err(error)) => next.next_action() == GrowthAction::Done(
                    Err(error),
                ),
                ResizeAction::Break(fault) => next.next_action() == GrowthAction::Break(fault),
                action => next.next_action() == GrowthAction::Resize(action) && next.stage == (
                GrowthStage::Resize { target, resize: resize.after(event, errno) }),
            }
        },
{
}

/// Growing that cannot read the statistics or the information ends with the error of that. It cannot
/// go on where not even the size that the map has at first can be read.
pub proof fn growing_that_cannot_read_ends(growth: Growth, error: Error, errno: Errno)
    requires
        growth.is_valid(),
    ensures
        growth.stage is ReadInitialInfo ==> growth.after(
            ResizeEvent::Info(Err(error)),
            errno,
        ).next_action() == GrowthAction::Break(ResizeFault::InfoUnavailable(error)),
        growth.stage is ReadStat ==> growth.after(
            ResizeEvent::Stat(Err(error)),
            errno,
        ).next_action() == GrowthAction::Done(Err(error)),
        growth.stage is ReadInfo ==> growth.after(
            ResizeEvent::Info(Err(error)),
            errno,
        ).next_action() == GrowthAction::Done(Err(error)),
{
}

/// After a round that was not enough, growing finds out again whether it must go on, and where it must
/// the map is resized by the same space as before.
pub proof fn growing_asks_again_after_each_round(
    growth: Growth,
    target: GrowthTarget,
    stat: Stat,
    info: Info,
    errno: Errno,
)
    requires
        growth.is_valid(),
        growth.stage == (GrowthStage::ReadStat { target }),
    ensures
        ({
            let second = growth.after(ResizeEvent::Stat(Ok(stat)), errno);
            let third = second.after(ResizeEvent::Info(Ok(info)), errno);
            &&& growth.next_action() == GrowthAction::Resize(ResizeAction::ReadStat)
            &&& second.next_action() == GrowthAction::Resize(ResizeAction::ReadInfo)
            &&& match crate::environment::resize_need(
                stat,
                info,
                growth.headroom,
                growth.settings.resize_trigger_fraction@,
            ) {
                Ok(false) => third.next_action() == GrowthAction::Done(Ok(())),
                Ok(true) => third.stage matches GrowthStage::Resize { target: same, resize } && {
                    &&& third.next_action() == GrowthAction::Resize(ResizeAction::ReadStat)
                    &&& same == target
                    &&& resize.stage is ReadStat
                    &&& resize.increase == Some(target.required_space)
                    &&& resize.settings == growth.settings
                    &&& resize.has_callback == growth.has_callback
                },
                Err(fault) => third.next_action() == GrowthAction::Break(fault),
            }
        }),
{
}

/// Where no headroom is asked for and the percentage of the map does not fit the machine, growing
/// cannot go on.
pub proof fn growing_by_too_much_cannot_go_on(
    growth: Growth,
    initial: Info,
    asked: int,
    errno: Errno,
)
    requires
        growth.is_valid(),
        growth.stage is ReadInitialInfo,
        crate::environment::is_asked_for(
            asked,
            initial.map_size,
            growth.headroom,
            growth.settings,
        ),
        asked > usize::MAX,
    ensures
        growth.after(ResizeEvent::Info(Ok(initial)), errno).next_action() == GrowthAction::Break(
            ResizeFault::HeadroomTooLarge,
        ),
{
    crate::environment::a_ratio_is_a_percentage(
        initial.map_size as int,
        growth.settings.default_resize_ratio_percentage as int,
    );
}

} // verus!
