//! Replacing the memory map, growing it, and growing it ahead of a write transaction.
//!
//! Each of the three is a sequence of calls into LMDB and the operating system with a decision
//! after each. What stands here says which call comes next and what follows from its outcome.

use vstd::prelude::*;

use crate::environment::{Info, ResizeFault, ResizePlan, Stat};
use crate::error::Error;
use crate::resize::{DatabaseResizeInfo, DatabaseResizeSettings};

verus! {

/// How far the replacement of the memory map has come.
#[derive(Clone, Copy, Debug, PartialEq, Eq, Structural)]
pub enum ReplacementStage {
    /// New transactions are not kept out yet.
    Block,
    /// New transactions are kept out, and live ones are waited for.
    Drain,
    /// No transaction is live, and the map can be replaced.
    Replace,
    /// The map was replaced, or not, as the result code says; transactions are still kept out.
    Unblock { code: i32 },
    /// Transactions are let in again.
    Finished { code: i32 },
}

/// What is to be done next to replace the memory map.
#[derive(Clone, Copy, Debug, PartialEq, Eq)]
pub enum ReplacementAction {
    /// Add one to the count of blockers.
    BlockTransactions,
    /// Read the count of live transactions, and let other threads run where there are some.
    ReadTransactionCount,
    /// Set the size of the memory map.
    SetMapSize(usize),
    /// Take one from the count of blockers.
    UnblockTransactions,
    /// Nothing: the replacement is over, with this result.
    Done(Result<(), Error>),
}

/// What was done to replace the memory map.
#[derive(Clone, Copy, Debug, PartialEq, Eq, Structural)]
pub enum ReplacementEvent {
    /// New transactions are kept out.
    Blocked,
    /// The count of live transactions was read.
    TransactionCount(u32),
    /// The size of the map was set, with this result code.
    MapSizeSet(i32),
    /// Transactions are let in again.
    Unblocked,
}

/// The replacement of the memory map by one of another size. Slices that a live transaction hands
/// out point into the map, so new transactions are kept out and live ones are waited for.
#[derive(Clone, Copy, Debug, PartialEq, Eq, Structural)]
pub struct MapReplacement {
    pub size: usize,
    pub stage: ReplacementStage,
}

impl MapReplacement {
    /// What is to be done at this stage.
    pub open spec fn next_action(self) -> ReplacementAction {
        match self.stage {
            ReplacementStage::Block => ReplacementAction::BlockTransactions,
            ReplacementStage::Drain => ReplacementAction::ReadTransactionCount,
            ReplacementStage::Replace => ReplacementAction::SetMapSize(self.size),
            ReplacementStage::Unblock { code } => ReplacementAction::UnblockTransactions,
            ReplacementStage::Finished { code } => ReplacementAction::Done(
                crate::error::result_of_code(code),
            ),
        }
    }

    /// The replacement after an event; one that does not answer the action changes nothing.
    pub open spec fn after(self, event: ReplacementEvent) -> MapReplacement {
        let stage = match (self.stage, event) {
            (ReplacementStage::Block, ReplacementEvent::Blocked) => ReplacementStage::Drain,
            (ReplacementStage::Drain, ReplacementEvent::TransactionCount(count)) => if count == 0 {
                ReplacementStage::Replace
            } else {
                ReplacementStage::Drain
            },
            (ReplacementStage::Replace, ReplacementEvent::MapSizeSet(
                code,
            )) => ReplacementStage::Unblock { code },
            (ReplacementStage::Unblock { code }, ReplacementEvent::Unblocked) =>
            ReplacementStage::Finished { code },
            _ => self.stage,
        };
        MapReplacement { size: self.size, stage }
    }

    /// Whether new transactions are kept out at this stage.
    pub open spec fn blocks(self) -> bool {
        self.stage is Drain || self.stage is Replace || self.stage is Unblock
    }

    /// A replacement for which nothing was done yet.
    pub fn new(size: usize) -> (replacement: MapReplacement)
        ensures
            replacement == (MapReplacement { size, stage: ReplacementStage::Block }),
    {
        MapReplacement { size, stage: ReplacementStage::Block }
    }

    /// What is to be done next.
    pub fn action(&self) -> (action: ReplacementAction)
        ensures
            action == self.next_action(),
    {
        match self.stage {
            ReplacementStage::Block => ReplacementAction::BlockTransactions,
            ReplacementStage::Drain => ReplacementAction::ReadTransactionCount,
            ReplacementStage::Replace => ReplacementAction::SetMapSize(self.size),
            ReplacementStage::Unblock { code } => ReplacementAction::UnblockTransactions,
            ReplacementStage::Finished { code } => ReplacementAction::Done(
                crate::error::lmdb_result(code),
            ),
        }
    }

    /// Takes note of what was done.
    pub fn step(&mut self, event: ReplacementEvent)
        ensures
            *final(self) == old(self).after(event),
    {
        self.stage = match (self.stage, event) {
            (ReplacementStage::Block, ReplacementEvent::Blocked) => ReplacementStage::Drain,
            (ReplacementStage::Drain, ReplacementEvent::TransactionCount(count)) => {
                if crate::transaction_guard::TransactionGuard::wait_for_transactions_to_finish(
                    count,
                ) {
                    ReplacementStage::Replace
                } else {
                    ReplacementStage::Drain
                }
            },
            (ReplacementStage::Replace, ReplacementEvent::MapSizeSet(
                code,
            )) => ReplacementStage::Unblock { code },
            (ReplacementStage::Unblock { code }, ReplacementEvent::Unblocked) =>
            ReplacementStage::Finished { code },
            (stage, _) => stage,
        };
    }
}

/// The error numbers that a resize reports in its own name.
#[derive(Clone, Copy, Debug, PartialEq, Eq, Structural)]
pub struct Errno {
    /// "No space left on device".
    pub enospc: i32,
    /// "Input/output error".
    pub eio: i32,
}

impl Errno {
    /// Whether some system has these numbers.
    pub open spec fn is_of_a_system(self) -> bool {
        crate::system::is_enospc(self.enospc) && crate::system::is_eio(self.eio)
    }

    /// The numbers of this system.
    pub fn of_this_system() -> (errno: Errno)
        ensures
            errno.is_of_a_system(),
    {
        Errno { enospc: crate::system::enospc(), eio: crate::system::eio() }
    }
}

/// Whether the disk can back a resize, given the free space on it or else the error number, if
/// any, that asking for it failed with.
pub open spec fn space_for(
    plan: ResizePlan,
    free_space: Result<u64, Option<i32>>,
    errno: Errno,
) -> Result<(), Error> {
    match free_space {
        Err(Some(code)) => Err(Error::Other(code)),
        Err(None) => Err(Error::Other(errno.eio)),
        Ok(free) => if free <= plan.new_map_size - plan.old_map_size {
            Err(Error::Other(errno.enospc))
        } else {
            Ok(())
        },
    }
}

/// Checks that the disk can back a resize.
pub fn check_space(
    plan: &ResizePlan,
    free_space: Result<u64, Option<i32>>,
    errno: &Errno,
) -> (result: Result<(), Error>)
    requires
        plan.old_map_size <= plan.new_map_size,
    ensures
        result == space_for(*plan, free_space, *errno),
{
    match free_space {
        Err(Some(code)) => Err(Error::Other(code)),
        Err(None) => Err(Error::Other(errno.eio)),
        Ok(free) => {
            let final_increase: u64 = (plan.new_map_size - plan.old_map_size) as u64;
            if free <= final_increase {
                Err(Error::Other(errno.enospc))
            } else {
                Ok(())
            }
        },
    }
}

/// How far a resize has come.
#[derive(Clone, Copy, Debug, PartialEq, Eq)]
pub enum ResizeStage {
    /// Nothing is known of the environment.
    ReadStat,
    /// The statistics are known.
    ReadInfo { stat: Stat },
    /// The new size is worked out.
    ReadFreeSpace { plan: ResizePlan },
    /// The disk has the space, and the map is being replaced.
    Replace { plan: ResizePlan, replacement: MapReplacement },
    /// The map was replaced and transactions are let in again; the callback is to run.
    Notify { plan: ResizePlan },
    /// The resize is over, with this result: the new size of the map.
    Finished { result: Result<usize, Error> },
    /// The resize cannot go on.
    Broken { fault: ResizeFault },
}

/// What is to be done next for a resize.
#[derive(Clone, Copy, Debug)]
pub enum ResizeAction {
    /// Read the statistics of the environment.
    ReadStat,
    /// Read the information on the environment.
    ReadInfo,
    /// Ask for the free space on the disk.
    ReadFreeSpace,
    /// Do this to replace the map.
    Replace(ReplacementAction),
    /// Run the callback.
    Notify(DatabaseResizeInfo),
    /// Nothing: the resize is over, with this result.
    Done(Result<usize, Error>),
    /// Nothing: the resize cannot go on.
    Break(ResizeFault),
}

/// What was done for a resize.
#[derive(Clone, Copy, Debug, PartialEq, Eq)]
pub enum ResizeEvent {
    /// The statistics of the environment were read.
    Stat(Result<Stat, Error>),
    /// The information on the environment was read.
    Info(Result<Info, Error>),
    /// The free space on the disk was asked for; where that failed, the error number, if any.
    FreeSpace(Result<u64, Option<i32>>),
    /// This was done to replace the map.
    Replacement(ReplacementEvent),
    /// The callback ran.
    Notified,
}

/// A resize of the memory map: works out the new size, checks that the disk can back it, replaces
/// the map, and runs the callback where there is one.
#[derive(Clone, Copy, Debug)]
pub struct Resize {
    pub increase: Option<usize>,
    pub settings: DatabaseResizeSettings,
    pub has_callback: bool,
    pub stage: ResizeStage,
}

impl ResizePlan {
    /// What the callback is told of a resize.
    pub open spec fn report(self) -> DatabaseResizeInfo {
        DatabaseResizeInfo {
            old_size: self.old_map_size as u64,
            new_size: self.new_map_size as u64,
            occupied_size_before_resize: self.occupied_size as u64,
        }
    }
}

impl Resize {
    /// The plan that the map is being replaced by, or was replaced by.
    pub open spec fn plan_in_hand(self) -> Option<ResizePlan> {
        match self.stage {
            ResizeStage::Replace { plan, replacement } => Some(plan),
            ResizeStage::Notify { plan } => Some(plan),
            _ => None,
        }
    }

    /// Whether a plan makes the map larger, by at least the smallest step.
    pub open spec fn is_plan(self, plan: ResizePlan) -> bool {
        plan.old_map_size + self.settings.min_resize_step <= plan.new_map_size
    }

    /// Whether the settings can be used, and the plan and the replacement are those of this
    /// resize.
    pub open spec fn is_valid(self) -> bool {
        &&& self.settings.is_valid()
        &&& match self.stage {
            ResizeStage::ReadFreeSpace { plan } => self.is_plan(plan),
            ResizeStage::Replace { plan, replacement } => {
                &&& self.is_plan(plan)
                &&& replacement.size == plan.new_map_size
                &&& !(replacement.stage is Finished)
            },
            ResizeStage::Notify { plan } => self.is_plan(plan),
            _ => true,
        }
    }

    /// What is to be done at this stage.
    pub open spec fn next_action(self) -> ResizeAction {
        match self.stage {
            ResizeStage::ReadStat => ResizeAction::ReadStat,
            ResizeStage::ReadInfo { stat } => ResizeAction::ReadInfo,
            ResizeStage::ReadFreeSpace { plan } => ResizeAction::ReadFreeSpace,
            ResizeStage::Replace { plan, replacement } => ResizeAction::Replace(
                replacement.next_action(),
            ),
            ResizeStage::Notify { plan } => ResizeAction::Notify(plan.report()),
            ResizeStage::Finished { result } => ResizeAction::Done(result),
            ResizeStage::Broken { fault } => ResizeAction::Break(fault),
        }
    }

    /// The stage after an event; one that does not answer the action changes nothing.
    pub open spec fn stage_after(self, event: ResizeEvent, errno: Errno) -> ResizeStage {
        match (self.stage, event) {
            (ResizeStage::ReadStat, ResizeEvent::Stat(reply)) => match reply {
                Ok(stat) => ResizeStage::ReadInfo { stat },
                Err(error) => ResizeStage::Finished { result: Err(error) },
            },
            (ResizeStage::ReadInfo { stat }, ResizeEvent::Info(reply)) => match reply {
                Ok(info) => match crate::environment::plan_of(
                    stat,
                    info,
                    self.increase,
                    self.settings,
                ) {
                    Ok(plan) => ResizeStage::ReadFreeSpace { plan },
                    Err(fault) => ResizeStage::Broken { fault },
                },
                Err(error) => ResizeStage::Finished { result: Err(error) },
            },
            (ResizeStage::ReadFreeSpace { plan }, ResizeEvent::FreeSpace(reply)) => match space_for(
                plan,
                reply,
                errno,
            ) {
                Ok(()) => ResizeStage::Replace {
                    plan,
                    replacement: MapReplacement {
                        size: plan.new_map_size,
                        stage: ReplacementStage::Block,
                    },
                },
                Err(error) => ResizeStage::Finished { result: Err(error) },
            },
            (ResizeStage::Replace { plan, replacement }, ResizeEvent::Replacement(
                event,
            )) => match replacement.after(event).next_action() {
                ReplacementAction::Done(Ok(())) => if self.has_callback {
                    ResizeStage::Notify { plan }
                } else {
                    ResizeStage::Finished { result: Ok(plan.new_map_size) }
                },
                ReplacementAction::Done(Err(error)) => ResizeStage::Finished {
                    result: Err(error),
                },
                _ => ResizeStage::Replace { plan, replacement: replacement.after(event) },
            },
            (ResizeStage::Notify { plan }, ResizeEvent::Notified) => ResizeStage::Finished {
                result: Ok(plan.new_map_size),
            },
            _ => self.stage,
        }
    }

    /// The resize after an event.
    pub open spec fn after(self, event: ResizeEvent, errno: Errno) -> Resize {
        Resize {
            increase: self.increase,
            settings: self.settings,
            has_callback: self.has_callback,
            stage: self.stage_after(event, errno),
        }
    }

    /// A resize for which nothing was done yet. Where no increase is given, the ratio of the
    /// settings gives it.
    pub fn new(
        increase: Option<usize>,
        settings: DatabaseResizeSettings,
        has_callback: bool,
    ) -> (resize: Resize)
        requires
            settings.is_valid(),
        ensures
            resize == (Resize { increase, settings, has_callback, stage: ResizeStage::ReadStat }),
            resize.is_valid(),
    {
        Resize { increase, settings, has_callback, stage: ResizeStage::ReadStat }
    }

    /// What is to be done next.
    pub fn action(&self) -> (action: ResizeAction)
        ensures
            action == self.next_action(),
    {
        match self.stage {
            ResizeStage::ReadStat => ResizeAction::ReadStat,
            ResizeStage::ReadInfo { stat } => ResizeAction::ReadInfo,
            ResizeStage::ReadFreeSpace { plan } => ResizeAction::ReadFreeSpace,
            ResizeStage::Replace { plan, replacement } => ResizeAction::Replace(
                replacement.action(),
            ),
            ResizeStage::Notify { plan } => ResizeAction::Notify(
                DatabaseResizeInfo {
                    old_size: plan.old_map_size as u64,
                    new_size: plan.new_map_size as u64,
                    occupied_size_before_resize: plan.occupied_size as u64,
                },
            ),
            ResizeStage::Finished { result } => ResizeAction::Done(result),
            ResizeStage::Broken { fault } => ResizeAction::Break(fault),
        }
    }

    /// Takes note of what was done, with the error numbers of this system.
    pub fn step(&mut self, event: ResizeEvent)
        requires
            old(self).is_valid(),
        ensures
            final(self).is_valid(),
            exists|errno: Errno|
                #![trigger old(self).after(event, errno)]
                errno.is_of_a_system() && *final(self) == old(self).after(event, errno),
    {
        let errno = Errno::of_this_system();
        self.step_with(event, &errno);
    }

    /// Takes note of what was done.
    pub fn step_with(&mut self, event: ResizeEvent, errno: &Errno)
        requires
            old(self).is_valid(),
        ensures
            final(self).is_valid(),
            *final(self) == old(self).after(event, *errno),
    {
        self.stage = match (self.stage, event) {
            (ResizeStage::ReadStat, ResizeEvent::Stat(reply)) => match reply {
                Ok(stat) => ResizeStage::ReadInfo { stat },
                Err(error) => ResizeStage::Finished { result: Err(error) },
            },
            (ResizeStage::ReadInfo { stat }, ResizeEvent::Info(reply)) => match reply {
                Ok(info) => match crate::environment::plan_resize(
                    &stat,
                    &info,
                    self.increase,
                    &self.settings,
                ) {
                    Ok(plan) => {
                        proof {
                            crate::environment::resize_grows_within_steps(
                                stat,
                                info,
                                self.increase,
                                self.settings,
                                plan,
                            );
                        }
                        ResizeStage::ReadFreeSpace { plan }
                    },
                    Err(fault) => ResizeStage::Broken { fault },
                },
                Err(error) => ResizeStage::Finished { result: Err(error) },
            },
            (ResizeStage::ReadFreeSpace { plan }, ResizeEvent::FreeSpace(
                reply,
            )) => match check_space(&plan, reply, errno) {
                Ok(()) => ResizeStage::Replace {
                    plan,
                    replacement: MapReplacement::new(plan.new_map_size),
                },
                Err(error) => ResizeStage::Finished { result: Err(error) },
            },
            (ResizeStage::Replace { plan, replacement }, ResizeEvent::Replacement(event)) => {
                let mut replacement = replacement;
                replacement.step(event);
                match replacement.action() {
                    ReplacementAction::Done(Ok(())) => if self.has_callback {
                        ResizeStage::Notify { plan }
                    } else {
                        ResizeStage::Finished { result: Ok(plan.new_map_size) }
                    },
                    ReplacementAction::Done(Err(error)) => ResizeStage::Finished {
                        result: Err(error),
                    },
                    _ => ResizeStage::Replace { plan, replacement },
                }
            },
            (ResizeStage::Notify { plan }, ResizeEvent::Notified) => ResizeStage::Finished {
                result: Ok(plan.new_map_size),
            },
            (stage, _) => stage,
        };
    }
}

/// What growing ahead of a write transaction is after: the size of the map when it began, and the
/// space that is to be added to it.
#[derive(Clone, Copy, Debug, PartialEq, Eq, Structural)]
pub struct GrowthTarget {
    pub initial_map_size: usize,
    pub required_space: usize,
}

/// How far growing ahead of a write transaction has come.
#[derive(Clone, Copy, Debug)]
pub enum GrowthStage {
    /// Nothing is known of the environment.
    ReadInitialInfo,
    /// The target is known, and the need is to be found out.
    ReadStat { target: GrowthTarget },
    /// The statistics are known too.
    ReadInfo { target: GrowthTarget, stat: Stat },
    /// The map must grow, and is being resized.
    Resize { target: GrowthTarget, resize: Resize },
    /// Growing is over, with this result.
    Finished { result: Result<(), Error> },
    /// Growing cannot go on.
    Broken { fault: ResizeFault },
}

/// What is to be done next for growing ahead of a write transaction.
#[derive(Clone, Copy, Debug)]
pub enum GrowthAction {
    /// Do this.
    Resize(ResizeAction),
    /// Nothing: growing is over, with this result.
    Done(Result<(), Error>),
    /// Nothing: growing cannot go on.
    Break(ResizeFault),
}

/// Growing the memory map ahead of a write transaction: as long as it is needed, and until the map
/// has grown by the required space.
#[derive(Clone, Copy, Debug)]
pub struct Growth {
    pub headroom: Option<usize>,
    pub settings: DatabaseResizeSettings,
    pub has_callback: bool,
    pub stage: GrowthStage,
}

impl Growth {
    /// Whether a target is that of this growth: the headroom, or else what the ratio gives.
    pub open spec fn is_target(self, target: GrowthTarget) -> bool {
        match self.headroom {
            Some(size) => target.required_space == size,
            None => target.required_space == crate::environment::ratio_headroom(
                target.initial_map_size as int,
                self.settings.default_resize_ratio_percentage as int,
            ),
        }
    }

    /// The resize that is made towards a target.
    pub open spec fn resize_towards(self, target: GrowthTarget) -> Resize {
        Resize {
            increase: Some(target.required_space),
            settings: self.settings,
            has_callback: self.has_callback,
            stage: ResizeStage::ReadStat,
        }
    }

    /// Whether the settings can be used, and the target and the resize are those of this growth.
    pub open spec fn is_valid(self) -> bool {
        &&& self.settings.is_valid()
        &&& match self.stage {
            GrowthStage::ReadStat { target } => self.is_target(target),
            GrowthStage::ReadInfo { target, stat } => self.is_target(target),
            GrowthStage::Resize { target, resize } => {
                &&& self.is_target(target)
                &&& resize.is_valid()
                &&& resize.settings == self.settings
                &&& resize.increase == Some(target.required_space)
                &&& resize.has_callback == self.has_callback
                &&& !(resize.stage is Finished)
                &&& !(resize.stage is Broken)
            },
            _ => true,
        }
    }

    /// What is to be done at this stage.
    pub open spec fn next_action(self) -> GrowthAction {
        match self.stage {
            GrowthStage::ReadInitialInfo => GrowthAction::Resize(ResizeAction::ReadInfo),
            GrowthStage::ReadStat { target } => GrowthAction::Resize(ResizeAction::ReadStat),
            GrowthStage::ReadInfo { target, stat } => GrowthAction::Resize(ResizeAction::ReadInfo),
            GrowthStage::Resize { target, resize } => GrowthAction::Resize(resize.next_action()),
            GrowthStage::Finished { result } => GrowthAction::Done(result),
            GrowthStage::Broken { fault } => GrowthAction::Break(fault),
        }
    }

    /// The stage once the size of the map when growing began is known.
    pub open spec fn stage_from(self, info: Info) -> GrowthStage {
        let ratio = self.settings.default_resize_ratio_percentage as int;
        match self.headroom {
            Some(size) => GrowthStage::ReadStat {
                target: GrowthTarget { initial_map_size: info.map_size, required_space: size },
            },
            None => {
                let size = crate::environment::ratio_headroom(info.map_size as int, ratio);
                if size > usize::MAX {
                    GrowthStage::Broken { fault: ResizeFault::HeadroomTooLarge }
                } else {
                    GrowthStage::ReadStat {
                        target: GrowthTarget {
                            initial_map_size: info.map_size,
                            required_space: size as usize,
                        },
                    }
                }
            },
        }
    }

    /// The stage after a resize towards a target came to a stage.
    pub open spec fn stage_of_resize(self, target: GrowthTarget, resize: Resize) -> GrowthStage {
        match resize.stage {
            ResizeStage::Finished { result: Ok(new_map_size) } => {
                let goal = target.required_space + target.initial_map_size;
                if goal > usize::MAX {
                    GrowthStage::Broken { fault: ResizeFault::TargetSizeTooLarge }
                } else if new_map_size >= goal {
                    GrowthStage::Finished { result: Ok(()) }
                } else {
                    GrowthStage::ReadStat { target }
                }
            },
            ResizeStage::Finished { result: Err(error) } => GrowthStage::Finished {
                result: Err(error),
            },
            ResizeStage::Broken { fault } => GrowthStage::Broken { fault },
            _ => GrowthStage::Resize { target, resize },
        }
    }

    /// The stage after an event; one that does not answer the action changes nothing.
    pub open spec fn stage_after(self, event: ResizeEvent, errno: Errno) -> GrowthStage {
        match (self.stage, event) {
            (GrowthStage::ReadInitialInfo, ResizeEvent::Info(reply)) => match reply {
                Ok(info) => self.stage_from(info),
                Err(error) => GrowthStage::Broken { fault: ResizeFault::InfoUnavailable(error) },
            },
            (GrowthStage::ReadStat { target }, ResizeEvent::Stat(reply)) => match reply {
                Ok(stat) => GrowthStage::ReadInfo { target, stat },
                Err(error) => GrowthStage::Finished { result: Err(error) },
            },
            (GrowthStage::ReadInfo { target, stat }, ResizeEvent::Info(reply)) => match reply {
                Ok(info) => match crate::environment::resize_need(
                    stat,
                    info,
                    self.headroom,
                    self.settings.resize_trigger_fraction@,
                ) {
                    Ok(true) => GrowthStage::Resize {
                        target,
                        resize: self.resize_towards(target),
                    },
                    Ok(false) => GrowthStage::Finished { result: Ok(()) },
                    Err(fault) => GrowthStage::Broken { fault },
                },
                Err(error) => GrowthStage::Finished { result: Err(error) },
            },
            (GrowthStage::Resize { target, resize }, _) => self.stage_of_resize(
                target,
                resize.after(event, errno),
            ),
            _ => self.stage,
        }
    }

    /// The growth after an event.
    pub open spec fn after(self, event: ResizeEvent, errno: Errno) -> Growth {
        Growth {
            headroom: self.headroom,
            settings: self.settings,
            has_callback: self.has_callback,
            stage: self.stage_after(event, errno),
        }
    }

    /// A growth for which nothing was done yet.
    pub fn new(
        headroom: Option<usize>,
        settings: DatabaseResizeSettings,
        has_callback: bool,
    ) -> (growth: Growth)
        requires
            settings.is_valid(),
        ensures
            growth == (Growth {
                headroom,
                settings,
                has_callback,
                stage: GrowthStage::ReadInitialInfo,
            }),
            growth.is_valid(),
    {
        Growth { headroom, settings, has_callback, stage: GrowthStage::ReadInitialInfo }
    }

    /// What is to be done next.
    pub fn action(&self) -> (action: GrowthAction)
        ensures
            action == self.next_action(),
    {
        match self.stage {
            GrowthStage::ReadInitialInfo => GrowthAction::Resize(ResizeAction::ReadInfo),
            GrowthStage::ReadStat { target } => GrowthAction::Resize(ResizeAction::ReadStat),
            GrowthStage::ReadInfo { target, stat } => GrowthAction::Resize(ResizeAction::ReadInfo),
            GrowthStage::Resize { target, resize } => GrowthAction::Resize(resize.action()),
            GrowthStage::Finished { result } => GrowthAction::Done(result),
            GrowthStage::Broken { fault } => GrowthAction::Break(fault),
        }
    }

    /// Takes note of what was done, with the error numbers of this system.
    pub fn step(&mut self, event: ResizeEvent)
        requires
            old(self).is_valid(),
        ensures
            final(self).is_valid(),
            exists|errno: Errno|
                #![trigger old(self).after(event, errno)]
                errno.is_of_a_system() && *final(self) == old(self).after(event, errno),
    {
        let errno = Errno::of_this_system();
        self.step_with(event, &errno);
    }

    /// Takes note of what was done.
    pub fn step_with(&mut self, event: ResizeEvent, errno: &Errno)
        requires
            old(self).is_valid(),
        ensures
            final(self).is_valid(),
            *final(self) == old(self).after(event, *errno),
    {
        self.stage = match (self.stage, event) {
            (GrowthStage::ReadInitialInfo, ResizeEvent::Info(reply)) => match reply {
                Ok(info) => self.begin(&info),
                Err(error) => GrowthStage::Broken { fault: ResizeFault::InfoUnavailable(error) },
            },
            (GrowthStage::ReadStat { target }, ResizeEvent::Stat(reply)) => match reply {
                Ok(stat) => GrowthStage::ReadInfo { target, stat },
                Err(error) => GrowthStage::Finished { result: Err(error) },
            },
            (GrowthStage::ReadInfo { target, stat }, ResizeEvent::Info(reply)) => match reply {
                Ok(info) => match crate::environment::needs_resize(
                    &stat,
                    &info,
                    self.headroom,
                    &self.settings,
                ) {
                    Ok(true) => GrowthStage::Resize {
                        target,
                        resize: Resize::new(
                            Some(target.required_space),
                            self.settings,
                            self.has_callback,
                        ),
                    },
                    Ok(false) => GrowthStage::Finished { result: Ok(()) },
                    Err(fault) => GrowthStage::Broken { fault },
                },
                Err(error) => GrowthStage::Finished { result: Err(error) },
            },
            (GrowthStage::Resize { target, resize }, _) => {
                let mut resize = resize;
                resize.step_with(event, errno);
                match resize.stage {
                    ResizeStage::Finished { result: Ok(new_map_size) } => {
                        match target.required_space.checked_add(target.initial_map_size) {
                            Some(goal) => if new_map_size >= goal {
                                GrowthStage::Finished { result: Ok(()) }
                            } else {
                                GrowthStage::ReadStat { target }
                            },
                            None => GrowthStage::Broken { fault: ResizeFault::TargetSizeTooLarge },
                        }
                    },
                    ResizeStage::Finished { result: Err(error) } => GrowthStage::Finished {
                        result: Err(error),
                    },
                    ResizeStage::Broken { fault } => GrowthStage::Broken { fault },
                    _ => GrowthStage::Resize { target, resize },
                }
            },
            (stage, _) => stage,
        };
    }

    /// Sets the target from the size of the map when growing begins.
    fn begin(&self, info: &Info) -> (stage: GrowthStage)
        ensures
            stage == self.stage_from(*info),
    {
        let required_space: usize = match self.headroom {
            Some(size) => size,
            None => match crate::environment::checked_headroom_from_ratio(
                info.map_size(),
                self.settings.default_resize_ratio_percentage,
            ) {
                Some(size) => size,
                None => {
                    return GrowthStage::Broken { fault: ResizeFault::HeadroomTooLarge };
                },
            },
        };
        GrowthStage::ReadStat {
            target: GrowthTarget { initial_map_size: info.map_size(), required_space },
        }
    }
}

/// A replacement comes to replacing the map only by reading that no transaction is live, while new
/// ones are kept out.
pub proof fn replacement_waits_for_transactions(
    replacement: MapReplacement,
    event: ReplacementEvent,
)
    requires
        !(replacement.stage is Replace),
        replacement.after(event).stage is Replace,
    ensures
        event == ReplacementEvent::TransactionCount(0),
        replacement.blocks(),
        replacement.after(event).blocks(),
{
}

/// A replacement is over only once its block is lifted, whether the map was replaced or not, and
/// ends with the outcome of replacing the map.
pub proof fn replacement_ends_with_the_block_lifted(
    replacement: MapReplacement,
    event: ReplacementEvent,
)
    requires
        !(replacement.stage is Finished),
        replacement.after(event).stage is Finished,
    ensures
        event == ReplacementEvent::Unblocked,
        replacement.stage matches ReplacementStage::Unblock { code } && replacement.after(
            event,
        ).next_action() == ReplacementAction::Done(crate::error::result_of_code(code)),
        !replacement.after(event).blocks(),
{
}

/// The map is replaced only where the disk has more free space than the map is to grow by.
pub proof fn replacement_is_backed_by_the_disk(resize: Resize, event: ResizeEvent, errno: Errno)
    requires
        resize.is_valid(),
        !(resize.stage is Replace),
        resize.after(event, errno).stage is Replace,
    ensures
        resize.stage matches ResizeStage::ReadFreeSpace { plan } && event
            matches ResizeEvent::FreeSpace(Ok(free)) && plan.new_map_size - plan.old_map_size
            < free && resize.after(event, errno).stage == (ResizeStage::Replace {
            plan,
            replacement: MapReplacement {
                size: plan.new_map_size,
                stage: ReplacementStage::Block,
            },
        }),
{
}

/// The callback runs once the map has its new size and transactions are let in again, and only
/// where setting the size succeeded.
pub proof fn callback_runs_after_the_block_is_lifted(
    resize: Resize,
    event: ResizeEvent,
    errno: Errno,
)
    requires
        resize.is_valid(),
        !(resize.stage is Notify),
        resize.after(event, errno).stage is Notify,
    ensures
        resize.has_callback,
        event == ResizeEvent::Replacement(ReplacementEvent::Unblocked),
        resize.stage matches ResizeStage::Replace { plan, replacement }
            && replacement == (MapReplacement {
            size: plan.new_map_size,
            stage: ReplacementStage::Unblock { code: crate::error::MDB_SUCCESS },
        }) && resize.after(event, errno).stage == (ResizeStage::Notify { plan }),
{
}

/// Growing ends well only where the map has room: either the headroom fits beside what is in use
/// and the trigger is not crossed, or the map was enlarged by all the space that was required.
pub proof fn growth_ends_with_room(growth: Growth, event: ResizeEvent, errno: Errno)
    requires
        growth.is_valid(),
        !(growth.stage is Finished),
        growth.after(event, errno).stage == (GrowthStage::Finished { result: Ok(()) }),
    ensures
        match growth.stage {
            GrowthStage::ReadInfo { target, stat } => event matches ResizeEvent::Info(Ok(info)) && {
                let used = crate::environment::occupied_size(stat, info);
                &&& growth.headroom matches Some(size) ==> used + size <= info.map_size
                &&& !crate::float::fill_exceeds(
                    used,
                    info.map_size as int,
                    growth.settings.resize_trigger_fraction@,
                )
            },
            GrowthStage::Resize { target, resize } => {
                &&& resize.after(event, errno).stage matches ResizeStage::Finished {
                    result: Ok(size),
                }
                &&& target.initial_map_size + target.required_space <= size
                &&& growth.headroom matches Some(headroom) ==> target.initial_map_size + headroom
                    <= size
            },
            _ => false,
        },
{
}

/// Where no headroom is asked for, growing resizes the map only where the occupied part of it
/// crosses the trigger.
pub proof fn growth_without_headroom_crosses_the_trigger(
    growth: Growth,
    event: ResizeEvent,
    errno: Errno,
)
    requires
        growth.is_valid(),
        growth.headroom is None,
        !(growth.stage is Resize),
        growth.after(event, errno).stage is Resize,
    ensures
        growth.stage matches GrowthStage::ReadInfo { target, stat } && event
            matches ResizeEvent::Info(Ok(info)) && crate::float::fill_exceeds(
            crate::environment::occupied_size(stat, info),
            info.map_size as int,
            growth.settings.resize_trigger_fraction@,
        ),
{
}

/// A round of growing that does not end it makes the map larger by at least the smallest step, and
/// leaves it short of the target. So only so many rounds can follow one another as smallest steps
/// fit into the required space.
pub proof fn growth_makes_progress(
    growth: Growth,
    target: GrowthTarget,
    resize: Resize,
    event: ResizeEvent,
    errno: Errno,
)
    requires
        growth.is_valid(),
        growth.stage == (GrowthStage::Resize { target, resize }),
        growth.after(event, errno).stage is ReadStat,
    ensures
        growth.after(event, errno).stage == (GrowthStage::ReadStat { target }),
        0 < growth.settings.min_resize_step,
        resize.plan_in_hand() matches Some(plan) && plan.old_map_size
            + growth.settings.min_resize_step <= plan.new_map_size && plan.new_map_size
            < target.initial_map_size + target.required_space,
{
}

} // verus!
