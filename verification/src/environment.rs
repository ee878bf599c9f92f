//! Environments: how they are configured, what LMDB reports of them, and what is worked out from
//! that of their memory map.

use vstd::prelude::*;

use crate::cursor::{Call, Cursor, MDB_NEXT};
use crate::database::{DatabaseOpening, DatabaseStage};
use crate::error::Error;
use crate::flags::{DatabaseFlags, EnvironmentFlags};
use crate::float::Binary32;
use crate::freelist::{Freelist, FreelistError, FreelistStep};
use crate::opening::{Opening, OpeningStage};
use crate::resize::DatabaseResizeSettings;
use crate::resizing::{Growth, GrowthStage, MapReplacement, ReplacementStage, Resize, ResizeStage};
use crate::transaction_guard::{GuardStage, TransactionGuard};

verus! {

/// Environment statistics: the size and layout of an LMDB environment or database.
#[derive(Clone, Copy, Debug, PartialEq, Eq, Structural)]
pub struct Stat {
    pub page_size: u32,
    pub depth: u32,
    pub branch_pages: usize,
    pub leaf_pages: usize,
    pub overflow_pages: usize,
    pub entries: usize,
}

impl Stat {
    /// Size of a database page. This is the same for all databases in the environment.
    pub fn page_size(&self) -> (size: u32)
        ensures
            size == self.page_size,
    {
        self.page_size
    }

    /// Depth (height) of the B-tree.
    pub fn depth(&self) -> (depth: u32)
        ensures
            depth == self.depth,
    {
        self.depth
    }

    /// Number of internal (non-leaf) pages.
    pub fn branch_pages(&self) -> (pages: usize)
        ensures
            pages == self.branch_pages,
    {
        self.branch_pages
    }

    /// Number of leaf pages.
    pub fn leaf_pages(&self) -> (pages: usize)
        ensures
            pages == self.leaf_pages,
    {
        self.leaf_pages
    }

    /// Number of overflow pages.
    pub fn overflow_pages(&self) -> (pages: usize)
        ensures
            pages == self.overflow_pages,
    {
        self.overflow_pages
    }

    /// Number of data items.
    pub fn entries(&self) -> (entries: usize)
        ensures
            entries == self.entries,
    {
        self.entries
    }
}

/// Environment information: the map size, the readers, the last transaction and so on.
#[derive(Clone, Copy, Debug, PartialEq, Eq, Structural)]
pub struct Info {
    pub map_size: usize,
    pub last_pgno: usize,
    pub last_txnid: usize,
    pub max_readers: u32,
    pub num_readers: u32,
}

impl Info {
    /// Size of memory map.
    pub fn map_size(&self) -> (size: usize)
        ensures
            size == self.map_size,
    {
        self.map_size
    }

    /// Last used page number.
    pub fn last_pgno(&self) -> (pgno: usize)
        ensures
            pgno == self.last_pgno,
    {
        self.last_pgno
    }

    /// Last transaction ID.
    pub fn last_txnid(&self) -> (txnid: usize)
        ensures
            txnid == self.last_txnid,
    {
        self.last_txnid
    }

    /// Max reader slots in the environment.
    pub fn max_readers(&self) -> (readers: u32)
        ensures
            readers == self.max_readers,
    {
        self.max_readers
    }

    /// Max reader slots used in the environment.
    pub fn num_readers(&self) -> (readers: u32)
        ensures
            readers == self.num_readers,
    {
        self.num_readers
    }
}

/// A size that does not fit the machine, or a report that LMDB cannot have made: the environment
/// or its settings are wrong, and resizing cannot go on.
#[derive(Clone, Copy, Debug, PartialEq, Eq, Structural)]
pub enum ResizeFault {
    /// The environment did not report the size of its map.
    InfoUnavailable(Error),
    /// The headroom that the resize ratio asks for does not fit.
    HeadroomTooLarge,
    /// The occupied size does not fit.
    OccupiedSizeTooLarge,
    /// The occupied size and the requested headroom together do not fit.
    NeededSizeTooLarge,
    /// The size of the map and its increase together do not fit.
    NewSizeTooLarge,
    /// The page size is zero.
    PageSizeZero,
    /// The new size does not fit once it is rounded up to whole pages.
    RoundedSizeTooLarge,
    /// The size of the map at the start and the required space together do not fit.
    TargetSizeTooLarge,
}

/// A resize that is worked out but not done.
#[derive(Clone, Copy, Debug, PartialEq, Eq, Structural)]
pub struct ResizePlan {
    pub old_map_size: usize,
    pub new_map_size: usize,
    pub occupied_size: usize,
}

/// The space that `ratio` percent of the map takes.
pub open spec fn ratio_headroom(map_size: int, ratio: int) -> int {
    map_size * ratio / 100
}

/// The size that the pages in use take.
pub open spec fn occupied_size(stat: Stat, info: Info) -> int {
    stat.page_size * info.last_pgno
}

/// The value nearest to `size` that is at least `least` and at most `most`.
pub open spec fn clamped(size: int, least: int, most: int) -> int {
    if size < least {
        least
    } else if size > most {
        most
    } else {
        size
    }
}

/// The least whole number of pages that holds `size`.
pub open spec fn in_whole_pages(size: int, page: int) -> int {
    if size % page == 0 {
        size
    } else {
        size + (page - size % page)
    }
}

/// By how much a map is to grow: what is asked for, or else what the ratio gives, within the
/// steps.
pub open spec fn planned_increase(
    map_size: int,
    increase: Option<usize>,
    settings: DatabaseResizeSettings,
) -> int {
    let asked = match increase {
        Some(size) => size as int,
        None => ratio_headroom(map_size, settings.default_resize_ratio_percentage as int),
    };
    clamped(asked, settings.min_resize_step as int, settings.max_resize_step as int)
}

/// The size of a map after it grew by `increase`, in whole pages, and never the same as before.
pub open spec fn grown_size(map_size: int, increase: int, page: int) -> int {
    let grown = in_whole_pages(map_size + increase, page);
    if grown == map_size {
        grown + page
    } else {
        grown
    }
}

/// The resize of a map that is reported as `stat` and `info`.
pub open spec fn plan_of(
    stat: Stat,
    info: Info,
    increase: Option<usize>,
    settings: DatabaseResizeSettings,
) -> Result<ResizePlan, ResizeFault> {
    let old = info.map_size as int;
    let page = stat.page_size as int;
    let step = planned_increase(old, increase, settings);
    if increase is None && ratio_headroom(old, settings.default_resize_ratio_percentage as int)
        > usize::MAX {
        Err(ResizeFault::HeadroomTooLarge)
    } else if occupied_size(stat, info) > usize::MAX {
        Err(ResizeFault::OccupiedSizeTooLarge)
    } else if old + step > usize::MAX {
        Err(ResizeFault::NewSizeTooLarge)
    } else if page == 0 {
        Err(ResizeFault::PageSizeZero)
    } else if grown_size(old, step, page) > usize::MAX {
        Err(ResizeFault::RoundedSizeTooLarge)
    } else {
        Ok(
            ResizePlan {
                old_map_size: info.map_size,
                new_map_size: grown_size(old, step, page) as usize,
                occupied_size: occupied_size(stat, info) as usize,
            },
        )
    }
}

/// Whether a map that is reported as `stat` and `info` must grow: the headroom and the occupied
/// size do not fit it, or its occupied part is above the trigger.
pub open spec fn resize_need(
    stat: Stat,
    info: Info,
    headroom: Option<usize>,
    trigger: Binary32,
) -> Result<bool, ResizeFault> {
    let used = occupied_size(stat, info);
    if used > usize::MAX {
        Err(ResizeFault::OccupiedSizeTooLarge)
    } else if headroom matches Some(size) && size + used > usize::MAX {
        Err(ResizeFault::NeededSizeTooLarge)
    } else if headroom matches Some(size) && info.map_size < size + used {
        Ok(true)
    } else {
        Ok(crate::float::fill_exceeds(used, info.map_size as int, trigger))
    }
}

/// The space that `resize_ratio` percent of the map takes.
pub fn headroom_from_ratio(current_map_size: usize, resize_ratio: u32) -> (headroom: usize)
    requires
        ratio_headroom(current_map_size as int, resize_ratio as int) <= usize::MAX,
    ensures
        headroom == ratio_headroom(current_map_size as int, resize_ratio as int),
{
    proof {
        lemma_ratio_product(current_map_size, resize_ratio);
    }
    ((current_map_size as u128 * resize_ratio as u128) / 100) as usize
}

/// The space that `resize_ratio` percent of the map takes, or nothing where it does not fit.
pub fn checked_headroom_from_ratio(current_map_size: usize, resize_ratio: u32) -> (headroom: Option<
    usize,
>)
    ensures
        match headroom {
            Some(size) => size == ratio_headroom(current_map_size as int, resize_ratio as int),
            None => ratio_headroom(current_map_size as int, resize_ratio as int) > usize::MAX,
        },
{
    proof {
        lemma_ratio_product(current_map_size, resize_ratio);
    }
    if (current_map_size as u128 * resize_ratio as u128) / 100 <= usize::MAX as u128 {
        Some(headroom_from_ratio(current_map_size, resize_ratio))
    } else {
        None
    }
}

proof fn lemma_ratio_product(map_size: usize, ratio: u32)
    ensures
        0 <= map_size * ratio <= u64::MAX * u32::MAX,
{
    assert(0 <= map_size * ratio <= u64::MAX * u32::MAX) by (nonlinear_arith)
        requires
            0 <= map_size <= u64::MAX,
            0 <= ratio <= u32::MAX,
    ;
}

/// The size that the pages in use take, or nothing where it does not fit. It does not count data
/// that is yet to be committed, so it is right at the beginning of a transaction only.
pub fn map_occupied_size(info: &Info, stat: &Stat) -> (size: Option<usize>)
    ensures
        match size {
            Some(size) => size == occupied_size(*stat, *info),
            None => occupied_size(*stat, *info) > usize::MAX,
        },
{
    (stat.page_size() as usize).checked_mul(info.last_pgno())
}

/// Rounds a size up to whole pages, or gives nothing where the result does not fit.
fn round_up(size: usize, page: usize) -> (rounded: Option<usize>)
    requires
        page > 0,
    ensures
        match rounded {
            Some(rounded) => rounded == in_whole_pages(size as int, page as int),
            None => in_whole_pages(size as int, page as int) > usize::MAX,
        },
{
    let rest: usize = size % page;
    if rest != 0 {
        size.checked_add(page - rest)
    } else {
        Some(size)
    }
}

/// Works out the resize of a map that is reported as `stat` and `info`.
pub fn plan_resize(
    stat: &Stat,
    info: &Info,
    increase: Option<usize>,
    settings: &DatabaseResizeSettings,
) -> (plan: Result<ResizePlan, ResizeFault>)
    requires
        settings.is_valid(),
    ensures
        plan == plan_of(*stat, *info, increase, *settings),
{
    let page: usize = stat.page_size() as usize;
    let old_map_size: usize = info.map_size();
    let asked: usize = match increase {
        Some(size) => size,
        None => match checked_headroom_from_ratio(
            old_map_size,
            settings.default_resize_ratio_percentage,
        ) {
            Some(size) => size,
            None => {
                return Err(ResizeFault::HeadroomTooLarge);
            },
        },
    };
    let step: usize = if asked < settings.min_resize_step {
        settings.min_resize_step
    } else if asked > settings.max_resize_step {
        settings.max_resize_step
    } else {
        asked
    };
    let occupied: usize = match map_occupied_size(info, stat) {
        Some(size) => size,
        None => {
            return Err(ResizeFault::OccupiedSizeTooLarge);
        },
    };
    let exact_size: usize = match old_map_size.checked_add(step) {
        Some(size) => size,
        None => {
            return Err(ResizeFault::NewSizeTooLarge);
        },
    };
    if page == 0 {
        return Err(ResizeFault::PageSizeZero);
    }
    let rounded: usize = match round_up(exact_size, page) {
        Some(size) => size,
        None => {
            return Err(ResizeFault::RoundedSizeTooLarge);
        },
    };
    // A map that is asked to keep its size grows by a page, so that no caller keeps retrying.
    let new_map_size: usize = if rounded == old_map_size {
        match rounded.checked_add(page) {
            Some(size) => size,
            None => {
                return Err(ResizeFault::RoundedSizeTooLarge);
            },
        }
    } else {
        rounded
    };
    Ok(ResizePlan { old_map_size, new_map_size, occupied_size: occupied })
}

/// Checks whether a resize is needed under two conditions:
/// 1. The headroom and the currently used size together don't fit in the map.
/// 2. The used fraction of the map crosses the trigger fraction.
pub fn needs_resize(
    stat: &Stat,
    info: &Info,
    headroom: Option<usize>,
    settings: &DatabaseResizeSettings,
) -> (needed: Result<bool, ResizeFault>)
    ensures
        needed == resize_need(*stat, *info, headroom, settings.resize_trigger_fraction@),
{
    let size_used: usize = match map_occupied_size(info, stat) {
        Some(size) => size,
        None => {
            return Err(ResizeFault::OccupiedSizeTooLarge);
        },
    };
    if let Some(given_headroom) = headroom {
        match given_headroom.checked_add(size_used) {
            Some(size) => {
                if info.map_size() < size {
                    return Ok(true);
                }
            },
            None => {
                return Err(ResizeFault::NeededSizeTooLarge);
            },
        }
    }
    let trigger = settings.resize_trigger_fraction.as_f32();
    Ok(crate::float::fill_fraction_exceeds(size_used, info.map_size(), &trigger))
}

/// Every resize ends on a whole number of pages, makes the map larger, by at least the smallest
/// step, and by less than a page more than the step that was worked out. So the increase is within
/// the largest step too, where the map and that step are whole numbers of pages.
pub proof fn resize_grows_within_steps(
    stat: Stat,
    info: Info,
    increase: Option<usize>,
    settings: DatabaseResizeSettings,
    plan: ResizePlan,
)
    requires
        settings.is_valid(),
        plan_of(stat, info, increase, settings) == Ok::<_, ResizeFault>(plan),
    ensures
        plan.old_map_size == info.map_size,
        plan.new_map_size % (stat.page_size as usize) == 0,
        plan.new_map_size > plan.old_map_size,
        plan.new_map_size - plan.old_map_size >= settings.min_resize_step,
        plan.new_map_size - plan.old_map_size < planned_increase(
            info.map_size as int,
            increase,
            settings,
        ) + stat.page_size,
        info.map_size % (stat.page_size as usize) == 0 && settings.max_resize_step % (
        stat.page_size as usize) == 0 ==> plan.new_map_size - plan.old_map_size
            <= settings.max_resize_step,
{
    let old = info.map_size as int;
    let page = stat.page_size as int;
    let step = planned_increase(old, increase, settings);
    let exact = old + step;
    lemma_whole_pages(exact, page);
    let most = old + settings.max_resize_step;
    if old % page == 0 && settings.max_resize_step as int % page == 0 {
        vstd::arithmetic::div_mod::lemma_mod_adds(old, settings.max_resize_step as int, page);
        assert(most % page == 0);
        lemma_whole_pages_bound(exact, most, page);
    }
}

/// Rounding up to whole pages gives the least whole number of pages that is not less.
proof fn lemma_whole_pages(size: int, page: int)
    requires
        0 <= size,
        0 < page,
    ensures
        in_whole_pages(size, page) % page == 0,
        size <= in_whole_pages(size, page) < size + page,
{
    let rest = size % page;
    if rest != 0 {
        let rounded = size + (page - rest);
        vstd::arithmetic::div_mod::lemma_fundamental_div_mod(size, page);
        assert(rounded == page * (size / page + 1)) by (nonlinear_arith)
            requires
                size == page * (size / page) + rest,
                rounded == size + (page - rest),
        ;
        vstd::arithmetic::div_mod::lemma_mod_multiples_basic(size / page + 1, page);
        assert(page * (size / page + 1) == (size / page + 1) * page) by (nonlinear_arith);
    }
}

/// No whole number of pages lies between a size and the size rounded up.
proof fn lemma_whole_pages_bound(size: int, bound: int, page: int)
    requires
        0 <= size <= bound,
        0 < page,
        bound % page == 0,
    ensures
        in_whole_pages(size, page) <= bound,
{
    lemma_whole_pages(size, page);
    let rounded = in_whole_pages(size, page);
    if rounded > bound {
        let a = rounded / page;
        let b = bound / page;
        vstd::arithmetic::div_mod::lemma_fundamental_div_mod(rounded, page);
        vstd::arithmetic::div_mod::lemma_fundamental_div_mod(bound, page);
        assert(false) by (nonlinear_arith)
            requires
                rounded == page * a,
                bound == page * b,
                0 < rounded - bound < page,
        ;
    }
}

/// With a trigger of one, a fill level alone never asks for a resize: only headroom that does not
/// fit does.
pub proof fn trigger_of_one_needs_headroom(
    stat: Stat,
    info: Info,
    headroom: Option<usize>,
    trigger: Binary32,
)
    requires
        trigger.value() == vstd::arithmetic::power2::pow2(149),
        !trigger.is_nan(),
        0 < info.map_size,
        occupied_size(stat, info) <= info.map_size,
        headroom matches Some(size) ==> size + occupied_size(stat, info) <= usize::MAX,
    ensures
        resize_need(stat, info, headroom, trigger) == Ok::<bool, ResizeFault>(
            headroom matches Some(size) && info.map_size < size + occupied_size(stat, info),
        ),
{
    let used = occupied_size(stat, info);
    let total = info.map_size as int;
    assert(0 <= used) by (nonlinear_arith)
        requires
            used == stat.page_size * info.last_pgno,
    ;
    assert forall|fraction: Binary32| #[trigger]
        crate::float::is_fill_fraction(fraction, used, total) implies fraction.value()
        <= trigger.value() by {
        crate::float::fill_fraction_is_at_most_one(fraction, used, total);
    }
}

/// With a trigger of zero, a resize is asked for as soon as anything at all is stored.
pub proof fn trigger_of_zero_always_resizes(
    stat: Stat,
    info: Info,
    headroom: Option<usize>,
    trigger: Binary32,
)
    requires
        trigger.value() == 0,
        !trigger.is_nan(),
        0 < info.map_size,
        0 < occupied_size(stat, info) <= usize::MAX,
        headroom matches Some(size) ==> size + occupied_size(stat, info) <= usize::MAX,
    ensures
        resize_need(stat, info, headroom, trigger) == Ok::<bool, ResizeFault>(true),
{
    let used = occupied_size(stat, info);
    let total = info.map_size as int;
    let fraction = crate::float::fill_fraction_exists(used, total);
    crate::float::fill_fraction_of_something_is_positive(fraction, used, total);
}

/// An LMDB environment: what was configured of it and outlives its opening.
///
/// An environment supports multiple databases, all residing in the same shared-memory map. `F` is
/// the type of the resize callback.
pub struct Environment<F> {
    pub resize_callback: Option<F>,
    pub resize_settings: Option<DatabaseResizeSettings>,
}

/// Options for opening or creating an environment.
pub struct EnvironmentBuilder<F> {
    pub flags: EnvironmentFlags,
    pub max_readers: Option<u32>,
    pub max_dbs: Option<u32>,
    pub map_size: Option<usize>,
    pub resize_callback: Option<F>,
    pub resize_settings: Option<DatabaseResizeSettings>,
}

/// Whether settings, where they are given, can be used.
pub open spec fn are_usable(settings: Option<DatabaseResizeSettings>) -> bool {
    settings matches Some(settings) ==> settings.is_valid()
}

/// Whether these settings are in effect: those that were given, or else the default.
pub open spec fn are_in_effect(
    settings: DatabaseResizeSettings,
    given: Option<DatabaseResizeSettings>,
) -> bool {
    match given {
        Some(given) => settings == given,
        None => settings.is_default(),
    }
}

impl<F> EnvironmentBuilder<F> {
    /// The environment that is configured, once it is open.
    pub open spec fn environment(self) -> Environment<F> {
        Environment { resize_callback: self.resize_callback, resize_settings: self.resize_settings }
    }

    /// The calls that open the environment at a path with these permissions.
    pub open spec fn opening(self, path: Seq<u8>, mode: u32) -> Opening {
        Opening {
            flags: self.flags,
            max_readers: self.max_readers,
            max_dbs: self.max_dbs,
            map_size: self.map_size,
            mode,
            path_is_usable: !path.contains(0u8),
            stage: OpeningStage::Create,
        }
    }

    /// Opens an environment.
    ///
    /// On UNIX, the database files will be opened with 644 permissions.
    ///
    /// The path may not contain the null character.
    pub fn open(self, path: &[u8]) -> (opened: (Opening, Environment<F>))
        ensures
            opened.0 == self.opening(path@, 0o644),
            opened.1 == self.environment(),
    {
        self.open_with_permissions(path, 0o644)
    }

    /// Opens an environment with the provided UNIX permissions.
    ///
    /// The path may not contain the null character.
    pub fn open_with_permissions(self, path: &[u8], mode: u32) -> (opened: (
        Opening,
        Environment<F>,
    ))
        ensures
            opened.0 == self.opening(path@, mode),
            opened.1 == self.environment(),
    {
        let opening = Opening {
            flags: self.flags,
            max_readers: self.max_readers,
            max_dbs: self.max_dbs,
            map_size: self.map_size,
            mode,
            path_is_usable: !crate::database::has_null(path),
            stage: OpeningStage::Create,
        };
        let environment = Environment {
            resize_callback: self.resize_callback,
            resize_settings: self.resize_settings,
        };
        (opening, environment)
    }

    /// Sets the provided options in the environment.
    pub fn set_flags(self, flags: EnvironmentFlags) -> (builder: EnvironmentBuilder<F>)
        ensures
            builder == (EnvironmentBuilder { flags, ..self }),
    {
        EnvironmentBuilder { flags, ..self }
    }

    /// Sets the maximum number of threads or reader slots for the environment.
    pub fn set_max_readers(self, max_readers: u32) -> (builder: EnvironmentBuilder<F>)
        ensures
            builder == (EnvironmentBuilder { max_readers: Some(max_readers), ..self }),
    {
        EnvironmentBuilder { max_readers: Some(max_readers), ..self }
    }

    /// Sets the maximum number of named databases for the environment.
    pub fn set_max_dbs(self, max_dbs: u32) -> (builder: EnvironmentBuilder<F>)
        ensures
            builder == (EnvironmentBuilder { max_dbs: Some(max_dbs), ..self }),
    {
        EnvironmentBuilder { max_dbs: Some(max_dbs), ..self }
    }

    /// Sets the size of the memory map to use for the environment. It should be a multiple of the
    /// OS page size, and is also the maximum size of the database.
    pub fn set_map_size(self, map_size: usize) -> (builder: EnvironmentBuilder<F>)
        ensures
            builder == (EnvironmentBuilder { map_size: Some(map_size), ..self }),
    {
        EnvironmentBuilder { map_size: Some(map_size), ..self }
    }

    /// Sets the function that will be called when a database resize happens: by `do_resize`, or
    /// ahead of a write transaction. `set_map_size` does not run it.
    ///
    /// It runs on the thread that drove the resize, after the map was replaced and new transactions
    /// are let in again. So it may begin a read-only transaction. That thread still holds the lock on
    /// resizing, so to set the size of the map, to resize or to begin a write transaction from inside
    /// the callback blocks for good.
    pub fn set_resize_callback(self, callback: Option<F>) -> (builder: EnvironmentBuilder<F>)
        ensures
            builder == (EnvironmentBuilder { resize_callback: callback, ..self }),
    {
        EnvironmentBuilder { resize_callback: callback, ..self }
    }

    /// Sets the settings that control when and how resize happens. `validate` tells whether they
    /// can be used.
    pub fn set_resize_settings(self, settings: DatabaseResizeSettings) -> (builder:
        EnvironmentBuilder<F>)
        requires
            settings.is_valid(),
        ensures
            builder == (EnvironmentBuilder { resize_settings: Some(settings), ..self }),
            are_usable(builder.resize_settings),
    {
        EnvironmentBuilder { resize_settings: Some(settings), ..self }
    }
}

impl<F> Environment<F> {
    /// Creates a new builder for specifying options for opening an LMDB environment.
    pub fn new() -> (builder: EnvironmentBuilder<F>)
        ensures
            builder == (EnvironmentBuilder::<F> {
                flags: EnvironmentFlags { bits: 0 },
                max_readers: None,
                max_dbs: None,
                map_size: None,
                resize_callback: None,
                resize_settings: None,
            }),
    {
        EnvironmentBuilder {
            flags: EnvironmentFlags::empty(),
            max_readers: None,
            max_dbs: None,
            map_size: None,
            resize_callback: None,
            resize_settings: None,
        }
    }

    /// The settings in effect.
    fn settings(&self) -> (settings: DatabaseResizeSettings)
        requires
            are_usable(self.resize_settings),
        ensures
            are_in_effect(settings, self.resize_settings),
            settings.is_valid(),
    {
        match self.resize_settings {
            Some(settings) => settings,
            None => DatabaseResizeSettings::make_default(),
        }
    }

    /// Opens a handle to an LMDB database: the default one, or the named one where a name is given.
    ///
    /// The database name may not contain the null character.
    pub fn open_db(&self, name: Option<&str>) -> (opening: DatabaseOpening)
        ensures
            opening == (DatabaseOpening {
                name_is_usable: crate::database::is_name(name),
                creation: None,
                stage: DatabaseStage::Begin,
            }),
    {
        let name_is_usable = crate::database::Database::check_name(name).is_ok();
        DatabaseOpening { name_is_usable, creation: None, stage: DatabaseStage::Begin }
    }

    /// Opens a handle to an LMDB database, creating the database if necessary. If the database is
    /// already created, the given option flags will be added to it.
    ///
    /// The database name may not contain the null character.
    pub fn create_db(&self, name: Option<&str>, flags: DatabaseFlags) -> (opening: DatabaseOpening)
        ensures
            opening == (DatabaseOpening {
                name_is_usable: crate::database::is_name(name),
                creation: Some(flags),
                stage: DatabaseStage::Begin,
            }),
    {
        let name_is_usable = crate::database::Database::check_name(name).is_ok();
        DatabaseOpening { name_is_usable, creation: Some(flags), stage: DatabaseStage::Begin }
    }

    /// The set of flags that a database is opened with, given the result code and the bits that
    /// LMDB reports. There is nothing where a bit is among them that no database can have.
    pub fn get_db_flags(code: i32, bits: u32) -> (flags: Result<Option<DatabaseFlags>, Error>)
        ensures
            flags == match crate::error::result_of_code(code) {
                Ok(()) => Ok(
                    if bits & !crate::flags::DATABASE_FLAGS == 0 {
                        Some(DatabaseFlags { bits })
                    } else {
                        None
                    },
                ),
                Err(error) => Err(error),
            },
    {
        match crate::error::lmdb_result(code) {
            Ok(()) => Ok(DatabaseFlags::from_bits(bits)),
            Err(error) => Err(error),
        }
    }

    /// Begins a read-only transaction: it has to go live first.
    pub fn begin_ro_txn(&self) -> (guard: TransactionGuard)
        ensures
            guard.stage == GuardStage::Announce,
    {
        TransactionGuard::new()
    }

    /// Begins a read-write transaction: the map has to grow first, where that is needed for the
    /// headroom or because the map is too full.
    pub fn begin_rw_txn(&self, headroom: Option<usize>) -> (growth: Growth)
        requires
            are_usable(self.resize_settings),
        ensures
            growth.is_valid(),
            growth.headroom == headroom,
            are_in_effect(growth.settings, self.resize_settings),
            growth.has_callback == self.resize_callback is Some,
            growth.stage == GrowthStage::ReadInitialInfo,
    {
        self.begin_rw_txn_generic(headroom, false, false).0
    }

    /// Begins a read-write transaction, with flags that affect this transaction only. With
    /// `no_sync` a system crash may undo an already committed transaction or corrupt the database,
    /// with `no_meta_sync` it may undo an already committed transaction. Flags of the environment
    /// cannot be undone here.
    pub fn begin_rw_txn_generic(
        &self,
        headroom: Option<usize>,
        no_sync: bool,
        no_meta_sync: bool,
    ) -> (begun: (Growth, u32))
        requires
            are_usable(self.resize_settings),
        ensures
            begun.0.is_valid(),
            begun.0.headroom == headroom,
            are_in_effect(begun.0.settings, self.resize_settings),
            begun.0.has_callback == self.resize_callback is Some,
            begun.0.stage == GrowthStage::ReadInitialInfo,
            begun.1 == crate::flags::txn_flags(no_sync, no_meta_sync),
    {
        let growth = Growth::new(headroom, self.settings(), self.resize_callback.is_some());
        (growth, crate::flags::rw_txn_flags(no_sync, no_meta_sync))
    }

    /// The outcome of flushing data buffers to disk, given the result code.
    pub fn sync(code: i32) -> (result: Result<(), Error>)
        ensures
            result == crate::error::result_of_code(code),
    {
        crate::error::lmdb_result(code)
    }

    /// The statistics about this environment, given the result code and what LMDB reports.
    pub fn stat(code: i32, stat: Stat) -> (result: Result<Stat, Error>)
        ensures
            result == match crate::error::result_of_code(code) {
                Ok(()) => Ok(stat),
                Err(error) => Err(error),
            },
    {
        match crate::error::lmdb_result(code) {
            Ok(()) => Ok(stat),
            Err(error) => Err(error),
        }
    }

    /// The info about this environment, given the result code and what LMDB reports.
    pub fn info(code: i32, info: Info) -> (result: Result<Info, Error>)
        ensures
            result == match crate::error::result_of_code(code) {
                Ok(()) => Ok(info),
                Err(error) => Err(error),
            },
    {
        match crate::error::lmdb_result(code) {
            Ok(()) => Ok(info),
            Err(error) => Err(error),
        }
    }

    /// Retrieves the total number of pages on the freelist, given a new cursor on the freelist
    /// database.
    ///
    /// The lists are read one after another, and each is counted. The first one that cannot be read,
    /// or that is too short to hold a number, ends it with an error.
    pub fn freelist<'txn, C: Cursor<'txn>>(&self, cursor: &mut C) -> (result: Result<
        usize,
        FreelistError,
    >)
        ensures
            exists|calls: Seq<Call<'txn>>, einval: i32|
                {
                    &&& final(cursor).calls() == old(cursor).calls() + calls
                    &&& crate::system::is_einval(einval)
                    &&& #[trigger] crate::freelist::is_outcome(calls, einval, result)
                },
    {
        let ghost before = cursor.calls();
        let ghost mut calls: Seq<Call<'txn>> = Seq::empty();
        let einval: i32 = crate::system::einval();
        let mut freelist = Freelist::new();
        let mut seen: usize = 0;
        assert(crate::cursor::call_items(calls, einval) =~= Seq::empty());
        assert(before + calls =~= before);
        while seen < usize::MAX
            invariant
                cursor.calls() == before + calls,
                calls.len() == seen,
                forall|i: int|
                    #![trigger calls[i]]
                    0 <= i < calls.len() ==> crate::cursor::is_step(calls[i], MDB_NEXT),
                crate::freelist::run_of(crate::cursor::call_items(calls, einval))
                    == crate::freelist::FreelistRun::Counting(freelist),
                before == old(cursor).calls(),
                crate::system::is_einval(einval),
            decreases usize::MAX - seen,
        {
            let reply = cursor.cursor_get(None, None, MDB_NEXT);
            let item = crate::cursor::item_of(&reply, einval);
            proof {
                let items = crate::cursor::call_items(calls, einval);
                let call = crate::cursor::step(MDB_NEXT, reply);
                assert(cursor.calls() =~= before + calls.push(call));
                calls = calls.push(call);
                assert(crate::cursor::call_items(calls, einval) =~= items.push(item));
                assert(items.push(item).drop_last() =~= items);
            }
            if let FreelistStep::Done(result) = freelist.count(item) {
                assert(crate::freelist::is_outcome(calls, einval, result));
                return result;
            }
            seen += 1;
        }
        assert(crate::freelist::is_outcome(calls, einval, Err(FreelistError::TooManyLists)));
        Err(FreelistError::TooManyLists)
    }

    /// Sets the size of the memory map to use for the environment.
    ///
    /// Live transactions are waited out before the map is replaced. So this blocks for good where
    /// the calling thread holds a transaction, or where any thread that holds one begins another.
    pub fn set_map_size(&self, size: usize) -> (replacement: MapReplacement)
        ensures
            replacement == (MapReplacement { size, stage: ReplacementStage::Block }),
    {
        MapReplacement::new(size)
    }

    /// Resizes the memory map, by as much as is asked for or else by the ratio of the settings, and
    /// within their steps. It blocks as `set_map_size` does.
    pub fn do_resize(&self, increase_size: Option<usize>) -> (resize: Resize)
        requires
            are_usable(self.resize_settings),
        ensures
            resize.is_valid(),
            resize.increase == increase_size,
            are_in_effect(resize.settings, self.resize_settings),
            resize.has_callback == self.resize_callback is Some,
            resize.stage == ResizeStage::ReadStat,
    {
        Resize::new(increase_size, self.settings(), self.resize_callback.is_some())
    }
}

/// Whether this is the space that is asked for: what is given, or else the given percentage of the
/// map, rounded down.
pub open spec fn is_asked_for(
    asked: int,
    map_size: usize,
    increase: Option<usize>,
    settings: DatabaseResizeSettings,
) -> bool {
    match increase {
        Some(size) => asked == size,
        None => 100 * asked <= map_size * settings.default_resize_ratio_percentage < 100 * asked
            + 100,
    }
}

/// The space that a ratio gives is that percentage of the map, rounded down. A hundred percent is the
/// whole map.
pub proof fn a_ratio_is_a_percentage(map_size: int, ratio: int)
    requires
        0 <= map_size,
        0 <= ratio,
    ensures
        100 * ratio_headroom(map_size, ratio) <= map_size * ratio < 100 * ratio_headroom(
            map_size,
            ratio,
        ) + 100,
        ratio_headroom(map_size, 100) == map_size,
{
    let product = map_size * ratio;
    assert(0 <= product) by (nonlinear_arith)
        requires
            0 <= map_size,
            0 <= ratio,
            product == map_size * ratio,
    ;
    assert(100 * (product / 100) <= product < 100 * (product / 100) + 100);
    assert(map_size * 100 / 100 == map_size);
}

/// A map that is resized gets the least whole number of pages that holds its size and the step that
/// is nearest to what is asked for. The plan reports the size that it has, and the size that the
/// pages in use take.
pub proof fn a_resize_is_the_step_in_whole_pages(
    stat: Stat,
    info: Info,
    increase: Option<usize>,
    settings: DatabaseResizeSettings,
    asked: int,
    step: int,
    plan: ResizePlan,
)
    requires
        settings.is_valid(),
        plan_of(stat, info, increase, settings) == Ok::<_, ResizeFault>(plan),
        is_asked_for(asked, info.map_size, increase, settings),
        crate::resize::is_step_for(step, asked, settings),
    ensures
        plan.old_map_size == info.map_size,
        plan.occupied_size == stat.page_size * info.last_pgno,
        plan.new_map_size % (stat.page_size as usize) == 0,
        info.map_size + step <= plan.new_map_size < info.map_size + step + stat.page_size,
{
    let old = info.map_size as int;
    let page = stat.page_size as int;
    a_ratio_is_a_percentage(old, settings.default_resize_ratio_percentage as int);
    assert(step == planned_increase(old, increase, settings));
    lemma_whole_pages(old + step, page);
}

/// Every resize whose sizes fit the machine is planned. It cannot go on just where the percentage of
/// the map, the size that the pages in use take, or every whole number of pages that holds the map
/// and the step is too large, or where pages have no size.
pub proof fn every_resize_that_fits_is_planned(
    stat: Stat,
    info: Info,
    increase: Option<usize>,
    settings: DatabaseResizeSettings,
    asked: int,
    step: int,
)
    requires
        settings.is_valid(),
        is_asked_for(asked, info.map_size, increase, settings),
        crate::resize::is_step_for(step, asked, settings),
    ensures
        match plan_of(stat, info, increase, settings) {
            Ok(plan) => {
                &&& asked <= usize::MAX
                &&& stat.page_size * info.last_pgno <= usize::MAX
                &&& 0 < stat.page_size
                &&& info.map_size + step <= usize::MAX
            },
            Err(ResizeFault::HeadroomTooLarge) => increase is None && asked > usize::MAX,
            Err(ResizeFault::OccupiedSizeTooLarge) => stat.page_size * info.last_pgno > usize::MAX,
            Err(ResizeFault::NewSizeTooLarge) => info.map_size + step > usize::MAX,
            Err(ResizeFault::PageSizeZero) => stat.page_size == 0,
            Err(ResizeFault::RoundedSizeTooLarge) => forall|size: int|
                #![trigger size % (stat.page_size as int)]
                size % (stat.page_size as int) == 0 && info.map_size + step <= size ==> size
                    > usize::MAX,
            Err(fault) => false,
        },
{
    let old = info.map_size as int;
    let page = stat.page_size as int;
    a_ratio_is_a_percentage(old, settings.default_resize_ratio_percentage as int);
    assert(step == planned_increase(old, increase, settings));
    if page > 0 {
        lemma_whole_pages(old + step, page);
        assert forall|size: int|
            #![trigger size % page]
            size % page == 0 && old + step <= size implies in_whole_pages(old + step, page)
            <= size by {
            lemma_whole_pages_bound(old + step, size, page);
        }
    }
}

/// A map must grow where the headroom that is asked for does not fit beside the pages in use. Where
/// it does fit, or none is asked for, the fill level alone decides.
pub proof fn headroom_that_does_not_fit_needs_a_resize(
    stat: Stat,
    info: Info,
    headroom: Option<usize>,
    trigger: Binary32,
)
    requires
        stat.page_size * info.last_pgno <= usize::MAX,
        headroom matches Some(size) ==> size + stat.page_size * info.last_pgno <= usize::MAX,
    ensures
        ({
            let used = stat.page_size * info.last_pgno;
            let fits = headroom matches Some(size) ==> size + used <= info.map_size;
            &&& !fits ==> resize_need(stat, info, headroom, trigger) == Ok::<bool, ResizeFault>(
                true,
            )
            &&& fits ==> resize_need(stat, info, headroom, trigger) == Ok::<bool, ResizeFault>(
                crate::float::fill_exceeds(used, info.map_size as int, trigger),
            )
        }),
{
}

/// Whether a map must grow can be told unless the sizes do not fit the machine.
pub proof fn a_need_is_told_unless_sizes_do_not_fit(
    stat: Stat,
    info: Info,
    headroom: Option<usize>,
    trigger: Binary32,
)
    ensures
        match resize_need(stat, info, headroom, trigger) {
            Ok(needed) => true,
            Err(ResizeFault::OccupiedSizeTooLarge) => stat.page_size * info.last_pgno > usize::MAX,
            Err(ResizeFault::NeededSizeTooLarge) => headroom matches Some(size) && size
                + stat.page_size * info.last_pgno > usize::MAX,
            Err(fault) => false,
        },
{
}

/// Settings that were given are the ones in effect.
pub proof fn given_settings_are_in_effect(
    settings: DatabaseResizeSettings,
    given: Option<DatabaseResizeSettings>,
)
    requires
        are_in_effect(settings, given),
        are_usable(given),
    ensures
        settings.is_valid(),
        given matches Some(given) ==> settings == given,
        given is None ==> settings.min_resize_step == 256 * 1024 * 1024 && settings.max_resize_step
            == 8 * settings.min_resize_step && settings.default_resize_ratio_percentage == 100
            && settings.resize_trigger_fraction@.is_nearest(9, 10),
{
    if given is None {
        crate::resize::default_settings_double_the_map(settings);
    }
}

/// An environment is opened with just the options that its builder was given, at the path and with
/// the permissions that were asked for: each option by one call where it was given, and by none
/// where it was not, and the files last.
pub proof fn an_environment_is_opened_as_configured<F>(
    builder: EnvironmentBuilder<F>,
    path: Seq<u8>,
    mode: u32,
)
    ensures
        ({
            let calls = builder.opening(path, mode).calls_that_succeed(6);
            let usable = forall|i: int| 0 <= i < path.len() ==> #[trigger] path[i] != 0;
            &&& calls.len() > 0
            &&& calls[0] == crate::opening::OpeningAction::Create
            &&& forall|n: u32|
                #[trigger] calls.contains(crate::opening::OpeningAction::SetMaxReaders(n))
                    <==> builder.max_readers == Some(n)
            &&& forall|n: u32|
                #[trigger] calls.contains(crate::opening::OpeningAction::SetMaxDbs(n))
                    <==> builder.max_dbs == Some(n)
            &&& forall|n: usize|
                #[trigger] calls.contains(crate::opening::OpeningAction::SetMapSize(n))
                    <==> builder.map_size == Some(n)
            &&& forall|flags: u32, permissions: u32|
                #[trigger] calls.contains(crate::opening::OpeningAction::Open(flags, permissions))
                    <==> usable && flags == builder.flags.bits && permissions == mode
            &&& usable ==> calls.last() == crate::opening::OpeningAction::Open(
                builder.flags.bits,
                mode,
            )
            &&& builder.environment().resize_callback == builder.resize_callback
            &&& builder.environment().resize_settings == builder.resize_settings
        }),
{
    let opening = builder.opening(path, mode);
    crate::opening::opening_makes_the_configured_calls(opening, 6);
    let create = seq![crate::opening::OpeningAction::Create];
    let readers = crate::opening::setting(
        match opening.max_readers {
            Some(n) => Some(crate::opening::OpeningAction::SetMaxReaders(n)),
            None => None,
        },
    );
    let dbs = crate::opening::setting(
        match opening.max_dbs {
            Some(n) => Some(crate::opening::OpeningAction::SetMaxDbs(n)),
            None => None,
        },
    );
    let size = crate::opening::setting(
        match opening.map_size {
            Some(n) => Some(crate::opening::OpeningAction::SetMapSize(n)),
            None => None,
        },
    );
    let open = crate::opening::setting(
        if opening.path_is_usable {
            Some(crate::opening::OpeningAction::Open(opening.flags.bits, opening.mode))
        } else {
            None
        },
    );
    let calls = opening.calls_that_succeed(6);
    assert(calls == create + readers + dbs + size + open);
    assert forall|call: crate::opening::OpeningAction| #[trigger]
        calls.contains(call) <==> create.contains(call) || readers.contains(call) || dbs.contains(
            call,
        ) || size.contains(call) || open.contains(call) by {
        lemma_in_one(create, readers, call);
        lemma_in_one(create + readers, dbs, call);
        lemma_in_one(create + readers + dbs, size, call);
        lemma_in_one(create + readers + dbs + size, open, call);
    }
    assert(create[0] == crate::opening::OpeningAction::Create);
    if let Some(n) = opening.max_readers {
        assert(readers[0] == crate::opening::OpeningAction::SetMaxReaders(n));
    }
    if let Some(n) = opening.max_dbs {
        assert(dbs[0] == crate::opening::OpeningAction::SetMaxDbs(n));
    }
    if let Some(n) = opening.map_size {
        assert(size[0] == crate::opening::OpeningAction::SetMapSize(n));
    }
    if opening.path_is_usable {
        assert(open[0] == crate::opening::OpeningAction::Open(opening.flags.bits, opening.mode));
    }
}

/// What is in two sequences together is in one of them.
proof fn lemma_in_one<A>(a: Seq<A>, b: Seq<A>, x: A)
    ensures
        (a + b).contains(x) <==> a.contains(x) || b.contains(x),
{
    let whole = a + b;
    if a.contains(x) {
        let i = choose|i: int| 0 <= i < a.len() && a[i] == x;
        assert(whole[i] == x);
    }
    if b.contains(x) {
        let i = choose|i: int| 0 <= i < b.len() && b[i] == x;
        assert(whole[a.len() + i] == x);
    }
    if whole.contains(x) {
        let i = choose|i: int| 0 <= i < whole.len() && whole[i] == x;
        if i < a.len() {
            assert(a[i] == x);
        } else {
            assert(b[i - a.len()] == x);
        }
    }
}

} // verus!
