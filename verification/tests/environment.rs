//! Environments: opening them, growing their memory maps, and keeping transactions and the
//! replacement of the map apart. LMDB and the disk are stood in for by plain values.

use std::collections::BTreeMap;

use lmdb::cursor::{CallRecord, CursorReply, MDB_NEXT};
use lmdb::database::{DatabaseAction, DatabaseEvent, DatabaseOpening};
use lmdb::environment::{
    checked_headroom_from_ratio, headroom_from_ratio, map_occupied_size, needs_resize, plan_resize,
    ResizeFault, ResizePlan,
};
use lmdb::error::{
    lmdb_result, MDB_BAD_TXN, MDB_DBS_FULL, MDB_INVALID, MDB_MAP_FULL, MDB_NOTFOUND, MDB_SUCCESS,
};
use lmdb::flags::{rw_txn_flags, MDB_CREATE, MDB_DUPSORT, MDB_RDONLY};
use lmdb::freelist::{Freelist, FreelistError, FreelistStep};
use lmdb::opening::{Opening, OpeningAction, OpeningEvent};
use lmdb::resizing::{
    check_space, Errno, Growth, GrowthAction, MapReplacement, ReplacementAction, ReplacementEvent,
    Resize, ResizeAction, ResizeEvent,
};
use lmdb::transaction_guard::{GuardAction, GuardEvent, GuardStage, TransactionGuard};
use lmdb::{
    Binary32, Cursor, Database, DatabaseFlags, DatabaseResizeInfo, DatabaseResizeSettings, Environment,
    EnvironmentFlags, Error, Info, ResizeTriggerFraction, Stat,
};
use rand::rngs::StdRng;
use rand::{Rng, SeedableRng};

/// An environment whose callback is not run.
type Env = Environment<()>;

fn trigger(fraction: f32) -> ResizeTriggerFraction {
    ResizeTriggerFraction::new(Binary32 { bits: fraction.to_bits() }).unwrap()
}

fn settings(min: usize, max: usize, ratio: u32) -> DatabaseResizeSettings {
    DatabaseResizeSettings {
        min_resize_step: min,
        max_resize_step: max,
        default_resize_ratio_percentage: ratio,
        resize_trigger_fraction: trigger(0.9),
    }
}

fn small_step_resize_settings() -> DatabaseResizeSettings {
    settings(1 << 16, 1 << 18, 10)
}

/// The part of an open environment that resizing reads and changes.
struct MemoryMap {
    page_size: u32,
    map_size: usize,
    last_pgno: usize,
    free_space: Result<u64, Option<i32>>,
    set_code: i32,
    tx_count: u32,
    blocker_count: u32,
    reports: Vec<DatabaseResizeInfo>,
    data: BTreeMap<Vec<u8>, Vec<u8>>,
    /// How many bytes the last page has left.
    room: usize,
}

impl MemoryMap {
    fn new(map_size: usize) -> MemoryMap {
        MemoryMap {
            page_size: 4096,
            map_size,
            last_pgno: 1,
            free_space: Ok(1 << 40),
            set_code: MDB_SUCCESS,
            tx_count: 0,
            blocker_count: 0,
            reports: Vec::new(),
            data: BTreeMap::new(),
            room: 0,
        }
    }

    fn stat(&self) -> Stat {
        Stat {
            page_size: self.page_size,
            depth: 1,
            branch_pages: 0,
            leaf_pages: 1,
            overflow_pages: 0,
            entries: 64,
        }
    }

    fn info(&self) -> Info {
        Info {
            map_size: self.map_size,
            last_pgno: self.last_pgno,
            last_txnid: 0,
            max_readers: 126,
            num_readers: 0,
        }
    }

    fn replace(&mut self, action: ReplacementAction) -> ReplacementEvent {
        match action {
            ReplacementAction::BlockTransactions => {
                self.blocker_count += 1;
                ReplacementEvent::Blocked
            }
            ReplacementAction::ReadTransactionCount => {
                ReplacementEvent::TransactionCount(self.tx_count)
            }
            ReplacementAction::SetMapSize(size) => {
                assert!(self.blocker_count > 0);
                if self.set_code == MDB_SUCCESS && size != 0 {
                    self.map_size = size;
                }
                ReplacementEvent::MapSizeSet(self.set_code)
            }
            ReplacementAction::UnblockTransactions => {
                self.blocker_count -= 1;
                ReplacementEvent::Unblocked
            }
            ReplacementAction::Done(_) => unreachable!(),
        }
    }

    fn perform(&mut self, action: ResizeAction) -> ResizeEvent {
        match action {
            ResizeAction::ReadStat => ResizeEvent::Stat(Ok(self.stat())),
            ResizeAction::ReadInfo => ResizeEvent::Info(Ok(self.info())),
            ResizeAction::ReadFreeSpace => ResizeEvent::FreeSpace(self.free_space),
            ResizeAction::Replace(action) => ResizeEvent::Replacement(self.replace(action)),
            ResizeAction::Notify(report) => {
                // The map is replaced and the block is lifted, so a transaction can go live.
                assert_eq!(self.map_size as u64, report.new_size);
                let mut guard = TransactionGuard::new();
                while guard.action() != GuardAction::Proceed {
                    self.advance(&mut guard);
                }
                self.tx_count -= 1;
                self.reports.push(report);
                ResizeEvent::Notified
            }
            ResizeAction::Done(_) | ResizeAction::Break(_) => unreachable!(),
        }
    }

    fn advance(&mut self, guard: &mut TransactionGuard) {
        let event = match guard.action() {
            GuardAction::CountTransaction => {
                self.tx_count += 1;
                GuardEvent::Counted
            }
            GuardAction::ReadBlockers | GuardAction::AwaitBlockers => {
                GuardEvent::Blockers(self.blocker_count)
            }
            GuardAction::UncountTransaction => {
                self.tx_count -= 1;
                GuardEvent::Uncounted
            }
            GuardAction::Proceed => return,
        };
        guard.step(event);
    }

    fn set_map_size(&mut self, mut replacement: MapReplacement) -> Result<(), Error> {
        loop {
            match replacement.action() {
                ReplacementAction::Done(result) => return result,
                action => {
                    let event = self.replace(action);
                    replacement.step(event);
                }
            }
        }
    }

    fn resize(&mut self, mut resize: Resize) -> Result<usize, Error> {
        loop {
            match resize.action() {
                ResizeAction::Done(result) => return result,
                ResizeAction::Break(fault) => panic!("{:?}", fault),
                action => {
                    let event = self.perform(action);
                    resize.step(event);
                }
            }
        }
    }

    fn grow(&mut self, mut growth: Growth) -> Result<(), Error> {
        loop {
            match growth.action() {
                GrowthAction::Done(result) => return result,
                GrowthAction::Break(fault) => panic!("{:?}", fault),
                GrowthAction::Resize(action) => {
                    let event = self.perform(action);
                    growth.step(event);
                }
            }
        }
    }

    /// Takes a page, where the map has one left.
    fn take_page(&mut self) -> Result<(), Error> {
        if (self.last_pgno + 2) * self.page_size as usize > self.map_size {
            return lmdb_result(MDB_MAP_FULL);
        }
        self.last_pgno += 1;
        Ok(())
    }

    /// Puts an item, where the map has the pages for it.
    fn put(&mut self, key: &[u8], val: &[u8]) -> Result<(), Error> {
        let (last_pgno, room) = (self.last_pgno, self.room);
        while self.room < key.len() + val.len() {
            if let Err(error) = self.take_page() {
                self.last_pgno = last_pgno;
                self.room = room;
                return Err(error);
            }
            self.room += 2048;
        }
        self.room -= key.len() + val.len();
        self.data.insert(key.to_vec(), val.to_vec());
        Ok(())
    }
}

/// The environment with these settings and a callback.
fn env_with(settings: DatabaseResizeSettings) -> Env {
    Env::new().set_resize_settings(settings).set_resize_callback(Some(())).open(b"test").1
}

fn check_steps(map: &MemoryMap, settings: &DatabaseResizeSettings) {
    assert!(!map.reports.is_empty());
    for act in &map.reports {
        assert!(act.old_size < act.new_size);
        assert!(act.new_size - act.old_size >= settings.min_resize_step as u64);
        assert!(act.new_size - act.old_size <= settings.max_resize_step as u64);
    }
}

/// Random items whose sizes together reach a target.
fn random_data(
    rng: &mut StdRng,
    required_size: usize,
    key_max_size: usize,
    val_max_size: usize,
) -> BTreeMap<Vec<u8>, Vec<u8>> {
    let mut result = BTreeMap::new();
    let mut total_size = 0;
    while total_size < required_size {
        let key_size = rng.gen_range(1..=key_max_size);
        let val_size = rng.gen_range(1..=val_max_size);
        let key: Vec<u8> = (0..key_size).map(|_| rng.gen()).collect();
        let val: Vec<u8> = (0..val_size).map(|_| rng.gen()).collect();
        result.insert(key, val);
        total_size += key_size + val_size;
    }
    result
}

fn seeded(name: &str) -> StdRng {
    let seed: u64 = rand::random();
    println!("{} seed: {}", name, seed);
    StdRng::seed_from_u64(seed)
}

#[test]
fn test_auto_resize() {
    let resize_settings = settings(1 << 20, 1 << 21, 10);
    let initial_map_size = 1 << 20;
    let env = env_with(resize_settings);
    let mut map = MemoryMap::new(initial_map_size);
    assert_eq!(initial_map_size, map.info().map_size());

    let mut rng = seeded("test_auto_resize");
    let data = random_data(&mut rng, initial_map_size * 5, 500, 10000);
    for (key, val) in &data {
        map.grow(env.begin_rw_txn(None)).unwrap();
        map.put(key, val).unwrap();
    }
    check_steps(&map, &resize_settings);
    for (key, val) in &data {
        assert_eq!(map.data.get(key), Some(val));
    }
}

#[test]
fn test_slow_auto_resize() {
    let resize_settings = settings(1 << 19, 1 << 21, 20);
    let initial_map_size = 1 << 19;
    let env = env_with(resize_settings);
    let mut map = MemoryMap::new(initial_map_size);
    assert_eq!(initial_map_size, map.info().map_size());

    let mut rng = seeded("test_slow_auto_resize");
    let data = random_data(&mut rng, initial_map_size, 5, 10);
    for (key, val) in &data {
        map.grow(env.begin_rw_txn(None)).unwrap();
        map.put(key, val).unwrap();
    }
    check_steps(&map, &resize_settings);
    for act in &map.reports {
        // make sure that we always crossed the provided threshold before resizing
        let ratio = act.occupied_size_before_resize as f32 / act.old_size as f32;
        assert!(ratio >= f32::from_bits(resize_settings.resize_trigger_fraction.as_f32().bits));
    }
    for (key, val) in &data {
        assert_eq!(map.data.get(key), Some(val));
    }
}

#[test]
fn test_extremely_slow_resize_and_recover_from_mapfull_error() {
    let resize_settings = settings(1 << 15, 1 << 21, 1);
    let initial_map_size = 1 << 12;
    let env = env_with(resize_settings);
    let mut map = MemoryMap::new(initial_map_size);

    let mut rng = seeded("test_extremely_slow_resize_and_recover_from_mapfull_error");
    let mut write_resize_count = 0;
    let mut commit_resize_count = 0;
    let data = random_data(&mut rng, initial_map_size * 256, 2, 5);
    for (key, val) in &data {
        loop {
            map.grow(env.begin_rw_txn(None)).unwrap();
            let (last_pgno, room) = (map.last_pgno, map.room);
            if map.put(key, val) == Err(Error::MapFull) {
                write_resize_count += 1;
                map.resize(env.do_resize(None)).unwrap();
                continue;
            }
            // Some commits take a page of their own.
            let takes = map.last_pgno > last_pgno && last_pgno % 5 == 0;
            if takes && map.take_page() == Err(Error::MapFull) {
                commit_resize_count += 1;
                map.data.remove(key);
                map.last_pgno = last_pgno;
                map.room = room;
                map.resize(env.do_resize(None)).unwrap();
                continue;
            }
            break;
        }
    }
    assert!(write_resize_count > 0, "Test failed to trigger write resizes");
    assert!(commit_resize_count > 0, "Test failed to trigger commit resizes");
    check_steps(&map, &resize_settings);
    for (key, val) in &data {
        assert_eq!(map.data.get(key), Some(val));
    }
}

#[test]
fn test_forced_resize_on_tx_begin() {
    let resize_settings = settings(1 << 20, 1 << 21, 50);
    let initial_map_size = 1 << 20;
    let env = env_with(resize_settings);
    let mut map = MemoryMap::new(initial_map_size);
    let map_size = map.info().map_size();
    assert_eq!(initial_map_size, map_size);

    let headroom = 1 << 25;
    let new_target_size = map_size + headroom;

    // force resize by starting a read/write transaction with specified headroom
    map.grow(env.begin_rw_txn(Some(headroom))).unwrap();
    check_steps(&map, &resize_settings);

    // ensure the new map size is larger than the new target size
    let new_map_size = map.info().map_size();
    assert!(new_map_size >= new_target_size, "{} >= {} is false", new_map_size, new_target_size);
    // each round is as large as the largest step
    assert_eq!(map.reports.len(), 16);
    assert_eq!(new_map_size, new_target_size);
}

#[test]
fn test_resize_non_integer_page_size() {
    let env = Env::new().set_resize_settings(settings(1 << 17, 1 << 19, 10)).open(b"test").1;
    let initial_map_size = 1 << 20;
    let mut map = MemoryMap::new(initial_map_size);
    assert_eq!(initial_map_size, map.info().map_size());

    // this should work as the function will round up page sizes
    let new_map_size = map.resize(env.do_resize(Some((1 << 17) + 7))).unwrap();
    assert_eq!(new_map_size, (1 << 20) + (1 << 17) + 4096);
    assert_eq!(map.info().map_size(), new_map_size);
}

// The disk-space guard must return an error. The growth is larger than any real disk.
#[test]
fn test_resize_returns_err_when_disk_too_small() {
    let env = Env::new().set_resize_settings(settings(1 << 45, 1 << 55, 10)).open(b"test").1;
    let mut map = MemoryMap::new(1 << 20);

    assert_eq!(map.resize(env.do_resize(Some(1 << 55))), Err(Error::Other(libc::ENOSPC)));
    assert_eq!(map.map_size, 1 << 20);
}

#[test]
fn disk_space_decides_a_resize() {
    let plan = ResizePlan { old_map_size: 4096, new_map_size: 12288, occupied_size: 4096 };
    let errno = Errno { enospc: 28, eio: 5 };
    assert_eq!(check_space(&plan, Ok(8193), &errno), Ok(()));
    assert_eq!(check_space(&plan, Ok(8192), &errno), Err(Error::Other(28)));
    assert_eq!(check_space(&plan, Err(Some(13)), &errno), Err(Error::Other(13)));
    assert_eq!(check_space(&plan, Err(None), &errno), Err(Error::Other(5)));

    let here = Errno::of_this_system();
    assert_eq!((here.enospc, here.eio), (libc::ENOSPC, libc::EIO));

    let env = Env::new().set_resize_settings(small_step_resize_settings()).open(b"test").1;
    let mut map = MemoryMap::new(1 << 20);
    map.free_space = Err(None);
    assert_eq!(map.resize(env.do_resize(None)), Err(Error::Other(libc::EIO)));
    map.free_space = Err(Some(libc::EACCES));
    assert_eq!(map.resize(env.do_resize(None)), Err(Error::Other(libc::EACCES)));
}

#[test]
fn a_resize_that_fails_lifts_the_block_and_runs_no_callback() {
    let env = env_with(small_step_resize_settings());
    let mut map = MemoryMap::new(1 << 20);
    map.set_code = MDB_BAD_TXN;
    assert_eq!(map.resize(env.do_resize(None)), Err(Error::BadTxn));
    assert_eq!(map.grow(env.begin_rw_txn(Some(1 << 21))), Err(Error::BadTxn));
    assert_eq!(map.blocker_count, 0);
    assert!(map.reports.is_empty());
    assert_eq!(map.map_size, 1 << 20);
}

#[test]
fn failed_reports_end_a_resize() {
    let env = env_with(small_step_resize_settings());
    let mut resize = env.do_resize(None);
    resize.step(ResizeEvent::Stat(Err(Error::BadTxn)));
    assert!(matches!(resize.action(), ResizeAction::Done(Err(Error::BadTxn))));

    let stat = MemoryMap::new(1 << 20).stat();
    let mut resize = env.do_resize(None);
    resize.step(ResizeEvent::Stat(Ok(stat)));
    resize.step(ResizeEvent::Info(Err(Error::Panic)));
    assert!(matches!(resize.action(), ResizeAction::Done(Err(Error::Panic))));

    let mut growth = env.begin_rw_txn(None);
    growth.step(ResizeEvent::Info(Err(Error::Panic)));
    assert!(matches!(
        growth.action(),
        GrowthAction::Break(ResizeFault::InfoUnavailable(Error::Panic))
    ));

    let mut growth = env.begin_rw_txn(None);
    growth.step(ResizeEvent::Info(Ok(MemoryMap::new(1 << 20).info())));
    growth.step(ResizeEvent::Stat(Err(Error::BadTxn)));
    assert!(matches!(growth.action(), GrowthAction::Done(Err(Error::BadTxn))));
}

#[test]
fn test_resize_after_reset_does_not_hang() {
    let env = Env::new().set_resize_settings(small_step_resize_settings()).open(b"test").1;
    let mut map = MemoryMap::new(1 << 20);

    let mut guard = env.begin_ro_txn();
    while guard.action() != GuardAction::Proceed {
        map.advance(&mut guard);
    }
    assert_eq!(map.tx_count, 1);
    map.tx_count -= 1;
    assert_eq!(map.tx_count, 0);

    assert_eq!(map.resize(env.do_resize(Some(1 << 16))), Ok((1 << 20) + (1 << 16)));
}

#[test]
fn test_resize_callback_can_open_ro_txn() {
    let env = env_with(small_step_resize_settings());
    let mut map = MemoryMap::new(1 << 20);
    map.resize(env.do_resize(Some(1 << 16))).unwrap();
    assert_eq!(map.reports.len(), 1, "the resize callback never ran");
    assert_eq!(map.reports[0].occupied_size_before_resize, 4096);
    assert_eq!((map.tx_count, map.blocker_count), (0, 0));
}

#[test]
fn test_set_map_size() {
    let env = Env::new().open(b"test").1;
    let default_size = 1 << 20;
    let mut map = MemoryMap::new(default_size);

    // Resizing to 0 merely reloads the map size
    map.set_map_size(env.set_map_size(0)).unwrap();
    assert_eq!(map.info().map_size(), default_size);

    map.set_map_size(env.set_map_size(2 * default_size)).unwrap();
    assert_eq!(map.info().map_size(), 2 * default_size);

    map.set_map_size(env.set_map_size(4 * default_size)).unwrap();
    assert_eq!(map.info().map_size(), 4 * default_size);

    // Decreasing is also fine if the space hasn't been consumed.
    map.set_map_size(env.set_map_size(2 * default_size)).unwrap();
    assert_eq!(map.info().map_size(), 2 * default_size);
}

#[test]
fn test_set_map_size_waits_for_live_reader() {
    let env = Env::new().open(b"test").1;
    let mut map = MemoryMap::new(1 << 20);
    let mut reader = env.begin_ro_txn();
    while reader.action() != GuardAction::Proceed {
        map.advance(&mut reader);
    }

    let mut replacement = env.set_map_size(1 << 21);
    for _ in 0..20 {
        let action = replacement.action();
        assert!(!matches!(action, ReplacementAction::SetMapSize(_)));
        let event = map.replace(action);
        replacement.step(event);
    }

    // A reader that comes now has to wait.
    let mut late = env.begin_ro_txn();
    for _ in 0..20 {
        map.advance(&mut late);
        assert_ne!(late.action(), GuardAction::Proceed);
    }

    map.tx_count -= 1;
    map.set_map_size(replacement).unwrap();
    assert_eq!(map.map_size, 1 << 21);
    while late.action() != GuardAction::Proceed {
        map.advance(&mut late);
    }
}

/// One of the two ways to replace the map.
enum Replacing {
    SetSize(MapReplacement),
    Resize(Resize),
}

impl Replacing {
    /// The next way that is due, by this much.
    fn next(env: &Env, map: &MemoryMap, resizes: bool, increase: usize) -> Replacing {
        if resizes {
            Replacing::Resize(env.do_resize(Some(increase)))
        } else {
            Replacing::SetSize(env.set_map_size(map.map_size + increase))
        }
    }

    fn is_over(&self) -> bool {
        match self {
            Replacing::SetSize(replacement) => {
                matches!(replacement.action(), ReplacementAction::Done(Ok(())))
            }
            Replacing::Resize(resize) => matches!(resize.action(), ResizeAction::Done(Ok(_))),
        }
    }

    fn sets_the_map(&self) -> bool {
        match self {
            Replacing::SetSize(replacement) => {
                matches!(replacement.action(), ReplacementAction::SetMapSize(_))
            }
            Replacing::Resize(resize) => matches!(
                resize.action(),
                ResizeAction::Replace(ReplacementAction::SetMapSize(_))
            ),
        }
    }

    fn advance(&mut self, map: &mut MemoryMap) {
        match self {
            Replacing::SetSize(replacement) => {
                let event = map.replace(replacement.action());
                replacement.step(event);
            }
            Replacing::Resize(resize) => {
                let event = map.perform(resize.action());
                resize.step(event);
            }
        }
    }
}

/// Runs readers and replacements of the map in random turns.
fn run_in_turns(rng: &mut StdRng, readers: usize, replacements: usize, alternate: bool) {
    let increase = 1 << 16;
    let env = Env::new().set_resize_settings(small_step_resize_settings()).open(b"test").1;
    let mut map = MemoryMap::new(1 << 20);
    map.put(b"k", b"v").unwrap();
    let mut guards: Vec<TransactionGuard> = (0..readers).map(|_| env.begin_ro_txn()).collect();
    let mut done = 0;
    let mut replacing = Replacing::next(&env, &map, alternate, increase);
    while done < replacements {
        let turn = rng.gen_range(0..=readers);
        if turn < readers {
            if guards[turn].action() == GuardAction::Proceed {
                assert_eq!(map.data.get(&b"k"[..]), Some(&b"v".to_vec()));
                map.tx_count -= 1;
                guards[turn] = env.begin_ro_txn();
            } else {
                map.advance(&mut guards[turn]);
            }
        } else if replacing.is_over() {
            done += 1;
            replacing = Replacing::next(&env, &map, alternate && done % 2 == 0, increase);
        } else {
            if replacing.sets_the_map() {
                assert!(guards.iter().all(|guard| guard.stage != GuardStage::Live));
            }
            replacing.advance(&mut map);
        }
    }
    assert_eq!(map.map_size, (1 << 20) + replacements * increase);
    // Once everyone is through, every transaction and every block is accounted for.
    while !guards.is_empty() || !replacing.is_over() {
        for guard in &mut guards {
            map.advance(guard);
        }
        let live = guards.iter().filter(|guard| guard.stage == GuardStage::Live).count();
        map.tx_count -= live as u32;
        guards.retain(|guard| guard.stage != GuardStage::Live);
        if !replacing.is_over() {
            replacing.advance(&mut map);
        }
    }
    assert_eq!((map.tx_count, map.blocker_count), (0, 0));
    assert_eq!(map.data.get(&b"k"[..]), Some(&b"v".to_vec()));
}

#[test]
fn test_set_map_size_waits_for_live_readers_randomized() {
    let mut rng = seeded("test_set_map_size_waits_for_live_readers_randomized");
    for _ in 0..20 {
        let readers = rng.gen_range(1..=4);
        run_in_turns(&mut rng, readers, 20, false);
    }
}

#[test]
fn test_concurrent_txn_and_resize_stress() {
    let mut rng = seeded("test_concurrent_txn_and_resize_stress");
    run_in_turns(&mut rng, 8, 100, true);
}

/// An LMDB that has databases by name.
struct Named {
    names: Vec<String>,
}

impl Named {
    fn open(&mut self, name: Option<&str>, mut opening: DatabaseOpening) -> Result<Database, Error> {
        loop {
            let event = match opening.action() {
                DatabaseAction::Done(result) => return result,
                DatabaseAction::BeginRoTxn | DatabaseAction::BeginRwTxn => {
                    DatabaseEvent::Begun(Ok(()))
                }
                DatabaseAction::Open(flags) => match name {
                    None => DatabaseEvent::Opened(MDB_SUCCESS, 1),
                    Some(name) => {
                        let known = self.names.iter().position(|known| known == name);
                        match known {
                            Some(index) => DatabaseEvent::Opened(MDB_SUCCESS, 2 + index as u32),
                            None if flags & MDB_CREATE != 0 => {
                                self.names.push(name.to_string());
                                DatabaseEvent::Opened(MDB_SUCCESS, 1 + self.names.len() as u32)
                            }
                            None => DatabaseEvent::Opened(MDB_NOTFOUND, 0),
                        }
                    }
                },
                DatabaseAction::Commit => DatabaseEvent::Committed(Ok(())),
            };
            opening.step(event);
        }
    }
}

#[test]
fn test_open_db() {
    let env = Env::new().set_max_dbs(1).open(b"test").1;
    let mut named = Named { names: Vec::new() };
    assert!(named.open(None, env.open_db(None)).is_ok());
    assert!(named.open(Some("testdb"), env.open_db(Some("testdb"))).is_err());
}

#[test]
fn test_create_db() {
    let env = Env::new().set_max_dbs(11).open(b"test").1;
    let mut named = Named { names: Vec::new() };
    assert!(named.open(Some("testdb"), env.open_db(Some("testdb"))).is_err());
    let created = env.create_db(Some("testdb"), DatabaseFlags::empty());
    assert_eq!(named.open(Some("testdb"), created).unwrap().dbi(), 2);
    assert_eq!(named.open(Some("testdb"), env.open_db(Some("testdb"))).unwrap().dbi(), 2);
}

#[test]
fn test_create_db_with_interior_nul_returns_err() {
    // A name is caller input; an interior NUL must be a recoverable error.
    let env = Env::new().set_max_dbs(1).open(b"test").1;
    let mut named = Named { names: Vec::new() };
    let opening = env.create_db(Some("bad\0name"), DatabaseFlags::empty());
    let result = named.open(Some("bad\0name"), opening);
    assert_eq!(result, Err(Error::Invalid));
    assert!(named.names.is_empty());
    assert_eq!(Database::check_name(Some("bad\0name")), Err(Error::Invalid));
    assert_eq!(Database::check_name(Some("name")), Ok(()));
    assert_eq!(Database::check_name(None), Ok(()));
}

#[test]
fn opening_a_database_stops_at_the_first_failure() {
    let env = Env::new().open(b"test").1;
    let mut opening = env.open_db(None);
    assert_eq!(opening.action(), DatabaseAction::BeginRoTxn);
    opening.step(DatabaseEvent::Begun(Err(Error::BadRslot)));
    assert_eq!(opening.action(), DatabaseAction::Done(Err(Error::BadRslot)));

    let mut opening = env.create_db(None, DatabaseFlags { bits: MDB_DUPSORT });
    assert_eq!(opening.action(), DatabaseAction::BeginRwTxn);
    opening.step(DatabaseEvent::Begun(Ok(())));
    assert_eq!(opening.action(), DatabaseAction::Open(MDB_DUPSORT | MDB_CREATE));
    opening.step(DatabaseEvent::Opened(MDB_DBS_FULL, 0));
    assert_eq!(opening.action(), DatabaseAction::Done(Err(Error::DbsFull)));

    let mut opening = env.open_db(None);
    opening.step(DatabaseEvent::Begun(Ok(())));
    assert_eq!(opening.action(), DatabaseAction::Open(0));
    opening.step(DatabaseEvent::Opened(MDB_SUCCESS, 1));
    assert_eq!(opening.action(), DatabaseAction::Commit);
    opening.step(DatabaseEvent::Committed(Err(Error::MapFull)));
    assert_eq!(opening.action(), DatabaseAction::Done(Err(Error::MapFull)));
    assert_eq!(Database::freelist_db().dbi(), 0);
}

/// The files of an environment.
struct Files {
    exist: bool,
}

impl Files {
    fn open(&mut self, mut opening: Opening) -> Result<(), Error> {
        loop {
            let event = match opening.action() {
                OpeningAction::Done(result) => return result,
                OpeningAction::Close => OpeningEvent::Closed,
                OpeningAction::Open(flags, _) => {
                    if self.exist || flags & MDB_RDONLY == 0 {
                        self.exist = true;
                        OpeningEvent::Called(MDB_SUCCESS)
                    } else {
                        OpeningEvent::Called(libc::ENOENT)
                    }
                }
                _ => OpeningEvent::Called(MDB_SUCCESS),
            };
            opening.step(event);
        }
    }
}

#[test]
fn test_open() {
    let mut files = Files { exist: false };
    let read_only = EnvironmentFlags { bits: MDB_RDONLY };

    // opening non-existent env with read-only should fail
    assert!(files.open(Env::new().set_flags(read_only).open(b"test").0).is_err());

    // opening non-existent env should succeed
    assert!(files.open(Env::new().open(b"test").0).is_ok());

    // opening env with read-only should succeed
    assert!(files.open(Env::new().set_flags(read_only).open(b"test").0).is_ok());

    // a path with a null character is refused
    assert_eq!(files.open(Env::new().open(b"te\0st").0), Err(Error::Invalid));
}

fn calls(mut opening: Opening, failing: Option<usize>) -> Vec<OpeningAction> {
    let mut calls = Vec::new();
    loop {
        let action = opening.action();
        calls.push(action);
        match action {
            OpeningAction::Done(_) => return calls,
            OpeningAction::Close => opening.step(OpeningEvent::Closed),
            _ if failing == Some(calls.len() - 1) => {
                opening.step(OpeningEvent::Called(MDB_INVALID))
            }
            _ => opening.step(OpeningEvent::Called(MDB_SUCCESS)),
        }
    }
}

#[test]
fn opening_sets_what_was_asked_for_in_order() {
    let full = || {
        Env::new()
            .set_flags(EnvironmentFlags { bits: MDB_RDONLY })
            .set_max_readers(5)
            .set_max_dbs(6)
            .set_map_size(7)
            .open_with_permissions(b"test", 0o600)
            .0
    };
    let create = OpeningAction::Create;
    let readers = OpeningAction::SetMaxReaders(5);
    let dbs = OpeningAction::SetMaxDbs(6);
    let size = OpeningAction::SetMapSize(7);
    let open = OpeningAction::Open(MDB_RDONLY, 0o600);
    let close = OpeningAction::Close;
    let done = OpeningAction::Done(Ok(()));
    let failed = OpeningAction::Done(Err(Error::Invalid));

    assert_eq!(calls(full(), None), [create, readers, dbs, size, open, done]);
    assert_eq!(calls(full(), Some(0)), [create, failed]);
    assert_eq!(calls(full(), Some(1)), [create, readers, close, failed]);
    assert_eq!(calls(full(), Some(2)), [create, readers, dbs, close, failed]);
    assert_eq!(calls(full(), Some(3)), [create, readers, dbs, size, close, failed]);
    assert_eq!(calls(full(), Some(4)), [create, readers, dbs, size, open, close, failed]);

    let open = OpeningAction::Open(0, 0o644);
    assert_eq!(calls(Env::new().open(b"test").0, None), [create, open, done]);
    assert_eq!(calls(Env::new().set_max_dbs(6).open(b"test").0, None), [create, dbs, open, done]);
    assert_eq!(calls(Env::new().set_map_size(7).open(b"\0").0, None), [create, size, failed]);
}

/// Begins a transaction with these flags in an environment that was opened with those.
fn begin(env_flags: u32, flags: u32) -> Result<(), Error> {
    if env_flags & MDB_RDONLY != 0 && flags & MDB_RDONLY == 0 {
        lmdb_result(libc::EACCES)
    } else {
        lmdb_result(MDB_SUCCESS)
    }
}

/// The flags that an environment is opened with.
fn opened_with(opening: Opening) -> u32 {
    let open = calls(opening, None).into_iter().find_map(|action| match action {
        OpeningAction::Open(flags, _) => Some(flags),
        _ => None,
    });
    open.unwrap()
}

#[test]
fn test_begin_txn() {
    let mut map = MemoryMap::new(1 << 20);

    // writable environment
    let (opening, env) = Env::new().open(b"test");
    let env_flags = opened_with(opening);
    let (growth, flags) = env.begin_rw_txn_generic(None, false, false);
    assert!(map.grow(growth).is_ok());
    assert!(begin(env_flags, flags).is_ok());
    assert_eq!(env.begin_ro_txn().action(), GuardAction::CountTransaction);
    assert!(begin(env_flags, MDB_RDONLY).is_ok());

    // read-only environment
    let read_only = EnvironmentFlags { bits: MDB_RDONLY };
    let (opening, env) = Env::new().set_flags(read_only).open(b"test");
    let env_flags = opened_with(opening);
    let (growth, flags) = env.begin_rw_txn_generic(None, false, false);
    assert!(map.grow(growth).is_ok());
    assert!(begin(env_flags, flags).is_err());
    assert_eq!(env.begin_ro_txn().action(), GuardAction::CountTransaction);
    assert!(begin(env_flags, MDB_RDONLY).is_ok());
}

#[test]
fn write_transactions_have_the_flags_that_were_asked_for() {
    let env = Env::new().open(b"test").1;
    let mut map = MemoryMap::new(1 << 20);
    assert!(map.grow(env.begin_rw_txn(None)).is_ok());
    assert_eq!(env.begin_rw_txn_generic(None, false, false).1, 0);
    assert_eq!(env.begin_rw_txn_generic(None, true, false).1, 0x10000);
    assert_eq!(env.begin_rw_txn_generic(None, false, true).1, 0x40000);
    assert_eq!(rw_txn_flags(true, true), 0x50000);
}

#[test]
fn test_sync() {
    assert!(Env::sync(MDB_SUCCESS).is_ok());
    assert_eq!(Env::sync(libc::EACCES), Err(Error::Other(libc::EACCES)));
}

#[test]
fn test_stat() {
    let reported = MemoryMap::new(1 << 20).stat();

    // Stats should be empty initially.
    let empty = Stat { depth: 0, leaf_pages: 0, entries: 0, ..reported };
    let stat = Env::stat(MDB_SUCCESS, empty).unwrap();
    assert_eq!(stat.page_size(), 4096);
    assert_eq!(stat.depth(), 0);
    assert_eq!(stat.branch_pages(), 0);
    assert_eq!(stat.leaf_pages(), 0);
    assert_eq!(stat.overflow_pages(), 0);
    assert_eq!(stat.entries(), 0);

    // Stats should now reflect inserted values.
    let stat = Env::stat(MDB_SUCCESS, reported).unwrap();
    assert_eq!(stat.page_size(), 4096);
    assert_eq!(stat.depth(), 1);
    assert_eq!(stat.branch_pages(), 0);
    assert_eq!(stat.leaf_pages(), 1);
    assert_eq!(stat.overflow_pages(), 0);
    assert_eq!(stat.entries(), 64);
    assert_eq!(Env::stat(MDB_INVALID, reported), Err(Error::Invalid));
}

#[test]
fn test_info() {
    let map_size = 1024 * 1024;
    let reported = MemoryMap::new(map_size).info();
    let info = Env::info(MDB_SUCCESS, reported).unwrap();
    assert_eq!(info.map_size(), map_size);
    assert_eq!(info.last_pgno(), 1);
    assert_eq!(info.last_txnid(), 0);
    // The default max readers is 126.
    assert_eq!(info.max_readers(), 126);
    assert_eq!(info.num_readers(), 0);
    assert_eq!(Env::info(MDB_INVALID, reported), Err(Error::Invalid));
}

#[test]
fn database_flags_are_those_that_a_database_can_have() {
    let flags = DatabaseFlags { bits: MDB_DUPSORT };
    assert_eq!(Env::get_db_flags(MDB_SUCCESS, MDB_DUPSORT), Ok(Some(flags)));
    assert_eq!(Env::get_db_flags(MDB_SUCCESS, 0x80), Ok(None));
    assert_eq!(Env::get_db_flags(MDB_INVALID, 0), Err(Error::Invalid));
    assert_eq!(DatabaseFlags::from_bits(0x7e), Some(DatabaseFlags { bits: 0x7e }));
    assert_eq!(DatabaseFlags::from_bits(1), None);
}

/// A cursor that goes through lists, and then replies with a result code.
struct Lists<'a> {
    lists: &'a [Vec<u8>],
    next: usize,
    last_code: i32,
}

impl<'a> Lists<'a> {
    fn new(lists: &'a [Vec<u8>], last_code: i32) -> Self {
        Lists { lists, next: 0, last_code }
    }
}

impl<'a> Cursor<'a> for Lists<'a> {
    fn calls(&self) -> CallRecord<'a> {
        unreachable!()
    }

    fn cursor_get(&mut self, key: Option<&[u8]>, data: Option<&[u8]>, op: u32) -> CursorReply<'a> {
        assert_eq!((key, data, op), (None, None, MDB_NEXT));
        let index = self.next;
        self.next += 1;
        match self.lists.get(index) {
            Some(list) => {
                CursorReply { code: MDB_SUCCESS, asked_at: 0, key_at: 8, key: b"txn", data: list }
            }
            None => {
                CursorReply { code: self.last_code, asked_at: 0, key_at: 0, key: &[], data: &[] }
            }
        }
    }
}

#[test]
fn test_freelist() {
    let env = Env::new().open(b"test").1;
    assert_eq!(env.freelist(&mut Lists::new(&[], MDB_NOTFOUND)), Ok(0));

    let mut list = 3usize.to_ne_bytes().to_vec();
    list.extend_from_slice(&[0xff; 24]);
    let other = 0x0102usize.to_ne_bytes().to_vec();
    let lists = [list, other];
    let freelist = env.freelist(&mut Lists::new(&lists, MDB_NOTFOUND)).unwrap();
    assert!(freelist > 0);
    assert_eq!(freelist, 3 + 0x0102);

    // Each list is read once, and then the end.
    let mut cursor = Lists::new(&lists, MDB_NOTFOUND);
    assert_eq!(env.freelist(&mut cursor), Ok(3 + 0x0102));
    assert_eq!(cursor.next, 3);
}

#[test]
fn the_freelist_stops_at_the_first_failure() {
    let env = Env::new().open(b"test").1;
    let list = |count: usize| count.to_ne_bytes().to_vec();

    let short = [list(1), vec![0; 3], list(1)];
    let mut cursor = Lists::new(&short, MDB_NOTFOUND);
    assert_eq!(env.freelist(&mut cursor), Err(FreelistError::Failed(Error::Corrupted)));
    assert_eq!(cursor.next, 2);

    let lists = [list(1)];
    let mut cursor = Lists::new(&lists, MDB_BAD_TXN);
    assert_eq!(env.freelist(&mut cursor), Err(FreelistError::Failed(Error::BadTxn)));

    let many = [list(usize::MAX), list(1)];
    let mut cursor = Lists::new(&many, MDB_NOTFOUND);
    assert_eq!(env.freelist(&mut cursor), Err(FreelistError::TooManyPages));
}

#[test]
fn a_broken_freelist_is_an_error() {
    let failed = |error| FreelistStep::Done(Err(FreelistError::Failed(error)));
    let mut freelist = Freelist::new();
    let short: (&[u8], &[u8]) = (b"txn", &[0; 3]);
    assert_eq!(freelist.count(Some(Ok(short))), failed(Error::Corrupted));
    assert_eq!(freelist.count(Some(Err(Error::BadTxn))), failed(Error::BadTxn));

    let most = usize::MAX.to_ne_bytes();
    let one = 1usize.to_ne_bytes();
    assert_eq!(freelist.count(Some(Ok((b"txn", &most)))), FreelistStep::Continue);
    let too_many = FreelistStep::Done(Err(FreelistError::TooManyPages));
    assert_eq!(freelist.count(Some(Ok((b"txn", &one)))), too_many);
    assert_eq!(freelist.count(None), FreelistStep::Done(Ok(usize::MAX)));
}

#[test]
fn headroom_is_a_percentage_of_the_map() {
    assert_eq!(headroom_from_ratio(1 << 20, 100), 1 << 20);
    assert_eq!(headroom_from_ratio(199, 1), 1);
    assert_eq!(headroom_from_ratio(usize::MAX, 100), usize::MAX);
    assert_eq!(checked_headroom_from_ratio(1 << 20, 50), Some(1 << 19));
    assert_eq!(checked_headroom_from_ratio(usize::MAX, 101), None);
}

#[test]
fn resizes_are_planned_in_whole_pages_within_the_steps() {
    let map = MemoryMap::new(1 << 20);
    let plan = |map: &MemoryMap, increase, settings: &DatabaseResizeSettings| {
        plan_resize(&map.stat(), &map.info(), increase, settings)
            .map(|plan| plan.new_map_size - plan.old_map_size)
    };
    let steps = settings(1 << 16, 1 << 18, 10);
    // Ten percent of the map, in whole pages.
    assert_eq!(plan(&map, None, &steps), Ok(26 * 4096));
    assert_eq!(plan(&map, Some(1), &steps), Ok(1 << 16));
    assert_eq!(plan(&map, Some(1 << 30), &steps), Ok(1 << 18));
    assert_eq!(plan(&map, Some((1 << 17) + 1), &steps), Ok((1 << 17) + 4096));

    let mut odd = MemoryMap::new((1 << 20) + 1);
    assert_eq!(plan(&odd, Some(1 << 16), &settings(1, 1 << 18, 10)), Ok((1 << 16) + 4095));

    odd.last_pgno = usize::MAX;
    assert_eq!(plan(&odd, None, &steps), Err(ResizeFault::OccupiedSizeTooLarge));
    assert_eq!(map_occupied_size(&odd.info(), &odd.stat()), None);
    assert_eq!(map_occupied_size(&map.info(), &map.stat()), Some(4096));

    let mut broken = MemoryMap::new(1 << 20);
    broken.page_size = 0;
    assert_eq!(plan(&broken, None, &steps), Err(ResizeFault::PageSizeZero));

    let huge = MemoryMap::new(usize::MAX - 10);
    assert_eq!(plan(&huge, Some(1), &steps), Err(ResizeFault::NewSizeTooLarge));
    assert_eq!(plan(&huge, Some(1), &settings(1, 2, 1)), Err(ResizeFault::RoundedSizeTooLarge));
    assert_eq!(plan(&huge, None, &settings(1, 2, 200)), Err(ResizeFault::HeadroomTooLarge));
}

#[test]
fn a_resize_is_needed_for_headroom_or_by_the_trigger() {
    let mut map = MemoryMap::new(10 * 4096);
    let need = |map: &MemoryMap, headroom, fraction| {
        let settings = DatabaseResizeSettings {
            resize_trigger_fraction: trigger(fraction),
            ..small_step_resize_settings()
        };
        needs_resize(&map.stat(), &map.info(), headroom, &settings)
    };
    map.last_pgno = 9;
    assert_eq!(need(&map, None, 0.9), Ok(false));
    assert_eq!(need(&map, None, 0.89), Ok(true));
    assert_eq!(need(&map, Some(4096), 0.9), Ok(false));
    assert_eq!(need(&map, Some(4097), 0.9), Ok(true));
    map.last_pgno = 10;
    // The fill level alone never asks for a resize with a trigger of one.
    assert_eq!(need(&map, None, 1.0), Ok(false));
    assert_eq!(need(&map, Some(1), 1.0), Ok(true));
    // Anything at all does with a trigger of zero.
    map.last_pgno = 1;
    assert_eq!(need(&map, None, 0.0), Ok(true));
    map.last_pgno = 0;
    assert_eq!(need(&map, None, 0.0), Ok(false));

    map.last_pgno = usize::MAX;
    assert_eq!(need(&map, None, 0.9), Err(ResizeFault::OccupiedSizeTooLarge));
    map.last_pgno = 1;
    assert_eq!(need(&map, Some(usize::MAX), 0.9), Err(ResizeFault::NeededSizeTooLarge));
}

#[test]
fn a_growth_whose_target_does_not_fit_breaks() {
    let env = env_with(settings(1, 4096, 10));
    let mut map = MemoryMap::new(1 << 20);
    let mut growth = env.begin_rw_txn(Some(usize::MAX - 4096));
    loop {
        match growth.action() {
            GrowthAction::Break(fault) => {
                assert_eq!(fault, ResizeFault::TargetSizeTooLarge);
                break;
            }
            GrowthAction::Done(result) => panic!("{:?}", result),
            GrowthAction::Resize(action) => {
                let event = map.perform(action);
                growth.step(event);
            }
        }
    }
    assert_eq!(map.map_size, (1 << 20) + 4096);

    let env = env_with(settings(1, 4096, 300));
    let mut growth = env.begin_rw_txn(None);
    growth.step(ResizeEvent::Info(Ok(MemoryMap::new(usize::MAX / 2).info())));
    assert!(matches!(growth.action(), GrowthAction::Break(ResizeFault::HeadroomTooLarge)));
}

#[test]
fn without_settings_the_default_ones_are_in_effect() {
    let env = Env::new().open(b"test").1;
    let mut map = MemoryMap::new(1 << 20);
    assert_eq!(map.resize(env.do_resize(None)), Ok((1 << 20) + (1 << 28)));
    assert!(map.reports.is_empty());
}
