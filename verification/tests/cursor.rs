//! Cursors and iterators over a database that is kept in memory and answers as LMDB does.

use std::cell::{Cell, RefCell};
use std::collections::{BTreeMap, BTreeSet};

use lmdb::cursor::{
    entry_of, item_of, plan_dup_of, plan_from, plan_from_rev, step_of, CallRecord, CursorReply,
    IterOps, WalkError, MDB_FIRST, MDB_FIRST_DUP, MDB_GET_BOTH, MDB_GET_BOTH_RANGE, MDB_GET_CURRENT,
    MDB_GET_MULTIPLE, MDB_LAST, MDB_LAST_DUP, MDB_NEXT, MDB_NEXT_DUP, MDB_NEXT_MULTIPLE,
    MDB_NEXT_NODUP, MDB_PREV, MDB_PREV_DUP, MDB_PREV_NODUP, MDB_SET, MDB_SET_KEY, MDB_SET_RANGE,
};
use lmdb::error::{
    MDB_BAD_VALSIZE, MDB_CORRUPTED, MDB_INCOMPATIBLE, MDB_KEYEXIST, MDB_NOTFOUND, MDB_SUCCESS,
};
use lmdb::flags::{MDB_CURRENT, MDB_NODUPDATA};
use lmdb::{Cursor, Error, Iter, RoCursor, RwCursor, WriteCursor, WriteFlags};
use rand::rngs::StdRng;
use rand::{Rng, SeedableRng};

type Pair = (&'static [u8], &'static [u8]);

/// A database in memory. What it hands out is never freed, so it stays valid.
struct Db {
    items: RefCell<Vec<Pair>>,
    dup_sort: bool,
}

#[derive(Clone, Copy)]
enum Place {
    Unset,
    At(usize),
    Gap(usize),
    Lost,
}

/// A cursor on a database in memory.
struct MemoryCursor<'db> {
    db: &'db Db,
    place: Cell<Place>,
}

fn keep(bytes: &[u8]) -> &'static [u8] {
    Box::leak(bytes.to_vec().into_boxed_slice())
}

impl Db {
    fn new() -> Db {
        Db { items: RefCell::new(Vec::new()), dup_sort: false }
    }

    fn new_dup_sort() -> Db {
        Db { items: RefCell::new(Vec::new()), dup_sort: true }
    }

    fn with(items: &[(&[u8], &[u8])]) -> Db {
        let db = Db::new();
        for (key, data) in items {
            db.put(key, data);
        }
        db
    }

    fn with_dups(items: &[(&[u8], &[u8])]) -> Db {
        let db = Db::new_dup_sort();
        for (key, data) in items {
            db.put(key, data);
        }
        db
    }

    /// Puts an item where it sorts, and tells where that is.
    fn put(&self, key: &[u8], data: &[u8]) -> usize {
        let mut items = self.items.borrow_mut();
        let place = if self.dup_sort {
            items.iter().position(|item| *item >= (key, data))
        } else {
            items.iter().position(|item| item.0 >= key)
        };
        let place = place.unwrap_or(items.len());
        let same = match items.get(place) {
            Some(item) => item.0 == key && (!self.dup_sort || item.1 == data),
            None => false,
        };
        if same {
            items[place].1 = keep(data);
        } else {
            items.insert(place, (keep(key), keep(data)));
        }
        place
    }

    fn cursor(&self) -> MemoryCursor<'_> {
        MemoryCursor { db: self, place: Cell::new(Place::Unset) }
    }

    fn ro(&self) -> RoCursor<MemoryCursor<'_>> {
        RoCursor::new(self.cursor())
    }

    fn rw(&self) -> RwCursor<MemoryCursor<'_>> {
        RwCursor::new(self.cursor())
    }
}

fn failure(code: i32) -> CursorReply<'static> {
    CursorReply { code, asked_at: 0, key_at: 0, key: &[], data: &[] }
}

impl MemoryCursor<'_> {
    /// Goes to an item and reports its key, or fails and stays.
    fn go(&self, asked_at: usize, index: Option<usize>) -> CursorReply<'static> {
        let items = self.db.items.borrow();
        match index.and_then(|index| items.get(index).map(|item| (index, *item))) {
            Some((index, (key, data))) => {
                self.place.set(Place::At(index));
                let key_at = key.as_ptr() as usize;
                CursorReply { code: MDB_SUCCESS, asked_at, key_at, key, data }
            }
            None => failure(MDB_NOTFOUND),
        }
    }

    /// Goes to an item without reporting its key.
    fn go_quietly(&self, index: Option<usize>) -> CursorReply<'static> {
        let reply = self.go(0, index);
        CursorReply { key_at: reply.asked_at, ..reply }
    }

    fn current(&self) -> Option<usize> {
        match self.place.get() {
            Place::At(index) | Place::Gap(index) => Some(index),
            _ => None,
        }
    }

    /// The indices of the items with the same key as the current one.
    fn group(&self) -> Option<(usize, usize)> {
        let items = self.db.items.borrow();
        let key = items.get(self.current()?)?.0;
        let first = items.iter().position(|item| item.0 == key)?;
        let last = items.iter().rposition(|item| item.0 == key)?;
        Some((first, last))
    }

    fn seek(&self, key: Option<&[u8]>, op: u32) -> CursorReply<'static> {
        let key = match key {
            Some(key) => key,
            None => return failure(22),
        };
        if key.is_empty() {
            return failure(MDB_BAD_VALSIZE);
        }
        let found = {
            let items = self.db.items.borrow();
            let bound = items.iter().position(|item| item.0 >= key);
            match bound {
                Some(index) if op == MDB_SET_RANGE || items[index].0 == key => Some(index),
                _ => None,
            }
        };
        if found.is_none() {
            self.place.set(Place::Lost);
            return failure(MDB_NOTFOUND);
        }
        if op == MDB_SET {
            self.go_quietly(found)
        } else {
            self.go(key.as_ptr() as usize, found)
        }
    }

    fn seek_both(&self, key: &[u8], data: &[u8], op: u32) -> CursorReply<'static> {
        let found = {
            let items = self.db.items.borrow();
            items.iter().position(|item| {
                item.0 == key && (item.1 == data || op == MDB_GET_BOTH_RANGE && item.1 >= data)
            })
        };
        self.go_quietly(found)
    }
}

impl Cursor<'static> for MemoryCursor<'_> {
    fn calls(&self) -> CallRecord<'static> {
        unreachable!()
    }

    fn cursor_get(
        &mut self,
        key: Option<&[u8]>,
        data: Option<&[u8]>,
        op: u32,
    ) -> CursorReply<'static> {
        let len = self.db.items.borrow().len();
        match op {
            MDB_FIRST => self.go(0, Some(0)),
            MDB_LAST => self.go(0, len.checked_sub(1)),
            MDB_NEXT => match self.place.get() {
                Place::Unset => self.go(0, Some(0)),
                Place::At(index) => self.go(0, Some(index + 1)),
                Place::Gap(index) => self.go(0, Some(index)),
                Place::Lost => failure(MDB_NOTFOUND),
            },
            MDB_PREV => match self.place.get() {
                Place::Unset => self.go(0, len.checked_sub(1)),
                Place::At(index) | Place::Gap(index) => self.go(0, index.checked_sub(1)),
                Place::Lost => failure(MDB_NOTFOUND),
            },
            MDB_GET_CURRENT => match self.current() {
                Some(index) => self.go(0, Some(index)),
                None => failure(libc::EINVAL),
            },
            MDB_SET | MDB_SET_KEY | MDB_SET_RANGE => self.seek(key, op),
            _ if !self.db.dup_sort => failure(MDB_INCOMPATIBLE),
            MDB_FIRST_DUP => self.go_quietly(self.group().map(|(first, _)| first)),
            MDB_LAST_DUP => self.go_quietly(self.group().map(|(_, last)| last)),
            MDB_NEXT_DUP => match (self.current(), self.group()) {
                (Some(index), Some((_, last))) if index < last => self.go(0, Some(index + 1)),
                _ => failure(MDB_NOTFOUND),
            },
            MDB_PREV_DUP => match (self.current(), self.group()) {
                (Some(index), Some((first, _))) if index > first => self.go(0, Some(index - 1)),
                _ => failure(MDB_NOTFOUND),
            },
            MDB_NEXT_NODUP => self.go(0, self.group().map(|(_, last)| last + 1)),
            MDB_PREV_NODUP => self.go(0, self.group().and_then(|(first, _)| first.checked_sub(1))),
            MDB_GET_BOTH | MDB_GET_BOTH_RANGE => self.seek_both(key.unwrap(), data.unwrap(), op),
            MDB_GET_MULTIPLE => match self.group() {
                Some((first, last)) => {
                    let items = self.db.items.borrow();
                    let all: Vec<u8> =
                        items[first..=last].iter().flat_map(|item| item.1.to_vec()).collect();
                    self.place.set(Place::At(last));
                    CursorReply { code: MDB_SUCCESS, data: keep(&all), ..failure(MDB_SUCCESS) }
                }
                None => failure(MDB_NOTFOUND),
            },
            MDB_NEXT_MULTIPLE => failure(MDB_NOTFOUND),
            _ => failure(libc::EINVAL),
        }
    }
}

impl WriteCursor<'static> for MemoryCursor<'_> {
    fn cursor_put(&mut self, key: &[u8], data: &[u8], flags: u32) -> i32 {
        if flags & MDB_CURRENT != 0 {
            return match self.current() {
                Some(index) => {
                    self.db.items.borrow_mut()[index].1 = keep(data);
                    MDB_SUCCESS
                }
                None => libc::EINVAL,
            };
        }
        if flags & MDB_NODUPDATA != 0 && self.db.items.borrow().contains(&(key, data)) {
            return MDB_KEYEXIST;
        }
        let index = self.db.put(key, data);
        self.place.set(Place::At(index));
        MDB_SUCCESS
    }

    fn cursor_del(&mut self, flags: u32) -> i32 {
        let index = match self.current() {
            Some(index) if index < self.db.items.borrow().len() => index,
            _ => return libc::EINVAL,
        };
        if flags & MDB_NODUPDATA != 0 {
            let (first, last) = self.group().unwrap();
            self.db.items.borrow_mut().drain(first..=last);
            self.place.set(Place::Gap(first));
        } else {
            self.db.items.borrow_mut().remove(index);
            self.place.set(Place::Gap(index));
        }
        MDB_SUCCESS
    }
}

fn collect<C: Cursor<'static>>(mut iter: Iter<'static, C>) -> Result<Vec<Pair>, Error> {
    let mut items = Vec::new();
    while let Some(item) = iter.next() {
        items.push(item?);
    }
    Ok(items)
}

fn count<C: Cursor<'static>>(mut iter: Iter<'static, C>) -> usize {
    let mut count = 0;
    while iter.next().is_some() {
        count += 1;
    }
    count
}

fn pair(key: &'static [u8], data: &'static [u8]) -> (Option<&'static [u8]>, &'static [u8]) {
    (Some(key), data)
}

const FOUR: [(&[u8], &[u8]); 4] =
    [(b"key1", b"val1"), (b"key2", b"val2"), (b"key3", b"val3"), (b"key5", b"val5")];

const FIVE: [(&[u8], &[u8]); 5] = [
    (b"key1", b"val1"),
    (b"key2", b"val2"),
    (b"key3", b"val3"),
    (b"key4", b"val4"),
    (b"key5", b"val5"),
];

const TWO_BY_THREE: [(&[u8], &[u8]); 6] =
    [(b"a", b"1"), (b"a", b"2"), (b"a", b"3"), (b"b", b"1"), (b"b", b"2"), (b"b", b"3")];

#[test]
fn test_get() {
    let db = Db::new();
    db.put(b"key1", b"val1");
    db.put(b"key2", b"val2");
    db.put(b"key3", b"val3");

    let mut cursor = db.ro();
    assert_eq!(pair(b"key1", b"val1"), cursor.get(None, None, MDB_FIRST).unwrap());
    assert_eq!(pair(b"key1", b"val1"), cursor.get(None, None, MDB_GET_CURRENT).unwrap());
    assert_eq!(pair(b"key2", b"val2"), cursor.get(None, None, MDB_NEXT).unwrap());
    assert_eq!(pair(b"key1", b"val1"), cursor.get(None, None, MDB_PREV).unwrap());
    assert_eq!(pair(b"key3", b"val3"), cursor.get(None, None, MDB_LAST).unwrap());
    assert_eq!((None, &b"val2"[..]), cursor.get(Some(b"key2"), None, MDB_SET).unwrap());
    assert_eq!(pair(b"key3", b"val3"), cursor.get(Some(&b"key3"[..]), None, MDB_SET_KEY).unwrap());
    assert_eq!(
        pair(b"key3", b"val3"),
        cursor.get(Some(&b"key2\0"[..]), None, MDB_SET_RANGE).unwrap()
    );
}

#[test]
fn test_get_dup() {
    let db = Db::new_dup_sort();
    db.put(b"key1", b"val1");
    db.put(b"key1", b"val2");
    db.put(b"key1", b"val3");
    db.put(b"key2", b"val1");
    db.put(b"key2", b"val2");
    db.put(b"key2", b"val3");

    let mut cursor = db.ro();
    assert_eq!(pair(b"key1", b"val1"), cursor.get(None, None, MDB_FIRST).unwrap());
    assert_eq!((None, &b"val1"[..]), cursor.get(None, None, MDB_FIRST_DUP).unwrap());
    assert_eq!(pair(b"key1", b"val1"), cursor.get(None, None, MDB_GET_CURRENT).unwrap());
    assert_eq!(pair(b"key2", b"val1"), cursor.get(None, None, MDB_NEXT_NODUP).unwrap());
    assert_eq!(pair(b"key2", b"val2"), cursor.get(None, None, MDB_NEXT_DUP).unwrap());
    assert_eq!(pair(b"key2", b"val3"), cursor.get(None, None, MDB_NEXT_DUP).unwrap());
    assert!(cursor.get(None, None, MDB_NEXT_DUP).is_err());
    assert_eq!(pair(b"key2", b"val2"), cursor.get(None, None, MDB_PREV_DUP).unwrap());
    assert_eq!((None, &b"val3"[..]), cursor.get(None, None, MDB_LAST_DUP).unwrap());
    assert_eq!(pair(b"key1", b"val3"), cursor.get(None, None, MDB_PREV_NODUP).unwrap());
    assert_eq!((None, &b"val1"[..]), cursor.get(Some(&b"key1"[..]), None, MDB_SET).unwrap());
    assert_eq!(pair(b"key2", b"val1"), cursor.get(Some(&b"key2"[..]), None, MDB_SET_KEY).unwrap());
    assert_eq!(
        pair(b"key2", b"val1"),
        cursor.get(Some(&b"key1\0"[..]), None, MDB_SET_RANGE).unwrap()
    );
    assert_eq!(
        (None, &b"val3"[..]),
        cursor.get(Some(&b"key1"[..]), Some(&b"val3"[..]), MDB_GET_BOTH).unwrap()
    );
    assert_eq!(
        (None, &b"val1"[..]),
        cursor.get(Some(&b"key2"[..]), Some(&b"val"[..]), MDB_GET_BOTH_RANGE).unwrap()
    );
}

#[test]
fn test_get_dupfixed() {
    let db = Db::new_dup_sort();
    db.put(b"key1", b"val1");
    db.put(b"key1", b"val2");
    db.put(b"key1", b"val3");
    db.put(b"key2", b"val4");
    db.put(b"key2", b"val5");
    db.put(b"key2", b"val6");

    let mut cursor = db.ro();
    assert_eq!(pair(b"key1", b"val1"), cursor.get(None, None, MDB_FIRST).unwrap());
    assert_eq!((None, &b"val1val2val3"[..]), cursor.get(None, None, MDB_GET_MULTIPLE).unwrap());
    assert!(cursor.get(None, None, MDB_NEXT_MULTIPLE).is_err());
}

#[test]
fn test_iter() {
    let items = FOUR;
    let db = Db::with(&items);

    assert_eq!(items.to_vec(), collect(db.ro().into_iter()).unwrap());
    assert_eq!(items.to_vec(), collect(db.ro().into_iter_start()).unwrap());

    let mut cursor = db.ro();
    cursor.get(Some(b"key2"), None, MDB_SET).unwrap();
    assert_eq!(items[2..].to_vec(), collect(cursor.into_iter()).unwrap());

    assert_eq!(items.to_vec(), collect(db.ro().into_iter_start()).unwrap());

    let iter = db.ro().into_iter_from(b"key2");
    let cursor = iter.into_cursor().unwrap();
    assert_eq!(items[1..].to_vec(), collect(cursor.into_iter_from(b"key2")).unwrap());

    assert_eq!(items[3..].to_vec(), collect(db.ro().into_iter_from(b"key4")).unwrap());

    assert_eq!(Vec::<Pair>::new(), collect(db.ro().into_iter_from(b"key6")).unwrap());
}

#[test]
fn test_iter_empty_database() {
    let db = Db::new();
    assert_eq!(0, count(db.ro().into_iter()));
    assert_eq!(0, count(db.ro().into_iter_start()));
    assert_eq!(0, count(db.ro().into_iter_from(b"foo")));
    assert_eq!(0, count(db.ro().into_iter_rev()));
    assert_eq!(0, count(db.ro().into_iter_from_rev(b"foo")));
}

#[test]
fn test_iter_empty_dup_database() {
    let db = Db::new_dup_sort();
    assert_eq!(0, count(db.ro().into_iter()));
    assert_eq!(0, count(db.ro().into_iter_start()));
    assert_eq!(0, count(db.ro().into_iter_from(b"foo")));
    assert_eq!(0, count(db.ro().into_iter_dup_of(b"foo")));
    assert_eq!(0, count(db.ro().into_iter_rev()));
    assert_eq!(0, count(db.ro().into_iter_from_rev(b"foo")));
}

#[test]
fn test_iter_dup() {
    let items: [(&[u8], &[u8]); 12] = [
        (b"a", b"1"),
        (b"a", b"2"),
        (b"a", b"3"),
        (b"b", b"1"),
        (b"b", b"2"),
        (b"b", b"3"),
        (b"c", b"1"),
        (b"c", b"2"),
        (b"c", b"3"),
        (b"e", b"1"),
        (b"e", b"2"),
        (b"e", b"3"),
    ];
    let db = Db::with_dups(&items);

    assert_eq!(items[3..6].to_vec(), collect(db.ro().into_iter_dup_of(b"b")).unwrap());
    assert_eq!(0, count(db.ro().into_iter_dup_of(b"foo")));
}

#[test]
fn test_iter_rev() {
    let db = Db::with(&FOUR);
    let forward = collect(db.ro().into_iter_start()).unwrap();
    let backward = collect(db.ro().into_iter_rev()).unwrap();

    // Reverse-all is exactly the forward iteration reversed.
    assert_eq!(forward.iter().rev().copied().collect::<Vec<_>>(), backward);
    assert_eq!(FOUR.iter().rev().copied().collect::<Vec<_>>(), backward);
}

#[test]
fn test_iter_rev_ignores_position() {
    let db = Db::with(&FOUR);
    let mut cursor = db.ro();
    // Pre-seeking the cursor to a middle key must not change a full reverse scan.
    cursor.get(Some(b"key2"), None, MDB_SET).unwrap();
    let backward = collect(cursor.into_iter_rev()).unwrap();
    assert_eq!(FOUR.iter().rev().copied().collect::<Vec<_>>(), backward);
}

#[test]
fn test_iter_from_rev() {
    let items = FOUR;
    let db = Db::with(&items);
    let rev_from = |key: &[u8]| collect(db.ro().into_iter_from_rev(key)).unwrap();

    // Requested key present: included, then descending.
    assert_eq!(vec![items[1], items[0]], rev_from(b"key2"));
    // Requested key present and smallest: only that key.
    assert_eq!(vec![items[0]], rev_from(b"key1"));
    // Requested key absent inside the range: starts at the nearest smaller key.
    assert_eq!(vec![items[2], items[1], items[0]], rev_from(b"key4"));
    // Requested key greater than every key: full descending scan.
    assert_eq!(vec![items[3], items[2], items[1], items[0]], rev_from(b"key6"));
    // Requested key smaller than every key: empty.
    assert_eq!(Vec::<Pair>::new(), rev_from(b"key0"));
}

#[test]
fn test_iter_from_rev_map_borrowed_key() {
    let items: [(&[u8], &[u8]); 3] = [(b"key1", b"val1"), (b"key2", b"val2"), (b"key3", b"val3")];
    let db = Db::with(&items);

    // This key slice is the stored key itself.
    let mut seek_cursor = db.ro();
    let (borrowed, _) = seek_cursor.get(Some(b"key2"), None, MDB_SET_KEY).unwrap();
    let borrowed = borrowed.unwrap();

    let out = collect(db.ro().into_iter_from_rev(borrowed)).unwrap();
    assert_eq!(vec![items[1], items[0]], out);
}

#[test]
fn test_iter_from_rev_map_borrowed_prefix() {
    // "kex" sorts below "key"; "key" (a prefix of "key2") sorts between "kex" and "key2".
    let items: [(&[u8], &[u8]); 3] = [(b"kex", b"v0"), (b"key2", b"v2"), (b"key3", b"v3")];
    let db = Db::with(&items);

    // The prefix still aliases the stored key, but the true landing is the greater key "key2",
    // which must be excluded.
    let mut seek_cursor = db.ro();
    let (k2, _) = seek_cursor.get(Some(b"key2"), None, MDB_SET_KEY).unwrap();
    let prefix = &k2.unwrap()[..3];

    let out = collect(db.ro().into_iter_from_rev(prefix)).unwrap();
    assert_eq!(vec![items[0]], out);
}

#[test]
fn test_iter_from_rev_empty_key_errors() {
    let db = Db::with(&[(b"key", b"val")]);
    // A zero-length key is rejected; the error surfaces on the first step rather than as an empty
    // iterator.
    let mut iter = db.ro().into_iter_from_rev(b"");
    assert!(matches!(iter.next(), Some(Err(_))));
}

#[test]
fn test_iter_rev_prefix_keys() {
    // Keys where one is a byte-prefix of another. The shorter key comes first.
    let items: [(&[u8], &[u8]); 4] =
        [(&[0x00], b"a"), (&[0x00, 0x00], b"b"), (&[0x00, 0x00, 0x00], b"c"), (&[0x01], b"d")];
    let db = Db::with(&items);

    let backward = collect(db.ro().into_iter_rev()).unwrap();
    assert_eq!(items.iter().rev().copied().collect::<Vec<_>>(), backward);

    let rev_from = |key: &[u8]| collect(db.ro().into_iter_from_rev(key)).unwrap();

    // Exact prefix key: its longer extensions are excluded.
    assert_eq!(vec![items[1], items[0]], rev_from(&[0x00, 0x00]));
    // Absent key inside the prefix chain: starts below it.
    assert_eq!(vec![items[2], items[1], items[0]], rev_from(&[0x00, 0x00, 0x01]));
    // Exact smallest key: only itself.
    assert_eq!(vec![items[0]], rev_from(&[0x00]));
}

#[test]
fn test_iter_rev_single_key() {
    let db = Db::with(&[(b"key", b"val")]);
    let expected: Vec<Pair> = vec![(b"key", b"val")];

    assert_eq!(expected, collect(db.ro().into_iter_rev()).unwrap());
    assert_eq!(expected, collect(db.ro().into_iter_from_rev(b"key")).unwrap());
    // A request above the only key still finds it.
    assert_eq!(expected, collect(db.ro().into_iter_from_rev(b"kez")).unwrap());
    // A request below the only key finds nothing.
    assert_eq!(0, count(db.ro().into_iter_from_rev(b"kex")));
}

#[test]
fn test_iter_rev_dup() {
    let items = TWO_BY_THREE;
    let db = Db::with_dups(&items);

    // Reverse-all mirrors the forward iteration exactly, duplicates included.
    let backward = collect(db.ro().into_iter_rev()).unwrap();
    assert_eq!(items.iter().rev().copied().collect::<Vec<_>>(), backward);

    // Exact hit yields every duplicate of the matched key, descending, before crossing to earlier
    // keys.
    let from_b = collect(db.ro().into_iter_from_rev(b"b")).unwrap();
    assert_eq!(
        vec![
            (&b"b"[..], &b"3"[..]),
            (b"b", b"2"),
            (b"b", b"1"),
            (b"a", b"3"),
            (b"a", b"2"),
            (b"a", b"1")
        ],
        from_b
    );

    // A key greater than all keys yields the same set.
    let from_c = collect(db.ro().into_iter_from_rev(b"c")).unwrap();
    assert_eq!(from_b, from_c);

    // Absent key between a and b: a's duplicates only.
    let from_ab = collect(db.ro().into_iter_from_rev(b"ab")).unwrap();
    assert_eq!(vec![(&b"a"[..], &b"3"[..]), (b"a", b"2"), (b"a", b"1")], from_ab);

    // A key below all keys: empty.
    assert_eq!(0, count(db.ro().into_iter_from_rev(b"0")));
}

#[test]
fn test_iter_from_rev_dup_middle_key() {
    let items: [(&[u8], &[u8]); 9] = [
        (b"a", b"1"),
        (b"a", b"2"),
        (b"a", b"3"),
        (b"b", b"1"),
        (b"b", b"2"),
        (b"b", b"3"),
        (b"c", b"1"),
        (b"c", b"2"),
        (b"c", b"3"),
    ];
    let db = Db::with_dups(&items);

    // Exact hit on the middle key "b" yields all of b's duplicates descending, then a's; "c" and
    // its duplicates are excluded.
    let from_b = collect(db.ro().into_iter_from_rev(b"b")).unwrap();
    assert_eq!(
        vec![
            (&b"b"[..], &b"3"[..]),
            (b"b", b"2"),
            (b"b", b"1"),
            (b"a", b"3"),
            (b"a", b"2"),
            (b"a", b"1")
        ],
        from_b
    );

    // Exact hit on the smallest key "a" yields only a's duplicates.
    let from_a = collect(db.ro().into_iter_from_rev(b"a")).unwrap();
    assert_eq!(vec![(&b"a"[..], &b"3"[..]), (b"a", b"2"), (b"a", b"1")], from_a);
}

#[test]
fn test_iter_from_rev_dup_subdata_spill() {
    let b_vals: Vec<[u8; 8]> = (0u64..2000).map(u64::to_be_bytes).collect();
    let a_vals: Vec<[u8; 8]> = vec![1u64.to_be_bytes(), 2u64.to_be_bytes()];
    let db = Db::new_dup_sort();
    for v in &a_vals {
        db.put(b"a", v);
    }
    for v in &b_vals {
        db.put(b"b", v);
    }

    let mut expected: Vec<(&[u8], &[u8])> = Vec::new();
    for v in b_vals.iter().rev() {
        expected.push((b"b", &v[..]));
    }
    for v in a_vals.iter().rev() {
        expected.push((b"a", &v[..]));
    }

    let from_b = collect(db.ro().into_iter_from_rev(b"b")).unwrap();
    assert_eq!(expected, from_b);

    let full = collect(db.ro().into_iter_rev()).unwrap();
    assert_eq!(expected, full);
}

fn random_bytes(rng: &mut StdRng, least: usize, most: usize) -> Vec<u8> {
    (0..rng.gen_range(least..=most)).map(|_| rng.gen()).collect()
}

#[test]
fn test_iter_rev_randomized() {
    // Seed is printed so a failing run can be replayed by hardcoding it.
    let seed: u64 = rand::random();
    println!("test_iter_rev_randomized seed: {}", seed);
    let mut rng = StdRng::seed_from_u64(seed);

    let db = Db::new();
    let mut oracle: BTreeMap<Vec<u8>, Vec<u8>> = BTreeMap::new();
    for _ in 0..500 {
        let key = random_bytes(&mut rng, 1, 32);
        let value = random_bytes(&mut rng, 0, 16);
        db.put(&key, &value);
        oracle.insert(key, value);
    }

    let expected: Vec<(&[u8], &[u8])> =
        oracle.iter().rev().map(|(key, value)| (key.as_slice(), value.as_slice())).collect();
    let backward = collect(db.ro().into_iter_rev()).unwrap();
    assert_eq!(expected, backward, "seed {}", seed);

    // Random probes: half drawn from present keys, half fresh and mostly absent.
    for _ in 0..64 {
        let probe: Vec<u8> = if rng.gen_bool(0.5) {
            let index = rng.gen_range(0..oracle.len());
            oracle.keys().nth(index).unwrap().clone()
        } else {
            random_bytes(&mut rng, 1, 32)
        };
        let expected: Vec<(&[u8], &[u8])> = oracle
            .range(..=probe.clone())
            .rev()
            .map(|(key, value)| (key.as_slice(), value.as_slice()))
            .collect();
        let actual = collect(db.ro().into_iter_from_rev(&probe)).unwrap();
        assert_eq!(expected, actual, "seed {} probe {:?}", seed, probe);

        let expected: Vec<(&[u8], &[u8])> = oracle
            .range(probe.clone()..)
            .map(|(key, value)| (key.as_slice(), value.as_slice()))
            .collect();
        let actual = collect(db.ro().into_iter_from(&probe)).unwrap();
        assert_eq!(expected, actual, "seed {} probe {:?}", seed, probe);
    }
}

#[test]
fn test_iter_rev_dup_randomized() {
    // Seed is printed so a failing run can be replayed by hardcoding it.
    let seed: u64 = rand::random();
    println!("test_iter_rev_dup_randomized seed: {}", seed);
    let mut rng = StdRng::seed_from_u64(seed);

    let db = Db::new_dup_sort();
    let mut oracle: BTreeMap<Vec<u8>, BTreeSet<Vec<u8>>> = BTreeMap::new();
    for _ in 0..300 {
        let key = random_bytes(&mut rng, 1, 32);
        let value = random_bytes(&mut rng, 1, 16);
        db.put(&key, &value);
        oracle.entry(key).or_default().insert(value);
    }

    // Full reverse: each key descending, and within a key each duplicate value descending.
    let expected: Vec<(&[u8], &[u8])> = oracle
        .iter()
        .rev()
        .flat_map(|(key, values)| {
            values.iter().rev().map(move |value| (key.as_slice(), value.as_slice()))
        })
        .collect();
    let backward = collect(db.ro().into_iter_rev()).unwrap();
    assert_eq!(expected, backward, "seed {}", seed);

    // Random probes: half drawn from present keys, half fresh and mostly absent.
    for _ in 0..32 {
        let probe: Vec<u8> = if rng.gen_bool(0.5) {
            let index = rng.gen_range(0..oracle.len());
            oracle.keys().nth(index).unwrap().clone()
        } else {
            random_bytes(&mut rng, 1, 32)
        };
        let expected: Vec<(&[u8], &[u8])> = oracle
            .range(..=probe.clone())
            .rev()
            .flat_map(|(key, values)| {
                values.iter().rev().map(move |value| (key.as_slice(), value.as_slice()))
            })
            .collect();
        let actual = collect(db.ro().into_iter_from_rev(&probe)).unwrap();
        assert_eq!(expected, actual, "seed {} probe {:?}", seed, probe);
    }
}

#[test]
fn test_iter_del_get() {
    let db = Db::new_dup_sort();
    let items: [(&[u8], &[u8]); 2] = [(b"a", b"1"), (b"b", b"2")];
    let r: Vec<Pair> = Vec::new();
    assert_eq!(r, collect(db.ro().into_iter_dup_of(b"a")).unwrap());

    for (key, data) in &items {
        db.put(key, data);
    }

    assert_eq!(items[..1].to_vec(), collect(db.rw().into_iter_dup_of(b"a")).unwrap());

    let mut cursor = db.rw();
    assert_eq!((None, &b"1"[..]), cursor.get(Some(b"a"), Some(b"1"), MDB_SET).unwrap());
    cursor.del(WriteFlags::empty()).unwrap();

    assert_eq!(r, collect(cursor.into_iter_dup_of(b"a")).unwrap());
}

#[test]
fn test_put_del() {
    let db = Db::new();
    let mut cursor = db.rw();

    cursor.put(b"key1", b"val1", WriteFlags::empty()).unwrap();
    cursor.put(b"key2", b"val2", WriteFlags::empty()).unwrap();
    cursor.put(b"key3", b"val3", WriteFlags::empty()).unwrap();

    assert_eq!(pair(b"key3", b"val3"), cursor.get(None, None, MDB_GET_CURRENT).unwrap());

    cursor.del(WriteFlags::empty()).unwrap();
    assert_eq!(pair(b"key2", b"val2"), cursor.get(None, None, MDB_LAST).unwrap());
}

#[test]
fn test_rw_cursor_walk_fixed() {
    let db = Db::with(&[(b"key1", b"val1"), (b"key2", b"val2"), (b"key3", b"val3")]);
    let mut cursor = db.rw();

    // An unpositioned cursor starts the forward walk at the first item.
    assert_eq!(Some((&b"key1"[..], &b"val1"[..])), cursor.next().unwrap());
    assert_eq!(Some((&b"key2"[..], &b"val2"[..])), cursor.next().unwrap());
    assert_eq!(Some((&b"key3"[..], &b"val3"[..])), cursor.next().unwrap());
    assert_eq!(None, cursor.next().unwrap());

    assert_eq!(Some((&b"key1"[..], &b"val1"[..])), cursor.first().unwrap());
    assert_eq!(Some((&b"key3"[..], &b"val3"[..])), cursor.last().unwrap());

    assert_eq!(Some((&b"key2"[..], &b"val2"[..])), cursor.prev().unwrap());
    assert_eq!(Some((&b"key1"[..], &b"val1"[..])), cursor.prev().unwrap());
    assert_eq!(None, cursor.prev().unwrap());

    // Moving is not an update operation, so items from separate positioning calls coexist.
    let first = cursor.first().unwrap().unwrap();
    let second = cursor.next().unwrap().unwrap();
    assert_eq!((&b"key1"[..], &b"val1"[..]), first);
    assert_eq!((&b"key2"[..], &b"val2"[..]), second);
}

#[test]
fn test_rw_cursor_walk_empty_database() {
    let db = Db::new();
    let mut cursor = db.rw();

    // An empty database ends the walk rather than erroring.
    assert_eq!(None, cursor.first().unwrap());
    assert_eq!(None, cursor.last().unwrap());
    assert_eq!(None, cursor.next().unwrap());
    assert_eq!(None, cursor.prev().unwrap());
}

#[test]
fn test_rw_cursor_walk_dup() {
    let db = Db::with_dups(&TWO_BY_THREE);
    let mut cursor = db.rw();
    let expected: Vec<(Vec<u8>, Vec<u8>)> =
        TWO_BY_THREE.iter().map(|(key, data)| (key.to_vec(), data.to_vec())).collect();

    // Every duplicate of a key is walked before crossing to the next key.
    let mut forward: Vec<(Vec<u8>, Vec<u8>)> = Vec::new();
    let mut step = cursor.first().unwrap();
    while let Some((key, data)) = step {
        forward.push((key.to_vec(), data.to_vec()));
        step = cursor.next().unwrap();
    }
    assert_eq!(expected, forward);

    let mut backward: Vec<(Vec<u8>, Vec<u8>)> = Vec::new();
    let mut step = cursor.last().unwrap();
    while let Some((key, data)) = step {
        backward.push((key.to_vec(), data.to_vec()));
        step = cursor.prev().unwrap();
    }
    assert_eq!(expected.iter().rev().cloned().collect::<Vec<_>>(), backward);
}

#[test]
fn test_rw_cursor_walk_and_delete() {
    let items = FIVE;
    let db = Db::with(&items);

    // Decide while the item is borrowed, then mutate.
    {
        let mut cursor = db.rw();
        while let Some((key, data)) = cursor.next().unwrap() {
            let doomed = key == &b"key2"[..] || data == &b"val4"[..];
            if doomed {
                cursor.del(WriteFlags::empty()).unwrap();
            }
        }
    }

    // Exactly the matching entries are gone; the rest are untouched.
    let remaining = collect(db.ro().into_iter_start()).unwrap();
    assert_eq!(vec![items[0], items[2], items[4]], remaining);
}

#[test]
fn test_rw_cursor_next_after_del_does_not_skip() {
    let items = FIVE;
    let db = Db::with(&items);

    let mut visited: Vec<Vec<u8>> = Vec::new();
    {
        let mut cursor = db.rw();
        while let Some((key, _data)) = cursor.next().unwrap() {
            visited.push(key.to_vec());
            let doomed = key == &b"key3"[..];
            if doomed {
                cursor.del(WriteFlags::empty()).unwrap();
            }
        }
    }

    // Deleting key3 must not make the following next() skip key4.
    let expected_visited: Vec<Vec<u8>> = items.iter().map(|(key, _data)| key.to_vec()).collect();
    assert_eq!(expected_visited, visited);

    let remaining = collect(db.ro().into_iter_start()).unwrap();
    assert_eq!(vec![items[0], items[1], items[3], items[4]], remaining);
}

#[test]
fn test_rw_cursor_walk_and_delete_dup() {
    let items = TWO_BY_THREE;
    let db = Db::with_dups(&items);

    let mut visited: Vec<(Vec<u8>, Vec<u8>)> = Vec::new();
    {
        let mut cursor = db.rw();
        while let Some((key, data)) = cursor.next().unwrap() {
            visited.push((key.to_vec(), data.to_vec()));
            let doomed = data == &b"2"[..];
            if doomed {
                cursor.del(WriteFlags::empty()).unwrap();
            }
        }
    }

    // Deleting a duplicate must not cost the visit of the one after it.
    let expected_visited: Vec<(Vec<u8>, Vec<u8>)> =
        items.iter().map(|(key, data)| (key.to_vec(), data.to_vec())).collect();
    assert_eq!(expected_visited, visited);

    let remaining = collect(db.ro().into_iter_start()).unwrap();
    assert_eq!(vec![items[0], items[2], items[3], items[5]], remaining);
}

#[test]
fn test_rw_cursor_walk_and_delete_randomized() {
    // Seed is printed so a failing run can be replayed by hardcoding it.
    let seed: u64 = rand::random();
    println!("test_rw_cursor_walk_and_delete_randomized seed: {}", seed);
    let mut rng = StdRng::seed_from_u64(seed);

    let db = Db::new();
    let mut oracle: BTreeMap<Vec<u8>, Vec<u8>> = BTreeMap::new();
    let count: usize = rng.gen_range(1..=400);
    for _ in 0..count {
        let key = random_bytes(&mut rng, 1, 32);
        let value = random_bytes(&mut rng, 0, 16);
        db.put(&key, &value);
        oracle.insert(key, value);
    }

    // A random threshold on the key's first byte drives the deletions, so a run covers lone
    // deletes, runs of consecutive deletes, and deletes at either end.
    let threshold: u8 = rng.gen();
    let doomed = |key: &[u8]| match key.first() {
        Some(byte) => *byte < threshold,
        None => false,
    };

    let mut visited: Vec<Vec<u8>> = Vec::new();
    {
        let mut cursor = db.rw();
        while let Some((key, _data)) = cursor.next().unwrap() {
            visited.push(key.to_vec());
            if doomed(key) {
                cursor.del(WriteFlags::empty()).unwrap();
            }
        }
    }

    // No delete may cost a visit: every stored key is seen exactly once, in order, however the
    // deletions fall.
    let expected_visited: Vec<Vec<u8>> = oracle.keys().cloned().collect();
    assert_eq!(expected_visited, visited, "seed {}", seed);

    oracle.retain(|key, _value| !doomed(key));

    let remaining = collect(db.ro().into_iter_start()).unwrap();
    let expected: Vec<(&[u8], &[u8])> =
        oracle.iter().map(|(key, value)| (key.as_slice(), value.as_slice())).collect();
    assert_eq!(expected, remaining, "seed {}", seed);
}

#[test]
fn test_rw_cursor_walk_and_delete_dup_randomized() {
    // Seed is printed so a failing run can be replayed by hardcoding it.
    let seed: u64 = rand::random();
    println!("test_rw_cursor_walk_and_delete_dup_randomized seed: {}", seed);
    let mut rng = StdRng::seed_from_u64(seed);

    let db = Db::new_dup_sort();
    let mut oracle: BTreeMap<Vec<u8>, BTreeSet<Vec<u8>>> = BTreeMap::new();
    let count: usize = rng.gen_range(1..=300);
    for _ in 0..count {
        // A small key alphabet piles duplicates under each key instead of making every key unique.
        let key: Vec<u8> = vec![rng.gen_range(b'a'..=b'e')];
        let value = random_bytes(&mut rng, 1, 16);
        db.put(&key, &value);
        oracle.entry(key).or_default().insert(value);
    }

    // The predicate reads the duplicate value, so deletions land inside a key's duplicate run as
    // well as at its edges.
    let threshold: u8 = rng.gen();
    let doomed = |value: &[u8]| match value.first() {
        Some(byte) => *byte < threshold,
        None => false,
    };

    let mut visited: Vec<(Vec<u8>, Vec<u8>)> = Vec::new();
    {
        let mut cursor = db.rw();
        while let Some((key, data)) = cursor.next().unwrap() {
            visited.push((key.to_vec(), data.to_vec()));
            if doomed(data) {
                cursor.del(WriteFlags::empty()).unwrap();
            }
        }
    }

    // Deleting a duplicate must not cost the visit of the one after it.
    let expected_visited: Vec<(Vec<u8>, Vec<u8>)> = oracle
        .iter()
        .flat_map(|(key, values)| values.iter().map(move |value| (key.clone(), value.clone())))
        .collect();
    assert_eq!(expected_visited, visited, "seed {}", seed);

    for values in oracle.values_mut() {
        values.retain(|value| !doomed(value));
    }

    let remaining = collect(db.ro().into_iter_start()).unwrap();
    let expected: Vec<(&[u8], &[u8])> = oracle
        .iter()
        .flat_map(|(key, values)| {
            values.iter().map(move |value| (key.as_slice(), value.as_slice()))
        })
        .collect();
    assert_eq!(expected, remaining, "seed {}", seed);
}

#[test]
fn a_failed_seek_yields_its_error_every_time() {
    let db = Db::with(&[(b"key", b"val")]);
    for mut iter in [
        db.ro().into_iter_from(b""),
        db.ro().into_iter_from_rev(b""),
        db.ro().into_iter_dup_of(b""),
    ] {
        assert_eq!(Some(Err(Error::BadValSize)), iter.next());
        assert_eq!(Some(Err(Error::BadValSize)), iter.next());
        assert!(matches!(iter.into_cursor(), Err(Error::BadValSize)));
    }
}

/// A cursor that replies with a code, and tells when it is closed.
struct Refusing<'a> {
    code: i32,
    closed: &'a Cell<bool>,
}

impl Cursor<'static> for Refusing<'_> {
    fn calls(&self) -> CallRecord<'static> {
        unreachable!()
    }

    fn cursor_get(
        &mut self,
        _key: Option<&[u8]>,
        _data: Option<&[u8]>,
        _op: u32,
    ) -> CursorReply<'static> {
        failure(self.code)
    }
}

impl Drop for Refusing<'_> {
    fn drop(&mut self) {
        self.closed.set(true);
    }
}

#[test]
fn a_failed_iterator_closes_its_cursor_at_once() {
    let closed = Cell::new(false);
    let cursor = |code| {
        closed.set(false);
        Refusing { code, closed: &closed }
    };
    let mut iter = cursor(MDB_CORRUPTED).into_iter_from(b"key");
    assert!(closed.get());
    assert_eq!(Some(Err(Error::Corrupted)), iter.next());
    let mut iter = cursor(MDB_CORRUPTED).into_iter_from_rev(b"key");
    assert!(closed.get());
    assert_eq!(Some(Err(Error::Corrupted)), iter.next());
    let mut iter = cursor(MDB_CORRUPTED).into_iter_dup_of(b"key");
    assert!(closed.get());
    assert_eq!(Some(Err(Error::Corrupted)), iter.next());

    // One that was positioned keeps it, also where a step fails.
    let mut iter = cursor(MDB_NOTFOUND).into_iter_from(b"key");
    assert_eq!(None, iter.next());
    assert!(!closed.get());
    let mut iter = cursor(MDB_CORRUPTED).into_iter_start();
    assert_eq!(Some(Err(Error::Corrupted)), iter.next());
    assert!(!closed.get());
}

#[test]
fn a_reclaimed_cursor_is_where_the_iteration_stopped() {
    let db = Db::with(&FOUR);
    let mut iter = db.ro().into_iter_start();
    assert_eq!(Some(Ok(FOUR[0])), iter.next());
    assert_eq!(Some(Ok(FOUR[1])), iter.next());
    let mut cursor = iter.into_cursor().unwrap();
    assert_eq!(pair(b"key2", b"val2"), cursor.get(None, None, MDB_GET_CURRENT).unwrap());
}

/// A cursor that writes down the calls that are made on it.
struct Recorder<'db> {
    cursor: MemoryCursor<'db>,
    calls: &'db RefCell<Vec<(u32, Option<Vec<u8>>)>>,
}

impl Cursor<'static> for Recorder<'_> {
    fn calls(&self) -> CallRecord<'static> {
        unreachable!()
    }

    fn cursor_get(
        &mut self,
        key: Option<&[u8]>,
        data: Option<&[u8]>,
        op: u32,
    ) -> CursorReply<'static> {
        assert_eq!(None, data);
        self.calls.borrow_mut().push((op, key.map(|key| key.to_vec())));
        self.cursor.cursor_get(key, data, op)
    }
}

#[test]
fn each_step_of_an_iterator_is_one_call() {
    let db = Db::with_dups(&TWO_BY_THREE);
    let calls = RefCell::new(Vec::new());
    let cursor = || Recorder { cursor: db.cursor(), calls: &calls };
    let on = |op: u32| (op, None);
    let to = |op: u32, key: &[u8]| (op, Some(key.to_vec()));

    assert_eq!(6, count(cursor().into_iter()));
    assert_eq!(vec![on(MDB_NEXT); 7], calls.take());

    assert_eq!(6, count(cursor().into_iter_start()));
    assert_eq!([vec![on(MDB_FIRST)], vec![on(MDB_NEXT); 6]].concat(), calls.take());

    assert_eq!(6, count(cursor().into_iter_rev()));
    assert_eq!([vec![on(MDB_LAST)], vec![on(MDB_PREV); 6]].concat(), calls.take());

    assert_eq!(3, count(cursor().into_iter_from(b"b")));
    let sought = vec![to(MDB_SET_RANGE, b"b"), on(MDB_GET_CURRENT)];
    assert_eq!([sought, vec![on(MDB_NEXT); 3]].concat(), calls.take());

    assert_eq!(3, count(cursor().into_iter_from_rev(b"a")));
    let sought = vec![to(MDB_SET, b"a"), on(MDB_LAST_DUP), on(MDB_GET_CURRENT)];
    assert_eq!([sought, vec![on(MDB_PREV); 3]].concat(), calls.take());

    assert_eq!(3, count(cursor().into_iter_from_rev(b"ab")));
    let sought = vec![to(MDB_SET, b"ab"), to(MDB_SET_RANGE, b"ab")];
    assert_eq!([sought, vec![on(MDB_PREV); 4]].concat(), calls.take());

    assert_eq!(3, count(cursor().into_iter_dup_of(b"a")));
    let sought = vec![to(MDB_SET, b"a"), on(MDB_GET_CURRENT)];
    assert_eq!([sought, vec![on(MDB_NEXT_DUP); 3]].concat(), calls.take());

    assert_eq!(0, count(cursor().into_iter_dup_of(b"ab")));
    assert_eq!(vec![to(MDB_SET, b"ab"), on(MDB_LAST), on(MDB_NEXT)], calls.take());

    // A failed iterator makes no call at all.
    let mut iter = cursor().into_iter_from(b"");
    assert_eq!(vec![to(MDB_SET_RANGE, b"")], calls.take());
    assert_eq!(Some(Err(Error::BadValSize)), iter.next());
    assert_eq!(0, calls.borrow().len());
}

#[test]
fn a_put_moves_the_cursor_to_the_item() {
    let db = Db::with(&FOUR);
    let mut cursor = db.rw();
    assert_eq!(Some(FOUR[0]), cursor.first().unwrap());

    // A walk resumes from the item that was put, and so skips what is between.
    cursor.put(b"key4", b"val4", WriteFlags::empty()).unwrap();
    assert_eq!(pair(b"key4", b"val4"), cursor.get(None, None, MDB_GET_CURRENT).unwrap());
    assert_eq!(Some(FOUR[3]), cursor.next().unwrap());

    // A key has one data item.
    cursor.put(b"key2", b"other", WriteFlags::empty()).unwrap();
    assert_eq!(pair(b"key2", b"other"), cursor.get(None, None, MDB_GET_CURRENT).unwrap());
    assert_eq!(Some(FOUR[2]), cursor.next().unwrap());
    cursor.put(b"key6", b"val6", WriteFlags::empty()).unwrap();
    assert_eq!(None, cursor.next().unwrap());

    let expected: Vec<Pair> = vec![
        (b"key1", b"val1"),
        (b"key2", b"other"),
        (b"key3", b"val3"),
        (b"key4", b"val4"),
        (b"key5", b"val5"),
        (b"key6", b"val6"),
    ];
    assert_eq!(expected, collect(db.ro().into_iter_start()).unwrap());
}

#[test]
fn a_put_adds_to_the_data_items_of_a_key() {
    let db = Db::with_dups(&[(b"a", b"1"), (b"a", b"3"), (b"b", b"1")]);
    let mut cursor = db.rw();
    cursor.put(b"a", b"2", WriteFlags::empty()).unwrap();
    assert_eq!(pair(b"a", b"2"), cursor.get(None, None, MDB_GET_CURRENT).unwrap());
    cursor.put(b"a", b"3", WriteFlags::empty()).unwrap();
    assert_eq!(pair(b"a", b"3"), cursor.get(None, None, MDB_GET_CURRENT).unwrap());
    let expected: Vec<Pair> = vec![(b"a", b"1"), (b"a", b"2"), (b"a", b"3"), (b"b", b"1")];
    assert_eq!(expected, collect(db.ro().into_iter_start()).unwrap());

    cursor.put(b"a", b"2", WriteFlags::empty()).unwrap();
    assert_eq!(Some((&b"a"[..], &b"3"[..])), cursor.next().unwrap());
    cursor.put(b"a", b"4", WriteFlags::empty()).unwrap();
    assert_eq!(Some((&b"b"[..], &b"1"[..])), cursor.next().unwrap());
}

#[test]
fn overwriting_leaves_a_walk_where_it_is() {
    let db = Db::with(&FOUR);
    let mut cursor = db.rw();
    let mut visited: Vec<Pair> = Vec::new();
    while let Some((key, data)) = cursor.next().unwrap() {
        visited.push((key, data));
        cursor.put(key, b"new", WriteFlags { bits: MDB_CURRENT }).unwrap();
    }
    assert_eq!(FOUR.to_vec(), visited);
    let expected: Vec<Pair> = FOUR.iter().map(|(key, _)| (*key, &b"new"[..])).collect();
    assert_eq!(expected, collect(db.ro().into_iter_start()).unwrap());
}

#[test]
fn overwriting_among_several_data_items_leaves_a_walk_where_it_is() {
    let db = Db::with_dups(&[(b"a", b"11"), (b"a", b"21"), (b"a", b"31"), (b"b", b"11")]);
    let mut cursor = db.rw();
    cursor.first().unwrap();
    assert_eq!(Some((&b"a"[..], &b"21"[..])), cursor.next().unwrap());
    // It still sorts between its neighbours.
    cursor.put(b"a", b"22", WriteFlags { bits: MDB_CURRENT }).unwrap();
    assert_eq!(pair(b"a", b"22"), cursor.get(None, None, MDB_GET_CURRENT).unwrap());
    assert_eq!(Some((&b"a"[..], &b"31"[..])), cursor.next().unwrap());
    let expected: Vec<Pair> = vec![(b"a", b"11"), (b"a", b"22"), (b"a", b"31"), (b"b", b"11")];
    assert_eq!(expected, collect(db.ro().into_iter_start()).unwrap());
}

#[test]
fn a_delete_among_several_data_items_leaves_the_cursor_on_what_followed() {
    let db = Db::with_dups(&TWO_BY_THREE);
    let mut cursor = db.rw();
    cursor.first().unwrap();
    cursor.next().unwrap();
    cursor.del(WriteFlags::empty()).unwrap();
    assert_eq!(pair(b"a", b"3"), cursor.get(None, None, MDB_GET_CURRENT).unwrap());
}

#[test]
fn a_delete_leaves_the_cursor_before_what_followed() {
    let db = Db::with(&FIVE);
    let mut cursor = db.rw();
    cursor.get(Some(b"key3"), None, MDB_SET).unwrap();
    cursor.del(WriteFlags::empty()).unwrap();
    assert_eq!(pair(b"key4", b"val4"), cursor.get(None, None, MDB_GET_CURRENT).unwrap());

    cursor.get(Some(b"key2"), None, MDB_SET).unwrap();
    cursor.del(WriteFlags::empty()).unwrap();
    assert_eq!(Some(FIVE[0]), cursor.prev().unwrap());

    cursor.last().unwrap();
    cursor.del(WriteFlags::empty()).unwrap();
    assert_eq!(None, cursor.next().unwrap());
    assert_eq!(vec![FIVE[0], FIVE[3]], collect(db.ro().into_iter_start()).unwrap());
}

#[test]
fn all_data_items_of_a_key_can_be_deleted() {
    let db = Db::with_dups(&TWO_BY_THREE);
    let mut cursor = db.rw();
    // Whichever of the data items the cursor is on, all of the key go.
    assert_eq!(Some(TWO_BY_THREE[0]), cursor.first().unwrap());
    assert_eq!(Some(TWO_BY_THREE[1]), cursor.next().unwrap());
    cursor.del(WriteFlags { bits: MDB_NODUPDATA }).unwrap();
    assert_eq!(Some(TWO_BY_THREE[3]), cursor.next().unwrap());
    assert_eq!(0, count(db.ro().into_iter_dup_of(b"a")));
    assert_eq!(TWO_BY_THREE[3..].to_vec(), collect(db.ro().into_iter_start()).unwrap());
}

#[test]
fn a_key_splits_a_database() {
    for db in [Db::with(&FOUR), Db::with_dups(&TWO_BY_THREE)] {
        let all = collect(db.ro().into_iter_start()).unwrap();
        for key in [&b"a"[..], b"aa", b"b", b"c", b"key0", b"key1", b"key2", b"key4", b"key6"] {
            let mut split = collect(db.ro().into_iter_from_rev(key)).unwrap();
            split.reverse();
            let from = collect(db.ro().into_iter_from(key)).unwrap();
            split.extend(from.into_iter().filter(|item| item.0 != key));
            assert_eq!(all, split);
        }
    }
}

#[test]
fn writing_reports_errors() {
    let db = Db::with_dups(&[(b"key", b"val")]);
    let mut cursor = db.rw();
    assert_eq!(Err(Error::Other(libc::EINVAL)), cursor.del(WriteFlags::empty()));
    let flags = WriteFlags { bits: MDB_NODUPDATA };
    assert_eq!(Err(Error::KeyExist), cursor.put(b"key", b"val", flags));
    assert_eq!(Ok(()), cursor.put(b"key", b"wal", flags));
    assert_eq!(Ok(()), cursor.put(b"key", b"xal", WriteFlags { bits: MDB_CURRENT }));
    assert_eq!(Some((&b"key"[..], &b"xal"[..])), cursor.last().unwrap());
    assert_eq!(Ok(()), cursor.del(flags));
    assert_eq!(None, cursor.first().unwrap());
}

fn reply(code: i32, asked_at: usize, key_at: usize) -> CursorReply<'static> {
    CursorReply { code, asked_at, key_at, key: b"key", data: b"data" }
}

#[test]
fn replies_are_told_apart() {
    assert_eq!(Ok((Some(&b"key"[..]), &b"data"[..])), entry_of(&reply(0, 0, 8)));
    assert_eq!(Ok((None, &b"data"[..])), entry_of(&reply(0, 8, 8)));
    assert_eq!(Err(Error::NotFound), entry_of(&reply(MDB_NOTFOUND, 0, 8)));

    assert_eq!(Some(Ok((&b"key"[..], &b"data"[..]))), item_of(&reply(0, 8, 8), 22));
    assert_eq!(None, item_of(&reply(MDB_NOTFOUND, 0, 8), 22));
    assert_eq!(None, item_of(&reply(22, 0, 8), 22));
    assert_eq!(Some(Err(Error::Other(23))), item_of(&reply(23, 0, 8), 22));
    assert_eq!(Some(Err(Error::Corrupted)), item_of(&reply(MDB_CORRUPTED, 0, 8), 22));

    assert_eq!(Ok(Some((&b"key"[..], &b"data"[..]))), step_of(&reply(0, 0, 8)));
    assert_eq!(Err(WalkError::KeyMissing), step_of(&reply(0, 0, 0)));
    assert_eq!(Ok(None), step_of(&reply(MDB_NOTFOUND, 0, 8)));
    assert_eq!(Err(WalkError::Failed(Error::Other(22))), step_of(&reply(22, 0, 8)));
}

#[test]
fn iterators_are_planned_from_result_codes() {
    let ops = |op, next_op| Ok(IterOps { op, next_op });
    let refused = Err(Error::BadValSize);

    assert_eq!(ops(MDB_GET_CURRENT, MDB_NEXT), plan_from(MDB_SUCCESS));
    assert_eq!(ops(MDB_GET_CURRENT, MDB_NEXT), plan_from(MDB_NOTFOUND));
    assert_eq!(refused, plan_from(MDB_BAD_VALSIZE));

    let current = ops(MDB_GET_CURRENT, MDB_PREV);
    assert_eq!(current, plan_from_rev(MDB_SUCCESS, MDB_INCOMPATIBLE));
    assert_eq!(ops(MDB_PREV, MDB_PREV), plan_from_rev(MDB_NOTFOUND, MDB_SUCCESS));
    assert_eq!(ops(MDB_LAST, MDB_PREV), plan_from_rev(MDB_NOTFOUND, MDB_NOTFOUND));
    assert_eq!(refused, plan_from_rev(MDB_NOTFOUND, MDB_BAD_VALSIZE));
    assert_eq!(refused, plan_from_rev(MDB_BAD_VALSIZE, MDB_SUCCESS));

    assert_eq!(ops(MDB_GET_CURRENT, MDB_NEXT_DUP), plan_dup_of(MDB_SUCCESS));
    assert_eq!(ops(MDB_NEXT, MDB_NEXT), plan_dup_of(MDB_NOTFOUND));
    assert_eq!(refused, plan_dup_of(MDB_BAD_VALSIZE));
}
