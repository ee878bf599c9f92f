//! Cursors, and iterating with them.
//!
//! A cursor does what LMDB makes of an operation code: `cursor_get` hands out its reply. What is
//! asked for, in which order, and what a reply means is decided here. Each call moves the cursor, so
//! the contracts are over the record of all calls that were made on it.

use vstd::prelude::*;

use crate::error::Error;
use crate::flags::WriteFlags;

verus! {

/// Position at the first item.
pub const MDB_FIRST: u32 = 0;

/// Position at the first data item of the current key.
pub const MDB_FIRST_DUP: u32 = 1;

/// Position at a key/data pair.
pub const MDB_GET_BOTH: u32 = 2;

/// Position at a key, and at the nearest data item of it.
pub const MDB_GET_BOTH_RANGE: u32 = 3;

/// Stay at the current item.
pub const MDB_GET_CURRENT: u32 = 4;

/// Get up to a page of the data items of the current key.
pub const MDB_GET_MULTIPLE: u32 = 5;

/// Position at the last item.
pub const MDB_LAST: u32 = 6;

/// Position at the last data item of the current key.
pub const MDB_LAST_DUP: u32 = 7;

/// Position at the next item.
pub const MDB_NEXT: u32 = 8;

/// Position at the next data item of the current key.
pub const MDB_NEXT_DUP: u32 = 9;

/// Get up to a page of the following data items of the current key.
pub const MDB_NEXT_MULTIPLE: u32 = 10;

/// Position at the first data item of the next key.
pub const MDB_NEXT_NODUP: u32 = 11;

/// Position at the previous item.
pub const MDB_PREV: u32 = 12;

/// Position at the previous data item of the current key.
pub const MDB_PREV_DUP: u32 = 13;

/// Position at the last data item of the previous key.
pub const MDB_PREV_NODUP: u32 = 14;

/// Position at a key.
pub const MDB_SET: u32 = 15;

/// Position at a key, and report the key too.
pub const MDB_SET_KEY: u32 = 16;

/// Position at the first key that is not less than the given one.
pub const MDB_SET_RANGE: u32 = 17;

/// What a cursor replies to a positioning operation.
#[derive(Clone, Copy, Debug, PartialEq, Eq)]
pub struct CursorReply<'txn> {
    /// The result code. The other fields mean something only where it says success.
    pub code: i32,
    /// The address of the key that was asked for, zero where there was none.
    pub asked_at: usize,
    /// The address of the key in the end. Where the cursor reports a key, it is another one.
    pub key_at: usize,
    /// The key at that address.
    pub key: &'txn [u8],
    /// The data item.
    pub data: &'txn [u8],
}

impl<'txn> CursorReply<'txn> {
    /// Whether a key was reported, in place of the one that was asked for.
    pub open spec fn reports_key(self) -> bool {
        self.asked_at != self.key_at
    }
}

/// A key, where one was reported, and a data item.
pub type Entry<'a> = (Option<&'a [u8]>, &'a [u8]);

/// A key and a data item.
pub type Item<'a> = (&'a [u8], &'a [u8]);

/// What `get` makes of a reply.
pub open spec fn get_result<'a>(reply: CursorReply<'a>) -> Result<Entry<'a>, Error> {
    match crate::error::result_of_code(reply.code) {
        Ok(()) => Ok(
            (
                if reply.reports_key() {
                    Some(reply.key)
                } else {
                    None
                },
                reply.data,
            ),
        ),
        Err(error) => Err(error),
    }
}

/// What an iterator makes of a reply. A code of `einval` comes from a cursor that was sought to a
/// value that does not exist, such as a key greater than all in the database, so it is an end.
pub open spec fn iter_item<'a>(reply: CursorReply<'a>, einval: i32) -> Option<
    Result<Item<'a>, Error>,
> {
    if reply.code == crate::error::MDB_SUCCESS {
        Some(Ok((reply.key, reply.data)))
    } else if reply.code == crate::error::MDB_NOTFOUND || reply.code == einval {
        None
    } else {
        Some(Err(crate::error::error_of_code(reply.code)))
    }
}

/// What went wrong in a walk.
#[derive(Clone, Copy, Debug, PartialEq, Eq, Structural)]
pub enum WalkError {
    /// The cursor failed.
    Failed(Error),
    /// The cursor reported no key, though it was given none: it broke its own contract.
    KeyMissing,
}

/// What a walk makes of a reply. Running past either end is an ordinary end, not a failure.
pub open spec fn walk_result<'a>(reply: CursorReply<'a>) -> Result<Option<Item<'a>>, WalkError> {
    match get_result(reply) {
        Ok((Some(key), data)) => Ok(Some((key, data))),
        Ok((None, data)) => Err(WalkError::KeyMissing),
        Err(Error::NotFound) => Ok(None),
        Err(error) => Err(WalkError::Failed(error)),
    }
}

/// The operations of an iterator: the one that its first step performs, and the one that all later
/// steps perform.
#[derive(Clone, Copy, Debug, PartialEq, Eq, Structural)]
pub struct IterOps {
    pub op: u32,
    pub next_op: u32,
}

/// How to iterate from a key on, after `MDB_SET_RANGE` ended with a code.
pub open spec fn ops_from(range_code: i32) -> Result<IterOps, Error> {
    match crate::error::result_of_code(range_code) {
        Ok(()) | Err(Error::NotFound) => Ok(IterOps { op: MDB_GET_CURRENT, next_op: MDB_NEXT }),
        Err(error) => Err(error),
    }
}

/// How to iterate from a key back, after `MDB_SET` ended with a code and, where it did not find the
/// key, `MDB_SET_RANGE` ended with another.
pub open spec fn ops_from_rev(set_code: i32, range_code: i32) -> Result<IterOps, Error> {
    match crate::error::result_of_code(set_code) {
        Ok(()) => Ok(IterOps { op: MDB_GET_CURRENT, next_op: MDB_PREV }),
        Err(Error::NotFound) => match crate::error::result_of_code(range_code) {
            Ok(()) => Ok(IterOps { op: MDB_PREV, next_op: MDB_PREV }),
            Err(Error::NotFound) => Ok(IterOps { op: MDB_LAST, next_op: MDB_PREV }),
            Err(error) => Err(error),
        },
        Err(error) => Err(error),
    }
}

/// How to iterate over the data items of a key, after `MDB_SET` ended with a code.
pub open spec fn ops_dup_of(set_code: i32) -> Result<IterOps, Error> {
    match crate::error::result_of_code(set_code) {
        Ok(()) => Ok(IterOps { op: MDB_GET_CURRENT, next_op: MDB_NEXT_DUP }),
        Err(Error::NotFound) => Ok(IterOps { op: MDB_NEXT, next_op: MDB_NEXT }),
        Err(error) => Err(error),
    }
}

/// Decides how to iterate from a key on.
pub fn plan_from(range_code: i32) -> (ops: Result<IterOps, Error>)
    ensures
        ops == ops_from(range_code),
{
    match crate::error::lmdb_result(range_code) {
        Ok(()) | Err(Error::NotFound) => Ok(IterOps { op: MDB_GET_CURRENT, next_op: MDB_NEXT }),
        Err(error) => Err(error),
    }
}

/// Decides how to iterate from a key back.
pub fn plan_from_rev(set_code: i32, range_code: i32) -> (ops: Result<IterOps, Error>)
    ensures
        ops == ops_from_rev(set_code, range_code),
{
    match crate::error::lmdb_result(set_code) {
        Ok(()) => Ok(IterOps { op: MDB_GET_CURRENT, next_op: MDB_PREV }),
        Err(Error::NotFound) => match crate::error::lmdb_result(range_code) {
            // Landed on a greater key: step back to the nearest smaller key.
            Ok(()) => Ok(IterOps { op: MDB_PREV, next_op: MDB_PREV }),
            // Every key is smaller than the request: start from the last key.
            Err(Error::NotFound) => Ok(IterOps { op: MDB_LAST, next_op: MDB_PREV }),
            Err(error) => Err(error),
        },
        Err(error) => Err(error),
    }
}

/// Decides how to iterate over the data items of a key.
pub fn plan_dup_of(set_code: i32) -> (ops: Result<IterOps, Error>)
    ensures
        ops == ops_dup_of(set_code),
{
    match crate::error::lmdb_result(set_code) {
        Ok(()) => Ok(IterOps { op: MDB_GET_CURRENT, next_op: MDB_NEXT_DUP }),
        Err(Error::NotFound) => Ok(IterOps { op: MDB_NEXT, next_op: MDB_NEXT }),
        Err(error) => Err(error),
    }
}

/// Makes an entry, or an error, of a reply.
pub fn entry_of<'a>(reply: &CursorReply<'a>) -> (result: Result<Entry<'a>, Error>)
    ensures
        result == get_result(*reply),
{
    match crate::error::lmdb_result(reply.code) {
        Ok(()) => {
            let key_out = if reply.asked_at != reply.key_at {
                Some(reply.key)
            } else {
                None
            };
            Ok((key_out, reply.data))
        },
        Err(error) => Err(error),
    }
}

/// Makes what an iterator yields of a reply.
pub fn item_of<'a>(reply: &CursorReply<'a>, einval: i32) -> (item: Option<Result<Item<'a>, Error>>)
    ensures
        item == iter_item(*reply, einval),
{
    if reply.code == crate::error::MDB_SUCCESS {
        Some(Ok((reply.key, reply.data)))
    } else if reply.code == crate::error::MDB_NOTFOUND || reply.code == einval {
        None
    } else {
        Some(Err(Error::from_err_code(reply.code)))
    }
}

/// Makes a step of a walk of a reply.
pub fn step_of<'a>(reply: &CursorReply<'a>) -> (result: Result<Option<Item<'a>>, WalkError>)
    ensures
        result == walk_result(*reply),
{
    match entry_of(reply) {
        Ok((Some(key), data)) => Ok(Some((key, data))),
        Ok((None, _)) => Err(WalkError::KeyMissing),
        Err(Error::NotFound) => Ok(None),
        Err(error) => Err(WalkError::Failed(error)),
    }
}

/// A call that was made on a cursor, and what came of it.
pub enum Call<'txn> {
    /// A positioning operation, with the key and the data item that were given, if any.
    Get { key: Option<Seq<u8>>, data: Option<Seq<u8>>, op: u32, reply: CursorReply<'txn> },
    /// Putting a key/data pair, with the flags and the result code.
    Put { item: (Seq<u8>, Seq<u8>), flags: u32, code: i32 },
    /// Deleting the current key/data pair, with the flags and the result code.
    Del { flags: u32, code: i32 },
}

/// The bytes that were given, if any.
pub open spec fn bytes_of(slice: Option<&[u8]>) -> Option<Seq<u8>> {
    match slice {
        Some(slice) => Some(slice@),
        None => None,
    }
}

/// Seeking a key.
pub open spec fn seek<'txn>(key: Seq<u8>, op: u32, reply: CursorReply<'txn>) -> Call<'txn> {
    Call::Get { key: Some(key), data: None, op, reply }
}

/// Moving without a key.
pub open spec fn step<'txn>(op: u32, reply: CursorReply<'txn>) -> Call<'txn> {
    Call::Get { key: None, data: None, op, reply }
}

/// Whether a call is a move with this operation.
pub open spec fn is_step(call: Call, op: u32) -> bool {
    call matches Call::Get { key, data, op: performed, reply } && call == step(op, reply)
}

/// What an iterator makes of a call.
pub open spec fn call_item<'txn>(call: Call<'txn>, einval: i32) -> Option<
    Result<Item<'txn>, Error>,
> {
    match call {
        Call::Get { key, data, op, reply } => iter_item(reply, einval),
        _ => None,
    }
}

/// What an iterator makes of calls, one after another.
pub open spec fn call_items<'txn>(calls: Seq<Call<'txn>>, einval: i32) -> Seq<
    Option<Result<Item<'txn>, Error>>,
> {
    Seq::new(calls.len(), |i: int| call_item(calls[i], einval))
}

/// What an iterator holds.
pub enum IterState<'txn, C> {
    /// It iterates with this cursor, by these operations. A cursor which is nowhere replies with
    /// this error number.
    Open { cursor: C, ops: IterOps, einval: i32 },
    /// Its cursor could not be positioned. It gave the cursor up after these calls, and yields the
    /// error at every step.
    Failed { error: Error, calls: Seq<Call<'txn>> },
}

/// An iterator in terms of the calls that were made on its cursor.
pub struct IterTrace<'txn> {
    pub calls: Seq<Call<'txn>>,
    /// The operations that it performs, or the error that it yields at every step.
    pub ops: Result<IterOps, Error>,
    /// The error number that a cursor which is nowhere replies with, where it has a cursor.
    pub einval: i32,
}

impl<'txn> IterTrace<'txn> {
    /// An iterator with these operations, and no call made since.
    pub open spec fn begins(self, calls: Seq<Call<'txn>>, ops: Result<IterOps, Error>) -> bool {
        &&& self.calls == calls
        &&& self.ops == ops
        &&& ops is Ok ==> crate::system::is_einval(self.einval)
    }

    /// An iterator from a key on: the range seek is the one call that was made.
    pub open spec fn begins_from(self, before: Seq<Call<'txn>>, key: Seq<u8>) -> bool {
        exists|range: CursorReply<'txn>|
            self.begins(
                before.push(#[trigger] seek(key, MDB_SET_RANGE, range)),
                ops_from(range.code),
            )
    }

    /// An iterator from a key back: an exact seek comes first. Where it finds the key, the move to
    /// the last data item of the key follows, and where it does not, the range seek. No other call
    /// was made.
    pub open spec fn begins_from_rev(self, before: Seq<Call<'txn>>, key: Seq<u8>) -> bool {
        exists|set: CursorReply<'txn>|
            {
                let after = before.push(#[trigger] seek(key, MDB_SET, set));
                match crate::error::result_of_code(set.code) {
                    Ok(()) => exists|last: CursorReply<'txn>|
                        self.begins(
                            after.push(#[trigger] step(MDB_LAST_DUP, last)),
                            ops_from_rev(set.code, last.code),
                        ),
                    Err(Error::NotFound) => exists|range: CursorReply<'txn>|
                        self.begins(
                            after.push(#[trigger] seek(key, MDB_SET_RANGE, range)),
                            ops_from_rev(set.code, range.code),
                        ),
                    Err(error) => self.begins(after, Err(error)),
                }
            }
    }

    /// An iterator over the data items of a key: an exact seek comes first, and where it does not
    /// find the key, the move to the end follows. No other call was made.
    pub open spec fn begins_dup_of(self, before: Seq<Call<'txn>>, key: Seq<u8>) -> bool {
        exists|set: CursorReply<'txn>|
            {
                let after = before.push(#[trigger] seek(key, MDB_SET, set));
                if crate::error::result_of_code(set.code) == Err::<(), Error>(Error::NotFound) {
                    exists|last: CursorReply<'txn>|
                        self.begins(
                            after.push(#[trigger] step(MDB_LAST, last)),
                            ops_dup_of(set.code),
                        )
                } else {
                    self.begins(after, ops_dup_of(set.code))
                }
            }
    }

    /// One step of an iterator: the operation that is due is the one call that it makes, with no key
    /// and no data item, and the item is what the reply means. An iterator that failed makes no
    /// call.
    pub open spec fn yields(
        self,
        item: Option<Result<Item<'txn>, Error>>,
        after: IterTrace<'txn>,
    ) -> bool {
        match self.ops {
            Ok(ops) => exists|reply: CursorReply<'txn>|
                {
                    &&& after.calls == self.calls.push(#[trigger] step(ops.op, reply))
                    &&& item == iter_item(reply, self.einval)
                    &&& after.ops == Ok::<IterOps, Error>(
                        IterOps { op: ops.next_op, next_op: ops.next_op },
                    )
                    &&& after.einval == self.einval
                },
            Err(error) => item == Some(Err::<Item<'txn>, Error>(error)) && after == self,
        }
    }
}

/// An iterator over the key/value pairs in a database.
///
/// It owns its cursor and keeps it unreachable: the items that it yields borrow the transaction,
/// not the cursor, so a `put` or `del` through that cursor would expire them unnoticed.
/// `into_cursor` hands the cursor back for read-only cursors only. An iterator whose cursor could
/// not be positioned has none: the cursor is dropped as soon as that is known.
pub struct Iter<'txn, C> {
    stage: IterStage<'txn, C>,
}

enum IterStage<'txn, C> {
    Open { cursor: C, ops: IterOps, einval: i32 },
    Failed { error: Error, calls: Ghost<Seq<Call<'txn>>> },
}

impl<'txn, C> View for Iter<'txn, C> {
    type V = IterState<'txn, C>;

    closed spec fn view(&self) -> IterState<'txn, C> {
        match self.stage {
            IterStage::Open { cursor, ops, einval } => IterState::Open { cursor, ops, einval },
            IterStage::Failed { error, calls } => IterState::Failed { error, calls: calls@ },
        }
    }
}

impl<'txn, C> IterState<'txn, C> {
    /// The cursor that it iterates with, where it has one.
    pub open spec fn cursor(self) -> C {
        self->cursor
    }

    /// The iterator in terms of the calls that were made on its cursor: these ones, where it still
    /// has the cursor.
    pub open spec fn trace(self, calls: Seq<Call<'txn>>) -> IterTrace<'txn> {
        match self {
            IterState::Open { cursor, ops, einval } => IterTrace { calls, ops: Ok(ops), einval },
            IterState::Failed { error, calls: made } => IterTrace {
                calls: made,
                ops: Err(error),
                einval: arbitrary(),
            },
        }
    }

    /// Whether it iterates with this very cursor.
    pub open spec fn has_cursor(self, expected: C) -> bool {
        self matches IterState::Open { cursor, ops, einval } && cursor == expected
    }
}

/// What getting a key/data pair does: the operation is the one call that is made, with the key and
/// the data item that are given, and the result is what the reply means.
pub open spec fn gets<'txn>(
    before: Seq<Call<'txn>>,
    key: Option<Seq<u8>>,
    data: Option<Seq<u8>>,
    op: u32,
    result: Result<Entry<'txn>, Error>,
    after: Seq<Call<'txn>>,
) -> bool {
    exists|reply: CursorReply<'txn>|
        after == before.push(Call::Get { key, data, op, reply }) && result == #[trigger] get_result(
            reply,
        )
}

/// A record of calls. It is ghost: no program ever holds one.
pub type CallRecord<'txn> = Seq<Call<'txn>>;

/// An LMDB cursor.
pub trait Cursor<'txn>: Sized {
    /// The record of the calls that were made on this cursor.
    spec fn calls(&self) -> CallRecord<'txn>;

    /// Performs a positioning operation. The slices of the reply point into the memory map. They
    /// are valid until an update of the database, or until the end of the transaction: who hands
    /// them out beside a cursor that writes sees to it that they do not outlive an update.
    fn cursor_get(&mut self, key: Option<&[u8]>, data: Option<&[u8]>, op: u32) -> (reply:
        CursorReply<'txn>)
        ensures
            final(self).calls() == old(self).calls().push(
                Call::Get { key: bytes_of(key), data: bytes_of(data), op, reply },
            ),
    ;

    /// Retrieves a key/data pair from the cursor. Depending on the operation, the current key may
    /// be returned. This one operation is all that is performed.
    fn get(&mut self, key: Option<&[u8]>, data: Option<&[u8]>, op: u32) -> (result: Result<
        Entry<'txn>,
        Error,
    >)
        ensures
            gets(
                old(self).calls(),
                bytes_of(key),
                bytes_of(data),
                op,
                result,
                final(self).calls(),
            ),
    {
        let reply = self.cursor_get(key, data, op);
        entry_of(&reply)
    }

    /// Iterates over database items. The iterator begins with the item next after the cursor, and
    /// goes on to the end of the database. For new cursors, it begins with the first item.
    ///
    /// The data items of a key are all returned before moving on to the next key.
    fn into_iter(self) -> (iter: Iter<'txn, Self>)
        ensures
            iter@.trace(iter@.cursor().calls()).begins(
                self.calls(),
                Ok(IterOps { op: MDB_NEXT, next_op: MDB_NEXT }),
            ),
            iter@.has_cursor(self),
    {
        Iter::new(self, MDB_NEXT, MDB_NEXT)
    }

    /// Iterates over database items starting from the beginning of the database.
    fn into_iter_start(self) -> (iter: Iter<'txn, Self>)
        ensures
            iter@.trace(iter@.cursor().calls()).begins(
                self.calls(),
                Ok(IterOps { op: MDB_FIRST, next_op: MDB_NEXT }),
            ),
            iter@.has_cursor(self),
    {
        Iter::new(self, MDB_FIRST, MDB_NEXT)
    }

    /// Iterates over database items starting from the given key, or from the first greater one.
    fn into_iter_from(self, key: &[u8]) -> (iter: Iter<'txn, Self>)
        ensures
            iter@.trace(iter@.cursor().calls()).begins_from(self.calls(), key@),
    {
        let mut cursor = self;
        let range = cursor.cursor_get(Some(key), None, MDB_SET_RANGE);
        let ops = plan_from(range.code);
        assert(cursor.calls() == self.calls().push(seek(key@, MDB_SET_RANGE, range)));
        Iter::with_ops(cursor, ops, Ghost(cursor.calls()))
    }

    /// Iterates over database items in reverse, starting from the end of the database.
    fn into_iter_rev(self) -> (iter: Iter<'txn, Self>)
        ensures
            iter@.trace(iter@.cursor().calls()).begins(
                self.calls(),
                Ok(IterOps { op: MDB_LAST, next_op: MDB_PREV }),
            ),
            iter@.has_cursor(self),
    {
        Iter::new(self, MDB_LAST, MDB_PREV)
    }

    /// Iterates over database items in reverse, starting from the given key, or from the last
    /// smaller one. Where a key has several data items, they come in reverse order too, all of
    /// them before the previous key.
    ///
    /// A range seek does not report whether it landed on the requested key or on a greater one, so
    /// an exact seek comes first. After it the cursor sits on the first data item of the key, and
    /// is moved to the last. That fails where keys have only one data item each, and leaves the
    /// cursor where it is wanted.
    fn into_iter_from_rev(self, key: &[u8]) -> (iter: Iter<'txn, Self>)
        ensures
            iter@.trace(iter@.cursor().calls()).begins_from_rev(self.calls(), key@),
    {
        let mut cursor = self;
        let set = cursor.cursor_get(Some(key), None, MDB_SET);
        assert(cursor.calls() == self.calls().push(seek(key@, MDB_SET, set)));
        match crate::error::lmdb_result(set.code) {
            Ok(()) => {
                let last = cursor.cursor_get(None, None, MDB_LAST_DUP);
                assert(cursor.calls().last() == step(MDB_LAST_DUP, last));
                let ops = plan_from_rev(set.code, last.code);
                Iter::with_ops(cursor, ops, Ghost(cursor.calls()))
            },
            Err(Error::NotFound) => {
                let range = cursor.cursor_get(Some(key), None, MDB_SET_RANGE);
                assert(cursor.calls().last() == seek(key@, MDB_SET_RANGE, range));
                let ops = plan_from_rev(set.code, range.code);
                Iter::with_ops(cursor, ops, Ghost(cursor.calls()))
            },
            Err(error) => Iter::with_ops(cursor, Err(error), Ghost(cursor.calls())),
        }
    }

    /// Iterates over the data items of the given key. Where the key is not found, the cursor is
    /// moved to the end, so that nothing follows.
    fn into_iter_dup_of(self, key: &[u8]) -> (iter: Iter<'txn, Self>)
        ensures
            iter@.trace(iter@.cursor().calls()).begins_dup_of(self.calls(), key@),
    {
        let mut cursor = self;
        let set = cursor.cursor_get(Some(key), None, MDB_SET);
        assert(cursor.calls() == self.calls().push(seek(key@, MDB_SET, set)));
        let ops = plan_dup_of(set.code);
        if let Err(Error::NotFound) = crate::error::lmdb_result(set.code) {
            let last = cursor.cursor_get(None, None, MDB_LAST);
            assert(cursor.calls().last() == step(MDB_LAST, last));
        }
        Iter::with_ops(cursor, ops, Ghost(cursor.calls()))
    }
}

impl<'txn, C> Iter<'txn, C> {
    /// Makes an iterator that performs `op` and then `next_op` on the given cursor.
    fn new(cursor: C, op: u32, next_op: u32) -> (iter: Iter<'txn, C>)
        ensures
            iter@ matches IterState::Open { cursor: kept, ops, einval } && kept == cursor
                && ops == (IterOps { op, next_op }) && crate::system::is_einval(einval),
    {
        Iter::with_ops(cursor, Ok(IterOps { op, next_op }), Ghost(Seq::empty()))
    }

    /// Makes an iterator that performs these operations. Where there is an error instead, drops the
    /// cursor, on which these calls were made, and makes an iterator that reports the error.
    fn with_ops(
        cursor: C,
        ops: Result<IterOps, Error>,
        calls: Ghost<Seq<Call<'txn>>>,
    ) -> (iter: Iter<'txn, C>)
        ensures
            match ops {
                Ok(ops) => iter@ matches IterState::Open { cursor: kept, ops: kept_ops, einval }
                    && kept == cursor && kept_ops == ops && crate::system::is_einval(einval),
                Err(error) => iter@ matches IterState::Failed { error: reported, calls: made }
                    && reported == error && made == calls@,
            },
    {
        match ops {
            Ok(ops) => {
                let einval: i32 = crate::system::einval();
                Iter { stage: IterStage::Open { cursor, ops, einval } }
            },
            Err(error) => Iter { stage: IterStage::Failed { error, calls } },
        }
    }
}

impl<'txn, C: Cursor<'txn>> Iter<'txn, C> {
    /// Performs the operation that is due and yields what the reply means. An iterator whose cursor
    /// could not be positioned yields the error, every time.
    pub fn next(&mut self) -> (item: Option<Result<Item<'txn>, Error>>)
        ensures
            old(self)@.trace(old(self)@.cursor().calls()).yields(
                item,
                final(self)@.trace(final(self)@.cursor().calls()),
            ),
    {
        match &mut self.stage {
            IterStage::Open { cursor, ops, einval } => {
                let op: u32 = ops.op;
                ops.op = ops.next_op;
                let reply = cursor.cursor_get(None, None, op);
                assert(cursor.calls().last() == step(op, reply));
                item_of(&reply, *einval)
            },
            IterStage::Failed { error, calls } => Some(Err(*error)),
        }
    }
}

/// A cursor that updates can be made through.
pub trait WriteCursor<'txn>: Cursor<'txn> {
    /// Puts a key/data pair into the database, and replies with the result code.
    fn cursor_put(&mut self, key: &[u8], data: &[u8], flags: u32) -> (code: i32)
        ensures
            final(self).calls() == old(self).calls().push(
                Call::Put { item: (key@, data@), flags, code },
            ),
    ;

    /// Deletes the current key/data pair, and replies with the result code.
    fn cursor_del(&mut self, flags: u32) -> (code: i32)
        ensures
            final(self).calls() == old(self).calls().push(Call::Del { flags, code }),
    ;
}

/// A read-only cursor for navigating the items within a database.
pub struct RoCursor<C> {
    raw: C,
}

impl<C> View for RoCursor<C> {
    type V = C;

    /// The cursor that this one navigates with.
    closed spec fn view(&self) -> C {
        self.raw
    }
}

impl<'txn, C: Cursor<'txn>> Cursor<'txn> for RoCursor<C> {
    open spec fn calls(&self) -> CallRecord<'txn> {
        self@.calls()
    }

    fn cursor_get(&mut self, key: Option<&[u8]>, data: Option<&[u8]>, op: u32) -> (reply:
        CursorReply<'txn>) {
        self.raw.cursor_get(key, data, op)
    }
}

impl<C> RoCursor<C> {
    /// A read-only cursor that navigates with the given one.
    pub fn new(raw: C) -> (cursor: RoCursor<C>)
        ensures
            cursor@ == raw,
    {
        RoCursor { raw }
    }
}

impl<'txn, C> Iter<'txn, RoCursor<C>> {
    /// Reclaims the cursor, left where the iteration stopped. A read-only cursor has no `put` or
    /// `del`, so reclaiming one cannot invalidate the items that were yielded.
    pub fn into_cursor(self) -> (cursor: Result<RoCursor<C>, Error>)
        ensures
            cursor == match self@ {
                IterState::Open { cursor, ops, einval } => Ok::<RoCursor<C>, Error>(cursor),
                IterState::Failed { error, calls } => Err(error),
            },
    {
        match self.stage {
            IterStage::Open { cursor, ops, einval } => Ok(cursor),
            IterStage::Failed { error, calls } => Err(error),
        }
    }
}

/// What a walk that performs an operation does: the operation is the one call that it makes, with no
/// key and no data item, and the result is what the reply means.
pub open spec fn walks<'txn>(
    before: Seq<Call<'txn>>,
    op: u32,
    result: Result<Option<Item<'txn>>, WalkError>,
    after: Seq<Call<'txn>>,
) -> bool {
    exists|reply: CursorReply<'txn>|
        after == before.push(#[trigger] step(op, reply)) && result == walk_result(reply)
}

/// What putting a key/data pair does: it is the one call that is made, and the result is what the
/// result code means.
pub open spec fn puts<'txn>(
    before: Seq<Call<'txn>>,
    key: Seq<u8>,
    data: Seq<u8>,
    flags: u32,
    result: Result<(), Error>,
    after: Seq<Call<'txn>>,
) -> bool {
    exists|code: i32|
        after == before.push(Call::Put { item: (key, data), flags, code }) && result
            == #[trigger] crate::error::result_of_code(code)
}

/// What deleting the current key/data pair does: it is the one call that is made, and the result is
/// what the result code means.
pub open spec fn deletes<'txn>(
    before: Seq<Call<'txn>>,
    flags: u32,
    result: Result<(), Error>,
    after: Seq<Call<'txn>>,
) -> bool {
    exists|code: i32|
        after == before.push(Call::Del { flags, code }) && result
            == #[trigger] crate::error::result_of_code(code)
}

/// A read-write cursor for navigating items within a database.
pub struct RwCursor<C> {
    raw: C,
}

impl<C> View for RwCursor<C> {
    type V = C;

    /// The cursor that this one navigates and writes with.
    closed spec fn view(&self) -> C {
        self.raw
    }
}

impl<'txn, C: Cursor<'txn>> Cursor<'txn> for RwCursor<C> {
    open spec fn calls(&self) -> CallRecord<'txn> {
        self@.calls()
    }

    fn cursor_get(&mut self, key: Option<&[u8]>, data: Option<&[u8]>, op: u32) -> (reply:
        CursorReply<'txn>) {
        self.raw.cursor_get(key, data, op)
    }
}

impl<C> RwCursor<C> {
    /// A read-write cursor that navigates and writes with the given one.
    pub fn new(raw: C) -> (cursor: RwCursor<C>)
        ensures
            cursor@ == raw,
    {
        RwCursor { raw }
    }

    /// Puts a key/data pair into the database. The cursor is then positioned at the new data item,
    /// or on failure usually near it.
    ///
    /// A put moves the cursor onto the item that it wrote, wherever that key sorts, so a walk in
    /// progress resumes from there. `MDB_CURRENT` overwrites the item that the cursor sits on and
    /// leaves the position alone.
    pub fn put<'txn>(&mut self, key: &[u8], data: &[u8], flags: WriteFlags) -> (result: Result<
        (),
        Error,
    >) where C: WriteCursor<'txn>
        ensures
            puts(old(self)@.calls(), key@, data@, flags.bits, result, final(self)@.calls()),
    {
        let code: i32 = self.raw.cursor_put(key, data, flags.bits());
        crate::error::lmdb_result(code)
    }

    /// Deletes the current key/data pair. `MDB_NODUPDATA` deletes all data items of the current
    /// key.
    ///
    /// A delete leaves the cursor on the item that followed the deleted one. A following `next`
    /// returns that item instead of skipping it, and a following `prev` needs no compensation.
    pub fn del<'txn>(&mut self, flags: WriteFlags) -> (result: Result<(), Error>) where
        C: WriteCursor<'txn>,
        ensures
            deletes(old(self)@.calls(), flags.bits, result, final(self)@.calls()),
    {
        let code: i32 = self.raw.cursor_del(flags.bits());
        crate::error::lmdb_result(code)
    }

    /// Positions the cursor on the first item of the database and returns it, or nothing where the
    /// database holds no items.
    pub fn first<'txn>(&mut self) -> (result: Result<Option<Item<'txn>>, WalkError>) where
        C: Cursor<'txn>,
        ensures
            walks(old(self)@.calls(), MDB_FIRST, result, final(self)@.calls()),
    {
        self.walk(MDB_FIRST)
    }

    /// Positions the cursor on the last item of the database and returns it, or nothing where the
    /// database holds no items.
    pub fn last<'txn>(&mut self) -> (result: Result<Option<Item<'txn>>, WalkError>) where
        C: Cursor<'txn>,
        ensures
            walks(old(self)@.calls(), MDB_LAST, result, final(self)@.calls()),
    {
        self.walk(MDB_LAST)
    }

    /// Advances the cursor to the next item and returns it, or nothing at the end of the database.
    /// Starts at the first item where the cursor has not been positioned yet.
    pub fn next<'txn>(&mut self) -> (result: Result<Option<Item<'txn>>, WalkError>) where
        C: Cursor<'txn>,
        ensures
            walks(old(self)@.calls(), MDB_NEXT, result, final(self)@.calls()),
    {
        self.walk(MDB_NEXT)
    }

    /// Moves the cursor to the previous item and returns it, or nothing at the start of the
    /// database. Starts at the last item where the cursor has not been positioned yet.
    pub fn prev<'txn>(&mut self) -> (result: Result<Option<Item<'txn>>, WalkError>) where
        C: Cursor<'txn>,
        ensures
            walks(old(self)@.calls(), MDB_PREV, result, final(self)@.calls()),
    {
        self.walk(MDB_PREV)
    }

    /// Performs a positioning operation that takes no key.
    fn walk<'txn>(&mut self, op: u32) -> (result: Result<Option<Item<'txn>>, WalkError>) where
        C: Cursor<'txn>,
        ensures
            walks(old(self)@.calls(), op, result, final(self)@.calls()),
    {
        let reply = self.raw.cursor_get(None, None, op);
        assert(self.raw.calls().last() == step(op, reply));
        step_of(&reply)
    }
}

} // verus!
