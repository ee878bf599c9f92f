//! Which calls are made on a cursor, with which arguments, and what is made of each reply.
//!
//! What a cursor is asked for is what its user asked for, and success is reported just where LMDB
//! reported it. The laws here hold of every key, every data item, every operation and every reply.

use vstd::prelude::*;

use crate::cursor::{Call, CursorReply, Entry, Item, IterOps, IterState, IterTrace, WalkError};
use crate::error::Error;

verus! {

/// Whether a record is another one with one more call.
pub open spec fn is_one_more<'txn>(before: Seq<Call<'txn>>, after: Seq<Call<'txn>>) -> bool {
    &&& after.len() == before.len() + 1
    &&& forall|i: int| #![trigger after[i]] 0 <= i < before.len() ==> after[i] == before[i]
}

/// The operations have the codes that LMDB knows them by.
pub proof fn operations_have_their_codes()
    ensures
        crate::cursor::MDB_FIRST == 0,
        crate::cursor::MDB_FIRST_DUP == 1,
        crate::cursor::MDB_GET_BOTH == 2,
        crate::cursor::MDB_GET_BOTH_RANGE == 3,
        crate::cursor::MDB_GET_CURRENT == 4,
        crate::cursor::MDB_GET_MULTIPLE == 5,
        crate::cursor::MDB_LAST == 6,
        crate::cursor::MDB_LAST_DUP == 7,
        crate::cursor::MDB_NEXT == 8,
        crate::cursor::MDB_NEXT_DUP == 9,
        crate::cursor::MDB_NEXT_MULTIPLE == 10,
        crate::cursor::MDB_NEXT_NODUP == 11,
        crate::cursor::MDB_PREV == 12,
        crate::cursor::MDB_PREV_DUP == 13,
        crate::cursor::MDB_PREV_NODUP == 14,
        crate::cursor::MDB_SET == 15,
        crate::cursor::MDB_SET_KEY == 16,
        crate::cursor::MDB_SET_RANGE == 17,
        crate::flags::MDB_NODUPDATA == 0x20,
        crate::flags::MDB_CURRENT == 0x40,
{
}

/// `get` makes one call, of just the operation that is asked for, with just the key and the data item
/// that are given. It gives the data item of the reply where the call succeeded, with the key where
/// the reply has another one than was given, and otherwise the error of the call.
pub proof fn a_get_is_one_call<'txn>(
    before: Seq<Call<'txn>>,
    key: Option<Seq<u8>>,
    data: Option<Seq<u8>>,
    op: u32,
    result: Result<Entry<'txn>, Error>,
    after: Seq<Call<'txn>>,
)
    requires
        crate::cursor::gets(before, key, data, op, result, after),
    ensures
        is_one_more(before, after),
        match after.last() {
            Call::Get { key: sought, data: given, op: performed, reply } => {
                &&& sought == key
                &&& given == data
                &&& performed == op
                &&& match result {
                    Ok((Some(found), value)) => reply.code == 0 && reply.key_at != reply.asked_at
                        && found == reply.key && value == reply.data,
                    Ok((None, value)) => reply.code == 0 && reply.key_at == reply.asked_at && value
                        == reply.data,
                    Err(error) => reply.code != 0 && crate::error::stands_for(error, reply.code),
                }
            },
            _ => false,
        },
{
    let reply = choose|reply: CursorReply<'txn>|
        after == before.push(Call::Get { key, data, op, reply }) && result
            == #[trigger] crate::cursor::get_result(reply);
    crate::error::only_zero_is_success(reply.code);
}

/// A walk makes one call, of just its operation and with no key and no data item. It gives the item
/// of the reply where the call succeeded, nothing where LMDB found nothing, and otherwise the error
/// of the call.
pub proof fn a_walk_is_one_call<'txn>(
    before: Seq<Call<'txn>>,
    op: u32,
    result: Result<Option<Item<'txn>>, WalkError>,
    after: Seq<Call<'txn>>,
)
    requires
        crate::cursor::walks(before, op, result, after),
    ensures
        is_one_more(before, after),
        match after.last() {
            Call::Get { key: None, data: None, op: performed, reply } => {
                &&& performed == op
                &&& match result {
                    Ok(Some((found, value))) => reply.code == 0 && reply.key_at != reply.asked_at
                        && found == reply.key && value == reply.data,
                    Ok(None) => crate::error::stands_for(Error::NotFound, reply.code),
                    Err(WalkError::KeyMissing) => reply.code == 0 && reply.key_at == reply.asked_at,
                    Err(WalkError::Failed(error)) => reply.code != 0 && error != Error::NotFound
                        && crate::error::stands_for(error, reply.code),
                }
            },
            _ => false,
        },
{
    let reply = choose|reply: CursorReply<'txn>|
        after == before.push(#[trigger] crate::cursor::step(op, reply)) && result
            == crate::cursor::walk_result(reply);
    crate::error::only_zero_is_success(reply.code);
}

/// Putting an item makes one call, whatever the key, the data item and the flags are, and with just
/// these. It is a success just where that call was one: what LMDB accepts is never refused.
pub proof fn a_put_is_one_call<'txn>(
    before: Seq<Call<'txn>>,
    key: Seq<u8>,
    data: Seq<u8>,
    flags: u32,
    result: Result<(), Error>,
    after: Seq<Call<'txn>>,
)
    requires
        crate::cursor::puts(before, key, data, flags, result, after),
    ensures
        is_one_more(before, after),
        match after.last() {
            Call::Put { item, flags: given, code } => {
                &&& item.0 == key
                &&& item.1 == data
                &&& given == flags
                &&& match result {
                    Ok(()) => code == 0,
                    Err(error) => code != 0 && crate::error::stands_for(error, code),
                }
            },
            _ => false,
        },
{
    let code = choose|code: i32|
        after == before.push(Call::Put { item: (key, data), flags, code }) && result
            == #[trigger] crate::error::result_of_code(code);
    crate::error::only_zero_is_success(code);
}

/// Deleting makes one call, with just the flags that are given, and is a success just where that call
/// was one.
pub proof fn a_delete_is_one_call<'txn>(
    before: Seq<Call<'txn>>,
    flags: u32,
    result: Result<(), Error>,
    after: Seq<Call<'txn>>,
)
    requires
        crate::cursor::deletes(before, flags, result, after),
    ensures
        is_one_more(before, after),
        match after.last() {
            Call::Del { flags: given, code } => {
                &&& given == flags
                &&& match result {
                    Ok(()) => code == 0,
                    Err(error) => code != 0 && crate::error::stands_for(error, code),
                }
            },
            _ => false,
        },
{
    let code = choose|code: i32|
        after == before.push(Call::Del { flags, code }) && result
            == #[trigger] crate::error::result_of_code(code);
    crate::error::only_zero_is_success(code);
}

/// A step of an iterator makes one call, of the operation that is due and with no key and no data
/// item, and the later operation is due from then on. The step yields the item of the reply where
/// the call succeeded, and the end where LMDB found nothing or the cursor was nowhere; every other
/// error is yielded, and never taken for the end.
pub proof fn a_step_of_an_iterator_is_one_call<'txn>(
    trace: IterTrace<'txn>,
    ops: IterOps,
    item: Option<Result<Item<'txn>, Error>>,
    after: IterTrace<'txn>,
)
    requires
        trace.yields(item, after),
        trace.ops == Ok::<IterOps, Error>(ops),
    ensures
        is_one_more(trace.calls, after.calls),
        after.ops matches Ok(later) && later.op == ops.next_op && later.next_op == ops.next_op,
        after.einval == trace.einval,
        match after.calls.last() {
            Call::Get { key: None, data: None, op: performed, reply } => {
                &&& performed == ops.op
                &&& match item {
                    Some(Ok((found, value))) => reply.code == 0 && found == reply.key && value
                        == reply.data,
                    Some(Err(error)) => reply.code != 0 && reply.code != trace.einval && error
                        != Error::NotFound && crate::error::stands_for(error, reply.code),
                    None => reply.code != 0 && (reply.code == trace.einval
                        || crate::error::stands_for(Error::NotFound, reply.code)),
                }
            },
            _ => false,
        },
{
    let reply = choose|reply: CursorReply<'txn>|
        {
            &&& after.calls == trace.calls.push(#[trigger] crate::cursor::step(ops.op, reply))
            &&& item == crate::cursor::iter_item(reply, trace.einval)
            &&& after.ops == Ok::<IterOps, Error>(
                IterOps { op: ops.next_op, next_op: ops.next_op },
            )
            &&& after.einval == trace.einval
        };
    crate::error::an_error_tells_its_code(reply.code, crate::error::error_of_code(reply.code));
    crate::error::an_error_tells_its_code(reply.code, Error::NotFound);
}

/// An iterator that failed makes no call, and yields its error each time.
pub proof fn a_failed_iterator_makes_no_call<'txn>(
    trace: IterTrace<'txn>,
    error: Error,
    item: Option<Result<Item<'txn>, Error>>,
    after: IterTrace<'txn>,
)
    requires
        trace.yields(item, after),
        trace.ops == Err::<IterOps, Error>(error),
    ensures
        after.calls == trace.calls,
        after.ops == Err::<IterOps, Error>(error),
        item matches Some(Err(yielded)) && yielded == error,
{
}

/// An iterator that begins with operations has made no call beyond those of its cursor, and performs
/// these operations. Its trace is that of the calls on its cursor.
pub proof fn an_iterator_begins_with_its_operations<'txn, C>(
    trace: IterTrace<'txn>,
    calls: Seq<Call<'txn>>,
    ops: Result<IterOps, Error>,
    state: IterState<'txn, C>,
    kept_cursor: C,
)
    ensures
        trace.begins(calls, ops) ==> trace.calls == calls && trace.ops == ops,
        match state {
            IterState::Open { cursor, ops: kept, einval } => {
                &&& state.cursor() == cursor
                &&& state.has_cursor(kept_cursor) <==> cursor == kept_cursor
                &&& state.trace(calls).calls == calls
                &&& state.trace(calls).ops == Ok::<IterOps, Error>(kept)
                &&& state.trace(calls).einval == einval
            },
            IterState::Failed { error, calls: made } => {
                &&& !state.has_cursor(kept_cursor)
                &&& state.trace(calls).calls == made
                &&& state.trace(calls).ops == Err::<IterOps, Error>(error)
            },
        },
{
}

/// Whether a call is one of this operation, with this key and no data item.
pub open spec fn is_call(call: Call, key: Option<Seq<u8>>, op: u32) -> bool {
    match call {
        Call::Get { key: sought, data: None, op: performed, reply } => sought == key && performed
            == op,
        _ => false,
    }
}

/// The result code of a call.
pub open spec fn code_of(call: Call) -> i32 {
    match call {
        Call::Get { key, data, op, reply } => reply.code,
        Call::Put { item, flags, code } => code,
        Call::Del { flags, code } => code,
    }
}

/// Whether LMDB found nothing.
pub open spec fn found_nothing(call: Call) -> bool {
    crate::error::stands_for(Error::NotFound, code_of(call))
}

/// Iterating from a key on begins with one call: the range seek of just that key. A seek that finds
/// the key or a greater one, and one that finds none, are both followed by the current item and then
/// by the next ones. Any other outcome is the error of the iterator.
pub proof fn iterating_from_a_key_seeks_it<'txn>(
    before: Seq<Call<'txn>>,
    key: Seq<u8>,
    trace: IterTrace<'txn>,
)
    requires
        trace.begins_from(before, key),
    ensures
        is_one_more(before, trace.calls),
        is_call(trace.calls.last(), Some(key), 17),
        match trace.ops {
            Ok(ops) => ops.op == 4 && ops.next_op == 8 && (code_of(trace.calls.last()) == 0
                || found_nothing(trace.calls.last())),
            Err(error) => {
                &&& code_of(trace.calls.last()) != 0
                &&& error != Error::NotFound
                &&& crate::error::stands_for(error, code_of(trace.calls.last()))
            },
        },
{
    let range = choose|range: CursorReply<'txn>|
        trace.begins(
            before.push(
                #[trigger] crate::cursor::seek(key, crate::cursor::MDB_SET_RANGE, range),
            ),
            crate::cursor::ops_from(range.code),
        );
    crate::error::only_zero_is_success(range.code);
}

/// Iterating from a key back begins with the exact seek of just that key. Where it finds the key, the
/// move to the last data item of the key follows, and then the current item and the ones before it.
/// Where it does not, the range seek of the key follows; where that finds a greater key, iterating
/// goes back from there, and where it finds none, it goes back from the last item. Any other outcome
/// of a seek is the error of the iterator.
pub proof fn iterating_from_a_key_back_seeks_it<'txn>(
    before: Seq<Call<'txn>>,
    key: Seq<u8>,
    trace: IterTrace<'txn>,
)
    requires
        trace.begins_from_rev(before, key),
    ensures
        ({
            let calls = trace.calls;
            let n = before.len() as int;
            let set = calls[n];
            let second = calls[n + 1];
            &&& calls.len() > n
            &&& forall|i: int| #![trigger calls[i]] 0 <= i < n ==> calls[i] == before[i]
            &&& is_call(set, Some(key), 15)
            &&& if code_of(set) == 0 {
                &&& calls.len() == n + 2
                &&& is_call(second, None, 7)
                &&& trace.ops matches Ok(ops) && ops.op == 4 && ops.next_op == 12
            } else if found_nothing(set) {
                &&& calls.len() == n + 2
                &&& is_call(second, Some(key), 17)
                &&& match trace.ops {
                    Ok(ops) => ops.next_op == 12 && (code_of(second) == 0 && ops.op == 12
                        || found_nothing(second) && ops.op == 6),
                    Err(error) => code_of(second) != 0 && error != Error::NotFound
                        && crate::error::stands_for(error, code_of(second)),
                }
            } else {
                &&& calls.len() == n + 1
                &&& trace.ops matches Err(error) && crate::error::stands_for(error, code_of(set))
            }
        }),
{
    let set = choose|set: CursorReply<'txn>|
        {
            let after = before.push(
                #[trigger] crate::cursor::seek(key, crate::cursor::MDB_SET, set),
            );
            match crate::error::result_of_code(set.code) {
                Ok(()) => exists|last: CursorReply<'txn>|
                    trace.begins(
                        after.push(
                            #[trigger] crate::cursor::step(crate::cursor::MDB_LAST_DUP, last),
                        ),
                        crate::cursor::ops_from_rev(set.code, last.code),
                    ),
                Err(Error::NotFound) => exists|range: CursorReply<'txn>|
                    trace.begins(
                        after.push(
                            #[trigger] crate::cursor::seek(
                                key,
                                crate::cursor::MDB_SET_RANGE,
                                range,
                            ),
                        ),
                        crate::cursor::ops_from_rev(set.code, range.code),
                    ),
                Err(error) => trace.begins(after, Err(error)),
            }
        };
    crate::error::only_zero_is_success(set.code);
    if set.code != 0 && crate::error::stands_for(Error::NotFound, set.code) {
        let range = choose|range: CursorReply<'txn>|
            trace.begins(
                before.push(crate::cursor::seek(key, crate::cursor::MDB_SET, set)).push(
                    #[trigger] crate::cursor::seek(key, crate::cursor::MDB_SET_RANGE, range),
                ),
                crate::cursor::ops_from_rev(set.code, range.code),
            );
        crate::error::only_zero_is_success(range.code);
    }
}

/// Iterating over the data items of a key begins with the exact seek of just that key. Where it finds
/// the key, the current item follows and then the next data items of the key. Where it does not, the
/// move to the end follows, and iterating goes on from there. Any other outcome is the error of the
/// iterator.
pub proof fn iterating_over_a_key_seeks_it<'txn>(
    before: Seq<Call<'txn>>,
    key: Seq<u8>,
    trace: IterTrace<'txn>,
)
    requires
        trace.begins_dup_of(before, key),
    ensures
        ({
            let calls = trace.calls;
            let n = before.len() as int;
            let set = calls[n];
            &&& calls.len() > n
            &&& forall|i: int| #![trigger calls[i]] 0 <= i < n ==> calls[i] == before[i]
            &&& is_call(set, Some(key), 15)
            &&& if code_of(set) == 0 {
                &&& calls.len() == n + 1
                &&& trace.ops matches Ok(ops) && ops.op == 4 && ops.next_op == 9
            } else if found_nothing(set) {
                &&& calls.len() == n + 2
                &&& is_call(calls[n + 1], None, 6)
                &&& trace.ops matches Ok(ops) && ops.op == 8 && ops.next_op == 8
            } else {
                &&& calls.len() == n + 1
                &&& trace.ops matches Err(error) && crate::error::stands_for(error, code_of(set))
            }
        }),
{
    let not_found = Err::<(), Error>(Error::NotFound);
    let set = choose|set: CursorReply<'txn>|
        {
            let after = before.push(
                #[trigger] crate::cursor::seek(key, crate::cursor::MDB_SET, set),
            );
            if crate::error::result_of_code(set.code) == not_found {
                exists|last: CursorReply<'txn>|
                    trace.begins(
                        after.push(#[trigger] crate::cursor::step(crate::cursor::MDB_LAST, last)),
                        crate::cursor::ops_dup_of(set.code),
                    )
            } else {
                trace.begins(after, crate::cursor::ops_dup_of(set.code))
            }
        };
    crate::error::only_zero_is_success(set.code);
}

/// What is handed to a cursor is all the bytes of what was given, and nothing where nothing was.
pub proof fn bytes_are_handed_over_whole(slice: Option<&[u8]>)
    ensures
        match crate::cursor::bytes_of(slice) {
            Some(bytes) => slice matches Some(given) && bytes.len() == given@.len() && forall|i: int|
                0 <= i < bytes.len() ==> #[trigger] bytes[i] == given@[i],
            None => slice is None,
        },
{
}

} // verus!
