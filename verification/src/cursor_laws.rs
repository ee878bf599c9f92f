//! What iterating, walking and writing with a cursor comes to.
//!
//! The laws here are about what the functions of `cursor` do: they start from the relations that
//! those functions are stated by, and from a cursor whose calls were answered as LMDB documents
//! them. They say which items each way of iterating yields, in which order, and that it ends after
//! them; and what updates do to a database and to a walk.

use vstd::prelude::*;

use crate::cursor::{Call, CursorReply, Item, IterOps, IterTrace, WalkError};
use crate::cursor_model::{Place, Position, Step, Store, StoredItem};
use crate::error::Error;

verus! {

/// The calls that were made since.
pub open spec fn since<'txn>(before: Seq<Call<'txn>>, after: Seq<Call<'txn>>) -> Seq<Call<'txn>> {
    after.skip(before.len() as int)
}

/// An iterator was asked for an item as often as there are items here, and not again after the end.
pub open spec fn collects<'txn>(
    traces: Seq<IterTrace<'txn>>,
    items: Seq<Option<Result<Item<'txn>, Error>>>,
) -> bool {
    &&& traces.len() == items.len() + 1
    &&& forall|k: int|
        #![trigger items[k]]
        0 <= k < items.len() ==> traces[k].yields(items[k], traces[k + 1])
    &&& forall|k: int| #![trigger items[k]] 0 <= k < items.len() - 1 ==> items[k] is Some
}

/// What was yielded is these items, one each and in this order, and then the end.
pub open spec fn gives(
    items: Seq<Option<Result<Item, Error>>>,
    expected: Seq<StoredItem>,
) -> bool {
    &&& items.len() <= expected.len() + 1
    &&& forall|i: int|
        #![trigger items[i]]
        0 <= i < items.len() ==> match items[i] {
            Some(Ok((key, data))) => i < expected.len() && key@ == expected[i].0 && data@
                == expected[i].1,
            Some(Err(error)) => false,
            None => i == expected.len(),
        }
}

/// The calls that were made since then were answered as LMDB documents them, and began at the first
/// of these places.
pub open spec fn answered<'txn>(
    places: Seq<Place>,
    before: Seq<Call<'txn>>,
    after: Seq<Call<'txn>>,
    einval: i32,
) -> bool {
    &&& before.len() <= after.len()
    &&& crate::cursor_model::explains(places, since(before, after), einval)
}

spec fn reply_of<'txn>(call: Call<'txn>) -> CursorReply<'txn> {
    match call {
        Call::Get { key, data, op, reply } => reply,
        _ => arbitrary(),
    }
}

/// The steps of the model that calls are.
spec fn steps_of<'txn>(calls: Seq<Call<'txn>>, places: Seq<Place>) -> Seq<Step<'txn>> {
    Seq::new(
        calls.len(),
        |i: int| Step { reply: reply_of(calls[i]), after: places[i + 1].position },
    )
}

/// Whether calls are those of an iterator with these operations, and the items what it yields.
spec fn is_iteration<'txn>(
    calls: Seq<Call<'txn>>,
    ops: IterOps,
    einval: i32,
    items: Seq<Option<Result<Item<'txn>, Error>>>,
) -> bool {
    &&& calls.len() == items.len()
    &&& forall|i: int|
        #![trigger calls[i]]
        #![trigger items[i]]
        0 <= i < items.len() ==> {
            &&& crate::cursor::is_step(
                calls[i],
                if i == 0 {
                    ops.op
                } else {
                    ops.next_op
                },
            )
            &&& items[i] == crate::cursor::call_item(calls[i], einval)
        }
    &&& forall|i: int| #![trigger items[i]] 0 <= i < items.len() - 1 ==> items[i] is Some
}

/// The steps of an iterator make one call each.
proof fn lemma_collected<'txn>(
    traces: Seq<IterTrace<'txn>>,
    items: Seq<Option<Result<Item<'txn>, Error>>>,
    ops: IterOps,
) -> (calls: Seq<Call<'txn>>)
    requires
        collects(traces, items),
        traces[0].ops == Ok::<IterOps, Error>(ops),
    ensures
        traces.last().calls == traces[0].calls + calls,
        traces.last().einval == traces[0].einval,
        traces.last().ops == Ok::<IterOps, Error>(
            if items.len() == 0 {
                ops
            } else {
                IterOps { op: ops.next_op, next_op: ops.next_op }
            },
        ),
        is_iteration(calls, ops, traces[0].einval, items),
    decreases items.len(),
{
    if items.len() == 0 {
        let calls = Seq::<Call<'txn>>::empty();
        assert(traces[0].calls + calls =~= traces[0].calls);
        calls
    } else {
        let k = items.len() - 1;
        let init = items.drop_last();
        assert forall|i: int| #![trigger init[i]] 0 <= i < init.len() implies {
            &&& traces.drop_last()[i].yields(init[i], traces.drop_last()[i + 1])
            &&& init[i] is Some
        } by {
            assert(init[i] == items[i]);
        }
        let calls = lemma_collected(traces.drop_last(), init, ops);
        let op = if k == 0 {
            ops.op
        } else {
            ops.next_op
        };
        assert(items[k] == items.last());
        assert(traces[k].yields(items[k], traces[k + 1]));
        assert(traces.drop_last().last() == traces[k]);
        let reply = choose|reply: CursorReply<'txn>|
            {
                &&& traces[k + 1].calls == traces[k].calls.push(
                    #[trigger] crate::cursor::step(op, reply),
                )
                &&& items[k] == crate::cursor::iter_item(reply, traces[k].einval)
                &&& traces[k + 1].ops == Ok::<IterOps, Error>(
                    IterOps { op: ops.next_op, next_op: ops.next_op },
                )
                &&& traces[k + 1].einval == traces[k].einval
            };
        let call = crate::cursor::step(op, reply);
        let all = calls.push(call);
        assert(traces[0].calls + all =~= (traces[0].calls + calls).push(call));
        assert forall|i: int|
            #![trigger all[i]]
            #![trigger items[i]]
            0 <= i < items.len() implies {
            &&& crate::cursor::is_step(
                all[i],
                if i == 0 {
                    ops.op
                } else {
                    ops.next_op
                },
            )
            &&& items[i] == crate::cursor::call_item(all[i], traces[0].einval)
        } by {
            if i < k {
                assert(init[i] == items[i]);
                assert(all[i] == calls[i]);
            }
        }
        all
    }
}

/// Calls of an iterator that were answered as LMDB documents them are an iteration of the model.
proof fn lemma_iterates<'txn>(
    store: Store,
    places: Seq<Place>,
    calls: Seq<Call<'txn>>,
    ops: IterOps,
    einval: i32,
    items: Seq<Option<Result<Item<'txn>, Error>>>,
)
    requires
        is_iteration(calls, ops, einval, items),
        crate::cursor_model::explains(places, calls, einval),
        places[0].store == store,
    ensures
        store.iterates(places[0].position, ops, steps_of(calls, places), einval),
    decreases calls.len(),
{
    let steps = steps_of(calls, places);
    if calls.len() > 0 {
        let rest = calls.skip(1);
        let next_ops = IterOps { op: ops.next_op, next_op: ops.next_op };
        assert(crate::cursor::is_step(calls[0], ops.op));
        assert(items[0] == crate::cursor::call_item(calls[0], einval));
        assert(places[0].answers(calls[0], places[1], einval));
        let later = items.skip(1);
        assert forall|i: int|
            #![trigger rest[i]]
            #![trigger later[i]]
            0 <= i < later.len() implies {
            &&& crate::cursor::is_step(rest[i], ops.next_op)
            &&& later[i] == crate::cursor::call_item(rest[i], einval)
            &&& i < later.len() - 1 ==> later[i] is Some
        } by {
            assert(rest[i] == calls[i + 1]);
            assert(later[i] == items[i + 1]);
        }
        assert forall|i: int| #![trigger rest[i]] 0 <= i < rest.len() implies places.skip(
            1,
        )[i].answers(rest[i], places.skip(1)[i + 1], einval) by {
            assert(rest[i] == calls[i + 1]);
        }
        lemma_iterates(store, places.skip(1), rest, next_ops, einval, later);
        assert(steps_of(rest, places.skip(1)) =~= steps.skip(1));
    }
}

/// What the steps of the model yield is what the iterator yields.
proof fn lemma_gives<'txn>(
    places: Seq<Place>,
    calls: Seq<Call<'txn>>,
    ops: IterOps,
    einval: i32,
    items: Seq<Option<Result<Item<'txn>, Error>>>,
    expected: Seq<StoredItem>,
)
    requires
        is_iteration(calls, ops, einval, items),
        crate::cursor_model::steps_yield(steps_of(calls, places), expected, einval),
    ensures
        gives(items, expected),
{
    let steps = steps_of(calls, places);
    assert forall|i: int| #![trigger items[i]] 0 <= i < items.len() implies items[i]
        == crate::cursor::iter_item(steps[i].reply, einval) by {
        assert(calls[i] == calls[i]);
    }
}

/// Calls that were answered as LMDB documents them were so from any of them on.
proof fn lemma_later(places: Seq<Place>, calls: Seq<Call>, einval: i32, from: int)
    requires
        crate::cursor_model::explains(places, calls, einval),
        0 <= from <= calls.len(),
    ensures
        crate::cursor_model::explains(places.skip(from), calls.skip(from), einval),
{
    let rest = calls.skip(from);
    assert forall|i: int| #![trigger rest[i]] 0 <= i < rest.len() implies places.skip(
        from,
    )[i].answers(rest[i], places.skip(from)[i + 1], einval) by {
        assert(rest[i] == calls[from + i]);
    }
}

/// `into_iter` yields every item after the position of the cursor, and of a new cursor every item
/// there is.
pub proof fn into_iter_yields_what_follows<'txn>(
    places: Seq<Place>,
    before: Seq<Call<'txn>>,
    traces: Seq<IterTrace<'txn>>,
    items: Seq<Option<Result<Item<'txn>, Error>>>,
)
    requires
        traces.len() > 0,
        traces[0].begins(
            before,
            Ok(IterOps { op: crate::cursor::MDB_NEXT, next_op: crate::cursor::MDB_NEXT }),
        ),
        collects(traces, items),
        answered(places, before, traces.last().calls, traces[0].einval),
        places[0].store.is_valid(),
        places[0].position matches Position::At(index) ==> 0 <= index
            < places[0].store.items.len(),
        places[0].position matches Position::Gap(index) ==> 0 <= index
            <= places[0].store.items.len(),
        !(places[0].position is Lost) && !(places[0].position is Ended),
    ensures
        match places[0].position {
            Position::At(index) => gives(items, places[0].store.items.skip(index + 1)),
            Position::Gap(index) => gives(items, places[0].store.items.skip(index)),
            _ => gives(items, places[0].store.items),
        },
{
    let store = places[0].store;
    let einval = traces[0].einval;
    let ops = IterOps { op: crate::cursor::MDB_NEXT, next_op: crate::cursor::MDB_NEXT };
    let calls = lemma_collected(traces, items, ops);
    assert(since(before, traces.last().calls) =~= calls);
    lemma_iterates(store, places, calls, ops, einval, items);
    crate::cursor_model::lemma_into_iter(
        store,
        places[0].position,
        steps_of(calls, places),
        einval,
    );
    let expected = match places[0].position {
        Position::At(index) => store.items.skip(index + 1),
        Position::Gap(index) => store.items.skip(index),
        _ => store.items,
    };
    lemma_gives(places, calls, ops, einval, items, expected);
}

/// A new cursor that is stepped forward, and not again after the end, reads every item in order.
pub(crate) proof fn lemma_steps_read_all(places: Seq<Place>, calls: Seq<Call>, einval: i32)
    requires
        crate::cursor_model::explains(places, calls, einval),
        places[0].store.is_valid(),
        places[0].position is Unset,
        forall|i: int|
            #![trigger calls[i]]
            0 <= i < calls.len() ==> crate::cursor::is_step(calls[i], crate::cursor::MDB_NEXT),
        forall|i: int|
            #![trigger calls[i]]
            0 <= i < calls.len() - 1 ==> crate::cursor::call_item(calls[i], einval) is Some,
    ensures
        gives(crate::cursor::call_items(calls, einval), places[0].store.items),
{
    let store = places[0].store;
    let ops = IterOps { op: crate::cursor::MDB_NEXT, next_op: crate::cursor::MDB_NEXT };
    let items = crate::cursor::call_items(calls, einval);
    assert forall|i: int| #![trigger items[i]] 0 <= i < items.len() implies {
        &&& crate::cursor::is_step(calls[i], crate::cursor::MDB_NEXT)
        &&& i < items.len() - 1 ==> items[i] is Some
    } by {
        assert(calls[i] == calls[i]);
    }
    lemma_iterates(store, places, calls, ops, einval, items);
    crate::cursor_model::lemma_into_iter(
        store,
        places[0].position,
        steps_of(calls, places),
        einval,
    );
    lemma_gives(places, calls, ops, einval, items, store.items);
}

/// `into_iter_start` yields every item, in order, wherever the cursor was.
pub proof fn into_iter_start_yields_all<'txn>(
    places: Seq<Place>,
    before: Seq<Call<'txn>>,
    traces: Seq<IterTrace<'txn>>,
    items: Seq<Option<Result<Item<'txn>, Error>>>,
)
    requires
        traces.len() > 0,
        traces[0].begins(
            before,
            Ok(IterOps { op: crate::cursor::MDB_FIRST, next_op: crate::cursor::MDB_NEXT }),
        ),
        collects(traces, items),
        answered(places, before, traces.last().calls, traces[0].einval),
        places[0].store.is_valid(),
    ensures
        gives(items, places[0].store.items),
{
    let store = places[0].store;
    let einval = traces[0].einval;
    let ops = IterOps { op: crate::cursor::MDB_FIRST, next_op: crate::cursor::MDB_NEXT };
    let calls = lemma_collected(traces, items, ops);
    assert(since(before, traces.last().calls) =~= calls);
    lemma_iterates(store, places, calls, ops, einval, items);
    crate::cursor_model::lemma_into_iter_start(
        store,
        places[0].position,
        steps_of(calls, places),
        einval,
    );
    lemma_gives(places, calls, ops, einval, items, store.items);
}

/// `into_iter_rev` yields every item, the last first, wherever the cursor was: what
/// `into_iter_start` yields, in reverse.
pub proof fn into_iter_rev_yields_all_reversed<'txn>(
    places: Seq<Place>,
    before: Seq<Call<'txn>>,
    traces: Seq<IterTrace<'txn>>,
    items: Seq<Option<Result<Item<'txn>, Error>>>,
)
    requires
        traces.len() > 0,
        traces[0].begins(
            before,
            Ok(IterOps { op: crate::cursor::MDB_LAST, next_op: crate::cursor::MDB_PREV }),
        ),
        collects(traces, items),
        answered(places, before, traces.last().calls, traces[0].einval),
        places[0].store.is_valid(),
    ensures
        gives(items, places[0].store.items.reverse()),
{
    let store = places[0].store;
    let einval = traces[0].einval;
    let ops = IterOps { op: crate::cursor::MDB_LAST, next_op: crate::cursor::MDB_PREV };
    let calls = lemma_collected(traces, items, ops);
    assert(since(before, traces.last().calls) =~= calls);
    lemma_iterates(store, places, calls, ops, einval, items);
    crate::cursor_model::lemma_into_iter_rev(
        store,
        places[0].position,
        steps_of(calls, places),
        einval,
    );
    lemma_gives(places, calls, ops, einval, items, store.items.reverse());
}

/// `into_iter_from` yields the items whose keys are not less than the given one, in order.
pub proof fn into_iter_from_yields_keys_from_there_on<'txn>(
    places: Seq<Place>,
    before: Seq<Call<'txn>>,
    key: Seq<u8>,
    traces: Seq<IterTrace<'txn>>,
    items: Seq<Option<Result<Item<'txn>, Error>>>,
)
    requires
        traces.len() > 0,
        traces[0].begins_from(before, key),
        collects(traces, items),
        answered(places, before, traces.last().calls, traces[0].einval),
        places[0].store.is_valid(),
        key.len() > 0,
    ensures
        gives(items, places[0].store.from_key(key)),
{
    let store = places[0].store;
    let einval = traces[0].einval;
    let range = choose|range: CursorReply<'txn>|
        traces[0].begins(
            before.push(
                #[trigger] crate::cursor::seek(key, crate::cursor::MDB_SET_RANGE, range),
            ),
            crate::cursor::ops_from(range.code),
        );
    let sought = crate::cursor::seek(key, crate::cursor::MDB_SET_RANGE, range);
    lemma_traces_grow(traces, items);
    let all = since(before, traces.last().calls);
    assert(traces.last().calls[before.len() as int] == sought);
    assert(all[0] == sought);
    assert(places[0].answers(all[0], places[1], einval));
    let step = Step { reply: range, after: places[1].position };
    assert(crate::cursor::ops_from(range.code) is Ok);
    let ops = crate::cursor::ops_from(range.code)->Ok_0;
    let calls = lemma_collected(traces, items, ops);
    assert(all =~= seq![sought] + calls);
    lemma_later(places, all, einval, 1);
    assert(all.skip(1) =~= calls);
    let rest = places.skip(1);
    lemma_iterates(store, rest, calls, ops, einval, items);
    crate::cursor_model::lemma_into_iter_from(store, key, step, steps_of(calls, rest), einval);
    lemma_gives(rest, calls, ops, einval, items, store.from_key(key));
}

/// The record of an iterator only grows.
proof fn lemma_traces_grow<'txn>(
    traces: Seq<IterTrace<'txn>>,
    items: Seq<Option<Result<Item<'txn>, Error>>>,
)
    requires
        collects(traces, items),
    ensures
        traces[0].calls.len() <= traces.last().calls.len(),
        forall|i: int|
            #![trigger traces.last().calls[i]]
            0 <= i < traces[0].calls.len() ==> traces.last().calls[i] == traces[0].calls[i],
    decreases items.len(),
{
    if items.len() > 0 {
        let k = items.len() - 1;
        let init = items.drop_last();
        assert forall|i: int| #![trigger init[i]] 0 <= i < init.len() implies {
            &&& traces.drop_last()[i].yields(init[i], traces.drop_last()[i + 1])
            &&& init[i] is Some
        } by {
            assert(init[i] == items[i]);
        }
        lemma_traces_grow(traces.drop_last(), init);
        assert(items[k] == items.last());
        assert(traces[k].yields(items[k], traces[k + 1]));
        assert(traces.drop_last().last() == traces[k]);
        assert forall|i: int| #![trigger traces.last().calls[i]] 0 <= i
            < traces[0].calls.len() implies traces.last().calls[i] == traces[0].calls[i] by {
            assert(traces.drop_last().last().calls[i] == traces[0].calls[i]);
        }
    }
}

/// `into_iter_from_rev` yields the items whose keys are not greater than the given one, the last
/// first.
pub proof fn into_iter_from_rev_yields_keys_from_there_back<'txn>(
    places: Seq<Place>,
    before: Seq<Call<'txn>>,
    key: Seq<u8>,
    traces: Seq<IterTrace<'txn>>,
    items: Seq<Option<Result<Item<'txn>, Error>>>,
)
    requires
        traces.len() > 0,
        traces[0].begins_from_rev(before, key),
        collects(traces, items),
        answered(places, before, traces.last().calls, traces[0].einval),
        places[0].store.is_valid(),
        key.len() > 0,
    ensures
        gives(items, places[0].store.up_to_key(key).reverse()),
{
    let store = places[0].store;
    let einval = traces[0].einval;
    let set = choose|set: CursorReply<'txn>|
        {
            let after = before.push(
                #[trigger] crate::cursor::seek(key, crate::cursor::MDB_SET, set),
            );
            match crate::error::result_of_code(set.code) {
                Ok(()) => exists|last: CursorReply<'txn>|
                    traces[0].begins(
                        after.push(
                            #[trigger] crate::cursor::step(crate::cursor::MDB_LAST_DUP, last),
                        ),
                        crate::cursor::ops_from_rev(set.code, last.code),
                    ),
                Err(Error::NotFound) => exists|range: CursorReply<'txn>|
                    traces[0].begins(
                        after.push(
                            #[trigger] crate::cursor::seek(
                                key,
                                crate::cursor::MDB_SET_RANGE,
                                range,
                            ),
                        ),
                        crate::cursor::ops_from_rev(set.code, range.code),
                    ),
                Err(error) => traces[0].begins(after, Err(error)),
            }
        };
    let sought = crate::cursor::seek(key, crate::cursor::MDB_SET, set);
    let after = before.push(sought);
    lemma_traces_grow(traces, items);
    let all = since(before, traces.last().calls);
    assert(traces.last().calls[before.len() as int] == sought);
    assert(all[0] == sought);
    assert(places[0].answers(all[0], places[1], einval));
    let set_step = Step { reply: set, after: places[1].position };
    assert(store.seeks(key, crate::cursor::MDB_SET, set_step));
    let found = set.code == crate::error::MDB_SUCCESS;
    let reply = if found {
        choose|last: CursorReply<'txn>|
            traces[0].begins(
                after.push(#[trigger] crate::cursor::step(crate::cursor::MDB_LAST_DUP, last)),
                crate::cursor::ops_from_rev(set.code, last.code),
            )
    } else {
        choose|range: CursorReply<'txn>|
            traces[0].begins(
                after.push(
                    #[trigger] crate::cursor::seek(key, crate::cursor::MDB_SET_RANGE, range),
                ),
                crate::cursor::ops_from_rev(set.code, range.code),
            )
    };
    let second = if found {
        crate::cursor::step(crate::cursor::MDB_LAST_DUP, reply)
    } else {
        crate::cursor::seek(key, crate::cursor::MDB_SET_RANGE, reply)
    };
    assert(traces.last().calls[before.len() as int + 1] == second);
    assert(all[1] == second);
    assert(places[1].answers(all[1], places[2], einval));
    let second_step = Step { reply, after: places[2].position };
    assert(crate::cursor::ops_from_rev(set.code, reply.code) is Ok);
    let ops = crate::cursor::ops_from_rev(set.code, reply.code)->Ok_0;
    let calls = lemma_collected(traces, items, ops);
    assert(all =~= seq![sought, second] + calls);
    lemma_later(places, all, einval, 2);
    assert(all.skip(2) =~= calls);
    let rest = places.skip(2);
    lemma_iterates(store, rest, calls, ops, einval, items);
    crate::cursor_model::lemma_into_iter_from_rev(
        store,
        key,
        set_step,
        second_step,
        steps_of(calls, rest),
        einval,
    );
    lemma_gives(rest, calls, ops, einval, items, store.up_to_key(key).reverse());
}

/// Where keys may have several data items, `into_iter_dup_of` yields those of the given key, in
/// order.
pub proof fn into_iter_dup_of_yields_the_items_of_the_key<'txn>(
    places: Seq<Place>,
    before: Seq<Call<'txn>>,
    key: Seq<u8>,
    traces: Seq<IterTrace<'txn>>,
    items: Seq<Option<Result<Item<'txn>, Error>>>,
)
    requires
        traces.len() > 0,
        traces[0].begins_dup_of(before, key),
        collects(traces, items),
        answered(places, before, traces.last().calls, traces[0].einval),
        places[0].store.is_valid(),
        places[0].store.dup_sort,
        key.len() > 0,
    ensures
        gives(items, places[0].store.of_key(key)),
{
    let store = places[0].store;
    let einval = traces[0].einval;
    let not_found = Err::<(), Error>(Error::NotFound);
    let set = choose|set: CursorReply<'txn>|
        {
            let after = before.push(
                #[trigger] crate::cursor::seek(key, crate::cursor::MDB_SET, set),
            );
            if crate::error::result_of_code(set.code) == not_found {
                exists|last: CursorReply<'txn>|
                    traces[0].begins(
                        after.push(#[trigger] crate::cursor::step(crate::cursor::MDB_LAST, last)),
                        crate::cursor::ops_dup_of(set.code),
                    )
            } else {
                traces[0].begins(after, crate::cursor::ops_dup_of(set.code))
            }
        };
    let sought = crate::cursor::seek(key, crate::cursor::MDB_SET, set);
    let after = before.push(sought);
    lemma_traces_grow(traces, items);
    let all = since(before, traces.last().calls);
    assert(traces.last().calls[before.len() as int] == sought);
    assert(all[0] == sought);
    assert(places[0].answers(all[0], places[1], einval));
    let set_step = Step { reply: set, after: places[1].position };
    assert(store.seeks(key, crate::cursor::MDB_SET, set_step));
    assert(crate::cursor::ops_dup_of(set.code) is Ok);
    let ops = crate::cursor::ops_dup_of(set.code)->Ok_0;
    let calls = lemma_collected(traces, items, ops);
    if set.code == crate::error::MDB_SUCCESS {
        assert(all =~= seq![sought] + calls);
        lemma_later(places, all, einval, 1);
        assert(all.skip(1) =~= calls);
        let rest = places.skip(1);
        lemma_iterates(store, rest, calls, ops, einval, items);
        crate::cursor_model::lemma_into_iter_dup_of(
            store,
            key,
            set_step,
            set_step,
            steps_of(calls, rest),
            einval,
        );
        lemma_gives(rest, calls, ops, einval, items, store.of_key(key));
    } else {
        let last = choose|last: CursorReply<'txn>|
            traces[0].begins(
                after.push(#[trigger] crate::cursor::step(crate::cursor::MDB_LAST, last)),
                crate::cursor::ops_dup_of(set.code),
            );
        let second = crate::cursor::step(crate::cursor::MDB_LAST, last);
        assert(traces.last().calls[before.len() as int + 1] == second);
        assert(all[1] == second);
        assert(places[1].answers(all[1], places[2], einval));
        assert(all =~= seq![sought, second] + calls);
        lemma_later(places, all, einval, 2);
        assert(all.skip(2) =~= calls);
        let rest = places.skip(2);
        lemma_iterates(store, rest, calls, ops, einval, items);
        crate::cursor_model::lemma_into_iter_dup_of(
            store,
            key,
            set_step,
            Step { reply: last, after: places[2].position },
            steps_of(calls, rest),
            einval,
        );
        lemma_gives(rest, calls, ops, einval, items, store.of_key(key));
    }
}

/// An iterator that failed yields its error at every step.
proof fn lemma_failed<'txn>(
    traces: Seq<IterTrace<'txn>>,
    items: Seq<Option<Result<Item<'txn>, Error>>>,
    error: Error,
    k: int,
)
    requires
        traces.len() == items.len() + 1,
        forall|k: int|
            #![trigger items[k]]
            0 <= k < items.len() ==> traces[k].yields(items[k], traces[k + 1]),
        traces[0].ops == Err::<IterOps, Error>(error),
        0 <= k < traces.len(),
    ensures
        traces[k] == traces[0],
        k < items.len() ==> items[k] == Some(Err::<Item<'txn>, Error>(error)),
    decreases k,
{
    if k > 0 {
        lemma_failed(traces, items, error, k - 1);
        assert(traces[k - 1].yields(items[k - 1], traces[k]));
    }
    if k < items.len() {
        assert(traces[k].yields(items[k], traces[k + 1]));
    }
}

/// Iterating from an empty key, forward or back, or over its data items, yields the error that LMDB
/// refuses such a key with, at every step.
pub proof fn an_empty_key_is_refused<'txn>(
    places: Seq<Place>,
    before: Seq<Call<'txn>>,
    traces: Seq<IterTrace<'txn>>,
    items: Seq<Option<Result<Item<'txn>, Error>>>,
    k: int,
)
    requires
        traces.len() == items.len() + 1,
        ({
            ||| traces[0].begins_from(before, Seq::empty())
            ||| traces[0].begins_from_rev(before, Seq::empty())
            ||| traces[0].begins_dup_of(before, Seq::empty())
        }),
        forall|k: int|
            #![trigger items[k]]
            0 <= k < items.len() ==> traces[k].yields(items[k], traces[k + 1]),
        answered(places, before, traces[0].calls, traces[0].einval),
        0 <= k < items.len(),
    ensures
        items[k] == Some(Err::<Item<'txn>, Error>(Error::BadValSize)),
{
    let all = since(before, traces[0].calls);
    let first = traces[0].calls[before.len() as int];
    assert(all[0] == first);
    assert(places[0].answers(all[0], places[1], traces[0].einval));
    lemma_failed(traces, items, Error::BadValSize, k);
}

/// A walk was made with an operation and then, as often as there are results here, with another, and
/// not again after the end.
pub open spec fn walked<'txn>(
    records: Seq<Seq<Call<'txn>>>,
    ops: IterOps,
    results: Seq<Result<Option<Item<'txn>>, WalkError>>,
) -> bool {
    &&& records.len() == results.len() + 1
    &&& forall|k: int|
        #![trigger results[k]]
        0 <= k < results.len() ==> crate::cursor::walks(
            records[k],
            if k == 0 {
                ops.op
            } else {
                ops.next_op
            },
            results[k],
            records[k + 1],
        )
    &&& forall|k: int|
        #![trigger results[k]]
        0 <= k < results.len() - 1 ==> results[k] matches Ok(Some(_))
}

/// What a walk reported is these items, one each and in this order, and then the end.
pub open spec fn reports(
    results: Seq<Result<Option<Item>, WalkError>>,
    expected: Seq<StoredItem>,
) -> bool {
    &&& results.len() <= expected.len() + 1
    &&& forall|i: int|
        #![trigger results[i]]
        0 <= i < results.len() ==> match results[i] {
            Ok(Some((key, data))) => i < expected.len() && key@ == expected[i].0 && data@
                == expected[i].1,
            Ok(None) => i == expected.len(),
            Err(error) => false,
        }
}

/// The steps of a walk make one call each.
proof fn lemma_walked<'txn>(
    records: Seq<Seq<Call<'txn>>>,
    ops: IterOps,
    results: Seq<Result<Option<Item<'txn>>, WalkError>>,
    einval: i32,
) -> (calls: Seq<Call<'txn>>)
    requires
        walked(records, ops, results),
    ensures
        records.last() == records[0] + calls,
        is_iteration(calls, ops, einval, crate::cursor::call_items(calls, einval)),
        calls.len() == results.len(),
        forall|i: int|
            #![trigger results[i]]
            0 <= i < results.len() ==> results[i] == crate::cursor::walk_result(
                reply_of(calls[i]),
            ),
    decreases results.len(),
{
    if results.len() == 0 {
        let calls = Seq::<Call<'txn>>::empty();
        assert(records[0] + calls =~= records[0]);
        calls
    } else {
        let k = results.len() - 1;
        let init = results.drop_last();
        let op = if k == 0 {
            ops.op
        } else {
            ops.next_op
        };
        assert forall|i: int| #![trigger init[i]] 0 <= i < init.len() implies {
            &&& crate::cursor::walks(
                records.drop_last()[i],
                if i == 0 {
                    ops.op
                } else {
                    ops.next_op
                },
                init[i],
                records.drop_last()[i + 1],
            )
            &&& init[i] matches Ok(Some(_))
        } by {
            assert(init[i] == results[i]);
        }
        let calls = lemma_walked(records.drop_last(), ops, init, einval);
        assert(results[k] == results.last());
        assert(crate::cursor::walks(records[k], op, results[k], records[k + 1]));
        assert(records.drop_last().last() == records[k]);
        let reply = choose|reply: CursorReply<'txn>|
            records[k + 1] == records[k].push(#[trigger] crate::cursor::step(op, reply))
                && results[k] == crate::cursor::walk_result(reply);
        let call = crate::cursor::step(op, reply);
        let all = calls.push(call);
        assert(records[0] + all =~= (records[0] + calls).push(call));
        assert forall|i: int| #![trigger results[i]] 0 <= i < results.len() implies results[i]
            == crate::cursor::walk_result(reply_of(all[i])) by {
            if i < k {
                assert(init[i] == results[i]);
            }
        }
        let items = crate::cursor::call_items(all, einval);
        assert forall|i: int|
            #![trigger all[i]]
            #![trigger items[i]]
            0 <= i < items.len() implies {
            &&& crate::cursor::is_step(
                all[i],
                if i == 0 {
                    ops.op
                } else {
                    ops.next_op
                },
            )
            &&& items[i] == crate::cursor::call_item(all[i], einval)
            &&& i < items.len() - 1 ==> items[i] is Some
        } by {
            if i < k {
                assert(all[i] == calls[i]);
                assert(crate::cursor::call_items(calls, einval)[i] == items[i]);
                assert(results[i] matches Ok(Some(_)));
                assert(results[i] == crate::cursor::walk_result(reply_of(all[i])));
            }
        }
        all
    }
}

proof fn lemma_reports<'txn>(
    places: Seq<Place>,
    calls: Seq<Call<'txn>>,
    results: Seq<Result<Option<Item<'txn>>, WalkError>>,
    expected: Seq<StoredItem>,
)
    requires
        calls.len() == results.len(),
        forall|i: int|
            #![trigger results[i]]
            0 <= i < results.len() ==> results[i] == crate::cursor::walk_result(
                reply_of(calls[i]),
            ),
        crate::cursor_model::steps_report(steps_of(calls, places), expected),
    ensures
        reports(results, expected),
{
    let steps = steps_of(calls, places);
    assert forall|i: int| #![trigger results[i]] 0 <= i < results.len() implies results[i]
        == crate::cursor::walk_result(steps[i].reply) by {
    }
}

/// A walk with `first` and then `next`, or with `next` alone from a new cursor, reports every item
/// in order, and then the end. It never fails, and never misses a key.
pub proof fn walking_forward_reports_all<'txn>(
    places: Seq<Place>,
    records: Seq<Seq<Call<'txn>>>,
    op: u32,
    results: Seq<Result<Option<Item<'txn>>, WalkError>>,
    einval: i32,
)
    requires
        walked(records, IterOps { op, next_op: crate::cursor::MDB_NEXT }, results),
        answered(places, records[0], records.last(), einval),
        places[0].store.is_valid(),
        op == crate::cursor::MDB_FIRST || op == crate::cursor::MDB_NEXT
            && places[0].position is Unset,
    ensures
        reports(results, places[0].store.items),
{
    let store = places[0].store;
    let ops = IterOps { op, next_op: crate::cursor::MDB_NEXT };
    let calls = lemma_walked(records, ops, results, einval);
    assert(since(records[0], records.last()) =~= calls);
    lemma_iterates(
        store,
        places,
        calls,
        ops,
        einval,
        crate::cursor::call_items(calls, einval),
    );
    crate::cursor_model::lemma_walk_forward(
        store,
        places[0].position,
        op,
        steps_of(calls, places),
        einval,
    );
    lemma_reports(places, calls, results, store.items);
}

/// A walk with `last` and then `prev`, or with `prev` alone from a new cursor, reports every item,
/// the last first, and then the end. It never fails, and never misses a key.
pub proof fn walking_backward_reports_all_reversed<'txn>(
    places: Seq<Place>,
    records: Seq<Seq<Call<'txn>>>,
    op: u32,
    results: Seq<Result<Option<Item<'txn>>, WalkError>>,
    einval: i32,
)
    requires
        walked(records, IterOps { op, next_op: crate::cursor::MDB_PREV }, results),
        answered(places, records[0], records.last(), einval),
        places[0].store.is_valid(),
        op == crate::cursor::MDB_LAST || op == crate::cursor::MDB_PREV
            && places[0].position is Unset,
    ensures
        reports(results, places[0].store.items.reverse()),
{
    let store = places[0].store;
    let ops = IterOps { op, next_op: crate::cursor::MDB_PREV };
    let calls = lemma_walked(records, ops, results, einval);
    assert(since(records[0], records.last()) =~= calls);
    lemma_iterates(
        store,
        places,
        calls,
        ops,
        einval,
        crate::cursor::call_items(calls, einval),
    );
    crate::cursor_model::lemma_walk_backward(
        store,
        places[0].position,
        op,
        steps_of(calls, places),
        einval,
    );
    lemma_reports(places, calls, results, store.items.reverse());
}

/// Whether a walk came to an item that is to be deleted.
pub open spec fn is_doomed(
    result: Result<Option<Item>, WalkError>,
    doomed: spec_fn(StoredItem) -> bool,
) -> bool {
    result matches Ok(Some((key, data))) && doomed((key@, data@))
}

/// A walk was made with `next`, as often as there are results here, and not again after the end.
/// Items that are to be deleted were deleted as soon as they were reported. `starts` are the records
/// before each round and after the last, and `middles` those after `next` in each round.
pub open spec fn walked_deleting<'txn>(
    starts: Seq<Seq<Call<'txn>>>,
    middles: Seq<Seq<Call<'txn>>>,
    results: Seq<Result<Option<Item<'txn>>, WalkError>>,
    doomed: spec_fn(StoredItem) -> bool,
) -> bool {
    &&& starts.len() == results.len() + 1
    &&& middles.len() == results.len()
    &&& forall|k: int|
        #![trigger results[k]]
        0 <= k < results.len() ==> {
            &&& crate::cursor::walks(starts[k], crate::cursor::MDB_NEXT, results[k], middles[k])
            &&& if is_doomed(results[k], doomed) {
                crate::cursor::deletes(middles[k], 0, Ok(()), starts[k + 1])
            } else {
                starts[k + 1] == middles[k]
            }
            &&& k < results.len() - 1 ==> results[k] matches Ok(Some(_))
        }
}

spec fn is_prefix<'txn>(part: Seq<Call<'txn>>, whole: Seq<Call<'txn>>) -> bool {
    &&& part.len() <= whole.len()
    &&& forall|i: int| #![trigger whole[i]] 0 <= i < part.len() ==> whole[i] == part[i]
}

proof fn lemma_rounds_grow<'txn>(
    starts: Seq<Seq<Call<'txn>>>,
    middles: Seq<Seq<Call<'txn>>>,
    results: Seq<Result<Option<Item<'txn>>, WalkError>>,
    doomed: spec_fn(StoredItem) -> bool,
    from: int,
    to: int,
)
    requires
        walked_deleting(starts, middles, results, doomed),
        0 <= from <= to < starts.len(),
    ensures
        is_prefix(starts[from], starts[to]),
    decreases to - from,
{
    if from < to {
        lemma_rounds_grow(starts, middles, results, doomed, from, to - 1);
        let k = to - 1;
        assert(crate::cursor::walks(
            starts[k],
            crate::cursor::MDB_NEXT,
            results[k],
            middles[k],
        ));
        assert forall|i: int| #![trigger starts[to][i]] 0 <= i < starts[from].len() implies
            starts[to][i] == starts[from][i] by {
            assert(starts[k][i] == starts[from][i]);
        }
    }
}

/// The place after a record.
spec fn place_at<'txn>(
    places: Seq<Place>,
    start: Seq<Call<'txn>>,
    record: Seq<Call<'txn>>,
) -> Place {
    places[record.len() - start.len()]
}

/// The steps of the model that the rounds are.
spec fn round_steps<'txn>(
    starts: Seq<Seq<Call<'txn>>>,
    middles: Seq<Seq<Call<'txn>>>,
    results: Seq<Result<Option<Item<'txn>>, WalkError>>,
    places: Seq<Place>,
) -> Seq<Step<'txn>> {
    Seq::new(
        results.len(),
        |k: int|
            Step {
                reply: reply_of(middles[k][starts[k].len() as int]),
                after: place_at(places, starts[0], middles[k]).position,
            },
    )
}

/// The rounds from one on are a walk of the model.
proof fn lemma_rounds<'txn>(
    starts: Seq<Seq<Call<'txn>>>,
    middles: Seq<Seq<Call<'txn>>>,
    results: Seq<Result<Option<Item<'txn>>, WalkError>>,
    doomed: spec_fn(StoredItem) -> bool,
    places: Seq<Place>,
    einval: i32,
    k: int,
)
    requires
        walked_deleting(starts, middles, results, doomed),
        answered(places, starts[0], starts.last(), einval),
        0 <= k <= results.len(),
        k < results.len() ==> !(place_at(places, starts[0], starts[k]).position is Lost) && !(
        place_at(places, starts[0], starts[k]).position is Ended),
    ensures
        ({
            let place = place_at(places, starts[0], starts[k]);
            let end = place_at(places, starts[0], starts.last());
            let steps = round_steps(starts, middles, results, places);
            place.store.walks_deleting(place.position, doomed, steps.skip(k), end.store)
        }),
    decreases results.len() - k,
{
    let steps = round_steps(starts, middles, results, places);
    let all = since(starts[0], starts.last());
    let base = starts[0].len() as int;
    lemma_rounds_grow(starts, middles, results, doomed, 0, k);
    if k < results.len() {
        lemma_rounds_grow(starts, middles, results, doomed, k + 1, results.len() as int);
        assert(crate::cursor::walks(
            starts[k],
            crate::cursor::MDB_NEXT,
            results[k],
            middles[k],
        ));
        let reply = choose|reply: CursorReply<'txn>|
            middles[k] == starts[k].push(
                #[trigger] crate::cursor::step(crate::cursor::MDB_NEXT, reply),
            ) && results[k] == crate::cursor::walk_result(reply);
        let call = crate::cursor::step(crate::cursor::MDB_NEXT, reply);
        let at = starts[k].len() as int;
        assert(middles[k][at] == call);
        assert(starts[k + 1][at] == call);
        assert(starts.last()[at] == call);
        assert(all[at - base] == call);
        assert(places[at - base].answers(all[at - base], places[at - base + 1], einval));
        assert(steps.skip(k)[0] == steps[k]);
        assert(steps.skip(k).skip(1) =~= steps.skip(k + 1));
        let place = places[at - base];
        let reached = places[at - base + 1];
        assert(place == place_at(places, starts[0], starts[k]));
        assert(reached == place_at(places, starts[0], middles[k]));
        assert(reached.store == place.store);
        assert(steps[k].reply == reply);
        assert(place.store.moves(
            place.position,
            crate::cursor::MDB_NEXT,
            Step { reply, after: reached.position },
            einval,
        ));
        if let Ok(Some((key, data))) = results[k] {
            assert(reached.position is At);
            let index = reached.position->At_0;
            assert((key@, data@) == place.store.items[index]);
            if is_doomed(results[k], doomed) {
                assert(crate::cursor::deletes(middles[k], 0, Ok(()), starts[k + 1]));
                let code = choose|code: i32|
                    starts[k + 1] == middles[k].push(Call::Del { flags: 0, code }) && Ok::<
                        (),
                        Error,
                    >(()) == #[trigger] crate::error::result_of_code(code);
                let deletion = Call::Del { flags: 0, code };
                assert(starts[k + 1][at + 1] == deletion);
                assert(starts.last()[at + 1] == deletion);
                assert(all[at - base + 1] == deletion);
                assert(places[at - base + 1].answers(
                    all[at - base + 1],
                    places[at - base + 2],
                    einval,
                ));
                assert(places[at - base + 2] == place_at(places, starts[0], starts[k + 1]));
            }
            lemma_rounds(starts, middles, results, doomed, places, einval, k + 1);
        } else {
            assert(k == results.len() - 1);
            assert(starts[k + 1] == middles[k]);
            assert(starts.last() == middles[k]);
            assert(steps.skip(k).len() == 1);
        }
    } else {
        assert(steps.skip(k) =~= Seq::<Step<'txn>>::empty());
    }
}

/// However the deletions fall, a walk with `next` that deletes some of the items it comes to reports
/// every item exactly once and in order, and leaves the others.
pub proof fn deleting_does_not_cost_a_visit<'txn>(
    starts: Seq<Seq<Call<'txn>>>,
    middles: Seq<Seq<Call<'txn>>>,
    results: Seq<Result<Option<Item<'txn>>, WalkError>>,
    doomed: spec_fn(StoredItem) -> bool,
    places: Seq<Place>,
    einval: i32,
)
    requires
        walked_deleting(starts, middles, results, doomed),
        answered(places, starts[0], starts.last(), einval),
        places[0].store.is_valid(),
        places[0].position is Unset,
    ensures
        reports(results, places[0].store.items),
        results.len() > places[0].store.items.len() ==> places.last().store.items
            == places[0].store.items.filter(|item: StoredItem| !doomed(item)),
{
    let store = places[0].store;
    let steps = round_steps(starts, middles, results, places);
    let end = place_at(places, starts[0], starts.last());
    lemma_rounds(starts, middles, results, doomed, places, einval, 0);
    assert(steps.skip(0) =~= steps);
    assert(end == places.last());
    crate::cursor_model::lemma_walks_deleting(
        store,
        Position::Unset,
        0,
        doomed,
        steps,
        end.store,
    );
    assert(store.items.skip(0) =~= store.items);
    assert(store.items.take(0) + store.items.filter(|item: StoredItem| !doomed(item))
        =~= store.items.filter(|item: StoredItem| !doomed(item)));
    assert forall|i: int| #![trigger results[i]] 0 <= i < results.len() implies results[i]
        == crate::cursor::walk_result(steps[i].reply) by {
        assert(crate::cursor::walks(
            starts[i],
            crate::cursor::MDB_NEXT,
            results[i],
            middles[i],
        ));
    }
}

} // verus!
