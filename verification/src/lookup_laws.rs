//! What `get` finds in a database, by key and by position.
//!
//! The laws here start from one `get` on a cursor that was at the first of two places, and whose
//! call was answered as LMDB documents it.

use vstd::prelude::*;

use crate::cursor::{Call, CursorReply, Entry};
use crate::cursor_model::{Place, Position, Step, StoredItem};
use crate::error::Error;

verus! {

/// Whether a `get` gave this item: its data item, and its key where one was reported.
pub open spec fn is_found(result: Result<Entry, Error>, item: StoredItem) -> bool {
    match result {
        Ok((key, data)) => data@ == item.1 && (key matches Some(key) ==> key@ == item.0),
        Err(error) => false,
    }
}

/// Whether a `get` found nothing.
pub open spec fn is_missing(result: Result<Entry, Error>) -> bool {
    result matches Err(error) && error == Error::NotFound
}

/// Whether a `get` was refused for the size of its key.
pub open spec fn is_refused(result: Result<Entry, Error>) -> bool {
    result matches Err(error) && error == Error::BadValSize
}

/// Whether a `get` was made on a cursor at the first of these places, and was answered.
pub open spec fn looked_up<'txn>(
    places: Seq<Place>,
    before: Seq<Call<'txn>>,
    key: Option<Seq<u8>>,
    data: Option<Seq<u8>>,
    op: u32,
    result: Result<Entry<'txn>, Error>,
    after: Seq<Call<'txn>>,
    einval: i32,
) -> bool {
    &&& crate::cursor::gets(before, key, data, op, result, after)
    &&& crate::cursor_laws::answered(places, before, after, einval)
    &&& places[0].store.is_valid()
}

/// The reply to a `get` is that of the operation that was asked for.
proof fn lemma_looked_up<'txn>(
    places: Seq<Place>,
    before: Seq<Call<'txn>>,
    key: Option<Seq<u8>>,
    data: Option<Seq<u8>>,
    op: u32,
    result: Result<Entry<'txn>, Error>,
    after: Seq<Call<'txn>>,
    einval: i32,
) -> (reply: CursorReply<'txn>)
    requires
        looked_up(places, before, key, data, op, result, after, einval),
    ensures
        places[0].answers(Call::Get { key, data, op, reply }, places[1], einval),
        result == crate::cursor::get_result(reply),
{
    let reply = choose|reply: CursorReply<'txn>|
        after == before.push(Call::Get { key, data, op, reply }) && result
            == #[trigger] crate::cursor::get_result(reply);
    let calls = crate::cursor_laws::since(before, after);
    assert(calls[0] == Call::Get { key, data, op, reply });
    assert(places[0].answers(calls[0], places[1], einval));
    crate::error::only_zero_is_success(reply.code);
    reply
}

/// Looking up a key, with `MDB_SET` or with `MDB_SET_KEY`, gives the first data item of just that key
/// where the database has it, and `NotFound` where it does not. It never gives the item of another
/// key. An empty key is refused.
pub proof fn a_key_is_found_where_it_is<'txn>(
    places: Seq<Place>,
    before: Seq<Call<'txn>>,
    key: Seq<u8>,
    data: Option<Seq<u8>>,
    op: u32,
    result: Result<Entry<'txn>, Error>,
    after: Seq<Call<'txn>>,
    einval: i32,
)
    requires
        op == 15 || op == 16,
        looked_up(places, before, Some(key), data, op, result, after, einval),
    ensures
        key.len() == 0 ==> is_refused(result),
        key.len() > 0 ==> {
            let items = places[0].store.items;
            if exists|i: int| 0 <= i < items.len() && #[trigger] items[i].0 == key {
                exists|i: int|
                    {
                        &&& 0 <= i < items.len()
                        &&& #[trigger] items[i].0 == key
                        &&& i > 0 ==> items[i - 1].0 != key
                        &&& is_found(result, items[i])
                        &&& places[1].position == Position::At(i)
                    }
            } else {
                is_missing(result)
            }
        },
{
    let reply = lemma_looked_up(places, before, Some(key), data, op, result, after, einval);
    let store = places[0].store;
    let step = Step { reply, after: places[1].position };
    assert(store.seeks(key, op, step));
    if key.len() > 0 {
        let items = store.items;
        if exists|i: int| 0 <= i < items.len() && #[trigger] items[i].0 == key {
            let i = choose|i: int| 0 <= i < items.len() && #[trigger] items[i].0 == key;
            assert(items.contains(items[i]));
            let index = if op == crate::cursor::MDB_SET {
                choose|index: int| #[trigger]
                    store.is_bound(key, index) && store.lands(index, step)
            } else {
                choose|index: int| #[trigger]
                    store.is_bound(key, index) && store.gives(index, step)
            };
            crate::cursor_model::lemma_key_is_at_its_bound(store, key, index);
            assert(items[index].0 == key);
            assert(index > 0 ==> (store.less)(items[index - 1].0, key));
        } else {
            assert forall|item: StoredItem| #[trigger] items.contains(item) implies item.0
                != key by {
                let i = choose|i: int| 0 <= i < items.len() && items[i] == item;
                assert(items[i].0 == item.0);
            }
        }
    }
}

/// Looking up a key with `MDB_SET_RANGE` gives the first item whose key is not less, and `NotFound`
/// where every key is less. An empty key is refused.
pub proof fn a_range_is_found_where_it_begins<'txn>(
    places: Seq<Place>,
    before: Seq<Call<'txn>>,
    key: Seq<u8>,
    data: Option<Seq<u8>>,
    result: Result<Entry<'txn>, Error>,
    after: Seq<Call<'txn>>,
    einval: i32,
)
    requires
        looked_up(places, before, Some(key), data, 17, result, after, einval),
    ensures
        key.len() == 0 ==> is_refused(result),
        key.len() > 0 ==> {
            let items = places[0].store.items;
            let less = places[0].store.less;
            if exists|i: int| 0 <= i < items.len() && !less((#[trigger] items[i]).0, key) {
                exists|i: int|
                    {
                        &&& 0 <= i < items.len()
                        &&& !less((#[trigger] items[i]).0, key)
                        &&& i > 0 ==> less(items[i - 1].0, key)
                        &&& is_found(result, items[i])
                        &&& places[1].position == Position::At(i)
                    }
            } else {
                is_missing(result)
            }
        },
{
    let reply = lemma_looked_up(places, before, Some(key), data, 17, result, after, einval);
    let store = places[0].store;
    let step = Step { reply, after: places[1].position };
    assert(store.seeks(key, crate::cursor::MDB_SET_RANGE, step));
    if key.len() > 0 {
        let index = choose|index: int| #[trigger]
            store.is_bound(key, index) && if index < store.items.len() {
                store.lands(index, step)
            } else {
                store.misses(step)
            };
        if index < store.items.len() {
            assert(!(store.less)(store.items[index].0, key));
            assert(index > 0 ==> (store.less)(store.items[index - 1].0, key));
        }
    }
}

/// Where keys may have several data items, looking up a key and a data item with `MDB_GET_BOTH` finds
/// just that item, and `NotFound` where the database does not have it. With `MDB_GET_BOTH_RANGE` it
/// finds the first data item of just that key that is not less, and `NotFound` where there is none.
pub proof fn a_pair_is_found_where_it_is<'txn>(
    places: Seq<Place>,
    before: Seq<Call<'txn>>,
    key: Seq<u8>,
    data: Seq<u8>,
    op: u32,
    result: Result<Entry<'txn>, Error>,
    after: Seq<Call<'txn>>,
    einval: i32,
)
    requires
        op == 2 || op == 3,
        looked_up(places, before, Some(key), Some(data), op, result, after, einval),
        places[0].store.dup_sort,
        key.len() > 0,
    ensures
        ({
            let items = places[0].store.items;
            let data_less = places[0].store.data_less;
            if op == 2 {
                if items.contains((key, data)) {
                    is_found(result, (key, data))
                } else {
                    is_missing(result)
                }
            } else {
                if exists|item: StoredItem| #[trigger]
                    items.contains(item) && item.0 == key && !data_less(item.1, data) {
                    exists|item: StoredItem| #[trigger]
                        items.contains(item) && item.0 == key && !data_less(item.1, data)
                            && is_found(result, item) && (forall|other: StoredItem| #[trigger]
                            items.contains(other) && other.0 == key && !data_less(other.1, data)
                                ==> other == item || data_less(item.1, other.1))
                } else {
                    is_missing(result)
                }
            }
        }),
{
    let reply = lemma_looked_up(
        places,
        before,
        Some(key),
        Some(data),
        op,
        result,
        after,
        einval,
    );
    let store = places[0].store;
    let items = store.items;
    let step = Step { reply, after: places[1].position };
    assert(store.seeks_pair(key, data, op, step));
    if op == 3 && (exists|item: StoredItem| #[trigger]
        items.contains(item) && item.0 == key && !(store.data_less)(item.1, data)) {
        let index = choose|index: int|
            0 <= index < items.len() && #[trigger] items[index].0 == key && !(store.data_less)(
                items[index].1,
                data,
            ) && store.gives(index, step) && (forall|i: int|
                #![trigger items[i]]
                0 <= i < index && items[i].0 == key ==> (store.data_less)(items[i].1, data));
        let item = items[index];
        assert(items.contains(item));
        assert forall|other: StoredItem| #[trigger]
            items.contains(other) && other.0 == key && !(store.data_less)(
                other.1,
                data,
            ) implies other == item || (store.data_less)(item.1, other.1) by {
            let i = choose|i: int| 0 <= i < items.len() && items[i] == other;
            assert(i >= index);
            if i > index {
                assert(store.precedes(items[index], items[i]));
                assert(!(store.less)(key, key));
            }
        }
    }
}

/// Whether a `get` gave the item with this index, with its key, or found nothing where there is none.
pub open spec fn is_item_or_end(
    result: Result<Entry, Error>,
    items: Seq<StoredItem>,
    index: int,
) -> bool {
    if 0 <= index < items.len() {
        is_found(result, items[index]) && result matches Ok((Some(key), data))
    } else {
        is_missing(result)
    }
}

/// A `get` without a key moves the cursor as its operation says: `MDB_FIRST` to the first item,
/// `MDB_LAST` to the last, `MDB_NEXT` and `MDB_PREV` from the current item to the one after it and
/// before it, and `MDB_GET_CURRENT` nowhere.
pub proof fn a_move_finds_its_item<'txn>(
    places: Seq<Place>,
    before: Seq<Call<'txn>>,
    op: u32,
    result: Result<Entry<'txn>, Error>,
    after: Seq<Call<'txn>>,
    einval: i32,
)
    requires
        looked_up(places, before, None, None, op, result, after, einval),
    ensures
        op == 0 ==> is_item_or_end(result, places[0].store.items, 0),
        op == 6 ==> is_item_or_end(
            result,
            places[0].store.items,
            places[0].store.items.len() - 1,
        ),
        places[0].position matches Position::At(index) ==> {
            let items = places[0].store.items;
            &&& op == 8 ==> is_item_or_end(result, items, index + 1)
            &&& op == 12 ==> is_item_or_end(result, items, index - 1)
            &&& op == 4 ==> is_item_or_end(result, items, index)
        },
        places[1].store == places[0].store,
{
    let reply = lemma_looked_up(places, before, None, None, op, result, after, einval);
    let step = Step { reply, after: places[1].position };
    assert(places[0].store.moves(places[0].position, op, step, einval));
    crate::error::only_zero_is_success(reply.code);
}

} // verus!
