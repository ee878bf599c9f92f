//! What putting and deleting with a cursor does to a database, and to where the cursor goes next.
//!
//! Each law is about two calls: an update that succeeded, and a `get` or a `walk` after it. The
//! first of the places is where the cursor was before the update, the second where that left it.

use vstd::prelude::*;

use crate::cursor::{Call, Entry, Item, WalkError};
use crate::cursor_model::{Place, Position, Step, Store, StoredItem};
use crate::error::Error;

verus! {

/// Whether a walk came to the first of these items, or to the end where there is none.
pub open spec fn comes_to_first(
    result: Result<Option<Item>, WalkError>,
    items: Seq<StoredItem>,
) -> bool {
    match result {
        Ok(Some((key, data))) => items.len() > 0 && (key@, data@) == items[0],
        Ok(None) => items.len() == 0,
        Err(error) => false,
    }
}

/// Whether a `get` reported this item, with its key.
pub open spec fn reads(result: Result<Entry, Error>, item: StoredItem) -> bool {
    match result {
        Ok((Some(key), data)) => (key@, data@) == item,
        _ => false,
    }
}

/// Two calls that were answered lead from a place to a second and a third.
proof fn lemma_two_calls<'txn>(
    places: Seq<Place>,
    before: Seq<Call<'txn>>,
    first: Call<'txn>,
    second: Call<'txn>,
    einval: i32,
)
    requires
        crate::cursor_laws::answered(places, before, before.push(first).push(second), einval),
    ensures
        places.len() == 3,
        places[0].answers(first, places[1], einval),
        places[1].answers(second, places[2], einval),
{
    let calls = crate::cursor_laws::since(before, before.push(first).push(second));
    assert(calls[0] == first);
    assert(calls[1] == second);
}

/// The call that a successful `put` made.
proof fn lemma_put_call<'txn>(
    before: Seq<Call<'txn>>,
    key: Seq<u8>,
    data: Seq<u8>,
    flags: u32,
    middle: Seq<Call<'txn>>,
)
    requires
        crate::cursor::puts(before, key, data, flags, Ok(()), middle),
    ensures
        middle == before.push(
            Call::Put { item: (key, data), flags, code: crate::error::MDB_SUCCESS },
        ),
{
}

/// The call that a successful `del` made.
proof fn lemma_del_call<'txn>(before: Seq<Call<'txn>>, flags: u32, middle: Seq<Call<'txn>>)
    requires
        crate::cursor::deletes(before, flags, Ok(()), middle),
    ensures
        middle == before.push(Call::Del { flags, code: crate::error::MDB_SUCCESS }),
{
}

/// A walk by one step goes from the place after the update.
proof fn lemma_walk_after<'txn>(
    places: Seq<Place>,
    before: Seq<Call<'txn>>,
    update: Call<'txn>,
    op: u32,
    result: Result<Option<Item<'txn>>, WalkError>,
    after: Seq<Call<'txn>>,
    einval: i32,
)
    requires
        crate::cursor::walks(before.push(update), op, result, after),
        crate::cursor_laws::answered(places, before, after, einval),
    ensures
        places[0].answers(update, places[1], einval),
        exists|step: Step<'txn>| #[trigger]
            places[1].store.moves(places[1].position, op, step, einval) && result
                == crate::cursor::walk_result(step.reply),
{
    let reply = choose|reply: crate::cursor::CursorReply<'txn>|
        after == before.push(update).push(#[trigger] crate::cursor::step(op, reply)) && result
            == crate::cursor::walk_result(reply);
    lemma_two_calls(places, before, update, crate::cursor::step(op, reply), einval);
    let step = Step { reply, after: places[2].position };
    assert(places[1].store.moves(places[1].position, op, step, einval));
}

/// A `get` of the current item goes from the place after the update.
proof fn lemma_get_after<'txn>(
    places: Seq<Place>,
    before: Seq<Call<'txn>>,
    update: Call<'txn>,
    result: Result<Entry<'txn>, Error>,
    after: Seq<Call<'txn>>,
    einval: i32,
)
    requires
        crate::cursor::gets(
            before.push(update),
            None,
            None,
            crate::cursor::MDB_GET_CURRENT,
            result,
            after,
        ),
        crate::cursor_laws::answered(places, before, after, einval),
    ensures
        places[0].answers(update, places[1], einval),
        exists|step: Step<'txn>| #[trigger]
            places[1].store.moves(
                places[1].position,
                crate::cursor::MDB_GET_CURRENT,
                step,
                einval,
            ) && result == crate::cursor::get_result(step.reply),
{
    let op = crate::cursor::MDB_GET_CURRENT;
    let reply = choose|reply: crate::cursor::CursorReply<'txn>|
        after == before.push(update).push(Call::Get { key: None, data: None, op, reply }) && result
            == #[trigger] crate::cursor::get_result(reply);
    let read = Call::Get { key: None, data: None, op, reply };
    lemma_two_calls(places, before, update, read, einval);
    let step = Step { reply, after: places[2].position };
    assert(places[1].store.moves(places[1].position, op, step, einval));
}

/// Where a key has one data item, putting an item without flags maps its key to its data and leaves
/// every other key as it was. The cursor is on the item: reading the current item gives it back.
pub proof fn put_is_read_back<'txn>(
    places: Seq<Place>,
    before: Seq<Call<'txn>>,
    key: Seq<u8>,
    data: Seq<u8>,
    middle: Seq<Call<'txn>>,
    result: Result<Entry<'txn>, Error>,
    after: Seq<Call<'txn>>,
    einval: i32,
)
    requires
        crate::cursor::puts(before, key, data, 0, Ok(()), middle),
        crate::cursor::gets(
            middle,
            None,
            None,
            crate::cursor::MDB_GET_CURRENT,
            result,
            after,
        ),
        crate::cursor_laws::answered(places, before, after, einval),
        places[0].store.is_valid(),
        !places[0].store.dup_sort,
    ensures
        places[1].store.is_valid(),
        places[1].store.as_map() == places[0].store.as_map().insert(key, data),
        reads(result, (key, data)),
{
    lemma_put_call(before, key, data, 0, middle);
    let update = Call::Put { item: (key, data), flags: 0, code: crate::error::MDB_SUCCESS };
    lemma_get_after(places, before, update, result, after, einval);
    let index = places[1].position->At_0;
    assert(places[0].store.is_bound(key, index));
    crate::cursor_model::lemma_with(places[0].store, index, (key, data));
}

/// Where a key has one data item, a walk with `next` after putting an item without flags comes to
/// the item with the least greater key.
pub proof fn next_after_put_is_the_least_greater_key<'txn>(
    places: Seq<Place>,
    before: Seq<Call<'txn>>,
    key: Seq<u8>,
    data: Seq<u8>,
    middle: Seq<Call<'txn>>,
    result: Result<Option<Item<'txn>>, WalkError>,
    after: Seq<Call<'txn>>,
    einval: i32,
)
    requires
        crate::cursor::puts(before, key, data, 0, Ok(()), middle),
        crate::cursor::walks(middle, crate::cursor::MDB_NEXT, result, after),
        crate::cursor_laws::answered(places, before, after, einval),
        places[0].store.is_valid(),
        !places[0].store.dup_sort,
    ensures
        places[1].store.as_map() == places[0].store.as_map().insert(key, data),
        comes_to_first(result, places[0].store.after_key(key)),
{
    lemma_put_call(before, key, data, 0, middle);
    let update = Call::Put { item: (key, data), flags: 0, code: crate::error::MDB_SUCCESS };
    lemma_walk_after(places, before, update, crate::cursor::MDB_NEXT, result, after, einval);
    let index = places[1].position->At_0;
    assert(places[0].store.is_bound(key, index));
    crate::cursor_model::lemma_with(places[0].store, index, (key, data));
    let rest = places[1].store.items.skip(index + 1);
    assert(rest.len() > 0 ==> rest[0] == places[1].store.items[index + 1]);
}

/// Where a key may have several data items, putting an item without flags adds it, unless it is
/// there already, and leaves every other item as it was. The cursor is on the item: reading the
/// current item gives it back.
pub proof fn put_adds_to_the_items_of_the_key<'txn>(
    places: Seq<Place>,
    before: Seq<Call<'txn>>,
    key: Seq<u8>,
    data: Seq<u8>,
    middle: Seq<Call<'txn>>,
    result: Result<Entry<'txn>, Error>,
    after: Seq<Call<'txn>>,
    einval: i32,
)
    requires
        crate::cursor::puts(before, key, data, 0, Ok(()), middle),
        crate::cursor::gets(
            middle,
            None,
            None,
            crate::cursor::MDB_GET_CURRENT,
            result,
            after,
        ),
        crate::cursor_laws::answered(places, before, after, einval),
        places[0].store.is_valid(),
        places[0].store.dup_sort,
    ensures
        places[1].store.is_valid(),
        places[1].store.of_key(key).contains((key, data)),
        places[1].store.items.to_multiset() == if places[0].store.items.contains((key, data)) {
            places[0].store.items.to_multiset()
        } else {
            places[0].store.items.to_multiset().insert((key, data))
        },
        places[1].store.items.filter(crate::cursor_model::lacks_key(key))
            == places[0].store.items.filter(crate::cursor_model::lacks_key(key)),
        reads(result, (key, data)),
{
    lemma_put_call(before, key, data, 0, middle);
    let update = Call::Put { item: (key, data), flags: 0, code: crate::error::MDB_SUCCESS };
    lemma_get_after(places, before, update, result, after, einval);
    let index = places[1].position->At_0;
    let item = (key, data);
    let old_items = places[0].store.items;
    let items = places[1].store.items;
    assert(places[0].store.gains(item, index, places[1].store));
    let has = crate::cursor_model::has_key(key);
    assert(has(items[index]));
    assert(items.filter(has).contains(item)) by {
        items.lemma_filter_contains(has, index);
    }
    if !old_items.contains(item) {
        broadcast use vstd::seq_lib::group_to_multiset_ensures;

        let lacks = crate::cursor_model::lacks_key(key);
        let head = old_items.take(index);
        let tail = old_items.skip(index);
        assert(old_items =~= head + tail);
        assert(items =~= head + (seq![item] + tail));
        Seq::filter_distributes_over_add(head, tail, lacks);
        Seq::filter_distributes_over_add(head, seq![item] + tail, lacks);
        crate::cursor_model::lemma_filter_head(item, tail, lacks);
    }
}

/// Where a key may have several data items, a walk with `next` after putting an item without flags
/// comes to the item that comes after it: the next data item of the key, or else the first one of the
/// least greater key.
pub proof fn next_after_put_is_the_item_after_it<'txn>(
    places: Seq<Place>,
    before: Seq<Call<'txn>>,
    key: Seq<u8>,
    data: Seq<u8>,
    middle: Seq<Call<'txn>>,
    result: Result<Option<Item<'txn>>, WalkError>,
    after: Seq<Call<'txn>>,
    einval: i32,
)
    requires
        crate::cursor::puts(before, key, data, 0, Ok(()), middle),
        crate::cursor::walks(middle, crate::cursor::MDB_NEXT, result, after),
        crate::cursor_laws::answered(places, before, after, einval),
        places[0].store.is_valid(),
        places[0].store.dup_sort,
    ensures
        comes_to_first(result, places[0].store.after_item((key, data))),
{
    lemma_put_call(before, key, data, 0, middle);
    let update = Call::Put { item: (key, data), flags: 0, code: crate::error::MDB_SUCCESS };
    lemma_walk_after(places, before, update, crate::cursor::MDB_NEXT, result, after, einval);
    let index = places[1].position->At_0;
    assert(places[0].store.gains((key, data), index, places[1].store));
    crate::cursor_model::lemma_after_item(
        places[0].store,
        (key, data),
        index,
        places[1].store,
    );
}

/// Overwriting the current item changes the data of that item alone, and a walk with `next` goes on
/// from where the cursor was. Where a key may have several data items, the new one has to sort into
/// the place of the old one.
pub proof fn overwriting_keeps_the_place<'txn>(
    places: Seq<Place>,
    before: Seq<Call<'txn>>,
    key: Seq<u8>,
    data: Seq<u8>,
    middle: Seq<Call<'txn>>,
    result: Result<Option<Item<'txn>>, WalkError>,
    after: Seq<Call<'txn>>,
    einval: i32,
    index: int,
)
    requires
        crate::cursor::puts(before, key, data, crate::flags::MDB_CURRENT, Ok(()), middle),
        crate::cursor::walks(middle, crate::cursor::MDB_NEXT, result, after),
        crate::cursor_laws::answered(places, before, after, einval),
        places[0].store.is_valid(),
        places[0].position == Position::At(index),
        0 <= index < places[0].store.items.len(),
        places[0].store.items[index].0 == key,
        places[0].store.dup_sort ==> places[0].store.can_overwrite(index, (key, data)),
    ensures
        places[1].store.is_valid(),
        places[1].store.items == places[0].store.items.update(index, (key, data)),
        places[1].position == places[0].position,
        comes_to_first(result, places[0].store.items.skip(index + 1)),
{
    lemma_put_call(before, key, data, crate::flags::MDB_CURRENT, middle);
    let update = Call::Put {
        item: (key, data),
        flags: crate::flags::MDB_CURRENT,
        code: crate::error::MDB_SUCCESS,
    };
    lemma_walk_after(places, before, update, crate::cursor::MDB_NEXT, result, after, einval);
    assert(places[0].store.can_overwrite(index, (key, data)));
}

/// Deleting the current item takes that item out and no other. A walk with `next` then comes to the
/// item that followed it.
pub proof fn next_after_deleting_is_what_followed<'txn>(
    places: Seq<Place>,
    before: Seq<Call<'txn>>,
    middle: Seq<Call<'txn>>,
    result: Result<Option<Item<'txn>>, WalkError>,
    after: Seq<Call<'txn>>,
    einval: i32,
    index: int,
)
    requires
        crate::cursor::deletes(before, 0, Ok(()), middle),
        crate::cursor::walks(middle, crate::cursor::MDB_NEXT, result, after),
        crate::cursor_laws::answered(places, before, after, einval),
        places[0].position == Position::At(index),
        0 <= index < places[0].store.items.len(),
    ensures
        places[1].store.items == places[0].store.items.remove(index),
        comes_to_first(result, places[0].store.items.skip(index + 1)),
{
    lemma_del_call(before, 0, middle);
    let update = Call::Del { flags: 0, code: crate::error::MDB_SUCCESS };
    lemma_walk_after(places, before, update, crate::cursor::MDB_NEXT, result, after, einval);
}

/// Deleting the current item leaves the cursor on the item that followed it, where one did: reading
/// the current item gives that one.
pub proof fn current_after_deleting_is_what_followed<'txn>(
    places: Seq<Place>,
    before: Seq<Call<'txn>>,
    middle: Seq<Call<'txn>>,
    result: Result<Entry<'txn>, Error>,
    after: Seq<Call<'txn>>,
    einval: i32,
    index: int,
)
    requires
        crate::cursor::deletes(before, 0, Ok(()), middle),
        crate::cursor::gets(
            middle,
            None,
            None,
            crate::cursor::MDB_GET_CURRENT,
            result,
            after,
        ),
        crate::cursor_laws::answered(places, before, after, einval),
        places[0].position == Position::At(index),
        0 <= index < places[0].store.items.len(),
    ensures
        places[1].store.items == places[0].store.items.remove(index),
        index + 1 < places[0].store.items.len() ==> reads(
            result,
            places[0].store.items[index + 1],
        ),
{
    lemma_del_call(before, 0, middle);
    let update = Call::Del { flags: 0, code: crate::error::MDB_SUCCESS };
    lemma_get_after(places, before, update, result, after, einval);
}

/// Deleting the current item takes that item out and no other. A walk with `prev` then comes to the
/// item that came before it.
pub proof fn prev_after_deleting_is_what_came_before<'txn>(
    places: Seq<Place>,
    before: Seq<Call<'txn>>,
    middle: Seq<Call<'txn>>,
    result: Result<Option<Item<'txn>>, WalkError>,
    after: Seq<Call<'txn>>,
    einval: i32,
    index: int,
)
    requires
        crate::cursor::deletes(before, 0, Ok(()), middle),
        crate::cursor::walks(middle, crate::cursor::MDB_PREV, result, after),
        crate::cursor_laws::answered(places, before, after, einval),
        places[0].position == Position::At(index),
        0 <= index < places[0].store.items.len(),
    ensures
        places[1].store.items == places[0].store.items.remove(index),
        comes_to_first(result, places[0].store.items.take(index).reverse()),
{
    lemma_del_call(before, 0, middle);
    let update = Call::Del { flags: 0, code: crate::error::MDB_SUCCESS };
    lemma_walk_after(places, before, update, crate::cursor::MDB_PREV, result, after, einval);
}

/// Where a key may have several data items, deleting with `MDB_NODUPDATA` takes out all items of the
/// current key, whichever of them the cursor is on. The rest stay, in their order. A walk with
/// `next` then comes to the first item with a greater key.
pub proof fn deleting_all_items_of_a_key<'txn>(
    places: Seq<Place>,
    before: Seq<Call<'txn>>,
    middle: Seq<Call<'txn>>,
    result: Result<Option<Item<'txn>>, WalkError>,
    after: Seq<Call<'txn>>,
    einval: i32,
    index: int,
)
    requires
        crate::cursor::deletes(before, crate::flags::MDB_NODUPDATA, Ok(()), middle),
        crate::cursor::walks(middle, crate::cursor::MDB_NEXT, result, after),
        crate::cursor_laws::answered(places, before, after, einval),
        places[0].store.is_valid(),
        places[0].store.dup_sort,
        places[0].position == Position::At(index),
        0 <= index < places[0].store.items.len(),
    ensures
        ({
            let key = places[0].store.items[index].0;
            &&& places[1].store.items == places[0].store.items.filter(
                crate::cursor_model::lacks_key(key),
            )
            &&& places[1].store.of_key(key) == Seq::<StoredItem>::empty()
            &&& comes_to_first(result, places[0].store.after_key(key))
        }),
{
    lemma_del_call(before, crate::flags::MDB_NODUPDATA, middle);
    let update = Call::Del {
        flags: crate::flags::MDB_NODUPDATA,
        code: crate::error::MDB_SUCCESS,
    };
    lemma_walk_after(places, before, update, crate::cursor::MDB_NEXT, result, after, einval);
    let store = places[0].store;
    let key = store.items[index].0;
    let bound = places[1].position->Gap_0;
    assert(store.is_bound(key, bound));
    let end = crate::cursor_model::lemma_around_key(store, key, bound);
    crate::cursor_model::lemma_after_key(store, key, end);
    crate::cursor_model::lemma_without_key(store, key, bound, end);
    let items = places[1].store.items;
    assert(items == store.items.take(bound) + store.items.skip(end));
    assert forall|i: int| #![trigger items[i]] 0 <= i < items.len() implies crate::cursor_model::has_key(
        key,
    )(items[i]) == (0 <= i < 0) by {
        if i < bound {
            assert(items[i] == store.items[i]);
        } else {
            assert(items[i] == store.items[i - bound + end]);
        }
    }
    crate::cursor_model::lemma_filter_is_stretch(items, crate::cursor_model::has_key(key), 0, 0);
    let rest = store.items.skip(end);
    assert(rest.len() > 0 ==> items[bound] == rest[0]);
}

/// A database is split at a key: the items up to the key, and those from the key on without the ones
/// of the key itself, are together all the items.
pub proof fn a_key_splits_the_items(store: Store, key: Seq<u8>)
    requires
        store.is_valid(),
    ensures
        store.up_to_key(key) + store.from_key(key).filter(crate::cursor_model::lacks_key(key))
            == store.items,
{
    let bound = crate::cursor_model::lemma_bound(store, key, 0);
    let end = crate::cursor_model::lemma_around_key(store, key, bound);
    let len = store.items.len() as int;
    crate::cursor_model::lemma_filter_is_stretch(
        store.items,
        |item: StoredItem| !(store.less)(key, item.0),
        0,
        end,
    );
    crate::cursor_model::lemma_filter_is_stretch(
        store.items,
        |item: StoredItem| !(store.less)(item.0, key),
        bound,
        len,
    );
    let from = store.items.subrange(bound, len);
    assert(store.from_key(key) == from);
    let lacks = crate::cursor_model::lacks_key(key);
    assert forall|i: int| #![trigger from[i]] 0 <= i < from.len() implies lacks(from[i]) == (end
        - bound <= i < len - bound) by {
        assert(from[i] == store.items[bound + i]);
    }
    crate::cursor_model::lemma_filter_is_stretch(from, lacks, end - bound, len - bound);
    assert(store.items.subrange(0, end) + from.subrange(end - bound, len - bound) =~= store.items);
}

} // verus!
