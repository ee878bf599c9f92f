//! A model of a database and of a cursor on it.
//!
//! A database is a sorted sequence of items. What stands here says, for each call that can be made
//! on a cursor, what LMDB documents of its reply, of where it leaves the cursor, and of what it does
//! to the items; and where sequences of such calls lead.

use vstd::prelude::*;

use crate::cursor::{Call, CursorReply, IterOps};

verus! {

/// A key and a data item.
pub type StoredItem = (Seq<u8>, Seq<u8>);

/// The contents of a database.
pub struct Store {
    /// The items, in the order of the database.
    pub items: Seq<StoredItem>,
    /// The order of the keys.
    pub less: spec_fn(Seq<u8>, Seq<u8>) -> bool,
    /// The order of the data items of a key.
    pub data_less: spec_fn(Seq<u8>, Seq<u8>) -> bool,
    /// Whether a key may have several data items.
    pub dup_sort: bool,
}

/// Where a cursor is.
pub enum Position {
    /// It is new.
    Unset,
    /// It is at the item with this index.
    At(int),
    /// The item that it was at was deleted, and the one with this index followed it.
    Gap(int),
    /// It was sought to a key that does not exist.
    Lost,
    /// It ran past an end, and nothing is known of where it is.
    Ended,
}

/// What a step of an iterator got for a reply, and where that left the cursor.
pub struct Step<'txn> {
    pub reply: CursorReply<'txn>,
    pub after: Position,
}

/// Whether this is a strict order in which any two values can be compared.
pub open spec fn is_order(less: spec_fn(Seq<u8>, Seq<u8>) -> bool) -> bool {
    &&& forall|a: Seq<u8>, b: Seq<u8>, c: Seq<u8>|
        #![trigger less(a, b), less(b, c)]
        less(a, b) && less(b, c) ==> less(a, c)
    &&& forall|a: Seq<u8>| !#[trigger] less(a, a)
    &&& forall|a: Seq<u8>, b: Seq<u8>| #![trigger less(a, b)] less(a, b) || less(b, a) || a == b
}

impl Store {
    /// Whether one item comes before another.
    pub open spec fn precedes(self, a: StoredItem, b: StoredItem) -> bool {
        ||| (self.less)(a.0, b.0)
        ||| self.dup_sort && a.0 == b.0 && (self.data_less)(a.1, b.1)
    }

    /// Whether the orders are such, and the items are sorted by them.
    pub open spec fn is_valid(self) -> bool {
        &&& is_order(self.less)
        &&& is_order(self.data_less)
        &&& forall|i: int, j: int|
            #![trigger self.items[i], self.items[j]]
            0 <= i < j < self.items.len() ==> self.precedes(self.items[i], self.items[j])
    }

    /// Whether an index is the first one from which the keys are not less than this one.
    pub open spec fn is_bound(self, key: Seq<u8>, index: int) -> bool {
        &&& 0 <= index <= self.items.len()
        &&& forall|i: int|
            #![trigger self.items[i]]
            0 <= i < index ==> (self.less)(self.items[i].0, key)
        &&& forall|i: int|
            #![trigger self.items[i]]
            index <= i < self.items.len() ==> !(self.less)(self.items[i].0, key)
    }

    /// Whether an index is the last one with the same key as another one.
    pub open spec fn is_last_of_key(self, index: int, last: int) -> bool {
        &&& index <= last < self.items.len()
        &&& self.items[last].0 == self.items[index].0
        &&& last + 1 < self.items.len() ==> self.items[last + 1].0 != self.items[index].0
    }

    /// The cursor comes to an item, and reports it.
    pub open spec fn lands(self, index: int, step: Step) -> bool {
        &&& step.after == Position::At(index)
        &&& step.reply.code == crate::error::MDB_SUCCESS
        &&& step.reply.key@ == self.items[index].0
        &&& step.reply.data@ == self.items[index].1
    }

    /// There is no item to go on to.
    pub open spec fn ends(self, step: Step) -> bool {
        &&& step.after == Position::Ended
        &&& step.reply.code == crate::error::MDB_NOTFOUND
    }

    /// There is no item that is sought.
    pub open spec fn misses(self, step: Step) -> bool {
        &&& step.after == Position::Lost
        &&& step.reply.code == crate::error::MDB_NOTFOUND
    }

    /// The cursor comes to an item where there is one with this index, and reports its key too.
    pub open spec fn reaches(self, index: int, step: Step) -> bool {
        if 0 <= index < self.items.len() {
            self.lands(index, step) && step.reply.reports_key()
        } else {
            self.ends(step)
        }
    }

    /// What a cursor replies to an operation that takes no key. Of a cursor that is lost or ran past
    /// an end only so much is said as that nothing is found where there is nothing, and that after a
    /// seek that failed there is no current item.
    pub open spec fn moves(self, before: Position, op: u32, step: Step, einval: i32) -> bool {
        if op == crate::cursor::MDB_FIRST {
            self.reaches(0, step)
        } else if op == crate::cursor::MDB_LAST {
            self.reaches(self.items.len() - 1, step)
        } else if op == crate::cursor::MDB_NEXT {
            match before {
                Position::Unset => self.reaches(0, step),
                Position::At(index) => self.reaches(index + 1, step),
                Position::Gap(index) => self.reaches(index, step),
                _ => self.items.len() == 0 ==> self.ends(step),
            }
        } else if op == crate::cursor::MDB_PREV {
            match before {
                Position::Unset => self.reaches(self.items.len() - 1, step),
                Position::At(index) => self.reaches(index - 1, step),
                Position::Gap(index) => self.reaches(index - 1, step),
                _ => self.items.len() == 0 ==> self.ends(step),
            }
        } else if op == crate::cursor::MDB_GET_CURRENT {
            match before {
                Position::At(index) => self.reaches(index, step),
                Position::Gap(index) => index < self.items.len() ==> self.reaches(index, step),
                Position::Lost => step.reply.code == crate::error::MDB_NOTFOUND || step.reply.code
                    == einval,
                _ => true,
            }
        } else if op == crate::cursor::MDB_NEXT_DUP {
            match before {
                Position::At(index) => self.dup_sort ==> if index + 1 < self.items.len()
                    && self.items[index + 1].0 == self.items[index].0 {
                    self.reaches(index + 1, step)
                } else {
                    self.ends(step)
                },
                _ => true,
            }
        } else if op == crate::cursor::MDB_LAST_DUP {
            match before {
                Position::At(index) => if self.dup_sort {
                    step.after matches Position::At(last) && self.is_last_of_key(index, last)
                } else {
                    step.after == before
                },
                _ => true,
            }
        } else {
            true
        }
    }

    /// The cursor comes to an item, and gives its data item. Where it reports a key, it is that of
    /// the item.
    pub open spec fn gives(self, index: int, step: Step) -> bool {
        &&& step.after == Position::At(index)
        &&& step.reply.code == crate::error::MDB_SUCCESS
        &&& step.reply.data@ == self.items[index].1
        &&& step.reply.reports_key() ==> step.reply.key@ == self.items[index].0
    }

    /// What a cursor replies to a seek of a key and a data item, wherever it was, where keys may have
    /// several data items: an exact one finds just that item, and a range seek finds the first data
    /// item of the key that is not less.
    pub open spec fn seeks_pair(self, key: Seq<u8>, data: Seq<u8>, op: u32, step: Step) -> bool {
        if key.len() == 0 || !self.dup_sort {
            true
        } else if op == crate::cursor::MDB_GET_BOTH {
            if self.items.contains((key, data)) {
                exists|index: int|
                    0 <= index < self.items.len() && #[trigger] self.items[index] == (key, data)
                        && self.gives(index, step)
            } else {
                step.reply.code == crate::error::MDB_NOTFOUND
            }
        } else if op == crate::cursor::MDB_GET_BOTH_RANGE {
            if exists|item: StoredItem| #[trigger]
                self.items.contains(item) && item.0 == key && !(self.data_less)(item.1, data) {
                exists|index: int|
                    0 <= index < self.items.len() && #[trigger] self.items[index].0 == key && !(
                    self.data_less)(self.items[index].1, data) && self.gives(index, step) && (
                    forall|i: int|
                        #![trigger self.items[i]]
                        0 <= i < index && self.items[i].0 == key ==> (self.data_less)(
                            self.items[i].1,
                            data,
                        ))
            } else {
                step.reply.code == crate::error::MDB_NOTFOUND
            }
        } else {
            true
        }
    }

    /// What a cursor replies to a seek, wherever it was. An empty key is refused.
    pub open spec fn seeks(self, key: Seq<u8>, op: u32, step: Step) -> bool {
        if key.len() == 0 {
            step.reply.code == crate::error::MDB_BAD_VALSIZE
        } else if op == crate::cursor::MDB_SET {
            if exists|item: StoredItem| #[trigger] self.items.contains(item) && item.0 == key {
                exists|index: int| #[trigger]
                    self.is_bound(key, index) && self.lands(index, step)
            } else {
                self.misses(step)
            }
        } else if op == crate::cursor::MDB_SET_RANGE {
            exists|index: int| #[trigger]
                self.is_bound(key, index) && if index < self.items.len() {
                    self.lands(index, step)
                } else {
                    self.misses(step)
                }
        } else if op == crate::cursor::MDB_SET_KEY {
            if exists|item: StoredItem| #[trigger] self.items.contains(item) && item.0 == key {
                exists|index: int| #[trigger]
                    self.is_bound(key, index) && self.gives(index, step)
            } else {
                self.misses(step)
            }
        } else {
            true
        }
    }

    /// Whether this is how the steps of an iterator can go: each performs the operation that is
    /// due, and none follows the end.
    pub open spec fn iterates(
        self,
        before: Position,
        ops: IterOps,
        steps: Seq<Step>,
        einval: i32,
    ) -> bool
        decreases steps.len(),
    {
        steps.len() > 0 ==> {
            &&& self.moves(before, ops.op, steps[0], einval)
            &&& crate::cursor::iter_item(steps[0].reply, einval) is None ==> steps.len() == 1
            &&& self.iterates(
                steps[0].after,
                IterOps { op: ops.next_op, next_op: ops.next_op },
                steps.skip(1),
                einval,
            )
        }
    }
}

/// Whether the steps of an iterator yield these items, one each and in this order, and then nothing
/// more.
pub open spec fn steps_yield(steps: Seq<Step>, items: Seq<StoredItem>, einval: i32) -> bool {
    &&& steps.len() <= items.len() + 1
    &&& forall|i: int|
        #![trigger steps[i]]
        0 <= i < steps.len() ==> match crate::cursor::iter_item(steps[i].reply, einval) {
            Some(Ok((key, data))) => i < items.len() && key@ == items[i].0 && data@ == items[i].1,
            Some(Err(error)) => false,
            None => i == items.len(),
        }
}

/// A step that comes to an item, and steps that yield what follows it, yield both.
proof fn lemma_one_more(
    store: Store,
    index: int,
    steps: Seq<Step>,
    rest: Seq<StoredItem>,
    einval: i32,
)
    requires
        steps.len() > 0,
        0 <= index < store.items.len(),
        store.lands(index, steps[0]),
        steps_yield(steps.skip(1), rest, einval),
    ensures
        steps_yield(steps, seq![store.items[index]] + rest, einval),
{
    let items = seq![store.items[index]] + rest;
    assert forall|i: int| #![trigger steps[i]] 0 <= i < steps.len() implies match crate::cursor::iter_item(
        steps[i].reply,
        einval,
    ) {
        Some(Ok((key, data))) => i < items.len() && key@ == items[i].0 && data@ == items[i].1,
        Some(Err(error)) => false,
        None => i == items.len(),
    } by {
        if i > 0 {
            assert(steps.skip(1)[i - 1] == steps[i]);
        }
    }
}

/// From an item on, stepping forward yields all that follow it.
proof fn lemma_forward(store: Store, index: int, steps: Seq<Step>, einval: i32)
    requires
        0 <= index < store.items.len(),
        store.iterates(
            Position::At(index),
            IterOps { op: crate::cursor::MDB_NEXT, next_op: crate::cursor::MDB_NEXT },
            steps,
            einval,
        ),
    ensures
        steps_yield(steps, store.items.skip(index + 1), einval),
    decreases steps.len(),
{
    if steps.len() > 0 && index + 1 < store.items.len() {
        lemma_forward(store, index + 1, steps.skip(1), einval);
        lemma_one_more(store, index + 1, steps, store.items.skip(index + 2), einval);
        assert(store.items.skip(index + 1) =~= seq![store.items[index + 1]] + store.items.skip(
            index + 2,
        ));
    }
}

/// From an item on, stepping back yields all that come before it, the nearest first.
proof fn lemma_backward(store: Store, index: int, steps: Seq<Step>, einval: i32)
    requires
        0 <= index < store.items.len(),
        store.iterates(
            Position::At(index),
            IterOps { op: crate::cursor::MDB_PREV, next_op: crate::cursor::MDB_PREV },
            steps,
            einval,
        ),
    ensures
        steps_yield(steps, store.items.take(index).reverse(), einval),
    decreases steps.len(),
{
    if steps.len() > 0 && index > 0 {
        lemma_backward(store, index - 1, steps.skip(1), einval);
        lemma_one_more(store, index - 1, steps, store.items.take(index - 1).reverse(), einval);
        assert(store.items.take(index).reverse() =~= seq![store.items[index - 1]]
            + store.items.take(index - 1).reverse());
    }
}

/// An iterator whose first step comes to an item, and that goes forward, yields the items from that
/// one on.
proof fn lemma_starts_forward(
    store: Store,
    index: int,
    before: Position,
    op: u32,
    steps: Seq<Step>,
    einval: i32,
)
    requires
        0 <= index <= store.items.len(),
        store.iterates(before, IterOps { op, next_op: crate::cursor::MDB_NEXT }, steps, einval),
        steps.len() > 0 ==> if index < store.items.len() {
            store.lands(index, steps[0])
        } else {
            crate::cursor::iter_item(steps[0].reply, einval) is None
        },
    ensures
        steps_yield(steps, store.items.skip(index), einval),
{
    if steps.len() > 0 && index < store.items.len() {
        lemma_forward(store, index, steps.skip(1), einval);
        lemma_one_more(store, index, steps, store.items.skip(index + 1), einval);
        assert(store.items.skip(index) =~= seq![store.items[index]] + store.items.skip(index + 1));
    }
}

/// An iterator whose first step comes to an item, and that goes back, yields the items up to that
/// one, the last first.
proof fn lemma_starts_backward(
    store: Store,
    index: int,
    before: Position,
    op: u32,
    steps: Seq<Step>,
    einval: i32,
)
    requires
        -1 <= index < store.items.len(),
        store.iterates(before, IterOps { op, next_op: crate::cursor::MDB_PREV }, steps, einval),
        steps.len() > 0 ==> if index >= 0 {
            store.lands(index, steps[0])
        } else {
            crate::cursor::iter_item(steps[0].reply, einval) is None
        },
    ensures
        steps_yield(steps, store.items.take(index + 1).reverse(), einval),
{
    if steps.len() > 0 && index >= 0 {
        lemma_backward(store, index, steps.skip(1), einval);
        lemma_one_more(store, index, steps, store.items.take(index).reverse(), einval);
        assert(store.items.take(index + 1).reverse() =~= seq![store.items[index]]
            + store.items.take(index).reverse());
    }
}

/// `into_iter` yields every item after the position of the cursor, and of a new cursor every item
/// there is.
pub(crate) proof fn lemma_into_iter(
    store: Store,
    before: Position,
    steps: Seq<Step>,
    einval: i32,
)
    requires
        store.is_valid(),
        before matches Position::At(index) ==> 0 <= index < store.items.len(),
        before matches Position::Gap(index) ==> 0 <= index <= store.items.len(),
        !(before is Lost) && !(before is Ended),
        store.iterates(
            before,
            IterOps { op: crate::cursor::MDB_NEXT, next_op: crate::cursor::MDB_NEXT },
            steps,
            einval,
        ),
    ensures
        match before {
            Position::At(index) => steps_yield(steps, store.items.skip(index + 1), einval),
            Position::Gap(index) => steps_yield(steps, store.items.skip(index), einval),
            _ => steps_yield(steps, store.items, einval),
        },
{
    match before {
        Position::At(index) => {
            lemma_forward(store, index, steps, einval);
        },
        Position::Gap(index) => {
            lemma_starts_forward(store, index, before, crate::cursor::MDB_NEXT, steps, einval);
        },
        _ => {
            lemma_starts_forward(store, 0, before, crate::cursor::MDB_NEXT, steps, einval);
            assert(store.items.skip(0) =~= store.items);
        },
    }
}

/// `into_iter_start` yields every item, in order, wherever the cursor was.
pub(crate) proof fn lemma_into_iter_start(
    store: Store,
    before: Position,
    steps: Seq<Step>,
    einval: i32,
)
    requires
        store.is_valid(),
        store.iterates(
            before,
            IterOps { op: crate::cursor::MDB_FIRST, next_op: crate::cursor::MDB_NEXT },
            steps,
            einval,
        ),
    ensures
        steps_yield(steps, store.items, einval),
{
    lemma_starts_forward(store, 0, before, crate::cursor::MDB_FIRST, steps, einval);
    assert(store.items.skip(0) =~= store.items);
}

/// `into_iter_rev` yields every item, the last first, wherever the cursor was: what
/// `into_iter_start` yields, in reverse.
pub(crate) proof fn lemma_into_iter_rev(
    store: Store,
    before: Position,
    steps: Seq<Step>,
    einval: i32,
)
    requires
        store.is_valid(),
        store.iterates(
            before,
            IterOps { op: crate::cursor::MDB_LAST, next_op: crate::cursor::MDB_PREV },
            steps,
            einval,
        ),
    ensures
        steps_yield(steps, store.items.reverse(), einval),
{
    let last = store.items.len() - 1;
    lemma_starts_backward(store, last, before, crate::cursor::MDB_LAST, steps, einval);
    assert(store.items.take(last + 1) =~= store.items);
}

/// Where a condition holds of a stretch of a sequence and nowhere else, filtering by it gives the
/// stretch.
pub(crate) proof fn lemma_filter_is_stretch(
    items: Seq<StoredItem>,
    condition: spec_fn(StoredItem) -> bool,
    from: int,
    to: int,
)
    requires
        0 <= from <= to <= items.len(),
        forall|i: int|
            #![trigger items[i]]
            0 <= i < items.len() ==> condition(items[i]) == (from <= i < to),
    ensures
        items.filter(condition) == items.subrange(from, to),
    decreases items.len(),
{
    reveal(Seq::filter);
    if items.len() > 0 {
        let init = items.drop_last();
        assert forall|i: int| #![trigger init[i]] 0 <= i < init.len() implies condition(init[i]) == (
        from <= i < to) by {
            assert(init[i] == items[i]);
        }
        let last = items.len() - 1;
        assert(condition(items[last]) == (from <= last < to));
        if from <= last < to {
            lemma_filter_is_stretch(init, condition, from, last);
            assert(items.subrange(from, to) =~= init.subrange(from, last).push(items.last()));
        } else if from == items.len() {
            lemma_filter_is_stretch(init, condition, last, last);
            assert(items.subrange(from, to) =~= init.subrange(last, last));
        } else {
            lemma_filter_is_stretch(init, condition, from, to);
            assert(items.subrange(from, to) =~= init.subrange(from, to));
        }
    } else {
        assert(items.subrange(from, to) =~= items);
    }
}

/// The condition that an item has this key.
pub open spec fn has_key(key: Seq<u8>) -> spec_fn(StoredItem) -> bool {
    |item: StoredItem| item.0 == key
}

impl Store {
    /// The items whose keys are not less than this one.
    pub open spec fn from_key(self, key: Seq<u8>) -> Seq<StoredItem> {
        self.items.filter(|item: StoredItem| !(self.less)(item.0, key))
    }

    /// The items whose keys are not greater than this one.
    pub open spec fn up_to_key(self, key: Seq<u8>) -> Seq<StoredItem> {
        self.items.filter(|item: StoredItem| !(self.less)(key, item.0))
    }

    /// The items with this key.
    pub open spec fn of_key(self, key: Seq<u8>) -> Seq<StoredItem> {
        self.items.filter(has_key(key))
    }
}

/// `into_iter_from` yields the items whose keys are not less than the given one, in order.
pub(crate) proof fn lemma_into_iter_from(
    store: Store,
    key: Seq<u8>,
    range: Step,
    steps: Seq<Step>,
    einval: i32,
)
    requires
        store.is_valid(),
        key.len() > 0,
        crate::system::is_einval(einval),
        store.seeks(key, crate::cursor::MDB_SET_RANGE, range),
    ensures
        match crate::cursor::ops_from(range.reply.code) {
            Ok(ops) => store.iterates(range.after, ops, steps, einval) ==> steps_yield(
                steps,
                store.from_key(key),
                einval,
            ),
            Err(error) => false,
        },
{
    let ops = IterOps { op: crate::cursor::MDB_GET_CURRENT, next_op: crate::cursor::MDB_NEXT };
    assert(crate::cursor::ops_from(range.reply.code) == Ok::<_, crate::error::Error>(ops));
    let index = choose|index: int| #[trigger]
        store.is_bound(key, index) && if index < store.items.len() {
            store.lands(index, range)
        } else {
            store.misses(range)
        };
    if store.iterates(range.after, ops, steps, einval) {
        lemma_starts_forward(store, index, range.after, ops.op, steps, einval);
        lemma_filter_is_stretch(
            store.items,
            |item: StoredItem| !(store.less)(item.0, key),
            index,
            store.items.len() as int,
        );
        assert(store.items.skip(index) =~= store.items.subrange(index, store.items.len() as int));
    }
}

/// A key that is in the database is at its bound.
pub(crate) proof fn lemma_key_is_at_its_bound(store: Store, key: Seq<u8>, index: int)
    requires
        store.is_valid(),
        store.is_bound(key, index),
        exists|item: StoredItem| #[trigger] store.items.contains(item) && item.0 == key,
    ensures
        index < store.items.len(),
        store.items[index].0 == key,
{
    let item = choose|item: StoredItem| #[trigger] store.items.contains(item) && item.0 == key;
    let i = choose|i: int| 0 <= i < store.items.len() && store.items[i] == item;
    assert(store.items[i].0 == key);
    assert(!(store.less)(key, key));
    assert(index <= i);
    assert(!(store.less)(store.items[index].0, key));
}

/// Each item has a last one with the same key; all between them have that key too.
proof fn lemma_last_of_key(store: Store, index: int) -> (last: int)
    requires
        store.is_valid(),
        0 <= index < store.items.len(),
    ensures
        store.is_last_of_key(index, last),
    decreases store.items.len() - index,
{
    if index + 1 < store.items.len() && store.items[index + 1].0 == store.items[index].0 {
        lemma_last_of_key(store, index + 1)
    } else {
        index
    }
}

/// The items up to the last one with a key are those whose keys are not greater.
proof fn lemma_up_to_key(store: Store, key: Seq<u8>, last: int)
    requires
        store.is_valid(),
        0 <= last < store.items.len(),
        store.items[last].0 == key,
        last + 1 < store.items.len() ==> store.items[last + 1].0 != key,
    ensures
        store.up_to_key(key) == store.items.take(last + 1),
{
    let condition = |item: StoredItem| !(store.less)(key, item.0);
    assert forall|i: int| #![trigger store.items[i]] 0 <= i < store.items.len() implies condition(
        store.items[i],
    ) == (0 <= i < last + 1) by {
        let other = store.items[i].0;
        if i <= last {
            if (store.less)(key, other) {
                assert(i < last ==> (store.less)(other, key) || other == key);
                assert(!(store.less)(key, key));
            }
        } else {
            let next = store.items[last + 1].0;
            assert((store.less)(key, next));
            assert(i > last + 1 ==> (store.less)(next, other) || next == other);
        }
    }
    lemma_filter_is_stretch(store.items, condition, 0, last + 1);
}

/// `into_iter_from_rev` yields the items whose keys are not greater than the given one, the last
/// first. `second` is what came of the operation after the exact seek: the move to the last data
/// item of the key where it was found, and the range seek where it was not.
pub(crate) proof fn lemma_into_iter_from_rev(
    store: Store,
    key: Seq<u8>,
    set: Step,
    second: Step,
    steps: Seq<Step>,
    einval: i32,
)
    requires
        store.is_valid(),
        key.len() > 0,
        crate::system::is_einval(einval),
        store.seeks(key, crate::cursor::MDB_SET, set),
        if set.reply.code == crate::error::MDB_SUCCESS {
            store.moves(set.after, crate::cursor::MDB_LAST_DUP, second, einval)
        } else {
            store.seeks(key, crate::cursor::MDB_SET_RANGE, second)
        },
    ensures
        match crate::cursor::ops_from_rev(set.reply.code, second.reply.code) {
            Ok(ops) => store.iterates(second.after, ops, steps, einval) ==> steps_yield(
                steps,
                store.up_to_key(key).reverse(),
                einval,
            ),
            Err(error) => false,
        },
{
    let ops = crate::cursor::ops_from_rev(set.reply.code, second.reply.code);
    if set.reply.code == crate::error::MDB_SUCCESS {
        let index = choose|index: int| #[trigger]
            store.is_bound(key, index) && store.lands(index, set);
        lemma_key_is_at_its_bound(store, key, index);
        assert(second.after matches Position::At(last) && 0 <= last < store.items.len()
            && store.items[last].0 == key && (last + 1 < store.items.len() ==> store.items[last
            + 1].0 != key)) by {
            if !store.dup_sort && index + 1 < store.items.len() {
                assert(!(store.less)(key, key));
                assert((store.less)(store.items[index].0, store.items[index + 1].0));
            }
        }
        let last = second.after->At_0;
        lemma_up_to_key(store, key, last);
        if store.iterates(second.after, ops->Ok_0, steps, einval) {
            lemma_starts_backward(
                store,
                last,
                second.after,
                crate::cursor::MDB_GET_CURRENT,
                steps,
                einval,
            );
        }
    } else {
        let index = choose|index: int| #[trigger]
            store.is_bound(key, index) && if index < store.items.len() {
                store.lands(index, second)
            } else {
                store.misses(second)
            };
        let condition = |item: StoredItem| !(store.less)(key, item.0);
        assert forall|i: int| #![trigger store.items[i]] 0 <= i
            < store.items.len() implies condition(store.items[i]) == (0 <= i < index) by {
            assert(store.items.contains(store.items[i]));
            let other = store.items[i].0;
            assert(other != key);
            if (store.less)(key, other) && (store.less)(other, key) {
                assert((store.less)(key, key));
            }
            assert((store.less)(key, other) || (store.less)(other, key));
        }
        lemma_filter_is_stretch(store.items, condition, 0, index);
        if store.iterates(second.after, ops->Ok_0, steps, einval) {
            lemma_starts_backward(store, index - 1, second.after, ops->Ok_0.op, steps, einval);
        }
    }
}

/// From an item on, stepping to the next data item of the key yields all that follow it up to the
/// last one with that key.
proof fn lemma_duplicates(store: Store, index: int, last: int, steps: Seq<Step>, einval: i32)
    requires
        store.is_valid(),
        store.dup_sort,
        0 <= index,
        store.is_last_of_key(index, last),
        store.iterates(
            Position::At(index),
            IterOps { op: crate::cursor::MDB_NEXT_DUP, next_op: crate::cursor::MDB_NEXT_DUP },
            steps,
            einval,
        ),
    ensures
        steps_yield(steps, store.items.subrange(index + 1, last + 1), einval),
    decreases steps.len(),
{
    if index < last {
        lemma_between_same_keys(store, index, index + 1, last);
    }
    if steps.len() > 0 && index < last {
        lemma_duplicates(store, index + 1, last, steps.skip(1), einval);
        let rest = store.items.subrange(index + 2, last + 1);
        lemma_one_more(store, index + 1, steps, rest, einval);
        assert(store.items.subrange(index + 1, last + 1) =~= seq![store.items[index + 1]] + rest);
    }
}

/// Between two items with the same key there are only items with that key.
proof fn lemma_between_same_keys(store: Store, from: int, between: int, to: int)
    requires
        store.is_valid(),
        0 <= from <= between <= to < store.items.len(),
        store.items[from].0 == store.items[to].0,
    ensures
        store.items[between].0 == store.items[from].0,
{
    let key = store.items[from].0;
    let other = store.items[between].0;
    if from < between && between < to && other != key {
        assert((store.less)(key, other));
        assert((store.less)(other, key));
        assert((store.less)(key, key));
    }
}

/// Where keys may have several data items, `into_iter_dup_of` yields those of the given key, in
/// order. `second` is what came of the move to the end that is made where the key was not found.
pub(crate) proof fn lemma_into_iter_dup_of(
    store: Store,
    key: Seq<u8>,
    set: Step,
    second: Step,
    steps: Seq<Step>,
    einval: i32,
)
    requires
        store.is_valid(),
        store.dup_sort,
        key.len() > 0,
        store.seeks(key, crate::cursor::MDB_SET, set),
        set.reply.code != crate::error::MDB_SUCCESS ==> store.moves(
            set.after,
            crate::cursor::MDB_LAST,
            second,
            einval,
        ),
    ensures
        match crate::cursor::ops_dup_of(set.reply.code) {
            Ok(ops) => {
                let start = if set.reply.code == crate::error::MDB_SUCCESS {
                    set.after
                } else {
                    second.after
                };
                store.iterates(start, ops, steps, einval) ==> steps_yield(
                    steps,
                    store.of_key(key),
                    einval,
                )
            },
            Err(error) => false,
        },
{
    let ops = crate::cursor::ops_dup_of(set.reply.code)->Ok_0;
    let condition = has_key(key);
    if set.reply.code == crate::error::MDB_SUCCESS {
        let index = choose|index: int| #[trigger]
            store.is_bound(key, index) && store.lands(index, set);
        lemma_key_is_at_its_bound(store, key, index);
        let last = lemma_last_of_key(store, index);
        assert forall|i: int| #![trigger store.items[i]] 0 <= i
            < store.items.len() implies condition(store.items[i]) == (index <= i < last + 1) by {
            assert(!(store.less)(key, key));
            if index <= i <= last {
                lemma_between_same_keys(store, index, i, last);
            } else if i > last && store.items[i].0 == key {
                lemma_between_same_keys(store, last, last + 1, i);
            }
        }
        lemma_filter_is_stretch(store.items, condition, index, last + 1);
        if steps.len() > 0 && store.iterates(set.after, ops, steps, einval) {
            lemma_duplicates(store, index, last, steps.skip(1), einval);
            let rest = store.items.subrange(index + 1, last + 1);
            lemma_one_more(store, index, steps, rest, einval);
            assert(store.items.subrange(index, last + 1) =~= seq![store.items[index]] + rest);
        }
    } else {
        let len = store.items.len() as int;
        assert forall|i: int| #![trigger store.items[i]] 0 <= i
            < store.items.len() implies condition(store.items[i]) == (len <= i < len) by {
            assert(store.items.contains(store.items[i]));
        }
        lemma_filter_is_stretch(store.items, condition, len, len);
        if store.iterates(second.after, ops, steps, einval) {
            lemma_starts_forward(
                store,
                len,
                second.after,
                crate::cursor::MDB_NEXT,
                steps,
                einval,
            );
            assert(store.items.skip(len) =~= store.items.subrange(len, len));
        }
    }
}

/// Whether the steps of a walk report these items, one each and in this order, and then the end.
pub open spec fn steps_report(steps: Seq<Step>, items: Seq<StoredItem>) -> bool {
    &&& steps.len() <= items.len() + 1
    &&& forall|i: int|
        #![trigger steps[i]]
        0 <= i < steps.len() ==> match crate::cursor::walk_result(steps[i].reply) {
            Ok(Some((key, data))) => i < items.len() && key@ == items[i].0 && data@ == items[i].1,
            Ok(None) => i == items.len(),
            Err(error) => false,
        }
}

/// Every reply in a walk reports an item with its key, or that there is none.
proof fn lemma_walk_replies(
    store: Store,
    before: Position,
    ops: IterOps,
    steps: Seq<Step>,
    einval: i32,
    i: int,
)
    requires
        store.iterates(before, ops, steps, einval),
        ops.next_op == crate::cursor::MDB_NEXT || ops.next_op == crate::cursor::MDB_PREV,
        ({
            ||| ops.op == crate::cursor::MDB_FIRST
            ||| ops.op == crate::cursor::MDB_LAST
            ||| (ops.op == crate::cursor::MDB_NEXT || ops.op == crate::cursor::MDB_PREV) && !(
            before is Ended) && !(before is Lost)
        }),
        0 <= i < steps.len(),
    ensures
        ({
            ||| steps[i].reply.code == crate::error::MDB_SUCCESS && steps[i].reply.reports_key()
            ||| steps[i].reply.code == crate::error::MDB_NOTFOUND
        }),
    decreases steps.len(),
{
    if i > 0 {
        let next_ops = IterOps { op: ops.next_op, next_op: ops.next_op };
        lemma_walk_replies(store, steps[0].after, next_ops, steps.skip(1), einval, i - 1);
    }
}

/// A walk reports what an iterator with the same operations yields.
proof fn lemma_walk_is_iteration(
    store: Store,
    before: Position,
    ops: IterOps,
    steps: Seq<Step>,
    items: Seq<StoredItem>,
    einval: i32,
)
    requires
        store.iterates(before, ops, steps, einval),
        ops.next_op == crate::cursor::MDB_NEXT || ops.next_op == crate::cursor::MDB_PREV,
        ({
            ||| ops.op == crate::cursor::MDB_FIRST
            ||| ops.op == crate::cursor::MDB_LAST
            ||| (ops.op == crate::cursor::MDB_NEXT || ops.op == crate::cursor::MDB_PREV) && !(
            before is Ended) && !(before is Lost)
        }),
        steps_yield(steps, items, einval),
    ensures
        steps_report(steps, items),
{
    assert forall|i: int| #![trigger steps[i]] 0 <= i < steps.len() implies match crate::cursor::walk_result(
        steps[i].reply,
    ) {
        Ok(Some((key, data))) => i < items.len() && key@ == items[i].0 && data@ == items[i].1,
        Ok(None) => i == items.len(),
        Err(error) => false,
    } by {
        lemma_walk_replies(store, before, ops, steps, einval, i);
    }
}

/// A walk with `first` and then `next`, or with `next` alone from a new cursor, reports every item
/// in order, and then the end. It never fails, and never misses a key.
pub(crate) proof fn lemma_walk_forward(
    store: Store,
    before: Position,
    op: u32,
    steps: Seq<Step>,
    einval: i32,
)
    requires
        store.is_valid(),
        op == crate::cursor::MDB_FIRST || op == crate::cursor::MDB_NEXT && before is Unset,
        store.iterates(before, IterOps { op, next_op: crate::cursor::MDB_NEXT }, steps, einval),
    ensures
        steps_report(steps, store.items),
{
    let ops = IterOps { op, next_op: crate::cursor::MDB_NEXT };
    if op == crate::cursor::MDB_FIRST {
        lemma_into_iter_start(store, before, steps, einval);
    } else {
        lemma_into_iter(store, before, steps, einval);
    }
    lemma_walk_is_iteration(store, before, ops, steps, store.items, einval);
}

/// A walk with `last` and then `prev`, or with `prev` alone from a new cursor, reports every item,
/// the last first, and then the end. It never fails, and never misses a key.
pub(crate) proof fn lemma_walk_backward(
    store: Store,
    before: Position,
    op: u32,
    steps: Seq<Step>,
    einval: i32,
)
    requires
        store.is_valid(),
        op == crate::cursor::MDB_LAST || op == crate::cursor::MDB_PREV && before is Unset,
        store.iterates(before, IterOps { op, next_op: crate::cursor::MDB_PREV }, steps, einval),
    ensures
        steps_report(steps, store.items.reverse()),
{
    let ops = IterOps { op, next_op: crate::cursor::MDB_PREV };
    let last = store.items.len() - 1;
    lemma_starts_backward(store, last, before, op, steps, einval);
    assert(store.items.take(last + 1) =~= store.items);
    lemma_walk_is_iteration(store, before, ops, steps, store.items.reverse(), einval);
}

impl Store {
    /// The contents after the item with this index was deleted.
    pub open spec fn without(self, index: int) -> Store {
        Store { items: self.items.remove(index), ..self }
    }

    /// Whether this is how a walk with `next` can go that deletes some of the items it comes to,
    /// and whether it leaves these contents.
    pub open spec fn walks_deleting(
        self,
        before: Position,
        doomed: spec_fn(StoredItem) -> bool,
        steps: Seq<Step>,
        end: Store,
    ) -> bool
        decreases steps.len(),
    {
        if steps.len() == 0 {
            end == self
        } else {
            &&& self.moves(before, crate::cursor::MDB_NEXT, steps[0], 0)
            &&& match crate::cursor::walk_result(steps[0].reply) {
                Ok(Some((key, data))) => match steps[0].after {
                    Position::At(index) => if doomed(self.items[index]) {
                        self.without(index).walks_deleting(
                            Position::Gap(index),
                            doomed,
                            steps.skip(1),
                            end,
                        )
                    } else {
                        self.walks_deleting(Position::At(index), doomed, steps.skip(1), end)
                    },
                    _ => true,
                },
                _ => steps.len() == 1 && end == self,
            }
        }
    }
}

pub(crate) proof fn lemma_walks_deleting(
    store: Store,
    before: Position,
    kept: int,
    doomed: spec_fn(StoredItem) -> bool,
    steps: Seq<Step>,
    end: Store,
)
    requires
        0 <= kept <= store.items.len(),
        match before {
            Position::Unset => kept == 0,
            Position::At(index) => index == kept - 1,
            Position::Gap(index) => index == kept,
            _ => false,
        },
        store.walks_deleting(before, doomed, steps, end),
    ensures
        steps_report(steps, store.items.skip(kept)),
        steps.len() > store.items.len() - kept ==> end.items == store.items.take(kept)
            + store.items.skip(kept).filter(|item: StoredItem| !doomed(item)),
    decreases steps.len(),
{
    let rest = store.items.skip(kept);
    let spared = |item: StoredItem| !doomed(item);
    if kept == store.items.len() {
        assert(rest =~= Seq::<StoredItem>::empty());
        reveal(Seq::filter);
        assert(store.items.take(kept) + rest =~= store.items);
    } else if steps.len() > 0 {
        let item = store.items[kept];
        let after = rest.skip(1);
        assert(rest =~= seq![item] + after);
        lemma_filter_head(item, after, spared);
        if doomed(item) {
            let next = store.without(kept);
            lemma_walks_deleting(next, Position::Gap(kept), kept, doomed, steps.skip(1), end);
            assert(next.items.skip(kept) =~= after);
            assert(next.items.take(kept) =~= store.items.take(kept));
        } else {
            lemma_walks_deleting(
                store,
                Position::At(kept),
                kept + 1,
                doomed,
                steps.skip(1),
                end,
            );
            assert(store.items.skip(kept + 1) =~= after);
            assert(store.items.take(kept + 1) =~= store.items.take(kept).push(item));
            assert(store.items.take(kept).push(item) + after.filter(spared) =~= store.items.take(
                kept,
            ) + (seq![item] + after.filter(spared)));
        }
        assert(steps_report(steps.skip(1), after));
        assert forall|i: int| #![trigger steps[i]] 0 <= i < steps.len() implies match crate::cursor::walk_result(
            steps[i].reply,
        ) {
            Ok(Some((key, data))) => i < rest.len() && key@ == rest[i].0 && data@ == rest[i].1,
            Ok(None) => i == rest.len(),
            Err(error) => false,
        } by {
            if i > 0 {
                assert(steps.skip(1)[i - 1] == steps[i]);
            }
        }
    }
}

/// Filtering keeps or drops the first item, and filters what follows it.
pub(crate) proof fn lemma_filter_head(
    head: StoredItem,
    tail: Seq<StoredItem>,
    condition: spec_fn(StoredItem) -> bool,
)
    ensures
        (seq![head] + tail).filter(condition) == if condition(head) {
            seq![head] + tail.filter(condition)
        } else {
            tail.filter(condition)
        },
    decreases tail.len(),
{
    reveal(Seq::filter);
    let whole = seq![head] + tail;
    if tail.len() == 0 {
        assert(whole.drop_last() =~= Seq::<StoredItem>::empty());
        assert(whole =~= seq![head]);
        assert(Seq::<StoredItem>::empty().filter(condition) =~= Seq::<StoredItem>::empty());
        assert(tail =~= Seq::<StoredItem>::empty());
    } else {
        lemma_filter_head(head, tail.drop_last(), condition);
        assert(whole.drop_last() =~= seq![head] + tail.drop_last());
        assert(whole.last() == tail.last());
        if condition(tail.last()) && condition(head) {
            assert((seq![head] + tail.drop_last().filter(condition)).push(tail.last()) =~= seq![
                head,
            ] + tail.drop_last().filter(condition).push(tail.last()));
        }
    }
}

impl Store {
    /// The contents after a key was mapped to a data item, where a key has one data item. The index
    /// is the bound of the key.
    pub open spec fn with(self, index: int, item: StoredItem) -> Store {
        let items = if index < self.items.len() && self.items[index].0 == item.0 {
            self.items.update(index, item)
        } else {
            self.items.insert(index, item)
        };
        Store { items, ..self }
    }

    /// The contents after the item with this index was overwritten.
    pub open spec fn overwritten(self, index: int, item: StoredItem) -> Store {
        Store { items: self.items.update(index, item), ..self }
    }

    /// Whether the item with this index can be overwritten by another one: it has the same key, and
    /// sorts into the same place.
    pub open spec fn can_overwrite(self, index: int, item: StoredItem) -> bool {
        &&& 0 <= index < self.items.len()
        &&& self.items[index].0 == item.0
        &&& self.overwritten(index, item).is_valid()
    }

    /// Whether these are the contents with an item added, at this index, where it was not there
    /// before.
    pub open spec fn gains(self, item: StoredItem, index: int, after: Store) -> bool {
        &&& 0 <= index < after.items.len()
        &&& index <= self.items.len()
        &&& after.items[index] == item
        &&& after == if self.items.contains(item) {
            self
        } else {
            Store { items: self.items.insert(index, item), ..self }
        }
    }

    /// The contents after all items with a key were deleted.
    pub open spec fn without_key(self, key: Seq<u8>) -> Store {
        Store { items: self.items.filter(lacks_key(key)), ..self }
    }
}

/// The condition that an item has another key.
pub open spec fn lacks_key(key: Seq<u8>) -> spec_fn(StoredItem) -> bool {
    |item: StoredItem| item.0 != key
}

impl Store {
    /// What each key is mapped to, where a key has one data item.
    pub open spec fn as_map(self) -> Map<Seq<u8>, Seq<u8>> {
        Map::new(
            |key: Seq<u8>|
                exists|i: int| 0 <= i < self.items.len() && #[trigger] self.items[i].0 == key,
            |key: Seq<u8>|
                {
                    let i = choose|i: int|
                        0 <= i < self.items.len() && #[trigger] self.items[i].0 == key;
                    self.items[i].1
                },
        )
    }

    /// The items that come after this one.
    pub open spec fn after_item(self, item: StoredItem) -> Seq<StoredItem> {
        self.items.filter(|other: StoredItem| self.precedes(item, other))
    }

    /// The items whose keys are greater than this one.
    pub open spec fn after_key(self, key: Seq<u8>) -> Seq<StoredItem> {
        self.items.filter(|item: StoredItem| (self.less)(key, item.0))
    }
}

/// Where a key is in the map, it is mapped to the data item at its index.
proof fn lemma_as_map(store: Store, i: int)
    requires
        store.is_valid(),
        !store.dup_sort,
        0 <= i < store.items.len(),
    ensures
        store.as_map().dom().contains(store.items[i].0),
        store.as_map()[store.items[i].0] == store.items[i].1,
{
    let key = store.items[i].0;
    let j = choose|j: int| 0 <= j < store.items.len() && #[trigger] store.items[j].0 == key;
    assert(!(store.less)(key, key));
    assert(i == j);
}

/// Each key has a bound.
pub(crate) proof fn lemma_bound(store: Store, key: Seq<u8>, from: int) -> (index: int)
    requires
        store.is_valid(),
        0 <= from <= store.items.len(),
        forall|i: int|
            #![trigger store.items[i]]
            0 <= i < from ==> (store.less)(store.items[i].0, key),
    ensures
        store.is_bound(key, index),
    decreases store.items.len() - from,
{
    if from < store.items.len() && (store.less)(store.items[from].0, key) {
        lemma_bound(store, key, from + 1)
    } else {
        assert forall|i: int| #![trigger store.items[i]] from <= i < store.items.len() implies !(
        store.less)(store.items[i].0, key) by {
            if (store.less)(store.items[i].0, key) && i > from {
                assert((store.less)(store.items[from].0, store.items[i].0) || store.items[from].0
                    == store.items[i].0);
            }
        }
        from
    }
}

/// The items with a key lie between its bound and the items with greater keys.
pub(crate) proof fn lemma_around_key(store: Store, key: Seq<u8>, bound: int) -> (end: int)
    requires
        store.is_valid(),
        store.is_bound(key, bound),
    ensures
        bound <= end <= store.items.len(),
        forall|i: int|
            #![trigger store.items[i]]
            0 <= i < store.items.len() ==> {
                &&& (store.less)(store.items[i].0, key) == (i < bound)
                &&& (store.items[i].0 == key) == (bound <= i < end)
                &&& (store.less)(key, store.items[i].0) == (end <= i)
            },
        end == bound || store.items[bound].0 == key,
        !store.dup_sort ==> end <= bound + 1,
{
    let end = if bound < store.items.len() && store.items[bound].0 == key {
        lemma_last_of_key(store, bound) + 1
    } else {
        bound
    };
    assert forall|i: int| #![trigger store.items[i]] 0 <= i < store.items.len() implies {
        &&& (store.less)(store.items[i].0, key) == (i < bound)
        &&& (store.items[i].0 == key) == (bound <= i < end)
        &&& (store.less)(key, store.items[i].0) == (end <= i)
    } by {
        let other = store.items[i].0;
        assert(!(store.less)(key, key));
        if (store.less)(key, other) && (store.less)(other, key) {
            assert((store.less)(key, key));
        }
        assert((store.less)(key, other) || (store.less)(other, key) || other == key);
        if bound <= i < end {
            lemma_between_same_keys(store, bound, i, end - 1);
        } else if i >= end && other == key {
            if end > bound {
                lemma_between_same_keys(store, end - 1, end, i);
            } else if i > bound {
                let first = store.items[bound].0;
                assert((store.less)(first, other) || first == other);
            }
        }
    }
    if !store.dup_sort && end > bound + 1 {
        assert(store.items[bound].0 == key && store.items[bound + 1].0 == key);
        assert((store.less)(store.items[bound].0, store.items[bound + 1].0));
    }
    end
}

/// The items with greater keys.
pub(crate) proof fn lemma_after_key(store: Store, key: Seq<u8>, end: int)
    requires
        0 <= end <= store.items.len(),
        forall|i: int|
            #![trigger store.items[i]]
            0 <= i < store.items.len() ==> (store.less)(key, store.items[i].0) == (end <= i),
    ensures
        store.after_key(key) == store.items.skip(end),
{
    lemma_filter_is_stretch(
        store.items,
        |item: StoredItem| (store.less)(key, item.0),
        end,
        store.items.len() as int,
    );
    assert(store.items.skip(end) =~= store.items.subrange(end, store.items.len() as int));
}

/// Where an item was added, those that follow it are the ones that come after it.
pub(crate) proof fn lemma_after_item(store: Store, item: StoredItem, index: int, after: Store)
    requires
        store.is_valid(),
        store.dup_sort,
        after.is_valid(),
        store.gains(item, index, after),
    ensures
        store.after_item(item) == after.items.skip(index + 1),
{
    let condition = |other: StoredItem| store.precedes(item, other);
    let first = if store.items.contains(item) {
        index + 1
    } else {
        index
    };
    let len = store.items.len() as int;
    assert forall|i: int| #![trigger store.items[i]] 0 <= i < len implies condition(store.items[i])
        == (first <= i < len) by {
        let other = store.items[i];
        assert(!(store.less)(item.0, item.0) && !(store.data_less)(item.1, item.1));
        if i >= first {
            let j = i - first + index + 1;
            assert(after.items[j] == other);
            assert(after.precedes(after.items[index], after.items[j]));
        } else if i < index {
            assert(after.items[i] == other);
            assert(after.precedes(after.items[i], after.items[index]));
            if store.precedes(item, other) {
                assert((store.less)(item.0, other.0) && (store.less)(other.0, item.0) ==> (
                store.less)(item.0, item.0));
                assert((store.data_less)(item.1, other.1) && (store.data_less)(other.1, item.1)
                    ==> (store.data_less)(item.1, item.1));
            }
        }
    }
    lemma_filter_is_stretch(store.items, condition, first, len);
    assert(store.items.subrange(first, len) =~= after.items.skip(index + 1));
}

/// What is left without the items of a key.
pub(crate) proof fn lemma_without_key(store: Store, key: Seq<u8>, bound: int, end: int)
    requires
        0 <= bound <= end <= store.items.len(),
        forall|i: int|
            #![trigger store.items[i]]
            0 <= i < store.items.len() ==> (store.items[i].0 == key) == (bound <= i < end),
    ensures
        store.items.filter(lacks_key(key)) == store.items.take(bound) + store.items.skip(end),
{
    let items = store.items;
    let before = items.take(bound);
    let of_key = items.subrange(bound, end);
    let after = items.skip(end);
    let condition = lacks_key(key);
    assert(items =~= before + of_key + after);
    Seq::filter_distributes_over_add(before + of_key, after, condition);
    Seq::filter_distributes_over_add(before, of_key, condition);
    assert forall|i: int| #![trigger before[i]] 0 <= i < before.len() implies condition(
        before[i],
    ) == (0 <= i < before.len()) by {
        assert(before[i] == items[i]);
    }
    lemma_filter_is_stretch(before, condition, 0, before.len() as int);
    assert(before.subrange(0, before.len() as int) =~= before);
    assert forall|i: int| #![trigger of_key[i]] 0 <= i < of_key.len() implies condition(
        of_key[i],
    ) == (0 <= i < 0) by {
        assert(of_key[i] == items[bound + i]);
    }
    lemma_filter_is_stretch(of_key, condition, 0, 0);
    assert(of_key.subrange(0, 0) =~= Seq::<StoredItem>::empty());
    assert forall|i: int| #![trigger after[i]] 0 <= i < after.len() implies condition(after[i])
        == (0 <= i < after.len()) by {
        assert(after[i] == items[end + i]);
    }
    lemma_filter_is_stretch(after, condition, 0, after.len() as int);
    assert(after.subrange(0, after.len() as int) =~= after);
    assert(before + Seq::<StoredItem>::empty() =~= before);
}

/// Mapping a key to a data item keeps the items sorted, and changes nothing else.
pub(crate) proof fn lemma_with(store: Store, index: int, item: StoredItem)
    requires
        store.is_valid(),
        !store.dup_sort,
        store.is_bound(item.0, index),
    ensures
        store.with(index, item).is_valid(),
        store.with(index, item).as_map() == store.as_map().insert(item.0, item.1),
        store.with(index, item).items[index] == item,
        store.after_key(item.0) == store.with(index, item).items.skip(index + 1),
{
    let end = lemma_around_key(store, item.0, index);
    lemma_after_key(store, item.0, end);
    let next = store.with(index, item);
    let replaces = end > index;
    assert(replaces == (index < store.items.len() && store.items[index].0 == item.0));
    if replaces {
        assert(end == index + 1);
        assert(next.items.skip(index + 1) =~= store.items.skip(end));
    } else {
        assert(next.items.skip(index + 1) =~= store.items.skip(end));
    }
    let shift: int = if replaces {
        0
    } else {
        1
    };
    assert forall|i: int| #![trigger next.items[i]] 0 <= i < next.items.len() implies next.items[i]
        == if i < index {
        store.items[i]
    } else if i == index {
        item
    } else {
        store.items[i - shift]
    } by {
    }
    assert forall|i: int, j: int|
        #![trigger next.items[i], next.items[j]]
        0 <= i < j < next.items.len() implies (store.less)(next.items[i].0, next.items[j].0) by {
        if i < index && j > index {
            assert((store.less)(store.items[i].0, store.items[j - shift].0));
        }
    }
    assert(next.less == store.less);
    let map = store.as_map().insert(item.0, item.1);
    assert forall|key: Seq<u8>| next.as_map().dom().contains(key) == map.dom().contains(key) by {
        if next.as_map().dom().contains(key) {
            let i = choose|i: int| 0 <= i < next.items.len() && #[trigger] next.items[i].0 == key;
            if i < index {
                assert(store.items[i].0 == key);
            } else if i > index {
                assert(store.items[i - shift].0 == key);
            }
        }
        if map.dom().contains(key) {
            if key == item.0 {
                assert(next.items[index].0 == key);
            } else {
                let i = choose|i: int|
                    0 <= i < store.items.len() && #[trigger] store.items[i].0 == key;
                if i < index {
                    assert(next.items[i].0 == key);
                } else {
                    assert(next.items[i + shift] == store.items[i]);
                    assert(next.items[i + shift].0 == key);
                }
            }
        }
    }
    assert forall|key: Seq<u8>| map.dom().contains(key) implies next.as_map()[key] == map[key] by {
        if key == item.0 {
            lemma_as_map(next, index);
        } else {
            let i = choose|i: int| 0 <= i < store.items.len() && #[trigger] store.items[i].0 == key;
            lemma_as_map(store, i);
            if i < index {
                assert(next.items[i] == store.items[i]);
                lemma_as_map(next, i);
            } else {
                assert(next.items[i + shift] == store.items[i]);
                lemma_as_map(next, i + shift);
            }
        }
    }
    assert(next.as_map() =~= map);
}

/// A database, and where a cursor on it is.
pub struct Place {
    pub store: Store,
    pub position: Position,
}

impl Place {
    /// What putting an item comes to where it succeeds. Without flags, the key is mapped to the data
    /// item where a key has one, and the data item is added to those of the key where it may have
    /// several; either way the cursor is there. To overwrite the current item by one that sorts into
    /// the same place leaves the cursor where it is. Of other ways to put an item nothing is said.
    pub open spec fn puts(self, item: StoredItem, flags: u32, after: Place) -> bool {
        if flags == 0 && self.store.dup_sort {
            &&& after.store.is_valid()
            &&& after.position matches Position::At(index)
                && self.store.gains(item, index, after.store)
        } else if flags == 0 {
            exists|index: int| #[trigger]
                self.store.is_bound(item.0, index) && after.store == self.store.with(index, item)
                    && after.position == Position::At(index)
        } else if flags == crate::flags::MDB_CURRENT {
            match self.position {
                Position::At(index) => self.store.can_overwrite(index, item) ==> after.position
                    == self.position && after.store == self.store.overwritten(index, item),
                _ => true,
            }
        } else {
            true
        }
    }

    /// What deleting the current item comes to where it succeeds: the item goes, or with
    /// `MDB_NODUPDATA` all data items of its key. The cursor is left before the item that followed.
    pub open spec fn deletes(self, flags: u32, after: Place) -> bool {
        match self.position {
            Position::At(index) => if flags == 0 {
                &&& after.store == self.store.without(index)
                &&& after.position == Position::Gap(index)
            } else if flags == crate::flags::MDB_NODUPDATA && self.store.dup_sort {
                let key = self.store.items[index].0;
                &&& after.store == self.store.without_key(key)
                &&& exists|bound: int| #[trigger]
                    self.store.is_bound(key, bound) && after.position == Position::Gap(bound)
            } else {
                true
            },
            _ => true,
        }
    }

    /// Whether this is what LMDB documents of a call. Of an update that fails nothing is said.
    pub open spec fn answers(self, call: Call, after: Place, einval: i32) -> bool {
        match call {
            Call::Get { key, data, op, reply } => {
                let step = Step { reply, after: after.position };
                &&& after.store == self.store
                &&& match key {
                    None => self.store.moves(self.position, op, step, einval),
                    Some(key) => self.store.seeks(key, op, step),
                }
                &&& match (key, data) {
                    (Some(key), Some(data)) => self.store.seeks_pair(key, data, op, step),
                    _ => true,
                }
            },
            Call::Put { item, flags, code } => code == crate::error::MDB_SUCCESS ==> self.puts(
                item,
                flags,
                after,
            ),
            Call::Del { flags, code } => code == crate::error::MDB_SUCCESS ==> self.deletes(
                flags,
                after,
            ),
        }
    }
}

/// Whether calls were answered as LMDB documents them, and led from each of these places to the
/// next.
pub open spec fn explains(places: Seq<Place>, calls: Seq<Call>, einval: i32) -> bool {
    &&& places.len() == calls.len() + 1
    &&& forall|i: int|
        #![trigger calls[i]]
        0 <= i < calls.len() ==> places[i].answers(calls[i], places[i + 1], einval)
}

} // verus!
