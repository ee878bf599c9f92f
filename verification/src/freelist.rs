//! Counting the pages on the freelist.
//!
//! LMDB keeps its lists of free pages as the values of a database of their own. Each value begins
//! with the number of pages on it, an integer as wide as an address, in the byte order of the
//! processor.

use vstd::prelude::*;

use crate::cursor::{Call, Item, MDB_NEXT};
use crate::cursor_model::{Place, StoredItem};
use crate::error::Error;

verus! {

/// How many bytes the number of pages takes.
pub open spec fn count_width() -> int {
    usize::BITS as int / 8
}

/// The number of pages on a list.
pub open spec fn page_count(value: Seq<u8>) -> nat {
    crate::system::native_endian(value.take(count_width()))
}

/// The number of pages on all of these lists.
pub open spec fn total_pages(values: Seq<Seq<u8>>) -> nat
    decreases values.len(),
{
    if values.len() == 0 {
        0
    } else {
        total_pages(values.drop_last()) + page_count(values.last())
    }
}

/// What went wrong in counting.
#[derive(Clone, Copy, Debug, PartialEq, Eq, Structural)]
pub enum FreelistError {
    /// A list could not be read, or is too short to hold a number.
    Failed(Error),
    /// The pages are more than can be counted.
    TooManyPages,
    /// The lists are more than can be counted.
    TooManyLists,
}

/// How counting goes on after an item, or after the end of the items.
#[derive(Clone, Copy, Debug, PartialEq, Eq)]
pub enum FreelistStep {
    /// The next item is to be counted too.
    Continue,
    /// Counting is over, with this result.
    Done(Result<usize, FreelistError>),
}

/// The number of pages on the lists that were counted so far.
#[derive(Clone, Copy, Debug, PartialEq, Eq, Structural)]
pub struct Freelist {
    pub pages: usize,
}

impl Freelist {
    /// How counting goes on after what an iterator over the lists yields.
    pub open spec fn step_after(self, item: Option<Result<Item, Error>>) -> FreelistStep {
        match item {
            None => FreelistStep::Done(Ok(self.pages)),
            Some(Err(error)) => FreelistStep::Done(Err(FreelistError::Failed(error))),
            Some(Ok((key, value))) => self.step_after_list(value@),
        }
    }

    /// The number of pages after what an iterator over the lists yields.
    pub open spec fn after(self, item: Option<Result<Item, Error>>) -> Freelist {
        match item {
            Some(Ok((key, value))) => if self.step_after_list(value@) is Continue {
                Freelist { pages: (self.pages + page_count(value@)) as usize }
            } else {
                self
            },
            _ => self,
        }
    }

    /// How counting goes on after a list.
    pub open spec fn step_after_list(self, value: Seq<u8>) -> FreelistStep {
        if value.len() < count_width() {
            FreelistStep::Done(Err(FreelistError::Failed(Error::Corrupted)))
        } else if self.pages + page_count(value) > usize::MAX {
            FreelistStep::Done(Err(FreelistError::TooManyPages))
        } else {
            FreelistStep::Continue
        }
    }

    /// No list was counted yet.
    pub fn new() -> (freelist: Freelist)
        ensures
            freelist.pages == 0,
    {
        Freelist { pages: 0 }
    }

    /// Counts the pages of one more list, as an iterator over the lists yields it.
    pub fn count(&mut self, item: Option<Result<Item, Error>>) -> (step: FreelistStep)
        ensures
            step == old(self).step_after(item),
            *final(self) == old(self).after(item),
    {
        let value = match item {
            None => {
                return FreelistStep::Done(Ok(self.pages));
            },
            Some(Err(error)) => {
                return FreelistStep::Done(Err(FreelistError::Failed(error)));
            },
            Some(Ok((_, value))) => value,
        };
        let width: usize = (usize::BITS / 8) as usize;
        if value.len() < width {
            return FreelistStep::Done(Err(FreelistError::Failed(Error::Corrupted)));
        }
        let count: usize = if usize::BITS == 64 {
            crate::system::read_u64(value) as usize
        } else {
            crate::system::read_u32(value) as usize
        };
        match self.pages.checked_add(count) {
            Some(pages) => {
                self.pages = pages;
                FreelistStep::Continue
            },
            None => FreelistStep::Done(Err(FreelistError::TooManyPages)),
        }
    }
}

/// How far counting has come.
pub enum FreelistRun {
    /// So many pages were counted, and more lists can follow.
    Counting(Freelist),
    /// Counting is over, with this result.
    Over(Result<usize, FreelistError>),
}

/// How far counting comes with what an iterator over the lists yields, step by step.
pub open spec fn run_of(items: Seq<Option<Result<Item, Error>>>) -> FreelistRun
    decreases items.len(),
{
    if items.len() == 0 {
        FreelistRun::Counting(Freelist { pages: 0 })
    } else {
        match run_of(items.drop_last()) {
            FreelistRun::Counting(before) => match before.step_after(items.last()) {
                FreelistStep::Continue => FreelistRun::Counting(before.after(items.last())),
                FreelistStep::Done(result) => FreelistRun::Over(result),
            },
            FreelistRun::Over(result) => FreelistRun::Over(result),
        }
    }
}

/// Whether this is the result of counting what these calls read, each once and in order, up to the
/// first one that ends it. After more calls than can be counted there is no result but an error.
pub open spec fn is_outcome(
    calls: Seq<Call>,
    einval: i32,
    result: Result<usize, FreelistError>,
) -> bool {
    let items = crate::cursor::call_items(calls, einval);
    &&& forall|i: int|
        #![trigger calls[i]]
        0 <= i < calls.len() ==> crate::cursor::is_step(calls[i], MDB_NEXT)
    &&& match run_of(items) {
        FreelistRun::Over(over) => result == over && run_of(items.drop_last()) is Counting,
        FreelistRun::Counting(freelist) => calls.len() == usize::MAX && result == Err::<usize, _>(
            FreelistError::TooManyLists,
        ),
    }
}

/// Whether what an iterator yields is a list that is long enough to hold a number.
pub open spec fn is_list(item: Option<Result<Item, Error>>) -> bool {
    item matches Some(Ok((key, value))) && value@.len() >= count_width()
}

/// The lists that an iterator yields.
pub open spec fn values_of(items: Seq<Option<Result<Item, Error>>>) -> Seq<Seq<u8>> {
    Seq::new(
        items.len(),
        |i: int|
            match items[i] {
                Some(Ok((key, value))) => value@,
                _ => Seq::empty(),
            },
    )
}

/// Counting goes on for just as long as every item is a list that is long enough to hold a number,
/// and the pages on all of them can be counted. The end then gives the number of those pages.
pub proof fn all_pages_are_counted(items: Seq<Option<Result<Item, Error>>>)
    ensures
        run_of(items) is Counting <==> total_pages(values_of(items)) <= usize::MAX && forall|i: int|
            #![trigger items[i]]
            0 <= i < items.len() ==> is_list(items[i]),
        run_of(items) is Counting ==> run_of(items.push(None)) == (FreelistRun::Over(
            Ok(total_pages(values_of(items)) as usize),
        )),
{
    lemma_counting(items);
    assert(items.push(None).drop_last() =~= items);
}

proof fn lemma_counting(items: Seq<Option<Result<Item, Error>>>)
    ensures
        run_of(items) is Counting <==> total_pages(values_of(items)) <= usize::MAX && forall|i: int|
            #![trigger items[i]]
            0 <= i < items.len() ==> is_list(items[i]),
        run_of(items) matches FreelistRun::Counting(freelist) ==> freelist.pages == total_pages(
            values_of(items),
        ),
    decreases items.len(),
{
    if items.len() > 0 {
        let init = items.drop_last();
        lemma_counting(init);
        assert(values_of(items).drop_last() =~= values_of(init));
        assert(forall|i: int| #![trigger init[i]] 0 <= i < init.len() ==> init[i] == items[i]);
        if run_of(items) is Counting {
            assert forall|i: int| #![trigger items[i]] 0 <= i < items.len() implies is_list(
                items[i],
            ) by {
                if i < init.len() {
                    assert(init[i] == items[i]);
                }
            }
        } else if forall|i: int| #![trigger items[i]] 0 <= i < items.len() ==> is_list(items[i]) {
            assert forall|i: int| #![trigger init[i]] 0 <= i < init.len() implies is_list(
                init[i],
            ) by {
                assert(init[i] == items[i]);
            }
            assert(is_list(items[items.len() - 1]));
        }
    }
}

/// All that was read before the last call is lists that were counted. What the last one read decides
/// the result: at the end it is the number of pages on all the lists, and a list that could not be
/// read, or that is too short to hold a number, is the error, whatever might have followed it.
pub proof fn the_last_call_decides(
    calls: Seq<Call>,
    einval: i32,
    result: Result<usize, FreelistError>,
)
    requires
        is_outcome(calls, einval, result),
    ensures
        calls.len() > 0,
        ({
            let items = crate::cursor::call_items(calls, einval);
            let total = total_pages(values_of(items.drop_last()));
            &&& total <= usize::MAX
            &&& forall|i: int|
                #![trigger items[i]]
                0 <= i < items.len() - 1 ==> is_list(items[i])
            &&& match items.last() {
                None => result == Ok::<usize, FreelistError>(total as usize),
                Some(Err(error)) => result == Err::<usize, _>(FreelistError::Failed(error)),
                Some(Ok((key, value))) => if value@.len() < count_width() {
                    result == Err::<usize, _>(FreelistError::Failed(Error::Corrupted))
                } else if total + page_count(value@) > usize::MAX {
                    result == Err::<usize, _>(FreelistError::TooManyPages)
                } else {
                    calls.len() == usize::MAX && result == Err::<usize, _>(
                        FreelistError::TooManyLists,
                    )
                },
            }
        }),
{
    let items = crate::cursor::call_items(calls, einval);
    let init = items.drop_last();
    lemma_counting(items);
    if items.len() > 0 {
        lemma_counting(init);
        assert forall|i: int| #![trigger items[i]] 0 <= i < items.len() - 1 implies is_list(
            items[i],
        ) by {
            assert(init[i] == items[i]);
        }
    }
}

/// The lists that a database holds.
pub open spec fn values_in(items: Seq<StoredItem>) -> Seq<Seq<u8>> {
    items.map_values(|item: StoredItem| item.1)
}

/// Whether all of these lists are long enough to hold a number, and the pages on all of them can be
/// counted, and so can the lists.
pub open spec fn can_be_counted(items: Seq<StoredItem>) -> bool {
    &&& total_pages(values_in(items)) <= usize::MAX
    &&& items.len() < usize::MAX
    &&& forall|i: int| #![trigger items[i]] 0 <= i < items.len() ==> items[i].1.len() >= count_width()
}

/// There are no more pages on some of the lists than on all of them.
proof fn lemma_total_grows(values: Seq<Seq<u8>>, n: int)
    requires
        0 <= n <= values.len(),
    ensures
        total_pages(values.take(n)) <= total_pages(values),
    decreases values.len(),
{
    if n < values.len() {
        lemma_total_grows(values.drop_last(), n);
        assert(values.drop_last().take(n) =~= values.take(n));
    } else {
        assert(values.take(n) =~= values);
    }
}

/// What was read of a database, before the last call, is its first lists.
proof fn lemma_values_read(items: Seq<Option<Result<Item, Error>>>, stored: Seq<StoredItem>)
    requires
        crate::cursor_laws::gives(items, stored),
        items.len() > 0,
        forall|i: int| #![trigger items[i]] 0 <= i < items.len() - 1 ==> is_list(items[i]),
    ensures
        values_of(items.drop_last()) == values_in(stored).take(items.len() - 1),
        items.last() matches Some(Ok((key, value))) ==> value@ == stored[items.len() - 1].1,
{
    let init = items.drop_last();
    let last = items[items.len() - 1];
    assert(items.len() - 1 <= stored.len());
    assert forall|i: int| #![trigger values_of(init)[i]] 0 <= i < init.len() implies values_of(
        init,
    )[i] == values_in(stored).take(items.len() - 1)[i] by {
        assert(init[i] == items[i]);
    }
    assert(values_of(init) =~= values_in(stored).take(items.len() - 1));
}

/// `freelist` with a new cursor gives the number of pages on all the lists of the freelist database.
///
/// Where some list is too short to hold a number, and those before it can be counted, it gives an
/// error at that list, so that it never counts a part as the whole.
pub proof fn the_freelist_is_counted<'txn>(
    places: Seq<Place>,
    before: Seq<Call<'txn>>,
    calls: Seq<Call<'txn>>,
    einval: i32,
    result: Result<usize, FreelistError>,
    n: int,
)
    requires
        is_outcome(calls, einval, result),
        crate::cursor_laws::answered(places, before, before + calls, einval),
        places[0].store.is_valid(),
        places[0].position is Unset,
        0 <= n <= places[0].store.items.len(),
        can_be_counted(places[0].store.items.take(n)),
        n < places[0].store.items.len() ==> places[0].store.items[n].1.len() < count_width(),
    ensures
        if n == places[0].store.items.len() {
            result == Ok::<usize, FreelistError>(
                total_pages(values_in(places[0].store.items)) as usize,
            )
        } else {
            result == Err::<usize, _>(FreelistError::Failed(Error::Corrupted))
        },
        calls.len() == n + 1,
{
    let stored = places[0].store.items;
    let items = crate::cursor::call_items(calls, einval);
    the_last_call_decides(calls, einval, result);
    assert(crate::cursor_laws::since(before, before + calls) =~= calls);
    assert forall|i: int| #![trigger calls[i]] 0 <= i
        < calls.len() - 1 implies crate::cursor::call_item(calls[i], einval) is Some by {
        assert(is_list(items[i]));
    }
    crate::cursor_laws::lemma_steps_read_all(places, calls, einval);
    lemma_values_read(items, stored);
    let last = items.len() - 1;
    let counted = stored.take(n);
    let values = values_in(counted);
    assert(items[last] == items.last());
    if last > n {
        assert(is_list(items[n]));
    } else if last < n {
        assert(counted[last] == stored[last]);
        lemma_total_grows(values, last + 1);
        assert(values.take(last + 1).drop_last() =~= values_in(stored).take(last));
        assert(values.take(last + 1).last() == stored[last].1);
    } else {
        assert(values_in(stored).take(n) =~= values);
        if n == stored.len() {
            assert(counted =~= stored);
        }
    }
}

/// A list begins with a word of the machine: eight bytes where addresses have 64 bits, and four where
/// they have 32. The number of pages is that word, whatever follows it, and where the least
/// significant byte comes first it is the bytes weighed by the powers of 256.
pub proof fn a_list_begins_with_its_number_of_pages(value: Seq<u8>)
    requires
        value.len() >= count_width(),
    ensures
        usize::BITS == 64 ==> count_width() == 8,
        usize::BITS == 32 ==> count_width() == 4,
        vstd::endian::endianness() == vstd::endian::Endian::Little && usize::BITS == 64
            ==> page_count(value) == value[0] + 0x100 * value[1] + 0x1_0000 * value[2] + 0x100_0000
            * value[3] + 0x1_0000_0000 * value[4] + 0x100_0000_0000 * value[5] + 0x1_0000_0000_0000
            * value[6] + 0x100_0000_0000_0000 * value[7],
        vstd::endian::endianness() == vstd::endian::Endian::Big && usize::BITS == 64 ==> page_count(
            value,
        ) == value[7] + 0x100 * value[6] + 0x1_0000 * value[5] + 0x100_0000 * value[4]
            + 0x1_0000_0000 * value[3] + 0x100_0000_0000 * value[2] + 0x1_0000_0000_0000 * value[1]
            + 0x100_0000_0000_0000 * value[0],
        vstd::endian::endianness() == vstd::endian::Endian::Little && usize::BITS == 32
            ==> page_count(value) == value[0] + 0x100 * value[1] + 0x1_0000 * value[2] + 0x100_0000
            * value[3],
        vstd::endian::endianness() == vstd::endian::Endian::Big && usize::BITS == 32 ==> page_count(
            value,
        ) == value[3] + 0x100 * value[2] + 0x1_0000 * value[1] + 0x100_0000 * value[0],
{
    let word = value.take(count_width());
    let back = word.reverse();
    assert(usize::BITS == 64 ==> count_width() == 8);
    assert(usize::BITS == 32 ==> count_width() == 4);
    lemma_weighed(word);
    lemma_weighed(back);
}

proof fn lemma_weighed(bytes: Seq<u8>)
    ensures
        bytes.len() == 8 ==> crate::system::little_endian(bytes) == bytes[0] + 0x100 * bytes[1]
            + 0x1_0000 * bytes[2] + 0x100_0000 * bytes[3] + 0x1_0000_0000 * bytes[4]
            + 0x100_0000_0000 * bytes[5] + 0x1_0000_0000_0000 * bytes[6] + 0x100_0000_0000_0000
            * bytes[7],
        bytes.len() == 4 ==> crate::system::little_endian(bytes) == bytes[0] + 0x100 * bytes[1]
            + 0x1_0000 * bytes[2] + 0x100_0000 * bytes[3],
{
    reveal_with_fuel(crate::system::little_endian, 9);
    let b1 = bytes.drop_first();
    let b2 = b1.drop_first();
    let b3 = b2.drop_first();
    let b4 = b3.drop_first();
    let b5 = b4.drop_first();
    let b6 = b5.drop_first();
    let b7 = b6.drop_first();
}

/// The pages on lists are those on the first of them and those on the others: no list is counted
/// twice or passed over, in whatever way they are parted.
pub proof fn pages_add_up(some: Seq<Seq<u8>>, others: Seq<Seq<u8>>)
    ensures
        total_pages(some + others) == total_pages(some) + total_pages(others),
        total_pages(Seq::empty()) == 0,
        some.len() == 1 ==> total_pages(some) == page_count(some[0]),
    decreases others.len(),
{
    let all = some + others;
    reveal_with_fuel(total_pages, 2);
    if others.len() == 0 {
        assert(all =~= some);
    } else {
        pages_add_up(some, others.drop_last());
        assert(all.drop_last() =~= some + others.drop_last());
    }
}

/// Every list is read by moving the cursor to the next item, with no key and no data item, and by no
/// other call.
pub proof fn lists_are_read_one_after_another(
    calls: Seq<Call>,
    einval: i32,
    result: Result<usize, FreelistError>,
    i: int,
)
    requires
        is_outcome(calls, einval, result),
        0 <= i < calls.len(),
    ensures
        crate::call_laws::is_call(calls[i], None, 8),
        i < calls.len() - 1 ==> crate::call_laws::code_of(calls[i]) == 0,
{
    the_last_call_decides(calls, einval, result);
    let items = crate::cursor::call_items(calls, einval);
    assert(crate::cursor::is_step(calls[i], MDB_NEXT));
    if i < calls.len() - 1 {
        assert(is_list(items[i]));
    }
}

/// What the last call read decides the result by its result code: where LMDB found nothing, or the
/// cursor was nowhere, the count is over; any other code that is not success is the error.
pub proof fn a_list_that_cannot_be_read_is_an_error(
    calls: Seq<Call>,
    einval: i32,
    result: Result<usize, FreelistError>,
)
    requires
        is_outcome(calls, einval, result),
    ensures
        calls.len() > 0,
        ({
            let code = crate::call_laws::code_of(calls.last());
            let over = code != 0 && (code == einval || crate::error::stands_for(
                Error::NotFound,
                code,
            ));
            match result {
                Ok(pages) => over,
                Err(FreelistError::Failed(error)) => !over && if code == 0 {
                    error == Error::Corrupted
                } else {
                    crate::error::stands_for(error, code)
                },
                Err(error) => code == 0,
            }
        }),
{
    the_last_call_decides(calls, einval, result);
    lists_are_read_one_after_another(calls, einval, result, calls.len() - 1);
    let code = crate::call_laws::code_of(calls.last());
    crate::error::an_error_tells_its_code(code, crate::error::error_of_code(code));
    crate::error::an_error_tells_its_code(code, Error::NotFound);
}

} // verus!
