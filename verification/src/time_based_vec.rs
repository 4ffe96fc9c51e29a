//! A sequence of items in the order of their times, which is searched by
//! time.

use vstd::prelude::*;
use vstd::slice::slice_subrange;
use crate::sequences::lemma_filter_all_or_none;

verus! {

/// A point in time: the nanoseconds that have passed since the Unix epoch.
pub type Time = u64;

/// An item together with the time at which it was recorded.
#[derive(Debug)]
pub struct ItemWithTime<T> {
    pub time: Time,
    pub item: T,
}

/// A span of time, both ends included. A span whose end lies before its
/// start holds no point in time.
#[derive(Clone, Copy, Debug)]
pub struct TimeRange {
    pub start: Time,
    pub end: Time,
}

impl TimeRange {
    pub fn new(start: Time, end: Time) -> (range: Self)
        ensures
            range.start == start,
            range.end == end,
    {
        TimeRange { start, end }
    }

    /// Whether the point in time lies in the span.
    pub open spec fn contains(self, time: Time) -> bool {
        self.start <= time <= self.end
    }
}

/// No item is recorded before an item that precedes it.
pub open spec fn time_ordered<T>(items: Seq<ItemWithTime<T>>) -> bool {
    forall|i: int, j: int|
        0 <= i <= j < items.len() ==> (#[trigger] items[i]).time <= (#[trigger] items[j]).time
}

/// The place of the last item that was recorded at `time` or before it.
pub open spec fn most_recent_at<T>(items: Seq<ItemWithTime<T>>, time: Time) -> Option<int>
    decreases items.len(),
{
    if items.len() == 0 {
        None
    } else if items.last().time <= time {
        Some(items.len() - 1)
    } else {
        most_recent_at(items.drop_last(), time)
    }
}

/// The items that were recorded within the span, in their order.
pub open spec fn items_within<T>(items: Seq<ItemWithTime<T>>, range: TimeRange) -> Seq<
    ItemWithTime<T>,
> {
    items.filter(|item: ItemWithTime<T>| range.contains(item.time))
}

/// Items in the order of their times. An item can only be added at the end.
pub struct TimeBasedVec<T> {
    items: Vec<ItemWithTime<T>>,
}

impl<T> View for TimeBasedVec<T> {
    type V = Seq<ItemWithTime<T>>;

    closed spec fn view(&self) -> Seq<ItemWithTime<T>> {
        self.items@
    }
}

impl<T> TimeBasedVec<T> {
    #[verifier::type_invariant]
    spec fn ordered(self) -> bool {
        time_ordered(self.items@)
    }

    pub fn new() -> (v: Self)
        ensures
            v@ == Seq::<ItemWithTime<T>>::empty(),
    {
        TimeBasedVec { items: Vec::new() }
    }

    /// The number of items. The items are in the order of their times.
    pub fn len(&self) -> (n: usize)
        ensures
            n == self@.len(),
            time_ordered(self@),
    {
        proof {
            use_type_invariant(self);
        }
        self.items.len()
    }

    /// The time of the last item, if there is an item.
    pub fn last_time(&self) -> (t: Option<Time>)
        ensures
            t == if self@.len() == 0 {
                None
            } else {
                Some(self@.last().time)
            },
    {
        if self.items.len() == 0 {
            None
        } else {
            Some(self.items[self.items.len() - 1].time)
        }
    }

    /// Adds an item at the end. Its time must not lie before that of the
    /// last item.
    pub fn push(&mut self, time: Time, item: T)
        requires
            old(self)@.len() == 0 || old(self)@.last().time <= time,
        ensures
            final(self)@ == old(self)@.push(ItemWithTime { time, item }),
            time_ordered(final(self)@),
    {
        proof {
            use_type_invariant(&*self);
        }
        let mut items: Vec<ItemWithTime<T>> = Vec::new();
        core::mem::swap(&mut self.items, &mut items);
        items.push(ItemWithTime { time, item });
        core::mem::swap(&mut self.items, &mut items);
    }

    /// The number of items that were recorded before `time`, or, if
    /// `inclusive`, at `time` or before it. As the items are in the order of
    /// their times, these are the first items.
    fn partition_point(&self, time: Time, inclusive: bool) -> (k: usize)
        ensures
            k <= self@.len(),
            forall|i: int|
                0 <= i < k ==> (#[trigger] self@[i]).time < time || (inclusive && self@[i].time
                    == time),
            forall|i: int|
                k <= i < self@.len() ==> (#[trigger] self@[i]).time > time || (!inclusive
                    && self@[i].time == time),
    {
        proof {
            use_type_invariant(self);
        }
        let mut low: usize = 0;
        let mut high: usize = self.items.len();
        while low < high
            invariant
                time_ordered(self.items@),
                low <= high <= self.items@.len(),
                forall|i: int|
                    0 <= i < low ==> (#[trigger] self.items@[i]).time < time || (inclusive
                        && self.items@[i].time == time),
                forall|i: int|
                    high <= i < self.items@.len() ==> (#[trigger] self.items@[i]).time > time || (
                    !inclusive && self.items@[i].time == time),
            decreases high - low,
        {
            let middle = low + (high - low) / 2;
            let t = self.items[middle].time;
            if t < time || (inclusive && t == time) {
                low = middle + 1;
            } else {
                high = middle;
            }
        }
        low
    }

    /// The last item that was recorded at `time` or before it.
    pub fn get_most_recent_at(&self, time: Time) -> (r: Option<&ItemWithTime<T>>)
        ensures
            r == match most_recent_at(self@, time) {
                Some(k) => Some(&self@[k]),
                None => None,
            },
            time_ordered(self@),
    {
        proof {
            use_type_invariant(self);
        }
        let k = self.partition_point(time, true);
        proof {
            lemma_most_recent_at(self@, time, k as int);
        }
        if k == 0 {
            None
        } else {
            Some(&self.items[k - 1])
        }
    }

    /// The items that were recorded within the span, in their order.
    pub fn get_time_range(&self, range: TimeRange) -> (r: &[ItemWithTime<T>])
        ensures
            r@ == items_within(self@, range),
            time_ordered(self@),
    {
        proof {
            use_type_invariant(self);
        }
        let start = self.partition_point(range.start, false);
        let end = self.partition_point(range.end, true);
        let end = if end < start {
            start
        } else {
            end
        };
        proof {
            lemma_items_within(self@, range, start as int, end as int);
        }
        slice_subrange(self.items.as_slice(), start, end)
    }
}

/// Where the items up to place `k` were recorded at `time` or before it and
/// the others after it, the most recent item at `time` is the one before
/// place `k`.
proof fn lemma_most_recent_at<T>(items: Seq<ItemWithTime<T>>, time: Time, k: int)
    requires
        0 <= k <= items.len(),
        forall|i: int| 0 <= i < k ==> (#[trigger] items[i]).time <= time,
        forall|i: int| k <= i < items.len() ==> (#[trigger] items[i]).time > time,
    ensures
        most_recent_at(items, time) == if k == 0 {
            None
        } else {
            Some(k - 1)
        },
    decreases items.len(),
{
    if items.len() > k {
        lemma_most_recent_at(items.drop_last(), time, k);
    }
}

/// Where the items before place `start` were recorded before the span, those
/// from place `end` on after it, and the others within it, the items within
/// the span are those from `start` up to `end`.
proof fn lemma_items_within<T>(items: Seq<ItemWithTime<T>>, range: TimeRange, start: int, end: int)
    requires
        0 <= start <= end <= items.len(),
        forall|i: int| 0 <= i < start ==> !range.contains((#[trigger] items[i]).time),
        forall|i: int| start <= i < end ==> range.contains((#[trigger] items[i]).time),
        forall|i: int| end <= i < items.len() ==> !range.contains((#[trigger] items[i]).time),
    ensures
        items_within(items, range) == items.subrange(start, end),
{
    let pred = |item: ItemWithTime<T>| range.contains(item.time);
    let a = items.subrange(0, start);
    let b = items.subrange(start, end);
    let c = items.subrange(end, items.len() as int);
    assert(items =~= a + b + c);
    Seq::filter_distributes_over_add(a + b, c, pred);
    Seq::filter_distributes_over_add(a, b, pred);
    lemma_filter_all_or_none(a, pred);
    lemma_filter_all_or_none(b, pred);
    lemma_filter_all_or_none(c, pred);
    assert(a.filter(pred) + b.filter(pred) + c.filter(pred) =~= b);
}

/// Among items in the order of their times, the most recent item at a
/// time is the latest of those that were recorded at that time or before
/// it: it was recorded by then, and every item that was recorded by then
/// stands at its place or before it and is not younger. Where there is no
/// most recent item, nothing was recorded by then.
pub proof fn lemma_most_recent_is_latest<T>(items: Seq<ItemWithTime<T>>, time: Time)
    requires
        time_ordered(items),
    ensures
        match most_recent_at(items, time) {
            Some(k) => {
                &&& 0 <= k < items.len()
                &&& items[k].time <= time
                &&& forall|j: int|
                    0 <= j < items.len() && (#[trigger] items[j]).time <= time ==> j <= k
                        && items[j].time <= items[k].time
            },
            None => forall|j: int| 0 <= j < items.len() ==> (#[trigger] items[j]).time > time,
        },
    decreases items.len(),
{
    if items.len() > 0 && items.last().time > time {
        let front = items.drop_last();
        assert(time_ordered(front)) by {
            assert forall|i: int, j: int| 0 <= i <= j < front.len() implies (#[trigger] front[i]).time
                <= (#[trigger] front[j]).time by {
                assert(front[i] == items[i]);
                assert(front[j] == items[j]);
            }
        }
        lemma_most_recent_is_latest(front, time);
        match most_recent_at(front, time) {
            Some(k) => {
                assert forall|j: int|
                    0 <= j < items.len() && (#[trigger] items[j]).time <= time implies j <= k
                    && items[j].time <= items[k].time by {
                    assert(front[j] == items[j]);
                }
            },
            None => {
                assert forall|j: int| 0 <= j < items.len() implies (#[trigger] items[j]).time
                    > time by {
                    if j < front.len() {
                        assert(front[j] == items[j]);
                    }
                }
            },
        }
    }
}

} // verus!
