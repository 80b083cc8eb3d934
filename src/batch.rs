//! Fan-out of independent work items in chunks, with results kept in input
//! order.

use vstd::prelude::*;

verus! {

/// Splits batches of independent items into chunks for a worker pool.
pub struct ParallelProcessor;

/// Items per chunk for `len` items on `workers` workers: about two chunks per
/// worker, at least one item each.
pub open spec fn chunk_size_of(len: int, workers: int) -> int {
    if len / (2 * workers) < 1 {
        1
    } else {
        len / (2 * workers)
    }
}

impl ParallelProcessor {
    /// Items per chunk so that there are about two chunks per worker.
    pub fn chunk_size(len: usize, workers: usize) -> (r: usize)
        requires
            1 <= workers <= usize::MAX / 2,
        ensures
            r as int == chunk_size_of(len as int, workers as int),
            r >= 1,
    {
        let c = len / (2 * workers);
        if c < 1 {
            1
        } else {
            c
        }
    }

    /// The chunks `[start, end)` that cover `0..len` in order, each of
    /// `chunk_size` items but possibly the last.
    pub fn chunk_ranges(len: usize, chunk_size: usize) -> (r: Vec<(usize, usize)>)
        requires
            chunk_size >= 1,
        ensures
            r@.len() > 0 ==> r@[0].0 == 0 && r@.last().1 == len,
            r@.len() == 0 <==> len == 0,
            forall|k: int|
                0 <= k < r@.len() ==> #[trigger] r@[k].0 < r@[k].1 && r@[k].1 - r@[k].0 <= chunk_size,
            forall|k: int| 0 < k < r@.len() ==> #[trigger] r@[k].0 == r@[k - 1].1,
    {
        let mut r: Vec<(usize, usize)> = Vec::new();
        let mut start: usize = 0;
        while start < len
            invariant
                chunk_size >= 1,
                start <= len,
                r@.len() > 0 ==> r@[0].0 == 0 && r@.last().1 == start,
                r@.len() == 0 <==> start == 0,
                forall|k: int|
                    0 <= k < r@.len() ==> #[trigger] r@[k].0 < r@[k].1 && r@[k].1 - r@[k].0 <= chunk_size,
                forall|k: int| 0 < k < r@.len() ==> #[trigger] r@[k].0 == r@[k - 1].1,
            decreases len - start,
        {
            let end = if len - start < chunk_size { len } else { start + chunk_size };
            r.push((start, end));
            start = end;
        }
        r
    }

    /// Applies `processor` to every item, chunk by chunk, and returns the
    /// results in input order: result `i` is the processor's result for item
    /// `i`, whatever the number of workers. One item's failure touches no
    /// other item's result.
    pub fn process_batch<T, R, F: Fn(&T) -> R>(items: &Vec<T>, workers: usize, processor: F) -> (r: Vec<R>)
        requires
            1 <= workers <= usize::MAX / 2,
            forall|i: int| 0 <= i < items@.len() ==> processor.requires((&items@[i],)),
        ensures
            r@.len() == items@.len(),
            forall|i: int| 0 <= i < items@.len() ==> processor.ensures((&items@[i],), #[trigger] r@[i]),
    {
        let chunk = Self::chunk_size(items.len(), workers);
        let ranges = Self::chunk_ranges(items.len(), chunk);
        let mut out: Vec<R> = Vec::with_capacity(items.len());
        let mut k: usize = 0;
        while k < ranges.len()
            invariant
                forall|i: int| 0 <= i < items@.len() ==> processor.requires((&items@[i],)),
                k <= ranges@.len(),
                ranges@.len() > 0 ==> ranges@[0].0 == 0 && ranges@.last().1 == items@.len(),
                ranges@.len() == 0 <==> items@.len() == 0,
                forall|j: int| 0 <= j < ranges@.len() ==> #[trigger] ranges@[j].0 < ranges@[j].1,
                forall|j: int| 0 < j < ranges@.len() ==> #[trigger] ranges@[j].0 == ranges@[j - 1].1,
                k == 0 ==> out@.len() == 0,
                k > 0 ==> out@.len() == ranges@[k - 1].1,
                out@.len() <= items@.len(),
                forall|i: int| 0 <= i < out@.len() ==> processor.ensures((&items@[i],), #[trigger] out@[i]),
            decreases ranges@.len() - k,
        {
            let (start, end) = ranges[k];
            proof {
                if k > 0 {
                    assert(ranges@[k as int].0 == ranges@[k - 1].1);
                }
                lemma_ranges_within(ranges@, k as int, items@.len() as int);
            }
            let mut i: usize = start;
            while i < end
                invariant
                    forall|i: int| 0 <= i < items@.len() ==> processor.requires((&items@[i],)),
                    start <= i <= end,
                    end <= items@.len(),
                    out@.len() == i,
                    forall|j: int| 0 <= j < out@.len() ==> processor.ensures((&items@[j],), #[trigger] out@[j]),
                decreases end - i,
            {
                let v = processor(&items[i]);
                out.push(v);
                i = i + 1;
            }
            k = k + 1;
        }
        out
    }
}

pub(crate) proof fn lemma_ranges_within(ranges: Seq<(usize, usize)>, k: int, len: int)
    requires
        0 <= k < ranges.len(),
        ranges[0].0 == 0,
        ranges.last().1 == len,
        forall|j: int| 0 <= j < ranges.len() ==> #[trigger] ranges[j].0 < ranges[j].1,
        forall|j: int| 0 < j < ranges.len() ==> #[trigger] ranges[j].0 == ranges[j - 1].1,
    ensures
        ranges[k].1 <= len,
        k == 0 ==> ranges[k].0 == 0,
    decreases ranges.len() - k,
{
    if k < ranges.len() - 1 {
        lemma_ranges_within(ranges, k + 1, len);
        assert(ranges[k + 1].0 == ranges[k].1);
    }
}

/// When the processor fails on item `k` and succeeds on every other item,
/// a batch's results hold exactly one failure, at index `k`.
pub proof fn lemma_batch_isolates_failure<T, X, E, F: Fn(&T) -> Result<X, E>>(
    items: Seq<T>,
    processor: F,
    results: Seq<Result<X, E>>,
    k: int,
)
    requires
        0 <= k < items.len(),
        results.len() == items.len(),
        forall|i: int| 0 <= i < items.len() ==> processor.ensures((&items[i],), #[trigger] results[i]),
        forall|res: Result<X, E>| #[trigger] processor.ensures((&items[k],), res) ==> res is Err,
        forall|i: int, res: Result<X, E>|
            0 <= i < items.len() && i != k && #[trigger] processor.ensures((&items[i],), res) ==> res is Ok,
    ensures
        results[k] is Err,
        forall|i: int| 0 <= i < items.len() && i != k ==> #[trigger] results[i] is Ok,
{
    assert forall|i: int| 0 <= i < items.len() && i != k implies #[trigger] results[i] is Ok by {
        assert(processor.ensures((&items[i],), results[i]));
    }
}

} // verus!
