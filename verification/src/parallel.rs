//! Sharing the items of a list among workers, and putting what the workers
//! made of them back in the order of the list.

use vstd::prelude::*;

verus! {

/// How many items one worker is given at most.
pub open spec fn batch_size(len: nat, workers: nat) -> nat {
    len / workers + 1
}

/// The item handed out at `position`, with its place in the list: items are
/// handed out from the end of the list backwards.
pub open spec fn handed_out<T>(input: Seq<T>, position: int) -> (usize, T) {
    ((input.len() - 1 - position) as usize, input[input.len() - 1 - position])
}

/// The length of batch `b` when `len` items go out in batches of `size`.
pub open spec fn batch_len(len: nat, size: nat, b: int) -> int {
    if len - b * size < size {
        len - b * size
    } else {
        size as int
    }
}

/// `batches` share out `input` among at most `workers` workers: every
/// batch but the last is full, none is empty, and together they hold each
/// item once, beside its place in the list.
pub open spec fn shares<T>(input: Seq<T>, workers: nat, batches: Seq<Vec<(usize, T)>>) -> bool {
    let size = batch_size(input.len(), workers);
    &&& batches.len() <= workers
    &&& batches.len() * size >= input.len()
    &&& forall|b: int|
        0 <= b < batches.len() ==> 0 < (#[trigger] batches[b])@.len() == batch_len(
            input.len(),
            size,
            b,
        )
    &&& forall|b: int, j: int|
        0 <= b < batches.len() && 0 <= j < batches[b]@.len() ==> (#[trigger] batches[b]@[j])
            == handed_out(input, b * size + j)
}

proof fn lemma_batches_cover(len: nat, workers: nat)
    requires
        workers > 0,
    ensures
        batch_size(len, workers) * workers > len,
{
    let q = len / workers;
    assert(len == workers * q + len % workers) by (nonlinear_arith)
        requires
            workers > 0,
            q == len / workers,
    ;
    assert((q + 1) * workers == workers * q + workers) by (nonlinear_arith);
}

/// Shares out the items of `input` among `num_threads` workers.
pub fn split_batches<T>(input: Vec<T>, num_threads: usize) -> (batches: Vec<Vec<(usize, T)>>)
    requires
        num_threads > 0,
        input@.len() < usize::MAX,
    ensures
        shares(input@, num_threads as nat, batches@),
{
    let ghost all = input@;
    let mut input = input;
    let n: usize = input.len();
    let batch: usize = n / num_threads + 1;
    proof {
        lemma_batches_cover(n as nat, num_threads as nat);
        assert(num_threads * batch == batch * num_threads) by (nonlinear_arith);
    }
    let mut batches: Vec<Vec<(usize, T)>> = Vec::new();
    let mut t: usize = 0;
    let mut done = false;
    while t < num_threads && !done
        invariant
            n == all.len(),
            batch == batch_size(n as nat, num_threads as nat),
            num_threads * batch > n,
            input@.len() <= n,
            input@ == all.subrange(0, input@.len() as int),
            batches@.len() == t <= num_threads,
            n - input@.len() == (if t * batch <= n {
                t * batch
            } else {
                n as int
            }),
            done ==> input@.len() == 0,
            forall|b: int|
                0 <= b < t ==> 0 < (#[trigger] batches@[b])@.len() == batch_len(
                    n as nat,
                    batch as nat,
                    b,
                ),
            forall|b: int, j: int|
                0 <= b < t && 0 <= j < batches@[b]@.len() ==> (#[trigger] batches@[b]@[j])
                    == handed_out(all, b * batch + j),
        decreases
                if done {
                    0
                } else {
                    num_threads - t + 1
                },
    {
        let ghost start = n - input@.len();
        let mut nums: Vec<(usize, T)> = Vec::new();
        let mut j: usize = 0;
        while j < batch && input.len() > 0
            invariant
                n == all.len(),
                0 <= start <= n,
                j <= batch,
                nums@.len() == j,
                input@.len() + j + start == n,
                input@ == all.subrange(0, input@.len() as int),
                forall|k: int| 0 <= k < j ==> (#[trigger] nums@[k]) == handed_out(all, start + k),
            decreases batch - j,
        {
            let ghost before = input@;
            let item = input.pop().unwrap();
            assert(item == all[n - 1 - (start + j)]);
            assert(input@ =~= all.subrange(0, input@.len() as int));
            nums.push((input.len(), item));
            j += 1;
        }
        if nums.len() == 0 {
            done = true;
        } else {
            proof {
                assert((t + 1) * batch == t * batch + batch) by (nonlinear_arith);
                assert(start == t * batch);
                assert forall|b: int, k: int|
                    0 <= b < t + 1 && 0 <= k < batches@.push(nums)[b]@.len() implies (
                #[trigger] batches@.push(nums)[b]@[k]) == handed_out(all, b * batch + k) by {
                    if b < t {
                        assert(batches@.push(nums)[b] == batches@[b]);
                    }
                }
                assert forall|b: int| 0 <= b < t + 1 implies 0 < (#[trigger] batches@.push(
                    nums,
                )[b])@.len() == batch_len(n as nat, batch as nat, b) by {
                    if b < t {
                        assert(batches@.push(nums)[b] == batches@[b]);
                    }
                }
            }
            batches.push(nums);
            t += 1;
        }
    }
    proof {
        if !done {
            assert(t * batch > n);
        }
        assert(input@.len() == 0);
        assert(t * batch >= n);
    }
    batches
}

/// The results of the workers cover a list of `len` items: there are `len`
/// of them, each for a place in the list, and every place has one.
pub open spec fn covers<U>(results: Seq<(usize, U)>, len: nat) -> bool {
    &&& results.len() == len
    &&& forall|k: int| 0 <= k < results.len() ==> (#[trigger] results[k]).0 < len
    &&& forall|i: int| 0 <= i < len ==> #[trigger] placed(results, i)
}

/// Some result is for place `i`.
pub open spec fn placed<U>(results: Seq<(usize, U)>, i: int) -> bool {
    exists|k: int| latest(results, i, k)
}

/// `results[k]` is the last result for place `i`.
pub open spec fn latest<U>(results: Seq<(usize, U)>, i: int, k: int) -> bool {
    &&& 0 <= k < results.len()
    &&& results[k].0 == i
    &&& forall|later: int| k < later < results.len() ==> (#[trigger] results[later]).0 != i
}

/// The last result for place `i` is `value`.
pub open spec fn settled<U>(results: Seq<(usize, U)>, i: int, value: U) -> bool {
    exists|k: int| latest(results, i, k) && results[k].1 == value
}

/// Puts the results in the order of the list that they were made from.
/// Where results do not cover the list, there is no such order.
pub fn gather<U>(len: usize, results: Vec<(usize, U)>) -> (output: Option<Vec<U>>)
    ensures
        match output {
            Some(values) => {
                &&& covers(results@, len as nat)
                &&& values@.len() == len
                &&& forall|i: int, k: int|
                    0 <= i < len && #[trigger] latest(results@, i, k) ==> values@[i]
                        == results@[k].1
            },
            None => !covers(results@, len as nat),
        },
{
    let ghost all = results@;
    let mut pending = results;
    if pending.len() != len {
        return None;
    }
    let mut slots: Vec<Option<U>> = Vec::new();
    let mut filled: usize = 0;
    while filled < len
        invariant
            filled <= len,
            slots@.len() == filled,
            forall|i: int| 0 <= i < filled ==> (#[trigger] slots@[i]) is None,
        decreases len - filled,
    {
        slots.push(None);
        filled += 1;
    }
    while pending.len() > 0
        invariant
            all.len() == len,
            all == results@,
            slots@.len() == len,
            pending@.len() <= len,
            pending@ == all.subrange(0, pending@.len() as int),
            forall|k: int| pending@.len() <= k < len ==> (#[trigger] all[k]).0 < len,
            forall|i: int|
                0 <= i < len ==> match #[trigger] slots@[i] {
                    Some(value) => exists|k: int|
                        pending@.len() <= k && latest(all, i, k) && all[k].1 == value,
                    None => forall|k: int| pending@.len() <= k < len ==> (#[trigger] all[k]).0 != i,
                },
        decreases pending@.len(),
    {
        let ghost m = pending@.len() - 1;
        let (index, value) = pending.pop().unwrap();
        assert(all[m] == (index, value));
        assert(pending@ =~= all.subrange(0, m));
        if index >= len {
            return None;
        }
        let ghost before = slots@;
        if slots[index].is_none() {
            slots.set(index, Some(value));
            assert(latest(all, index as int, m));
        }
        assert forall|i: int| 0 <= i < len implies match #[trigger] slots@[i] {
            Some(value) => exists|k: int| m <= k && latest(all, i, k) && all[k].1 == value,
            None => forall|k: int| m <= k < len ==> (#[trigger] all[k]).0 != i,
        } by {
            if i == index {
                if before[i] is Some {
                    let k = choose|k: int|
                        m + 1 <= k && latest(all, i, k) && all[k].1 == before[i]->0;
                    assert(m <= k && latest(all, i, k) && all[k].1 == slots@[i]->0);
                } else {
                    assert(m <= m && latest(all, i, m) && all[m].1 == slots@[i]->0);
                }
            } else {
                assert(slots@[i] == before[i]);
                if before[i] is Some {
                    let k = choose|k: int|
                        m + 1 <= k && latest(all, i, k) && all[k].1 == before[i]->0;
                    assert(m <= k && latest(all, i, k) && all[k].1 == slots@[i]->0);
                }
            }
        }
    }
    let mut backwards: Vec<U> = Vec::new();
    while slots.len() > 0
        invariant
            all.len() == len,
            all == results@,
            slots@.len() + backwards@.len() == len,
            forall|k: int| 0 <= k < len ==> (#[trigger] all[k]).0 < len,
            forall|i: int|
                0 <= i < slots@.len() ==> match #[trigger] slots@[i] {
                    Some(value) => settled(all, i, value),
                    None => forall|k: int| 0 <= k < len ==> (#[trigger] all[k]).0 != i,
                },
            forall|r: int|
                0 <= r < backwards@.len() ==> settled(all, len - 1 - r, #[trigger] backwards@[r]),
        decreases slots@.len(),
    {
        let ghost i = slots@.len() - 1;
        let ghost before = slots@;
        let ghost had = backwards@;
        match slots.pop().unwrap() {
            None => {
                assert(before[i] is None);
                assert(!covers(all, len as nat)) by {
                    if covers(all, len as nat) {
                        assert(placed(all, i));
                        let k = choose|k: int| latest(all, i, k);
                        assert(all[k].0 == i);
                    }
                }
                return None;
            },
            Some(value) => {
                assert(before[i] == Some(value));
                backwards.push(value);
                assert forall|r: int| 0 <= r < backwards@.len() implies settled(
                    all,
                    len - 1 - r,
                    #[trigger] backwards@[r],
                ) by {
                    if r < had.len() {
                        assert(backwards@[r] == had[r]);
                    }
                }
                assert forall|j: int| 0 <= j < slots@.len() implies match #[trigger] slots@[j] {
                    Some(value) => settled(all, j, value),
                    None => forall|k: int| 0 <= k < len ==> (#[trigger] all[k]).0 != j,
                } by {
                    assert(slots@[j] == before[j]);
                }
            },
        }
    }
    let mut values: Vec<U> = Vec::new();
    while backwards.len() > 0
        invariant
            all.len() == len,
            values@.len() + backwards@.len() == len,
            forall|r: int|
                0 <= r < backwards@.len() ==> settled(all, len - 1 - r, #[trigger] backwards@[r]),
            forall|i: int| 0 <= i < values@.len() ==> settled(all, i, #[trigger] values@[i]),
        decreases backwards@.len(),
    {
        let ghost r = backwards@.len() - 1;
        let ghost had = values@;
        let ghost before = backwards@;
        let value = backwards.pop().unwrap();
        assert(before[r] == value);
        values.push(value);
        assert forall|i: int| 0 <= i < values@.len() implies settled(
            all,
            i,
            #[trigger] values@[i],
        ) by {
            if i < had.len() {
                assert(values@[i] == had[i]);
            } else {
                assert(settled(all, len - 1 - r, before[r]));
            }
        }
        assert forall|q: int| 0 <= q < backwards@.len() implies settled(
            all,
            len - 1 - q,
            #[trigger] backwards@[q],
        ) by {
            assert(backwards@[q] == before[q]);
        }
    }
    proof {
        assert forall|i: int, k: int| 0 <= i < len && #[trigger] latest(all, i, k) implies values@[i]
            == all[k].1 by {
            assert(settled(all, i, values@[i]));
            let k2 = choose|k2: int| latest(all, i, k2) && all[k2].1 == values@[i];
            if k2 < k {
                assert(all[k].0 != i);
            } else if k < k2 {
                assert(all[k2].0 != i);
            }
        }
        assert forall|i: int| 0 <= i < len implies #[trigger] placed(all, i) by {
            assert(settled(all, i, values@[i]));
            let k = choose|k: int| latest(all, i, k) && all[k].1 == values@[i];
            assert(latest(all, i, k));
        }
    }
    Some(values)
}

/// What a worker that applies `g` sends for a handed-out item.
pub open spec fn made<T, U>(item: (usize, T), g: spec_fn(T) -> U) -> (usize, U) {
    (item.0, g(item.1))
}

/// `pair` is among `results`.
pub open spec fn arrives<U>(results: Seq<(usize, U)>, pair: (usize, U)) -> bool {
    exists|k: int| 0 <= k < results.len() && results[k] == pair
}

/// `pair` is what a worker that applies `g` sends for some item of
/// `batches`.
pub open spec fn comes_from<T, U>(
    batches: Seq<Vec<(usize, T)>>,
    g: spec_fn(T) -> U,
    pair: (usize, U),
) -> bool {
    exists|b: int, j: int|
        0 <= b < batches.len() && 0 <= j < batches[b]@.len() && pair == made(
            #[trigger] batches[b]@[j],
            g,
        )
}

/// Where some result is for place `i`, one of them is the last.
pub proof fn lemma_latest_exists<U>(results: Seq<(usize, U)>, i: int, k: int)
    requires
        0 <= k < results.len(),
        results[k].0 == i,
    ensures
        placed(results, i),
    decreases results.len() - k,
{
    if exists|later: int| k < later < results.len() && (#[trigger] results[later]).0 == i {
        let later = choose|later: int|
            k < later < results.len() && (#[trigger] results[later]).0 == i;
        lemma_latest_exists(results, i, later);
    } else {
        assert(latest(results, i, k));
    }
}

/// The batches hold the item of every place of the list.
pub proof fn lemma_every_place_is_shared<T>(
    input: Seq<T>,
    workers: nat,
    batches: Seq<Vec<(usize, T)>>,
    i: int,
)
    requires
        workers > 0,
        input.len() <= usize::MAX,
        shares(input, workers, batches),
        0 <= i < input.len(),
    ensures
        exists|b: int, j: int|
            0 <= b < batches.len() && 0 <= j < batches[b]@.len() && #[trigger] batches[b]@[j] == (
                i as usize,
                input[i],
            ),
{
    let n = input.len() as int;
    let size = batch_size(input.len(), workers) as int;
    let position = n - 1 - i;
    let b = position / size;
    let j = position % size;
    assert(position == size * b + j && 0 <= j < size && 0 <= b) by (nonlinear_arith)
        requires
            size > 0,
            position >= 0,
            b == position / size,
            j == position % size,
    ;
    assert(b < batches.len()) by (nonlinear_arith)
        requires
            size > 0,
            0 <= b,
            size * b <= position,
            position < n,
            batches.len() * size >= n,
    ;
    assert(b * size == size * b) by (nonlinear_arith);
    assert(batches[b]@.len() == batch_len(input.len(), size as nat, b));
    assert(batches[b]@[j] == handed_out(input, b * size + j));
}

/// What the workers make of the shared batches comes back in the order of
/// the list: when every handed-out item's result is among `results`, and
/// every result is that of a handed-out item, then the results cover the
/// list, and the result for each place is what `g` makes of the item at
/// that place, in whatever order the results arrived.
pub proof fn law_results_gather_in_order<T, U>(
    input: Seq<T>,
    workers: nat,
    batches: Seq<Vec<(usize, T)>>,
    g: spec_fn(T) -> U,
    results: Seq<(usize, U)>,
)
    requires
        workers > 0,
        input.len() <= usize::MAX,
        shares(input, workers, batches),
        results.len() == input.len(),
        forall|b: int, j: int|
            0 <= b < batches.len() && 0 <= j < batches[b]@.len() ==> arrives(
                results,
                made(#[trigger] batches[b]@[j], g),
            ),
        forall|k: int| 0 <= k < results.len() ==> comes_from(batches, g, #[trigger] results[k]),
    ensures
        covers(results, input.len()),
        forall|i: int, k: int|
            0 <= i < input.len() && #[trigger] latest(results, i, k) ==> results[k].1 == g(
                input[i],
            ),
{
    let n = input.len() as int;
    let size = batch_size(input.len(), workers) as int;
    assert forall|k: int| 0 <= k < results.len() implies (#[trigger] results[k]).0 < n
        && results[k].1 == g(input[results[k].0 as int]) by {
        assert(comes_from(batches, g, results[k]));
        let (b, j) = choose|b: int, j: int|
            0 <= b < batches.len() && 0 <= j < batches[b]@.len() && results[k] == made(
                #[trigger] batches[b]@[j],
                g,
            );
        assert(batches[b]@.len() == batch_len(input.len(), size as nat, b));
        assert(batches[b]@[j] == handed_out(input, b * size + j));
        assert(0 <= b * size) by (nonlinear_arith)
            requires
                0 <= b,
                0 < size,
        ;
    }
    assert forall|i: int| 0 <= i < n implies #[trigger] placed(results, i) by {
        lemma_every_place_is_shared(input, workers, batches, i);
        let (b, j) = choose|b: int, j: int|
            0 <= b < batches.len() && 0 <= j < batches[b]@.len() && #[trigger] batches[b]@[j] == (
                i as usize,
                input[i],
            );
        assert(arrives(results, made(batches[b]@[j], g)));
        let k = choose|k: int| 0 <= k < results.len() && results[k] == made(batches[b]@[j], g);
        lemma_latest_exists(results, i, k);
    }
}

} // verus!
