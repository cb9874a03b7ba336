//! Rolling averages over the last seconds.
use crate::constants::ROLLING_AVERAGE_SIZE;
use vstd::prelude::*;

verus! {

/// The sum of `amounts`.
pub open spec fn total(amounts: Seq<u32>) -> int
    decreases amounts.len(),
{
    if amounts.len() == 0 {
        0
    } else {
        total(amounts.drop_last()) + amounts.last()
    }
}

/// The average of `amounts`, rounded down.
pub open spec fn average(amounts: Seq<u32>) -> int {
    total(amounts) / (amounts.len() as int)
}

/// `amounts` with `latest` put in front, cut down to the size of the window.
pub open spec fn recorded(amounts: Seq<u32>, latest: u32) -> Seq<u32> {
    let longer = seq![latest] + amounts;
    if longer.len() > ROLLING_AVERAGE_SIZE {
        longer.take(ROLLING_AVERAGE_SIZE as int)
    } else {
        longer
    }
}

/// Whether `amounts` is a window that is not empty and has at most `bound` in all.
pub open spec fn is_window(amounts: Seq<u32>, bound: int) -> bool {
    &&& 1 <= amounts.len() <= ROLLING_AVERAGE_SIZE
    &&& total(amounts) <= bound
}

proof fn lemma_total_of_prefix(amounts: Seq<u32>, k: int)
    requires
        0 <= k <= amounts.len(),
    ensures
        0 <= total(amounts.take(k)) <= total(amounts),
    decreases amounts.len(),
{
    if k == amounts.len() {
        assert(amounts.take(k) =~= amounts);
        if k > 0 {
            lemma_total_of_prefix(amounts.drop_last(), k - 1);
            assert(amounts.drop_last().take(k - 1) =~= amounts.drop_last());
        }
    } else {
        lemma_total_of_prefix(amounts.drop_last(), k);
        assert(amounts.drop_last().take(k) =~= amounts.take(k));
    }
}

proof fn lemma_total_of_longer(latest: u32, amounts: Seq<u32>)
    ensures
        total(seq![latest] + amounts) == latest + total(amounts),
    decreases amounts.len(),
{
    let longer = seq![latest] + amounts;
    if amounts.len() == 0 {
        assert(longer.drop_last() =~= Seq::<u32>::empty());
        assert(total(longer.drop_last()) == 0);
        assert(longer.last() == latest);
    } else {
        assert(longer.drop_last() =~= seq![latest] + amounts.drop_last());
        assert(longer.last() == amounts.last());
        lemma_total_of_longer(latest, amounts.drop_last());
    }
}

/// A window into which an amount is recorded is a window, and its sum grows by that amount at
/// most.
pub proof fn law_recorded_is_window(amounts: Seq<u32>, bound: int, latest: u32)
    requires
        amounts.len() <= ROLLING_AVERAGE_SIZE,
        total(amounts) <= bound,
    ensures
        is_window(recorded(amounts, latest), bound + latest),
        recorded(amounts, latest)[0] == latest,
{
    lemma_total_of_longer(latest, amounts);
    let longer = seq![latest] + amounts;
    if longer.len() > ROLLING_AVERAGE_SIZE {
        lemma_total_of_prefix(longer, ROLLING_AVERAGE_SIZE as int);
    }
}

/// The average over a window is no more than the sum.
pub proof fn law_average_is_bounded(amounts: Seq<u32>, bound: int)
    requires
        is_window(amounts, bound),
    ensures
        0 <= average(amounts) <= total(amounts) <= bound,
{
    let sum = total(amounts);
    let n = amounts.len() as int;
    lemma_total_of_prefix(amounts, 0);
    assert(amounts.take(0) =~= Seq::<u32>::empty());
    assert(0 <= sum / n <= sum) by (nonlinear_arith)
        requires
            sum >= 0,
            n >= 1,
    ;
}

/// Records an amount.
pub fn record(amounts: &mut Vec<u32>, latest: u32)
    requires
        old(amounts)@.len() <= ROLLING_AVERAGE_SIZE,
    ensures
        final(amounts)@ == recorded(old(amounts)@, latest),
{
    amounts.insert(0, latest);
    assert(amounts@ =~= seq![latest] + old(amounts)@);
    amounts.truncate(ROLLING_AVERAGE_SIZE);
    assert(amounts@ =~= recorded(old(amounts)@, latest));
}

/// The average of a window.
pub fn rolling_average(amounts: &Vec<u32>) -> (rate: u32)
    requires
        is_window(amounts@, u32::MAX as int),
    ensures
        rate == average(amounts@),
{
    let n: usize = amounts.len();
    let mut sum: u32 = 0;
    let mut i: usize = 0;
    while i < n
        invariant
            i <= n == amounts@.len(),
            is_window(amounts@, u32::MAX as int),
            sum == total(amounts@.take(i as int)),
        decreases n - i,
    {
        proof {
            lemma_total_of_prefix(amounts@, i + 1);
            assert(amounts@.take(i + 1).drop_last() =~= amounts@.take(i as int));
        }
        sum = sum + amounts[i];
        i = i + 1;
    }
    assert(amounts@.take(n as int) =~= amounts@);
    sum / n as u32
}

/// The window after the amounts of `samples`, the oldest first, have been recorded one after the
/// other. It begins with a single zero.
pub open spec fn window(samples: Seq<u32>) -> Seq<u32>
    decreases samples.len(),
{
    if samples.len() == 0 {
        seq![0u32]
    } else {
        recorded(window(samples.drop_last()), samples.last())
    }
}

/// The newest of `samples`, as many as a window holds.
pub open spec fn newest(samples: Seq<u32>) -> Seq<u32> {
    if samples.len() > ROLLING_AVERAGE_SIZE {
        samples.skip(samples.len() - ROLLING_AVERAGE_SIZE)
    } else {
        samples
    }
}

/// Number of amounts in the window after `count` of them have been recorded.
pub open spec fn window_length(count: nat) -> int {
    if count + 1 < ROLLING_AVERAGE_SIZE {
        count as int + 1
    } else {
        ROLLING_AVERAGE_SIZE as int
    }
}

/// What stands where in the window: the newest amount first, and the zero last while it is there.
proof fn lemma_window(samples: Seq<u32>)
    ensures
        window(samples).len() == window_length(samples.len()),
        forall|i: int|
            0 <= i < window(samples).len() ==> #[trigger] window(samples)[i] == if i
                < samples.len() {
                samples[samples.len() - 1 - i]
            } else {
                0
            },
    decreases samples.len(),
{
    if samples.len() > 0 {
        let before = samples.drop_last();
        lemma_window(before);
        assert forall|i: int| 0 <= i < window(samples).len() implies #[trigger] window(samples)[i]
            == if i < samples.len() {
            samples[samples.len() - 1 - i]
        } else {
            0
        } by {
            if i > 0 {
                assert(window(samples)[i] == window(before)[i - 1]);
            }
        }
    }
}

proof fn lemma_total_of_reverse(amounts: Seq<u32>)
    ensures
        total(amounts.reverse()) == total(amounts),
    decreases amounts.len(),
{
    if amounts.len() > 0 {
        let shorter = amounts.drop_last();
        lemma_total_of_reverse(shorter);
        assert(amounts.reverse() =~= seq![amounts.last()] + shorter.reverse());
        lemma_total_of_longer(amounts.last(), shorter.reverse());
    } else {
        assert(amounts.reverse() =~= amounts);
    }
}

/// The average is that of the newest amounts, at most as many as the window holds; the zero with
/// which the window begins counts as one of them until it is pushed out.
pub proof fn law_average_of_newest(samples: Seq<u32>)
    ensures
        window(samples).len() == window_length(samples.len()),
        total(window(samples)) == total(newest(samples)),
        average(window(samples)) == total(newest(samples)) / window_length(samples.len()),
{
    lemma_window(samples);
    let held = window(samples);
    let back = newest(samples).reverse();
    lemma_total_of_reverse(newest(samples));
    if samples.len() >= ROLLING_AVERAGE_SIZE {
        assert(held =~= back);
    } else {
        assert(held =~= back.push(0));
        assert(back.push(0).drop_last() =~= back);
    }
}

} // verus!
