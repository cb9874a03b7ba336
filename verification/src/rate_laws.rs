//! How rates are measured and what follows from them, said of the amounts themselves.
use crate::constants::{
    BLOCK_SIZE, CHOKE_INTERVAL, MAX_ALLOWED_BLOCK_SIZE, MAX_DOWNLOADERS,
    OPTIMISTIC_UNCHOKE_INTERVAL, REQUEST_TIMEOUT, ROLLING_AVERAGE_SIZE, TICK_INTERVAL,
};
use crate::manager::PORT;
use crate::peer::QUEUE_SIZE;
use crate::peer_info::{
    averages_updated, is_new, queue_size_for, queue_size_updated, slow_start_checked, ticked,
    PeerInfo,
};
use crate::peer_message::BlockInfo;
use crate::rolling::{average, recorded, total};
use vstd::prelude::*;

verus! {

/// The amounts of a window add up to what its parts add up to.
pub proof fn law_amounts_add_up(a: Seq<u32>, b: Seq<u32>, amount: u32)
    ensures
        total(a + b) == total(a) + total(b),
        total(seq![amount]) == amount,
        total(a) >= 0,
    decreases a.len() + b.len(),
{
    let one = seq![amount];
    assert(one.drop_last() =~= Seq::<u32>::empty());
    assert(total(one.drop_last()) == 0);
    if b.len() == 0 {
        assert(a + b =~= a);
        if a.len() > 0 {
            law_amounts_add_up(a.drop_last(), b, amount);
        }
    } else {
        assert((a + b).drop_last() =~= a + b.drop_last());
        law_amounts_add_up(a, b.drop_last(), amount);
    }
}

/// The average is the largest number that, taken once for each amount, is not above their sum.
pub proof fn law_average_is_rounded_down(amounts: Seq<u32>)
    requires
        amounts.len() > 0,
    ensures
        average(amounts) * amounts.len() <= total(amounts),
        total(amounts) < (average(amounts) + 1) * amounts.len(),
{
    let sum = total(amounts);
    let n = amounts.len() as int;
    assert(sum / n * n <= sum && sum < (sum / n + 1) * n) by (nonlinear_arith)
        requires
            n > 0,
    ;
}

/// The latest amount comes first and the others move on by one place. No more than twenty are
/// kept: the oldest leaves.
pub proof fn law_latest_amount_comes_first(amounts: Seq<u32>, latest: u32, i: int)
    ensures
        amounts.len() < 20 ==> recorded(amounts, latest).len() == amounts.len() + 1,
        amounts.len() >= 20 ==> recorded(amounts, latest).len() == 20,
        recorded(amounts, latest)[0] == latest,
        1 <= i < recorded(amounts, latest).len() ==> recorded(amounts, latest)[i] == amounts[i - 1],
{
}

/// Outside of slow start a peer is asked for as many blocks of 2^14 bytes as it sends in a second,
/// and for one at least.
pub proof fn law_queue_suits_the_rate(rate: int)
    requires
        rate >= 0,
    ensures
        rate < 16384 ==> queue_size_for(rate) == 1,
        rate >= 16384 ==> queue_size_for(rate) * 16384 <= rate < (queue_size_for(rate) + 1) * 16384,
{
}

/// What a second changes: what came and went in it is put in front of the windows, and the totals
/// are remembered. Outside of slow start the queue is made to suit the new rate. Slow start ends
/// when in this second fewer bytes came than on average, by more than 10000.
pub proof fn law_second_is_recorded(before: PeerInfo, after: PeerInfo, i: int)
    requires
        before.wf(),
        after.wf(),
        ticked(before, after),
    ensures
        ({
            let came = before.total_downloaded_from - before.prev_total_downloaded_from;
            let went = before.total_uploaded_to - before.prev_total_uploaded_to;
            &&& after.rolling_download@[0] == came
            &&& after.rolling_upload@[0] == went
            &&& 1 <= i < after.rolling_download@.len() ==> after.rolling_download@[i]
                == before.rolling_download@[i - 1]
            &&& 1 <= i < after.rolling_upload@.len() ==> after.rolling_upload@[i]
                == before.rolling_upload@[i - 1]
            &&& after.prev_total_downloaded_from == before.total_downloaded_from
            &&& after.prev_total_uploaded_to == before.total_uploaded_to
            &&& after.total_downloaded_from == before.total_downloaded_from
            &&& after.total_uploaded_to == before.total_uploaded_to
            &&& before.in_slow_start ==> after.queue_size == before.queue_size
            &&& !before.in_slow_start ==> after.queue_size == queue_size_for(
                average(after.rolling_download@),
            ) && !after.in_slow_start
            &&& before.in_slow_start ==> (after.in_slow_start <==> came + 10000 >= average(
                after.rolling_download@,
            ))
            &&& after.requested_blocks@ == before.requested_blocks@
            &&& after.piece_availability@ == before.piece_availability@
            &&& after.peer_choking == before.peer_choking
            &&& after.am_choking == before.am_choking
            &&& after.peer_interested == before.peer_interested
            &&& after.am_interested == before.am_interested
        }),
{
    lemma_queue_fits(after);
}

proof fn lemma_queue_fits(info: PeerInfo)
    requires
        info.wf(),
    ensures
        1 <= queue_size_for(average(info.rolling_download@)) <= u32::MAX,
{
    crate::peer_info::law_rates_are_bounded(info);
}

/// What was transferred in a second is recorded without anything else.
pub proof fn law_only_windows_are_brought_up_to_date(before: PeerInfo, after: PeerInfo, i: int)
    requires
        before.wf(),
        averages_updated(before, after),
    ensures
        after.rolling_download@[0] == before.total_downloaded_from
            - before.prev_total_downloaded_from,
        after.rolling_upload@[0] == before.total_uploaded_to - before.prev_total_uploaded_to,
        1 <= i < after.rolling_download@.len() ==> after.rolling_download@[i]
            == before.rolling_download@[i - 1],
        1 <= i < after.rolling_upload@.len() ==> after.rolling_upload@[i]
            == before.rolling_upload@[i - 1],
        after.prev_total_downloaded_from == before.total_downloaded_from,
        after.prev_total_uploaded_to == before.total_uploaded_to,
        after.queue_size == before.queue_size,
        after.in_slow_start == before.in_slow_start,
{
}

/// The queue is made to suit the rate outside of slow start alone, and slow start ends when the
/// latest second was worse than the average by more than 10000 bytes.
pub proof fn law_queue_and_slow_start(info: PeerInfo)
    requires
        info.wf(),
    ensures
        ({
            let rate = average(info.rolling_download@);
            let fitted = queue_size_updated(info);
            let checked = slow_start_checked(info);
            &&& info.in_slow_start ==> fitted == info
            &&& !info.in_slow_start && rate < 16384 ==> fitted.queue_size == 1
            &&& !info.in_slow_start && rate >= 16384 ==> fitted.queue_size * 16384 <= rate < (
            fitted.queue_size + 1) * 16384
            &&& fitted.in_slow_start == info.in_slow_start
            &&& fitted.rolling_download@ == info.rolling_download@
            &&& fitted.requested_blocks@ == info.requested_blocks@
            &&& checked.in_slow_start <==> info.in_slow_start && !(info.rolling_download@[0] + 10000
                < rate)
            &&& checked.queue_size == info.queue_size
            &&& checked.rolling_download@ == info.rolling_download@
            &&& checked.requested_blocks@ == info.requested_blocks@
        }),
{
    lemma_queue_fits(info);
    crate::peer_info::law_rates_are_bounded(info);
    law_queue_suits_the_rate(average(info.rolling_download@));
}

/// A new peer is choked and chokes, nobody is interested, it has no piece, and two blocks can be
/// asked for.
pub proof fn law_new_peer_is_choked(info: PeerInfo, pieces: nat, i: int)
    requires
        is_new(info, pieces),
    ensures
        info.peer_id is None,
        info.am_choking && info.peer_choking,
        !info.am_interested && !info.peer_interested,
        info.in_slow_start,
        info.queue_size == 2,
        info.requested_blocks@.len() == 0,
        info.total_downloaded_from == 0 && info.total_uploaded_to == 0,
        info.prev_total_downloaded_from == 0 && info.prev_total_uploaded_to == 0,
        info.rolling_download@.len() == 1 && info.rolling_download@[0] == 0,
        info.rolling_upload@.len() == 1 && info.rolling_upload@[0] == 0,
        info.piece_availability@.len() == pieces,
        0 <= i < pieces ==> !info.piece_availability@[i],
{
}

/// When a peer is asked for nothing, and for how many blocks it is asked otherwise.
pub proof fn law_when_nothing_is_asked(info: PeerInfo, available_jobs: Seq<BlockInfo>)
    ensures
        !info.asks_nothing(available_jobs) <==> {
            &&& !info.peer_choking
            &&& available_jobs.len() > 0
            &&& info.requested_blocks@.len() < info.queue_size
        },
        info.requested_blocks@.len() <= info.queue_size ==> info.requested_blocks@.len()
            + info.room() == info.queue_size,
        info.wf() ==> info.prev_total_downloaded_from + info.download_delta()
            == info.total_downloaded_from,
        info.wf() ==> info.prev_total_uploaded_to + info.upload_delta() == info.total_uploaded_to,
{
}

/// The numbers that other clients rely on, and those by which this client goes.
pub proof fn law_fixed_numbers()
    ensures
        BLOCK_SIZE == 16384,
        MAX_ALLOWED_BLOCK_SIZE == 131072,
        MAX_DOWNLOADERS == 3,
        ROLLING_AVERAGE_SIZE == 20,
        CHOKE_INTERVAL == 10,
        OPTIMISTIC_UNCHOKE_INTERVAL == 30,
        REQUEST_TIMEOUT == 7,
        TICK_INTERVAL == 1,
        QUEUE_SIZE == 2,
        PORT == 6969,
{
}

} // verus!
