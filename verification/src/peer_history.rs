//! What holds of a peer after everything that has happened since it was new.
use crate::peer_info::{is_new, ticked, PeerInfo};
use crate::rolling::{
    average, law_average_of_newest, law_recorded_is_window, newest, total, window, window_length,
};
use vstd::prelude::*;

verus! {

/// Something that happens to a peer.
pub enum PeerEvent {
    /// A second is over.
    Tick,
    /// So many bytes have come from the peer.
    Downloaded(u32),
    /// So many bytes have gone to the peer.
    Uploaded(u32),
    /// Something that has nothing to do with how much is transferred.
    Other,
}

/// Whether `after` is what `event` makes of `before`.
pub open spec fn happened(before: PeerInfo, event: PeerEvent, after: PeerInfo) -> bool {
    match event {
        PeerEvent::Tick => ticked(before, after),
        PeerEvent::Downloaded(length) => {
            &&& before.total_downloaded_from + length <= u32::MAX
            &&& before.queue_size < usize::MAX
            &&& after == (PeerInfo {
                total_downloaded_from: (before.total_downloaded_from + length) as u32,
                queue_size: (before.queue_size + 1) as usize,
                ..before
            })
        },
        PeerEvent::Uploaded(length) => {
            &&& before.total_uploaded_to + length <= u32::MAX
            &&& after == (PeerInfo {
                total_uploaded_to: (before.total_uploaded_to + length) as u32,
                ..before
            })
        },
        PeerEvent::Other => after == (PeerInfo {
            peer_id: after.peer_id,
            am_choking: after.am_choking,
            am_interested: after.am_interested,
            peer_choking: after.peer_choking,
            peer_interested: after.peer_interested,
            piece_availability: after.piece_availability,
            requested_blocks: after.requested_blocks,
            ..before
        }),
    }
}

/// Whether `states` are the states of a peer that was new and to which `events` happened.
pub open spec fn is_history(states: Seq<PeerInfo>, events: Seq<PeerEvent>) -> bool {
    &&& states.len() == events.len() + 1
    &&& is_new(states[0], states[0].piece_availability@.len())
    &&& forall|i: int|
        0 <= i < events.len() ==> happened(states[i], #[trigger] events[i], states[i + 1])
}

/// Number of bytes that an event transfers, up to the peer or down from it.
pub open spec fn transferred(event: PeerEvent, up: bool) -> int {
    match event {
        PeerEvent::Downloaded(length) => if up {
            0
        } else {
            length as int
        },
        PeerEvent::Uploaded(length) => if up {
            length as int
        } else {
            0
        },
        _ => 0,
    }
}

/// Number of bytes transferred in the second that is not over.
pub open spec fn since_tick(events: Seq<PeerEvent>, up: bool) -> int
    decreases events.len(),
{
    if events.len() == 0 || events.last() is Tick {
        0
    } else {
        since_tick(events.drop_last(), up) + transferred(events.last(), up)
    }
}

/// Number of bytes transferred in each second that is over, the oldest first.
pub open spec fn samples(events: Seq<PeerEvent>, up: bool) -> Seq<u32>
    decreases events.len(),
{
    if events.len() == 0 {
        Seq::empty()
    } else if events.last() is Tick {
        samples(events.drop_last(), up).push(since_tick(events.drop_last(), up) as u32)
    } else {
        samples(events.drop_last(), up)
    }
}

/// Number of seconds that are over.
pub open spec fn ticks(events: Seq<PeerEvent>) -> nat
    decreases events.len(),
{
    if events.len() == 0 {
        0
    } else if events.last() is Tick {
        ticks(events.drop_last()) + 1
    } else {
        ticks(events.drop_last())
    }
}

/// The totals and windows of the last state of a history.
proof fn lemma_history(states: Seq<PeerInfo>, events: Seq<PeerEvent>)
    requires
        is_history(states, events),
    ensures
        states.last().wf(),
        states.last().download_delta() == since_tick(events, false),
        states.last().upload_delta() == since_tick(events, true),
        states.last().rolling_download@ == window(samples(events, false)),
        states.last().rolling_upload@ == window(samples(events, true)),
        samples(events, false).len() == ticks(events),
        samples(events, true).len() == ticks(events),
    decreases events.len(),
{
    if events.len() == 0 {
        assert(seq![0u32].drop_last() =~= Seq::<u32>::empty());
        assert(total(seq![0u32].drop_last()) == 0);
    } else {
        let earlier = states.drop_last();
        let past = events.drop_last();
        let before = earlier.last();
        let last = events.last();
        assert forall|i: int| 0 <= i < past.len() implies happened(
            earlier[i],
            #[trigger] past[i],
            earlier[i + 1],
        ) by {
            assert(past[i] == events[i]);
        }
        lemma_history(earlier, past);
        assert(happened(before, events[events.len() - 1], states.last()));
        if last is Tick {
            law_recorded_is_window(
                before.rolling_download@,
                before.prev_total_downloaded_from as int,
                before.download_delta(),
            );
            law_recorded_is_window(
                before.rolling_upload@,
                before.prev_total_uploaded_to as int,
                before.upload_delta(),
            );
            assert(samples(events, false).drop_last() =~= samples(past, false));
            assert(samples(events, true).drop_last() =~= samples(past, true));
        }
    }
}

/// Whatever happens to a peer, its windows are not empty, equally long and not longer than the
/// average is taken over, they hold no more in all than has been transferred, and slow start never
/// comes back. When a second is over, what was transferred until then is recorded.
pub proof fn law_history_keeps_validity(states: Seq<PeerInfo>, events: Seq<PeerEvent>, i: int)
    requires
        is_history(states, events),
        0 <= i < states.len(),
    ensures
        states[i].wf(),
        total(states[i].rolling_download@) <= states[i].total_downloaded_from,
        total(states[i].rolling_upload@) <= states[i].total_uploaded_to,
        states[i].rolling_download@.len() == window_length(ticks(events.take(i))),
        states[i].rolling_upload@.len() == window_length(ticks(events.take(i))),
        i > 0 && events[i - 1] is Tick ==> states[i].prev_total_downloaded_from
            == states[i].total_downloaded_from && states[i].prev_total_uploaded_to
            == states[i].total_uploaded_to,
        i > 0 && states[i].in_slow_start ==> states[i - 1].in_slow_start,
{
    let past = events.take(i);
    let until = states.take(i + 1);
    assert forall|k: int| 0 <= k < past.len() implies happened(
        until[k],
        #[trigger] past[k],
        until[k + 1],
    ) by {
        assert(past[k] == events[k]);
    }
    lemma_history(until, past);
    law_average_of_newest(samples(past, false));
    law_average_of_newest(samples(past, true));
    if i > 0 {
        assert(happened(states[i - 1], events[i - 1], states[i - 1 + 1]));
    }
}

/// After some seconds the rates are the averages of what was transferred in the newest of them, at
/// most as many as the average is taken over; the zero of a new peer counts as one more second
/// until there are enough of them. What was transferred since the last second is over does not
/// count.
pub proof fn law_rates_are_averages_of_newest(states: Seq<PeerInfo>, events: Seq<PeerEvent>)
    requires
        is_history(states, events),
    ensures
        samples(events, false).len() == ticks(events),
        samples(events, true).len() == ticks(events),
        average(states.last().rolling_download@) == total(newest(samples(events, false)))
            / window_length(ticks(events)),
        average(states.last().rolling_upload@) == total(newest(samples(events, true)))
            / window_length(ticks(events)),
{
    lemma_history(states, events);
    law_average_of_newest(samples(events, false));
    law_average_of_newest(samples(events, true));
}

} // verus!
