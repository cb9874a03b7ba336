//! Who is choked and who is not, said of the peers and their statuses themselves.
use crate::address::PeerAddress;
use crate::choke::{
    candidates, last_place, law_candidates_are_listed, law_ranking_lists_every_place,
    old_optimistic, optimistic_notices, ranks_before, rates, regularly_unchoked, unchoked_places,
    PeerStatus, Unchokes,
};
use crate::client_message::{ClientMessage, Notice};
use crate::torrent::Torrent;
use vstd::prelude::*;

verus! {

/// Whether `last` is the last place at which the address at place `i` stands.
pub open spec fn stands_last(peers: Seq<PeerAddress>, i: int, last: int) -> bool {
    &&& 0 <= i <= last < peers.len()
    &&& peers[last] == peers[i]
    &&& forall|j: int| last < j < peers.len() ==> #[trigger] peers[j] != peers[i]
}

proof fn lemma_last_place(peers: Seq<PeerAddress>, address: PeerAddress, last: int)
    requires
        0 <= last < peers.len(),
        peers[last] == address,
        forall|j: int| last < j < peers.len() ==> #[trigger] peers[j] != address,
    ensures
        last_place(peers, address) == last,
    decreases peers.len(),
{
    if last < peers.len() - 1 {
        assert(peers[peers.len() - 1] != address);
        lemma_last_place(peers.drop_last(), address, last);
    }
}

/// Where the address at place `i` stands last.
proof fn lemma_stands_last(peers: Seq<PeerAddress>, i: int, from: int) -> (last: int)
    requires
        0 <= i <= from < peers.len(),
        forall|j: int| from < j < peers.len() ==> #[trigger] peers[j] != peers[i],
    ensures
        stands_last(peers, i, last),
    decreases from,
{
    if peers[from] == peers[i] {
        from
    } else {
        lemma_stands_last(peers, i, from - 1)
    }
}

/// Exactly the peers that this client chokes can be unchoked optimistically, save the one that was
/// so unchoked before: neither the interest of a peer nor its rate matters. Where an address
/// stands several times, the last status counts.
pub proof fn law_any_choked_peer_can_be_chosen(
    peers: Seq<PeerAddress>,
    statuses: Seq<PeerStatus>,
    optimistic: Option<PeerAddress>,
    i: usize,
    last: int,
)
    requires
        peers.len() <= usize::MAX,
        stands_last(peers, i as int, last),
    ensures
        candidates(peers, statuses, optimistic, peers.len() as int).contains(i) <==> {
            &&& statuses[last].am_choking
            &&& optimistic != Some(peers[i as int])
        },
{
    law_candidates_are_listed(peers, statuses, optimistic, peers.len() as int, i);
    lemma_last_place(peers, peers[i as int], last);
}

/// No place is listed twice, and only places of peers are.
pub proof fn law_candidates_stand_in_order(
    peers: Seq<PeerAddress>,
    statuses: Seq<PeerStatus>,
    optimistic: Option<PeerAddress>,
    end: int,
)
    requires
        0 <= end <= usize::MAX,
    ensures
        candidates(peers, statuses, optimistic, end).len() <= end,
        forall|k: int|
            0 <= k < candidates(peers, statuses, optimistic, end).len() ==> (
            #[trigger] candidates(peers, statuses, optimistic, end)[k]) < end,
        forall|k: int, l: int|
            0 <= k < l < candidates(peers, statuses, optimistic, end).len() ==> (
            #[trigger] candidates(peers, statuses, optimistic, end)[k]) < (#[trigger] candidates(
                peers,
                statuses,
                optimistic,
                end,
            )[l]),
    decreases end,
{
    if end > 0 {
        law_candidates_stand_in_order(peers, statuses, optimistic, end - 1);
    }
}

/// Some peer can be chosen exactly when one that is choked is not the one that was chosen before.
pub proof fn law_some_peer_can_be_chosen(
    peers: Seq<PeerAddress>,
    statuses: Seq<PeerStatus>,
    optimistic: Option<PeerAddress>,
)
    requires
        peers.len() <= usize::MAX,
    ensures
        candidates(peers, statuses, optimistic, peers.len() as int).len() > 0 <==> (exists|
            i: int,
            last: int,
        | #[trigger]
            stands_last(peers, i, last) && statuses[last].am_choking && optimistic != Some(
                peers[i],
            )),
{
    let all = candidates(peers, statuses, optimistic, peers.len() as int);
    if all.len() > 0 {
        law_candidates_stand_in_order(peers, statuses, optimistic, peers.len() as int);
        let i = all[0];
        assert(all.contains(i));
        let last = lemma_stands_last(peers, i as int, peers.len() - 1);
        law_any_choked_peer_can_be_chosen(peers, statuses, optimistic, i, last);
    }
    if exists|i: int, last: int| #[trigger]
        stands_last(peers, i, last) && statuses[last].am_choking && optimistic != Some(peers[i]) {
        let (i, last) = choose|i: int, last: int| #[trigger]
            stands_last(peers, i, last) && statuses[last].am_choking && optimistic != Some(
                peers[i],
            );
        law_any_choked_peer_can_be_chosen(peers, statuses, optimistic, i as usize, last);
        assert(all.contains(i as usize));
    }
}

proof fn lemma_old_optimistic(peers: Seq<PeerAddress>, optimistic: Option<PeerAddress>)
    ensures
        match old_optimistic(peers, optimistic) {
            Some(i) => 0 <= i < peers.len() && optimistic == Some(peers[i]) && (forall|j: int|
                0 <= j < i ==> optimistic != Some(#[trigger] peers[j])),
            None => forall|j: int| 0 <= j < peers.len() ==> optimistic != Some(#[trigger] peers[j]),
        },
    decreases peers.len(),
{
    if peers.len() > 0 {
        let shorter = peers.drop_last();
        lemma_old_optimistic(shorter, optimistic);
        assert forall|j: int| 0 <= j < shorter.len() implies shorter[j] == peers[j] by {}
    }
}

/// The optimistic turn tells two peers at most: the one that was chosen before hears that it is
/// choked, where it is still there; and the one that is chosen now hears that it is unchoked.
pub proof fn law_optimistic_turn_swaps_two_peers(
    peers: Seq<PeerAddress>,
    optimistic: Option<PeerAddress>,
    chosen: Option<usize>,
    i: usize,
)
    requires
        peers.len() <= usize::MAX,
    ensures
        ({
            let notices = optimistic_notices(peers, optimistic, chosen);
            let unchoke = Notice { peer: chosen->0, message: ClientMessage::Unchoke };
            &&& i < peers.len() && optimistic == Some(peers[i as int]) && (forall|j: int|
                0 <= j < i ==> optimistic != Some(#[trigger] peers[j])) ==> {
                &&& notices.len() == if chosen is Some {
                    2int
                } else {
                    1int
                }
                &&& notices[0] == (Notice { peer: i, message: ClientMessage::Choke })
                &&& chosen is Some ==> notices[1] == unchoke
            }
            &&& (forall|j: int| 0 <= j < peers.len() ==> optimistic != Some(#[trigger] peers[j]))
                ==> {
                &&& notices.len() == if chosen is Some {
                    1int
                } else {
                    0int
                }
                &&& chosen is Some ==> notices[0] == unchoke
            }
        }),
{
    lemma_old_optimistic(peers, optimistic);
}

/// After the regular turn the faster of two peers stands first, and of two that are as fast the one
/// that stood behind. Where an address stands several times, the last rate counts.
pub proof fn law_faster_peers_stand_first(
    before: Torrent,
    statuses: Seq<PeerStatus>,
    after: Torrent,
    unchokes: Unchokes,
    k: int,
    l: int,
    last_k: int,
    last_l: int,
)
    requires
        regularly_unchoked(before, statuses, after, unchokes),
        0 <= k < l < unchokes.order@.len(),
        stands_last(before.peers@, unchokes.order@[k] as int, last_k),
        stands_last(before.peers@, unchokes.order@[l] as int, last_l),
    ensures
        statuses[last_k].download_rate >= statuses[last_l].download_rate,
        statuses[last_k].download_rate == statuses[last_l].download_rate ==> unchokes.order@[k]
            > unchokes.order@[l],
{
    let peers = before.peers@;
    let i = unchokes.order@[k] as int;
    let j = unchokes.order@[l] as int;
    lemma_last_place(peers, peers[i], last_k);
    lemma_last_place(peers, peers[j], last_l);
    assert(ranks_before(rates(peers, statuses), i, j));
}

/// The regular turn keeps every peer: each stands at one place, and the torrent is otherwise as it
/// was.
pub proof fn law_regular_turn_keeps_the_peers(
    before: Torrent,
    statuses: Seq<PeerStatus>,
    after: Torrent,
    unchokes: Unchokes,
    i: usize,
)
    requires
        regularly_unchoked(before, statuses, after, unchokes),
    ensures
        unchokes.order@.len() == before.peers@.len(),
        after.peers@.len() == before.peers@.len(),
        forall|k: int|
            0 <= k < before.peers@.len() ==> (#[trigger] unchokes.order@[k]) < before.peers@.len()
                && after.peers@[k] == before.peers@[unchokes.order@[k] as int],
        i < before.peers@.len() ==> unchokes.order@.contains(i),
        after.optimistic_unchoke_peer == before.optimistic_unchoke_peer,
        after.blocks_to_download@ == before.blocks_to_download@,
        after.downloaded_pieces@ == before.downloaded_pieces@,
{
    if i < before.peers@.len() {
        law_ranking_lists_every_place(rates(before.peers@, statuses), unchokes.order@, i);
    }
}

/// Number of the peers before place `q` that are interested, the one at the address `optimistic`
/// not counted.
pub open spec fn served_before(
    peers: Seq<PeerAddress>,
    interested: Seq<bool>,
    optimistic: Option<PeerAddress>,
    q: int,
) -> int
    decreases q,
{
    if q <= 0 {
        0
    } else {
        served_before(peers, interested, optimistic, q - 1) + if interested[q - 1] && optimistic
            != Some(peers[q - 1]) {
            1int
        } else {
            0int
        }
    }
}

proof fn lemma_served_before_grows(
    peers: Seq<PeerAddress>,
    interested: Seq<bool>,
    optimistic: Option<PeerAddress>,
    p: int,
    q: int,
)
    requires
        0 <= p <= q,
    ensures
        0 <= served_before(peers, interested, optimistic, p) <= served_before(
            peers,
            interested,
            optimistic,
            q,
        ),
    decreases q,
{
    if p < q {
        lemma_served_before_grows(peers, interested, optimistic, p, q - 1);
    } else if p > 0 {
        lemma_served_before_grows(peers, interested, optimistic, p - 1, p - 1);
    }
}

proof fn lemma_unchoked_places(
    peers: Seq<PeerAddress>,
    interested: Seq<bool>,
    optimistic: Option<PeerAddress>,
    from: int,
    count: nat,
    q: int,
)
    requires
        0 <= from <= peers.len(),
        count == served_before(peers, interested, optimistic, from),
    ensures
        ({
            let places = unchoked_places(peers, interested, optimistic, from, count);
            &&& places.contains(q) <==> from <= q < peers.len() && optimistic != Some(peers[q])
                && served_before(peers, interested, optimistic, q) < 3
            &&& forall|k: int|
                0 <= k < places.len() ==> from <= (#[trigger] places[k]) < peers.len()
            &&& forall|k: int, l: int|
                0 <= k < l < places.len() ==> (#[trigger] places[k]) < (#[trigger] places[l])
        }),
    decreases peers.len() - from,
{
    let places = unchoked_places(peers, interested, optimistic, from, count);
    if from < peers.len() {
        if from <= q {
            lemma_served_before_grows(peers, interested, optimistic, from, q);
        }
        if optimistic == Some(peers[from]) {
            lemma_unchoked_places(peers, interested, optimistic, from + 1, count, q);
        } else if count < 3 {
            let next = if interested[from] {
                count + 1
            } else {
                count
            };
            lemma_unchoked_places(peers, interested, optimistic, from + 1, next, q);
            let rest = unchoked_places(peers, interested, optimistic, from + 1, next);
            assert(places =~= seq![from] + rest);
            if rest.contains(q) {
                assert(places[rest.index_of(q) + 1] == q);
            }
            if q == from {
                assert(places[0] == q);
            }
            if places.contains(q) && q != from {
                let k = places.index_of(q);
                assert(rest[k - 1] == q);
            }
            assert forall|k: int, l: int| 0 <= k < l < places.len() implies (#[trigger] places[k])
                < (#[trigger] places[l]) by {
                assert(places[l] == rest[l - 1]);
                if k > 0 {
                    assert(places[k] == rest[k - 1]);
                }
            }
        }
    }
}

/// The regular turn unchokes a peer exactly when fewer than three interested peers stand before it,
/// the optimistically unchoked one neither counted nor told. The peers are told in their new order,
/// each once, and nothing else is told.
pub proof fn law_regular_turn_unchokes_the_best(
    before: Torrent,
    statuses: Seq<PeerStatus>,
    after: Torrent,
    unchokes: Unchokes,
    q: usize,
)
    requires
        regularly_unchoked(before, statuses, after, unchokes),
        statuses.len() == before.peers@.len(),
    ensures
        unchokes.notices@.contains(Notice { peer: q, message: ClientMessage::Unchoke }) <==> {
            &&& q < after.peers@.len()
            &&& before.optimistic_unchoke_peer != Some(after.peers@[q as int])
            &&& served_before(
                after.peers@,
                Seq::new(
                    statuses.len(),
                    |i: int| statuses[unchokes.order@[i] as int].peer_interested,
                ),
                before.optimistic_unchoke_peer,
                q as int,
            ) < 3
        },
        forall|k: int|
            0 <= k < unchokes.notices@.len() ==> (#[trigger] unchokes.notices@[k]).message
                is Unchoke && unchokes.notices@[k].peer < after.peers@.len(),
        forall|k: int, l: int|
            0 <= k < l < unchokes.notices@.len() ==> (#[trigger] unchokes.notices@[k]).peer < (
            #[trigger] unchokes.notices@[l]).peer,
{
    let interested = Seq::new(
        statuses.len(),
        |i: int| statuses[unchokes.order@[i] as int].peer_interested,
    );
    let places = unchoked_places(
        after.peers@,
        interested,
        before.optimistic_unchoke_peer,
        0,
        0,
    );
    let notices = unchokes.notices@;
    let notice = Notice { peer: q, message: ClientMessage::Unchoke };
    assert(after.peers@.len() == after.peers.len());
    lemma_unchoked_places(
        after.peers@,
        interested,
        before.optimistic_unchoke_peer,
        0,
        0,
        q as int,
    );
    assert(notices.len() == places.len());
    assert forall|k: int| 0 <= k < notices.len() implies (#[trigger] notices[k]).message is Unchoke
        && notices[k].peer == places[k] by {}
    if notices.contains(notice) {
        let k = notices.index_of(notice);
        assert(places[k] == q);
    }
    if places.contains(q as int) {
        let k = places.index_of(q as int);
        assert(notices[k] == notice);
    }
}

} // verus!
