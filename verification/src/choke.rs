//! Whom this client uploads to: the fastest interested peers, and one at random.
use crate::address::PeerAddress;
use crate::client_message::{ClientMessage, Notice};
use crate::constants::MAX_DOWNLOADERS;
use crate::torrent::Torrent;
use rand::seq::IteratorRandom;
use vstd::prelude::*;
use vstd::seq_lib::seq_to_set_is_finite;
use vstd::set_lib::{lemma_int_range, lemma_subset_equality, set_int_range};

verus! {

/// What the choice depends on, for one peer.
#[derive(Debug, Clone, Copy, PartialEq, Eq, Structural)]
pub struct PeerStatus {
    pub download_rate: u32,
    pub am_choking: bool,
    pub peer_interested: bool,
}

/// `rand::seq::IteratorRandom::choose` on the range from 0 up to `n` with the thread's generator:
/// a number of the range, and none exactly where the range is empty. Which number it is, is left
/// to chance.
#[verifier::external_body]
fn choose_below(n: usize) -> (chosen: Option<usize>)
    ensures
        chosen is None <==> n == 0,
        chosen matches Some(k) ==> k < n,
{
    (0..n).choose(&mut rand::thread_rng())
}

/// The last place at which `address` stands.
pub open spec fn last_place(peers: Seq<PeerAddress>, address: PeerAddress) -> int
    decreases peers.len(),
{
    if peers.len() == 0 || peers.last() == address {
        peers.len() - 1
    } else {
        last_place(peers.drop_last(), address)
    }
}

/// The status that counts for the peer at place `i`: that of the last peer with its address.
pub open spec fn status_of(peers: Seq<PeerAddress>, statuses: Seq<PeerStatus>, i: int) -> PeerStatus {
    statuses[last_place(peers, peers[i])]
}

/// The rates by which the peers are ranked.
pub open spec fn rates(peers: Seq<PeerAddress>, statuses: Seq<PeerStatus>) -> Seq<u32> {
    Seq::new(peers.len(), |i: int| status_of(peers, statuses, i).download_rate)
}

/// Whether the peer at place `i` ranks before the one at place `j`: it is faster, or as fast and
/// stood behind it.
pub open spec fn ranks_before(rates: Seq<u32>, i: int, j: int) -> bool {
    rates[i] > rates[j] || (rates[i] == rates[j] && i > j)
}

/// Whether `order` lists every place once, the best first.
pub open spec fn is_ranking(rates: Seq<u32>, order: Seq<usize>) -> bool {
    &&& order.len() == rates.len()
    &&& forall|k: int| 0 <= k < order.len() ==> (#[trigger] order[k]) < rates.len()
    &&& forall|k: int, l: int|
        0 <= k < l < order.len() ==> ranks_before(
            rates,
            (#[trigger] order[k]) as int,
            (#[trigger] order[l]) as int,
        )
}

/// The places of the peers, from `from` on, that are unchoked when `count` interested ones have
/// been unchoked before: one after the other until enough of them are interested. The
/// optimistically unchoked peer is left out.
pub open spec fn unchoked_places(
    peers: Seq<PeerAddress>,
    interested: Seq<bool>,
    optimistic: Option<PeerAddress>,
    from: int,
    count: nat,
) -> Seq<int>
    decreases peers.len() - from,
{
    if from < 0 || from >= peers.len() {
        Seq::empty()
    } else if optimistic == Some(peers[from]) {
        unchoked_places(peers, interested, optimistic, from + 1, count)
    } else if count >= MAX_DOWNLOADERS {
        Seq::empty()
    } else {
        seq![from] + unchoked_places(
            peers,
            interested,
            optimistic,
            from + 1,
            if interested[from] {
                count + 1
            } else {
                count
            },
        )
    }
}

/// A message of the same kind for the peers at `places`.
pub open spec fn notices_for(places: Seq<int>, message: ClientMessage) -> Seq<Notice> {
    Seq::new(places.len(), |k: int| Notice { peer: places[k] as usize, message })
}

/// The rate that counts for the peer at place `i`.
fn find_status(peers: &Vec<PeerAddress>, statuses: &Vec<PeerStatus>, i: usize) -> (status:
    PeerStatus)
    requires
        i < peers@.len(),
        statuses@.len() == peers@.len(),
    ensures
        status == status_of(peers@, statuses@, i as int),
{
    let address: PeerAddress = peers[i];
    let mut j: usize = peers.len();
    assert(peers@.take(j as int) =~= peers@);
    while j > 0
        invariant
            i < j <= peers@.len(),
            statuses@.len() == peers@.len(),
            address == peers@[i as int],
            last_place(peers@.take(j as int), address) == last_place(peers@, address),
        decreases j,
    {
        assert(peers@.take(j as int).drop_last() =~= peers@.take(j - 1));
        if peers[j - 1] == address {
            return statuses[j - 1];
        }
        j = j - 1;
    }
    statuses[i]
}

/// Ranks the peers.
fn rank(peers: &Vec<PeerAddress>, statuses: &Vec<PeerStatus>) -> (order: Vec<usize>)
    requires
        statuses@.len() == peers@.len(),
    ensures
        is_ranking(rates(peers@, statuses@), order@),
{
    let ghost all = rates(peers@, statuses@);
    let n: usize = peers.len();
    let mut order: Vec<usize> = Vec::new();
    let mut i: usize = 0;
    while i < n
        invariant
            i <= n == peers@.len() == statuses@.len(),
            all == rates(peers@, statuses@),
            order@.len() == i,
            forall|k: int| 0 <= k < order@.len() ==> (#[trigger] order@[k]) < i,
            forall|k: int, l: int|
                0 <= k < l < order@.len() ==> ranks_before(
                    all,
                    (#[trigger] order@[k]) as int,
                    (#[trigger] order@[l]) as int,
                ),
        decreases n - i,
    {
        let rate: u32 = find_status(peers, statuses, i).download_rate;
        assert(rate == all[i as int]);
        let mut at: usize = 0;
        while at < order.len() && find_status(peers, statuses, order[at]).download_rate > rate
            invariant
                at <= order@.len() == i,
                i < n == peers@.len() == statuses@.len(),
                all == rates(peers@, statuses@),
                rate == all[i as int],
                forall|k: int| 0 <= k < order@.len() ==> (#[trigger] order@[k]) < i,
                forall|k: int| 0 <= k < at ==> all[(#[trigger] order@[k]) as int] > rate,
            decreases order@.len() - at,
        {
            at = at + 1;
        }
        let ghost before = order@;
        order.insert(at, i);
        proof {
            assert forall|k: int| 0 <= k < order@.len() implies (#[trigger] order@[k]) < i + 1 by {
                if k < at {
                    assert(order@[k] == before[k]);
                } else if k > at {
                    assert(order@[k] == before[k - 1]);
                }
            }
            assert forall|k: int, l: int| 0 <= k < l < order@.len() implies ranks_before(
                all,
                (#[trigger] order@[k]) as int,
                (#[trigger] order@[l]) as int,
            ) by {
                if k < at {
                    assert(order@[k] == before[k]);
                    if l > at {
                        assert(order@[l] == before[l - 1]);
                    }
                } else if k == at {
                    assert(order@[l] == before[l - 1]);
                    if l - 1 > at {
                        assert(ranks_before(all, before[at as int] as int, before[l - 1] as int));
                    }
                } else {
                    assert(order@[k] == before[k - 1]);
                    assert(order@[l] == before[l - 1]);
                }
            }
        }
        i = i + 1;
    }
    order
}

/// What the regular turn decides.
#[derive(Debug)]
pub struct Unchokes {
    /// For each place the place at which the peer stood before.
    pub order: Vec<usize>,
    /// Messages for peers, by their new places.
    pub notices: Vec<Notice>,
}

/// Whether `after` and `unchokes` are what the regular turn makes of `before`: the peers stand in
/// the order of their ranks, and the best of them are unchoked.
pub open spec fn regularly_unchoked(
    before: Torrent,
    statuses: Seq<PeerStatus>,
    after: Torrent,
    unchokes: Unchokes,
) -> bool {
    &&& is_ranking(rates(before.peers@, statuses), unchokes.order@)
    &&& after.peers@ == Seq::new(
        before.peers@.len(),
        |i: int| before.peers@[unchokes.order@[i] as int],
    )
    &&& after == (Torrent { peers: after.peers, ..before })
    &&& unchokes.notices@ == notices_for(
        unchoked_places(
            after.peers@,
            Seq::new(
                statuses.len(),
                |i: int| statuses[unchokes.order@[i] as int].peer_interested,
            ),
            before.optimistic_unchoke_peer,
            0,
            0,
        ),
        ClientMessage::Unchoke,
    )
}

impl Torrent {
    /// The regular turn: sorts the peers, the fastest first, and unchokes them one after the other
    /// until enough interested ones are unchoked. The optimistically unchoked peer is left alone.
    /// `statuses` has the status of each peer.
    pub fn regular_unchoke(&mut self, statuses: &Vec<PeerStatus>) -> (unchokes: Unchokes)
        requires
            statuses@.len() == old(self).peers@.len(),
        ensures
            regularly_unchoked(*old(self), statuses@, *final(self), unchokes),
    {
        let order: Vec<usize> = rank(&self.peers, statuses);
        let n: usize = order.len();
        let mut peers: Vec<PeerAddress> = Vec::new();
        let mut i: usize = 0;
        while i < n
            invariant
                i <= n == order@.len() == self.peers@.len(),
                self == old(self),
                is_ranking(rates(self.peers@, statuses@), order@),
                peers@ == Seq::new(i as nat, |k: int| self.peers@[order@[k] as int]),
            decreases n - i,
        {
            peers.push(self.peers[order[i]]);
            i = i + 1;
            assert(peers@ =~= Seq::new(i as nat, |k: int| self.peers@[order@[k] as int]));
        }
        self.peers = peers;
        let ghost interested = Seq::new(
            statuses@.len(),
            |k: int| statuses@[order@[k] as int].peer_interested,
        );
        let ghost optimistic = self.optimistic_unchoke_peer;
        let ghost all = unchoked_places(self.peers@, interested, optimistic, 0, 0);
        let mut notices: Vec<Notice> = Vec::new();
        let mut count: u32 = 0;
        let mut i: usize = 0;
        let ghost mut done = Seq::<int>::empty();
        assert(done + all =~= all);
        assert(notices@ =~= notices_for(done, ClientMessage::Unchoke));
        while i < n
            invariant_except_break
                done + unchoked_places(self.peers@, interested, optimistic, i as int, count as nat)
                    == all,
            invariant
                i <= n == order@.len() == self.peers@.len() == statuses@.len(),
                count <= MAX_DOWNLOADERS,
                forall|k: int| 0 <= k < order@.len() ==> (#[trigger] order@[k]) < n,
                interested == Seq::new(
                    statuses@.len(),
                    |k: int| statuses@[order@[k] as int].peer_interested,
                ),
                optimistic == self.optimistic_unchoke_peer,
                notices@ == notices_for(done, ClientMessage::Unchoke),
            ensures
                done == all,
            decreases n - i,
        {
            let skip: bool = match self.optimistic_unchoke_peer {
                Some(address) => address == self.peers[i],
                None => false,
            };
            if !skip {
                if count >= MAX_DOWNLOADERS {
                    assert(done + Seq::<int>::empty() =~= done);
                    break;
                }
                notices.push(Notice { peer: i, message: ClientMessage::Unchoke });
                if statuses[order[i]].peer_interested {
                    count = count + 1;
                }
                proof {
                    let more = unchoked_places(
                        self.peers@,
                        interested,
                        optimistic,
                        i + 1,
                        count as nat,
                    );
                    assert(done.push(i as int) + more =~= done + (seq![i as int] + more));
                    done = done.push(i as int);
                    assert(notices@ =~= notices_for(done, ClientMessage::Unchoke));
                }
            }
            i = i + 1;
            proof {
                if i == n {
                    assert(done + Seq::<int>::empty() =~= done);
                }
            }
        }
        Unchokes { order, notices }
    }

    /// A peer has become interested: it may have been unchoked while it was not, and counts now,
    /// so the regular turn is taken at once.
    pub fn interested_peer(&mut self, statuses: &Vec<PeerStatus>) -> (unchokes: Unchokes)
        requires
            statuses@.len() == old(self).peers@.len(),
        ensures
            regularly_unchoked(*old(self), statuses@, *final(self), unchokes),
    {
        self.regular_unchoke(statuses)
    }
}

/// The peer that was optimistically unchoked, where it is still there.
pub open spec fn old_optimistic(peers: Seq<PeerAddress>, optimistic: Option<PeerAddress>) -> Option<
    int,
>
    decreases peers.len(),
{
    if peers.len() == 0 {
        None
    } else {
        match old_optimistic(peers.drop_last(), optimistic) {
            Some(i) => Some(i),
            None => if optimistic == Some(peers.last()) {
                Some(peers.len() - 1)
            } else {
                None
            },
        }
    }
}

/// Whether the peer at place `i` can be unchoked optimistically: it is choked and is not the one
/// that was before.
pub open spec fn is_candidate(
    peers: Seq<PeerAddress>,
    statuses: Seq<PeerStatus>,
    optimistic: Option<PeerAddress>,
    i: int,
) -> bool {
    optimistic != Some(peers[i]) && status_of(peers, statuses, i).am_choking
}

/// The places before `end` of the peers that can be unchoked optimistically.
pub open spec fn candidates(
    peers: Seq<PeerAddress>,
    statuses: Seq<PeerStatus>,
    optimistic: Option<PeerAddress>,
    end: int,
) -> Seq<usize>
    decreases end,
{
    if end <= 0 {
        Seq::empty()
    } else {
        let before = candidates(peers, statuses, optimistic, end - 1);
        if is_candidate(peers, statuses, optimistic, end - 1) {
            before.push((end - 1) as usize)
        } else {
            before
        }
    }
}

/// What the optimistic turn tells the peers when the peer at place `chosen` is unchoked.
pub open spec fn optimistic_notices(
    peers: Seq<PeerAddress>,
    optimistic: Option<PeerAddress>,
    chosen: Option<usize>,
) -> Seq<Notice> {
    let choke = match old_optimistic(peers, optimistic) {
        Some(i) => seq![Notice { peer: i as usize, message: ClientMessage::Choke }],
        None => Seq::empty(),
    };
    let unchoke = match chosen {
        Some(i) => seq![Notice { peer: i, message: ClientMessage::Unchoke }],
        None => Seq::empty(),
    };
    choke + unchoke
}

/// The peers that can be unchoked optimistically are those listed.
pub proof fn law_candidates_are_listed(
    peers: Seq<PeerAddress>,
    statuses: Seq<PeerStatus>,
    optimistic: Option<PeerAddress>,
    end: int,
    i: usize,
)
    requires
        0 <= end <= usize::MAX,
    ensures
        candidates(peers, statuses, optimistic, end).contains(i) <==> i < end && is_candidate(
            peers,
            statuses,
            optimistic,
            i as int,
        ),
    decreases end,
{
    let all = candidates(peers, statuses, optimistic, end);
    if end > 0 {
        let before = candidates(peers, statuses, optimistic, end - 1);
        law_candidates_are_listed(peers, statuses, optimistic, end - 1, i);
        if is_candidate(peers, statuses, optimistic, end - 1) {
            assert(all[before.len() as int] == end - 1);
            if before.contains(i) {
                let k = before.index_of(i);
                assert(all[k] == i);
            }
            if all.contains(i) && i != end - 1 {
                let k = all.index_of(i);
                assert(before[k] == i);
            }
        }
    }
}

impl Torrent {
    /// The places of the peers that can be unchoked optimistically.
    pub fn optimistic_candidates(&self, statuses: &Vec<PeerStatus>) -> (places: Vec<usize>)
        requires
            statuses@.len() == self.peers@.len(),
        ensures
            places@ == candidates(
                self.peers@,
                statuses@,
                self.optimistic_unchoke_peer,
                self.peers@.len() as int,
            ),
    {
        let n: usize = self.peers.len();
        let mut places: Vec<usize> = Vec::new();
        let mut i: usize = 0;
        while i < n
            invariant
                i <= n == self.peers@.len() == statuses@.len(),
                places@ == candidates(
                    self.peers@,
                    statuses@,
                    self.optimistic_unchoke_peer,
                    i as int,
                ),
            decreases n - i,
        {
            let was: bool = match self.optimistic_unchoke_peer {
                Some(address) => address == self.peers[i],
                None => false,
            };
            if !was && find_status(&self.peers, statuses, i).am_choking {
                places.push(i);
            }
            i = i + 1;
        }
        places
    }

    /// The place of the peer that was optimistically unchoked, where it is still there.
    fn find_old_optimistic(&self) -> (place: Option<usize>)
        ensures
            match place {
                Some(i) => old_optimistic(self.peers@, self.optimistic_unchoke_peer) == Some(
                    i as int,
                ),
                None => old_optimistic(self.peers@, self.optimistic_unchoke_peer) is None,
            },
    {
        let old_address: PeerAddress = match self.optimistic_unchoke_peer {
            Some(address) => address,
            None => {
                proof {
                    lemma_no_old_optimistic(self.peers@);
                }
                return None;
            },
        };
        let n: usize = self.peers.len();
        let mut i: usize = 0;
        while i < n
            invariant
                i <= n == self.peers@.len(),
                self.optimistic_unchoke_peer == Some(old_address),
                old_optimistic(
                    self.peers@.take(i as int),
                    self.optimistic_unchoke_peer,
                ) is None,
            decreases n - i,
        {
            assert(self.peers@.take(i + 1).drop_last() =~= self.peers@.take(i as int));
            if self.peers[i] == old_address {
                proof {
                    lemma_old_optimistic_stays(
                        self.peers@,
                        self.optimistic_unchoke_peer,
                        i + 1,
                        i as int,
                    );
                }
                return Some(i);
            }
            i = i + 1;
        }
        assert(self.peers@.take(n as int) =~= self.peers@);
        None
    }

    /// The optimistic turn, when the peer at place `chosen` is the one to unchoke: the one that
    /// was before is choked.
    pub fn optimistic_unchoke_of(&mut self, chosen: Option<usize>) -> (notices: Vec<Notice>)
        requires
            chosen matches Some(i) ==> i < old(self).peers@.len(),
        ensures
            notices@ == optimistic_notices(
                old(self).peers@,
                old(self).optimistic_unchoke_peer,
                chosen,
            ),
            *final(self) == (Torrent {
                optimistic_unchoke_peer: match chosen {
                    Some(i) => Some(old(self).peers@[i as int]),
                    None => None,
                },
                ..*old(self)
            }),
    {
        let mut notices: Vec<Notice> = Vec::new();
        match self.find_old_optimistic() {
            Some(i) => {
                notices.push(Notice { peer: i, message: ClientMessage::Choke });
            },
            None => {},
        }
        match chosen {
            Some(place) => {
                notices.push(Notice { peer: place, message: ClientMessage::Unchoke });
                self.optimistic_unchoke_peer = Some(self.peers[place]);
            },
            None => {
                self.optimistic_unchoke_peer = None;
            },
        }
        assert(notices@ =~= optimistic_notices(
            old(self).peers@,
            old(self).optimistic_unchoke_peer,
            chosen,
        ));
        notices
    }

    /// The optimistic turn: a peer that is choked is unchoked, whatever its rate, and the one that
    /// was unchoked in this way before is choked. Which peer it is, is left to chance; where none
    /// can be chosen, none is.
    pub fn optimistic_unchoke(&mut self, statuses: &Vec<PeerStatus>) -> (notices: Vec<Notice>)
        requires
            statuses@.len() == old(self).peers@.len(),
        ensures
            ({
                let places = candidates(
                    old(self).peers@,
                    statuses@,
                    old(self).optimistic_unchoke_peer,
                    old(self).peers@.len() as int,
                );
                if places.len() == 0 {
                    &&& notices@ == optimistic_notices(
                        old(self).peers@,
                        old(self).optimistic_unchoke_peer,
                        None,
                    )
                    &&& *final(self) == (Torrent { optimistic_unchoke_peer: None, ..*old(self) })
                } else {
                    exists|k: int|
                        {
                            &&& 0 <= k < places.len()
                            &&& notices@ == optimistic_notices(
                                old(self).peers@,
                                old(self).optimistic_unchoke_peer,
                                Some(#[trigger] places[k]),
                            )
                            &&& *final(self) == (Torrent {
                                optimistic_unchoke_peer: Some(old(self).peers@[places[k] as int]),
                                ..*old(self)
                            })
                        }
                }
            }),
    {
        let places: Vec<usize> = self.optimistic_candidates(statuses);
        match choose_below(places.len()) {
            Some(k) => {
                proof {
                    assert(self.peers.len() == self.peers@.len());
                    law_candidates_are_listed(
                        self.peers@,
                        statuses@,
                        self.optimistic_unchoke_peer,
                        self.peers@.len() as int,
                        places@[k as int],
                    );
                    assert(places@.contains(places@[k as int]));
                }
                self.optimistic_unchoke_of(Some(places[k]))
            },
            None => self.optimistic_unchoke_of(None),
        }
    }
}

/// The first place at which the optimistically unchoked peer stands does not depend on what
/// follows.
proof fn lemma_old_optimistic_stays(
    peers: Seq<PeerAddress>,
    optimistic: Option<PeerAddress>,
    n: int,
    i: int,
)
    requires
        0 <= n <= peers.len(),
        old_optimistic(peers.take(n), optimistic) == Some(i),
    ensures
        old_optimistic(peers, optimistic) == Some(i),
    decreases peers.len(),
{
    if n == peers.len() {
        assert(peers.take(n) =~= peers);
    } else {
        assert(peers.drop_last().take(n) =~= peers.take(n));
        lemma_old_optimistic_stays(peers.drop_last(), optimistic, n, i);
    }
}

proof fn lemma_no_old_optimistic(peers: Seq<PeerAddress>)
    ensures
        old_optimistic(peers, None) is None,
    decreases peers.len(),
{
    if peers.len() > 0 {
        lemma_no_old_optimistic(peers.drop_last());
    }
}

/// A ranking lists every place, so no peer is lost.
pub proof fn law_ranking_lists_every_place(rates: Seq<u32>, order: Seq<usize>, i: usize)
    requires
        is_ranking(rates, order),
        i < rates.len(),
    ensures
        order.contains(i),
{
    let places = order.map_values(|k: usize| k as int);
    assert forall|k: int, l: int| 0 <= k < places.len() && 0 <= l < places.len() && k
        != l implies places[k] != places[l] by {
        if k < l {
            assert(ranks_before(rates, order[k] as int, order[l] as int));
        } else {
            assert(ranks_before(rates, order[l] as int, order[k] as int));
        }
    }
    places.unique_seq_to_set();
    let range = set_int_range(0, rates.len() as int);
    lemma_int_range(0, rates.len() as int);
    assert(places.to_set().subset_of(range)) by {
        assert forall|p: int| places.to_set().contains(p) implies range.contains(p) by {
            let k = places.index_of(p);
            assert(order[k] < rates.len());
        }
    }
    seq_to_set_is_finite(places);
    lemma_subset_equality(places.to_set(), range);
    assert(range.contains(i as int));
    let k = places.index_of(i as int);
    assert(order[k] == i);
}

/// There is only one ranking of the same rates.
pub proof fn law_ranking_is_unique(rates: Seq<u32>, a: Seq<usize>, b: Seq<usize>)
    requires
        is_ranking(rates, a),
        is_ranking(rates, b),
    ensures
        a == b,
{
    assert forall|k: int| 0 <= k < a.len() implies a[k] == b[k] by {
        lemma_rankings_agree(rates, a, b, k);
    }
    assert(a =~= b);
}

proof fn lemma_rankings_agree(rates: Seq<u32>, a: Seq<usize>, b: Seq<usize>, k: int)
    requires
        is_ranking(rates, a),
        is_ranking(rates, b),
        0 <= k < a.len(),
    ensures
        a[k] == b[k],
    decreases k,
{
    assert forall|j: int| 0 <= j < k implies a[j] == b[j] by {
        lemma_rankings_agree(rates, a, b, j);
    }
    if a[k] != b[k] {
        law_ranking_lists_every_place(rates, b, a[k]);
        law_ranking_lists_every_place(rates, a, b[k]);
        let m = b.index_of(a[k]);
        let l = a.index_of(b[k]);
        if m < k {
            assert(ranks_before(rates, a[m] as int, a[k] as int));
        }
        if l < k {
            assert(ranks_before(rates, b[l] as int, b[k] as int));
        }
        assert(ranks_before(rates, b[k] as int, b[m] as int));
        assert(ranks_before(rates, a[k] as int, a[l] as int));
    }
}

/// Number of places whose peers are interested.
pub open spec fn interested_among(places: Seq<int>, interested: Seq<bool>) -> nat
    decreases places.len(),
{
    if places.len() == 0 {
        0
    } else {
        (if interested[places[0]] {
            1nat
        } else {
            0nat
        }) + interested_among(places.skip(1), interested)
    }
}

/// At most so many interested peers are unchoked in the regular turn, the optimistically unchoked
/// one not among them; and a peer that is not unchoked ranks behind every one that is, when enough
/// of these are interested.
pub proof fn law_best_peers_are_unchoked(
    peers: Seq<PeerAddress>,
    interested: Seq<bool>,
    optimistic: Option<PeerAddress>,
    from: int,
    count: nat,
    q: int,
)
    requires
        0 <= from <= peers.len(),
        count <= MAX_DOWNLOADERS,
        from <= q < peers.len(),
    ensures
        ({
            let places = unchoked_places(peers, interested, optimistic, from, count);
            &&& count + interested_among(places, interested) <= MAX_DOWNLOADERS
            &&& forall|k: int|
                0 <= k < places.len() ==> from <= (#[trigger] places[k]) < peers.len()
                    && optimistic != Some(peers[places[k]])
            &&& optimistic != Some(peers[q]) ==> places.contains(q) || (count + interested_among(
                places,
                interested,
            ) == MAX_DOWNLOADERS && forall|k: int|
                0 <= k < places.len() ==> (#[trigger] places[k]) < q)
        }),
    decreases peers.len() - from,
{
    let places = unchoked_places(peers, interested, optimistic, from, count);
    if optimistic == Some(peers[from]) {
        if q > from {
            law_best_peers_are_unchoked(peers, interested, optimistic, from + 1, count, q);
        } else if from + 1 < peers.len() {
            law_best_peers_are_unchoked(peers, interested, optimistic, from + 1, count, from + 1);
        }
    } else if count < MAX_DOWNLOADERS {
        let next = if interested[from] {
            count + 1
        } else {
            count
        };
        let rest = unchoked_places(peers, interested, optimistic, from + 1, next);
        assert(places.skip(1) =~= rest);
        assert(places[0] == from);
        if from + 1 < peers.len() {
            let r = if q > from {
                q
            } else {
                from + 1
            };
            law_best_peers_are_unchoked(peers, interested, optimistic, from + 1, next, r);
            if rest.contains(r) {
                let k = rest.index_of(r);
                assert(places[k + 1] == r);
            }
        }
        assert forall|k: int| 0 <= k < places.len() implies from <= (#[trigger] places[k])
            < peers.len() && optimistic != Some(peers[places[k]]) by {
            if k > 0 {
                assert(places[k] == rest[k - 1]);
            }
        }
        if q > from && optimistic != Some(peers[q]) && !places.contains(q) {
            assert forall|k: int| 0 <= k < places.len() implies (#[trigger] places[k]) < q by {
                if k > 0 {
                    assert(places[k] == rest[k - 1]);
                }
            }
        }
    }
}

} // verus!
