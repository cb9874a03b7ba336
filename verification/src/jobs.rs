//! The queue of blocks that nobody has been asked for, and what peers are asked for out of it.
use crate::peer_message::BlockInfo;
use vstd::multiset::Multiset;
use vstd::prelude::*;
use vstd::seq_lib::lemma_multiset_commutative;

verus! {

/// Whether a peer has the piece to which a block belongs.
pub open spec fn has_piece(availability: Seq<bool>, job: BlockInfo) -> bool {
    job.index < availability.len() && availability[job.index as int]
}

/// The first `need` blocks of `jobs` that a peer has, or all of them where there are fewer.
pub open spec fn picked(jobs: Seq<BlockInfo>, availability: Seq<bool>, need: nat) -> Seq<BlockInfo>
    decreases jobs.len(),
{
    if need == 0 || jobs.len() == 0 {
        Seq::empty()
    } else if has_piece(availability, jobs[0]) {
        seq![jobs[0]] + picked(jobs.skip(1), availability, (need - 1) as nat)
    } else {
        picked(jobs.skip(1), availability, need)
    }
}

/// What is left of `jobs` in its order when the blocks of [`picked`] are gone.
pub open spec fn passed_over(
    jobs: Seq<BlockInfo>,
    availability: Seq<bool>,
    need: nat,
) -> Seq<BlockInfo>
    decreases jobs.len(),
{
    if need == 0 || jobs.len() == 0 {
        jobs
    } else if has_piece(availability, jobs[0]) {
        passed_over(jobs.skip(1), availability, (need - 1) as nat)
    } else {
        seq![jobs[0]] + passed_over(jobs.skip(1), availability, need)
    }
}

/// Whether every block that is looked at while `need` of them are picked belongs to a piece of
/// which it is known whether the peer has it.
pub open spec fn pieces_known(
    jobs: Seq<BlockInfo>,
    availability: Seq<bool>,
    need: nat,
) -> bool
    decreases jobs.len(),
{
    if need == 0 || jobs.len() == 0 {
        true
    } else {
        &&& jobs[0].index < availability.len()
        &&& pieces_known(
            jobs.skip(1),
            availability,
            if has_piece(availability, jobs[0]) {
                (need - 1) as nat
            } else {
                need
            },
        )
    }
}

/// Takes up to `need` blocks that a peer has out of the queue.
pub fn take_jobs(jobs: &mut Vec<BlockInfo>, availability: &Vec<bool>, need: usize) -> (got: Vec<
    BlockInfo,
>)
    requires
        pieces_known(old(jobs)@, availability@, need as nat),
    ensures
        got@ == picked(old(jobs)@, availability@, need as nat),
        final(jobs)@ == passed_over(old(jobs)@, availability@, need as nat),
{
    let mut got: Vec<BlockInfo> = Vec::new();
    let mut i: usize = 0;
    let ghost mut rest = jobs@;
    assert(got@ + picked(rest, availability@, need as nat) =~= picked(
        rest,
        availability@,
        need as nat,
    ));
    assert(jobs@.take(0) + passed_over(rest, availability@, need as nat) =~= passed_over(
        rest,
        availability@,
        need as nat,
    ));
    assert(jobs@.skip(0) =~= jobs@);
    while got.len() < need && i < jobs.len()
        invariant
            got@.len() <= need,
            i <= jobs@.len(),
            rest == jobs@.skip(i as int),
            pieces_known(rest, availability@, (need - got@.len()) as nat),
            got@ + picked(rest, availability@, (need - got@.len()) as nat) == picked(
                old(jobs)@,
                availability@,
                need as nat,
            ),
            jobs@.take(i as int) + passed_over(rest, availability@, (need - got@.len()) as nat)
                == passed_over(old(jobs)@, availability@, need as nat),
        decreases jobs@.len() - i,
    {
        let ghost before = jobs@;
        let ghost had = got@;
        let job: BlockInfo = jobs[i];
        assert(rest[0] == job);
        if availability[job.index as usize] {
            let removed: BlockInfo = jobs.remove(i);
            got.push(removed);
            proof {
                assert(jobs@.skip(i as int) =~= rest.skip(1));
                assert(jobs@.take(i as int) =~= before.take(i as int));
                let more = picked(rest.skip(1), availability@, (need - got@.len()) as nat);
                assert(got@ + more =~= had + (seq![job] + more));
            }
        } else {
            i = i + 1;
            proof {
                assert(jobs@.skip(i as int) =~= rest.skip(1));
                let more = passed_over(rest.skip(1), availability@, (need - got@.len()) as nat);
                assert(jobs@.take(i as int) + more =~= before.take(i - 1) + (seq![job] + more));
            }
        }
        proof {
            rest = rest.skip(1);
        }
    }
    proof {
        assert(got@ + Seq::<BlockInfo>::empty() =~= got@);
        assert(jobs@.take(i as int) + jobs@.skip(i as int) =~= jobs@);
    }
    got
}

/// Whether `job` is among `jobs`.
pub fn contains_job(jobs: &Vec<BlockInfo>, job: BlockInfo) -> (r: bool)
    ensures
        r == jobs@.contains(job),
{
    let n: usize = jobs.len();
    let mut i: usize = 0;
    while i < n
        invariant
            i <= n == jobs@.len(),
            forall|j: int| 0 <= j < i ==> jobs@[j] != job,
        decreases n - i,
    {
        if jobs[i] == job {
            return true;
        }
        i = i + 1;
    }
    false
}

/// Where `job` first stands in `jobs`.
pub open spec fn place_of(jobs: Seq<BlockInfo>, job: BlockInfo) -> Option<int>
    decreases jobs.len(),
{
    if jobs.len() == 0 {
        None
    } else {
        match place_of(jobs.drop_last(), job) {
            Some(i) => Some(i),
            None => if jobs.last() == job {
                Some(jobs.len() - 1)
            } else {
                None
            },
        }
    }
}

/// The place of a block is the first at which it stands.
pub proof fn lemma_place_of(jobs: Seq<BlockInfo>, job: BlockInfo)
    ensures
        match place_of(jobs, job) {
            Some(i) => 0 <= i < jobs.len() && jobs[i] == job && (forall|j: int|
                0 <= j < i ==> jobs[j] != job),
            None => forall|j: int| 0 <= j < jobs.len() ==> jobs[j] != job,
        },
    decreases jobs.len(),
{
    if jobs.len() > 0 {
        let shorter = jobs.drop_last();
        lemma_place_of(shorter, job);
        assert forall|j: int| 0 <= j < shorter.len() implies shorter[j] == jobs[j] by {}
    }
}

/// `jobs` without `job` where it first stands.
pub open spec fn one_less(jobs: Seq<BlockInfo>, job: BlockInfo) -> Seq<BlockInfo> {
    match place_of(jobs, job) {
        Some(i) => jobs.remove(i),
        None => jobs,
    }
}

/// Takes `job` out of `jobs` where it first stands. Says whether it was there.
pub fn remove_job(jobs: &mut Vec<BlockInfo>, job: BlockInfo) -> (removed: bool)
    ensures
        removed == old(jobs)@.contains(job),
        final(jobs)@ == one_less(old(jobs)@, job),
{
    let n: usize = jobs.len();
    let mut i: usize = 0;
    proof {
        lemma_place_of(jobs@, job);
    }
    while i < n
        invariant
            i <= n == jobs@.len(),
            jobs@ == old(jobs)@,
            forall|j: int| 0 <= j < i ==> jobs@[j] != job,
            match place_of(jobs@, job) {
                Some(p) => 0 <= p < jobs@.len() && jobs@[p] == job && (forall|j: int|
                    0 <= j < p ==> jobs@[j] != job),
                None => forall|j: int| 0 <= j < jobs@.len() ==> jobs@[j] != job,
            },
        decreases n - i,
    {
        if jobs[i] == job {
            assert(place_of(jobs@, job) == Some(i as int));
            jobs.remove(i);
            return true;
        }
        i = i + 1;
    }
    false
}

/// Every block of the queue is afterwards either still in the queue or among those that the peer
/// is asked for, as often as it was in the queue before, and no other block is.
pub proof fn law_picking_loses_no_job(
    jobs: Seq<BlockInfo>,
    availability: Seq<bool>,
    need: nat,
)
    ensures
        picked(jobs, availability, need).to_multiset().add(
            passed_over(jobs, availability, need).to_multiset(),
        ) == jobs.to_multiset(),
    decreases jobs.len(),
{
    broadcast use vstd::seq_lib::group_to_multiset_ensures;

    let got = picked(jobs, availability, need);
    let left = passed_over(jobs, availability, need);
    if need == 0 || jobs.len() == 0 {
        assert(got.to_multiset() =~= Multiset::empty());
        assert(got.to_multiset().add(left.to_multiset()) =~= jobs.to_multiset());
    } else {
        let first = seq![jobs[0]];
        let rest = jobs.skip(1);
        assert(jobs =~= first + rest);
        lemma_multiset_commutative(first, rest);
        if has_piece(availability, jobs[0]) {
            law_picking_loses_no_job(rest, availability, (need - 1) as nat);
            lemma_multiset_commutative(first, picked(rest, availability, (need - 1) as nat));
        } else {
            law_picking_loses_no_job(rest, availability, need);
            lemma_multiset_commutative(first, passed_over(rest, availability, need));
        }
        assert(got.to_multiset().add(left.to_multiset()) =~= jobs.to_multiset());
    }
}

/// A peer is asked for no more blocks than were needed, and only for such as it has; where it is
/// asked for fewer, the queue holds none any more that it has.
pub proof fn law_picking_takes_what_the_peer_has(
    jobs: Seq<BlockInfo>,
    availability: Seq<bool>,
    need: nat,
)
    ensures
        picked(jobs, availability, need).len() <= need,
        forall|i: int|
            0 <= i < picked(jobs, availability, need).len() ==> has_piece(
                availability,
                #[trigger] picked(jobs, availability, need)[i],
            ),
        picked(jobs, availability, need).len() < need ==> forall|i: int|
            0 <= i < passed_over(jobs, availability, need).len() ==> !has_piece(
                availability,
                #[trigger] passed_over(jobs, availability, need)[i],
            ),
    decreases jobs.len(),
{
    if need > 0 && jobs.len() > 0 {
        let rest = jobs.skip(1);
        if has_piece(availability, jobs[0]) {
            let more = picked(rest, availability, (need - 1) as nat);
            law_picking_takes_what_the_peer_has(rest, availability, (need - 1) as nat);
            assert(picked(jobs, availability, need).len() == 1 + more.len());
            assert(passed_over(jobs, availability, need) == passed_over(
                rest,
                availability,
                (need - 1) as nat,
            ));
            assert forall|i: int|
                0 <= i < picked(jobs, availability, need).len() implies has_piece(
                availability,
                #[trigger] picked(jobs, availability, need)[i],
            ) by {
                if i > 0 {
                    assert(picked(jobs, availability, need)[i] == more[i - 1]);
                }
            }
        } else {
            let more = passed_over(rest, availability, need);
            law_picking_takes_what_the_peer_has(rest, availability, need);
            assert forall|i: int|
                0 <= i < passed_over(jobs, availability, need).len() && picked(
                    jobs,
                    availability,
                    need,
                ).len() < need implies !has_piece(
                availability,
                #[trigger] passed_over(jobs, availability, need)[i],
            ) by {
                if i > 0 {
                    assert(passed_over(jobs, availability, need)[i] == more[i - 1]);
                }
            }
        }
    }
}

/// Where every block belongs to a known piece, nothing unknown is looked at.
pub proof fn lemma_pieces_known(jobs: Seq<BlockInfo>, availability: Seq<bool>, need: nat)
    requires
        forall|i: int| 0 <= i < jobs.len() ==> (#[trigger] jobs[i]).index < availability.len(),
    ensures
        pieces_known(jobs, availability, need),
    decreases jobs.len(),
{
    if need > 0 && jobs.len() > 0 {
        let rest = jobs.skip(1);
        assert forall|i: int| 0 <= i < rest.len() implies (#[trigger] rest[i]).index
            < availability.len() by {
            assert(rest[i] == jobs[i + 1]);
        }
        lemma_pieces_known(
            rest,
            availability,
            if has_piece(availability, jobs[0]) {
                (need - 1) as nat
            } else {
                need
            },
        );
    }
}

/// Whether every block that is looked at while `need` of them are picked belongs to a known
/// piece.
pub fn check_pieces_known(jobs: &Vec<BlockInfo>, availability: &Vec<bool>, need: usize) -> (r: bool)
    ensures
        r == pieces_known(jobs@, availability@, need as nat),
{
    let mut wanted: usize = need;
    let mut i: usize = 0;
    assert(jobs@.skip(0) =~= jobs@);
    while wanted > 0 && i < jobs.len()
        invariant
            i <= jobs@.len(),
            pieces_known(jobs@.skip(i as int), availability@, wanted as nat) == pieces_known(
                jobs@,
                availability@,
                need as nat,
            ),
        decreases jobs@.len() - i,
    {
        let job: BlockInfo = jobs[i];
        assert(jobs@.skip(i as int).skip(1) =~= jobs@.skip(i + 1));
        assert(jobs@.skip(i as int)[0] == job);
        if job.index as usize >= availability.len() {
            return false;
        }
        if availability[job.index as usize] {
            wanted = wanted - 1;
        }
        i = i + 1;
    }
    true
}

/// Appends `more` to `jobs`.
pub fn push_jobs(jobs: &mut Vec<BlockInfo>, more: &Vec<BlockInfo>)
    ensures
        final(jobs)@ == old(jobs)@ + more@,
{
    let n: usize = more.len();
    let mut i: usize = 0;
    assert(jobs@ =~= old(jobs)@ + more@.take(0));
    while i < n
        invariant
            i <= n == more@.len(),
            jobs@ == old(jobs)@ + more@.take(i as int),
        decreases n - i,
    {
        jobs.push(more[i]);
        i = i + 1;
        assert(jobs@ =~= old(jobs)@ + more@.take(i as int));
    }
    assert(more@.take(n as int) =~= more@);
}

/// When a peer is asked for blocks out of the queue, every block that was requested or queued
/// stays so, as often as before, and the peer is asked for no more than there is room for.
pub proof fn law_asking_loses_no_job(
    requested: Seq<BlockInfo>,
    queue: Seq<BlockInfo>,
    availability: Seq<bool>,
    room: nat,
)
    ensures
        (requested + picked(queue, availability, room)).to_multiset().add(
            passed_over(queue, availability, room).to_multiset(),
        ) == requested.to_multiset().add(queue.to_multiset()),
        (requested + picked(queue, availability, room)).len() <= requested.len() + room,
{
    let got = picked(queue, availability, room);
    law_picking_loses_no_job(queue, availability, room);
    law_picking_takes_what_the_peer_has(queue, availability, room);
    lemma_multiset_commutative(requested, got);
    assert((requested + got).to_multiset().add(
        passed_over(queue, availability, room).to_multiset(),
    ) =~= requested.to_multiset().add(queue.to_multiset()));
}

/// When a block that a peer was asked for is given back to the queue, every block that was
/// requested or queued stays so, as often as before.
pub proof fn law_giving_back_loses_no_job(
    requested: Seq<BlockInfo>,
    queue: Seq<BlockInfo>,
    job: BlockInfo,
)
    requires
        requested.contains(job),
    ensures
        one_less(requested, job).to_multiset().add(queue.push(job).to_multiset())
            == requested.to_multiset().add(queue.to_multiset()),
        one_less(requested, job).len() == requested.len() - 1,
{
    broadcast use vstd::seq_lib::group_to_multiset_ensures;

    lemma_place_of(requested, job);
    let at = place_of(requested, job)->0;
    assert(place_of(requested, job) is Some) by {
        let k = requested.index_of(job);
        assert(requested[k] == job);
    }
    assert(requested.to_multiset().count(job) > 0);
    assert(one_less(requested, job).to_multiset() =~= requested.to_multiset().remove(job));
    assert(one_less(requested, job).to_multiset().add(queue.push(job).to_multiset())
        =~= requested.to_multiset().add(queue.to_multiset()));
}

} // verus!
