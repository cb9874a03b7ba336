//! What the handing out of blocks comes to, said of the queue as a whole.
use crate::jobs::{
    has_piece, lemma_place_of, one_less, passed_over, picked, pieces_known, place_of,
};
use crate::peer_message::BlockInfo;
use vstd::prelude::*;

verus! {

/// The blocks of `jobs` whose piece is marked in `availability`.
pub open spec fn on_offer(jobs: Seq<BlockInfo>, availability: Seq<bool>) -> Seq<BlockInfo> {
    jobs.filter(|job: BlockInfo| job.index < availability.len() && availability[job.index as int])
}

/// The other blocks of `jobs`.
pub open spec fn not_on_offer(jobs: Seq<BlockInfo>, availability: Seq<bool>) -> Seq<BlockInfo> {
    jobs.filter(
        |job: BlockInfo| !(job.index < availability.len() && availability[job.index as int]),
    )
}

/// The first block is among those on offer or among the others, before all that follow.
proof fn lemma_first_job(jobs: Seq<BlockInfo>, availability: Seq<bool>)
    requires
        jobs.len() > 0,
    ensures
        jobs[0].index < availability.len() && availability[jobs[0].index as int] ==> {
            &&& on_offer(jobs, availability) == seq![jobs[0]] + on_offer(jobs.skip(1), availability)
            &&& not_on_offer(jobs, availability) == not_on_offer(jobs.skip(1), availability)
        },
        !(jobs[0].index < availability.len() && availability[jobs[0].index as int]) ==> {
            &&& on_offer(jobs, availability) == on_offer(jobs.skip(1), availability)
            &&& not_on_offer(jobs, availability) == seq![jobs[0]] + not_on_offer(
                jobs.skip(1),
                availability,
            )
        },
{
    let offered = |job: BlockInfo|
        job.index < availability.len() && availability[job.index as int];
    let not_offered = |job: BlockInfo|
        !(job.index < availability.len() && availability[job.index as int]);
    let first = seq![jobs[0]];
    assert(jobs =~= first + jobs.skip(1));
    Seq::filter_distributes_over_add(first, jobs.skip(1), offered);
    Seq::filter_distributes_over_add(first, jobs.skip(1), not_offered);
    reveal(Seq::filter);
    assert(first.drop_last() =~= Seq::<BlockInfo>::empty());
    assert(first.drop_last().filter(offered) =~= Seq::<BlockInfo>::empty());
    assert(first.drop_last().filter(not_offered) =~= Seq::<BlockInfo>::empty());
    assert(first.last() == jobs[0]);
    if offered(jobs[0]) {
        assert(first.filter(offered) =~= first);
        assert(first.filter(not_offered) =~= Seq::<BlockInfo>::empty());
    } else {
        assert(first.filter(offered) =~= Seq::<BlockInfo>::empty());
        assert(first.filter(not_offered) =~= first);
    }
    assert(Seq::<BlockInfo>::empty() + jobs.skip(1).filter(offered) =~= jobs.skip(1).filter(
        offered,
    ));
    assert(Seq::<BlockInfo>::empty() + jobs.skip(1).filter(not_offered) =~= jobs.skip(1).filter(
        not_offered,
    ));
}

/// The queue is looked through from its start up to some place: the blocks on offer before that
/// place are taken, in their order, and everything else stays, in its order. No more than `need`
/// are taken, and fewer only where the whole queue was looked through.
pub proof fn law_queue_is_looked_through(
    jobs: Seq<BlockInfo>,
    availability: Seq<bool>,
    need: nat,
) -> (end: int)
    ensures
        0 <= end <= jobs.len(),
        picked(jobs, availability, need) == on_offer(jobs.take(end), availability),
        passed_over(jobs, availability, need) == not_on_offer(jobs.take(end), availability)
            + jobs.skip(end),
        on_offer(jobs.take(end), availability).len() <= need,
        on_offer(jobs.take(end), availability).len() < need ==> end == jobs.len(),
    decreases jobs.len(),
{
    if need == 0 || jobs.len() == 0 {
        assert(jobs.take(0) =~= Seq::<BlockInfo>::empty());
        reveal(Seq::filter);
        assert(on_offer(jobs.take(0), availability) =~= Seq::<BlockInfo>::empty());
        assert(not_on_offer(jobs.take(0), availability) =~= Seq::<BlockInfo>::empty());
        assert(Seq::<BlockInfo>::empty() + jobs.skip(0) =~= jobs);
        0
    } else {
        let rest = jobs.skip(1);
        let offered = jobs[0].index < availability.len() && availability[jobs[0].index as int];
        let less = if offered {
            (need - 1) as nat
        } else {
            need
        };
        let end = law_queue_is_looked_through(rest, availability, less);
        let seen = jobs.take(end + 1);
        lemma_first_job(seen, availability);
        assert(seen[0] == jobs[0]);
        assert(seen.skip(1) =~= rest.take(end));
        assert(jobs.skip(end + 1) =~= rest.skip(end));
        assert(has_piece(availability, jobs[0]) == offered);
        if !offered {
            assert(passed_over(jobs, availability, need) =~= not_on_offer(seen, availability)
                + jobs.skip(end + 1));
        }
        end + 1
    }
}

/// A queue can be looked through exactly when each of its blocks is of a known piece, except for
/// those behind `need` blocks on offer, which are not looked at.
pub proof fn law_unknown_pieces_are_not_looked_at(
    jobs: Seq<BlockInfo>,
    availability: Seq<bool>,
    need: nat,
)
    ensures
        pieces_known(jobs, availability, need) <==> (forall|i: int|
            #![trigger jobs[i]]
            0 <= i < jobs.len() && jobs[i].index >= availability.len() ==> on_offer(
                jobs.take(i),
                availability,
            ).len() >= need),
    decreases jobs.len(),
{
    if need > 0 && jobs.len() > 0 {
        let rest = jobs.skip(1);
        let offered = jobs[0].index < availability.len() && availability[jobs[0].index as int];
        let less = if offered {
            (need - 1) as nat
        } else {
            need
        };
        law_unknown_pieces_are_not_looked_at(rest, availability, less);
        assert(has_piece(availability, jobs[0]) == offered);
        assert forall|i: int| 0 <= i < rest.len() implies on_offer(
            #[trigger] rest.take(i),
            availability,
        ).len() + (need - less) == on_offer(jobs.take(i + 1), availability).len() by {
            let seen = jobs.take(i + 1);
            lemma_first_job(seen, availability);
            assert(seen.skip(1) =~= rest.take(i));
        }
        reveal(Seq::filter);
        assert(jobs.take(0) =~= Seq::<BlockInfo>::empty());
        assert(on_offer(jobs.take(0), availability).len() == 0);
        if pieces_known(jobs, availability, need) {
            assert forall|i: int|
                #![trigger jobs[i]]
                0 <= i < jobs.len() && jobs[i].index >= availability.len() implies on_offer(
                jobs.take(i),
                availability,
            ).len() >= need by {
                assert(i > 0);
                assert(rest[i - 1] == jobs[i]);
                assert(rest.take(i - 1) == rest.take(i - 1));
            }
        }
        if forall|i: int|
            #![trigger jobs[i]]
            0 <= i < jobs.len() && jobs[i].index >= availability.len() ==> on_offer(
                jobs.take(i),
                availability,
            ).len() >= need {
            assert(jobs[0].index < availability.len());
            assert forall|i: int|
                #![trigger rest[i]]
                0 <= i < rest.len() && rest[i].index >= availability.len() implies on_offer(
                rest.take(i),
                availability,
            ).len() >= less by {
                assert(rest[i] == jobs[i + 1]);
            }
        }
    }
}

/// A block is taken out at the first place at which it stands, and there alone; where it does not
/// stand, nothing is taken out.
pub proof fn law_first_of_equal_jobs_leaves(jobs: Seq<BlockInfo>, job: BlockInfo, i: int)
    ensures
        0 <= i < jobs.len() && jobs[i] == job && (forall|j: int| 0 <= j < i ==> jobs[j] != job)
            ==> one_less(jobs, job) == jobs.take(i) + jobs.skip(i + 1),
        !jobs.contains(job) ==> one_less(jobs, job) == jobs,
{
    lemma_place_of(jobs, job);
    if let Some(p) = place_of(jobs, job) {
        assert(jobs.contains(jobs[p]));
        assert(jobs.remove(p) =~= jobs.take(p) + jobs.skip(p + 1));
    }
}

} // verus!
