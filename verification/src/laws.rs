use vstd::prelude::*;

use crate::lemmas::lemma_idx_of;
use crate::lemmas::lemma_idx_of_same_ids;
use crate::lemmas::lemma_max_attained;
use crate::lemmas::lemma_total_nonneg;
use crate::lemmas::lemma_total_update;
use crate::lemmas::lemma_votes_le_total;
use crate::model::ElectionState;
use crate::model::has_candidate;
use crate::model::idx_of;
use crate::model::max_votes;
use crate::model::spec_add_candidate;
use crate::model::spec_authorize_voter;
use crate::model::spec_end_voting;
use crate::model::spec_get_voter;
use crate::model::spec_revoke_voter;
use crate::model::spec_start_voting;
use crate::model::spec_vote;
use crate::model::tally_of;
use crate::model::total_votes;
use crate::model::winners_of;
use crate::types::CandidateView;
use crate::types::Error;
use crate::types::Voter;

verus! {

/// A sequence of ballots: each is a voter identity and a candidate id.
pub open spec fn apply_votes(st: ElectionState, vs: Seq<(Seq<u8>, u64)>) -> ElectionState
    decreases vs.len(),
{
    if vs.len() == 0 {
        st
    } else {
        apply_votes(spec_vote(st, vs[0].0, vs[0].1).0, vs.drop_first())
    }
}

/// Whether every ballot in the sequence is accepted when cast in order.
pub open spec fn all_votes_succeed(st: ElectionState, vs: Seq<(Seq<u8>, u64)>) -> bool
    decreases vs.len(),
{
    if vs.len() == 0 {
        true
    } else {
        &&& spec_vote(st, vs[0].0, vs[0].1).1 is Ok
        &&& all_votes_succeed(spec_vote(st, vs[0].0, vs[0].1).0, vs.drop_first())
    }
}

/// How many ballots in the sequence name this candidate.
pub open spec fn count_votes_for(vs: Seq<(Seq<u8>, u64)>, id: u64) -> int
    decreases vs.len(),
{
    if vs.len() == 0 {
        0
    } else {
        (if vs[0].1 == id {
            1int
        } else {
            0int
        }) + count_votes_for(vs.drop_first(), id)
    }
}

/// Single vote: once a voter's ballot is accepted, any further ballot by the
/// same voter — for any candidate — is refused as `VoterAlreadyVoted`.
pub proof fn lemma_single_vote(st: ElectionState, v: Seq<u8>, id1: u64, id2: u64)
    requires
        spec_vote(st, v, id1).1 is Ok,
    ensures
        spec_vote(spec_vote(st, v, id1).0, v, id2).1 == Err::<(), Error>(Error::VoterAlreadyVoted),
{
}

/// A voter's voted mark persists across every other operation: candidate
/// registration, session changes, ballots by anyone, and authorizations or
/// revocations of other voters. Only revoking or re-authorizing the voter
/// themselves touches their record, so with `lemma_single_vote` a voter who
/// has voted stays refused until an administrator resets them.
pub proof fn lemma_voted_mark_persists(
    st: ElectionState,
    v: Seq<u8>,
    w: Seq<u8>,
    a: Seq<u8>,
    id: u64,
    name: Seq<u8>,
    party: Seq<u8>,
    avatar: Seq<u8>,
)
    requires
        st.voters.contains_key(v),
        st.voters[v],
    ensures
        spec_add_candidate(st, a, id, name, party, avatar).0.voters == st.voters,
        spec_start_voting(st, a).0.voters == st.voters,
        spec_end_voting(st, a).0.voters == st.voters,
        ({
            let p = spec_vote(st, w, id).0;
            p.voters.contains_key(v) && p.voters[v]
        }),
        w != v ==> ({
            let p = spec_authorize_voter(st, a, w).0;
            p.voters.contains_key(v) && p.voters[v]
        }),
        w != v ==> ({
            let p = spec_revoke_voter(st, a, w).0;
            p.voters.contains_key(v) && p.voters[v]
        }),
{
}

/// One accepted ballot: the aggregate tally and the named candidate's tally
/// rise by exactly one, every other candidate's tally is untouched, and the
/// registry's ids, the session flag and the administrator stay as they were.
pub proof fn lemma_vote_step(st: ElectionState, v: Seq<u8>, id: u64)
    requires
        total_votes(st.candidates) < u32::MAX,
        spec_vote(st, v, id).1 is Ok,
    ensures
        ({
            let post = spec_vote(st, v, id).0;
            &&& total_votes(post.candidates) == total_votes(st.candidates) + 1
            &&& tally_of(post.candidates, id) == tally_of(st.candidates, id) + 1
            &&& forall|cid: u64|
                cid != id ==> tally_of(post.candidates, cid) == tally_of(st.candidates, cid)
            &&& post.candidates.len() == st.candidates.len()
            &&& forall|j: int|
                0 <= j < st.candidates.len() ==> post.candidates[j].id == st.candidates[j].id
            &&& post.active == st.active
            &&& post.admin == st.admin
        }),
{
    let s = st.candidates;
    let post = spec_vote(st, v, id).0;
    let t = post.candidates;
    lemma_idx_of(s, id);
    let i: int = idx_of(s, id);
    lemma_votes_le_total(s, i);
    let c2 = CandidateView { votes: (s[i].votes + 1) as u32, ..s[i] };
    lemma_total_update(s, i, c2);
    lemma_idx_of_same_ids(s, t, id);
    assert(tally_of(t, id) == tally_of(s, id) + 1);
    assert forall|cid: u64| cid != id implies tally_of(t, cid) == tally_of(s, cid) by {
        lemma_idx_of_same_ids(s, t, cid);
        if has_candidate(s, cid) {
            lemma_idx_of(s, cid);
            assert(idx_of(s, cid) != i);
        }
    }
}

/// Tally correctness: casting any sequence of accepted ballots raises the
/// aggregate tally by the number of ballots, and each candidate's tally by
/// the number of ballots naming it.
pub proof fn lemma_tally_counts(st: ElectionState, vs: Seq<(Seq<u8>, u64)>, cid: u64)
    requires
        all_votes_succeed(st, vs),
        total_votes(st.candidates) + vs.len() <= u32::MAX,
    ensures
        total_votes(apply_votes(st, vs).candidates) == total_votes(st.candidates) + vs.len(),
        tally_of(apply_votes(st, vs).candidates, cid) == tally_of(st.candidates, cid)
            + count_votes_for(vs, cid),
    decreases vs.len(),
{
    if vs.len() > 0 {
        lemma_vote_step(st, vs[0].0, vs[0].1);
        lemma_tally_counts(spec_vote(st, vs[0].0, vs[0].1).0, vs.drop_first(), cid);
    }
}

/// Restart guard, permissive half: while no vote is recorded the
/// administrator can start the session again and again; repetition succeeds
/// and changes nothing further.
pub proof fn lemma_start_voting_idempotent(st: ElectionState, a: Seq<u8>)
    requires
        a == st.admin,
        total_votes(st.candidates) == 0,
    ensures
        spec_start_voting(st, a).1 is Ok,
        spec_start_voting(spec_start_voting(st, a).0, a).1 is Ok,
        spec_start_voting(spec_start_voting(st, a).0, a).0 == spec_start_voting(st, a).0,
        spec_start_voting(spec_end_voting(st, a).0, a).1 is Ok,
{
}

/// Restart guard, restrictive half: once any ballot is accepted, starting
/// the session is refused with `VotingEnded` — also after the session is
/// ended first.
pub proof fn lemma_restart_guard(st: ElectionState, v: Seq<u8>, id: u64)
    requires
        total_votes(st.candidates) < u32::MAX,
        spec_vote(st, v, id).1 is Ok,
    ensures
        ({
            let post = spec_vote(st, v, id).0;
            let ended = spec_end_voting(post, post.admin).0;
            &&& spec_start_voting(post, post.admin).1 == Err::<(), Error>(Error::VotingEnded)
            &&& spec_start_voting(ended, ended.admin).1 == Err::<(), Error>(Error::VotingEnded)
        }),
{
    let post = spec_vote(st, v, id).0;
    lemma_vote_step(st, v, id);
    lemma_total_nonneg(st.candidates);
    assert(total_votes(post.candidates) > 0);
}

/// Revoke resets: authorizing a voter, letting them vote, revoking them and
/// authorizing them again leaves the voter unvoted, and a further ballot by
/// them is accepted again.
pub proof fn lemma_revoke_resets(st: ElectionState, a: Seq<u8>, v: Seq<u8>, id: u64)
    requires
        a == st.admin,
        st.active,
        spec_vote(spec_authorize_voter(st, a, v).0, v, id).1 is Ok,
    ensures
        ({
            let s1 = spec_authorize_voter(st, a, v).0;
            let s2 = spec_vote(s1, v, id).0;
            let s3 = spec_revoke_voter(s2, a, v).0;
            let s4 = spec_authorize_voter(s3, a, v).0;
            &&& spec_get_voter(s4, v) == Ok::<Voter, Error>(Voter { is_voted: false })
            &&& spec_vote(s4, v, id).1 is Ok
        }),
{
    let s1 = spec_authorize_voter(st, a, v).0;
    let s2 = spec_vote(s1, v, id).0;
    let s3 = spec_revoke_voter(s2, a, v).0;
    let s4 = spec_authorize_voter(s3, a, v).0;
    assert(has_candidate(s1.candidates, id));
    lemma_idx_of(s1.candidates, id);
    lemma_idx_of_same_ids(s1.candidates, s2.candidates, id);
    assert(has_candidate(s4.candidates, id));
}

/// Winners tie-break: the winner set holds exactly the candidates whose
/// counter equals the highest counter (every member attains the maximum,
/// every candidate attaining it is a member), and a non-empty registry —
/// even one with all counters at zero — always yields at least one winner.
pub proof fn lemma_winners_characterization(s: Seq<CandidateView>)
    ensures
        forall|i: int|
            0 <= i < winners_of(s).len() ==> (#[trigger] winners_of(s)[i]).votes == max_votes(s),
        forall|i: int|
            0 <= i < s.len() && s[i].votes == max_votes(s) ==> winners_of(s).contains(s[i]),
        s.len() > 0 ==> winners_of(s).len() > 0,
{
    let pred = |c: CandidateView| c.votes == max_votes(s);
    assert forall|i: int|
        0 <= i < winners_of(s).len() implies (#[trigger] winners_of(s)[i]).votes == max_votes(
        s,
    ) by {
        s.lemma_filter_pred(pred, i);
    }
    assert forall|i: int|
        0 <= i < s.len() && s[i].votes == max_votes(s) implies winners_of(s).contains(s[i]) by {
        s.lemma_filter_contains(pred, i);
    }
    if s.len() > 0 {
        lemma_max_attained(s);
        let w = choose|i: int| 0 <= i < s.len() && s[i].votes == max_votes(s);
        assert(winners_of(s).contains(s[w]));
    }
}

} // verus!
