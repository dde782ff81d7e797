use vstd::prelude::*;

use crate::types::CandidateView;
use crate::types::Error;
use crate::types::Voter;

verus! {

/// The mathematical state of the election: the administrator's identity,
/// the candidate registry in registration order, the voter registry as a map
/// from principal identity to whether that voter has voted, and the
/// voting-active flag.
#[verifier::ext_equal]
pub struct ElectionState {
    pub admin: Seq<u8>,
    pub candidates: Seq<CandidateView>,
    pub voters: Map<Seq<u8>, bool>,
    pub active: bool,
}

/// The state at construction: a fixed administrator, empty registries, and
/// an inactive session.
pub open spec fn init_state(admin: Seq<u8>) -> ElectionState {
    ElectionState {
        admin: admin,
        candidates: Seq::empty(),
        voters: Map::empty(),
        active: false,
    }
}

/// No two candidates share an id.
pub open spec fn distinct_ids(s: Seq<CandidateView>) -> bool {
    forall|i: int, j: int| 0 <= i < j < s.len() ==> s[i].id != s[j].id
}

/// Some candidate in the registry has this id.
pub open spec fn has_candidate(s: Seq<CandidateView>, id: u64) -> bool {
    exists|i: int| 0 <= i < s.len() && s[i].id == id
}

/// The first index holding a candidate with this id (meaningful only when
/// `has_candidate` holds).
pub open spec fn idx_of(s: Seq<CandidateView>, id: u64) -> int
    decreases s.len(),
{
    if s.len() == 0 {
        0
    } else if s[0].id == id {
        0
    } else {
        1 + idx_of(s.subrange(1, s.len() as int), id)
    }
}

/// The sum of all candidates' vote counters.
pub open spec fn total_votes(s: Seq<CandidateView>) -> int
    decreases s.len(),
{
    if s.len() == 0 {
        0
    } else {
        total_votes(s.drop_last()) + s.last().votes
    }
}

/// The highest vote counter among the candidates, taken as 0 for an empty
/// registry. Starting from 0 is what makes every zero-vote candidate a
/// "winner" when no vote has been cast at all.
pub open spec fn max_votes(s: Seq<CandidateView>) -> int
    decreases s.len(),
{
    if s.len() == 0 {
        0
    } else if s.last().votes > max_votes(s.drop_last()) {
        s.last().votes as int
    } else {
        max_votes(s.drop_last())
    }
}

/// The candidates whose counter equals `m`, in registry order.
pub open spec fn matching(s: Seq<CandidateView>, m: int) -> Seq<CandidateView> {
    s.filter(|c: CandidateView| c.votes == m)
}

/// The winner set: every candidate whose counter equals the maximum, in
/// registry order.
pub open spec fn winners_of(s: Seq<CandidateView>) -> Seq<CandidateView> {
    matching(s, max_votes(s))
}

/// The recorded tally of the candidate with this id, taken as 0 for an
/// absent id.
pub open spec fn tally_of(s: Seq<CandidateView>, id: u64) -> int {
    if has_candidate(s, id) {
        s[idx_of(s, id)].votes as int
    } else {
        0
    }
}

/// A well-formed state: candidate ids are unique and the aggregate tally
/// fits the machine counter.
pub open spec fn wf(st: ElectionState) -> bool {
    &&& distinct_ids(st.candidates)
    &&& total_votes(st.candidates) <= u32::MAX
}

/// Inserting a candidate: a fresh id is appended at the end of the registry;
/// an id already present silently overwrites that candidate in place (losing
/// its counter), mirroring plain map insertion.
pub open spec fn upsert_candidate(s: Seq<CandidateView>, c: CandidateView) -> Seq<CandidateView> {
    if has_candidate(s, c.id) {
        s.update(idx_of(s, c.id), c)
    } else {
        s.push(c)
    }
}

/// Registering a candidate: admin-only, session must be active; on success
/// the registry gains (or overwrites) a candidate with zero votes and the
/// minted id is returned.
pub open spec fn spec_add_candidate(
    st: ElectionState,
    caller: Seq<u8>,
    id: u64,
    name: Seq<u8>,
    party: Seq<u8>,
    avatar: Seq<u8>,
) -> (ElectionState, Result<u64, Error>) {
    if caller != st.admin {
        (st, Err(Error::AdminNotAuthorized))
    } else if !st.active {
        (st, Err(Error::VotingEnded))
    } else {
        let c = CandidateView { id: id, name: name, party: party, avatar: avatar, votes: 0 };
        (ElectionState { candidates: upsert_candidate(st.candidates, c), ..st }, Ok(id))
    }
}

/// Authorizing a voter: admin-only, session must be active; the voter's
/// entry is created or reset with `is_voted == false`.
pub open spec fn spec_authorize_voter(st: ElectionState, caller: Seq<u8>, voter: Seq<u8>) -> (
    ElectionState,
    Result<(), Error>,
) {
    if caller != st.admin {
        (st, Err(Error::AdminNotAuthorized))
    } else if !st.active {
        (st, Err(Error::VotingEnded))
    } else {
        (ElectionState { voters: st.voters.insert(voter, false), ..st }, Ok(()))
    }
}

/// Revoking a voter: admin-only, session must be active; the voter's entry
/// is removed entirely (no error if it was absent).
pub open spec fn spec_revoke_voter(st: ElectionState, caller: Seq<u8>, voter: Seq<u8>) -> (
    ElectionState,
    Result<(), Error>,
) {
    if caller != st.admin {
        (st, Err(Error::AdminNotAuthorized))
    } else if !st.active {
        (st, Err(Error::VotingEnded))
    } else {
        (ElectionState { voters: st.voters.remove(voter), ..st }, Ok(()))
    }
}

/// Starting the session: admin-only; refused once any vote is recorded,
/// otherwise sets the flag (idempotently).
pub open spec fn spec_start_voting(st: ElectionState, caller: Seq<u8>) -> (
    ElectionState,
    Result<(), Error>,
) {
    if caller != st.admin {
        (st, Err(Error::AdminNotAuthorized))
    } else if total_votes(st.candidates) > 0 {
        (st, Err(Error::VotingEnded))
    } else {
        (ElectionState { active: true, ..st }, Ok(()))
    }
}

/// Ending the session: admin-only, unconditional.
pub open spec fn spec_end_voting(st: ElectionState, caller: Seq<u8>) -> (
    ElectionState,
    Result<(), Error>,
) {
    if caller != st.admin {
        (st, Err(Error::AdminNotAuthorized))
    } else {
        (ElectionState { active: false, ..st }, Ok(()))
    }
}

/// Casting a vote: the session must be active, the voter authorized and not
/// yet voted, and the candidate present; then that candidate's counter rises
/// by one and the voter is marked as having voted.
pub open spec fn spec_vote(st: ElectionState, voter: Seq<u8>, id: u64) -> (
    ElectionState,
    Result<(), Error>,
) {
    if !st.active {
        (st, Err(Error::VotingEnded))
    } else if !st.voters.contains_key(voter) {
        (st, Err(Error::VoterNotAuthorized))
    } else if st.voters[voter] {
        (st, Err(Error::VoterAlreadyVoted))
    } else if !has_candidate(st.candidates, id) {
        (st, Err(Error::CandidateNotFound))
    } else {
        (
            ElectionState {
                candidates: increment_candidate(st.candidates, id),
                voters: st.voters.insert(voter, true),
                ..st
            },
            Ok(()),
        )
    }
}

/// One more vote for the candidate with this id (meaningful only when the
/// id is present).
pub open spec fn increment_candidate(s: Seq<CandidateView>, id: u64) -> Seq<CandidateView> {
    let i = idx_of(s, id);
    let c = s[i];
    s.update(i, CandidateView { votes: (c.votes + 1) as u32, ..c })
}

/// Reading a voter's record: present entries are returned, absent ones are
/// the `VoterNotAuthorized` failure.
pub open spec fn spec_get_voter(st: ElectionState, voter: Seq<u8>) -> Result<Voter, Error> {
    if st.voters.contains_key(voter) {
        Ok(Voter { is_voted: st.voters[voter] })
    } else {
        Err(Error::VoterNotAuthorized)
    }
}

/// Reading a candidate by id: present ids are returned, absent ones are the
/// `CandidateNotFound` failure.
pub open spec fn spec_get_candidate(st: ElectionState, id: u64) -> Result<CandidateView, Error> {
    if has_candidate(st.candidates, id) {
        Ok(st.candidates[idx_of(st.candidates, id)])
    } else {
        Err(Error::CandidateNotFound)
    }
}

} // verus!
