use vstd::prelude::*;

use crate::lemmas::lemma_cands_view_push;
use crate::lemmas::lemma_distinct_addresses_remove;
use crate::lemmas::lemma_distinct_addresses_update;
use crate::lemmas::lemma_distinct_ids_update;
use crate::lemmas::lemma_idx_of;
use crate::lemmas::lemma_idx_of_first;
use crate::lemmas::lemma_matching_none;
use crate::lemmas::lemma_matching_unfold;
use crate::lemmas::lemma_max_take_succ;
use crate::lemmas::lemma_total_take_le;
use crate::lemmas::lemma_total_take_succ;
use crate::lemmas::lemma_total_update;
use crate::lemmas::lemma_voters_map_absent;
use crate::lemmas::lemma_voters_map_congruent;
use crate::lemmas::lemma_voters_map_entry;
use crate::lemmas::lemma_voters_map_remove;
use crate::lemmas::lemma_voters_map_update;
use crate::lemmas::lemma_votes_le_max;
use crate::lemmas::lemma_votes_le_total;
use crate::model::ElectionState;
use crate::model::distinct_ids;
use crate::model::has_candidate;
use crate::model::idx_of;
use crate::model::increment_candidate;
use crate::model::init_state;
use crate::model::matching;
use crate::model::max_votes;
use crate::model::spec_add_candidate;
use crate::model::spec_authorize_voter;
use crate::model::spec_end_voting;
use crate::model::spec_get_candidate;
use crate::model::spec_get_voter;
use crate::model::spec_revoke_voter;
use crate::model::spec_start_voting;
use crate::model::spec_vote;
use crate::model::total_votes;
use crate::model::wf;
use crate::model::winners_of;
use crate::types::Candidate;
use crate::types::CandidateView;
use crate::types::Error;
use crate::types::Voter;
use crate::types::VoterEntry;
use crate::types::bytes_eq;
use crate::types::cands_view;
use crate::types::clone_bytes;
use crate::types::distinct_addresses;
use crate::types::voters_map;

verus! {

/// The election state machine: the administrator fixed at construction, the
/// candidate registry in registration order, the voter allow-list, and the
/// voting-active flag. Its mathematical value is an `ElectionState`, and
/// every operation's contract says exactly which model transition it takes.
pub struct VotingContract {
    admin: Vec<u8>,
    candidates: Vec<Candidate>,
    voters: Vec<VoterEntry>,
    is_voting_active: bool,
}

impl View for VotingContract {
    type V = ElectionState;

    closed spec fn view(&self) -> ElectionState {
        ElectionState {
            admin: self.admin@,
            candidates: cands_view(self.candidates@),
            voters: voters_map(self.voters@),
            active: self.is_voting_active,
        }
    }
}

impl VotingContract {
    /// Validity of the representation: the model state is well-formed and
    /// the voter registry holds each principal at most once. Every
    /// constructor establishes this and every operation preserves it.
    pub closed spec fn inv(&self) -> bool {
        &&& wf(self@)
        &&& distinct_addresses(self.voters@)
    }

    /// Sets up the election with its one administrator, empty registries
    /// and an inactive session.
    pub fn new(admin: Vec<u8>) -> (s: Self)
        ensures
            s.inv(),
            s@ == init_state(admin@),
    {
        let s = VotingContract {
            admin: admin,
            candidates: Vec::new(),
            voters: Vec::new(),
            is_voting_active: false,
        };
        assert(s@ =~= init_state(s.admin@));
        s
    }

    /// Rebuilds an election from its plain parts, as handed back by
    /// `get_admin`, `get_candidates_list`, `get_voters_list` and
    /// `get_is_voting_active`. The parts are validated: candidate ids and
    /// voter addresses must be free of duplicates and the aggregate tally
    /// must fit the machine counter, otherwise nothing is built.
    pub fn from_parts(
        admin: Vec<u8>,
        candidates: Vec<Candidate>,
        voters: Vec<VoterEntry>,
        active: bool,
    ) -> (r: Option<Self>)
        ensures
            ({
                let ok = distinct_ids(cands_view(candidates@)) && distinct_addresses(voters@)
                    && total_votes(cands_view(candidates@)) <= u32::MAX;
                match r {
                    Some(s) => ok && s.inv() && s@ == (ElectionState {
                        admin: admin@,
                        candidates: cands_view(candidates@),
                        voters: voters_map(voters@),
                        active: active,
                    }),
                    None => !ok,
                }
            }),
    {
        let ghost cv = cands_view(candidates@);
        proof {
            assert(forall|j: int| 0 <= j < cv.len() ==> cv[j] == candidates@[j]@);
        }
        let mut i: usize = 1;
        while i < candidates.len()
            invariant
                1 <= i,
                i <= candidates.len() || candidates.len() == 0,
                cv == cands_view(candidates@),
                cv.len() == candidates.len(),
                forall|j: int| 0 <= j < cv.len() ==> cv[j] == candidates@[j]@,
                forall|a: int, b: int| 0 <= a < b < i ==> cv[a].id != cv[b].id,
            decreases candidates.len() - i,
        {
            let mut j: usize = 0;
            while j < i
                invariant
                    0 <= j <= i < candidates.len(),
                    cv == cands_view(candidates@),
                    cv.len() == candidates.len(),
                    forall|k: int| 0 <= k < cv.len() ==> cv[k] == candidates@[k]@,
                    forall|k: int| 0 <= k < j ==> cv[k].id != cv[i as int].id,
                decreases i - j,
            {
                if candidates[j].id == candidates[i].id {
                    assert(cv[j as int].id == cv[i as int].id);
                    assert(!distinct_ids(cv));
                    return None;
                }
                j = j + 1;
            }
            i = i + 1;
        }
        assert(distinct_ids(cv));
        let mut i: usize = 1;
        while i < voters.len()
            invariant
                1 <= i,
                i <= voters.len() || voters.len() == 0,
                forall|a: int, b: int|
                    0 <= a < b < i ==> voters@[a].address@ != voters@[b].address@,
            decreases voters.len() - i,
        {
            let mut j: usize = 0;
            while j < i
                invariant
                    0 <= j <= i < voters.len(),
                    forall|k: int| 0 <= k < j ==> voters@[k].address@ != voters@[i as int].address@,
                decreases i - j,
            {
                if bytes_eq(&voters[j].address, &voters[i].address) {
                    assert(!distinct_addresses(voters@));
                    return None;
                }
                j = j + 1;
            }
            i = i + 1;
        }
        assert(distinct_addresses(voters@));
        let mut sum: u64 = 0;
        let mut i: usize = 0;
        while i < candidates.len()
            invariant
                i <= candidates.len(),
                cv == cands_view(candidates@),
                cv.len() == candidates.len(),
                forall|j: int| 0 <= j < cv.len() ==> cv[j] == candidates@[j]@,
                sum as int == total_votes(cv.take(i as int)),
                sum <= u32::MAX,
            decreases candidates.len() - i,
        {
            proof {
                lemma_total_take_succ(cv, i as int);
            }
            let v = candidates[i].votes;
            if sum + (v as u64) > (u32::MAX as u64) {
                proof {
                    lemma_total_take_le(cv, i as int + 1);
                }
                return None;
            }
            sum = sum + (v as u64);
            i = i + 1;
        }
        proof {
            assert(cv.take(cv.len() as int) =~= cv);
        }
        let s = VotingContract {
            admin: admin,
            candidates: candidates,
            voters: voters,
            is_voting_active: active,
        };
        assert(s@ =~= (ElectionState {
            admin: s.admin@,
            candidates: cv,
            voters: voters_map(s.voters@),
            active: active,
        }));
        Some(s)
    }

    /// The voter registry as a list of entries, one per authorized voter.
    pub fn get_voters_list(&self) -> (r: Vec<VoterEntry>)
        requires
            self.inv(),
        ensures
            distinct_addresses(r@),
            voters_map(r@) == self@.voters,
    {
        let mut r: Vec<VoterEntry> = Vec::new();
        let mut i: usize = 0;
        while i < self.voters.len()
            invariant
                i <= self.voters.len(),
                r@.len() == i,
                forall|j: int|
                    0 <= j < i ==> r@[j].address@ == self.voters@[j].address@ && r@[j].voter
                        == self.voters@[j].voter,
            decreases self.voters.len() - i,
        {
            r.push(
                VoterEntry {
                    address: clone_bytes(&self.voters[i].address),
                    voter: self.voters[i].voter,
                },
            );
            i = i + 1;
        }
        proof {
            lemma_voters_map_congruent(r@, self.voters@);
        }
        r
    }

    /// Whether the given principal is the administrator.
    fn is_admin(&self, caller: &Vec<u8>) -> (r: bool)
        ensures
            r <==> caller@ == self@.admin,
    {
        bytes_eq(caller, &self.admin)
    }

    /// The administrator's identity.
    pub fn get_admin(&self) -> (r: Vec<u8>)
        ensures
            r@ == self@.admin,
    {
        clone_bytes(&self.admin)
    }

    /// Whether the voting session is currently active.
    pub fn get_is_voting_active(&self) -> (r: bool)
        ensures
            r == self@.active,
    {
        self.is_voting_active
    }

    /// The session gate shared by all mutating voter and candidate
    /// operations: succeeds exactly while the session is active.
    pub fn check_voting_active(&self) -> (r: Result<(), Error>)
        ensures
            r == (if self@.active {
                Ok::<(), Error>(())
            } else {
                Err::<(), Error>(Error::VotingEnded)
            }),
    {
        if !self.is_voting_active {
            Err(Error::VotingEnded)
        } else {
            Ok(())
        }
    }

    /// The sum of all candidates' counters: the number of votes cast in
    /// this election.
    pub fn get_total_votes(&self) -> (r: u32)
        requires
            self.inv(),
        ensures
            r as int == total_votes(self@.candidates),
    {
        let ghost cv = self@.candidates;
        let mut sum: u32 = 0;
        let mut i: usize = 0;
        while i < self.candidates.len()
            invariant
                self.inv(),
                cv == self@.candidates,
                i <= self.candidates.len(),
                cv.len() == self.candidates.len(),
                sum as int == total_votes(cv.take(i as int)),
            decreases self.candidates.len() - i,
        {
            proof {
                assert(cv[i as int] == self.candidates@[i as int]@);
                lemma_total_take_succ(cv, i as int);
                lemma_total_take_le(cv, i as int + 1);
            }
            sum = sum + self.candidates[i].votes;
            i = i + 1;
        }
        proof {
            assert(cv.take(cv.len() as int) =~= cv);
        }
        sum
    }

    /// Ends the session: admin-only, unconditional.
    pub fn end_voting(&mut self, caller: &Vec<u8>) -> (r: Result<(), Error>)
        requires
            old(self).inv(),
        ensures
            final(self).inv(),
            final(self)@ == spec_end_voting(old(self)@, caller@).0,
            r == spec_end_voting(old(self)@, caller@).1,
    {
        if !self.is_admin(caller) {
            return Err(Error::AdminNotAuthorized);
        }
        self.is_voting_active = false;
        assert(self@ =~= spec_end_voting(old(self)@, caller@).0);
        Ok(())
    }

    /// Starts (or restarts) the session: admin-only, and refused with
    /// `VotingEnded` once any vote has been recorded.
    pub fn start_voting(&mut self, caller: &Vec<u8>) -> (r: Result<(), Error>)
        requires
            old(self).inv(),
        ensures
            final(self).inv(),
            final(self)@ == spec_start_voting(old(self)@, caller@).0,
            r == spec_start_voting(old(self)@, caller@).1,
    {
        if !self.is_admin(caller) {
            return Err(Error::AdminNotAuthorized);
        }
        if self.get_total_votes() > 0 {
            return Err(Error::VotingEnded);
        }
        self.is_voting_active = true;
        assert(self@ =~= spec_start_voting(old(self)@, caller@).0);
        Ok(())
    }

    /// Authorizes (or re-authorizes) a voter: admin-only during an active
    /// session; the voter's record is created or reset to unvoted.
    pub fn authorize_voter(&mut self, caller: &Vec<u8>, voter: Vec<u8>) -> (r: Result<(), Error>)
        requires
            old(self).inv(),
        ensures
            final(self).inv(),
            final(self)@ == spec_authorize_voter(old(self)@, caller@, voter@).0,
            r == spec_authorize_voter(old(self)@, caller@, voter@).1,
    {
        let ghost v = voter@;
        if !self.is_admin(caller) {
            return Err(Error::AdminNotAuthorized);
        }
        if let Err(e) = self.check_voting_active() {
            return Err(e);
        }
        let entry = VoterEntry { address: voter, voter: Voter { is_voted: false } };
        let ghost ve = entry;
        match find_voter(&self.voters, &entry.address) {
            Some(i) => {
                self.voters.remove(i);
                self.voters.insert(i, entry);
                proof {
                    assert(self.voters@ =~= old(self).voters@.update(i as int, ve));
                    lemma_voters_map_update(old(self).voters@, i as int, ve);
                    lemma_distinct_addresses_update(old(self).voters@, i as int, ve);
                }
            },
            None => {
                self.voters.push(entry);
                proof {
                    assert(self.voters@.drop_last() =~= old(self).voters@);
                    assert(self.voters@.last() == ve);
                    assert(distinct_addresses(self.voters@)) by {
                        assert(forall|j: int|
                            0 <= j < old(self).voters@.len() ==> self.voters@[j]
                                == old(self).voters@[j]);
                    }
                }
            },
        }
        assert(self@ =~= spec_authorize_voter(old(self)@, caller@, v).0);
        Ok(())
    }

    /// Revokes a voter: admin-only during an active session; the voter's
    /// record is removed entirely, with no error if it was absent.
    pub fn revoke_voter(&mut self, caller: &Vec<u8>, voter: Vec<u8>) -> (r: Result<(), Error>)
        requires
            old(self).inv(),
        ensures
            final(self).inv(),
            final(self)@ == spec_revoke_voter(old(self)@, caller@, voter@).0,
            r == spec_revoke_voter(old(self)@, caller@, voter@).1,
    {
        let ghost v = voter@;
        if !self.is_admin(caller) {
            return Err(Error::AdminNotAuthorized);
        }
        if let Err(e) = self.check_voting_active() {
            return Err(e);
        }
        match find_voter(&self.voters, &voter) {
            Some(i) => {
                proof {
                    lemma_voters_map_remove(old(self).voters@, i as int);
                    lemma_distinct_addresses_remove(old(self).voters@, i as int);
                }
                self.voters.remove(i);
            },
            None => {
                proof {
                    lemma_voters_map_absent(self.voters@, v);
                    assert(voters_map(self.voters@).remove(v) =~= voters_map(self.voters@));
                }
            },
        }
        assert(self@ =~= spec_revoke_voter(old(self)@, caller@, v).0);
        Ok(())
    }

    /// Reads a voter's record; a voter with no record is not authorized.
    pub fn get_voter(&self, voter: &Vec<u8>) -> (r: Result<Voter, Error>)
        requires
            self.inv(),
        ensures
            r == spec_get_voter(self@, voter@),
    {
        match find_voter(&self.voters, voter) {
            Some(i) => {
                proof {
                    lemma_voters_map_entry(self.voters@, i as int);
                }
                Ok(self.voters[i].voter)
            },
            None => {
                proof {
                    lemma_voters_map_absent(self.voters@, voter@);
                }
                Err(Error::VoterNotAuthorized)
            },
        }
    }

    /// Registers a candidate under a freshly minted id: admin-only during
    /// an active session. The id comes from the caller's random source and
    /// is not checked for collisions: an id already present silently
    /// overwrites that candidate. On success the minted id is returned.
    pub fn add_candidate(
        &mut self,
        caller: &Vec<u8>,
        id: u64,
        name: Vec<u8>,
        party: Vec<u8>,
        avatar: Vec<u8>,
    ) -> (r: Result<u64, Error>)
        requires
            old(self).inv(),
        ensures
            final(self).inv(),
            final(self)@ == spec_add_candidate(old(self)@, caller@, id, name@, party@, avatar@).0,
            r == spec_add_candidate(old(self)@, caller@, id, name@, party@, avatar@).1,
    {
        let ghost st = self@;
        let ghost cv = self@.candidates;
        if !self.is_admin(caller) {
            return Err(Error::AdminNotAuthorized);
        }
        if let Err(e) = self.check_voting_active() {
            return Err(e);
        }
        let c = Candidate { id: id, name: name, party: party, avatar: avatar, votes: 0 };
        let ghost cvv = c@;
        match find_candidate(&self.candidates, id) {
            Some(i) => {
                proof {
                    assert(cv[i as int] == self.candidates@[i as int]@);
                    assert(forall|j: int|
                        0 <= j < i ==> cv[j] == self.candidates@[j]@ && cv[j].id
                            != id);
                    lemma_idx_of_first(cv, id, i as int);
                    lemma_total_update(cv, i as int, cvv);
                    lemma_distinct_ids_update(cv, i as int, cvv);
                }
                self.candidates.remove(i);
                self.candidates.insert(i, c);
                assert(cands_view(self.candidates@) =~= cv.update(i as int, cvv));
            },
            None => {
                proof {
                    assert(forall|j: int|
                        0 <= j < cv.len() ==> cv[j] == self.candidates@[j]@ && cv[j].id
                            != id);
                    assert(!has_candidate(cv, id));
                }
                self.candidates.push(c);
                proof {
                    assert(cands_view(self.candidates@) =~= cv.push(cvv));
                    assert(cv.push(cvv).drop_last() =~= cv);
                    assert(distinct_ids(cands_view(self.candidates@)));
                }
            },
        }
        assert(self@ =~= spec_add_candidate(st, caller@, id, name@, party@, avatar@).0);
        Ok(id)
    }

    /// Every candidate in the registry, in registration order.
    pub fn get_candidates_list(&self) -> (r: Vec<Candidate>)
        ensures
            cands_view(r@) == self@.candidates,
    {
        let ghost cv = self@.candidates;
        let mut r: Vec<Candidate> = Vec::new();
        let mut i: usize = 0;
        while i < self.candidates.len()
            invariant
                cv == self@.candidates,
                i <= self.candidates.len(),
                cv.len() == self.candidates.len(),
                r@.len() == i,
                cands_view(r@) == cv.take(i as int),
            decreases self.candidates.len() - i,
        {
            let ghost r0 = r@;
            r.push((&self.candidates[i]).clone());
            proof {
                assert(cv[i as int] == self.candidates@[i as int]@);
                assert forall|j: int| 0 <= j < i as int + 1 implies cands_view(r@)[j] == cv.take(
                    i as int + 1,
                )[j] by {
                    if j < i as int {
                        assert(cands_view(r0)[j] == cv.take(i as int)[j]);
                        assert(r@[j] == r0[j]);
                    } else {
                        assert(r@[j] == r@.last());
                    }
                }
                assert(cands_view(r@) =~= cv.take(i as int + 1));
            }
            i = i + 1;
        }
        proof {
            assert(cv.take(cv.len() as int) =~= cv);
        }
        r
    }

    /// Reads a candidate by id; an absent id is `CandidateNotFound`.
    pub fn get_candidate(&self, id: u64) -> (r: Result<Candidate, Error>)
        ensures
            (match r {
                Ok(c) => spec_get_candidate(self@, id) == Ok::<_, Error>(c@),
                Err(e) => spec_get_candidate(self@, id) == Err::<CandidateView, _>(e),
            }),
    {
        get_candidate(&self.candidates, id)
    }

    /// Casts a vote: the session must be active, the voter authorized and
    /// not yet voted, and the candidate present; then the candidate's
    /// counter rises by one and the voter is marked as having voted. A
    /// failure leaves the state exactly as it was.
    pub fn vote(&mut self, voter: &Vec<u8>, id: u64) -> (r: Result<(), Error>)
        requires
            old(self).inv(),
            total_votes(old(self)@.candidates) < u32::MAX,
        ensures
            final(self).inv(),
            final(self)@ == spec_vote(old(self)@, voter@, id).0,
            r == spec_vote(old(self)@, voter@, id).1,
    {
        let ghost st = self@;
        let ghost cv = self@.candidates;
        if let Err(e) = self.check_voting_active() {
            return Err(e);
        }
        match self.get_voter(voter) {
            Err(e) => {
                return Err(e);
            },
            Ok(v) => {
                if v.is_voted {
                    return Err(Error::VoterAlreadyVoted);
                }
            },
        }
        if let Err(e) = increase_votes(&mut self.candidates, id) {
            assert(self@ =~= st);
            return Err(e);
        }
        proof {
            lemma_idx_of(cv, id);
            let i = idx_of(cv, id);
            let c2 = CandidateView { votes: (cv[i].votes + 1) as u32, ..cv[i] };
            lemma_total_update(cv, i, c2);
            lemma_votes_le_total(cv, i);
            lemma_distinct_ids_update(cv, i, c2);
        }
        set_voted_status_voter(&mut self.voters, voter);
        assert(self@ =~= spec_vote(st, voter@, id).0);
        Ok(())
    }

    /// The winner set of the election: one linear pass tracking the running
    /// maximum, which yields every candidate tied at the highest counter, in
    /// registry order. The running maximum starts at 0, so with no vote
    /// cast at all every candidate is reported as a winner.
    pub fn get_winners(&self) -> (r: Vec<Candidate>)
        ensures
            cands_view(r@) == winners_of(self@.candidates),
    {
        let ghost cv = self@.candidates;
        let mut winners: Vec<Candidate> = Vec::new();
        let mut highest_vote: u32 = 0;
        let mut i: usize = 0;
        while i < self.candidates.len()
            invariant
                cv == self@.candidates,
                i <= self.candidates.len(),
                cv.len() == self.candidates.len(),
                highest_vote as int == max_votes(cv.take(i as int)),
                cands_view(winners@) == matching(cv.take(i as int), highest_vote as int),
            decreases self.candidates.len() - i,
        {
            let ghost pre = cv.take(i as int);
            let ghost cur = cv.take(i as int + 1);
            proof {
                assert(cv[i as int] == self.candidates@[i as int]@);
                assert(cur.drop_last() =~= pre);
                assert(cur.last() == cv[i as int]);
                lemma_max_take_succ(cv, i as int);
            }
            let c = &self.candidates[i];
            if c.votes > highest_vote {
                let ghost m = cv[i as int].votes as int;
                proof {
                    assert forall|j: int| 0 <= j < pre.len() implies pre[j].votes != m by {
                        lemma_votes_le_max(pre, j);
                    }
                    lemma_matching_none(pre, m);
                    lemma_matching_unfold(cur, m);
                }
                highest_vote = c.votes;
                winners = Vec::new();
                let ghost w0 = winners@;
                winners.push(c.clone());
                proof {
                    assert(winners@ == w0.push(winners@.last()));
                    lemma_cands_view_push(w0, winners@.last());
                    assert(cands_view(w0) =~= Seq::<CandidateView>::empty());
                    assert(cands_view(winners@) == matching(cur, highest_vote as int));
                }
            } else if c.votes == highest_vote {
                proof {
                    lemma_matching_unfold(cur, highest_vote as int);
                }
                let ghost w0 = winners@;
                winners.push(c.clone());
                proof {
                    assert(winners@ == w0.push(winners@.last()));
                    lemma_cands_view_push(w0, winners@.last());
                    assert(cands_view(winners@) == matching(cur, highest_vote as int));
                }
            } else {
                proof {
                    lemma_matching_unfold(cur, highest_vote as int);
                    assert(cands_view(winners@) == matching(cur, highest_vote as int));
                }
            }
            i = i + 1;
        }
        proof {
            assert(cv.take(cv.len() as int) =~= cv);
        }
        winners
    }
}

/// The index of the first registry entry with this address, if any.
fn find_voter(voters: &Vec<VoterEntry>, addr: &Vec<u8>) -> (r: Option<usize>)
    ensures
        (match r {
            Some(i) => i < voters@.len() && voters@[i as int].address@ == addr@,
            None => forall|j: int| 0 <= j < voters@.len() ==> voters@[j].address@ != addr@,
        }),
{
    let mut i: usize = 0;
    while i < voters.len()
        invariant
            i <= voters.len(),
            forall|j: int| 0 <= j < i ==> voters@[j].address@ != addr@,
        decreases voters.len() - i,
    {
        if bytes_eq(&voters[i].address, addr) {
            return Some(i);
        }
        i = i + 1;
    }
    None
}

/// Marks a voter's record as having voted, creating the record if it is
/// absent, exactly as map insertion would.
pub fn set_voted_status_voter(voters: &mut Vec<VoterEntry>, voter: &Vec<u8>)
    requires
        distinct_addresses(old(voters)@),
    ensures
        distinct_addresses(final(voters)@),
        voters_map(final(voters)@) == voters_map(old(voters)@).insert(voter@, true),
{
    let entry = VoterEntry { address: clone_bytes(voter), voter: Voter { is_voted: true } };
    let ghost ve = entry;
    match find_voter(voters, voter) {
        Some(i) => {
            voters.remove(i);
            voters.insert(i, entry);
            proof {
                assert(voters@ =~= old(voters)@.update(i as int, ve));
                lemma_voters_map_update(old(voters)@, i as int, ve);
                lemma_distinct_addresses_update(old(voters)@, i as int, ve);
            }
        },
        None => {
            voters.push(entry);
            proof {
                assert(voters@.drop_last() =~= old(voters)@);
                assert(voters@.last() == ve);
                assert(distinct_addresses(voters@)) by {
                    assert(forall|j: int|
                        0 <= j < old(voters)@.len() ==> voters@[j] == old(voters)@[j]);
                }
            }
        },
    }
}

/// The index of the first candidate with this id, if any.
fn find_candidate(candidates: &Vec<Candidate>, id: u64) -> (r: Option<usize>)
    ensures
        (match r {
            Some(i) => i < candidates@.len() && candidates@[i as int].id == id && forall|j: int|
                0 <= j < i ==> candidates@[j].id != id,
            None => forall|j: int| 0 <= j < candidates@.len() ==> candidates@[j].id != id,
        }),
{
    let mut i: usize = 0;
    while i < candidates.len()
        invariant
            i <= candidates.len(),
            forall|j: int| 0 <= j < i ==> candidates@[j].id != id,
        decreases candidates.len() - i,
    {
        if candidates[i].id == id {
            return Some(i);
        }
        i = i + 1;
    }
    None
}

/// Looks a candidate up by id and returns a copy of its record; an absent
/// id is `CandidateNotFound`.
pub fn get_candidate(candidates: &Vec<Candidate>, id: u64) -> (r: Result<Candidate, Error>)
    ensures
        (match r {
            Ok(c) => has_candidate(cands_view(candidates@), id) && c@ == cands_view(candidates@)[
                idx_of(cands_view(candidates@), id)],
            Err(e) => !has_candidate(cands_view(candidates@), id) && e == Error::CandidateNotFound,
        }),
{
    let ghost cv = cands_view(candidates@);
    match find_candidate(candidates, id) {
        Some(i) => {
            proof {
                assert(cv[i as int] == candidates@[i as int]@);
                assert(forall|j: int| 0 <= j < i ==> cv[j] == candidates@[j]@ && cv[j].id != id);
                lemma_idx_of_first(cv, id, i as int);
            }
            Ok((&candidates[i]).clone())
        },
        None => {
            proof {
                assert(forall|j: int|
                    0 <= j < cv.len() ==> cv[j] == candidates@[j]@ && cv[j].id != id);
                assert(!has_candidate(cv, id));
            }
            Err(Error::CandidateNotFound)
        },
    }
}

/// Raises the counter of the candidate with this id by one; an absent id is
/// `CandidateNotFound` and leaves the registry untouched.
pub fn increase_votes(candidates: &mut Vec<Candidate>, id: u64) -> (r: Result<(), Error>)
    requires
        total_votes(cands_view(old(candidates)@)) < u32::MAX,
    ensures
        (match r {
            Ok(()) => has_candidate(cands_view(old(candidates)@), id) && cands_view(
                final(candidates)@,
            ) == increment_candidate(cands_view(old(candidates)@), id),
            Err(e) => !has_candidate(cands_view(old(candidates)@), id) && e
                == Error::CandidateNotFound && final(candidates)@ == old(candidates)@,
        }),
{
    let ghost cv = cands_view(old(candidates)@);
    match find_candidate(candidates, id) {
        Some(i) => {
            proof {
                assert(cv[i as int] == candidates@[i as int]@);
                assert(forall|j: int| 0 <= j < i ==> cv[j] == candidates@[j]@ && cv[j].id != id);
                lemma_idx_of_first(cv, id, i as int);
                lemma_votes_le_total(cv, i as int);
            }
            let mut c = candidates.remove(i);
            c.votes = c.votes + 1;
            let ghost c2 = c@;
            candidates.insert(i, c);
            assert(cands_view(candidates@) =~= cv.update(i as int, c2));
            assert(cv.update(i as int, c2) =~= increment_candidate(cv, id));
            Ok(())
        },
        None => {
            proof {
                assert(forall|j: int|
                    0 <= j < cv.len() ==> cv[j] == candidates@[j]@ && cv[j].id != id);
                assert(!has_candidate(cv, id));
            }
            Err(Error::CandidateNotFound)
        },
    }
}

} // verus!
