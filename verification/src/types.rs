use vstd::prelude::*;

verus! {

/// The failure kinds an election operation can report. A failed operation
/// leaves the election state untouched.
#[derive(Clone, Copy, Debug, PartialEq, Eq, Structural)]
pub enum Error {
    /// A candidate id was looked up that is not in the registry.
    CandidateNotFound,
    /// A voter acted (or was looked up) without an entry in the voter registry.
    VoterNotAuthorized,
    /// A voter attempted a second vote.
    VoterAlreadyVoted,
    /// An administrative operation was attempted by a principal other than
    /// the administrator.
    AdminNotAuthorized,
    /// A mutating operation was attempted while the session is inactive, or a
    /// restart was attempted while votes are already recorded.
    VotingEnded,
}

/// A registered candidate. The id is minted by the caller's random source;
/// the byte fields are opaque display data; `votes` counts the distinct
/// voters who voted for this candidate.
#[derive(Debug, PartialEq, Eq)]
pub struct Candidate {
    pub id: u64,
    pub name: Vec<u8>,
    pub party: Vec<u8>,
    pub avatar: Vec<u8>,
    pub votes: u32,
}

/// The mathematical value of a `Candidate`: the same fields with byte
/// vectors abstracted to sequences.
#[verifier::ext_equal]
pub struct CandidateView {
    pub id: u64,
    pub name: Seq<u8>,
    pub party: Seq<u8>,
    pub avatar: Seq<u8>,
    pub votes: u32,
}

impl View for Candidate {
    type V = CandidateView;

    open spec fn view(&self) -> CandidateView {
        CandidateView {
            id: self.id,
            name: self.name@,
            party: self.party@,
            avatar: self.avatar@,
            votes: self.votes,
        }
    }
}

impl Clone for Candidate {
    /// A clone denotes the same candidate value.
    fn clone(&self) -> (r: Candidate)
        ensures
            r@ == self@,
    {
        Candidate {
            id: self.id,
            name: clone_bytes(&self.name),
            party: clone_bytes(&self.party),
            avatar: clone_bytes(&self.avatar),
            votes: self.votes,
        }
    }
}

/// A voter's record: whether this voter has already cast their vote.
/// Presence of a record in the registry is what authorizes the voter.
#[derive(Clone, Copy, Debug, PartialEq, Eq, Structural)]
pub struct Voter {
    pub is_voted: bool,
}

/// One entry of the voter registry: a principal identity (as bytes) and the
/// voter's record.
pub struct VoterEntry {
    pub address: Vec<u8>,
    pub voter: Voter,
}

/// The voter registry's mathematical value: a map from principal identity
/// to whether that voter has voted. Later entries shadow earlier ones, so on
/// a registry with distinct addresses each entry is faithfully reflected.
pub open spec fn voters_map(s: Seq<VoterEntry>) -> Map<Seq<u8>, bool>
    decreases s.len(),
{
    if s.len() == 0 {
        Map::empty()
    } else {
        voters_map(s.drop_last()).insert(s.last().address@, s.last().voter.is_voted)
    }
}

/// No two registry entries share an address.
pub open spec fn distinct_addresses(s: Seq<VoterEntry>) -> bool {
    forall|i: int, j: int| 0 <= i < j < s.len() ==> s[i].address@ != s[j].address@
}

/// The mathematical value of a candidate vector: its candidates' views in
/// order.
pub open spec fn cands_view(s: Seq<Candidate>) -> Seq<CandidateView> {
    s.map_values(|c: Candidate| c@)
}

/// Byte-for-byte copy of a byte vector.
pub fn clone_bytes(v: &Vec<u8>) -> (r: Vec<u8>)
    ensures
        r@ == v@,
{
    let mut r: Vec<u8> = Vec::new();
    let mut i: usize = 0;
    while i < v.len()
        invariant
            i <= v.len(),
            r@ == v@.subrange(0, i as int),
        decreases v.len() - i,
    {
        r.push(v[i]);
        assert(r@ =~= v@.subrange(0, i as int + 1));
        i = i + 1;
    }
    assert(r@ =~= v@);
    r
}

/// Byte-for-byte equality of two byte vectors.
pub fn bytes_eq(a: &Vec<u8>, b: &Vec<u8>) -> (r: bool)
    ensures
        r <==> a@ == b@,
{
    if a.len() != b.len() {
        assert(a@.len() != b@.len());
        return false;
    }
    let mut i: usize = 0;
    while i < a.len()
        invariant
            i <= a.len(),
            a@.len() == b@.len(),
            forall|j: int| 0 <= j < i ==> a@[j] == b@[j],
        decreases a.len() - i,
    {
        if a[i] != b[i] {
            return false;
        }
        i = i + 1;
    }
    assert(a@ =~= b@);
    true
}

} // verus!
