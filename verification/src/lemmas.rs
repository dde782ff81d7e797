use vstd::prelude::*;

use crate::model::distinct_ids;
use crate::model::has_candidate;
use crate::model::idx_of;
use crate::model::matching;
use crate::model::max_votes;
use crate::model::total_votes;
use crate::types::Candidate;
use crate::types::CandidateView;
use crate::types::VoterEntry;
use crate::types::cands_view;
use crate::types::distinct_addresses;
use crate::types::voters_map;

verus! {

/// The aggregate tally is never negative.
pub proof fn lemma_total_nonneg(s: Seq<CandidateView>)
    ensures
        total_votes(s) >= 0,
    decreases s.len(),
{
    if s.len() > 0 {
        lemma_total_nonneg(s.drop_last());
    }
}

/// Each candidate's counter is bounded by the aggregate tally.
pub proof fn lemma_votes_le_total(s: Seq<CandidateView>, i: int)
    requires
        0 <= i < s.len(),
    ensures
        s[i].votes <= total_votes(s),
    decreases s.len(),
{
    if i == s.len() - 1 {
        lemma_total_nonneg(s.drop_last());
    } else {
        lemma_votes_le_total(s.drop_last(), i);
        assert(s.drop_last()[i] == s[i]);
    }
}

/// Replacing one candidate shifts the aggregate tally by the difference of
/// the two counters.
pub proof fn lemma_total_update(s: Seq<CandidateView>, i: int, c: CandidateView)
    requires
        0 <= i < s.len(),
    ensures
        total_votes(s.update(i, c)) == total_votes(s) - s[i].votes + c.votes,
    decreases s.len(),
{
    let t = s.update(i, c);
    if i == s.len() - 1 {
        assert(t.drop_last() =~= s.drop_last());
        assert(t.last() == c);
    } else {
        assert(t.drop_last() =~= s.drop_last().update(i, c));
        assert(t.last() == s.last());
        lemma_total_update(s.drop_last(), i, c);
        assert(s.drop_last()[i] == s[i]);
    }
}

/// One more element extends the prefix tally by that element's counter.
pub proof fn lemma_total_take_succ(s: Seq<CandidateView>, i: int)
    requires
        0 <= i < s.len(),
    ensures
        total_votes(s.take(i + 1)) == total_votes(s.take(i)) + s[i].votes,
{
    assert(s.take(i + 1).drop_last() =~= s.take(i));
    assert(s.take(i + 1).last() == s[i]);
}

/// A prefix tally never exceeds the full tally.
pub proof fn lemma_total_take_le(s: Seq<CandidateView>, i: int)
    requires
        0 <= i <= s.len(),
    ensures
        total_votes(s.take(i)) <= total_votes(s),
    decreases s.len() - i,
{
    if i == s.len() {
        assert(s.take(i) =~= s);
    } else {
        lemma_total_take_succ(s, i);
        lemma_total_take_le(s, i + 1);
    }
}

/// Each candidate's counter is bounded by the maximum.
pub proof fn lemma_votes_le_max(s: Seq<CandidateView>, i: int)
    requires
        0 <= i < s.len(),
    ensures
        s[i].votes <= max_votes(s),
    decreases s.len(),
{
    if i < s.len() - 1 {
        lemma_votes_le_max(s.drop_last(), i);
        assert(s.drop_last()[i] == s[i]);
    }
}

/// One more element raises the prefix maximum exactly when its counter
/// exceeds it.
pub proof fn lemma_max_take_succ(s: Seq<CandidateView>, i: int)
    requires
        0 <= i < s.len(),
    ensures
        max_votes(s.take(i + 1)) == if s[i].votes > max_votes(s.take(i)) {
            s[i].votes as int
        } else {
            max_votes(s.take(i))
        },
{
    assert(s.take(i + 1).drop_last() =~= s.take(i));
    assert(s.take(i + 1).last() == s[i]);
}

/// Unfolding of `matching` by its last element.
pub proof fn lemma_matching_unfold(s: Seq<CandidateView>, m: int)
    requires
        s.len() > 0,
    ensures
        matching(s, m) == if s.last().votes == m {
            matching(s.drop_last(), m).push(s.last())
        } else {
            matching(s.drop_last(), m)
        },
{
    reveal(Seq::filter);
}

/// `matching` on the empty registry is empty.
pub proof fn lemma_matching_empty(s: Seq<CandidateView>, m: int)
    requires
        s.len() == 0,
    ensures
        matching(s, m) == Seq::<CandidateView>::empty(),
{
    reveal(Seq::filter);
    assert(matching(s, m) =~= Seq::<CandidateView>::empty());
}

/// When no counter equals `m`, `matching` selects nothing.
pub proof fn lemma_matching_none(s: Seq<CandidateView>, m: int)
    requires
        forall|i: int| 0 <= i < s.len() ==> s[i].votes != m,
    ensures
        matching(s, m) == Seq::<CandidateView>::empty(),
    decreases s.len(),
{
    if s.len() == 0 {
        lemma_matching_empty(s, m);
    } else {
        lemma_matching_unfold(s, m);
        assert(forall|i: int|
            0 <= i < s.drop_last().len() ==> s.drop_last()[i].votes != m) by {
            assert(forall|i: int| 0 <= i < s.len() - 1 ==> s.drop_last()[i] == s[i]);
        }
        lemma_matching_none(s.drop_last(), m);
    }
}

/// Viewing a candidate vector commutes with appending.
pub proof fn lemma_cands_view_push(s: Seq<Candidate>, c: Candidate)
    ensures
        cands_view(s.push(c)) == cands_view(s).push(c@),
{
    assert forall|j: int| 0 <= j < s.len() + 1 implies cands_view(s.push(c))[j] == cands_view(
        s,
    ).push(c@)[j] by {
        if j < s.len() {
            assert(s.push(c)[j] == s[j]);
        } else {
            assert(s.push(c)[j] == c);
        }
    }
    assert(cands_view(s.push(c)) =~= cands_view(s).push(c@));
}

/// `idx_of` finds the first occurrence of an id that is present.
pub proof fn lemma_idx_of(s: Seq<CandidateView>, id: u64)
    requires
        has_candidate(s, id),
    ensures
        0 <= idx_of(s, id) < s.len(),
        s[idx_of(s, id)].id == id,
        forall|j: int| 0 <= j < idx_of(s, id) ==> s[j].id != id,
    decreases s.len(),
{
    if s.len() > 0 && s[0].id != id {
        let sub = s.subrange(1, s.len() as int);
        let w = choose|i: int| 0 <= i < s.len() && s[i].id == id;
        assert(sub[w - 1].id == id);
        lemma_idx_of(sub, id);
        assert(s[1 + idx_of(sub, id)] == sub[idx_of(sub, id)]);
        assert(forall|j: int| 1 <= j < 1 + idx_of(sub, id) ==> s[j] == sub[j - 1]);
    }
}

/// The first matching index is what `idx_of` denotes.
pub proof fn lemma_idx_of_first(s: Seq<CandidateView>, id: u64, i: int)
    requires
        0 <= i < s.len(),
        s[i].id == id,
        forall|j: int| 0 <= j < i ==> s[j].id != id,
    ensures
        has_candidate(s, id),
        idx_of(s, id) == i,
    decreases s.len(),
{
    if s[0].id != id {
        let sub = s.subrange(1, s.len() as int);
        assert(sub[i - 1].id == id);
        assert(forall|j: int| 0 <= j < i - 1 ==> sub[j] == s[j + 1]);
        lemma_idx_of_first(sub, id, i - 1);
    }
}

/// Two registries with the same ids position by position agree on presence
/// and position of any id.
pub proof fn lemma_idx_of_same_ids(s: Seq<CandidateView>, t: Seq<CandidateView>, id: u64)
    requires
        s.len() == t.len(),
        forall|j: int| 0 <= j < s.len() ==> s[j].id == t[j].id,
    ensures
        has_candidate(s, id) <==> has_candidate(t, id),
        idx_of(s, id) == idx_of(t, id),
    decreases s.len(),
{
    if s.len() == 0 {
    } else if s[0].id == id {
        assert(has_candidate(s, id));
        assert(has_candidate(t, id));
    } else {
        let ss = s.subrange(1, s.len() as int);
        let tt = t.subrange(1, t.len() as int);
        assert(forall|j: int| 0 <= j < ss.len() ==> ss[j] == s[j + 1] && tt[j] == t[j + 1]);
        lemma_idx_of_same_ids(ss, tt, id);
        if has_candidate(s, id) {
            let w = choose|i: int| 0 <= i < s.len() && s[i].id == id;
            assert(ss[w - 1].id == id);
            assert(has_candidate(ss, id));
        }
        if has_candidate(t, id) {
            let w = choose|i: int| 0 <= i < t.len() && t[i].id == id;
            assert(tt[w - 1].id == id);
            assert(has_candidate(tt, id));
        }
        if has_candidate(ss, id) {
            let w = choose|i: int| 0 <= i < ss.len() && ss[i].id == id;
            assert(s[w + 1].id == id);
            assert(has_candidate(s, id));
            assert(t[w + 1].id == id);
            assert(has_candidate(t, id));
        }
    }
}

/// A non-empty registry attains its maximum counter.
pub proof fn lemma_max_attained(s: Seq<CandidateView>)
    requires
        s.len() > 0,
    ensures
        exists|i: int| 0 <= i < s.len() && s[i].votes == max_votes(s),
    decreases s.len(),
{
    if s.last().votes > max_votes(s.drop_last()) {
        assert(s[s.len() - 1].votes == max_votes(s));
    } else if s.len() == 1 {
        assert(s[0].votes == max_votes(s));
    } else {
        lemma_max_attained(s.drop_last());
        let w = choose|i: int|
            0 <= i < s.drop_last().len() && s.drop_last()[i].votes == max_votes(s.drop_last());
        assert(s[w].votes == max_votes(s));
    }
}

/// A registry entry is reflected in the registry's map view.
pub proof fn lemma_voters_map_entry(s: Seq<VoterEntry>, i: int)
    requires
        distinct_addresses(s),
        0 <= i < s.len(),
    ensures
        voters_map(s).contains_key(s[i].address@),
        voters_map(s)[s[i].address@] == s[i].voter.is_voted,
    decreases s.len(),
{
    if i < s.len() - 1 {
        assert(forall|a: int, b: int|
            0 <= a < b < s.drop_last().len() ==> s.drop_last()[a].address@
                != s.drop_last()[b].address@);
        lemma_voters_map_entry(s.drop_last(), i);
        assert(s.drop_last()[i] == s[i]);
        assert(s[i].address@ != s.last().address@);
    }
}

/// An address on no entry is absent from the map view.
pub proof fn lemma_voters_map_absent(s: Seq<VoterEntry>, a: Seq<u8>)
    requires
        forall|i: int| 0 <= i < s.len() ==> s[i].address@ != a,
    ensures
        !voters_map(s).contains_key(a),
    decreases s.len(),
{
    if s.len() > 0 {
        assert(forall|i: int| 0 <= i < s.len() - 1 ==> s.drop_last()[i] == s[i]);
        lemma_voters_map_absent(s.drop_last(), a);
    }
}

/// Two voter registries that agree entry by entry on address and record
/// have the same map view.
pub proof fn lemma_voters_map_congruent(s: Seq<VoterEntry>, t: Seq<VoterEntry>)
    requires
        s.len() == t.len(),
        forall|j: int|
            0 <= j < s.len() ==> s[j].address@ == t[j].address@ && s[j].voter == t[j].voter,
    ensures
        voters_map(s) == voters_map(t),
    decreases s.len(),
{
    if s.len() > 0 {
        assert(forall|j: int|
            0 <= j < s.len() - 1 ==> s.drop_last()[j] == s[j] && t.drop_last()[j] == t[j]);
        lemma_voters_map_congruent(s.drop_last(), t.drop_last());
    }
}

/// Overwriting an entry in place is insertion in the map view.
pub proof fn lemma_voters_map_update(s: Seq<VoterEntry>, i: int, e: VoterEntry)
    requires
        distinct_addresses(s),
        0 <= i < s.len(),
        e.address@ == s[i].address@,
    ensures
        voters_map(s.update(i, e)) == voters_map(s).insert(e.address@, e.voter.is_voted),
    decreases s.len(),
{
    let t = s.update(i, e);
    if i == s.len() - 1 {
        assert(t.drop_last() =~= s.drop_last());
        assert(t.last() == e);
        assert(voters_map(t) =~= voters_map(s).insert(e.address@, e.voter.is_voted));
    } else {
        assert(t.drop_last() =~= s.drop_last().update(i, e));
        assert(t.last() == s.last());
        assert(forall|a: int, b: int|
            0 <= a < b < s.drop_last().len() ==> s.drop_last()[a].address@
                != s.drop_last()[b].address@);
        assert(s.drop_last()[i] == s[i]);
        lemma_voters_map_update(s.drop_last(), i, e);
        assert(e.address@ != s.last().address@);
        assert(voters_map(t) =~= voters_map(s).insert(e.address@, e.voter.is_voted));
    }
}

/// Removing an entry is removal in the map view.
pub proof fn lemma_voters_map_remove(s: Seq<VoterEntry>, i: int)
    requires
        distinct_addresses(s),
        0 <= i < s.len(),
    ensures
        voters_map(s.remove(i)) == voters_map(s).remove(s[i].address@),
    decreases s.len(),
{
    let t = s.remove(i);
    if i == s.len() - 1 {
        assert(t =~= s.drop_last());
        assert(forall|j: int| 0 <= j < s.len() - 1 ==> s.drop_last()[j].address@ != s[i].address@);
        lemma_voters_map_absent(s.drop_last(), s[i].address@);
        assert(voters_map(t) =~= voters_map(s).remove(s[i].address@));
    } else {
        assert(t.len() == s.len() - 1);
        assert(t.drop_last() =~= s.drop_last().remove(i));
        assert(t.last() == s.last());
        assert(forall|a: int, b: int|
            0 <= a < b < s.drop_last().len() ==> s.drop_last()[a].address@
                != s.drop_last()[b].address@);
        lemma_voters_map_remove(s.drop_last(), i);
        assert(s.drop_last()[i] == s[i]);
        assert(s[i].address@ != s.last().address@);
        assert(voters_map(t) =~= voters_map(s).remove(s[i].address@));
    }
}

/// Distinctness of addresses survives removing an entry.
pub proof fn lemma_distinct_addresses_remove(s: Seq<VoterEntry>, i: int)
    requires
        distinct_addresses(s),
        0 <= i < s.len(),
    ensures
        distinct_addresses(s.remove(i)),
{
    let t = s.remove(i);
    assert(forall|a: int, b: int| 0 <= a < b < t.len() ==> t[a].address@ != t[b].address@) by {
        assert(forall|a: int| 0 <= a < t.len() ==> t[a] == (if a < i {
            s[a]
        } else {
            s[a + 1]
        }));
    }
}

/// Distinctness of addresses survives an in-place update that keeps the
/// address.
pub proof fn lemma_distinct_addresses_update(s: Seq<VoterEntry>, i: int, e: VoterEntry)
    requires
        distinct_addresses(s),
        0 <= i < s.len(),
        e.address@ == s[i].address@,
    ensures
        distinct_addresses(s.update(i, e)),
{
}

/// Distinctness of candidate ids survives an in-place update that keeps the
/// id.
pub proof fn lemma_distinct_ids_update(s: Seq<CandidateView>, i: int, c: CandidateView)
    requires
        distinct_ids(s),
        0 <= i < s.len(),
        c.id == s[i].id,
    ensures
        distinct_ids(s.update(i, c)),
{
}

} // verus!
