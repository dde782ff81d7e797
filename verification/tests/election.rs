use voting::Candidate;
use voting::Error;
use voting::VotingContract;
use voting::election::get_candidate;
use voting::election::increase_votes;
use voting::election::set_voted_status_voter;
use voting::types::Voter;
use voting::types::VoterEntry;
use voting::types::bytes_eq;
use voting::types::clone_bytes;

fn b(s: &str) -> Vec<u8> {
    s.as_bytes().to_vec()
}

fn new_active(admin: &str) -> VotingContract {
    let mut c = VotingContract::new(b(admin));
    c.start_voting(&b(admin)).unwrap();
    c
}

#[test]
fn test_authorized_voters() {
    let admin = b("admin");
    let mut c = VotingContract::new(admin.clone());
    c.start_voting(&admin).unwrap();
    c.start_voting(&admin).unwrap();

    let voter_1 = b("voter_1");
    let voter_2 = b("voter_2");

    c.authorize_voter(&admin, voter_1.clone()).unwrap();
    c.authorize_voter(&admin, voter_2.clone()).unwrap();

    assert!(!c.get_voter(&voter_1).unwrap().is_voted);
    assert!(!c.get_voter(&voter_2).unwrap().is_voted);
}

#[test]
fn test_vote() {
    let admin = b("admin");
    let mut c = new_active("admin");

    let voter_1 = b("voter_1");
    let voter_2 = b("voter_2");

    c.authorize_voter(&admin, voter_1.clone()).unwrap();
    c.authorize_voter(&admin, voter_2.clone()).unwrap();

    let candidate_id = c
        .add_candidate(&admin, 1, b("candidate"), b("party"), b("avatar"))
        .unwrap();

    c.vote(&voter_1, candidate_id).unwrap();
    assert!(c.get_voter(&voter_1).unwrap().is_voted);
    assert_eq!(c.get_candidate(candidate_id).unwrap().votes, 1);

    c.vote(&voter_2, candidate_id).unwrap();
    assert!(c.get_voter(&voter_2).unwrap().is_voted);
    assert_eq!(c.get_candidate(candidate_id).unwrap().votes, 2);

    assert_eq!(c.get_winners(), vec![c.get_candidate(candidate_id).unwrap()]);
}

#[test]
fn test_get_winners() {
    let admin = b("admin");
    let mut c = new_active("admin");

    let voter_1 = b("voter_1");
    let voter_2 = b("voter_2");

    c.authorize_voter(&admin, voter_1.clone()).unwrap();
    c.authorize_voter(&admin, voter_2.clone()).unwrap();

    let candidate_id_1 = c
        .add_candidate(&admin, 1, b("candidate_1"), b("party"), b("avatar"))
        .unwrap();
    let candidate_id_2 = c
        .add_candidate(&admin, 2, b("candidate_2"), b("party"), b("avatar"))
        .unwrap();

    c.vote(&voter_1, candidate_id_1).unwrap();
    c.vote(&voter_2, candidate_id_2).unwrap();

    assert_eq!(
        c.get_winners(),
        vec![
            c.get_candidate(candidate_id_1).unwrap(),
            c.get_candidate(candidate_id_2).unwrap()
        ]
    );
}

#[test]
fn test_total_votes() {
    let admin = b("admin");
    let mut c = new_active("admin");

    let voter_1 = b("voter_1");
    let voter_2 = b("voter_2");

    c.authorize_voter(&admin, voter_1.clone()).unwrap();
    c.authorize_voter(&admin, voter_2.clone()).unwrap();

    let candidate_id_1 = c
        .add_candidate(&admin, 1, b("candidate_1"), b("party"), b("avatar"))
        .unwrap();
    let candidate_id_2 = c
        .add_candidate(&admin, 2, b("candidate_2"), b("party"), b("avatar"))
        .unwrap();

    c.vote(&voter_1, candidate_id_1).unwrap();
    assert!(c.get_voter(&voter_1).unwrap().is_voted);
    assert_eq!(c.get_candidate(candidate_id_1).unwrap().votes, 1);

    c.vote(&voter_2, candidate_id_2).unwrap();
    assert!(c.get_voter(&voter_2).unwrap().is_voted);
    assert_eq!(c.get_candidate(candidate_id_2).unwrap().votes, 1);

    assert_eq!(c.get_total_votes(), 2);
}

#[test]
fn test_voter_is_unauthorized() {
    let admin = b("admin");
    let mut c = new_active("admin");

    let voter_1 = b("voter_1");

    let candidate_id = c
        .add_candidate(&admin, 1, b("candidate"), b("party"), b("avatar"))
        .unwrap();

    assert_eq!(c.vote(&voter_1, candidate_id), Err(Error::VoterNotAuthorized));
}

#[test]
fn test_voter_revoked() {
    let admin = b("admin");
    let mut c = new_active("admin");

    let voter_1 = b("voter_1");

    let candidate_id = c
        .add_candidate(&admin, 1, b("candidate"), b("party"), b("avatar"))
        .unwrap();
    c.authorize_voter(&admin, voter_1.clone()).unwrap();
    c.revoke_voter(&admin, voter_1.clone()).unwrap();
    assert_eq!(c.vote(&voter_1, candidate_id), Err(Error::VoterNotAuthorized));
}

#[test]
fn test_vote_candidate_not_found() {
    let admin = b("admin");
    let mut c = new_active("admin");

    let voter_1 = b("voter_1");

    c.authorize_voter(&admin, voter_1.clone()).unwrap();
    assert_eq!(c.vote(&voter_1, 1), Err(Error::CandidateNotFound));
}

#[test]
fn test_duplicate_vote() {
    let admin = b("admin");
    let mut c = new_active("admin");

    let voter_1 = b("voter_1");
    c.authorize_voter(&admin, voter_1.clone()).unwrap();

    let candidate_id = c
        .add_candidate(&admin, 1, b("candidate"), b("party"), b("avatar"))
        .unwrap();
    c.vote(&voter_1, candidate_id).unwrap();
    assert_eq!(c.vote(&voter_1, candidate_id), Err(Error::VoterAlreadyVoted));
}

#[test]
fn test_vote_unstarted_voting() {
    let admin = b("admin");
    let mut c = VotingContract::new(admin.clone());

    let voter_1 = b("voter_1");
    assert_eq!(
        c.authorize_voter(&admin, voter_1.clone()),
        Err(Error::VotingEnded)
    );

    assert_eq!(
        c.add_candidate(&admin, 1, b("candidate"), b("party"), b("avatar")),
        Err(Error::VotingEnded)
    );
    assert_eq!(c.vote(&voter_1, 1), Err(Error::VotingEnded));
}

#[test]
fn test_vote_ended_voting() {
    let admin = b("admin");
    let mut c = new_active("admin");
    c.end_voting(&admin).unwrap();

    let voter_1 = b("voter_1");
    assert_eq!(
        c.authorize_voter(&admin, voter_1.clone()),
        Err(Error::VotingEnded)
    );

    assert_eq!(
        c.add_candidate(&admin, 1, b("candidate"), b("party"), b("avatar")),
        Err(Error::VotingEnded)
    );
    assert_eq!(c.vote(&voter_1, 1), Err(Error::VotingEnded));
}

#[test]
fn test_restart_voting_when_votes_is_received() {
    let admin = b("admin");
    let mut c = new_active("admin");

    let voter_1 = b("voter_1");
    let voter_2 = b("voter_2");
    c.authorize_voter(&admin, voter_1.clone()).unwrap();
    c.authorize_voter(&admin, voter_2.clone()).unwrap();

    let candidate_id = c
        .add_candidate(&admin, 1, b("candidate"), b("party"), b("avatar"))
        .unwrap();
    c.vote(&voter_1, candidate_id).unwrap();
    c.end_voting(&admin).unwrap();
    assert_eq!(c.start_voting(&admin), Err(Error::VotingEnded));
}

#[test]
fn test_winners_tie_break() {
    let admin = b("admin");
    let mut c = new_active("admin");

    c.add_candidate(&admin, 10, b("first"), b("p"), b("a")).unwrap();
    c.add_candidate(&admin, 20, b("second"), b("p"), b("a")).unwrap();
    c.add_candidate(&admin, 30, b("third"), b("p"), b("a")).unwrap();

    let plan: [(u64, u32); 3] = [(10, 5), (20, 5), (30, 3)];
    let mut n: u32 = 0;
    for (cid, count) in plan {
        for _ in 0..count {
            let voter = b(&format!("voter_{}", n));
            n += 1;
            c.authorize_voter(&admin, voter.clone()).unwrap();
            c.vote(&voter, cid).unwrap();
        }
    }

    let winners = c.get_winners();
    assert_eq!(winners.len(), 2);
    assert_eq!(winners[0].id, 10);
    assert_eq!(winners[0].votes, 5);
    assert_eq!(winners[1].id, 20);
    assert_eq!(winners[1].votes, 5);
}

#[test]
fn test_winners_all_zero_votes() {
    let admin = b("admin");
    let mut c = new_active("admin");

    c.add_candidate(&admin, 1, b("first"), b("p"), b("a")).unwrap();
    c.add_candidate(&admin, 2, b("second"), b("p"), b("a")).unwrap();

    let winners = c.get_winners();
    assert_eq!(winners.len(), 2);
    assert_eq!(winners[0].id, 1);
    assert_eq!(winners[1].id, 2);
    assert!(winners.iter().all(|w| w.votes == 0));

    assert_eq!(VotingContract::new(b("admin")).get_winners(), vec![]);
}

#[test]
fn test_revoke_then_reauthorize_resets_voter() {
    let admin = b("admin");
    let mut c = new_active("admin");

    let voter = b("voter");
    let candidate_id = c
        .add_candidate(&admin, 1, b("candidate"), b("party"), b("avatar"))
        .unwrap();
    c.authorize_voter(&admin, voter.clone()).unwrap();
    c.vote(&voter, candidate_id).unwrap();
    assert!(c.get_voter(&voter).unwrap().is_voted);

    c.revoke_voter(&admin, voter.clone()).unwrap();
    assert_eq!(c.get_voter(&voter), Err(Error::VoterNotAuthorized));

    c.authorize_voter(&admin, voter.clone()).unwrap();
    assert!(!c.get_voter(&voter).unwrap().is_voted);

    c.vote(&voter, candidate_id).unwrap();
    assert_eq!(c.get_candidate(candidate_id).unwrap().votes, 2);
}

#[test]
fn test_revoke_absent_voter_is_no_error() {
    let admin = b("admin");
    let mut c = new_active("admin");
    assert_eq!(c.revoke_voter(&admin, b("nobody")), Ok(()));
}

#[test]
fn test_restart_while_no_votes_is_idempotent() {
    let admin = b("admin");
    let mut c = VotingContract::new(admin.clone());
    assert_eq!(c.get_total_votes(), 0);
    c.start_voting(&admin).unwrap();
    c.start_voting(&admin).unwrap();
    c.end_voting(&admin).unwrap();
    c.start_voting(&admin).unwrap();
    assert!(c.get_is_voting_active());
}

#[test]
fn test_admin_not_authorized() {
    let admin = b("admin");
    let outsider = b("outsider");
    let mut c = new_active("admin");

    assert_eq!(
        c.add_candidate(&outsider, 1, b("candidate"), b("party"), b("avatar")),
        Err(Error::AdminNotAuthorized)
    );
    assert_eq!(
        c.authorize_voter(&outsider, b("voter")),
        Err(Error::AdminNotAuthorized)
    );
    assert_eq!(
        c.revoke_voter(&outsider, b("voter")),
        Err(Error::AdminNotAuthorized)
    );
    assert_eq!(c.start_voting(&outsider), Err(Error::AdminNotAuthorized));
    assert_eq!(c.end_voting(&outsider), Err(Error::AdminNotAuthorized));
    assert_eq!(c.get_admin(), admin);
}

#[test]
fn test_failed_vote_leaves_state_untouched() {
    let admin = b("admin");
    let mut c = new_active("admin");

    let voter = b("voter");
    c.authorize_voter(&admin, voter.clone()).unwrap();
    assert_eq!(c.vote(&voter, 999), Err(Error::CandidateNotFound));
    assert!(!c.get_voter(&voter).unwrap().is_voted);
    assert_eq!(c.get_total_votes(), 0);
}

#[test]
fn test_candidate_overwritten_on_id_collision() {
    let admin = b("admin");
    let mut c = new_active("admin");

    let voter = b("voter");
    c.authorize_voter(&admin, voter.clone()).unwrap();
    c.add_candidate(&admin, 7, b("first"), b("party"), b("avatar")).unwrap();
    c.vote(&voter, 7).unwrap();
    assert_eq!(c.get_candidate(7).unwrap().votes, 1);

    c.add_candidate(&admin, 7, b("second"), b("party"), b("avatar")).unwrap();
    let overwritten = c.get_candidate(7).unwrap();
    assert_eq!(overwritten.name, b("second"));
    assert_eq!(overwritten.votes, 0);
    assert_eq!(c.get_candidates_list().len(), 1);
}

#[test]
fn test_get_candidates_list_in_registration_order() {
    let admin = b("admin");
    let mut c = new_active("admin");
    assert_eq!(c.get_candidates_list(), vec![]);

    c.add_candidate(&admin, 5, b("one"), b("p"), b("a")).unwrap();
    c.add_candidate(&admin, 3, b("two"), b("p"), b("a")).unwrap();
    c.add_candidate(&admin, 9, b("three"), b("p"), b("a")).unwrap();

    let list = c.get_candidates_list();
    let ids: Vec<u64> = list.iter().map(|x| x.id).collect();
    assert_eq!(ids, vec![5, 3, 9]);
    assert_eq!(list[1].name, b("two"));
}

#[test]
fn test_get_candidate_not_found() {
    let c = VotingContract::new(b("admin"));
    assert_eq!(c.get_candidate(1), Err(Error::CandidateNotFound));
}

#[test]
fn test_check_voting_active() {
    let admin = b("admin");
    let mut c = VotingContract::new(admin.clone());
    assert_eq!(c.check_voting_active(), Err(Error::VotingEnded));
    assert!(!c.get_is_voting_active());
    c.start_voting(&admin).unwrap();
    assert_eq!(c.check_voting_active(), Ok(()));
    assert!(c.get_is_voting_active());
}

#[test]
fn test_increase_votes_directly() {
    let mut candidates = vec![
        Candidate { id: 1, name: b("x"), party: b("p"), avatar: b("a"), votes: 0 },
        Candidate { id: 2, name: b("y"), party: b("p"), avatar: b("a"), votes: 4 },
    ];
    increase_votes(&mut candidates, 2).unwrap();
    assert_eq!(candidates[1].votes, 5);
    assert_eq!(candidates[0].votes, 0);
    assert_eq!(increase_votes(&mut candidates, 3), Err(Error::CandidateNotFound));

    let found = get_candidate(&candidates, 2).unwrap();
    assert_eq!(found.votes, 5);
    assert_eq!(get_candidate(&candidates, 3), Err(Error::CandidateNotFound));
}

#[test]
fn test_set_voted_status_voter_directly() {
    let mut voters = vec![VoterEntry {
        address: b("voter"),
        voter: Voter { is_voted: false },
    }];
    set_voted_status_voter(&mut voters, &b("voter"));
    assert!(voters[0].voter.is_voted);
    assert_eq!(voters.len(), 1);

    set_voted_status_voter(&mut voters, &b("other"));
    assert_eq!(voters.len(), 2);
    assert_eq!(voters[1].address, b("other"));
    assert!(voters[1].voter.is_voted);
}

#[test]
fn test_from_parts_roundtrip() {
    let admin = b("admin");
    let mut c = new_active("admin");
    c.add_candidate(&admin, 4, b("one"), b("p"), b("a")).unwrap();
    c.add_candidate(&admin, 2, b("two"), b("p"), b("a")).unwrap();
    c.authorize_voter(&admin, b("alice")).unwrap();
    c.authorize_voter(&admin, b("bob")).unwrap();
    c.vote(&b("alice"), 2).unwrap();

    let rebuilt = VotingContract::from_parts(
        c.get_admin(),
        c.get_candidates_list(),
        c.get_voters_list(),
        c.get_is_voting_active(),
    )
    .unwrap();

    assert_eq!(rebuilt.get_admin(), admin);
    assert_eq!(rebuilt.get_candidates_list(), c.get_candidates_list());
    assert_eq!(rebuilt.get_total_votes(), 1);
    assert!(rebuilt.get_is_voting_active());
    assert!(rebuilt.get_voter(&b("alice")).unwrap().is_voted);
    assert!(!rebuilt.get_voter(&b("bob")).unwrap().is_voted);
    assert_eq!(rebuilt.get_winners()[0].id, 2);
}

#[test]
fn test_from_parts_rejects_duplicates() {
    let dup_ids = vec![
        Candidate { id: 1, name: b("x"), party: b("p"), avatar: b("a"), votes: 0 },
        Candidate { id: 1, name: b("y"), party: b("p"), avatar: b("a"), votes: 0 },
    ];
    assert!(VotingContract::from_parts(b("admin"), dup_ids, vec![], true).is_none());

    let dup_addresses = vec![
        VoterEntry { address: b("alice"), voter: Voter { is_voted: false } },
        VoterEntry { address: b("alice"), voter: Voter { is_voted: true } },
    ];
    assert!(VotingContract::from_parts(b("admin"), vec![], dup_addresses, true).is_none());

    let overflowing_tally = vec![
        Candidate { id: 1, name: b("x"), party: b("p"), avatar: b("a"), votes: u32::MAX },
        Candidate { id: 2, name: b("y"), party: b("p"), avatar: b("a"), votes: 1 },
    ];
    assert!(VotingContract::from_parts(b("admin"), overflowing_tally, vec![], true).is_none());

    let ok = VotingContract::from_parts(b("admin"), vec![], vec![], false).unwrap();
    assert!(!ok.get_is_voting_active());
    assert_eq!(ok.get_total_votes(), 0);
}

#[test]
fn test_get_voters_list() {
    let admin = b("admin");
    let mut c = new_active("admin");
    c.authorize_voter(&admin, b("alice")).unwrap();
    c.authorize_voter(&admin, b("bob")).unwrap();
    c.add_candidate(&admin, 1, b("x"), b("p"), b("a")).unwrap();
    c.vote(&b("bob"), 1).unwrap();

    let list = c.get_voters_list();
    assert_eq!(list.len(), 2);
    let alice = list.iter().find(|e| e.address == b("alice")).unwrap();
    assert!(!alice.voter.is_voted);
    let bob = list.iter().find(|e| e.address == b("bob")).unwrap();
    assert!(bob.voter.is_voted);
}

#[test]
fn test_byte_helpers() {
    let x = b("abc");
    let y = clone_bytes(&x);
    assert_eq!(x, y);
    assert!(bytes_eq(&x, &y));
    assert!(!bytes_eq(&x, &b("abd")));
    assert!(!bytes_eq(&x, &b("ab")));
}
