use voting::address::{candidate_address, poll_address, same_key, u64_le_bytes, Key};
use voting::ledger::{
    initialize_candidate, initialize_poll, vote, InitializeCandidate, InitializePoll, Ledger, Vote,
};
use voting::records::{ErrorCode, PollError};

const PROGRAM: Key = [7u8; 32];

fn key(b: u8) -> Key {
    [b; 32]
}

fn create_poll(l: &mut Ledger, poll_id: u64, start: u64, end: u64, now: u64) -> Result<(), ErrorCode> {
    initialize_poll(
        l,
        &InitializePoll { signer: key(1), now },
        poll_id,
        String::from("A poll"),
        start,
        end,
    )
}

fn add_candidate(l: &mut Ledger, poll_id: u64, name: &str) -> Result<(), ErrorCode> {
    initialize_candidate(l, &InitializeCandidate { signer: key(1) }, String::from(name), poll_id)
}

fn cast(l: &mut Ledger, poll_id: u64, name: &str, voter: Key, now: u64) -> Result<(), ErrorCode> {
    vote(l, &Vote { signer: voter, now }, String::from(name), poll_id)
}

#[test]
fn scenario_single_poll() {
    let mut l = Ledger::new(PROGRAM);
    assert_eq!(create_poll(&mut l, 1, 100, 200, 150), Ok(()));
    assert_eq!(add_candidate(&mut l, 1, "Alice"), Ok(()));
    assert_eq!(l.poll(1).unwrap().candidate_amount, 1);
    assert_eq!(cast(&mut l, 1, "Alice", key(11), 150), Ok(()));
    assert_eq!(l.poll(1).unwrap().total_votes, 1);
    assert_eq!(l.candidate(1, &String::from("Alice")).unwrap().candidate_votes, 1);
    assert_eq!(cast(&mut l, 1, "Alice", key(11), 160), Err(ErrorCode::AlreadyVoted));
    assert_eq!(l.poll(1).unwrap().total_votes, 1);
    assert_eq!(l.poll(1).unwrap().voters.len(), 1);
    assert_eq!(l.candidate(1, &String::from("Alice")).unwrap().candidate_votes, 1);
    assert_eq!(cast(&mut l, 1, "Alice", key(12), 250), Err(ErrorCode::InvalidVoteTime));
    assert_eq!(l.poll(1).unwrap().total_votes, 1);
}

#[test]
fn same_name_in_two_polls() {
    let mut l = Ledger::new(PROGRAM);
    assert_eq!(create_poll(&mut l, 1, 100, 200, 150), Ok(()));
    assert_eq!(create_poll(&mut l, 2, 100, 200, 150), Ok(()));
    assert_eq!(add_candidate(&mut l, 1, "Alice"), Ok(()));
    assert_eq!(add_candidate(&mut l, 2, "Alice"), Ok(()));
    let name = String::from("Alice");
    let a1 = candidate_address(&PROGRAM, 1, &name).unwrap();
    let a2 = candidate_address(&PROGRAM, 2, &name).unwrap();
    assert!(!same_key(&a1, &a2));
    assert_eq!(cast(&mut l, 1, "Alice", key(11), 150), Ok(()));
    assert_eq!(cast(&mut l, 1, "Alice", key(12), 150), Ok(()));
    assert_eq!(l.candidate(2, &name).unwrap().candidate_votes, 0);
    assert_eq!(cast(&mut l, 2, "Alice", key(11), 150), Ok(()));
    assert_eq!(l.candidate(1, &name).unwrap().candidate_votes, 2);
    assert_eq!(l.candidate(2, &name).unwrap().candidate_votes, 1);
    assert_eq!(l.poll(1).unwrap().total_votes, 2);
    assert_eq!(l.poll(2).unwrap().total_votes, 1);
}

#[test]
fn poll_end_in_the_past() {
    let mut l = Ledger::new(PROGRAM);
    assert_eq!(
        create_poll(&mut l, 1, 100, 200, 200),
        Err(ErrorCode::Invalid(PollError::PollEndInThePast))
    );
    assert_eq!(
        create_poll(&mut l, 1, 100, 200, 300),
        Err(ErrorCode::Invalid(PollError::PollEndInThePast))
    );
    assert!(l.poll(1).is_none());
    assert_eq!(create_poll(&mut l, 1, 100, 201, 200), Ok(()));
}

#[test]
fn poll_created_once() {
    let mut l = Ledger::new(PROGRAM);
    assert_eq!(create_poll(&mut l, 5, 100, 200, 150), Ok(()));
    let second = initialize_poll(
        &mut l,
        &InitializePoll { signer: key(2), now: 10 },
        5,
        String::from("Another"),
        1,
        900,
    );
    assert_eq!(second, Err(ErrorCode::AddressOccupied));
    let p = l.poll(5).unwrap();
    assert_eq!(p.poll_id, 5);
    assert_eq!(p.description, "A poll");
    assert_eq!(p.poll_start, 100);
    assert_eq!(p.poll_end, 200);
}

#[test]
fn candidate_before_poll() {
    let mut l = Ledger::new(PROGRAM);
    assert_eq!(add_candidate(&mut l, 1, "Alice"), Err(ErrorCode::PollNotFound));
    assert!(l.candidate(1, &String::from("Alice")).is_none());
}

#[test]
fn description_and_name_limits() {
    let mut l = Ledger::new(PROGRAM);
    let long = "d".repeat(201);
    let r = initialize_poll(&mut l, &InitializePoll { signer: key(1), now: 0 }, 1, long, 0, 10);
    assert_eq!(r, Err(ErrorCode::Invalid(PollError::DescriptionTooLong)));
    let full = "d".repeat(200);
    let r = initialize_poll(&mut l, &InitializePoll { signer: key(1), now: 0 }, 1, full, 0, 10);
    assert_eq!(r, Ok(()));
    assert_eq!(
        add_candidate(&mut l, 1, &"n".repeat(33)),
        Err(ErrorCode::Invalid(PollError::NameTooLong))
    );
    assert_eq!(add_candidate(&mut l, 1, &"n".repeat(32)), Ok(()));
    assert_eq!(l.poll(1).unwrap().candidate_amount, 1);
}

#[test]
fn duplicate_candidate() {
    let mut l = Ledger::new(PROGRAM);
    assert_eq!(create_poll(&mut l, 1, 100, 200, 150), Ok(()));
    assert_eq!(add_candidate(&mut l, 1, "Bob"), Ok(()));
    assert_eq!(add_candidate(&mut l, 1, "Bob"), Err(ErrorCode::AddressOccupied));
    assert_eq!(l.poll(1).unwrap().candidate_amount, 1);
}

#[test]
fn vote_lookups_fail() {
    let mut l = Ledger::new(PROGRAM);
    assert_eq!(cast(&mut l, 1, "Alice", key(11), 150), Err(ErrorCode::PollNotFound));
    assert_eq!(create_poll(&mut l, 1, 100, 200, 150), Ok(()));
    assert_eq!(cast(&mut l, 1, "Alice", key(11), 150), Err(ErrorCode::CandidateNotFound));
    assert_eq!(l.poll(1).unwrap().total_votes, 0);
    assert_eq!(l.poll(1).unwrap().voters.len(), 0);
}

#[test]
fn vote_window_is_inclusive() {
    let mut l = Ledger::new(PROGRAM);
    assert_eq!(create_poll(&mut l, 1, 100, 200, 50), Ok(()));
    assert_eq!(add_candidate(&mut l, 1, "Alice"), Ok(()));
    assert_eq!(cast(&mut l, 1, "Alice", key(11), 99), Err(ErrorCode::InvalidVoteTime));
    assert_eq!(cast(&mut l, 1, "Alice", key(11), 100), Ok(()));
    assert_eq!(cast(&mut l, 1, "Alice", key(12), 200), Ok(()));
    assert_eq!(cast(&mut l, 1, "Alice", key(13), 201), Err(ErrorCode::InvalidVoteTime));
    assert_eq!(l.poll(1).unwrap().total_votes, 2);
}

#[test]
fn tallies_agree_across_candidates() {
    let mut l = Ledger::new(PROGRAM);
    assert_eq!(create_poll(&mut l, 3, 0, 1000, 10), Ok(()));
    assert_eq!(add_candidate(&mut l, 3, "Alice"), Ok(()));
    assert_eq!(add_candidate(&mut l, 3, "Bob"), Ok(()));
    for v in 0..10u8 {
        let name = if v % 3 == 0 { "Alice" } else { "Bob" };
        assert_eq!(cast(&mut l, 3, name, key(v), 20), Ok(()));
    }
    let p = l.poll(3).unwrap();
    let a = l.candidate(3, &String::from("Alice")).unwrap().candidate_votes;
    let b = l.candidate(3, &String::from("Bob")).unwrap().candidate_votes;
    assert_eq!(a, 4);
    assert_eq!(b, 6);
    assert_eq!(a + b, p.total_votes);
    assert_eq!(p.total_votes as usize, p.voters.len());
    assert_eq!(p.candidate_amount, 2);
}

#[test]
fn voter_limit() {
    let mut l = Ledger::new(PROGRAM);
    assert_eq!(create_poll(&mut l, 9, 0, 1000, 10), Ok(()));
    assert_eq!(add_candidate(&mut l, 9, "Alice"), Ok(()));
    for v in 0..1000u32 {
        let mut k = [0u8; 32];
        k[..4].copy_from_slice(&v.to_le_bytes());
        assert_eq!(cast(&mut l, 9, "Alice", k, 20), Ok(()));
    }
    let mut k = [0u8; 32];
    k[31] = 1;
    assert_eq!(cast(&mut l, 9, "Alice", k, 20), Err(ErrorCode::VoterLimitReached));
    assert_eq!(l.poll(9).unwrap().total_votes, 1000);
}

#[test]
fn addresses_are_derived() {
    let a = poll_address(&PROGRAM, 1).unwrap();
    assert_eq!(a, poll_address(&PROGRAM, 1).unwrap());
    assert!(!same_key(&a, &poll_address(&PROGRAM, 2).unwrap()));
    assert!(!same_key(&a, &PROGRAM));
    let name = String::from("Alice");
    let c = candidate_address(&PROGRAM, 1, &name).unwrap();
    assert!(!same_key(&a, &c));
    assert!(!same_key(&c, &poll_address(&[8u8; 32], 1).unwrap()));
}

#[test]
fn le_bytes_of_u64() {
    assert_eq!(u64_le_bytes(0x0102030405060708), vec![8, 7, 6, 5, 4, 3, 2, 1]);
    assert_eq!(u64_le_bytes(1), vec![1, 0, 0, 0, 0, 0, 0, 0]);
}
