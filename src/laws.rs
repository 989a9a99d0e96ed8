//! Properties of the transitions, stated over their specifications.

use crate::address::{poll_seeds, program_address, text_bytes, Key};
use crate::ledger::{
    initialize_candidate_spec, initialize_poll_spec, lemma_initialize_candidate_consistent,
    lemma_initialize_poll_consistent, lemma_vote_consistent, poll_index, tally, vote_spec,
    LedgerView,
};
use crate::codec::{candidate_bounded, poll_bounded};
use crate::records::{ErrorCode, PollError, MAX_DESCRIPTION_LEN, POLL_END_FLOOR};
use vstd::prelude::*;

verus! {

/// After any vote attempt, every poll's candidate votes add up to its total
/// votes, which equals the number of its voters.
pub proof fn lemma_vote_tallies_agree(
    l: LedgerView,
    poll_id: u64,
    name: Seq<char>,
    voter: Key,
    now: u64,
    i: int,
)
    requires
        l.wf(),
        0 <= i < vote_spec(l, poll_id, name, voter, now).1.polls.len(),
    ensures
        ({
            let n = vote_spec(l, poll_id, name, voter, now).1;
            &&& tally(n.candidates, n.polls[i].address) == n.polls[i].poll.total_votes
            &&& n.polls[i].poll.total_votes == n.polls[i].poll.voters.len()
        }),
{
    lemma_vote_consistent(l, poll_id, name, voter, now);
    let n = vote_spec(l, poll_id, name, voter, now).1;
    assert(n.poll_consistent(i));
}

/// After any poll creation, every poll's candidate votes still add up to its
/// total votes and to its number of voters.
pub proof fn lemma_poll_creation_tallies_agree(
    l: LedgerView,
    poll_id: u64,
    description: Seq<char>,
    poll_start: u64,
    poll_end: u64,
    now: u64,
    i: int,
)
    requires
        l.wf(),
        0 <= i < initialize_poll_spec(l, poll_id, description, poll_start, poll_end, now).1.polls.len(),
    ensures
        ({
            let n = initialize_poll_spec(l, poll_id, description, poll_start, poll_end, now).1;
            &&& tally(n.candidates, n.polls[i].address) == n.polls[i].poll.total_votes
            &&& n.polls[i].poll.total_votes == n.polls[i].poll.voters.len()
        }),
{
    lemma_initialize_poll_consistent(l, poll_id, description, poll_start, poll_end, now);
    assert(initialize_poll_spec(l, poll_id, description, poll_start, poll_end, now).1.poll_consistent(i));
}

/// After any candidate registration, every poll's candidate votes still add
/// up to its total votes and to its number of voters.
pub proof fn lemma_registration_tallies_agree(l: LedgerView, poll_id: u64, name: Seq<char>, i: int)
    requires
        l.wf(),
        0 <= i < initialize_candidate_spec(l, poll_id, name).1.polls.len(),
    ensures
        ({
            let n = initialize_candidate_spec(l, poll_id, name).1;
            &&& tally(n.candidates, n.polls[i].address) == n.polls[i].poll.total_votes
            &&& n.polls[i].poll.total_votes == n.polls[i].poll.voters.len()
        }),
{
    lemma_initialize_candidate_consistent(l, poll_id, name);
    assert(initialize_candidate_spec(l, poll_id, name).1.poll_consistent(i));
}

/// No vote attempt lets an identity appear twice among a poll's voters.
pub proof fn lemma_voters_stay_distinct(
    l: LedgerView,
    poll_id: u64,
    name: Seq<char>,
    voter: Key,
    now: u64,
    i: int,
)
    requires
        l.wf(),
        0 <= i < vote_spec(l, poll_id, name, voter, now).1.polls.len(),
    ensures
        vote_spec(l, poll_id, name, voter, now).1.polls[i].poll.voters.no_duplicates(),
{
    lemma_vote_consistent(l, poll_id, name, voter, now);
    assert(vote_spec(l, poll_id, name, voter, now).1.poll_consistent(i));
}

/// A vote by an identity that already voted in the poll is refused and
/// changes nothing.
pub proof fn lemma_second_vote_refused(
    l: LedgerView,
    poll_id: u64,
    name: Seq<char>,
    other: Seq<char>,
    voter: Key,
    now: u64,
    later: u64,
)
    requires
        l.wf(),
        vote_spec(l, poll_id, name, voter, now).0 is Ok,
    ensures
        ({
            let n = vote_spec(l, poll_id, name, voter, now).1;
            vote_spec(n, poll_id, other, voter, later) == (
                Err::<(), ErrorCode>(ErrorCode::AlreadyVoted),
                n,
            )
        }),
{
    let n = vote_spec(l, poll_id, name, voter, now).1;
    let pa = program_address(poll_seeds(poll_id), l.program_id)->Some_0;
    let pi = poll_index(l.polls, pa);
    lemma_vote_consistent(l, poll_id, name, voter, now);
    assert(n.polls[pi].address == pa);
    let j = poll_index(n.polls, pa);
    assert(n.polls[j].address == pa);
    assert(j == pi);
    assert(n.polls[pi].poll.voters.last() == voter);
}

/// Creating a poll whose end is not after the current time fails with
/// `PollEndInThePast` and leaves the ledger as it was.
pub proof fn lemma_poll_end_in_past(
    l: LedgerView,
    poll_id: u64,
    description: Seq<char>,
    poll_start: u64,
    poll_end: u64,
    now: u64,
)
    requires
        poll_end <= now,
    ensures
        initialize_poll_spec(l, poll_id, description, poll_start, poll_end, now) == (
            Err::<(), ErrorCode>(ErrorCode::Invalid(PollError::PollEndInThePast)),
            l,
        ),
{
}

/// Once a poll was created, a second creation with the same id fails with
/// `AddressOccupied` and leaves the ledger, and so the first record, as it was.
pub proof fn lemma_poll_created_once(
    l: LedgerView,
    poll_id: u64,
    description: Seq<char>,
    poll_start: u64,
    poll_end: u64,
    now: u64,
    description2: Seq<char>,
    poll_start2: u64,
    poll_end2: u64,
    now2: u64,
)
    requires
        l.wf(),
        initialize_poll_spec(l, poll_id, description, poll_start, poll_end, now).0 is Ok,
        poll_end2 > now2,
        poll_end2 > POLL_END_FLOOR,
        text_bytes(description2).len() <= MAX_DESCRIPTION_LEN,
    ensures
        ({
            let n = initialize_poll_spec(l, poll_id, description, poll_start, poll_end, now).1;
            initialize_poll_spec(n, poll_id, description2, poll_start2, poll_end2, now2) == (
                Err::<(), ErrorCode>(ErrorCode::AddressOccupied),
                n,
            )
        }),
{
    let n = initialize_poll_spec(l, poll_id, description, poll_start, poll_end, now).1;
    let a = program_address(poll_seeds(poll_id), l.program_id)->Some_0;
    assert(n.polls[n.polls.len() - 1].address == a);
}

/// Registering a candidate in a poll that has no record fails with
/// `PollNotFound` and leaves the ledger as it was.
pub proof fn lemma_candidate_needs_poll(l: LedgerView, poll_id: u64, name: Seq<char>)
    requires
        forall|i: int|
            0 <= i < l.polls.len() ==> Some(l.polls[i].address) != program_address(
                poll_seeds(poll_id),
                l.program_id,
            ),
    ensures
        initialize_candidate_spec(l, poll_id, name) == (
            Err::<(), ErrorCode>(ErrorCode::PollNotFound),
            l,
        ),
{
}

/// Every record that a consistent ledger holds fits the bounds its stored
/// form is sized for, so it can be written and read back unchanged.
pub proof fn lemma_stored_records_fit(l: LedgerView)
    requires
        l.wf(),
    ensures
        forall|i: int| 0 <= i < l.polls.len() ==> poll_bounded(#[trigger] l.polls[i].poll),
        forall|k: int|
            0 <= k < l.candidates.len() ==> candidate_bounded(#[trigger] l.candidates[k].candidate),
{
    assert forall|i: int| 0 <= i < l.polls.len() implies poll_bounded(#[trigger] l.polls[i].poll) by {
        assert(l.poll_consistent(i));
    }
    assert forall|k: int| 0 <= k < l.candidates.len() implies candidate_bounded(
        #[trigger] l.candidates[k].candidate,
    ) by {
        assert(text_bytes(l.candidates[k].candidate.candidate_name).len() <= crate::records::MAX_NAME_LEN);
    }
}

} // verus!
