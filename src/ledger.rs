//! The record store and the three transitions over it: creating a poll,
//! registering a candidate and casting a vote.

use crate::address::{
    candidate_address, candidate_seeds, poll_address, poll_seeds, program_address, same_key,
    text_bytes, Key,
};
use crate::records::{
    Candidate, CandidateView, ErrorCode, Poll, PollError, PollView, MAX_DESCRIPTION_LEN,
    MAX_NAME_LEN, MAX_VOTERS, POLL_END_FLOOR,
};
use vstd::prelude::*;

verus! {

/// A poll record and the address it is stored at.
pub struct PollAccount {
    pub address: Key,
    pub poll: Poll,
}

/// A candidate record, the address it is stored at, and the address of the
/// poll it belongs to.
pub struct CandidateAccount {
    pub address: Key,
    pub poll: Key,
    pub candidate: Candidate,
}

/// The records of one voting program.
pub struct Ledger {
    program_id: Key,
    polls: Vec<PollAccount>,
    candidates: Vec<CandidateAccount>,
}

/// A stored poll as mathematical values: its address and its fields.
pub struct PollEntry {
    pub address: Seq<u8>,
    pub poll: PollView,
}

/// A stored candidate as mathematical values: its address, the address of
/// its poll, and its fields.
pub struct CandidateEntry {
    pub address: Seq<u8>,
    pub poll: Seq<u8>,
    pub candidate: CandidateView,
}

/// What a ledger holds, as mathematical values.
pub struct LedgerView {
    pub program_id: Seq<u8>,
    pub polls: Seq<PollEntry>,
    pub candidates: Seq<CandidateEntry>,
}

impl View for PollAccount {
    type V = PollEntry;

    open spec fn view(&self) -> PollEntry {
        PollEntry { address: self.address@, poll: self.poll@ }
    }
}

impl View for CandidateAccount {
    type V = CandidateEntry;

    open spec fn view(&self) -> CandidateEntry {
        CandidateEntry { address: self.address@, poll: self.poll@, candidate: self.candidate@ }
    }
}

impl View for Ledger {
    type V = LedgerView;

    closed spec fn view(&self) -> LedgerView {
        LedgerView {
            program_id: self.program_id@,
            polls: self.polls@.map_values(|p: PollAccount| p@),
            candidates: self.candidates@.map_values(|c: CandidateAccount| c@),
        }
    }
}

/// The index of the poll stored at `a`, or -1 where none is.
pub open spec fn poll_index(polls: Seq<PollEntry>, a: Seq<u8>) -> int {
    if exists|i: int| 0 <= i < polls.len() && polls[i].address == a {
        choose|i: int| 0 <= i < polls.len() && polls[i].address == a
    } else {
        -1
    }
}

/// The index of the candidate stored at `a`, or -1 where none is.
pub open spec fn candidate_index(cands: Seq<CandidateEntry>, a: Seq<u8>) -> int {
    if exists|i: int| 0 <= i < cands.len() && cands[i].address == a {
        choose|i: int| 0 <= i < cands.len() && cands[i].address == a
    } else {
        -1
    }
}

/// The sum of the votes of the candidates of the poll at `poll`.
pub open spec fn tally(cands: Seq<CandidateEntry>, poll: Seq<u8>) -> int
    decreases cands.len(),
{
    if cands.len() == 0 {
        0
    } else {
        tally(cands.drop_last(), poll) + if cands.last().poll == poll {
            cands.last().candidate.candidate_votes as int
        } else {
            0
        }
    }
}

/// How many candidates the poll at `poll` has.
pub open spec fn enrolled(cands: Seq<CandidateEntry>, poll: Seq<u8>) -> int
    decreases cands.len(),
{
    if cands.len() == 0 {
        0
    } else {
        enrolled(cands.drop_last(), poll) + if cands.last().poll == poll {
            1int
        } else {
            0
        }
    }
}

impl LedgerView {
    /// A poll record as the transitions keep it: its counters agree with its
    /// voters and with its candidates.
    pub open spec fn poll_consistent(self, i: int) -> bool {
        let e = self.polls[i];
        &&& e.poll.total_votes == e.poll.voters.len()
        &&& e.poll.voters.no_duplicates()
        &&& e.poll.voters.len() <= MAX_VOTERS
        &&& text_bytes(e.poll.description).len() <= MAX_DESCRIPTION_LEN
        &&& e.poll.candidate_amount == enrolled(self.candidates, e.address)
        &&& tally(self.candidates, e.address) == e.poll.total_votes
    }

    /// The ledger's invariant: addresses are unique, every poll is
    /// consistent, and every candidate fits its bound and belongs to a stored
    /// poll.
    pub open spec fn wf(self) -> bool {
        &&& forall|i: int, j: int|
            0 <= i < self.polls.len() && 0 <= j < self.polls.len() && i != j
                ==> self.polls[i].address != self.polls[j].address
        &&& forall|i: int, j: int|
            0 <= i < self.candidates.len() && 0 <= j < self.candidates.len() && i != j
                ==> self.candidates[i].address != self.candidates[j].address
        &&& forall|i: int| 0 <= i < self.polls.len() ==> #[trigger] self.poll_consistent(i)
        &&& forall|k: int|
            0 <= k < self.candidates.len() ==> text_bytes(
                #[trigger] self.candidates[k].candidate.candidate_name,
            ).len() <= MAX_NAME_LEN && poll_index(self.polls, self.candidates[k].poll) >= 0
    }
}

/// A fresh poll record.
pub open spec fn new_poll(
    poll_id: u64,
    description: Seq<char>,
    poll_start: u64,
    poll_end: u64,
) -> PollView {
    PollView {
        poll_id,
        description,
        poll_start,
        poll_end,
        candidate_amount: 0,
        total_votes: 0,
        voters: Seq::empty(),
    }
}

/// The outcome of creating a poll, and the ledger after it.
pub open spec fn initialize_poll_spec(
    l: LedgerView,
    poll_id: u64,
    description: Seq<char>,
    poll_start: u64,
    poll_end: u64,
    now: u64,
) -> (Result<(), ErrorCode>, LedgerView) {
    if poll_end <= now {
        (Err(ErrorCode::Invalid(PollError::PollEndInThePast)), l)
    } else if poll_end <= POLL_END_FLOOR {
        (Err(ErrorCode::Invalid(PollError::InvalidPollEndTimestamp)), l)
    } else if text_bytes(description).len() > MAX_DESCRIPTION_LEN {
        (Err(ErrorCode::Invalid(PollError::DescriptionTooLong)), l)
    } else {
        match program_address(poll_seeds(poll_id), l.program_id) {
            None => (Err(ErrorCode::NoViableAddress), l),
            Some(a) => if poll_index(l.polls, a) >= 0 {
                (Err(ErrorCode::AddressOccupied), l)
            } else {
                (
                    Ok(()),
                    LedgerView {
                        polls: l.polls.push(
                            PollEntry {
                                address: a,
                                poll: new_poll(poll_id, description, poll_start, poll_end),
                            },
                        ),
                        ..l
                    },
                )
            },
        }
    }
}

/// The outcome of registering candidate `name` in poll `poll_id`, and the
/// ledger after it.
pub open spec fn initialize_candidate_spec(l: LedgerView, poll_id: u64, name: Seq<char>) -> (
    Result<(), ErrorCode>,
    LedgerView,
) {
    match program_address(poll_seeds(poll_id), l.program_id) {
        None => (Err(ErrorCode::PollNotFound), l),
        Some(pa) => {
            let pi = poll_index(l.polls, pa);
            if pi < 0 {
                (Err(ErrorCode::PollNotFound), l)
            } else if text_bytes(name).len() > MAX_NAME_LEN {
                (Err(ErrorCode::Invalid(PollError::NameTooLong)), l)
            } else {
                match program_address(candidate_seeds(poll_id, name), l.program_id) {
                    None => (Err(ErrorCode::NoViableAddress), l),
                    Some(ca) => if candidate_index(l.candidates, ca) >= 0 {
                        (Err(ErrorCode::AddressOccupied), l)
                    } else if l.polls[pi].poll.candidate_amount == u64::MAX {
                        (Err(ErrorCode::CounterOverflow), l)
                    } else {
                        let e = l.polls[pi];
                        (
                            Ok(()),
                            LedgerView {
                                polls: l.polls.update(
                                    pi,
                                    PollEntry {
                                        poll: PollView {
                                            candidate_amount: (e.poll.candidate_amount + 1) as u64,
                                            ..e.poll
                                        },
                                        ..e
                                    },
                                ),
                                candidates: l.candidates.push(
                                    CandidateEntry {
                                        address: ca,
                                        poll: pa,
                                        candidate: CandidateView {
                                            candidate_name: name,
                                            candidate_votes: 0,
                                        },
                                    },
                                ),
                                ..l
                            },
                        )
                    },
                }
            }
        },
    }
}

/// The outcome of `voter` voting for candidate `name` of poll `poll_id` at
/// time `now`, and the ledger after it.
pub open spec fn vote_spec(
    l: LedgerView,
    poll_id: u64,
    name: Seq<char>,
    voter: Key,
    now: u64,
) -> (Result<(), ErrorCode>, LedgerView) {
    match program_address(poll_seeds(poll_id), l.program_id) {
        None => (Err(ErrorCode::PollNotFound), l),
        Some(pa) => {
            let pi = poll_index(l.polls, pa);
            if pi < 0 {
                (Err(ErrorCode::PollNotFound), l)
            } else {
                let e = l.polls[pi];
                if e.poll.voters.contains(voter) {
                    (Err(ErrorCode::AlreadyVoted), l)
                } else if now < e.poll.poll_start || now > e.poll.poll_end {
                    (Err(ErrorCode::InvalidVoteTime), l)
                } else {
                    match program_address(candidate_seeds(poll_id, name), l.program_id) {
                        None => (Err(ErrorCode::CandidateNotFound), l),
                        Some(ca) => {
                            let ci = candidate_index(l.candidates, ca);
                            if ci < 0 || l.candidates[ci].poll != pa {
                                (Err(ErrorCode::CandidateNotFound), l)
                            } else if e.poll.voters.len() >= MAX_VOTERS {
                                (Err(ErrorCode::VoterLimitReached), l)
                            } else {
                                let c = l.candidates[ci];
                                (
                                    Ok(()),
                                    LedgerView {
                                        polls: l.polls.update(
                                            pi,
                                            PollEntry {
                                                poll: PollView {
                                                    total_votes: (e.poll.total_votes + 1) as u64,
                                                    voters: e.poll.voters.push(voter),
                                                    ..e.poll
                                                },
                                                ..e
                                            },
                                        ),
                                        candidates: l.candidates.update(
                                            ci,
                                            CandidateEntry {
                                                candidate: CandidateView {
                                                    candidate_votes: (c.candidate.candidate_votes
                                                        + 1) as u64,
                                                    ..c.candidate
                                                },
                                                ..c
                                            },
                                        ),
                                        ..l
                                    },
                                )
                            }
                        },
                    }
                }
            }
        },
    }
}

proof fn lemma_counts_push(cs: Seq<CandidateEntry>, c: CandidateEntry, p: Seq<u8>)
    ensures
        tally(cs.push(c), p) == tally(cs, p) + if c.poll == p {
            c.candidate.candidate_votes as int
        } else {
            0
        },
        enrolled(cs.push(c), p) == enrolled(cs, p) + if c.poll == p {
            1int
        } else {
            0
        },
{
    assert(cs.push(c).drop_last() =~= cs);
}

proof fn lemma_counts_update(cs: Seq<CandidateEntry>, k: int, c: CandidateEntry, p: Seq<u8>)
    requires
        0 <= k < cs.len(),
        c.poll == cs[k].poll,
    ensures
        tally(cs.update(k, c), p) == tally(cs, p) + if c.poll == p {
            c.candidate.candidate_votes - cs[k].candidate.candidate_votes
        } else {
            0
        },
        enrolled(cs.update(k, c), p) == enrolled(cs, p),
    decreases cs.len(),
{
    let u = cs.update(k, c);
    if k == cs.len() - 1 {
        assert(u.drop_last() =~= cs.drop_last());
    } else {
        assert(u.drop_last() =~= cs.drop_last().update(k, c));
        lemma_counts_update(cs.drop_last(), k, c, p);
    }
}

proof fn lemma_counts_absent(cs: Seq<CandidateEntry>, p: Seq<u8>)
    requires
        forall|k: int| 0 <= k < cs.len() ==> cs[k].poll != p,
    ensures
        tally(cs, p) == 0,
        enrolled(cs, p) == 0,
    decreases cs.len(),
{
    if cs.len() > 0 {
        lemma_counts_absent(cs.drop_last(), p);
    }
}

proof fn lemma_votes_within_tally(cs: Seq<CandidateEntry>, k: int, p: Seq<u8>)
    requires
        0 <= k < cs.len(),
        cs[k].poll == p,
    ensures
        cs[k].candidate.candidate_votes <= tally(cs, p),
    decreases cs.len(),
{
    if k < cs.len() - 1 {
        lemma_votes_within_tally(cs.drop_last(), k, p);
    }
    lemma_tally_nonneg(cs.drop_last(), p);
}

proof fn lemma_tally_nonneg(cs: Seq<CandidateEntry>, p: Seq<u8>)
    ensures
        tally(cs, p) >= 0,
    decreases cs.len(),
{
    if cs.len() > 0 {
        lemma_tally_nonneg(cs.drop_last(), p);
    }
}

proof fn lemma_index_found(polls: Seq<PollEntry>, a: Seq<u8>, i: int)
    requires
        0 <= i < polls.len(),
        polls[i].address == a,
    ensures
        poll_index(polls, a) >= 0,
{
}

/// Creating a poll keeps the ledger consistent.
pub proof fn lemma_initialize_poll_consistent(
    l: LedgerView,
    poll_id: u64,
    description: Seq<char>,
    poll_start: u64,
    poll_end: u64,
    now: u64,
)
    requires
        l.wf(),
    ensures
        initialize_poll_spec(l, poll_id, description, poll_start, poll_end, now).1.wf(),
{
    let (r, n) = initialize_poll_spec(l, poll_id, description, poll_start, poll_end, now);
    if r is Ok {
        let a = program_address(poll_seeds(poll_id), l.program_id)->Some_0;
        assert(forall|i: int| 0 <= i < l.polls.len() ==> l.polls[i].address != a);
        assert forall|k: int| 0 <= k < l.candidates.len() implies l.candidates[k].poll != a by {
            let x = l.candidates[k].poll;
            assert(l.candidates[k].candidate.candidate_name == l.candidates[k].candidate.candidate_name);
            if x == a {
                assert(poll_index(l.polls, x) >= 0);
            }
        }
        lemma_counts_absent(l.candidates, a);
        assert forall|i: int| 0 <= i < n.polls.len() implies #[trigger] n.poll_consistent(i) by {
            if i < l.polls.len() {
                assert(l.poll_consistent(i));
            } else {
                assert(n.polls[i].poll.voters =~= Seq::<Key>::empty());
            }
        }
        assert forall|k: int| 0 <= k < n.candidates.len() implies poll_index(
            n.polls,
            n.candidates[k].poll,
        ) >= 0 by {
            assert(text_bytes(l.candidates[k].candidate.candidate_name).len() <= MAX_NAME_LEN);
            let i = poll_index(l.polls, l.candidates[k].poll);
            lemma_index_found(n.polls, n.candidates[k].poll, i);
        }
    }
}

/// Registering a candidate keeps the ledger consistent.
pub proof fn lemma_initialize_candidate_consistent(l: LedgerView, poll_id: u64, name: Seq<char>)
    requires
        l.wf(),
    ensures
        initialize_candidate_spec(l, poll_id, name).1.wf(),
{
    let (r, n) = initialize_candidate_spec(l, poll_id, name);
    if r is Ok {
        let pa = program_address(poll_seeds(poll_id), l.program_id)->Some_0;
        let ca = program_address(candidate_seeds(poll_id, name), l.program_id)->Some_0;
        let pi = poll_index(l.polls, pa);
        let c = n.candidates.last();
        assert(forall|k: int| 0 <= k < l.candidates.len() ==> l.candidates[k].address != ca);
        assert forall|i: int| 0 <= i < n.polls.len() implies #[trigger] n.poll_consistent(i) by {
            assert(l.poll_consistent(i));
            lemma_counts_push(l.candidates, c, l.polls[i].address);
            if i != pi {
                assert(l.polls[i].address != l.polls[pi].address);
            }
        }
        assert forall|k: int| 0 <= k < n.candidates.len() implies text_bytes(
            #[trigger] n.candidates[k].candidate.candidate_name,
        ).len() <= MAX_NAME_LEN && poll_index(n.polls, n.candidates[k].poll) >= 0 by {
            if k < l.candidates.len() {
                assert(text_bytes(l.candidates[k].candidate.candidate_name).len() <= MAX_NAME_LEN);
                let i = poll_index(l.polls, l.candidates[k].poll);
                lemma_index_found(n.polls, n.candidates[k].poll, i);
            } else {
                lemma_index_found(n.polls, pa, pi);
            }
        }
    }
}

/// Casting a vote keeps the ledger consistent.
pub proof fn lemma_vote_consistent(l: LedgerView, poll_id: u64, name: Seq<char>, voter: Key, now: u64)
    requires
        l.wf(),
    ensures
        vote_spec(l, poll_id, name, voter, now).1.wf(),
{
    let (r, n) = vote_spec(l, poll_id, name, voter, now);
    if r is Ok {
        let pa = program_address(poll_seeds(poll_id), l.program_id)->Some_0;
        let ca = program_address(candidate_seeds(poll_id, name), l.program_id)->Some_0;
        let pi = poll_index(l.polls, pa);
        let ci = candidate_index(l.candidates, ca);
        let c = n.candidates[ci];
        assert(l.poll_consistent(pi));
        lemma_votes_within_tally(l.candidates, ci, pa);
        assert forall|i: int| 0 <= i < n.polls.len() implies #[trigger] n.poll_consistent(i) by {
            assert(l.poll_consistent(i));
            lemma_counts_update(l.candidates, ci, c, l.polls[i].address);
            if i != pi {
                assert(l.polls[i].address != l.polls[pi].address);
            } else {
                let v = l.polls[pi].poll.voters;
                assert forall|x: int, y: int|
                    0 <= x < v.push(voter).len() && 0 <= y < v.push(voter).len() && x != y
                        implies v.push(voter)[x] != v.push(voter)[y] by {
                    if x == v.len() {
                        assert(v[y] == v.push(voter)[y]);
                    } else if y == v.len() {
                        assert(v[x] == v.push(voter)[x]);
                    }
                }
            }
        }
        assert forall|k: int| 0 <= k < n.candidates.len() implies text_bytes(
            #[trigger] n.candidates[k].candidate.candidate_name,
        ).len() <= MAX_NAME_LEN && poll_index(n.polls, n.candidates[k].poll) >= 0 by {
            assert(text_bytes(l.candidates[k].candidate.candidate_name).len() <= MAX_NAME_LEN);
            let i = poll_index(l.polls, l.candidates[k].poll);
            lemma_index_found(n.polls, n.candidates[k].poll, i);
        }
    }
}

/// What the substrate hands a poll creation: the paying caller and the clock.
pub struct InitializePoll {
    pub signer: Key,
    pub now: u64,
}

/// What the substrate hands a candidate registration: the paying caller.
pub struct InitializeCandidate {
    pub signer: Key,
}

/// What the substrate hands a vote: the verified voter and the clock.
pub struct Vote {
    pub signer: Key,
    pub now: u64,
}

/// Whether `voter` is among `voters`.
pub fn has_voter(voters: &Vec<Key>, voter: &Key) -> (r: bool)
    ensures
        r == voters@.contains(*voter),
{
    let mut i: usize = 0;
    while i < voters.len()
        invariant
            i <= voters.len(),
            forall|j: int| 0 <= j < i ==> voters@[j] != *voter,
        decreases voters.len() - i,
    {
        if same_key(&voters[i], voter) {
            assert(voters@[i as int] =~= *voter);
            return true;
        }
        i = i + 1;
    }
    false
}

impl Ledger {
    /// An empty ledger for the program `program_id`.
    pub fn new(program_id: Key) -> (r: Ledger)
        ensures
            r@.program_id == program_id@,
            r@.polls.len() == 0,
            r@.candidates.len() == 0,
            r@.wf(),
    {
        Ledger { program_id, polls: Vec::new(), candidates: Vec::new() }
    }

    /// The poll record of `poll_id`, if one is stored at its address.
    pub fn poll(&self, poll_id: u64) -> (r: Option<&Poll>)
        requires
            self@.wf(),
        ensures
            match program_address(poll_seeds(poll_id), self@.program_id) {
                None => r is None,
                Some(a) => if poll_index(self@.polls, a) < 0 {
                    r is None
                } else {
                    r is Some && r->Some_0@ == self@.polls[poll_index(self@.polls, a)].poll
                },
            },
    {
        let a = match poll_address(&self.program_id, poll_id) {
            None => return None,
            Some(a) => a,
        };
        match self.find_poll(&a) {
            None => None,
            Some(i) => Some(&self.polls[i].poll),
        }
    }

    /// The candidate record `name` of poll `poll_id`, if one is stored at its
    /// address.
    pub fn candidate(&self, poll_id: u64, name: &String) -> (r: Option<&Candidate>)
        requires
            self@.wf(),
        ensures
            match program_address(candidate_seeds(poll_id, name@), self@.program_id) {
                None => r is None,
                Some(a) => if candidate_index(self@.candidates, a) < 0 {
                    r is None
                } else {
                    r is Some && r->Some_0@ == self@.candidates[candidate_index(
                        self@.candidates,
                        a,
                    )].candidate
                },
            },
    {
        let a = match candidate_address(&self.program_id, poll_id, name) {
            None => return None,
            Some(a) => a,
        };
        match self.find_candidate(&a) {
            None => None,
            Some(i) => Some(&self.candidates[i].candidate),
        }
    }

    fn find_poll(&self, a: &Key) -> (r: Option<usize>)
        requires
            self@.wf(),
        ensures
            match r {
                Some(i) => i < self.polls.len() && i as int == poll_index(self@.polls, a@),
                None => poll_index(self@.polls, a@) == -1,
            },
    {
        let mut i: usize = 0;
        while i < self.polls.len()
            invariant
                i <= self.polls.len(),
                self@.wf(),
                forall|j: int| 0 <= j < i ==> self@.polls[j].address != a@,
            decreases self.polls.len() - i,
        {
            if same_key(&self.polls[i].address, a) {
                assert(self@.polls[i as int].address == a@);
                return Some(i);
            }
            i = i + 1;
        }
        None
    }

    fn find_candidate(&self, a: &Key) -> (r: Option<usize>)
        requires
            self@.wf(),
        ensures
            match r {
                Some(i) => i < self.candidates.len() && i as int == candidate_index(
                    self@.candidates,
                    a@,
                ),
                None => candidate_index(self@.candidates, a@) == -1,
            },
    {
        let mut i: usize = 0;
        while i < self.candidates.len()
            invariant
                i <= self.candidates.len(),
                self@.wf(),
                forall|j: int| 0 <= j < i ==> self@.candidates[j].address != a@,
            decreases self.candidates.len() - i,
        {
            if same_key(&self.candidates[i].address, a) {
                assert(self@.candidates[i as int].address == a@);
                return Some(i);
            }
            i = i + 1;
        }
        None
    }
}

/// Creates the poll `poll_id`, refusing an end time that has passed or is
/// implausible, an over-long description, and an address already in use.
pub fn initialize_poll(
    ledger: &mut Ledger,
    ctx: &InitializePoll,
    poll_id: u64,
    description: String,
    poll_start: u64,
    poll_end: u64,
) -> (r: Result<(), ErrorCode>)
    requires
        old(ledger)@.wf(),
    ensures
        (r, final(ledger)@) == initialize_poll_spec(
            old(ledger)@,
            poll_id,
            description@,
            poll_start,
            poll_end,
            ctx.now,
        ),
        final(ledger)@.wf(),
{
    proof {
        lemma_initialize_poll_consistent(ledger@, poll_id, description@, poll_start, poll_end, ctx.now);
    }
    if poll_end <= ctx.now {
        return Err(ErrorCode::Invalid(PollError::PollEndInThePast));
    }
    if poll_end <= POLL_END_FLOOR {
        return Err(ErrorCode::Invalid(PollError::InvalidPollEndTimestamp));
    }
    if description.as_str().as_bytes().len() > MAX_DESCRIPTION_LEN {
        return Err(ErrorCode::Invalid(PollError::DescriptionTooLong));
    }
    let a = match poll_address(&ledger.program_id, poll_id) {
        None => return Err(ErrorCode::NoViableAddress),
        Some(a) => a,
    };
    if ledger.find_poll(&a).is_some() {
        return Err(ErrorCode::AddressOccupied);
    }
    let ghost before = ledger@;
    let poll = Poll {
        poll_id,
        description,
        poll_start,
        poll_end,
        candidate_amount: 0,
        total_votes: 0,
        voters: Vec::new(),
    };
    ledger.polls.push(PollAccount { address: a, poll });
    proof {
        let after = initialize_poll_spec(before, poll_id, description@, poll_start, poll_end, ctx.now).1;
        assert(ledger@.polls =~= after.polls);
        assert(ledger@.candidates =~= after.candidates);
    }
    Ok(())
}

/// Registers candidate `candidate_name` in poll `poll_id`, counting it in
/// the poll.
pub fn initialize_candidate(
    ledger: &mut Ledger,
    ctx: &InitializeCandidate,
    candidate_name: String,
    poll_id: u64,
) -> (r: Result<(), ErrorCode>)
    requires
        old(ledger)@.wf(),
    ensures
        (r, final(ledger)@) == initialize_candidate_spec(old(ledger)@, poll_id, candidate_name@),
        final(ledger)@.wf(),
{
    proof {
        lemma_initialize_candidate_consistent(ledger@, poll_id, candidate_name@);
    }
    let pa = match poll_address(&ledger.program_id, poll_id) {
        None => return Err(ErrorCode::PollNotFound),
        Some(a) => a,
    };
    let pi = match ledger.find_poll(&pa) {
        None => return Err(ErrorCode::PollNotFound),
        Some(i) => i,
    };
    if candidate_name.as_str().as_bytes().len() > MAX_NAME_LEN {
        return Err(ErrorCode::Invalid(PollError::NameTooLong));
    }
    let ca = match candidate_address(&ledger.program_id, poll_id, &candidate_name) {
        None => return Err(ErrorCode::NoViableAddress),
        Some(a) => a,
    };
    if ledger.find_candidate(&ca).is_some() {
        return Err(ErrorCode::AddressOccupied);
    }
    if ledger.polls[pi].poll.candidate_amount == u64::MAX {
        return Err(ErrorCode::CounterOverflow);
    }
    let ghost before = ledger@;
    let mut account = ledger.polls.remove(pi);
    account.poll.candidate_amount = account.poll.candidate_amount + 1;
    ledger.polls.insert(pi, account);
    ledger.candidates.push(
        CandidateAccount {
            address: ca,
            poll: pa,
            candidate: Candidate { candidate_name, candidate_votes: 0 },
        },
    );
    proof {
        let after = initialize_candidate_spec(before, poll_id, candidate_name@).1;
        assert(ledger@.polls =~= after.polls);
        assert(ledger@.candidates =~= after.candidates);
    }
    Ok(())
}

/// Casts the caller's vote for candidate `candidate_name` of poll `poll_id`:
/// records the voter and counts the vote in the poll and in the candidate,
/// all three or none.
pub fn vote(ledger: &mut Ledger, ctx: &Vote, candidate_name: String, poll_id: u64) -> (r: Result<
    (),
    ErrorCode,
>)
    requires
        old(ledger)@.wf(),
    ensures
        (r, final(ledger)@) == vote_spec(old(ledger)@, poll_id, candidate_name@, ctx.signer, ctx.now),
        final(ledger)@.wf(),
{
    proof {
        lemma_vote_consistent(ledger@, poll_id, candidate_name@, ctx.signer, ctx.now);
    }
    let pa = match poll_address(&ledger.program_id, poll_id) {
        None => return Err(ErrorCode::PollNotFound),
        Some(a) => a,
    };
    let pi = match ledger.find_poll(&pa) {
        None => return Err(ErrorCode::PollNotFound),
        Some(i) => i,
    };
    if has_voter(&ledger.polls[pi].poll.voters, &ctx.signer) {
        return Err(ErrorCode::AlreadyVoted);
    }
    if ctx.now < ledger.polls[pi].poll.poll_start || ctx.now > ledger.polls[pi].poll.poll_end {
        return Err(ErrorCode::InvalidVoteTime);
    }
    let ca = match candidate_address(&ledger.program_id, poll_id, &candidate_name) {
        None => return Err(ErrorCode::CandidateNotFound),
        Some(a) => a,
    };
    let ci = match ledger.find_candidate(&ca) {
        None => return Err(ErrorCode::CandidateNotFound),
        Some(i) => i,
    };
    if !same_key(&ledger.candidates[ci].poll, &pa) {
        return Err(ErrorCode::CandidateNotFound);
    }
    if ledger.polls[pi].poll.voters.len() >= MAX_VOTERS {
        return Err(ErrorCode::VoterLimitReached);
    }
    let ghost before = ledger@;
    proof {
        assert(before.poll_consistent(pi as int));
        lemma_votes_within_tally(before.candidates, ci as int, pa@);
    }
    let mut account = ledger.polls.remove(pi);
    account.poll.voters.push(ctx.signer);
    account.poll.total_votes = account.poll.total_votes + 1;
    ledger.polls.insert(pi, account);
    let mut entry = ledger.candidates.remove(ci);
    entry.candidate.candidate_votes = entry.candidate.candidate_votes + 1;
    ledger.candidates.insert(ci, entry);
    proof {
        let after = vote_spec(before, poll_id, candidate_name@, ctx.signer, ctx.now).1;
        assert(ledger@.polls =~= after.polls);
        assert(ledger@.candidates =~= after.candidates);
    }
    Ok(())
}

} // verus!
