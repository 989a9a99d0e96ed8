//! The stored byte layout of poll and candidate records: an eight-byte tag,
//! then the fields, integers little-endian, text as a four-byte length and
//! its UTF-8 bytes, and the voters as a four-byte count and 32 bytes each.

use crate::address::{text_bytes, u64_le, u64_le_bytes, Key};
use crate::records::{Candidate, CandidateView, Poll, PollView, MAX_DESCRIPTION_LEN, MAX_NAME_LEN, MAX_VOTERS};
use vstd::prelude::*;
use vstd::utf8::{decode_utf8, encode_utf8_decode_utf8, encode_utf8_valid_utf8, valid_utf8};

verus! {

/// The tag that opens a stored poll.
pub open spec fn poll_tag() -> Seq<u8> {
    seq![110u8, 234u8, 167u8, 188u8, 231u8, 136u8, 153u8, 111u8]
}

/// The tag that opens a stored candidate.
pub open spec fn candidate_tag() -> Seq<u8> {
    seq![86u8, 69u8, 250u8, 96u8, 193u8, 10u8, 222u8, 123u8]
}

/// The four little-endian bytes of `x`.
pub open spec fn u32_le(x: u32) -> Seq<u8> {
    seq![
        (x & 0xff) as u8,
        ((x >> 8u32) & 0xff) as u8,
        ((x >> 16u32) & 0xff) as u8,
        ((x >> 24u32) & 0xff) as u8,
    ]
}

/// The number whose little-endian bytes open `b`.
pub open spec fn u32_from_le(b: Seq<u8>) -> u32 {
    (b[0] as u32) | ((b[1] as u32) << 8u32) | ((b[2] as u32) << 16u32) | ((b[3] as u32) << 24u32)
}

/// The number whose little-endian bytes open `b`.
pub open spec fn u64_from_le(b: Seq<u8>) -> u64 {
    (b[0] as u64) | ((b[1] as u64) << 8u64) | ((b[2] as u64) << 16u64) | ((b[3] as u64) << 24u64)
        | ((b[4] as u64) << 32u64) | ((b[5] as u64) << 40u64) | ((b[6] as u64) << 48u64) | ((
    b[7] as u64) << 56u64)
}

/// Text as stored: its byte length, then its UTF-8 bytes.
pub open spec fn encode_text(s: Seq<char>) -> Seq<u8> {
    u32_le(text_bytes(s).len() as u32) + text_bytes(s)
}

/// The bytes of the keys, one after another.
pub open spec fn flatten_keys(v: Seq<Key>) -> Seq<u8>
    decreases v.len(),
{
    if v.len() == 0 {
        Seq::empty()
    } else {
        flatten_keys(v.drop_last()) + v.last()@
    }
}

/// Keys as stored: their count, then their bytes.
pub open spec fn encode_keys(v: Seq<Key>) -> Seq<u8> {
    u32_le(v.len() as u32) + flatten_keys(v)
}

/// The stored bytes of a poll.
pub open spec fn encode_poll(p: PollView) -> Seq<u8> {
    poll_tag() + u64_le(p.poll_id) + encode_text(p.description) + u64_le(p.poll_start) + u64_le(
        p.poll_end,
    ) + u64_le(p.candidate_amount) + u64_le(p.total_votes) + encode_keys(p.voters)
}

/// The stored bytes of a candidate.
pub open spec fn encode_candidate(c: CandidateView) -> Seq<u8> {
    candidate_tag() + encode_text(c.candidate_name) + u64_le(c.candidate_votes)
}

/// The integer stored at `pos`, and where it ends.
pub open spec fn decode_u64(b: Seq<u8>, pos: int) -> Option<(u64, int)> {
    if 0 <= pos && pos + 8 <= b.len() {
        Some((u64_from_le(b.subrange(pos, pos + 8)), pos + 8))
    } else {
        None
    }
}

/// The text stored at `pos`, and where it ends.
pub open spec fn decode_text(b: Seq<u8>, pos: int) -> Option<(Seq<char>, int)> {
    if 0 <= pos && pos + 4 <= b.len() {
        let end = pos + 4 + u32_from_le(b.subrange(pos, pos + 4)) as int;
        if end <= b.len() && valid_utf8(b.subrange(pos + 4, end)) {
            Some((decode_utf8(b.subrange(pos + 4, end)), end))
        } else {
            None
        }
    } else {
        None
    }
}

/// The keys stored at `pos`, as their bytes, and where they end.
pub open spec fn decode_keys(b: Seq<u8>, pos: int) -> Option<(Seq<Seq<u8>>, int)> {
    if 0 <= pos && pos + 4 <= b.len() {
        let n = u32_from_le(b.subrange(pos, pos + 4)) as int;
        if pos + 4 + 32 * n <= b.len() {
            Some(
                (
                    Seq::new(n as nat, |i: int| b.subrange(pos + 4 + 32 * i, pos + 4 + 32 * i + 32)),
                    pos + 4 + 32 * n,
                ),
            )
        } else {
            None
        }
    } else {
        None
    }
}

/// A poll as read back from bytes, its voters as their bytes.
pub struct PollImage {
    pub poll_id: u64,
    pub description: Seq<char>,
    pub poll_start: u64,
    pub poll_end: u64,
    pub candidate_amount: u64,
    pub total_votes: u64,
    pub voters: Seq<Seq<u8>>,
}

/// A poll as it reads back from its stored bytes.
pub open spec fn image(p: PollView) -> PollImage {
    PollImage {
        poll_id: p.poll_id,
        description: p.description,
        poll_start: p.poll_start,
        poll_end: p.poll_end,
        candidate_amount: p.candidate_amount,
        total_votes: p.total_votes,
        voters: p.voters.map_values(|k: Key| k@),
    }
}

/// The poll stored at the start of `b`, if `b` opens with one.
pub open spec fn decode_poll(b: Seq<u8>) -> Option<PollImage> {
    if b.len() < 8 || b.subrange(0, 8) != poll_tag() {
        None
    } else {
        match decode_u64(b, 8) {
            None => None,
            Some((poll_id, after_id)) => match decode_text(b, after_id) {
                None => None,
                Some((description, after_description)) => match decode_u64(b, after_description) {
                    None => None,
                    Some((poll_start, after_start)) => match decode_u64(b, after_start) {
                        None => None,
                        Some((poll_end, after_end)) => match decode_u64(b, after_end) {
                            None => None,
                            Some((candidate_amount, after_amount)) => match decode_u64(b, after_amount) {
                                None => None,
                                Some((total_votes, after_total)) => match decode_keys(b, after_total) {
                                    None => None,
                                    Some((voters, _)) => Some(
                                        PollImage {
                                            poll_id,
                                            description,
                                            poll_start,
                                            poll_end,
                                            candidate_amount,
                                            total_votes,
                                            voters,
                                        },
                                    ),
                                },
                            },
                        },
                    },
                },
            },
        }
    }
}

/// The candidate stored at the start of `b`, if `b` opens with one.
pub open spec fn decode_candidate(b: Seq<u8>) -> Option<CandidateView> {
    if b.len() < 8 || b.subrange(0, 8) != candidate_tag() {
        None
    } else {
        match decode_text(b, 8) {
            None => None,
            Some((candidate_name, after_name)) => match decode_u64(b, after_name) {
                None => None,
                Some((candidate_votes, _)) => Some(CandidateView { candidate_name, candidate_votes }),
            },
        }
    }
}

proof fn lemma_u64_round_trip(x: u64)
    ensures
        u64_from_le(u64_le(x)) == x,
{
    let b = u64_le(x);
    assert(((((x & 0xff) as u8) as u64) | (((((x >> 8u64) & 0xff) as u8) as u64) << 8u64) | (((((x
        >> 16u64) & 0xff) as u8) as u64) << 16u64) | (((((x >> 24u64) & 0xff) as u8) as u64)
        << 24u64) | (((((x >> 32u64) & 0xff) as u8) as u64) << 32u64) | (((((x >> 40u64) & 0xff)
        as u8) as u64) << 40u64) | (((((x >> 48u64) & 0xff) as u8) as u64) << 48u64) | (((((x
        >> 56u64) & 0xff) as u8) as u64) << 56u64)) == x) by (bit_vector);
}

proof fn lemma_u32_round_trip(x: u32)
    ensures
        u32_from_le(u32_le(x)) == x,
{
    let b = u32_le(x);
    assert(((((x & 0xff) as u8) as u32) | (((((x >> 8u32) & 0xff) as u8) as u32) << 8u32) | (((((x
        >> 16u32) & 0xff) as u8) as u32) << 16u32) | (((((x >> 24u32) & 0xff) as u8) as u32)
        << 24u32)) == x) by (bit_vector);
}

proof fn lemma_decode_u64_at(b: Seq<u8>, pos: int, x: u64)
    requires
        0 <= pos,
        pos + 8 <= b.len(),
        b.subrange(pos, pos + 8) == u64_le(x),
    ensures
        decode_u64(b, pos) == Some((x, pos + 8)),
{
    lemma_u64_round_trip(x);
}

proof fn lemma_decode_text_at(b: Seq<u8>, pos: int, s: Seq<char>)
    requires
        0 <= pos,
        text_bytes(s).len() <= u32::MAX,
        pos + 4 + text_bytes(s).len() <= b.len(),
        b.subrange(pos, pos + 4 + text_bytes(s).len()) == encode_text(s),
    ensures
        decode_text(b, pos) == Some((s, pos + 4 + text_bytes(s).len())),
{
    let n = text_bytes(s).len();
    let e = encode_text(s);
    assert(b.subrange(pos, pos + 4) =~= e.subrange(0, 4));
    assert(e.subrange(0, 4) =~= u32_le(n as u32));
    lemma_u32_round_trip(n as u32);
    assert(b.subrange(pos + 4, pos + 4 + n) =~= e.subrange(4, 4 + n as int));
    assert(e.subrange(4, 4 + n as int) =~= text_bytes(s));
    encode_utf8_valid_utf8(s);
    encode_utf8_decode_utf8(s);
}

proof fn lemma_flatten_keys(v: Seq<Key>)
    ensures
        flatten_keys(v).len() == 32 * v.len(),
        forall|i: int|
            0 <= i < v.len() ==> #[trigger] flatten_keys(v).subrange(32 * i, 32 * i + 32) == v[i]@,
    decreases v.len(),
{
    if v.len() > 0 {
        let w = v.drop_last();
        lemma_flatten_keys(w);
        let f = flatten_keys(v);
        assert forall|i: int| 0 <= i < v.len() implies #[trigger] f.subrange(32 * i, 32 * i + 32)
            == v[i]@ by {
            if i < w.len() {
                assert(f.subrange(32 * i, 32 * i + 32) =~= flatten_keys(w).subrange(
                    32 * i,
                    32 * i + 32,
                ));
            } else {
                assert(f.subrange(32 * i, 32 * i + 32) =~= v.last()@);
            }
        }
    }
}

proof fn lemma_decode_keys_at(b: Seq<u8>, pos: int, v: Seq<Key>)
    requires
        0 <= pos,
        v.len() <= u32::MAX,
        pos + 4 + 32 * v.len() <= b.len(),
        b.subrange(pos, pos + 4 + 32 * v.len()) == encode_keys(v),
    ensures
        decode_keys(b, pos) == Some((v.map_values(|k: Key| k@), pos + 4 + 32 * v.len())),
{
    let e = encode_keys(v);
    lemma_flatten_keys(v);
    assert(b.subrange(pos, pos + 4) =~= e.subrange(0, 4));
    assert(e.subrange(0, 4) =~= u32_le(v.len() as u32));
    lemma_u32_round_trip(v.len() as u32);
    let got = Seq::new(
        v.len(),
        |i: int| b.subrange(pos + 4 + 32 * i, pos + 4 + 32 * i + 32),
    );
    let f = flatten_keys(v);
    assert forall|k: int| 0 <= k < f.len() implies b[pos + 4 + k] == f[k] by {
        assert(b[pos + 4 + k] == b.subrange(pos, pos + 4 + 32 * v.len())[4 + k]);
        assert(e[4 + k] == f[k]);
    }
    assert forall|i: int| 0 <= i < v.len() implies got[i] == v[i]@ by {
        let c = b.subrange(pos + 4 + 32 * i, pos + 4 + 32 * i + 32);
        assert forall|j: int| 0 <= j < 32 implies c[j] == f.subrange(32 * i, 32 * i + 32)[j] by {
            assert(c[j] == b[pos + 4 + (32 * i + j)]);
        }
        assert(c =~= f.subrange(32 * i, 32 * i + 32));
    }
    assert(got =~= v.map_values(|k: Key| k@));
}

/// Whether a poll fits the bounds its record is sized for.
pub open spec fn poll_bounded(p: PollView) -> bool {
    &&& text_bytes(p.description).len() <= MAX_DESCRIPTION_LEN
    &&& p.voters.len() <= MAX_VOTERS
}

/// Whether a candidate fits the bounds its record is sized for.
pub open spec fn candidate_bounded(c: CandidateView) -> bool {
    text_bytes(c.candidate_name).len() <= MAX_NAME_LEN
}

/// The fields of a poll after its description.
pub open spec fn encode_poll_tail(p: PollView) -> Seq<u8> {
    u64_le(p.poll_start) + u64_le(p.poll_end) + u64_le(p.candidate_amount) + u64_le(p.total_votes)
        + encode_keys(p.voters)
}

proof fn lemma_poll_tail(b: Seq<u8>, pos: int, p: PollView)
    requires
        0 <= pos <= b.len(),
        p.voters.len() <= MAX_VOTERS,
        b.subrange(pos, b.len() as int) == encode_poll_tail(p),
    ensures
        decode_u64(b, pos) == Some((p.poll_start, pos + 8)),
        decode_u64(b, pos + 8) == Some((p.poll_end, pos + 16)),
        decode_u64(b, pos + 16) == Some((p.candidate_amount, pos + 24)),
        decode_u64(b, pos + 24) == Some((p.total_votes, pos + 32)),
        decode_keys(b, pos + 32) == Some(
            (p.voters.map_values(|k: Key| k@), pos + 36 + 32 * p.voters.len()),
        ),
{
    let t = encode_poll_tail(p);
    lemma_flatten_keys(p.voters);
    assert(t.len() == 36 + 32 * p.voters.len());
    assert(b.subrange(pos, pos + 8) =~= t.subrange(0, 8));
    assert(t.subrange(0, 8) =~= u64_le(p.poll_start));
    lemma_decode_u64_at(b, pos, p.poll_start);
    assert(b.subrange(pos + 8, pos + 16) =~= t.subrange(8, 16));
    assert(t.subrange(8, 16) =~= u64_le(p.poll_end));
    lemma_decode_u64_at(b, pos + 8, p.poll_end);
    assert(b.subrange(pos + 16, pos + 24) =~= t.subrange(16, 24));
    assert(t.subrange(16, 24) =~= u64_le(p.candidate_amount));
    lemma_decode_u64_at(b, pos + 16, p.candidate_amount);
    assert(b.subrange(pos + 24, pos + 32) =~= t.subrange(24, 32));
    assert(t.subrange(24, 32) =~= u64_le(p.total_votes));
    lemma_decode_u64_at(b, pos + 24, p.total_votes);
    assert(b.subrange(pos + 32, pos + 36 + 32 * p.voters.len()) =~= t.subrange(32, t.len() as int));
    assert(t.subrange(32, t.len() as int) =~= encode_keys(p.voters));
    lemma_decode_keys_at(b, pos + 32, p.voters);
}

/// A stored poll reads back with the same field values.
pub proof fn lemma_poll_round_trip(p: PollView)
    requires
        poll_bounded(p),
    ensures
        decode_poll(encode_poll(p)) == Some(image(p)),
{
    let b = encode_poll(p);
    let n = text_bytes(p.description).len() as int;
    let o3 = 20 + n;
    let head = poll_tag() + u64_le(p.poll_id) + encode_text(p.description);
    assert(b =~= head + encode_poll_tail(p));
    assert(b.subrange(0, 8) =~= poll_tag());
    assert(b.subrange(8, 16) =~= u64_le(p.poll_id));
    lemma_decode_u64_at(b, 8, p.poll_id);
    assert(b.subrange(16, o3) =~= encode_text(p.description));
    lemma_decode_text_at(b, 16, p.description);
    assert(b.subrange(o3, b.len() as int) =~= encode_poll_tail(p));
    lemma_poll_tail(b, o3, p);
}

/// A stored candidate reads back with the same field values.
pub proof fn lemma_candidate_round_trip(c: CandidateView)
    requires
        candidate_bounded(c),
    ensures
        decode_candidate(encode_candidate(c)) == Some(c),
{
    let b = encode_candidate(c);
    let n = text_bytes(c.candidate_name).len() as int;
    assert(b.subrange(0, 8) =~= candidate_tag());
    assert(b.subrange(8, 12 + n) =~= encode_text(c.candidate_name));
    lemma_decode_text_at(b, 8, c.candidate_name);
    assert(b.subrange(12 + n, 20 + n) =~= u64_le(c.candidate_votes));
    lemma_decode_u64_at(b, 12 + n, c.candidate_votes);
}

/// Two polls that read back alike hold the same field values.
pub proof fn lemma_image_determines_poll(p: PollView, q: PollView)
    requires
        image(p) == image(q),
    ensures
        p == q,
{
    assert(p.voters.len() == image(p).voters.len());
    assert forall|i: int| 0 <= i < p.voters.len() implies p.voters[i] == q.voters[i] by {
        assert(image(p).voters[i] == p.voters[i]@);
        assert(image(q).voters[i] == q.voters[i]@);
        assert(p.voters[i] =~= q.voters[i]);
    }
    assert(p.voters =~= q.voters);
}

/// Relies on `String::from_utf8`: it succeeds exactly on valid UTF-8 and then
/// holds those bytes.
#[verifier::external_body]
fn string_from_utf8(b: Vec<u8>) -> (r: Option<String>)
    ensures
        match r {
            Some(s) => text_bytes(s@) == b@,
            None => !valid_utf8(b@),
        },
{
    String::from_utf8(b).ok()
}

fn push_u32(out: &mut Vec<u8>, x: u32)
    ensures
        final(out)@ == old(out)@ + u32_le(x),
{
    out.push((x & 0xff) as u8);
    out.push(((x >> 8u32) & 0xff) as u8);
    out.push(((x >> 16u32) & 0xff) as u8);
    out.push(((x >> 24u32) & 0xff) as u8);
    assert(final(out)@ =~= old(out)@ + u32_le(x));
}

fn push_u64(out: &mut Vec<u8>, x: u64)
    ensures
        final(out)@ == old(out)@ + u64_le(x),
{
    let b = u64_le_bytes(x);
    push_bytes(out, b.as_slice());
}

fn push_bytes(out: &mut Vec<u8>, b: &[u8])
    ensures
        final(out)@ == old(out)@ + b@,
{
    let ghost start = out@;
    let mut i: usize = 0;
    while i < b.len()
        invariant
            i <= b@.len(),
            out@ == start + b@.subrange(0, i as int),
        decreases b.len() - i,
    {
        out.push(b[i]);
        assert(b@.subrange(0, i + 1) =~= b@.subrange(0, i as int).push(b@[i as int]));
        i = i + 1;
    }
    assert(b@.subrange(0, b@.len() as int) =~= b@);
}

fn push_text(out: &mut Vec<u8>, s: &String)
    requires
        text_bytes(s@).len() <= u32::MAX,
    ensures
        final(out)@ == old(out)@ + encode_text(s@),
{
    let bytes = s.as_str().as_bytes();
    push_u32(out, bytes.len() as u32);
    push_bytes(out, bytes);
    assert(final(out)@ =~= old(out)@ + encode_text(s@));
}

fn push_keys(out: &mut Vec<u8>, v: &Vec<Key>)
    requires
        v@.len() <= u32::MAX,
    ensures
        final(out)@ == old(out)@ + encode_keys(v@),
{
    push_u32(out, v.len() as u32);
    let ghost start = out@;
    let mut i: usize = 0;
    while i < v.len()
        invariant
            i <= v@.len(),
            out@ == start + flatten_keys(v@.subrange(0, i as int)),
        decreases v.len() - i,
    {
        let k: Key = v[i];
        push_bytes(out, k.as_slice());
        assert(v@.subrange(0, i + 1).drop_last() =~= v@.subrange(0, i as int));
        assert(out@ =~= start + flatten_keys(v@.subrange(0, i + 1)));
        i = i + 1;
    }
    assert(v@.subrange(0, v@.len() as int) =~= v@);
    assert(final(out)@ =~= old(out)@ + encode_keys(v@));
}

fn read_u32(b: &[u8], pos: usize) -> (r: Option<u32>)
    ensures
        match r {
            Some(x) => pos + 4 <= b@.len() && x == u32_from_le(b@.subrange(pos as int, pos + 4)),
            None => pos + 4 > b@.len(),
        },
{
    if pos > b.len() || b.len() - pos < 4 {
        return None;
    }
    let ghost s = b@.subrange(pos as int, pos + 4);
    assert(s[0] == b@[pos as int] && s[1] == b@[pos + 1] && s[2] == b@[pos + 2] && s[3] == b@[pos + 3]);
    Some(
        (b[pos] as u32) | ((b[pos + 1] as u32) << 8u32) | ((b[pos + 2] as u32) << 16u32) | ((b[pos
            + 3] as u32) << 24u32),
    )
}

fn read_u64(b: &[u8], pos: usize) -> (r: Option<(u64, usize)>)
    ensures
        match decode_u64(b@, pos as int) {
            None => r is None,
            Some((x, e)) => r is Some && r->Some_0.0 == x && r->Some_0.1 == e,
        },
{
    if pos > b.len() || b.len() - pos < 8 {
        return None;
    }
    let ghost s = b@.subrange(pos as int, pos + 8);
    assert(s[0] == b@[pos as int] && s[1] == b@[pos + 1] && s[2] == b@[pos + 2] && s[3] == b@[pos + 3]
        && s[4] == b@[pos + 4] && s[5] == b@[pos + 5] && s[6] == b@[pos + 6] && s[7] == b@[pos + 7]);
    let x = (b[pos] as u64) | ((b[pos + 1] as u64) << 8u64) | ((b[pos + 2] as u64) << 16u64) | ((
    b[pos + 3] as u64) << 24u64) | ((b[pos + 4] as u64) << 32u64) | ((b[pos + 5] as u64) << 40u64)
        | ((b[pos + 6] as u64) << 48u64) | ((b[pos + 7] as u64) << 56u64);
    Some((x, pos + 8))
}

fn read_text(b: &[u8], pos: usize) -> (r: Option<(String, usize)>)
    ensures
        match decode_text(b@, pos as int) {
            None => r is None,
            Some((s, e)) => r is Some && r->Some_0.0@ == s && r->Some_0.1 == e,
        },
{
    let n = match read_u32(b, pos) {
        None => return None,
        Some(n) => n,
    };
    let len = b.len();
    let start = pos + 4;
    if b.len() - start < n as usize {
        return None;
    }
    let end = start + n as usize;
    let mut bytes: Vec<u8> = Vec::new();
    let mut i: usize = start;
    while i < end
        invariant
            start <= i <= end <= b@.len(),
            bytes@ == b@.subrange(start as int, i as int),
        decreases end - i,
    {
        bytes.push(b[i]);
        assert(b@.subrange(start as int, i + 1) =~= b@.subrange(start as int, i as int).push(b@[i as int]));
        i = i + 1;
    }
    let ghost raw = bytes@;
    match string_from_utf8(bytes) {
        None => None,
        Some(s) => {
            proof {
                encode_utf8_valid_utf8(s@);
                encode_utf8_decode_utf8(s@);
            }
            Some((s, end))
        },
    }
}

fn read_key(b: &[u8], pos: usize) -> (r: Key)
    requires
        pos + 32 <= b@.len(),
    ensures
        r@ == b@.subrange(pos as int, pos + 32),
{
    let len = b.len();
    let mut k: Key = [0u8; 32];
    let mut j: usize = 0;
    while j < 32
        invariant
            j <= 32,
            pos + 32 <= b@.len(),
            b@.len() == len,
            forall|t: int| 0 <= t < j ==> k@[t] == b@[pos + t],
        decreases 32 - j,
    {
        k[j] = b[pos + j];
        j = j + 1;
    }
    assert(k@ =~= b@.subrange(pos as int, pos + 32));
    k
}

fn read_keys(b: &[u8], pos: usize) -> (r: Option<(Vec<Key>, usize)>)
    ensures
        match decode_keys(b@, pos as int) {
            None => r is None,
            Some((ks, e)) => r is Some && r->Some_0.0@.map_values(|k: Key| k@) == ks && r->Some_0.1
                == e,
        },
{
    let n = match read_u32(b, pos) {
        None => return None,
        Some(n) => n,
    };
    let len = b.len();
    let start = pos + 4;
    let room = b.len() - start;
    let count = n as usize;
    if room / 32 < count {
        proof {
            assert(32 * count > room) by (nonlinear_arith)
                requires
                    room / 32 < count,
            ;
        }
        return None;
    }
    proof {
        assert(32 * count <= room) by (nonlinear_arith)
            requires
                count <= room / 32,
        ;
    }
    let mut keys: Vec<Key> = Vec::new();
    let mut i: usize = 0;
    while i < count
        invariant
            i <= count,
            start + 32 * count <= b@.len(),
            b@.len() == len,
            keys@.len() == i,
            forall|t: int|
                0 <= t < i ==> #[trigger] keys@[t]@ == b@.subrange(start + 32 * t, start + 32 * t + 32),
        decreases count - i,
    {
        proof {
            assert(32 * i + 32 <= 32 * count) by (nonlinear_arith)
                requires
                    i < count,
            ;
        }
        let at = start + 32 * i;
        let k = read_key(b, at);
        keys.push(k);
        i = i + 1;
    }
    let ghost ks = decode_keys(b@, pos as int)->Some_0.0;
    assert(keys@.map_values(|k: Key| k@) =~= ks);
    Some((keys, start + 32 * count))
}

impl Poll {
    /// The stored bytes of this poll.
    pub fn to_bytes(&self) -> (r: Vec<u8>)
        requires
            poll_bounded(self@),
        ensures
            r@ == encode_poll(self@),
    {
        let mut out: Vec<u8> = Vec::new();
        push_bytes(&mut out, &[110u8, 234u8, 167u8, 188u8, 231u8, 136u8, 153u8, 111u8]);
        push_u64(&mut out, self.poll_id);
        push_text(&mut out, &self.description);
        push_u64(&mut out, self.poll_start);
        push_u64(&mut out, self.poll_end);
        push_u64(&mut out, self.candidate_amount);
        push_u64(&mut out, self.total_votes);
        push_keys(&mut out, &self.voters);
        out
    }
}

fn has_tag(b: &[u8], tag: &[u8]) -> (r: bool)
    requires
        tag@.len() == 8,
    ensures
        r == (b@.len() >= 8 && b@.subrange(0, 8) == tag@),
{
    if b.len() < 8 {
        return false;
    }
    let mut i: usize = 0;
    while i < 8
        invariant
            i <= 8,
            b@.len() >= 8,
            tag@.len() == 8,
            forall|t: int| 0 <= t < i ==> b@[t] == tag@[t],
        decreases 8 - i,
    {
        if b[i] != tag[i] {
            assert(b@.subrange(0, 8)[i as int] != tag@[i as int]);
            return false;
        }
        i = i + 1;
    }
    assert(b@.subrange(0, 8) =~= tag@);
    true
}

impl Poll {
    /// The poll stored at the start of `b`, if `b` opens with one.
    pub fn from_bytes(b: &[u8]) -> (r: Option<Poll>)
        ensures
            match decode_poll(b@) {
                None => r is None,
                Some(img) => r is Some && image(r->Some_0@) == img,
            },
    {
        if !has_tag(b, &[110u8, 234u8, 167u8, 188u8, 231u8, 136u8, 153u8, 111u8]) {
            return None;
        }
        let (poll_id, after_id) = match read_u64(b, 8) {
            None => return None,
            Some(x) => x,
        };
        let (description, after_description) = match read_text(b, after_id) {
            None => return None,
            Some(x) => x,
        };
        let (poll_start, after_start) = match read_u64(b, after_description) {
            None => return None,
            Some(x) => x,
        };
        let (poll_end, after_end) = match read_u64(b, after_start) {
            None => return None,
            Some(x) => x,
        };
        let (candidate_amount, after_amount) = match read_u64(b, after_end) {
            None => return None,
            Some(x) => x,
        };
        let (total_votes, after_total) = match read_u64(b, after_amount) {
            None => return None,
            Some(x) => x,
        };
        let (voters, _) = match read_keys(b, after_total) {
            None => return None,
            Some(x) => x,
        };
        Some(
            Poll {
                poll_id,
                description,
                poll_start,
                poll_end,
                candidate_amount,
                total_votes,
                voters,
            },
        )
    }
}

impl Candidate {
    /// The stored bytes of this candidate.
    pub fn to_bytes(&self) -> (r: Vec<u8>)
        requires
            candidate_bounded(self@),
        ensures
            r@ == encode_candidate(self@),
    {
        let mut out: Vec<u8> = Vec::new();
        push_bytes(&mut out, &[86u8, 69u8, 250u8, 96u8, 193u8, 10u8, 222u8, 123u8]);
        push_text(&mut out, &self.candidate_name);
        push_u64(&mut out, self.candidate_votes);
        out
    }

    /// The candidate stored at the start of `b`, if `b` opens with one.
    pub fn from_bytes(b: &[u8]) -> (r: Option<Candidate>)
        ensures
            match decode_candidate(b@) {
                None => r is None,
                Some(c) => r is Some && r->Some_0@ == c,
            },
    {
        if !has_tag(b, &[86u8, 69u8, 250u8, 96u8, 193u8, 10u8, 222u8, 123u8]) {
            return None;
        }
        let (candidate_name, after_name) = match read_text(b, 8) {
            None => return None,
            Some(x) => x,
        };
        let (candidate_votes, _) = match read_u64(b, after_name) {
            None => return None,
            Some(x) => x,
        };
        Some(Candidate { candidate_name, candidate_votes })
    }
}

} // verus!
