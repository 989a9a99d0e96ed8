//! Deterministic record addressing from a program identity and seed bytes.

use anchor_lang::prelude::Pubkey;
use vstd::prelude::*;

verus! {

/// A 32-byte key: a program identity, a caller identity or a record address.
pub type Key = [u8; 32];

/// The program address that the ledger substrate derives from `seeds` under
/// the program `program`, or `None` where no address can be derived.
pub uninterp spec fn program_address(seeds: Seq<Seq<u8>>, program: Seq<u8>) -> Option<Seq<u8>>;

/// Relies on `Pubkey::try_find_program_address`: a pure function of the seeds
/// and the program id, which yields the first off-curve digest over the seeds
/// and a bump byte, or `None` where no bump fits or the seeds are too long.
#[verifier::external_body]
fn find_program_address(seeds: &Vec<Vec<u8>>, program: &Key) -> (r: Option<Key>)
    ensures
        match r {
            Some(a) => program_address(seeds.deep_view(), program@) == Some(a@),
            None => program_address(seeds.deep_view(), program@) is None,
        },
{
    let slices: Vec<&[u8]> = seeds.iter().map(|s| s.as_slice()).collect();
    Pubkey::try_find_program_address(&slices, &Pubkey::new_from_array(*program)).map(
        |(k, _)| k.to_bytes(),
    )
}

/// The eight little-endian bytes of `x`.
pub open spec fn u64_le(x: u64) -> Seq<u8> {
    seq![
        (x & 0xff) as u8,
        ((x >> 8u64) & 0xff) as u8,
        ((x >> 16u64) & 0xff) as u8,
        ((x >> 24u64) & 0xff) as u8,
        ((x >> 32u64) & 0xff) as u8,
        ((x >> 40u64) & 0xff) as u8,
        ((x >> 48u64) & 0xff) as u8,
        ((x >> 56u64) & 0xff) as u8,
    ]
}

/// The bytes of a text field as it is stored and used as a seed.
pub open spec fn text_bytes(s: Seq<char>) -> Seq<u8> {
    vstd::utf8::encode_utf8(s)
}

/// The seeds of the poll with id `poll_id`.
pub open spec fn poll_seeds(poll_id: u64) -> Seq<Seq<u8>> {
    seq![u64_le(poll_id)]
}

/// The seeds of the candidate `name` of the poll `poll_id`.
pub open spec fn candidate_seeds(poll_id: u64, name: Seq<char>) -> Seq<Seq<u8>> {
    seq![u64_le(poll_id), text_bytes(name)]
}

/// Writes `x` as eight little-endian bytes.
pub fn u64_le_bytes(x: u64) -> (r: Vec<u8>)
    ensures
        r@ == u64_le(x),
{
    let mut out: Vec<u8> = Vec::new();
    out.push((x & 0xff) as u8);
    out.push(((x >> 8u64) & 0xff) as u8);
    out.push(((x >> 16u64) & 0xff) as u8);
    out.push(((x >> 24u64) & 0xff) as u8);
    out.push(((x >> 32u64) & 0xff) as u8);
    out.push(((x >> 40u64) & 0xff) as u8);
    out.push(((x >> 48u64) & 0xff) as u8);
    out.push(((x >> 56u64) & 0xff) as u8);
    assert(out@ =~= u64_le(x));
    out
}

/// Derives the address of the poll `poll_id` under `program`.
pub fn poll_address(program: &Key, poll_id: u64) -> (r: Option<Key>)
    ensures
        match r {
            Some(a) => program_address(poll_seeds(poll_id), program@) == Some(a@),
            None => program_address(poll_seeds(poll_id), program@) is None,
        },
{
    let mut seeds: Vec<Vec<u8>> = Vec::new();
    let id = u64_le_bytes(poll_id);
    seeds.push(id);
    assert(seeds.deep_view()[0] =~= id@);
    assert(seeds.deep_view() =~= poll_seeds(poll_id));
    find_program_address(&seeds, program)
}

/// Derives the address of the candidate `name` of the poll `poll_id` under
/// `program`.
pub fn candidate_address(program: &Key, poll_id: u64, name: &String) -> (r: Option<Key>)
    ensures
        match r {
            Some(a) => program_address(candidate_seeds(poll_id, name@), program@) == Some(a@),
            None => program_address(candidate_seeds(poll_id, name@), program@) is None,
        },
{
    let mut seeds: Vec<Vec<u8>> = Vec::new();
    let id = u64_le_bytes(poll_id);
    let text = vstd::slice::slice_to_vec(name.as_str().as_bytes());
    seeds.push(id);
    seeds.push(text);
    assert(seeds.deep_view()[0] =~= id@);
    assert(seeds.deep_view()[1] =~= text@);
    assert(seeds.deep_view() =~= candidate_seeds(poll_id, name@));
    find_program_address(&seeds, program)
}

/// Whether two keys hold the same bytes.
pub fn same_key(a: &Key, b: &Key) -> (r: bool)
    ensures
        r == (a@ == b@),
{
    let mut i: usize = 0;
    while i < 32
        invariant
            i <= 32,
            forall|j: int| 0 <= j < i ==> a@[j] == b@[j],
        decreases 32 - i,
    {
        if a[i] != b[i] {
            return false;
        }
        i = i + 1;
    }
    assert(a@ =~= b@);
    true
}

} // verus!
