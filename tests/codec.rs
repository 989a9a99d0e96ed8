use voting::address::Key;
use voting::records::{Candidate, Poll};

fn sample_poll(voters: Vec<Key>) -> Poll {
    Poll {
        poll_id: 0x0102,
        description: String::from("Best fruit?"),
        poll_start: 100,
        poll_end: 200,
        candidate_amount: 2,
        total_votes: voters.len() as u64,
        voters,
    }
}

#[test]
fn candidate_bytes_exact() {
    let c = Candidate { candidate_name: String::from("Al"), candidate_votes: 3 };
    let b = c.to_bytes();
    assert_eq!(
        b,
        vec![86, 69, 250, 96, 193, 10, 222, 123, 2, 0, 0, 0, b'A', b'l', 3, 0, 0, 0, 0, 0, 0, 0]
    );
}

#[test]
fn candidate_round_trip() {
    let c = Candidate { candidate_name: String::from("Zoë"), candidate_votes: u64::MAX };
    let d = Candidate::from_bytes(&c.to_bytes()).unwrap();
    assert_eq!(d.candidate_name, "Zoë");
    assert_eq!(d.candidate_votes, u64::MAX);
}

#[test]
fn poll_bytes_layout() {
    let p = sample_poll(vec![[9u8; 32]]);
    let b = p.to_bytes();
    assert_eq!(&b[..8], &[110, 234, 167, 188, 231, 136, 153, 111]);
    assert_eq!(&b[8..16], &[2, 1, 0, 0, 0, 0, 0, 0]);
    assert_eq!(&b[16..20], &[11, 0, 0, 0]);
    assert_eq!(&b[20..31], b"Best fruit?");
    assert_eq!(b.len(), 8 + 8 + 4 + 11 + 8 * 4 + 4 + 32);
    assert_eq!(&b[63..67], &[1, 0, 0, 0]);
    assert_eq!(&b[67..], &[9u8; 32]);
}

#[test]
fn poll_round_trip_full_voter_set() {
    let voters: Vec<Key> = (0..1000u32)
        .map(|v| {
            let mut k = [0u8; 32];
            k[..4].copy_from_slice(&v.to_le_bytes());
            k[31] = 0xee;
            k
        })
        .collect();
    let mut p = sample_poll(voters.clone());
    p.description = "é".repeat(100);
    let d = Poll::from_bytes(&p.to_bytes()).unwrap();
    assert_eq!(d.poll_id, p.poll_id);
    assert_eq!(d.description, p.description);
    assert_eq!(d.poll_start, 100);
    assert_eq!(d.poll_end, 200);
    assert_eq!(d.candidate_amount, 2);
    assert_eq!(d.total_votes, 1000);
    assert_eq!(d.voters, voters);
}

#[test]
fn decode_rejects_bad_input() {
    let p = sample_poll(vec![[1u8; 32], [2u8; 32]]);
    let b = p.to_bytes();
    assert!(Poll::from_bytes(&b[..b.len() - 1]).is_none());
    assert!(Poll::from_bytes(&b[..5]).is_none());
    let mut wrong_tag = b.clone();
    wrong_tag[0] ^= 1;
    assert!(Poll::from_bytes(&wrong_tag).is_none());
    assert!(Candidate::from_bytes(&b).is_none());
    let mut bad_text = Candidate { candidate_name: String::from("ab"), candidate_votes: 0 }.to_bytes();
    bad_text[12] = 0xff;
    assert!(Candidate::from_bytes(&bad_text).is_none());
    let mut padded = b.clone();
    padded.extend_from_slice(&[0u8; 16]);
    assert_eq!(Poll::from_bytes(&padded).unwrap().voters.len(), 2);
}
