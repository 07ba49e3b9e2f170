use zero_hunt::bits::count_leading_zeros;
use zero_hunt::hashing::CandidateHasher;
use zero_hunt::partition::{first_candidate, following_candidate};
use zero_hunt::worker::{should_publish, Probe, Worker};

fn hex(d: &[u8]) -> String {
    let mut s = String::new();
    for b in d {
        s.push_str(&format!("{:02x}", b));
    }
    s
}

fn reference_leading_zeros(d: &[u8]) -> u32 {
    let mut n: u32 = 0;
    for j in 0..d.len() * 8 {
        if (d[j / 8] >> (7 - j % 8)) & 1 == 1 {
            break;
        }
        n += 1;
    }
    n
}

#[test]
fn leading_zeros_all_zero_digest() {
    assert_eq!(count_leading_zeros(&[0u8; 32]), 256);
}

#[test]
fn leading_zeros_top_bit_set() {
    let mut d = [0u8; 32];
    d[0] = 0x80;
    assert_eq!(count_leading_zeros(&d), 0);
}

#[test]
fn leading_zeros_second_byte_top_bit() {
    let mut d = [0u8; 32];
    d[1] = 0x80;
    assert_eq!(count_leading_zeros(&d), 8);
}

#[test]
fn leading_zeros_low_bit_of_first_byte() {
    let mut d = [0u8; 32];
    d[0] = 0x01;
    assert_eq!(count_leading_zeros(&d), 7);
}

#[test]
fn leading_zeros_three_zero_bytes_then_f0() {
    let mut d = [0u8; 32];
    d[3] = 0xF0;
    assert_eq!(count_leading_zeros(&d), 24);
}

#[test]
fn leading_zeros_empty_input() {
    assert_eq!(count_leading_zeros(&[]), 0);
}

#[test]
fn leading_zeros_agree_with_bitwise_count() {
    let mut state: u64 = 0x9e37_79b9_7f4a_7c15;
    for round in 0..2000u32 {
        let mut d = [0u8; 32];
        for b in d.iter_mut() {
            state ^= state << 13;
            state ^= state >> 7;
            state ^= state << 17;
            *b = (state >> 24) as u8;
        }
        let zero_prefix = (round % 34) as usize;
        for b in d.iter_mut().take(zero_prefix.min(32)) {
            *b = 0;
        }
        assert_eq!(count_leading_zeros(&d), reference_leading_zeros(&d));
    }
}

#[test]
fn digests_match_known_vectors() {
    let mut h = CandidateHasher::new();
    assert_eq!(
        hex(&h.digest_of(0)),
        "5feceb66ffc86f38d952786c6d696c79c2dbc239dd4e91b46729d73a27fb57e9"
    );
    assert_eq!(
        hex(&h.digest_of(1)),
        "6b86b273ff34fce19d6b804eff5a3f5747ada4eaa22f1d49c01e52ddb7875b4b"
    );
    assert_eq!(
        hex(&h.digest_of(2)),
        "d4735e3a265e16eee03f59718b9b5d03019c07d8b6c51f90da3a666eec13ab35"
    );
    assert_eq!(
        hex(&h.digest_of(123)),
        "a665a45920422f9d417e4867efdc4fb8a04a1f3fff1fa07e998e86f7f7a27ae3"
    );
}

#[test]
fn hasher_state_is_reset_between_candidates() {
    let mut h = CandidateHasher::new();
    let first = h.digest_of(0);
    let second = h.digest_of(0);
    assert_eq!(first, second);
    let mut fresh = CandidateHasher::new();
    assert_eq!(h.digest_of(1), fresh.digest_of(1));
}

#[test]
fn first_candidate_overflow() {
    assert_eq!(first_candidate(10, 3), Some(13));
    assert_eq!(first_candidate(u64::MAX, 0), Some(u64::MAX));
    assert_eq!(first_candidate(u64::MAX, 1), None);
}

#[test]
fn following_candidate_overflow() {
    assert_eq!(following_candidate(5, 16), Some(21));
    assert_eq!(following_candidate(u64::MAX - 2, 2), Some(u64::MAX));
    assert_eq!(following_candidate(u64::MAX - 1, 2), None);
}

#[test]
fn publish_only_on_strict_improvement() {
    assert!(should_publish(1, 0));
    assert!(!should_publish(3, 3));
    assert!(!should_publish(2, 3));
}

#[test]
fn record_at_zero() {
    let mut w = Worker::new(0, 0, 16);
    let p: Probe = w.step(true).unwrap();
    assert_eq!(p.candidate, 0);
    assert_eq!(p.bits, 1);
    assert_eq!(
        hex(&p.digest),
        "5feceb66ffc86f38d952786c6d696c79c2dbc239dd4e91b46729d73a27fb57e9"
    );
    assert!(should_publish(p.bits, 0));
    assert_eq!(p.advanced, Some(16));
}

#[test]
fn record_at_one() {
    let mut w = Worker::new(1, 0, 16);
    let p = w.step(true).unwrap();
    assert_eq!(p.candidate, 1);
    assert_eq!(p.bits, 1);
    assert_eq!(
        hex(&p.digest),
        "6b86b273ff34fce19d6b804eff5a3f5747ada4eaa22f1d49c01e52ddb7875b4b"
    );
    assert!(should_publish(p.bits, 0));
}

#[test]
fn first_record_from_ten_with_sixteen_workers() {
    let mut workers: Vec<Worker> = (0..16u64).map(|t| Worker::new(10, t, 16)).collect();
    let mut best: u32 = 0;
    let mut first: Option<(u64, u32)> = None;
    for w in workers.iter_mut() {
        let p = w.step(true).unwrap();
        if should_publish(p.bits, best) {
            best = p.bits;
            if first.is_none() {
                first = Some((p.candidate, p.bits));
            }
        }
    }
    let (i, z) = first.unwrap();
    assert!((10..=25).contains(&i));
    assert!(z > 0);
}

#[test]
fn two_workers_reach_eight_bits() {
    let mut workers = vec![Worker::new(0, 0, 2), Worker::new(0, 1, 2)];
    let mut best: u32 = 0;
    let mut high_water: u64 = 0;
    let mut rounds: u32 = 0;
    while (high_water < 1000 || best < 8) && rounds < 200_000 {
        for w in workers.iter_mut() {
            let p = w.step(true).unwrap();
            assert_eq!(p.bits, count_leading_zeros(&p.digest));
            if should_publish(p.bits, best) {
                best = p.bits;
            }
            high_water = high_water.max(p.advanced.unwrap());
        }
        rounds += 1;
    }
    assert!(high_water >= 1000);
    assert!(best >= 8);
}

#[test]
fn progressions_are_disjoint_and_cover() {
    let mut seen = vec![0u32; 400];
    let mut workers: Vec<Worker> = (0..4u64).map(|t| Worker::new(100, t, 4)).collect();
    for _ in 0..100 {
        for w in workers.iter_mut() {
            let p = w.step(true).unwrap();
            seen[(p.candidate - 100) as usize] += 1;
        }
    }
    assert!(seen.iter().all(|&c| c == 1));
}

#[test]
fn worker_stops_when_flag_cleared() {
    let mut w = Worker::new(7, 2, 3);
    assert_eq!(w.step(true).unwrap().candidate, 9);
    assert!(w.step(false).is_none());
    assert_eq!(w.next_candidate(), Some(12));
    assert_eq!(w.step(true).unwrap().candidate, 12);
}

#[test]
fn worker_halts_at_u64_max() {
    let mut w = Worker::new(u64::MAX - 3, 1, 2);
    assert_eq!(w.step(true).unwrap().candidate, u64::MAX - 2);
    let last = w.step(true).unwrap();
    assert_eq!(last.candidate, u64::MAX);
    assert_eq!(last.advanced, None);
    assert!(w.step(true).is_none());
    assert_eq!(w.next_candidate(), None);
}

#[test]
fn worker_past_u64_max_from_start() {
    let mut w = Worker::new(u64::MAX, 1, 2);
    assert_eq!(w.next_candidate(), None);
    assert!(w.step(true).is_none());
}
