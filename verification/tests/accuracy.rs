use rust_rdma_bench::bench::accuracy::{
    check, count_lost, fill_payload, next_word, prepare, slot_for, slot_range, Tally, HEADER_LEN,
};
use rust_rdma_bench::comm::AccuracyReport;

/// Independent splitmix64, for comparison.
fn splitmix(state: &mut u64) -> u64 {
    *state = state.wrapping_add(0x9E3779B97F4A7C15);
    let mut z = *state;
    z = (z ^ (z >> 30)).wrapping_mul(0xBF58476D1CE4E5B9);
    z = (z ^ (z >> 27)).wrapping_mul(0x94D049BB133111EB);
    z ^ (z >> 31)
}

fn reference_payload(seq: u64, len: usize) -> Vec<u8> {
    let mut v = seq.to_le_bytes().to_vec();
    let mut state = seq;
    while v.len() < len {
        v.extend_from_slice(&splitmix(&mut state).to_le_bytes());
    }
    v.truncate(len);
    v
}

#[test]
fn splitmix_known_value() {
    let mut state = 0u64;
    assert_eq!(next_word(&mut state), 0xE220A8397B1DCDAF);
    assert_eq!(state, 0x9E3779B97F4A7C15);
    let mut a = 12345u64;
    let mut b = 12345u64;
    for _ in 0..5 {
        assert_eq!(next_word(&mut a), splitmix(&mut b));
    }
}

#[test]
fn payload_layout() {
    for len in [8usize, 9, 15, 16, 17, 64, 100] {
        let mut buf = vec![0xAAu8; len];
        fill_payload(&mut buf, 0x0102030405060708);
        assert_eq!(&buf[..8], &[8, 7, 6, 5, 4, 3, 2, 1]);
        assert_eq!(buf, reference_payload(0x0102030405060708, len));
    }
}

#[test]
fn slot_ranges() {
    assert_eq!(slot_range(0, 64), 0..64);
    assert_eq!(slot_range(3, 64), 192..256);
    assert_eq!(slot_for(37, 32), 5);
}

#[test]
fn run_parameters() {
    assert_eq!(prepare(64, 0, 32).unwrap_err(), "accuracy benchmark needs at least one iteration");
    assert_eq!(
        prepare(7, 10, 32).unwrap_err(),
        "accuracy benchmark needs a message size of at least 8 bytes for the sequence-number header"
    );
    assert_eq!(prepare(8, 10, 32).unwrap(), 10);
    assert_eq!(prepare(8, 1000, 32).unwrap(), 32);
    assert_eq!(prepare(8, 1000, 0).unwrap(), 1);
    assert_eq!(HEADER_LEN, 8);
}

fn fresh(msg_size: usize, sent: usize) -> (Vec<u8>, Vec<bool>, AccuracyReport) {
    (vec![0u8; msg_size], vec![false; sent], AccuracyReport::new(msg_size, sent))
}

#[test]
fn intact_message_is_fully_correct() {
    let (mut exp, mut seen, mut r) = fresh(32, 4);
    let got = reference_payload(2, 32);
    check(&got, &mut exp, 32, &mut seen, &mut r);
    assert_eq!(seen, vec![false, false, true, false]);
    assert_eq!(r.correct_bytes, 32);
    assert_eq!(r.correct_bits, 256);
    assert_eq!(r.corrupted, 0);
    assert_eq!(r.truncated, 0);
    assert_eq!(exp, got);
}

#[test]
fn one_flipped_bit() {
    let (mut exp, mut seen, mut r) = fresh(32, 4);
    let mut got = reference_payload(1, 32);
    got[20] ^= 0x10;
    check(&got, &mut exp, 32, &mut seen, &mut r);
    assert_eq!(r.correct_bytes, 31);
    assert_eq!(r.correct_bits, 255);
    assert_eq!(r.corrupted, 1);
}

#[test]
fn duplicate_counts_nothing_twice() {
    let (mut exp, mut seen, mut r) = fresh(16, 2);
    let got = reference_payload(0, 16);
    check(&got, &mut exp, 16, &mut seen, &mut r);
    check(&got, &mut exp, 16, &mut seen, &mut r);
    assert_eq!(r.duplicated, 1);
    assert_eq!(r.correct_bytes, 16);
    assert_eq!(r.correct_bits, 128);
}

#[test]
fn unidentifiable_messages() {
    let (mut exp, mut seen, mut r) = fresh(16, 2);
    check(&[1, 2, 3], &mut exp, 16, &mut seen, &mut r);
    check(&reference_payload(2, 16), &mut exp, 16, &mut seen, &mut r);
    check(&reference_payload(u64::MAX, 16), &mut exp, 16, &mut seen, &mut r);
    assert_eq!(r.unidentifiable, 3);
    assert_eq!(seen, vec![false, false]);
    assert_eq!(r.correct_bytes, 0);
}

#[test]
fn truncated_message() {
    let (mut exp, mut seen, mut r) = fresh(32, 2);
    let got = reference_payload(1, 20);
    check(&got, &mut exp, 32, &mut seen, &mut r);
    assert_eq!(r.truncated, 1);
    assert_eq!(r.corrupted, 1);
    assert_eq!(r.correct_bytes, 20);
    assert_eq!(r.correct_bits, 160);
}

#[test]
fn lost_count() {
    assert_eq!(count_lost(&[true, false, true, false, false]), 3);
    assert_eq!(count_lost(&[]), 0);
}

#[test]
fn tally_of_a_lossy_run() {
    let mut t = Tally::new(16, 5).unwrap();
    assert!(t.wants_more());
    t.on_message(&reference_payload(0, 16));
    t.on_message(&reference_payload(3, 16));
    t.on_message(&reference_payload(3, 16));
    t.on_message(&[9, 9]);
    assert_eq!(t.received(), 4);
    let r = t.finish();
    assert_eq!(r.sent, 5);
    assert_eq!(r.received, 4);
    assert_eq!(r.lost, 3);
    assert_eq!(r.duplicated, 1);
    assert_eq!(r.unidentifiable, 1);
    assert_eq!(r.correct_bytes, 32);
    assert_eq!(r.correct_bits, 256);
    assert_eq!(r.received, r.unidentifiable + r.duplicated + (r.sent - r.lost));
}

#[test]
fn tally_of_a_perfect_run() {
    let mut t = Tally::new(24, 3).unwrap();
    for seq in 0..3 {
        t.on_message(&reference_payload(seq, 24));
    }
    assert!(!t.wants_more());
    let r = t.finish();
    assert_eq!(r.lost, 0);
    assert_eq!(r.correct_bytes, 72);
    assert_eq!(r.correct_bits, 576);
    assert_eq!(r.corrupted + r.truncated + r.duplicated + r.unidentifiable, 0);
}

#[test]
fn tally_refuses_totals_beyond_64_bits() {
    assert!(Tally::new(1 << 40, 1 << 30).is_none());
    assert!(Tally::new(8, 1000).is_some());
}
