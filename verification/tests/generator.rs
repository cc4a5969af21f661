use fsbench::prng::{xorshift64, SEED};

#[test]
fn seed_42_first_words_match_reference() {
    let mut prng = xorshift64(42);
    assert_eq!(prng.next_u64(), 45454805674);
    assert_eq!(prng.next_u64(), 11532217803599905471);
    assert_eq!(prng.next_u64(), 10021416941527320954);
}

#[test]
fn benchmarks_use_seed_42() {
    assert_eq!(SEED, 42);
}

#[test]
fn same_seed_gives_same_sequence() {
    let mut a = xorshift64(0x1234_5678_9abc_def0);
    let mut b = xorshift64(0x1234_5678_9abc_def0);
    for _ in 0..1000 {
        assert_eq!(a.next_u64(), b.next_u64());
    }
}

#[test]
fn a_byte_is_the_low_byte_of_a_word() {
    let mut words = xorshift64(42);
    let mut bytes = xorshift64(42);
    for _ in 0..64 {
        let word = words.next_u64();
        assert_eq!(bytes.next_byte(), (word & 0xff) as u8);
    }
}

#[test]
fn first_bytes_of_seed_42() {
    let mut prng = xorshift64(42);
    let got: Vec<u8> = (0..8).map(|_| prng.next_byte()).collect();
    assert_eq!(got, vec![170, 191, 122, 104, 130, 35, 211, 50]);
}

#[test]
fn fill_overwrites_a_prefix_one_draw_per_byte() {
    let mut prng = xorshift64(42);
    let mut buffer = vec![7u8; 6];
    prng.fill(&mut buffer, 4);
    assert_eq!(buffer, vec![170, 191, 122, 104, 7, 7]);
    // Four words were consumed: the next one is the fifth.
    assert_eq!(prng.next_u64(), 5661411637479084162);
}

#[test]
fn fill_of_nothing_draws_nothing() {
    let mut prng = xorshift64(42);
    let mut buffer = vec![1u8, 2, 3];
    prng.fill(&mut buffer, 0);
    assert_eq!(buffer, vec![1, 2, 3]);
    assert_eq!(prng.next_u64(), 45454805674);
}

#[test]
fn zero_seed_stays_zero() {
    let mut prng = xorshift64(0);
    assert_eq!(prng.next_u64(), 0);
    assert_eq!(prng.next_u64(), 0);
}
