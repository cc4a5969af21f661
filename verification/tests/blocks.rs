use fsbench::geometry::{choose_block, clamped_len, count_blocks, offset_of_block, Order};

#[test]
fn exact_multiple_has_only_full_blocks() {
    assert_eq!(count_blocks(1024, 256), 4);
    for i in 0..4u64 {
        let offset = offset_of_block(1024, 256, i);
        assert_eq!(offset, i * 256);
        assert_eq!(clamped_len(1024, 256, offset), 256);
    }
}

#[test]
fn final_block_is_the_remainder() {
    assert_eq!(count_blocks(1000, 256), 4);
    assert_eq!(clamped_len(1000, 256, 0), 256);
    assert_eq!(clamped_len(1000, 256, 512), 256);
    assert_eq!(clamped_len(1000, 256, 768), 232);
    assert_eq!(1000 % 256, 232);
}

#[test]
fn final_block_never_passes_the_end() {
    for total in 1..200u64 {
        for bs in 1..40usize {
            let count = count_blocks(total, bs);
            let mut sum = 0u64;
            for i in 0..count {
                let offset = offset_of_block(total, bs, i);
                assert_eq!(offset, sum);
                let len = clamped_len(total, bs, offset) as u64;
                assert!(len > 0);
                assert!(offset + len <= total);
                sum += len;
            }
            assert_eq!(sum, total);
            let last = clamped_len(total, bs, offset_of_block(total, bs, count - 1)) as u64;
            let rem = total % bs as u64;
            assert_eq!(last, if rem != 0 { rem } else { bs as u64 });
        }
    }
}

#[test]
fn block_larger_than_the_data_is_one_short_block() {
    assert_eq!(count_blocks(10, 64), 1);
    assert_eq!(clamped_len(10, 64, 0), 10);
}

#[test]
fn no_data_no_blocks() {
    assert_eq!(count_blocks(0, 16), 0);
    assert_eq!(clamped_len(0, 16, 0), 0);
}

#[test]
fn clamped_len_at_the_end_is_zero() {
    assert_eq!(clamped_len(100, 10, 100), 0);
}

#[test]
fn huge_sizes_do_not_overflow() {
    assert_eq!(count_blocks(u64::MAX, 1), u64::MAX);
    assert_eq!(count_blocks(u64::MAX, 2), (u64::MAX / 2) + 1);
    assert_eq!(clamped_len(u64::MAX, 4096, u64::MAX - 5), 5);
    assert_eq!(offset_of_block(u64::MAX, 2, u64::MAX / 2), u64::MAX - 1);
}

#[test]
fn reversed_visits_the_in_order_blocks_backwards() {
    let count = 7u64;
    let forward: Vec<u64> = (0..count).map(|t| choose_block(Order::InOrder, count, t, 99)).collect();
    let mut backward: Vec<u64> =
        (0..count).map(|t| choose_block(Order::Reversed, count, t, 99)).collect();
    assert_eq!(forward, vec![0, 1, 2, 3, 4, 5, 6]);
    assert_eq!(backward, vec![6, 5, 4, 3, 2, 1, 0]);
    backward.reverse();
    assert_eq!(forward, backward);
}

#[test]
fn random_takes_the_word_modulo_the_count() {
    assert_eq!(choose_block(Order::Random, 4, 0, 45454805674), 45454805674 % 4);
    assert_eq!(choose_block(Order::Random, 4, 3, 11532217803599905471), 3);
    assert_eq!(choose_block(Order::Random, 1, 0, u64::MAX), 0);
}
