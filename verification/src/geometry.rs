//! How a total size is cut into blocks, and in which order the blocks are
//! visited.

use vstd::prelude::*;
use vstd::arithmetic::div_mod::lemma_fundamental_div_mod;

verus! {

/// The number of blocks needed to cover `total` bytes with blocks of `bs`
/// bytes; the last block may be short.
pub open spec fn block_count(total: nat, bs: nat) -> nat {
    if bs == 0 {
        0
    } else if total % bs == 0 {
        total / bs
    } else {
        total / bs + 1
    }
}

/// The offset at which block `index` begins.
pub open spec fn block_offset(bs: nat, index: nat) -> nat {
    index * bs
}

/// The length of the block that begins at `offset`: a full block, clamped at
/// the end of the data.
pub open spec fn block_len(total: nat, bs: nat, offset: nat) -> nat {
    if offset + bs <= total {
        bs
    } else {
        (total - offset) as nat
    }
}

/// The order in which the blocks are visited.
#[derive(Clone, Copy, Debug, PartialEq, Eq, Structural)]
pub enum Order {
    /// Ascending offsets.
    InOrder,
    /// The same offsets, descending.
    Reversed,
    /// Blocks chosen by the generator; some may be visited twice and some
    /// never.
    Random,
}

/// Every block lies inside the data and is not empty, and the blocks tile the
/// data: a block ends where the next begins, and the last ends at `total`.
pub proof fn lemma_block_bounds(total: nat, bs: nat, index: nat)
    requires
        bs > 0,
        index < block_count(total, bs),
    ensures
        block_offset(bs, index) < total,
        0 < block_len(total, bs, block_offset(bs, index)) <= bs,
        block_offset(bs, index) + block_len(total, bs, block_offset(bs, index)) <= total,
        index + 1 < block_count(total, bs) ==> block_len(total, bs, block_offset(bs, index)) == bs,
        index + 1 == block_count(total, bs) ==> block_offset(bs, index) + block_len(
            total,
            bs,
            block_offset(bs, index),
        ) == total,
        block_offset(bs, index + 1) == block_offset(bs, index) + bs,
{
    lemma_fundamental_div_mod(total as int, bs as int);
    let q = total / bs;
    assert(index * bs + bs == (index + 1) * bs) by (nonlinear_arith);
    if index < q {
        assert((index + 1) * bs <= q * bs) by (nonlinear_arith)
            requires
                index + 1 <= q,
                bs > 0,
        ;
        assert(bs * q == q * bs) by (nonlinear_arith);
    } else {
        assert(index == q);
        assert(bs * q == q * bs) by (nonlinear_arith);
    }
}

/// There are no blocks only where there is no data.
pub proof fn lemma_no_blocks_no_data(total: nat, bs: nat)
    requires
        bs > 0,
    ensures
        block_count(total, bs) == 0 <==> total == 0,
{
    lemma_fundamental_div_mod(total as int, bs as int);
    let q = total / bs;
    if total % bs == 0 {
        assert(q == 0 <==> total == 0) by (nonlinear_arith)
            requires
                total == bs * q,
                bs > 0,
        ;
    }
}

/// The last block holds `total mod bs` bytes when that is not zero, and a
/// full `bs` bytes otherwise.
pub proof fn lemma_final_block_len(total: nat, bs: nat)
    requires
        bs > 0,
        total > 0,
    ensures
        block_count(total, bs) > 0,
        block_len(total, bs, block_offset(bs, (block_count(total, bs) - 1) as nat)) == (if total
            % bs != 0 {
            total % bs
        } else {
            bs
        }),
{
    lemma_fundamental_div_mod(total as int, bs as int);
    let q = total / bs;
    assert(bs * q == q * bs) by (nonlinear_arith);
    if total % bs == 0 {
        assert(q > 0) by (nonlinear_arith)
            requires
                total == q * bs,
                total > 0,
                bs > 0,
        ;
        assert((q - 1) * bs + bs == q * bs) by (nonlinear_arith);
    }
}

/// The number of blocks of `total_size` bytes cut into blocks of
/// `block_size`.
pub fn count_blocks(total_size: u64, block_size: usize) -> (count: u64)
    requires
        block_size > 0,
    ensures
        count == block_count(total_size as nat, block_size as nat),
{
    let bs = block_size as u64;
    if total_size % bs == 0 {
        total_size / bs
    } else {
        proof {
            lemma_fundamental_div_mod(total_size as int, bs as int);
            assert(total_size / bs < u64::MAX) by (nonlinear_arith)
                requires
                    total_size == bs * (total_size / bs) + total_size % bs,
                    total_size % bs > 0,
                    bs > 0,
                    total_size <= u64::MAX,
            ;
        }
        total_size / bs + 1
    }
}

/// The offset of block `index`.
pub fn offset_of_block(total_size: u64, block_size: usize, index: u64) -> (offset: u64)
    requires
        block_size > 0,
        index < block_count(total_size as nat, block_size as nat),
    ensures
        offset == block_offset(block_size as nat, index as nat),
        offset < total_size,
        offset % (block_size as u64) == 0,
{
    proof {
        lemma_block_bounds(total_size as nat, block_size as nat, index as nat);
        vstd::arithmetic::div_mod::lemma_mod_multiples_basic(index as int, block_size as int);
    }
    index * (block_size as u64)
}

/// The clamped length of the block at `offset`:
/// `min(offset + block_size, total_size) - offset`.
pub fn clamped_len(total_size: u64, block_size: usize, offset: u64) -> (len: usize)
    requires
        offset <= total_size,
    ensures
        len == block_len(total_size as nat, block_size as nat, offset as nat),
        len <= block_size,
        offset + len <= total_size,
{
    let rest = total_size - offset;
    if rest >= block_size as u64 {
        block_size
    } else {
        rest as usize
    }
}

/// The block visited at turn `turn` of a pass over `count` blocks, where
/// `word` is the generator word drawn for that turn (used by the random
/// order alone).
pub open spec fn chosen_block(order: Order, count: nat, turn: nat, word: u64) -> nat {
    match order {
        Order::InOrder => turn,
        Order::Reversed => (count - 1 - turn) as nat,
        Order::Random => (word as nat) % count,
    }
}

/// The sequence of block indices that an in-order or reversed pass visits.
pub open spec fn visit_sequence(order: Order, count: nat) -> Seq<nat>
    recommends
        order != Order::Random,
{
    Seq::new(count, |turn: int| chosen_block(order, count, turn as nat, 0))
}

/// The reversed pass visits the blocks of the in-order pass backwards, so
/// both visit every block exactly once.
pub proof fn lemma_reversed_visits_same_blocks(count: nat)
    ensures
        visit_sequence(Order::Reversed, count) =~= visit_sequence(Order::InOrder, count).reverse(),
        visit_sequence(Order::Reversed, count).to_set() =~= visit_sequence(
            Order::InOrder,
            count,
        ).to_set(),
        forall|i: nat| i < count <==> visit_sequence(Order::InOrder, count).contains(i),
        visit_sequence(Order::InOrder, count).no_duplicates(),
        visit_sequence(Order::Reversed, count).no_duplicates(),
{
    let fwd = visit_sequence(Order::InOrder, count);
    let bwd = visit_sequence(Order::Reversed, count);
    assert(bwd =~= fwd.reverse());
    assert forall|x: nat| bwd.to_set().contains(x) <==> fwd.to_set().contains(x) by {
        if bwd.contains(x) {
            let i = choose|i: int| 0 <= i < bwd.len() && bwd[i] == x;
            assert(fwd[count - 1 - i] == x);
        }
        if fwd.contains(x) {
            let i = choose|i: int| 0 <= i < fwd.len() && fwd[i] == x;
            assert(bwd[count - 1 - i] == x);
        }
    }
    assert forall|i: nat| i < count <==> fwd.contains(i) by {
        if i < count {
            assert(fwd[i as int] == i);
        }
    }
}

/// A block chosen at any turn of any pass is one of the `count` blocks.
pub proof fn lemma_chosen_block_in_range(order: Order, count: nat, turn: nat, word: u64)
    requires
        turn < count,
    ensures
        chosen_block(order, count, turn, word) < count,
{
}

/// Picks the block for turn `turn` of a pass over `count` blocks.
pub fn choose_block(order: Order, count: u64, turn: u64, word: u64) -> (index: u64)
    requires
        turn < count,
    ensures
        index == chosen_block(order, count as nat, turn as nat, word),
        index < count,
{
    match order {
        Order::InOrder => turn,
        Order::Reversed => count - 1 - turn,
        Order::Random => word % count,
    }
}

} // verus!
