//! Every operation of every script stays inside the data of its run.

use vstd::prelude::*;
use crate::geometry::{lemma_block_bounds, lemma_chosen_block_in_range, Order};
use crate::prng::{SEED, xorshift_step};
use crate::registry::Granularity;
use crate::script::{
    block_of_turn, block_ops, block_path, cleanup_program_of, data_of_turn, fixture_program_of,
    pass_ops, program_of, run_from, script, state_after_pass, state_after_turn, target_path,
    timed_program_of, turn_ops, Op, Pass, Plan, Segment,
};

verus! {

/// The operation touches nothing outside the run: a seek goes to the start
/// of a block inside the data of a large file, a write or a read moves at
/// most one block and at least one byte, a large-file run opens its own file
/// and nothing else, and a small-file run makes its own directory and opens
/// the files of its blocks and nothing else.
pub open spec fn within_bounds(plan: Plan, op: Op) -> bool {
    match op {
        Op::Seek { offset } => {
            &&& plan.variant.granularity == Granularity::LargeFile
            &&& offset % (plan.block_size as nat) == 0
            &&& offset < plan.total_size
        },
        Op::Write { data } => 0 < data.len() <= plan.block_size,
        Op::Read { len } => 0 < len <= plan.block_size,
        Op::Open { path, .. } => match plan.variant.granularity {
            Granularity::LargeFile => path == target_path(plan),
            Granularity::SmallFiles => exists|index: nat|
                index < plan.count() && path == #[trigger] block_path(plan, index),
        },
        Op::MakeDir { path } => {
            &&& plan.variant.granularity == Granularity::SmallFiles
            &&& path == target_path(plan)
        },
        _ => true,
    }
}

/// The program opens the run's path as a file only in a large-file run and
/// makes it as a directory only in a small-file run.
spec fn fits_granularity(plan: Plan, program: Seq<Segment>) -> bool {
    forall|i: int|
        0 <= i < program.len() ==> {
            &&& #[trigger] program[i] is Open ==> plan.variant.granularity
                == Granularity::LargeFile
            &&& program[i] is MakeDir ==> plan.variant.granularity == Granularity::SmallFiles
        }
}

/// The operations on one block of the run stay inside the run.
proof fn lemma_block_ops_within_bounds(
    plan: Plan,
    pass: Pass,
    order: Order,
    index: nat,
    data: Seq<u8>,
    k: int,
)
    requires
        plan.block_size > 0,
        index < plan.count(),
        data.len() == plan.len(index),
        0 <= k < block_ops(plan, pass, order, index, data).len(),
    ensures
        within_bounds(plan, block_ops(plan, pass, order, index, data)[k]),
{
    lemma_block_bounds(plan.total_size as nat, plan.block_size as nat, index);
    vstd::arithmetic::div_mod::lemma_mod_multiples_basic(index as int, plan.block_size as int);
    assert(block_path(plan, index) == block_path(plan, index));
}

/// The operations of a pass stay inside the run.
proof fn lemma_pass_within_bounds(plan: Plan, pass: Pass, order: Order, s: u64, turn: nat, k: int)
    requires
        plan.block_size > 0,
        0 <= k < pass_ops(plan, pass, order, s, turn).len(),
    ensures
        within_bounds(plan, pass_ops(plan, pass, order, s, turn)[k]),
    decreases plan.count() - turn,
{
    if turn < plan.count() {
        let head = turn_ops(plan, pass, order, s, turn);
        if k < head.len() {
            let index = block_of_turn(plan, order, s, turn);
            lemma_chosen_block_in_range(order, plan.count(), turn, xorshift_step(s));
            lemma_block_ops_within_bounds(
                plan,
                pass,
                order,
                index,
                data_of_turn(plan, order, s, turn),
                k,
            );
        } else {
            lemma_pass_within_bounds(
                plan,
                pass,
                order,
                state_after_turn(plan, pass, order, s, turn),
                turn + 1,
                k - head.len(),
            );
        }
    }
}

/// The operations of a program stay inside the run.
proof fn lemma_run_within_bounds(
    plan: Plan,
    program: Seq<Segment>,
    segment: nat,
    turn: nat,
    s: u64,
    k: int,
)
    requires
        plan.block_size > 0,
        fits_granularity(plan, program),
        0 <= k < run_from(plan, program, segment, turn, s).len(),
    ensures
        within_bounds(plan, run_from(plan, program, segment, turn, s)[k]),
    decreases program.len() - segment,
{
    if segment < program.len() {
        match program[segment as int] {
            Segment::Blocks { pass, order } => {
                let head = pass_ops(plan, pass, order, s, turn);
                if k < head.len() {
                    lemma_pass_within_bounds(plan, pass, order, s, turn, k);
                } else {
                    lemma_run_within_bounds(
                        plan,
                        program,
                        segment + 1,
                        0,
                        state_after_pass(plan, pass, order, s, turn),
                        k - head.len(),
                    );
                }
            },
            Segment::Reseed => {
                lemma_run_within_bounds(plan, program, segment + 1, 0, SEED, k);
            },
            _ => {
                if k > 0 {
                    lemma_run_within_bounds(plan, program, segment + 1, 0, s, k - 1);
                }
            },
        }
    }
}

/// No operation of a script goes outside the run's data and files. In
/// particular every offset that a random-order run seeks to is a multiple of
/// the block size below the total size.
pub proof fn lemma_script_within_bounds(plan: Plan)
    requires
        plan.block_size > 0,
    ensures
        forall|k: int| 0 <= k < script(plan).len() ==> within_bounds(plan, #[trigger] script(plan)[k]),
{
    assert forall|k: int| 0 <= k < script(plan).len() implies within_bounds(
        plan,
        #[trigger] script(plan)[k],
    ) by {
        assert(fits_granularity(plan, program_of(plan.variant))) by {
            reveal(fixture_program_of);
            reveal(timed_program_of);
            reveal(cleanup_program_of);
        }
        lemma_run_within_bounds(plan, program_of(plan.variant), 0, 0, SEED, k);
    }
}

} // verus!
