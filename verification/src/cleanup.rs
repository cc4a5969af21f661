//! Every benchmark ends with its files empty and closed.

use vstd::prelude::*;
use crate::content::lemma_until_stop_leaves_open;
use crate::disk::{
    apply, Disk, lemma_replay_concat, lemma_replay_one, lemma_replay_two, replay,
};
use crate::geometry::Order;
use crate::prng::SEED;
use crate::registry::{Granularity, Operation};
use crate::script::{
    block_path, cleanup_program_of, cleanup_script, fixture_program_of, lemma_script_parts,
    measured_program_of, Op, OpenMode, Pass, pass_ops, Plan, run_from, script,
    script_until_stop, Segment, single_op, state_after_pass, state_after_turn, state_at_end,
    target_path, timed_program_of, turn_ops,
};

verus! {

/// The cleanup pass over small files empties the file of every block that
/// it still has to visit, fills no file, and leaves nothing open.
proof fn lemma_small_cleanup_pass(plan: Plan, disk: Disk, s: u64, turn: nat)
    requires
        plan.variant.granularity == Granularity::SmallFiles,
        turn <= plan.count(),
    ensures
        ({
            let end = replay(disk, pass_ops(plan, Pass::Truncate, Order::InOrder, s, turn));
            &&& forall|block: nat|
                turn <= block < plan.count() ==> {
                    &&& end.files.dom().contains(#[trigger] block_path(plan, block))
                    &&& end.files[block_path(plan, block)] == Seq::<u8>::empty()
                }
            &&& forall|path: Seq<char>|
                disk.files.dom().contains(path) && disk.files[path] == Seq::<u8>::empty() ==> {
                    &&& #[trigger] end.files.dom().contains(path)
                    &&& end.files[path] == Seq::<u8>::empty()
                }
            &&& end.open == (if turn < plan.count() {
                None
            } else {
                disk.open
            })
        }),
    decreases plan.count() - turn,
{
    if turn < plan.count() {
        let path = block_path(plan, turn);
        let open = Op::Open { path, mode: OpenMode::Create };
        let ops = seq![open, Op::Truncate, Op::Close];
        let rest = pass_ops(plan, Pass::Truncate, Order::InOrder, s, turn + 1);
        assert(turn_ops(plan, Pass::Truncate, Order::InOrder, s, turn) == ops);
        assert(state_after_turn(plan, Pass::Truncate, Order::InOrder, s, turn) == s);
        lemma_replay_concat(disk, ops, rest);
        lemma_replay_concat(disk, seq![open], seq![Op::Truncate, Op::Close]);
        assert(ops =~= seq![open] + seq![Op::Truncate, Op::Close]);
        lemma_replay_one(disk, open);
        lemma_replay_two(apply(disk, open), Op::Truncate, Op::Close);
        let after = replay(disk, ops);
        assert(after.files =~= disk.files.insert(path, Seq::empty()));
        assert(after.open is None);
        lemma_small_cleanup_pass(plan, after, s, turn + 1);
        let end = replay(after, rest);
        assert forall|block: nat| turn <= block < plan.count() implies {
            &&& end.files.dom().contains(#[trigger] block_path(plan, block))
            &&& end.files[block_path(plan, block)] == Seq::<u8>::empty()
        } by {
            if block == turn {
                assert(after.files.dom().contains(path));
            }
        }
        assert forall|other: Seq<char>|
            disk.files.dom().contains(other) && disk.files[other] == Seq::<u8>::empty() implies {
            &&& #[trigger] end.files.dom().contains(other)
            &&& end.files[other] == Seq::<u8>::empty()
        } by {
            assert(after.files.dom().contains(other));
        }
    }
}

/// A pass over small files that begins with no file open ends with no file
/// open.
proof fn lemma_small_pass_closed(plan: Plan, pass: Pass, order: Order, disk: Disk, s: u64, turn: nat)
    requires
        plan.variant.granularity == Granularity::SmallFiles,
        disk.open is None,
    ensures
        replay(disk, pass_ops(plan, pass, order, s, turn)).open is None,
    decreases plan.count() - turn,
{
    if turn < plan.count() {
        let ops = turn_ops(plan, pass, order, s, turn);
        let next = state_after_turn(plan, pass, order, s, turn);
        let rest = pass_ops(plan, pass, order, next, turn + 1);
        lemma_replay_concat(disk, ops, rest);
        match pass {
            Pass::Write { .. } => {
                assert(ops =~= seq![ops[0], ops[1]] + seq![ops[2], ops[3]]);
                lemma_replay_concat(disk, seq![ops[0], ops[1]], seq![ops[2], ops[3]]);
                lemma_replay_two(disk, ops[0], ops[1]);
                lemma_replay_two(replay(disk, seq![ops[0], ops[1]]), ops[2], ops[3]);
            },
            _ => {
                assert(ops =~= seq![ops[0]] + seq![ops[1], ops[2]]);
                lemma_replay_concat(disk, seq![ops[0]], seq![ops[1], ops[2]]);
                lemma_replay_one(disk, ops[0]);
                lemma_replay_two(apply(disk, ops[0]), ops[1], ops[2]);
            },
        }
        lemma_small_pass_closed(plan, pass, order, replay(disk, ops), next, turn + 1);
    }
}

/// A small-file program that opens files only inside its passes ends with
/// no file open, if it began so.
proof fn lemma_small_run_closed(
    plan: Plan,
    program: Seq<Segment>,
    segment: nat,
    turn: nat,
    s: u64,
    disk: Disk,
)
    requires
        plan.variant.granularity == Granularity::SmallFiles,
        disk.open is None,
        forall|k: int| 0 <= k < program.len() ==> !(#[trigger] program[k] is Open),
    ensures
        replay(disk, run_from(plan, program, segment, turn, s)).open is None,
    decreases program.len() - segment,
{
    if segment < program.len() {
        match program[segment as int] {
            Segment::Blocks { pass, order } => {
                let head = pass_ops(plan, pass, order, s, turn);
                let next = state_after_pass(plan, pass, order, s, turn);
                lemma_replay_concat(disk, head, run_from(plan, program, segment + 1, 0, next));
                lemma_small_pass_closed(plan, pass, order, disk, s, turn);
                lemma_small_run_closed(plan, program, segment + 1, 0, next, replay(disk, head));
            },
            Segment::Reseed => {
                lemma_small_run_closed(plan, program, segment + 1, 0, SEED, disk);
            },
            single => {
                let op = single_op(plan, single);
                lemma_replay_concat(disk, seq![op], run_from(plan, program, segment + 1, 0, s));
                lemma_replay_one(disk, op);
                lemma_small_run_closed(plan, program, segment + 1, 0, s, apply(disk, op));
            },
        }
    }
}

/// The disk when a benchmark that started on the disk `start` has ended.
pub open spec fn disk_at_end(plan: Plan, start: Disk) -> Disk {
    replay(start, script(plan))
}

/// When a large-file benchmark has ended, its file exists, is empty and is
/// closed, whatever was on the disk when it began: also the file that an
/// earlier run with the same parameters left.
pub proof fn lemma_large_file_left_empty(plan: Plan, start: Disk)
    requires
        plan.block_size > 0,
        plan.variant.granularity == Granularity::LargeFile,
    ensures
        disk_at_end(plan, start).files.dom().contains(target_path(plan)),
        disk_at_end(plan, start).files[target_path(plan)] == Seq::<u8>::empty(),
        disk_at_end(plan, start).open is None,
{
    let path = target_path(plan);
    lemma_script_parts(plan);
    lemma_replay_concat(start, script_until_stop(plan), cleanup_script(plan));
    let stopped = replay(start, script_until_stop(plan));
    reveal(cleanup_program_of);
    reveal_with_fuel(run_from, 5);
    if plan.variant.operation == Operation::Read {
        let open = Op::Open { path, mode: OpenMode::Create };
        assert(cleanup_script(plan) =~= seq![Op::Close, open] + seq![Op::Truncate, Op::Close]);
        lemma_replay_concat(stopped, seq![Op::Close, open], seq![Op::Truncate, Op::Close]);
        lemma_replay_two(stopped, Op::Close, open);
        lemma_replay_two(apply(apply(stopped, Op::Close), open), Op::Truncate, Op::Close);
    } else {
        lemma_until_stop_leaves_open(plan, start);
        assert(cleanup_script(plan) =~= seq![Op::Truncate, Op::Close]);
        lemma_replay_two(stopped, Op::Truncate, Op::Close);
    }
}

/// When a small-file benchmark has ended, the file of every block exists and
/// is empty, and no file is open, whatever was on the disk when it began:
/// also the directory and the files that an earlier run with the same
/// parameters left.
pub proof fn lemma_small_files_left_empty(plan: Plan, start: Disk)
    requires
        plan.block_size > 0,
        plan.variant.granularity == Granularity::SmallFiles,
        start.open is None,
    ensures
        forall|block: nat|
            block < plan.count() ==> {
                &&& disk_at_end(plan, start).files.dom().contains(
                    #[trigger] block_path(plan, block),
                )
                &&& disk_at_end(plan, start).files[block_path(plan, block)] == Seq::<u8>::empty()
            },
        disk_at_end(plan, start).open is None,
{
    lemma_script_parts(plan);
    lemma_replay_concat(start, script_until_stop(plan), cleanup_script(plan));
    let stopped = replay(start, script_until_stop(plan));
    assert(stopped.open is None) by {
        reveal(fixture_program_of);
        reveal(timed_program_of);
        lemma_small_run_closed(plan, measured_program_of(plan.variant), 0, 0, SEED, start);
    }
    let s = state_at_end(plan, measured_program_of(plan.variant), 0, 0, SEED);
    reveal(cleanup_program_of);
    reveal_with_fuel(run_from, 3);
    let pass = pass_ops(plan, Pass::Truncate, Order::InOrder, s, 0);
    assert(cleanup_script(plan) =~= pass);
    lemma_small_cleanup_pass(plan, stopped, s, 0);
}

} // verus!
