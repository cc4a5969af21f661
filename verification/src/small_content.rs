//! What the small-file benchmarks leave in the file of each block.

use vstd::prelude::*;
use crate::content::{block_end, left_to_write, lemma_written_before_start, written_before};
use crate::disk::{
    apply, Disk, fresh, lemma_replay_concat, lemma_replay_one, lemma_replay_two, replay,
    write_at,
};
use crate::geometry::{lemma_block_bounds, lemma_no_blocks_no_data, Order};
use crate::prng::{lemma_state_after_add, SEED, state_after, stream};
use crate::registry::{Granularity, Operation};
use crate::script::{
    block_path, fixture_program_of, lemma_block_path_injective, parameter_suffix, pass_ops,
    run_from, script_until_stop, state_after_pass, state_after_turn, target_path,
    timed_program_of, turn_ops, Op, OpenMode, Pass, Plan,
};

verus! {

/// How many bytes an in-order or reversed write pass has drawn when it
/// begins turn `turn`.
spec fn drawn_before(plan: Plan, order: Order, turn: nat) -> nat {
    if order == Order::Reversed {
        (plan.total_size - left_to_write(plan, turn)) as nat
    } else {
        written_before(plan, turn)
    }
}

/// How many bytes an in-order or reversed write pass has drawn when it
/// begins the block `block`: the bytes in front of the block in order, the
/// bytes behind it in reverse order.
pub open spec fn drawn_before_block(plan: Plan, order: Order, block: nat) -> nat {
    if order == Order::Reversed {
        (plan.total_size - block_end(plan, block)) as nat
    } else {
        plan.offset(block)
    }
}

/// Whether a pass that begins turn `turn` has the block `block` still
/// before it.
spec fn still_to_visit(plan: Plan, order: Order, turn: nat, block: nat) -> bool {
    if order == Order::Reversed {
        block + turn < plan.count()
    } else {
        turn <= block < plan.count()
    }
}

/// The blocks begin in the order of their numbers.
proof fn lemma_offsets_ascend(plan: Plan, a: nat, b: nat)
    requires
        a <= b,
    ensures
        plan.offset(a) <= plan.offset(b),
{
    assert(a * (plan.block_size as nat) <= b * (plan.block_size as nat)) by (nonlinear_arith)
        requires
            a <= b,
    ;
}

/// What one turn of an in-order or reversed pass adds to the bytes drawn,
/// and where the blocks that are still to come stand.
proof fn lemma_drawn_step(plan: Plan, order: Order, turn: nat)
    requires
        plan.block_size > 0,
        order != Order::Random,
        turn < plan.count(),
    ensures
        ({
            let block = crate::geometry::chosen_block(order, plan.count(), turn, 0);
            &&& drawn_before_block(plan, order, block) == drawn_before(plan, order, turn)
            &&& drawn_before(plan, order, turn + 1) == drawn_before(plan, order, turn) + plan.len(
                block,
            )
            &&& forall|other: nat| #[trigger]
                still_to_visit(plan, order, turn + 1, other) ==> drawn_before_block(
                    plan,
                    order,
                    other,
                ) >= drawn_before(plan, order, turn + 1)
        }),
{
    let total = plan.total_size as nat;
    let bs = plan.block_size as nat;
    let block = crate::geometry::chosen_block(order, plan.count(), turn, 0);
    lemma_block_bounds(total, bs, block);
    if order == Order::Reversed {
        if block > 0 {
            lemma_block_bounds(total, bs, (block - 1) as nat);
        } else {
            assert(0 * bs == 0) by (nonlinear_arith);
        }
        assert(left_to_write(plan, turn + 1) == plan.offset(block));
        assert forall|other: nat| #[trigger]
            still_to_visit(plan, order, turn + 1, other) implies drawn_before_block(
            plan,
            order,
            other,
        ) >= drawn_before(plan, order, turn + 1) by {
            lemma_block_bounds(total, bs, other);
            lemma_offsets_ascend(plan, other + 1, block);
        }
    } else {
        assert forall|other: nat| #[trigger]
            still_to_visit(plan, order, turn + 1, other) implies drawn_before_block(
            plan,
            order,
            other,
        ) >= drawn_before(plan, order, turn + 1) by {
            lemma_offsets_ascend(plan, turn + 1, other);
        }
    }
}

/// One turn of a write pass over small files puts the bytes drawn for the
/// block into the block's file, provided that the file is emptied on
/// opening or had the length of the block, and closes it again.
proof fn lemma_small_write_turn(
    plan: Plan,
    mode: OpenMode,
    order: Order,
    disk: Disk,
    s: u64,
    turn: nat,
)
    requires
        plan.variant.granularity == Granularity::SmallFiles,
        order != Order::Random,
        turn < plan.count(),
        mode == OpenMode::WriteOnly || mode == OpenMode::ReadOnly ==> ({
            let path = block_path(plan, crate::geometry::chosen_block(order, plan.count(), turn, 0));
            disk.files[path].len() == plan.len(
                crate::geometry::chosen_block(order, plan.count(), turn, 0),
            )
        }),
    ensures
        ({
            let block = crate::geometry::chosen_block(order, plan.count(), turn, 0);
            let after = replay(disk, turn_ops(plan, Pass::Write { mode }, order, s, turn));
            &&& after.files == disk.files.insert(block_path(plan, block), stream(s, plan.len(block)))
            &&& after.open is None
            &&& state_after_turn(plan, Pass::Write { mode }, order, s, turn) == state_after(
                s,
                plan.len(block),
            )
        }),
{
    let block = crate::geometry::chosen_block(order, plan.count(), turn, 0);
    let path = block_path(plan, block);
    let data = stream(s, plan.len(block));
    let open = Op::Open { path, mode };
    let write = Op::Write { data };
    let ops = seq![open, write, Op::Flush, Op::Close];
    assert(turn_ops(plan, Pass::Write { mode }, order, s, turn) == ops);
    assert(ops =~= seq![open, write] + seq![Op::Flush, Op::Close]);
    lemma_replay_concat(disk, seq![open, write], seq![Op::Flush, Op::Close]);
    lemma_replay_two(disk, open, write);
    lemma_replay_two(apply(apply(disk, open), write), Op::Flush, Op::Close);
    let opened = apply(disk, open);
    assert(write_at(opened.files[path], 0, data) =~= data);
    assert(replay(disk, ops).files =~= disk.files.insert(path, data));
}

/// What an in-order or reversed write pass from turn `turn` on, with the
/// generator in state `s`, puts into the file of `block`.
spec fn written_to_block(plan: Plan, order: Order, s: u64, turn: nat, block: nat) -> Seq<u8> {
    stream(
        state_after(
            s,
            (drawn_before_block(plan, order, block) - drawn_before(plan, order, turn)) as nat,
        ),
        plan.len(block),
    )
}

/// Every block's file exists and is as long as the block.
spec fn blocks_filled(plan: Plan, disk: Disk) -> bool {
    forall|block: nat|
        block < plan.count() ==> {
            &&& disk.files.dom().contains(#[trigger] block_path(plan, block))
            &&& disk.files[block_path(plan, block)].len() == plan.len(block)
        }
}

/// An in-order or reversed write pass over small files leaves in the file of
/// every block that it visits the bytes drawn for that block, and leaves the
/// files of the other blocks alone. A pass that reopens existing files
/// without emptying them does so where every file had the length of its
/// block.
#[verifier::rlimit(40)]
proof fn lemma_small_write_pass(
    plan: Plan,
    mode: OpenMode,
    order: Order,
    disk: Disk,
    s: u64,
    turn: nat,
)
    requires
        plan.block_size > 0,
        plan.variant.granularity == Granularity::SmallFiles,
        order != Order::Random,
        turn <= plan.count(),
        mode == OpenMode::WriteOnly || mode == OpenMode::ReadOnly ==> blocks_filled(plan, disk),
    ensures
        ({
            let end = replay(disk, pass_ops(plan, Pass::Write { mode }, order, s, turn));
            &&& forall|block: nat| #[trigger]
                still_to_visit(plan, order, turn, block) ==> {
                    &&& end.files.dom().contains(block_path(plan, block))
                    &&& end.files[block_path(plan, block)] == written_to_block(
                        plan,
                        order,
                        s,
                        turn,
                        block,
                    )
                }
            &&& forall|block: nat|
                block < plan.count() && !#[trigger] still_to_visit(plan, order, turn, block) ==> {
                    &&& end.files.dom().contains(block_path(plan, block))
                        == disk.files.dom().contains(block_path(plan, block))
                    &&& end.files[block_path(plan, block)] == disk.files[block_path(plan, block)]
                }
            &&& end.open == (if turn < plan.count() {
                None
            } else {
                disk.open
            })
            &&& state_after_pass(plan, Pass::Write { mode }, order, s, turn) == state_after(
                s,
                (plan.total_size - drawn_before(plan, order, turn)) as nat,
            )
        }),
    decreases plan.count() - turn,
{
    let pass = Pass::Write { mode };
    let total = plan.total_size as nat;
    let bs = plan.block_size as nat;
    lemma_no_blocks_no_data(total, bs);
    if turn < plan.count() {
        let block = crate::geometry::chosen_block(order, plan.count(), turn, 0);
        let path = block_path(plan, block);
        let len = plan.len(block);
        let next = state_after(s, len);
        lemma_block_bounds(total, bs, block);
        lemma_drawn_step(plan, order, turn);
        let ops = turn_ops(plan, pass, order, s, turn);
        let rest = pass_ops(plan, pass, order, next, turn + 1);
        assert(still_to_visit(plan, order, turn, block));
        assert(!still_to_visit(plan, order, turn + 1, block));
        lemma_small_write_turn(plan, mode, order, disk, s, turn);
        lemma_replay_concat(disk, ops, rest);
        let after = replay(disk, ops);
        if mode == OpenMode::WriteOnly || mode == OpenMode::ReadOnly {
            assert forall|other: nat| other < plan.count() implies {
                &&& after.files.dom().contains(#[trigger] block_path(plan, other))
                &&& after.files[block_path(plan, other)].len() == plan.len(other)
            } by {
                if block_path(plan, other) == path {
                    lemma_block_path_injective(plan, other, block);
                }
            }
        }
        lemma_small_write_pass(plan, mode, order, after, next, turn + 1);
        let end = replay(after, rest);
        assert forall|other: nat| #[trigger] still_to_visit(plan, order, turn, other) implies {
            &&& end.files.dom().contains(block_path(plan, other))
            &&& end.files[block_path(plan, other)] == written_to_block(plan, order, s, turn, other)
        } by {
            if other != block {
                assert(still_to_visit(plan, order, turn + 1, other));
                let gap = (drawn_before_block(plan, order, other) - drawn_before(
                    plan,
                    order,
                    turn + 1,
                )) as nat;
                lemma_state_after_add(s, len, gap);
            }
        }
        assert forall|other: nat|
            other < plan.count() && !#[trigger] still_to_visit(plan, order, turn, other) implies {
            &&& end.files.dom().contains(block_path(plan, other)) == disk.files.dom().contains(
                block_path(plan, other),
            )
            &&& end.files[block_path(plan, other)] == disk.files[block_path(plan, other)]
        } by {
            assert(!still_to_visit(plan, order, turn + 1, other));
            if block_path(plan, other) == path {
                lemma_block_path_injective(plan, other, block);
            }
        }
        lemma_state_after_add(s, len, (total - drawn_before(plan, order, turn + 1)) as nat);
    }
}

/// A read pass over small files changes no file.
proof fn lemma_small_read_pass(plan: Plan, order: Order, disk: Disk, s: u64, turn: nat)
    requires
        plan.variant.granularity == Granularity::SmallFiles,
    ensures
        replay(disk, pass_ops(plan, Pass::Read, order, s, turn)).files == disk.files,
    decreases plan.count() - turn,
{
    if turn < plan.count() {
        let ops = turn_ops(plan, Pass::Read, order, s, turn);
        let next = state_after_turn(plan, Pass::Read, order, s, turn);
        lemma_replay_concat(disk, ops, pass_ops(plan, Pass::Read, order, next, turn + 1));
        assert(ops =~= seq![ops[0]] + seq![ops[1], ops[2]]);
        lemma_replay_concat(disk, seq![ops[0]], seq![ops[1], ops[2]]);
        lemma_replay_one(disk, ops[0]);
        lemma_replay_two(apply(disk, ops[0]), ops[1], ops[2]);
        lemma_small_read_pass(plan, order, replay(disk, ops), next, turn + 1);
    }
}

/// An in-order or reversed pass begins with nothing drawn.
proof fn lemma_drawn_before_start(plan: Plan, order: Order)
    requires
        plan.block_size > 0,
        order != Order::Random,
    ensures
        drawn_before(plan, order, 0) == 0,
{
    let total = plan.total_size as nat;
    let bs = plan.block_size as nat;
    lemma_written_before_start(plan);
    lemma_no_blocks_no_data(total, bs);
    if plan.count() > 0 {
        lemma_block_bounds(total, bs, (plan.count() - 1) as nat);
    }
}

/// The file of block `block` when the clock stops, if the run starts on an
/// empty disk.
pub open spec fn stored_at_stop(plan: Plan, block: nat) -> Seq<u8> {
    replay(fresh(), script_until_stop(plan)).files[block_path(plan, block)]
}

/// Written in order or in reverse order, the file of every block holds the
/// bytes that the generator yielded when the pass came to the block: in
/// order the stream is cut into the files as it is, in reverse order the
/// last file holds its first bytes.
pub proof fn lemma_small_write_content(plan: Plan, block: nat)
    requires
        plan.block_size > 0,
        plan.variant.granularity == Granularity::SmallFiles,
        plan.variant.operation == Operation::Write,
        plan.variant.order != Order::Random,
        block < plan.count(),
    ensures
        stored_at_stop(plan, block) == stream(
            state_after(SEED, drawn_before_block(plan, plan.variant.order, block)),
            plan.len(block),
        ),
        stored_at_stop(plan, block).len() == plan.len(block),
{
    let order = plan.variant.order;
    let head = seq![Op::MakeDir { path: target_path(plan) }, Op::StartClock];
    let pass = pass_ops(plan, Pass::Write { mode: OpenMode::Create }, order, SEED, 0);
    let tail = seq![Op::StopClock];
    assert(script_until_stop(plan) =~= head + pass + tail) by {
        reveal(fixture_program_of);
        reveal(timed_program_of);
        reveal_with_fuel(run_from, 5);
    }
    lemma_replay_concat(fresh(), head + pass, tail);
    lemma_replay_concat(fresh(), head, pass);
    lemma_replay_two(fresh(), head[0], head[1]);
    assert(head =~= seq![head[0], head[1]]);
    let made = replay(fresh(), head);
    lemma_small_write_pass(plan, OpenMode::Create, order, made, SEED, 0);
    lemma_replay_one(replay(made, pass), Op::StopClock);
    lemma_drawn_before_start(plan, order);
    assert(still_to_visit(plan, order, 0, block));
}

/// The disk after the fill pass of a small-file update or read benchmark,
/// and the generator state then.
proof fn lemma_small_filled(plan: Plan)
    requires
        plan.block_size > 0,
        plan.variant.granularity == Granularity::SmallFiles,
    ensures
        ({
            let fill = Pass::Write { mode: OpenMode::CreateReadable };
            let ops = seq![Op::MakeDir { path: target_path(plan) }] + pass_ops(
                plan,
                fill,
                Order::InOrder,
                SEED,
                0,
            );
            let filled = replay(fresh(), ops);
            &&& forall|block: nat|
                block < plan.count() ==> {
                    &&& filled.files.dom().contains(#[trigger] block_path(plan, block))
                    &&& filled.files[block_path(plan, block)] == stream(
                        state_after(SEED, plan.offset(block)),
                        plan.len(block),
                    )
                }
            &&& state_after_pass(plan, fill, Order::InOrder, SEED, 0) == state_after(
                SEED,
                plan.total_size as nat,
            )
        }),
{
    let fill = Pass::Write { mode: OpenMode::CreateReadable };
    let make = Op::MakeDir { path: target_path(plan) };
    let pass = pass_ops(plan, fill, Order::InOrder, SEED, 0);
    lemma_replay_concat(fresh(), seq![make], pass);
    lemma_replay_one(fresh(), make);
    let made = apply(fresh(), make);
    lemma_small_write_pass(plan, OpenMode::CreateReadable, Order::InOrder, made, SEED, 0);
    lemma_drawn_before_start(plan, Order::InOrder);
    let filled = replay(made, pass);
    assert forall|block: nat| block < plan.count() implies {
        &&& filled.files.dom().contains(#[trigger] block_path(plan, block))
        &&& filled.files[block_path(plan, block)] == stream(
            state_after(SEED, plan.offset(block)),
            plan.len(block),
        )
    } by {
        assert(still_to_visit(plan, Order::InOrder, 0, block));
    }
}

/// When the clock of a small-file read benchmark stops, the file of every
/// block holds its part of the first `total_size` bytes of the stream, as
/// the fill pass wrote it, whatever the order of the reads.
pub proof fn lemma_small_read_content(plan: Plan, block: nat)
    requires
        plan.block_size > 0,
        plan.variant.granularity == Granularity::SmallFiles,
        plan.variant.operation == Operation::Read,
        block < plan.count(),
    ensures
        stored_at_stop(plan, block) == stream(state_after(SEED, plan.offset(block)), plan.len(block)),
        stored_at_stop(plan, block).len() == plan.len(block),
{
    let fill = Pass::Write { mode: OpenMode::CreateReadable };
    let first = seq![Op::MakeDir { path: target_path(plan) }] + pass_ops(
        plan,
        fill,
        Order::InOrder,
        SEED,
        0,
    );
    let later = state_after_pass(plan, fill, Order::InOrder, SEED, 0);
    let pass = pass_ops(plan, Pass::Read, plan.variant.order, later, 0);
    assert(script_until_stop(plan) =~= first + seq![Op::StartClock] + pass + seq![Op::StopClock])
        by {
        reveal(fixture_program_of);
        reveal(timed_program_of);
        reveal_with_fuel(run_from, 6);
    }
    lemma_small_filled(plan);
    lemma_replay_concat(fresh(), first + seq![Op::StartClock] + pass, seq![Op::StopClock]);
    lemma_replay_concat(fresh(), first + seq![Op::StartClock], pass);
    lemma_replay_concat(fresh(), first, seq![Op::StartClock]);
    let filled = replay(fresh(), first);
    lemma_replay_one(filled, Op::StartClock);
    lemma_small_read_pass(plan, plan.variant.order, filled, later, 0);
    lemma_replay_one(replay(filled, pass), Op::StopClock);
}

/// Rewritten in order or in reverse order, the file of every block holds
/// the bytes that the generator yielded when the measured pass came to the
/// block. The measured pass begins at the seed, so these are the bytes that
/// a write pass in the same order puts there.
pub proof fn lemma_small_update_content(plan: Plan, block: nat)
    requires
        plan.block_size > 0,
        plan.variant.granularity == Granularity::SmallFiles,
        plan.variant.operation == Operation::Update,
        plan.variant.order != Order::Random,
        block < plan.count(),
    ensures
        stored_at_stop(plan, block) == stream(
            state_after(SEED, drawn_before_block(plan, plan.variant.order, block)),
            plan.len(block),
        ),
        stored_at_stop(plan, block).len() == plan.len(block),
{
    let order = plan.variant.order;
    let fill = Pass::Write { mode: OpenMode::CreateReadable };
    let first = seq![Op::MakeDir { path: target_path(plan) }] + pass_ops(
        plan,
        fill,
        Order::InOrder,
        SEED,
        0,
    );
    let pass = pass_ops(plan, Pass::Write { mode: OpenMode::WriteOnly }, order, SEED, 0);
    lemma_small_filled(plan);
    assert(script_until_stop(plan) =~= first + seq![Op::StartClock] + pass + seq![Op::StopClock])
        by {
        reveal(fixture_program_of);
        reveal(timed_program_of);
        reveal_with_fuel(run_from, 7);
    }
    lemma_replay_concat(fresh(), first + seq![Op::StartClock] + pass, seq![Op::StopClock]);
    lemma_replay_concat(fresh(), first + seq![Op::StartClock], pass);
    lemma_replay_concat(fresh(), first, seq![Op::StartClock]);
    let filled = replay(fresh(), first);
    lemma_replay_one(filled, Op::StartClock);
    assert(blocks_filled(plan, filled));
    lemma_small_write_pass(plan, OpenMode::WriteOnly, order, filled, SEED, 0);
    lemma_replay_one(replay(filled, pass), Op::StopClock);
    lemma_drawn_before_start(plan, order);
    assert(still_to_visit(plan, order, 0, block));
}

/// An update benchmark over small files, in order or in reverse order,
/// leaves in the file of every block what the write benchmark of the same
/// order and sizes leaves there. With the same run index the two work on
/// the same files.
pub proof fn lemma_small_update_matches_write(update: Plan, write: Plan, block: nat)
    requires
        update.block_size > 0,
        update.variant.granularity == Granularity::SmallFiles,
        write.variant.granularity == Granularity::SmallFiles,
        update.variant.operation == Operation::Update,
        write.variant.operation == Operation::Write,
        update.variant.order == write.variant.order,
        update.variant.order != Order::Random,
        update.total_size == write.total_size,
        update.block_size == write.block_size,
        block < update.count(),
    ensures
        stored_at_stop(update, block) == stored_at_stop(write, block),
        update.run == write.run ==> block_path(update, block) == block_path(write, block),
{
    lemma_small_update_content(update, block);
    lemma_small_write_content(write, block);
    if update.run == write.run {
        assert(parameter_suffix(update) == parameter_suffix(write));
    }
}

} // verus!
