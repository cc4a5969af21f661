//! What the large-file benchmarks leave in their file.

use vstd::prelude::*;
use crate::disk::{
    apply, Disk, fresh, lemma_replay_concat, lemma_replay_one, lemma_replay_two, replay,
    write_at,
};
use crate::geometry::{
    lemma_block_bounds, lemma_chosen_block_in_range, lemma_no_blocks_no_data, Order,
};
use crate::prng::{
    lemma_state_after_add, lemma_stream_split, low_byte, state_after, stream, xorshift_step,
    SEED,
};
use crate::registry::{Granularity, Operation};
use crate::script::{
    block_of_turn, data_of_turn, fixture_program_of, pass_ops, run_from, script_until_stop,
    state_after_pass, state_after_turn, target_path, timed_program_of, turn_ops, Op, OpenMode,
    Pass, Plan,
};

verus! {

/// The bytes that lie before the block of turn `turn` of an in-order pass.
pub open spec fn written_before(plan: Plan, turn: nat) -> nat {
    if turn >= plan.count() {
        plan.total_size as nat
    } else {
        plan.offset(turn)
    }
}

/// Nothing lies before the first block.
pub proof fn lemma_written_before_start(plan: Plan)
    requires
        plan.block_size > 0,
    ensures
        written_before(plan, 0) == 0,
{
    lemma_no_blocks_no_data(plan.total_size as nat, plan.block_size as nat);
    assert(0 * (plan.block_size as nat) == 0) by (nonlinear_arith);
}

/// An in-order write pass over a large file puts the generator's stream
/// behind what lies before its current block, whether it appends to the
/// file or writes over what the file held, and leaves the generator advanced
/// by one word per byte.
pub proof fn lemma_inorder_write_pass(plan: Plan, mode: OpenMode, disk: Disk, s: u64, turn: nat)
    requires
        plan.block_size > 0,
        plan.variant.granularity == Granularity::LargeFile,
        turn <= plan.count(),
        disk.open is Some,
        disk.files.dom().contains(disk.open->0),
        disk.position == written_before(plan, turn),
        written_before(plan, turn) <= disk.files[disk.open->0].len() <= plan.total_size,
    ensures
        ({
            let pass = Pass::Write { mode };
            let path = disk.open->0;
            let done = written_before(plan, turn);
            let left = (plan.total_size - done) as nat;
            &&& replay(disk, pass_ops(plan, pass, Order::InOrder, s, turn)) == (Disk {
                files: disk.files.insert(
                    path,
                    disk.files[path].subrange(0, done as int) + stream(s, left),
                ),
                position: plan.total_size as nat,
                ..disk
            })
            &&& state_after_pass(plan, pass, Order::InOrder, s, turn) == state_after(s, left)
        }),
    decreases plan.count() - turn,
{
    let pass = Pass::Write { mode };
    let path = disk.open->0;
    let content = disk.files[path];
    let done = written_before(plan, turn);
    let left = (plan.total_size - done) as nat;
    if turn >= plan.count() {
        assert(stream(s, 0) =~= Seq::<u8>::empty());
        assert(content.subrange(0, done as int) + stream(s, left) =~= content);
        assert(disk.files.insert(path, content) =~= disk.files);
    } else {
        lemma_block_bounds(plan.total_size as nat, plan.block_size as nat, turn);
        let len = plan.len(turn);
        let data = stream(s, len);
        let next = state_after(s, len);
        let rest = pass_ops(plan, pass, Order::InOrder, next, turn + 1);
        assert(turn_ops(plan, pass, Order::InOrder, s, turn) == seq![Op::Write { data }]);
        assert(state_after_turn(plan, pass, Order::InOrder, s, turn) == next);
        assert(pass_ops(plan, pass, Order::InOrder, s, turn) == seq![Op::Write { data }] + rest);
        let after = apply(disk, Op::Write { data });
        lemma_replay_concat(disk, seq![Op::Write { data }], rest);
        lemma_replay_one(disk, Op::Write { data });
        let written = write_at(content, done, data);
        assert(after.files[path] == written);
        let done_after = written_before(plan, turn + 1);
        assert(done_after == done + len);
        assert(written.subrange(0, done_after as int) =~= content.subrange(0, done as int) + data);
        lemma_inorder_write_pass(plan, mode, after, next, turn + 1);
        let left_after = (plan.total_size - done_after) as nat;
        assert(left == len + left_after);
        lemma_stream_split(s, len, left_after);
        lemma_state_after_add(s, len, left_after);
        assert(written.subrange(0, done_after as int) + stream(next, left_after)
            =~= content.subrange(0, done as int) + stream(s, left));
        assert(after.files.insert(
            path,
            written.subrange(0, done_after as int) + stream(next, left_after),
        ) =~= disk.files.insert(path, content.subrange(0, done as int) + stream(s, left)));
    }
}

/// A pass over a large file changes nothing but the content of the open
/// file and the position in it; a read pass does not change the content
/// either.
pub proof fn lemma_large_pass_frame(plan: Plan, pass: Pass, order: Order, disk: Disk, s: u64, turn: nat)
    requires
        plan.variant.granularity == Granularity::LargeFile,
        disk.open is Some,
        disk.files.dom().contains(disk.open->0),
    ensures
        ({
            let path = disk.open->0;
            let end = replay(disk, pass_ops(plan, pass, order, s, turn));
            &&& end.open == disk.open
            &&& end.files =~= disk.files.insert(path, end.files[path])
            &&& pass == Pass::Read ==> end.files == disk.files
        }),
    decreases plan.count() - turn,
{
    let path = disk.open->0;
    if turn < plan.count() {
        let ops = turn_ops(plan, pass, order, s, turn);
        let next = state_after_turn(plan, pass, order, s, turn);
        let rest = pass_ops(plan, pass, order, next, turn + 1);
        lemma_replay_concat(disk, ops, rest);
        let after = replay(disk, ops);
        if order == Order::InOrder {
            lemma_replay_one(disk, ops[0]);
            assert(ops =~= seq![ops[0]]);
        } else {
            lemma_replay_two(disk, ops[0], ops[1]);
            assert(ops =~= seq![ops[0], ops[1]]);
        }
        assert(after.open == disk.open);
        assert(after.files =~= disk.files.insert(path, after.files[path]));
        lemma_large_pass_frame(plan, pass, order, after, next, turn + 1);
        let end = replay(after, rest);
        assert(end.files =~= disk.files.insert(path, end.files[path]));
        if pass == Pass::Read {
            assert(after.files =~= disk.files);
        }
    } else {
        assert(disk.files =~= disk.files.insert(path, disk.files[path]));
    }
}

/// What a large-file write benchmark does until the clock stops.
proof fn lemma_write_until_stop(plan: Plan)
    requires
        plan.variant.granularity == Granularity::LargeFile,
        plan.variant.operation == Operation::Write,
    ensures
        script_until_stop(plan) == seq![
            Op::Open { path: target_path(plan), mode: OpenMode::Create },
            Op::StartClock,
        ] + pass_ops(plan, Pass::Write { mode: OpenMode::Create }, plan.variant.order, SEED, 0)
            + seq![Op::Flush, Op::StopClock],
{
    reveal(fixture_program_of);
        reveal(timed_program_of);
    reveal_with_fuel(run_from, 6);
    assert(script_until_stop(plan) =~= seq![
        Op::Open { path: target_path(plan), mode: OpenMode::Create },
        Op::StartClock,
    ] + pass_ops(plan, Pass::Write { mode: OpenMode::Create }, plan.variant.order, SEED, 0)
        + seq![Op::Flush, Op::StopClock]);
}

/// What a large-file update benchmark does until the clock stops. The
/// measured pass begins with the generator at the seed again.
proof fn lemma_update_until_stop(plan: Plan)
    requires
        plan.variant.granularity == Granularity::LargeFile,
        plan.variant.operation == Operation::Update,
    ensures
        ({
            let fill = Pass::Write { mode: OpenMode::Create };
            let path = target_path(plan);
            script_until_stop(plan) == seq![Op::Open { path, mode: OpenMode::Create }] + pass_ops(
                plan,
                fill,
                Order::InOrder,
                SEED,
                0,
            ) + seq![Op::Close, Op::Open { path, mode: OpenMode::WriteOnly }, Op::StartClock]
                + pass_ops(plan, fill, plan.variant.order, SEED, 0) + seq![
                Op::Flush,
                Op::StopClock,
            ]
        }),
{
    reveal(fixture_program_of);
    reveal(timed_program_of);
    reveal_with_fuel(run_from, 10);
    let fill = Pass::Write { mode: OpenMode::Create };
    let path = target_path(plan);
    assert(script_until_stop(plan) =~= seq![Op::Open { path, mode: OpenMode::Create }] + pass_ops(
        plan,
        fill,
        Order::InOrder,
        SEED,
        0,
    ) + seq![Op::Close, Op::Open { path, mode: OpenMode::WriteOnly }, Op::StartClock] + pass_ops(
        plan,
        fill,
        plan.variant.order,
        SEED,
        0,
    ) + seq![Op::Flush, Op::StopClock]);
}

/// What a large-file read benchmark does until the clock stops.
proof fn lemma_read_until_stop(plan: Plan)
    requires
        plan.variant.granularity == Granularity::LargeFile,
        plan.variant.operation == Operation::Read,
    ensures
        ({
            let fill = Pass::Write { mode: OpenMode::Create };
            let path = target_path(plan);
            script_until_stop(plan) == seq![Op::Open { path, mode: OpenMode::Create }] + pass_ops(
                plan,
                fill,
                Order::InOrder,
                SEED,
                0,
            ) + seq![Op::Close, Op::Open { path, mode: OpenMode::ReadOnly }, Op::StartClock]
                + pass_ops(
                plan,
                Pass::Read,
                plan.variant.order,
                state_after_pass(plan, fill, Order::InOrder, SEED, 0),
                0,
            ) + seq![Op::StopClock]
        }),
{
    reveal(fixture_program_of);
        reveal(timed_program_of);
    reveal_with_fuel(run_from, 8);
    let fill = Pass::Write { mode: OpenMode::Create };
    let path = target_path(plan);
    assert(script_until_stop(plan) =~= seq![Op::Open { path, mode: OpenMode::Create }] + pass_ops(
        plan,
        fill,
        Order::InOrder,
        SEED,
        0,
    ) + seq![Op::Close, Op::Open { path, mode: OpenMode::ReadOnly }, Op::StartClock] + pass_ops(
        plan,
        Pass::Read,
        plan.variant.order,
        state_after_pass(plan, fill, Order::InOrder, SEED, 0),
        0,
    ) + seq![Op::StopClock]);
}

/// The file of a run when the clock stops, if the run starts on an empty
/// disk.
pub open spec fn content_at_stop(plan: Plan) -> Seq<u8> {
    replay(fresh(), script_until_stop(plan)).files[target_path(plan)]
}

/// The run's file, just created and open, on a disk with nothing else.
pub open spec fn just_created(plan: Plan) -> Disk {
    Disk {
        dirs: Set::empty(),
        files: Map::empty().insert(target_path(plan), Seq::empty()),
        open: Some(target_path(plan)),
        position: 0,
    }
}

/// The run's file, filled with the first `total_size` bytes of the stream
/// and open at its start, on a disk with nothing else.
pub open spec fn filled_and_open(plan: Plan) -> Disk {
    Disk {
        dirs: Set::empty(),
        files: Map::empty().insert(target_path(plan), stream(SEED, plan.total_size as nat)),
        open: Some(target_path(plan)),
        position: 0,
    }
}

/// What one write pass in the order `order` leaves in a file that was
/// empty, when the generator starts the pass in state `s`.
pub open spec fn pass_content(plan: Plan, order: Order, s: u64) -> Seq<u8> {
    replay(
        just_created(plan),
        pass_ops(plan, Pass::Write { mode: OpenMode::Create }, order, s, 0),
    ).files[target_path(plan)]
}

/// When the clock stops, a large-file write benchmark has left what one
/// write pass from the seed leaves.
pub proof fn lemma_write_content(plan: Plan)
    requires
        plan.block_size > 0,
        plan.variant.granularity == Granularity::LargeFile,
        plan.variant.operation == Operation::Write,
    ensures
        content_at_stop(plan) == pass_content(plan, plan.variant.order, SEED),
{
    let path = target_path(plan);
    let head = seq![Op::Open { path, mode: OpenMode::Create }, Op::StartClock];
    let pass = pass_ops(plan, Pass::Write { mode: OpenMode::Create }, plan.variant.order, SEED, 0);
    let tail = seq![Op::Flush, Op::StopClock];
    lemma_write_until_stop(plan);
    lemma_replay_concat(fresh(), head + pass, tail);
    lemma_replay_concat(fresh(), head, pass);
    lemma_replay_two(fresh(), head[0], head[1]);
    assert(head =~= seq![head[0], head[1]]);
    assert(replay(fresh(), head) == just_created(plan));
    lemma_replay_two(replay(just_created(plan), pass), Op::Flush, Op::StopClock);
}

/// The disk after the fill pass of an update or read benchmark, and the
/// generator state then: the file holds the first `total_size` bytes of the
/// stream, and as many words have been drawn.
proof fn lemma_filled(plan: Plan)
    requires
        plan.block_size > 0,
        plan.variant.granularity == Granularity::LargeFile,
    ensures
        ({
            let path = target_path(plan);
            let fill = Pass::Write { mode: OpenMode::Create };
            let ops = seq![Op::Open { path, mode: OpenMode::Create }] + pass_ops(
                plan,
                fill,
                Order::InOrder,
                SEED,
                0,
            );
            &&& replay(fresh(), ops) == (Disk {
                position: plan.total_size as nat,
                ..filled_and_open(plan)
            })
            &&& state_after_pass(plan, fill, Order::InOrder, SEED, 0) == state_after(
                SEED,
                plan.total_size as nat,
            )
        }),
{
    let path = target_path(plan);
    let fill = Pass::Write { mode: OpenMode::Create };
    let open = Op::Open { path, mode: OpenMode::Create };
    let pass = pass_ops(plan, fill, Order::InOrder, SEED, 0);
    lemma_replay_concat(fresh(), seq![open], pass);
    lemma_replay_one(fresh(), open);
    lemma_written_before_start(plan);
    lemma_inorder_write_pass(plan, OpenMode::Create, just_created(plan), SEED, 0);
    assert(replay(fresh(), seq![open]) == just_created(plan));
    let total = plan.total_size as nat;
    assert(Seq::<u8>::empty().subrange(0, 0) + stream(SEED, total) =~= stream(SEED, total));
    assert(just_created(plan).files.insert(path, stream(SEED, total)) =~= Map::empty().insert(
        path,
        stream(SEED, total),
    ));
}

/// What the measured pass of an update in the order `order` leaves in the
/// file that the fill pass wrote: the pass begins at the seed, as a write
/// pass does, and writes over what is there.
pub open spec fn rewritten_content(plan: Plan, order: Order) -> Seq<u8> {
    replay(
        filled_and_open(plan),
        pass_ops(plan, Pass::Write { mode: OpenMode::Create }, order, SEED, 0),
    ).files[target_path(plan)]
}

/// When the clock starts, a large-file update benchmark has its file filled
/// and open at the start, and when the clock stops the file holds what the
/// measured pass made of that.
proof fn lemma_update_rewrites(plan: Plan)
    requires
        plan.block_size > 0,
        plan.variant.granularity == Granularity::LargeFile,
        plan.variant.operation == Operation::Update,
    ensures
        content_at_stop(plan) == rewritten_content(plan, plan.variant.order),
{
    let path = target_path(plan);
    let fill = Pass::Write { mode: OpenMode::Create };
    let first = seq![Op::Open { path, mode: OpenMode::Create }] + pass_ops(
        plan,
        fill,
        Order::InOrder,
        SEED,
        0,
    );
    let middle = seq![Op::Close, Op::Open { path, mode: OpenMode::WriteOnly }, Op::StartClock];
    let pass = pass_ops(plan, fill, plan.variant.order, SEED, 0);
    let tail = seq![Op::Flush, Op::StopClock];
    lemma_update_until_stop(plan);
    lemma_filled(plan);
    lemma_replay_concat(fresh(), first + middle + pass, tail);
    lemma_replay_concat(fresh(), first + middle, pass);
    lemma_replay_concat(fresh(), first, middle);
    let filled = replay(fresh(), first);
    lemma_replay_concat(filled, seq![Op::Close], seq![middle[1], middle[2]]);
    assert(middle =~= seq![Op::Close] + seq![middle[1], middle[2]]);
    lemma_replay_one(filled, Op::Close);
    lemma_replay_two(apply(filled, Op::Close), middle[1], middle[2]);
    let reopened = replay(filled, middle);
    assert(reopened == filled_and_open(plan));
    lemma_replay_two(replay(reopened, pass), Op::Flush, Op::StopClock);
}

/// When the clock stops, a large-file read benchmark has left the file as
/// the fill pass wrote it: the first `total_size` bytes of the stream,
/// whatever the order of the reads.
pub proof fn lemma_read_content(plan: Plan)
    requires
        plan.block_size > 0,
        plan.variant.granularity == Granularity::LargeFile,
        plan.variant.operation == Operation::Read,
    ensures
        content_at_stop(plan) == stream(SEED, plan.total_size as nat),
{
    let path = target_path(plan);
    let fill = Pass::Write { mode: OpenMode::Create };
    let first = seq![Op::Open { path, mode: OpenMode::Create }] + pass_ops(
        plan,
        fill,
        Order::InOrder,
        SEED,
        0,
    );
    let middle = seq![Op::Close, Op::Open { path, mode: OpenMode::ReadOnly }, Op::StartClock];
    let later = state_after(SEED, plan.total_size as nat);
    let pass = pass_ops(plan, Pass::Read, plan.variant.order, later, 0);
    let tail = seq![Op::StopClock];
    lemma_read_until_stop(plan);
    lemma_filled(plan);
    lemma_replay_concat(fresh(), first + middle + pass, tail);
    lemma_replay_concat(fresh(), first + middle, pass);
    lemma_replay_concat(fresh(), first, middle);
    let filled = replay(fresh(), first);
    lemma_replay_concat(filled, seq![Op::Close], seq![middle[1], middle[2]]);
    assert(middle =~= seq![Op::Close] + seq![middle[1], middle[2]]);
    lemma_replay_one(filled, Op::Close);
    lemma_replay_two(apply(filled, Op::Close), middle[1], middle[2]);
    let reopened = replay(filled, middle);
    assert(reopened.files == filled.files);
    lemma_large_pass_frame(plan, Pass::Read, plan.variant.order, reopened, later, 0);
    lemma_replay_one(replay(reopened, pass), Op::StopClock);
}

/// One in-order write pass leaves the stream as the generator yields it.
pub proof fn lemma_inorder_pass_content(plan: Plan, s: u64)
    requires
        plan.block_size > 0,
        plan.variant.granularity == Granularity::LargeFile,
    ensures
        pass_content(plan, Order::InOrder, s) == stream(s, plan.total_size as nat),
{
    lemma_written_before_start(plan);
    lemma_inorder_write_pass(plan, OpenMode::Create, just_created(plan), s, 0);
    assert(Seq::<u8>::empty().subrange(0, 0) + stream(s, plan.total_size as nat) =~= stream(
        s,
        plan.total_size as nat,
    ));
}

/// Written in order, the large file holds exactly the first `total_size`
/// bytes of the generator's stream when the clock stops.
pub proof fn lemma_write_inorder_content(plan: Plan)
    requires
        plan.block_size > 0,
        plan.variant.granularity == Granularity::LargeFile,
        plan.variant.operation == Operation::Write,
        plan.variant.order == Order::InOrder,
    ensures
        content_at_stop(plan) == stream(SEED, plan.total_size as nat),
{
    lemma_write_content(plan);
    lemma_inorder_pass_content(plan, SEED);
}

/// Rewritten in order, the large file holds exactly the first `total_size`
/// bytes of the generator's stream when the clock stops, as it does after a
/// single write pass.
pub proof fn lemma_update_inorder_content(plan: Plan)
    requires
        plan.block_size > 0,
        plan.variant.granularity == Granularity::LargeFile,
        plan.variant.operation == Operation::Update,
        plan.variant.order == Order::InOrder,
    ensures
        content_at_stop(plan) == stream(SEED, plan.total_size as nat),
{
    let total = plan.total_size as nat;
    lemma_update_rewrites(plan);
    lemma_written_before_start(plan);
    lemma_inorder_write_pass(plan, OpenMode::Create, filled_and_open(plan), SEED, 0);
    assert(stream(SEED, total).subrange(0, 0) + stream(SEED, total) =~= stream(SEED, total));
}

/// Where block `block` ends.
pub open spec fn block_end(plan: Plan, block: nat) -> nat {
    plan.offset(block) + plan.len(block)
}

/// The byte that a reversed write pass leaves at position `i`, when `left`
/// bytes at the front of the file were still to be written and the generator
/// was in state `s`. The pass fills the blocks from the back, so a byte
/// comes the later in the stream the further in front its block lies; inside
/// a block the bytes keep their order.
pub open spec fn reversed_byte(plan: Plan, s: u64, left: nat, i: nat) -> u8 {
    let block = i / (plan.block_size as nat);
    let drawn_before = (left - block_end(plan, block)) + (i - plan.offset(block));
    low_byte(state_after(s, (drawn_before + 1) as nat))
}

/// What one reversed write pass leaves in a file that was empty.
pub open spec fn reversed_content(plan: Plan, s: u64) -> Seq<u8> {
    Seq::new(
        plan.total_size as nat,
        |i: int| reversed_byte(plan, s, plan.total_size as nat, i as nat),
    )
}

/// The bytes in front of the block of turn `turn` of a reversed pass: what
/// the pass has still to write, that block included.
pub open spec fn left_to_write(plan: Plan, turn: nat) -> nat {
    if turn >= plan.count() {
        0
    } else {
        block_end(plan, (plan.count() - 1 - turn) as nat)
    }
}

/// A byte between the start of a block and the start of the next lies in
/// that block.
proof fn lemma_block_of_byte(bs: nat, block: nat, i: nat)
    requires
        bs > 0,
        block * bs <= i < block * bs + bs,
    ensures
        i / bs == block,
{
    vstd::arithmetic::div_mod::lemma_fundamental_div_mod_converse(
        i as int,
        bs as int,
        block as int,
        i - block * bs,
    );
}

/// A byte in front of a block lies in an earlier block, a full one.
proof fn lemma_byte_before_block(plan: Plan, block: nat, i: nat)
    requires
        plan.block_size > 0,
        block < plan.count(),
        i < plan.offset(block),
    ensures
        i / (plan.block_size as nat) < block,
        plan.offset(i / (plan.block_size as nat)) <= i,
        i < block_end(plan, i / (plan.block_size as nat)) <= plan.offset(block),
        plan.len(i / (plan.block_size as nat)) == plan.block_size,
{
    let bs = plan.block_size as nat;
    let b = i / bs;
    vstd::arithmetic::div_mod::lemma_fundamental_div_mod(i as int, bs as int);
    assert(bs * b == b * bs) by (nonlinear_arith);
    assert(b < block) by (nonlinear_arith)
        requires
            b * bs <= i,
            i < block * bs,
            bs > 0,
    ;
    lemma_block_bounds(plan.total_size as nat, bs, b);
    assert((b + 1) * bs <= block * bs) by (nonlinear_arith)
        requires
            b + 1 <= block,
            bs > 0,
    ;
    assert((b + 1) * bs == b * bs + bs) by (nonlinear_arith);
}

/// A reversed write pass over a large file fills the front of the file from
/// the back, whether the file was empty or full: each block gets the next
/// bytes of the stream, and what lies behind the block of the current turn
/// stays as it is.
proof fn lemma_reversed_write_pass(plan: Plan, disk: Disk, s: u64, turn: nat)
    requires
        plan.block_size > 0,
        plan.variant.granularity == Granularity::LargeFile,
        turn <= plan.count(),
        disk.open is Some,
        disk.files.dom().contains(disk.open->0),
        disk.files[disk.open->0].len() == plan.total_size || (turn == 0
            && disk.files[disk.open->0].len() == 0),
    ensures
        ({
            let path = disk.open->0;
            let end = replay(
                disk,
                pass_ops(plan, Pass::Write { mode: OpenMode::Create }, Order::Reversed, s, turn),
            );
            let left = left_to_write(plan, turn);
            &&& end.files[path].len() == plan.total_size
            &&& forall|i: int|
                0 <= i < left ==> #[trigger] end.files[path][i] == reversed_byte(
                    plan,
                    s,
                    left,
                    i as nat,
                )
            &&& forall|i: int|
                left <= i < plan.total_size ==> #[trigger] end.files[path][i] == disk.files[path][i]
        }),
    decreases plan.count() - turn,
{
    let pass = Pass::Write { mode: OpenMode::Create };
    let path = disk.open->0;
    let content = disk.files[path];
    let bs = plan.block_size as nat;
    let total = plan.total_size as nat;
    lemma_no_blocks_no_data(total, bs);
    if turn < plan.count() {
        let block = (plan.count() - 1 - turn) as nat;
        let start = plan.offset(block);
        let len = plan.len(block);
        let left = left_to_write(plan, turn);
        lemma_block_bounds(total, bs, block);
        let data = stream(s, len);
        let next = state_after(s, len);
        let seek = Op::Seek { offset: start };
        let write = Op::Write { data };
        let rest = pass_ops(plan, pass, Order::Reversed, next, turn + 1);
        assert(turn_ops(plan, pass, Order::Reversed, s, turn) == seq![seek, write]);
        assert(state_after_turn(plan, pass, Order::Reversed, s, turn) == next);
        lemma_replay_concat(disk, seq![seek, write], rest);
        lemma_replay_two(disk, seek, write);
        let after = apply(apply(disk, seek), write);
        let written = write_at(content, start, data);
        assert(after.files[path] == written);
        assert(written.len() == total);
        lemma_reversed_write_pass(plan, after, next, turn + 1);
        let end = replay(after, rest);
        let left_after = left_to_write(plan, turn + 1);
        assert(left_after == start) by {
            if block > 0 {
                lemma_block_bounds(total, bs, (block - 1) as nat);
            } else {
                assert(0 * bs == 0) by (nonlinear_arith);
            }
        }
        assert(left == start + len);
        assert forall|i: int| 0 <= i < left implies #[trigger] end.files[path][i] == reversed_byte(
            plan,
            s,
            left,
            i as nat,
        ) by {
            if i < start {
                lemma_byte_before_block(plan, block, i as nat);
                let b = (i as nat) / bs;
                let k = (start - block_end(plan, b)) + (i - plan.offset(b));
                lemma_state_after_add(s, len, (k + 1) as nat);
                assert(end.files[path][i] == reversed_byte(plan, next, start, i as nat));
            } else {
                assert(start + len <= start + bs);
                assert(block * bs + bs == start + bs);
                lemma_block_of_byte(bs, block, i as nat);
                assert(end.files[path][i] == written[i]);
                assert(written[i] == data[i - start]);
            }
        }
        assert forall|i: int| left <= i < total implies #[trigger] end.files[path][i]
            == content[i] by {
            assert(end.files[path][i] == written[i]);
        }
    }
}

/// One reversed write pass leaves the blocks filled from the back: the last
/// block holds the first bytes of the stream.
pub proof fn lemma_reversed_pass_content(plan: Plan, s: u64)
    requires
        plan.block_size > 0,
        plan.variant.granularity == Granularity::LargeFile,
    ensures
        pass_content(plan, Order::Reversed, s) == reversed_content(plan, s),
{
    let total = plan.total_size as nat;
    let bs = plan.block_size as nat;
    lemma_reversed_write_pass(plan, just_created(plan), s, 0);
    lemma_no_blocks_no_data(total, bs);
    if plan.count() > 0 {
        lemma_block_bounds(total, bs, (plan.count() - 1) as nat);
    }
    assert(left_to_write(plan, 0) == total);
    assert(pass_content(plan, Order::Reversed, s) =~= reversed_content(plan, s));
}

/// Where the data fits into one block, the reversed pass leaves what the
/// in-order pass leaves.
pub proof fn lemma_reversed_content_of_one_block(plan: Plan, s: u64)
    requires
        plan.block_size > 0,
        plan.total_size <= plan.block_size,
    ensures
        reversed_content(plan, s) == stream(s, plan.total_size as nat),
{
    let total = plan.total_size as nat;
    let bs = plan.block_size as nat;
    assert forall|i: int| 0 <= i < total implies #[trigger] reversed_content(plan, s)[i] == stream(
        s,
        total,
    )[i] by {
        assert(0 * bs == 0) by (nonlinear_arith);
        lemma_block_of_byte(bs, 0, i as nat);
    }
    assert(reversed_content(plan, s) =~= stream(s, total));
}

/// Written in reverse order, the large file holds the first `total_size`
/// bytes of the stream block by block from the back when the clock stops.
pub proof fn lemma_write_reversed_content(plan: Plan)
    requires
        plan.block_size > 0,
        plan.variant.granularity == Granularity::LargeFile,
        plan.variant.operation == Operation::Write,
        plan.variant.order == Order::Reversed,
    ensures
        content_at_stop(plan) == reversed_content(plan, SEED),
        content_at_stop(plan).len() == plan.total_size,
{
    lemma_write_content(plan);
    lemma_reversed_pass_content(plan, SEED);
}

/// Rewritten in reverse order, the large file holds the first `total_size`
/// bytes of the stream block by block from the back when the clock stops, as
/// it does after a single reversed write pass.
pub proof fn lemma_update_reversed_content(plan: Plan)
    requires
        plan.block_size > 0,
        plan.variant.granularity == Granularity::LargeFile,
        plan.variant.operation == Operation::Update,
        plan.variant.order == Order::Reversed,
    ensures
        content_at_stop(plan) == reversed_content(plan, SEED),
        content_at_stop(plan).len() == plan.total_size,
{
    let total = plan.total_size as nat;
    let bs = plan.block_size as nat;
    lemma_update_rewrites(plan);
    lemma_reversed_write_pass(plan, filled_and_open(plan), SEED, 0);
    lemma_no_blocks_no_data(total, bs);
    if plan.count() > 0 {
        lemma_block_bounds(total, bs, (plan.count() - 1) as nat);
    }
    assert(left_to_write(plan, 0) == total);
    assert(content_at_stop(plan) =~= reversed_content(plan, SEED));
}

/// When the clock of a large-file write or update benchmark stops, the
/// run's file is open, whatever was on the disk when the run began.
pub proof fn lemma_until_stop_leaves_open(plan: Plan, start: Disk)
    requires
        plan.block_size > 0,
        plan.variant.granularity == Granularity::LargeFile,
        plan.variant.operation != Operation::Read,
    ensures
        replay(start, script_until_stop(plan)).open == Some(target_path(plan)),
        replay(start, script_until_stop(plan)).files.dom().contains(target_path(plan)),
{
    let path = target_path(plan);
    let fill = Pass::Write { mode: OpenMode::Create };
    let tail = seq![Op::Flush, Op::StopClock];
    let open = Op::Open { path, mode: OpenMode::Create };
    if plan.variant.operation == Operation::Write {
        let head = seq![open, Op::StartClock];
        let pass = pass_ops(plan, fill, plan.variant.order, SEED, 0);
        lemma_write_until_stop(plan);
        lemma_replay_concat(start, head + pass, tail);
        lemma_replay_concat(start, head, pass);
        lemma_replay_two(start, open, Op::StartClock);
        let opened = replay(start, head);
        lemma_large_pass_frame(plan, fill, plan.variant.order, opened, SEED, 0);
        lemma_replay_two(replay(opened, pass), Op::Flush, Op::StopClock);
    } else {
        let filling = pass_ops(plan, fill, Order::InOrder, SEED, 0);
        let first = seq![open] + filling;
        let middle = seq![Op::Close, Op::Open { path, mode: OpenMode::WriteOnly }, Op::StartClock];
        let pass = pass_ops(plan, fill, plan.variant.order, SEED, 0);
        lemma_update_until_stop(plan);
        lemma_replay_concat(start, first + middle + pass, tail);
        lemma_replay_concat(start, first + middle, pass);
        lemma_replay_concat(start, first, middle);
        lemma_replay_concat(start, seq![open], filling);
        lemma_replay_one(start, open);
        lemma_large_pass_frame(plan, fill, Order::InOrder, apply(start, open), SEED, 0);
        let filled = replay(start, first);
        lemma_replay_concat(filled, seq![Op::Close], seq![middle[1], middle[2]]);
        assert(middle =~= seq![Op::Close] + seq![middle[1], middle[2]]);
        lemma_replay_one(filled, Op::Close);
        lemma_replay_two(apply(filled, Op::Close), middle[1], middle[2]);
        let reopened = replay(filled, middle);
        lemma_large_pass_frame(plan, fill, plan.variant.order, reopened, SEED, 0);
        lemma_replay_two(replay(reopened, pass), Op::Flush, Op::StopClock);
    }
}

/// What a pass over a large file leaves in the file depends on the sizes
/// alone, not on the name of the file nor on the benchmark the pass belongs
/// to.
proof fn lemma_large_pass_same_content(
    a: Plan,
    b: Plan,
    pass: Pass,
    order: Order,
    disk_a: Disk,
    disk_b: Disk,
    s: u64,
    turn: nat,
)
    requires
        a.variant.granularity == Granularity::LargeFile,
        b.variant.granularity == Granularity::LargeFile,
        a.total_size == b.total_size,
        a.block_size == b.block_size,
        disk_a.open is Some,
        disk_b.open is Some,
        disk_a.files.dom().contains(disk_a.open->0),
        disk_b.files.dom().contains(disk_b.open->0),
        disk_a.files[disk_a.open->0] == disk_b.files[disk_b.open->0],
        disk_a.position == disk_b.position,
    ensures
        replay(disk_a, pass_ops(a, pass, order, s, turn)).files[disk_a.open->0] == replay(
            disk_b,
            pass_ops(b, pass, order, s, turn),
        ).files[disk_b.open->0],
    decreases a.count() - turn,
{
    if turn < a.count() {
        let ops = turn_ops(a, pass, order, s, turn);
        assert(ops == turn_ops(b, pass, order, s, turn));
        let next = state_after_turn(a, pass, order, s, turn);
        assert(next == state_after_turn(b, pass, order, s, turn));
        lemma_replay_concat(disk_a, ops, pass_ops(a, pass, order, next, turn + 1));
        lemma_replay_concat(disk_b, ops, pass_ops(b, pass, order, next, turn + 1));
        if order == Order::InOrder {
            assert(ops =~= seq![ops[0]]);
            lemma_replay_one(disk_a, ops[0]);
            lemma_replay_one(disk_b, ops[0]);
        } else {
            assert(ops =~= seq![ops[0], ops[1]]);
            lemma_replay_two(disk_a, ops[0], ops[1]);
            lemma_replay_two(disk_b, ops[0], ops[1]);
        }
        lemma_large_pass_same_content(
            a,
            b,
            pass,
            order,
            replay(disk_a, ops),
            replay(disk_b, ops),
            next,
            turn + 1,
        );
    }
}

/// An update benchmark in order or in reverse order leaves in the file
/// what the write benchmark of the same order and sizes leaves.
pub proof fn lemma_update_matches_write(update: Plan, write: Plan)
    requires
        update.block_size > 0,
        update.variant.granularity == Granularity::LargeFile,
        write.variant.granularity == Granularity::LargeFile,
        update.variant.operation == Operation::Update,
        write.variant.operation == Operation::Write,
        update.variant.order == write.variant.order,
        update.variant.order != Order::Random,
        update.total_size == write.total_size,
        update.block_size == write.block_size,
    ensures
        content_at_stop(update) == content_at_stop(write),
{
    if update.variant.order == Order::InOrder {
        lemma_update_inorder_content(update);
        lemma_write_inorder_content(write);
    } else {
        lemma_update_reversed_content(update);
        lemma_write_reversed_content(write);
        assert(reversed_content(update, SEED) =~= reversed_content(write, SEED));
    }
}

/// The bytes of the block `block` in `content`.
pub open spec fn block_of(plan: Plan, content: Seq<u8>, block: nat) -> Seq<u8> {
    content.subrange(plan.offset(block) as int, block_end(plan, block) as int)
}

/// In `updated` the block `block` is as it is in `filled`, or `written`
/// reaches as far as the block and `updated` has the block as `written` has
/// it.
pub open spec fn kept_or_rewritten(
    plan: Plan,
    updated: Seq<u8>,
    filled: Seq<u8>,
    written: Seq<u8>,
    block: nat,
) -> bool {
    ||| block_of(plan, updated, block) == block_of(plan, filled, block)
    ||| (written.len() >= block_end(plan, block) && block_of(plan, updated, block) == block_of(
        plan,
        written,
        block,
    ))
}

/// Of two different blocks one ends before the other begins.
proof fn lemma_blocks_apart(plan: Plan, a: nat, b: nat)
    requires
        plan.block_size > 0,
        a < plan.count(),
        b < plan.count(),
        a != b,
    ensures
        block_end(plan, a) <= plan.offset(b) || block_end(plan, b) <= plan.offset(a),
{
    let total = plan.total_size as nat;
    let bs = plan.block_size as nat;
    lemma_block_bounds(total, bs, a);
    lemma_block_bounds(total, bs, b);
    if a < b {
        assert((a + 1) * bs <= b * bs) by (nonlinear_arith)
            requires
                a + 1 <= b,
        ;
        assert((a + 1) * bs == a * bs + bs) by (nonlinear_arith);
    } else {
        assert((b + 1) * bs <= a * bs) by (nonlinear_arith)
            requires
                b + 1 <= a,
        ;
        assert((b + 1) * bs == b * bs + bs) by (nonlinear_arith);
    }
}

/// A write pass that seeks, run over a full file and over another file,
/// keeps the full file full, and leaves every block of it either as it was
/// filled or as the pass leaves it in the other file.
proof fn lemma_rewrite_pass(
    plan: Plan,
    order: Order,
    full: Disk,
    other: Disk,
    filled: Seq<u8>,
    s: u64,
    turn: nat,
)
    requires
        plan.block_size > 0,
        plan.variant.granularity == Granularity::LargeFile,
        order != Order::InOrder,
        full.open is Some,
        other.open is Some,
        full.files.dom().contains(full.open->0),
        other.files.dom().contains(other.open->0),
        full.files[full.open->0].len() == plan.total_size,
        other.files[other.open->0].len() <= plan.total_size,
        forall|block: nat|
            block < plan.count() ==> #[trigger] kept_or_rewritten(
                plan,
                full.files[full.open->0],
                filled,
                other.files[other.open->0],
                block,
            ),
    ensures
        ({
            let ops = pass_ops(plan, Pass::Write { mode: OpenMode::Create }, order, s, turn);
            let updated = replay(full, ops).files[full.open->0];
            let written = replay(other, ops).files[other.open->0];
            &&& updated.len() == plan.total_size
            &&& written.len() <= plan.total_size
            &&& forall|block: nat|
                block < plan.count() ==> #[trigger] kept_or_rewritten(
                    plan,
                    updated,
                    filled,
                    written,
                    block,
                )
        }),
    decreases plan.count() - turn,
{
    let pass = Pass::Write { mode: OpenMode::Create };
    let total = plan.total_size as nat;
    let bs = plan.block_size as nat;
    if turn < plan.count() {
        let chosen = block_of_turn(plan, order, s, turn);
        lemma_chosen_block_in_range(order, plan.count(), turn, xorshift_step(s));
        lemma_block_bounds(total, bs, chosen);
        let start = plan.offset(chosen);
        let data = data_of_turn(plan, order, s, turn);
        let seek = Op::Seek { offset: start };
        let write = Op::Write { data };
        let next = state_after_turn(plan, pass, order, s, turn);
        let rest = pass_ops(plan, pass, order, next, turn + 1);
        assert(turn_ops(plan, pass, order, s, turn) == seq![seek, write]);
        lemma_replay_concat(full, seq![seek, write], rest);
        lemma_replay_concat(other, seq![seek, write], rest);
        lemma_replay_two(full, seek, write);
        lemma_replay_two(other, seek, write);
        let full_before = full.files[full.open->0];
        let other_before = other.files[other.open->0];
        let full_after = apply(apply(full, seek), write);
        let other_after = apply(apply(other, seek), write);
        let full_now = write_at(full_before, start, data);
        let other_now = write_at(other_before, start, data);
        assert(full_after.files[full.open->0] == full_now);
        assert(other_after.files[other.open->0] == other_now);
        assert forall|block: nat| block < plan.count() implies #[trigger] kept_or_rewritten(
            plan,
            full_now,
            filled,
            other_now,
            block,
        ) by {
            lemma_block_bounds(total, bs, block);
            if block == chosen {
                assert(block_of(plan, full_now, block) =~= data);
                assert(block_of(plan, other_now, block) =~= data);
            } else {
                lemma_blocks_apart(plan, block, chosen);
                assert(block_of(plan, full_now, block) =~= block_of(plan, full_before, block));
                assert(kept_or_rewritten(plan, full_before, filled, other_before, block));
                if other_before.len() >= block_end(plan, block) {
                    assert(block_of(plan, other_now, block) =~= block_of(
                        plan,
                        other_before,
                        block,
                    ));
                }
            }
        }
        lemma_rewrite_pass(plan, order, full_after, other_after, filled, next, turn + 1);
    }
}

/// Rewritten in random order, the large file keeps its length, and every
/// block of it holds either the bytes that the fill pass put there or the
/// bytes that the write benchmark in random order leaves there.
pub proof fn lemma_update_random_content(update: Plan, write: Plan)
    requires
        update.block_size > 0,
        update.variant.granularity == Granularity::LargeFile,
        write.variant.granularity == Granularity::LargeFile,
        update.variant.operation == Operation::Update,
        write.variant.operation == Operation::Write,
        update.variant.order == Order::Random,
        write.variant.order == Order::Random,
        update.total_size == write.total_size,
        update.block_size == write.block_size,
    ensures
        content_at_stop(update).len() == update.total_size,
        forall|block: nat|
            block < update.count() ==> #[trigger] kept_or_rewritten(
                update,
                content_at_stop(update),
                stream(SEED, update.total_size as nat),
                content_at_stop(write),
                block,
            ),
{
    let pass = Pass::Write { mode: OpenMode::Create };
    let filled = stream(SEED, update.total_size as nat);
    lemma_update_rewrites(update);
    lemma_write_content(write);
    lemma_large_pass_same_content(
        update,
        write,
        pass,
        Order::Random,
        just_created(update),
        just_created(write),
        SEED,
        0,
    );
    lemma_rewrite_pass(
        update,
        Order::Random,
        filled_and_open(update),
        just_created(update),
        filled,
        SEED,
        0,
    );
}

/// A write benchmark leaves the first `total_size` bytes of the stream in
/// the file if it writes in order, or in reverse order where the data is a
/// single block.
pub proof fn lemma_written_content_is_stream(plan: Plan)
    requires
        plan.block_size > 0,
        plan.variant.granularity == Granularity::LargeFile,
        plan.variant.operation == Operation::Write,
        plan.variant.order == Order::InOrder || (plan.variant.order == Order::Reversed
            && plan.total_size <= plan.block_size),
    ensures
        content_at_stop(plan) == stream(SEED, plan.total_size as nat),
{
    if plan.variant.order == Order::InOrder {
        lemma_write_inorder_content(plan);
    } else {
        lemma_write_reversed_content(plan);
        lemma_reversed_content_of_one_block(plan, SEED);
    }
}

} // verus!
