//! What a benchmark does, as a sequence of file operations.
//!
//! A benchmark is a short program of segments. A segment is either a single
//! operation (open the file, start the clock, ...) or a pass over the blocks
//! in some order. The script of a benchmark is the sequence of operations
//! that its program gives when the generator starts from the fixed seed.

use vstd::prelude::*;
use vstd::string::StringExecFns;
use crate::geometry::{block_count, block_len, block_offset, chosen_block, Order};
use crate::prng::{SEED, state_after, stream, xorshift_step};
use crate::registry::{Granularity, mode_name, Operation, order_word, Variant};
use crate::text::{decimal, hex_padded, push_decimal, push_hex_padded};

verus! {

/// How a file is opened.
#[derive(Clone, Copy, Debug, PartialEq, Eq, Structural)]
pub enum OpenMode {
    /// Write-only; the file is created if missing and emptied if not.
    Create,
    /// As `Create`, but opened for reading too, so that the file can be read
    /// later on storage that fixes access rights at creation.
    CreateReadable,
    /// Write-only, on an existing file whose content is kept.
    WriteOnly,
    /// Read-only, on an existing file.
    ReadOnly,
}

/// One operation of a script. At most one file is open at a time; `Seek`,
/// `Write`, `Read`, `Flush`, `Truncate` and `Close` act on it.
pub enum Op {
    /// Create the directory `path`, unless it is there already: a run with
    /// the parameters of an earlier run uses the directory again.
    MakeDir { path: Seq<char> },
    /// Open the file `path`.
    Open { path: Seq<char>, mode: OpenMode },
    /// Move to `offset` bytes from the start.
    Seek { offset: nat },
    /// Write all of `data` at the current position.
    Write { data: Seq<u8> },
    /// Read exactly `len` bytes from the current position.
    Read { len: nat },
    /// Flush what has been written.
    Flush,
    /// Set the length of the file to zero.
    Truncate,
    /// Close the file.
    Close,
    /// The measured interval begins.
    StartClock,
    /// The measured interval ends.
    StopClock,
}

/// The parameters of one benchmark run.
#[derive(Clone, Copy, Debug, PartialEq, Eq, Structural)]
pub struct Plan {
    pub variant: Variant,
    pub total_size: u64,
    pub block_size: usize,
    pub run: u32,
}

impl Plan {
    /// The number of blocks of the run.
    pub open spec fn count(self) -> nat {
        block_count(self.total_size as nat, self.block_size as nat)
    }

    /// The offset of block `index`.
    pub open spec fn offset(self, index: nat) -> nat {
        block_offset(self.block_size as nat, index)
    }

    /// The length of block `index`.
    pub open spec fn len(self, index: nat) -> nat {
        block_len(self.total_size as nat, self.block_size as nat, self.offset(index))
    }
}

/// `_<size>_<block size>_<run>`, the part of a path that tells runs apart.
pub open spec fn parameter_suffix(plan: Plan) -> Seq<char> {
    "_"@ + decimal(plan.total_size as nat) + "_"@ + decimal(plan.block_size as nat) + "_"@
        + decimal(plan.run as nat)
}

/// The path a run works on: a file named after the mode for the large-file
/// variants, and for the small-file variants a directory that all operations
/// of one access order share.
pub open spec fn target_path(plan: Plan) -> Seq<char> {
    match plan.variant.granularity {
        Granularity::LargeFile => "/scratch/"@ + mode_name(plan.variant) + parameter_suffix(plan)
            + ".txt"@,
        Granularity::SmallFiles => "/scratch/small_write_"@ + order_word(plan.variant.order)
            + parameter_suffix(plan),
    }
}

/// The file that holds block `index` of a small-file run: the index as nine
/// hexadecimal digits, inside the run's directory.
pub open spec fn block_path(plan: Plan, index: nat) -> Seq<char> {
    target_path(plan) + "/"@ + hex_padded(index, 9) + ".txt"@
}

/// Different blocks have different files.
pub proof fn lemma_block_path_injective(plan: Plan, a: nat, b: nat)
    requires
        block_path(plan, a) == block_path(plan, b),
    ensures
        a == b,
{
    let front = target_path(plan) + "/"@;
    let name_a = hex_padded(a, 9);
    let name_b = hex_padded(b, 9);
    let path_a = block_path(plan, a);
    let path_b = block_path(plan, b);
    assert(path_a.len() == front.len() + name_a.len() + ".txt"@.len());
    assert(path_b.len() == front.len() + name_b.len() + ".txt"@.len());
    assert forall|i: int| 0 <= i < name_a.len() implies name_a[i] == name_b[i] by {
        assert(path_a[front.len() + i] == name_a[i]);
        assert(path_b[front.len() + i] == name_b[i]);
    }
    assert(name_a =~= name_b);
    crate::text::lemma_hex_padded_injective(a, b, 9);
}

/// What a pass does to each block.
#[derive(Clone, Copy, Debug, PartialEq, Eq, Structural)]
pub enum Pass {
    /// Fill the buffer from the generator and write it. Small files are
    /// opened in `mode`.
    Write { mode: OpenMode },
    /// Read the block.
    Read,
    /// Empty the block's file. Used on small files only.
    Truncate,
}

/// One segment of a benchmark's program.
#[derive(Clone, Copy, Debug, PartialEq, Eq, Structural)]
pub enum Segment {
    MakeDir,
    Open { mode: OpenMode },
    StartClock,
    StopClock,
    Flush,
    Truncate,
    Close,
    /// Start the generator again from the seed. Nothing is done to any file.
    Reseed,
    /// A pass over all blocks.
    Blocks { pass: Pass, order: Order },
}

/// What a variant does before the clock starts. `Write` only opens the
/// file or makes the directory; `Update` and `Read` then fill the data in
/// with an in-order write pass, so that the measured pass finds it there.
/// `Update` keeps what was filled in when it opens the file again, and
/// starts the generator again from the seed: its measured pass writes what a
/// write pass writes.
#[verifier::opaque]
pub open spec fn fixture_program_of(variant: Variant) -> Seq<Segment> {
    let fill = Segment::Blocks { pass: Pass::Write { mode: OpenMode::Create }, order: Order::InOrder };
    let fill_small = Segment::Blocks {
        pass: Pass::Write { mode: OpenMode::CreateReadable },
        order: Order::InOrder,
    };
    match (variant.granularity, variant.operation) {
        (Granularity::LargeFile, Operation::Write) => seq![Segment::Open { mode: OpenMode::Create }],
        (Granularity::LargeFile, Operation::Update) => seq![
            Segment::Open { mode: OpenMode::Create },
            fill,
            Segment::Close,
            Segment::Open { mode: OpenMode::WriteOnly },
            Segment::Reseed,
        ],
        (Granularity::LargeFile, Operation::Read) => seq![
            Segment::Open { mode: OpenMode::Create },
            fill,
            Segment::Close,
            Segment::Open { mode: OpenMode::ReadOnly },
        ],
        (Granularity::SmallFiles, Operation::Write) => seq![Segment::MakeDir],
        (Granularity::SmallFiles, Operation::Update) => seq![
            Segment::MakeDir,
            fill_small,
            Segment::Reseed,
        ],
        (Granularity::SmallFiles, Operation::Read) => seq![Segment::MakeDir, fill_small],
    }
}

/// What a variant does while the clock runs: one pass in the variant's
/// order, and for a large file that was written a flush, so that the
/// measured time includes persisting the data.
#[verifier::opaque]
pub open spec fn timed_program_of(variant: Variant) -> Seq<Segment> {
    let order = variant.order;
    match (variant.granularity, variant.operation) {
        (Granularity::LargeFile, Operation::Read) => seq![
            Segment::Blocks { pass: Pass::Read, order },
        ],
        (Granularity::LargeFile, _) => seq![
            Segment::Blocks { pass: Pass::Write { mode: OpenMode::Create }, order },
            Segment::Flush,
        ],
        (Granularity::SmallFiles, Operation::Write) => seq![
            Segment::Blocks { pass: Pass::Write { mode: OpenMode::Create }, order },
        ],
        (Granularity::SmallFiles, Operation::Update) => seq![
            Segment::Blocks { pass: Pass::Write { mode: OpenMode::WriteOnly }, order },
        ],
        (Granularity::SmallFiles, Operation::Read) => seq![
            Segment::Blocks { pass: Pass::Read, order },
        ],
    }
}

/// The program of a variant up to the moment the clock stops: the fixture,
/// and then the timed part between the two clock operations.
pub open spec fn measured_program_of(variant: Variant) -> Seq<Segment> {
    fixture_program_of(variant) + seq![Segment::StartClock] + timed_program_of(variant)
        + seq![Segment::StopClock]
}

/// The cleanup that follows: every file that was touched is emptied, so
/// that no large artifact stays behind.
#[verifier::opaque]
pub open spec fn cleanup_program_of(variant: Variant) -> Seq<Segment> {
    match (variant.granularity, variant.operation) {
        (Granularity::LargeFile, Operation::Read) => seq![
            Segment::Close,
            Segment::Open { mode: OpenMode::Create },
            Segment::Truncate,
            Segment::Close,
        ],
        (Granularity::LargeFile, _) => seq![Segment::Truncate, Segment::Close],
        (Granularity::SmallFiles, _) => seq![
            Segment::Blocks { pass: Pass::Truncate, order: Order::InOrder },
        ],
    }
}

/// The whole program of a variant.
pub open spec fn program_of(variant: Variant) -> Seq<Segment> {
    measured_program_of(variant) + cleanup_program_of(variant)
}

/// The operation that a segment stands for, if it is neither a pass nor a
/// new start of the generator.
pub open spec fn single_op(plan: Plan, segment: Segment) -> Op {
    match segment {
        Segment::MakeDir => Op::MakeDir { path: target_path(plan) },
        Segment::Open { mode } => Op::Open { path: target_path(plan), mode },
        Segment::StartClock => Op::StartClock,
        Segment::StopClock => Op::StopClock,
        Segment::Flush => Op::Flush,
        Segment::Truncate => Op::Truncate,
        _ => Op::Close,
    }
}

/// The operations on one block. In the large file an in-order pass relies on
/// the position that the last operation left; the other orders seek first.
/// A small file is opened, used and closed.
pub open spec fn block_ops(plan: Plan, pass: Pass, order: Order, index: nat, data: Seq<u8>) -> Seq<
    Op,
> {
    match plan.variant.granularity {
        Granularity::LargeFile => {
            let act = match pass {
                Pass::Write { .. } => Op::Write { data },
                Pass::Read => Op::Read { len: plan.len(index) },
                Pass::Truncate => Op::Truncate,
            };
            if order == Order::InOrder {
                seq![act]
            } else {
                seq![Op::Seek { offset: plan.offset(index) }, act]
            }
        },
        Granularity::SmallFiles => match pass {
            Pass::Write { mode } => seq![
                Op::Open { path: block_path(plan, index), mode },
                Op::Write { data },
                Op::Flush,
                Op::Close,
            ],
            Pass::Read => seq![
                Op::Open { path: block_path(plan, index), mode: OpenMode::ReadOnly },
                Op::Read { len: plan.len(index) },
                Op::Close,
            ],
            Pass::Truncate => seq![
                Op::Open { path: block_path(plan, index), mode: OpenMode::Create },
                Op::Truncate,
                Op::Close,
            ],
        },
    }
}

/// The generator state once the block of a turn has been chosen: the random
/// order spends one word on the choice.
pub open spec fn state_after_choice(order: Order, s: u64) -> u64 {
    if order == Order::Random {
        xorshift_step(s)
    } else {
        s
    }
}

/// The block visited at turn `turn` when the generator is in state `s`.
pub open spec fn block_of_turn(plan: Plan, order: Order, s: u64, turn: nat) -> nat {
    chosen_block(order, plan.count(), turn, xorshift_step(s))
}

/// The bytes that a write pass puts into the block of turn `turn`: drawn
/// right after the block was chosen, one word per byte.
pub open spec fn data_of_turn(plan: Plan, order: Order, s: u64, turn: nat) -> Seq<u8> {
    stream(state_after_choice(order, s), plan.len(block_of_turn(plan, order, s, turn)))
}

/// The operations of one turn of a pass.
pub open spec fn turn_ops(plan: Plan, pass: Pass, order: Order, s: u64, turn: nat) -> Seq<Op> {
    block_ops(plan, pass, order, block_of_turn(plan, order, s, turn), data_of_turn(plan, order, s, turn))
}

/// The generator state after one turn of a pass.
pub open spec fn state_after_turn(plan: Plan, pass: Pass, order: Order, s: u64, turn: nat) -> u64 {
    let chosen = state_after_choice(order, s);
    match pass {
        Pass::Write { .. } => state_after(chosen, plan.len(block_of_turn(plan, order, s, turn))),
        _ => chosen,
    }
}

/// The operations of a pass from turn `turn` on, with the generator in state
/// `s`.
pub open spec fn pass_ops(plan: Plan, pass: Pass, order: Order, s: u64, turn: nat) -> Seq<Op>
    decreases plan.count() - turn,
{
    if turn >= plan.count() {
        Seq::empty()
    } else {
        turn_ops(plan, pass, order, s, turn) + pass_ops(
            plan,
            pass,
            order,
            state_after_turn(plan, pass, order, s, turn),
            turn + 1,
        )
    }
}

/// The generator state when a pass that is at turn `turn` in state `s` has
/// ended.
pub open spec fn state_after_pass(plan: Plan, pass: Pass, order: Order, s: u64, turn: nat) -> u64
    decreases plan.count() - turn,
{
    if turn >= plan.count() {
        s
    } else {
        state_after_pass(plan, pass, order, state_after_turn(plan, pass, order, s, turn), turn + 1)
    }
}

/// The operations of `program` from segment `segment` on, where that
/// segment, if it is a pass, is at turn `turn`, and the generator is in
/// state `s`.
pub open spec fn run_from(plan: Plan, program: Seq<Segment>, segment: nat, turn: nat, s: u64) -> Seq<
    Op,
>
    decreases program.len() - segment,
{
    if segment >= program.len() {
        Seq::empty()
    } else {
        match program[segment as int] {
            Segment::Blocks { pass, order } => pass_ops(plan, pass, order, s, turn) + run_from(
                plan,
                program,
                segment + 1,
                0,
                state_after_pass(plan, pass, order, s, turn),
            ),
            Segment::Reseed => run_from(plan, program, segment + 1, 0, SEED),
            single => seq![single_op(plan, single)] + run_from(plan, program, segment + 1, 0, s),
        }
    }
}

/// A pass that has run out of blocks hands over to the next segment.
pub proof fn lemma_run_from_pass_end(plan: Plan, program: Seq<Segment>, segment: nat, turn: nat, s: u64)
    requires
        segment < program.len(),
        program[segment as int] is Blocks,
        turn >= plan.count(),
    ensures
        run_from(plan, program, segment, turn, s) == run_from(plan, program, segment + 1, 0, s),
{
    assert(run_from(plan, program, segment, turn, s) =~= run_from(plan, program, segment + 1, 0, s));
}

/// A pass that has blocks left does one turn and goes on from the next.
pub proof fn lemma_run_from_turn(plan: Plan, program: Seq<Segment>, segment: nat, turn: nat, s: u64)
    requires
        segment < program.len(),
        program[segment as int] is Blocks,
        turn < plan.count(),
    ensures
        ({
            let pass = program[segment as int]->pass;
            let order = program[segment as int]->order;
            run_from(plan, program, segment, turn, s) == turn_ops(plan, pass, order, s, turn)
                + run_from(
                plan,
                program,
                segment,
                turn + 1,
                state_after_turn(plan, pass, order, s, turn),
            )
        }),
{
    let pass = program[segment as int]->pass;
    let order = program[segment as int]->order;
    let next = state_after_turn(plan, pass, order, s, turn);
    assert(state_after_pass(plan, pass, order, s, turn) == state_after_pass(
        plan,
        pass,
        order,
        next,
        turn + 1,
    ));
    assert(run_from(plan, program, segment, turn, s) =~= turn_ops(plan, pass, order, s, turn)
        + run_from(plan, program, segment, turn + 1, next));
}

/// The generator state when `program` has ended, counted as in `run_from`.
pub open spec fn state_at_end(plan: Plan, program: Seq<Segment>, segment: nat, turn: nat, s: u64) -> u64
    decreases program.len() - segment,
{
    if segment >= program.len() {
        s
    } else {
        match program[segment as int] {
            Segment::Blocks { pass, order } => state_at_end(
                plan,
                program,
                segment + 1,
                0,
                state_after_pass(plan, pass, order, s, turn),
            ),
            Segment::Reseed => state_at_end(plan, program, segment + 1, 0, SEED),
            _ => state_at_end(plan, program, segment + 1, 0, s),
        }
    }
}

/// Everything a benchmark does, in order.
pub open spec fn script(plan: Plan) -> Seq<Op> {
    run_from(plan, program_of(plan.variant), 0, 0, SEED)
}

/// What a benchmark does up to the moment the clock stops.
pub open spec fn script_until_stop(plan: Plan) -> Seq<Op> {
    run_from(plan, measured_program_of(plan.variant), 0, 0, SEED)
}

/// What a benchmark does after the clock has stopped.
pub open spec fn cleanup_script(plan: Plan) -> Seq<Op> {
    run_from(
        plan,
        cleanup_program_of(plan.variant),
        0,
        0,
        state_at_end(plan, measured_program_of(plan.variant), 0, 0, SEED),
    )
}

/// Segments put in front of a program do not change what the program does
/// from one of its own segments on.
proof fn lemma_run_from_shift(
    plan: Plan,
    first: Seq<Segment>,
    second: Seq<Segment>,
    segment: nat,
    turn: nat,
    s: u64,
)
    ensures
        run_from(plan, first + second, first.len() + segment, turn, s) == run_from(
            plan,
            second,
            segment,
            turn,
            s,
        ),
    decreases second.len() - segment,
{
    let whole = first + second;
    if segment < second.len() {
        assert(whole[(first.len() + segment) as int] == second[segment as int]);
        match second[segment as int] {
            Segment::Blocks { pass, order } => {
                lemma_run_from_shift(
                    plan,
                    first,
                    second,
                    segment + 1,
                    0,
                    state_after_pass(plan, pass, order, s, turn),
                );
            },
            Segment::Reseed => {
                lemma_run_from_shift(plan, first, second, segment + 1, 0, SEED);
            },
            _ => {
                lemma_run_from_shift(plan, first, second, segment + 1, 0, s);
            },
        }
    }
}

/// A program made of two parts does what the first part does and then what
/// the second does, from the generator state the first part ended in.
pub proof fn lemma_run_from_concat(
    plan: Plan,
    first: Seq<Segment>,
    second: Seq<Segment>,
    segment: nat,
    turn: nat,
    s: u64,
)
    requires
        segment < first.len() || (segment == first.len() && turn == 0),
    ensures
        run_from(plan, first + second, segment, turn, s) == run_from(plan, first, segment, turn, s)
            + run_from(plan, second, 0, 0, state_at_end(plan, first, segment, turn, s)),
    decreases first.len() - segment,
{
    let whole = first + second;
    let tail = run_from(plan, second, 0, 0, state_at_end(plan, first, segment, turn, s));
    if segment == first.len() {
        lemma_run_from_shift(plan, first, second, 0, 0, s);
        assert(run_from(plan, whole, segment, turn, s) =~= run_from(plan, first, segment, turn, s)
            + tail);
    } else {
        assert(whole[segment as int] == first[segment as int]);
        match first[segment as int] {
            Segment::Blocks { pass, order } => {
                let next = state_after_pass(plan, pass, order, s, turn);
                lemma_run_from_concat(plan, first, second, segment + 1, 0, next);
            },
            Segment::Reseed => {
                lemma_run_from_concat(plan, first, second, segment + 1, 0, SEED);
            },
            _ => {
                lemma_run_from_concat(plan, first, second, segment + 1, 0, s);
            },
        }
        assert(run_from(plan, whole, segment, turn, s) =~= run_from(plan, first, segment, turn, s)
            + tail);
    }
}

/// The script is what happens until the clock stops, and then the cleanup.
pub proof fn lemma_script_parts(plan: Plan)
    ensures
        script(plan) == script_until_stop(plan) + cleanup_script(plan),
{
    lemma_run_from_concat(
        plan,
        measured_program_of(plan.variant),
        cleanup_program_of(plan.variant),
        0,
        0,
        SEED,
    );
}

/// The program of a variant.
pub fn program(variant: Variant) -> (segments: Vec<Segment>)
    ensures
        segments@ == program_of(variant),
{
    let order = variant.order;
    let mut segments: Vec<Segment> = Vec::new();
    match variant.granularity {
        Granularity::LargeFile => {
            segments.push(Segment::Open { mode: OpenMode::Create });
            match variant.operation {
                Operation::Write => {},
                Operation::Update => {
                    segments.push(
                        Segment::Blocks {
                            pass: Pass::Write { mode: OpenMode::Create },
                            order: Order::InOrder,
                        },
                    );
                    segments.push(Segment::Close);
                    segments.push(Segment::Open { mode: OpenMode::WriteOnly });
                    segments.push(Segment::Reseed);
                },
                Operation::Read => {
                    segments.push(
                        Segment::Blocks {
                            pass: Pass::Write { mode: OpenMode::Create },
                            order: Order::InOrder,
                        },
                    );
                    segments.push(Segment::Close);
                    segments.push(Segment::Open { mode: OpenMode::ReadOnly });
                },
            }
            segments.push(Segment::StartClock);
            match variant.operation {
                Operation::Read => {
                    segments.push(Segment::Blocks { pass: Pass::Read, order });
                    segments.push(Segment::StopClock);
                    segments.push(Segment::Close);
                    segments.push(Segment::Open { mode: OpenMode::Create });
                },
                _ => {
                    segments.push(
                        Segment::Blocks { pass: Pass::Write { mode: OpenMode::Create }, order },
                    );
                    segments.push(Segment::Flush);
                    segments.push(Segment::StopClock);
                },
            }
            segments.push(Segment::Truncate);
            segments.push(Segment::Close);
        },
        Granularity::SmallFiles => {
            segments.push(Segment::MakeDir);
            match variant.operation {
                Operation::Write => {},
                _ => {
                    segments.push(
                        Segment::Blocks {
                            pass: Pass::Write { mode: OpenMode::CreateReadable },
                            order: Order::InOrder,
                        },
                    );
                },
            }
            if let Operation::Update = variant.operation {
                segments.push(Segment::Reseed);
            }
            segments.push(Segment::StartClock);
            let measured = match variant.operation {
                Operation::Write => Pass::Write { mode: OpenMode::Create },
                Operation::Update => Pass::Write { mode: OpenMode::WriteOnly },
                Operation::Read => Pass::Read,
            };
            segments.push(Segment::Blocks { pass: measured, order });
            segments.push(Segment::StopClock);
            segments.push(Segment::Blocks { pass: Pass::Truncate, order: Order::InOrder });
        },
    }
    proof {
        reveal(fixture_program_of);
        reveal(timed_program_of);
        reveal(cleanup_program_of);
        assert(segments@ =~= program_of(variant));
    }
    segments
}

/// Appends `_<size>_<block size>_<run>` to `out`.
pub fn push_parameter_suffix(out: &mut String, plan: &Plan)
    ensures
        final(out)@ == old(out)@ + parameter_suffix(*plan),
{
    out.append("_");
    push_decimal(out, plan.total_size);
    out.append("_");
    push_decimal(out, plan.block_size as u64);
    out.append("_");
    push_decimal(out, plan.run as u64);
    assert(out@ =~= old(out)@ + parameter_suffix(*plan));
}

/// The path a run works on.
pub fn path_of(plan: &Plan) -> (path: String)
    ensures
        path@ == target_path(*plan),
{
    match plan.variant.granularity {
        Granularity::LargeFile => {
            let mut path = String::from_str("/scratch/");
            let name = plan.variant.name();
            path.append(name.as_str());
            push_parameter_suffix(&mut path, plan);
            path.append(".txt");
            assert(path@ =~= target_path(*plan));
            path
        },
        Granularity::SmallFiles => {
            let mut path = String::from_str("/scratch/small_write_");
            match plan.variant.order {
                Order::InOrder => path.append("inorder"),
                Order::Reversed => path.append("reversed"),
                Order::Random => path.append("random"),
            }
            push_parameter_suffix(&mut path, plan);
            path
        },
    }
}

/// The file of block `index` inside the directory `dir`.
pub fn block_file(dir: &String, index: u64) -> (path: String)
    ensures
        path@ == dir@ + "/"@ + hex_padded(index as nat, 9) + ".txt"@,
{
    let mut path = dir.clone();
    path.append("/");
    push_hex_padded(&mut path, index, 9);
    path.append(".txt");
    path
}

} // verus!
