//! The engine that hands out the operations of a benchmark one at a time.
//!
//! The caller performs each operation on the real filesystem (or starts and
//! stops its clock) and asks for the next. The engine owns the generator and
//! the content buffer: a `Write` step means "write the first `len` bytes of
//! the buffer".

use vstd::prelude::*;
use crate::geometry::{
    choose_block, clamped_len, count_blocks, lemma_block_bounds, offset_of_block, Order,
};
use crate::prng::{SEED, xorshift64, Xorshift64};
use crate::registry::{Granularity, Variant};
use crate::script::{
    block_file, block_ops, lemma_run_from_pass_end, lemma_run_from_turn, Op, OpenMode, Pass,
    path_of, Plan, program, program_of, run_from, script, Segment, single_op, state_after_turn,
    target_path, turn_ops,
};

verus! {

/// One operation for the caller to perform.
#[derive(Clone, Debug, PartialEq, Eq)]
pub enum Step {
    /// Create the directory `path`, unless it is there already.
    MakeDir { path: String },
    /// Open the file `path`; it stays open until `Close`.
    Open { path: String, mode: OpenMode },
    /// Move to `offset` bytes from the start of the open file.
    Seek { offset: u64 },
    /// Write the first `len` bytes of the engine's buffer to the open file.
    Write { len: usize },
    /// Read exactly `len` bytes from the open file.
    Read { len: usize },
    /// Flush the open file.
    Flush,
    /// Set the length of the open file to zero.
    Truncate,
    /// Close the open file.
    Close,
    /// Start the clock.
    StartClock,
    /// Stop the clock.
    StopClock,
}

impl Step {
    /// The operation that this step stands for when the engine's buffer
    /// holds `buffer`.
    pub open spec fn op(self, buffer: Seq<u8>) -> Op {
        match self {
            Step::MakeDir { path } => Op::MakeDir { path: path@ },
            Step::Open { path, mode } => Op::Open { path: path@, mode },
            Step::Seek { offset } => Op::Seek { offset: offset as nat },
            Step::Write { len } => Op::Write { data: buffer.subrange(0, len as int) },
            Step::Read { len } => Op::Read { len: len as nat },
            Step::Flush => Op::Flush,
            Step::Truncate => Op::Truncate,
            Step::Close => Op::Close,
            Step::StartClock => Op::StartClock,
            Step::StopClock => Op::StopClock,
        }
    }
}

/// A benchmark in progress.
pub struct Benchmark {
    plan: Plan,
    count: u64,
    path: String,
    program: Vec<Segment>,
    /// The segment of the program that is being worked on.
    segment: usize,
    /// Within a pass: the number of blocks that are done.
    turn: u64,
    /// Within a block: the number of its operations that were handed out;
    /// zero when no block has been begun.
    stage: usize,
    /// The block that has been begun, and its length.
    block: u64,
    len: usize,
    prng: Xorshift64,
    buffer: Vec<u8>,
}

impl Benchmark {
    /// The parameters of the run.
    pub closed spec fn plan(&self) -> Plan {
        self.plan
    }

    /// The content buffer.
    pub closed spec fn buffer_view(&self) -> Seq<u8> {
        self.buffer@
    }

    /// The path the run works on.
    pub closed spec fn path_view(&self) -> Seq<char> {
        self.path@
    }

    /// The operations of the block that has been begun.
    spec fn begun_ops(&self) -> Seq<Op> {
        match self.program@[self.segment as int] {
            Segment::Blocks { pass, order } => block_ops(
                self.plan,
                pass,
                order,
                self.block as nat,
                self.buffer@.subrange(0, self.len as int),
            ),
            _ => Seq::empty(),
        }
    }

    /// The engine's fields fit together.
    pub closed spec fn wf(&self) -> bool {
        &&& self.settled()
        &&& self.stage > 0 ==> {
            &&& self.segment < self.program@.len()
            &&& self.program@[self.segment as int] is Blocks
            &&& self.turn < self.count
            &&& self.block < self.count
            &&& self.len == self.plan.len(self.block as nat)
            &&& self.stage < self.begun_ops().len()
        }
    }

    /// The operations that are still to come, in order.
    pub closed spec fn remaining(&self) -> Seq<Op> {
        if self.stage > 0 {
            self.begun_ops().skip(self.stage as int) + run_from(
                self.plan,
                self.program@,
                self.segment as nat,
                (self.turn + 1) as nat,
                self.prng.state(),
            )
        } else {
            run_from(
                self.plan,
                self.program@,
                self.segment as nat,
                self.turn as nat,
                self.prng.state(),
            )
        }
    }

    /// Sets up the benchmark `variant` for `total_size` bytes in blocks of
    /// `block_size`. Nothing has been done yet: the whole script is still to
    /// come.
    pub fn new(variant: Variant, total_size: u64, block_size: usize, run: u32) -> (benchmark: Self)
        requires
            block_size > 0,
        ensures
            benchmark.wf(),
            benchmark.plan() == (Plan { variant, total_size, block_size, run }),
            benchmark.remaining() == script(benchmark.plan()),
            benchmark.path_view() == target_path(benchmark.plan()),
            benchmark.buffer_view().len() == block_size,
    {
        let plan = Plan { variant, total_size, block_size, run };
        Benchmark {
            plan,
            count: count_blocks(total_size, block_size),
            path: path_of(&plan),
            program: program(variant),
            segment: 0,
            turn: 0,
            stage: 0,
            block: 0,
            len: 0,
            prng: xorshift64(SEED),
            buffer: vec![0u8; block_size],
        }
    }

    /// The path the run works on: the file of a large-file run, the
    /// directory of a small-file run.
    pub fn path(&self) -> (path: &String)
        ensures
            path@ == self.path_view(),
    {
        &self.path
    }

    /// The content buffer. After a `Write` step its first `len` bytes are
    /// the bytes to write.
    pub fn buffer(&self) -> (buffer: &Vec<u8>)
        ensures
            buffer@ == self.buffer_view(),
    {
        &self.buffer
    }

    /// The step for operation `stage` of the block that has been begun.
    fn block_step(&self, pass: Pass, order: Order, stage: usize) -> (step: Step)
        requires
            self.plan.block_size > 0,
            self.count == self.plan.count(),
            self.path@ == target_path(self.plan),
            self.block < self.count,
            self.len == self.plan.len(self.block as nat),
            stage < block_ops(self.plan, pass, order, self.block as nat, Seq::empty()).len(),
        ensures
            step.op(self.buffer@) == block_ops(
                self.plan,
                pass,
                order,
                self.block as nat,
                self.buffer@.subrange(0, self.len as int),
            )[stage as int],
            step matches Step::Write { len } ==> len == self.len,
    {
        let act = match pass {
            Pass::Write { .. } => Step::Write { len: self.len },
            Pass::Read => Step::Read { len: self.len },
            Pass::Truncate => Step::Truncate,
        };
        match self.plan.variant.granularity {
            Granularity::LargeFile => {
                if matches!(order, Order::InOrder) || stage == 1 {
                    act
                } else {
                    Step::Seek {
                        offset: offset_of_block(
                            self.plan.total_size,
                            self.plan.block_size,
                            self.block,
                        ),
                    }
                }
            },
            Granularity::SmallFiles => {
                if stage == 0 {
                    let mode = match pass {
                        Pass::Write { mode } => mode,
                        Pass::Read => OpenMode::ReadOnly,
                        Pass::Truncate => OpenMode::Create,
                    };
                    Step::Open { path: block_file(&self.path, self.block), mode }
                } else if stage == 1 {
                    act
                } else if stage == 2 && matches!(pass, Pass::Write { .. }) {
                    Step::Flush
                } else {
                    Step::Close
                }
            },
        }
    }

    /// What is to come once the block that is being worked on is done.
    spec fn after_block(&self) -> Seq<Op> {
        run_from(
            self.plan,
            self.program@,
            self.segment as nat,
            (self.turn + 1) as nat,
            self.prng.state(),
        )
    }

    /// What `wf` says of every state, begun block or not.
    spec fn settled(&self) -> bool {
        &&& self.plan.block_size > 0
        &&& self.count == self.plan.count()
        &&& self.path@ == target_path(self.plan)
        &&& self.program@ == program_of(self.plan.variant)
        &&& self.segment <= self.program@.len()
        &&& self.buffer@.len() == self.plan.block_size
        &&& self.turn <= self.count
    }

    /// Nothing but the progress through the script differs between `self`
    /// and `other`.
    spec fn same_run(&self, other: &Self) -> bool {
        &&& self.plan == other.plan
        &&& self.count == other.count
        &&& self.path == other.path
        &&& self.program == other.program
    }

    /// Begins the block of the current turn: chooses it and, in a write
    /// pass, draws its content into the buffer.
    fn begin_block(&mut self, pass: Pass, order: Order)
        requires
            old(self).settled(),
            old(self).stage == 0,
            old(self).segment < old(self).program@.len(),
            old(self).program@[old(self).segment as int] == (Segment::Blocks { pass, order }),
            old(self).turn < old(self).count,
        ensures
            final(self).settled(),
            final(self).same_run(old(self)),
            final(self).segment == old(self).segment,
            final(self).turn == old(self).turn,
            final(self).stage == 0,
            final(self).block < final(self).count,
            final(self).len == final(self).plan.len(final(self).block as nat),
            old(self).remaining() == final(self).begun_ops() + final(self).after_block(),
    {
        let ghost state = self.prng.state();
        let word = match order {
            Order::Random => self.prng.next_u64(),
            _ => 0,
        };
        self.block = choose_block(order, self.count, self.turn, word);
        let offset = offset_of_block(self.plan.total_size, self.plan.block_size, self.block);
        self.len = clamped_len(self.plan.total_size, self.plan.block_size, offset);
        if let Pass::Write { .. } = pass {
            self.prng.fill(&mut self.buffer, self.len);
        }
        proof {
            assert(self.prng.state() == state_after_turn(
                self.plan,
                pass,
                order,
                state,
                self.turn as nat,
            ));
            assert(self.begun_ops() == turn_ops(self.plan, pass, order, state, self.turn as nat));
            lemma_run_from_turn(self.plan, self.program@, self.segment as nat, self.turn as nat, state);
        }
    }

    /// Hands out the next operation of the block that has been begun.
    fn continue_block(&mut self, pass: Pass, order: Order) -> (step: Step)
        requires
            old(self).settled(),
            old(self).segment < old(self).program@.len(),
            old(self).program@[old(self).segment as int] == (Segment::Blocks { pass, order }),
            old(self).turn < old(self).count,
            old(self).block < old(self).count,
            old(self).len == old(self).plan.len(old(self).block as nat),
            old(self).stage < old(self).begun_ops().len(),
        ensures
            final(self).wf(),
            final(self).same_run(old(self)),
            final(self).buffer == old(self).buffer,
            step.op(final(self).buffer@) == old(self).begun_ops()[old(self).stage as int],
            final(self).remaining() == old(self).begun_ops().skip(old(self).stage + 1) + old(
                self,
            ).after_block(),
            step matches Step::Write { len } ==> len <= final(self).buffer@.len(),
    {
        let ghost ops = self.begun_ops();
        proof {
            lemma_block_bounds(
                self.plan.total_size as nat,
                self.plan.block_size as nat,
                self.block as nat,
            );
        }
        let step = self.block_step(pass, order, self.stage);
        let per_block: usize = match self.plan.variant.granularity {
            Granularity::LargeFile => if matches!(order, Order::InOrder) {
                1
            } else {
                2
            },
            Granularity::SmallFiles => if matches!(pass, Pass::Write { .. }) {
                4
            } else {
                3
            },
        };
        assert(per_block == ops.len());
        if self.stage + 1 == per_block {
            self.stage = 0;
            self.turn += 1;
            assert(ops.skip(ops.len() as int) =~= Seq::<Op>::empty());
            assert(self.remaining() =~= ops.skip(ops.len() as int) + old(self).after_block());
        } else {
            self.stage += 1;
            assert(self.begun_ops() == ops);
        }
        step
    }

    /// Hands out the operation of a segment that is a single operation.
    fn single_step(&mut self, single: Segment) -> (step: Step)
        requires
            old(self).settled(),
            old(self).stage == 0,
            old(self).segment < old(self).program@.len(),
            old(self).program@[old(self).segment as int] == single,
            !(single is Blocks),
            !(single is Reseed),
        ensures
            final(self).wf(),
            final(self).same_run(old(self)),
            final(self).buffer == old(self).buffer,
            old(self).remaining() == seq![step.op(final(self).buffer@)] + final(self).remaining(),
            !(step is Write),
    {
        let step = match single {
            Segment::MakeDir => Step::MakeDir { path: self.path.clone() },
            Segment::Open { mode } => Step::Open { path: self.path.clone(), mode },
            Segment::StartClock => Step::StartClock,
            Segment::StopClock => Step::StopClock,
            Segment::Flush => Step::Flush,
            Segment::Truncate => Step::Truncate,
            _ => Step::Close,
        };
        assert(self.segment < self.program.len());
        self.segment += 1;
        self.turn = 0;
        assert(step.op(self.buffer@) == single_op(self.plan, single));
        step
    }

    /// Hands out the next operation of the script, or `None` when the script
    /// has ended.
    pub fn next(&mut self) -> (step: Option<Step>)
        requires
            old(self).wf(),
        ensures
            final(self).wf(),
            final(self).plan() == old(self).plan(),
            final(self).path_view() == old(self).path_view(),
            final(self).buffer_view().len() == old(self).buffer_view().len(),
            match step {
                Some(step) => {
                    &&& old(self).remaining().len() > 0
                    &&& step.op(final(self).buffer_view()) == old(self).remaining()[0]
                    &&& final(self).remaining() == old(self).remaining().skip(1)
                    &&& step matches Step::Write { len } ==> len <= final(self).buffer_view().len()
                },
                None => {
                    &&& old(self).remaining().len() == 0
                    &&& final(self).remaining().len() == 0
                },
            },
    {
        loop
            invariant
                self.wf(),
                self.same_run(old(self)),
                self.buffer@.len() == old(self).buffer@.len(),
                self.remaining() == old(self).remaining(),
            decreases self.program@.len() - self.segment,
        {
            if self.segment >= self.program.len() {
                return None;
            }
            let ghost before = self.remaining();
            match self.program[self.segment] {
                Segment::Blocks { pass, order } => {
                    if self.stage == 0 && self.turn >= self.count {
                        proof {
                            lemma_run_from_pass_end(
                                self.plan,
                                self.program@,
                                self.segment as nat,
                                self.turn as nat,
                                self.prng.state(),
                            );
                        }
                        self.segment += 1;
                        self.turn = 0;
                        continue ;
                    }
                    if self.stage == 0 {
                        self.begin_block(pass, order);
                    }
                    let ghost ops = self.begun_ops();
                    let ghost rest = self.after_block();
                    let ghost stage = self.stage as int;
                    assert(before == ops.skip(stage) + rest);
                    let step = self.continue_block(pass, order);
                    assert(before[0] == ops[stage]);
                    assert(before.skip(1) =~= ops.skip(stage + 1) + rest);
                    return Some(step);
                },
                Segment::Reseed => {
                    assert(self.segment < self.program.len());
                    self.prng = xorshift64(SEED);
                    self.segment += 1;
                    self.turn = 0;
                    continue ;
                },
                single => {
                    let step = self.single_step(single);
                    assert(before.skip(1) =~= self.remaining());
                    return Some(step);
                },
            }
        }
    }
}

} // verus!
