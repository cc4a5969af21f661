//! The clock runs during the timed pass and at no other time.

use vstd::prelude::*;
use crate::geometry::Order;
use crate::prng::SEED;
use crate::registry::{Granularity, Operation};
use crate::script::{
    cleanup_program_of, cleanup_script, fixture_program_of, lemma_run_from_concat,
    lemma_script_parts, measured_program_of, Op, OpenMode, Pass, pass_ops, Plan, run_from,
    script, script_until_stop, Segment, state_after_pass, state_after_turn, state_at_end,
    timed_program_of, turn_ops,
};

verus! {

/// What a benchmark does before the clock starts.
pub open spec fn fixture_script(plan: Plan) -> Seq<Op> {
    run_from(plan, fixture_program_of(plan.variant), 0, 0, SEED)
}

/// The generator state when the clock starts.
pub open spec fn state_at_start(plan: Plan) -> u64 {
    state_at_end(plan, fixture_program_of(plan.variant), 0, 0, SEED)
}

/// What a benchmark does while the clock runs.
pub open spec fn timed_script(plan: Plan) -> Seq<Op> {
    run_from(plan, timed_program_of(plan.variant), 0, 0, state_at_start(plan))
}

/// Whether the operation starts or stops the clock.
pub open spec fn is_clock(op: Op) -> bool {
    op is StartClock || op is StopClock
}

/// Segments put in front of a program do not change the state in which the
/// program ends from one of its own segments on.
proof fn lemma_state_at_end_shift(
    plan: Plan,
    first: Seq<Segment>,
    second: Seq<Segment>,
    segment: nat,
    turn: nat,
    s: u64,
)
    ensures
        state_at_end(plan, first + second, first.len() + segment, turn, s) == state_at_end(
            plan,
            second,
            segment,
            turn,
            s,
        ),
    decreases second.len() - segment,
{
    let whole = first + second;
    if segment < second.len() {
        assert(whole[(first.len() + segment) as int] == second[segment as int]);
        match second[segment as int] {
            Segment::Blocks { pass, order } => {
                lemma_state_at_end_shift(
                    plan,
                    first,
                    second,
                    segment + 1,
                    0,
                    state_after_pass(plan, pass, order, s, turn),
                );
            },
            Segment::Reseed => {
                lemma_state_at_end_shift(plan, first, second, segment + 1, 0, SEED);
            },
            _ => {
                lemma_state_at_end_shift(plan, first, second, segment + 1, 0, s);
            },
        }
    }
}

/// A program made of two parts ends in the state in which the second part
/// ends when it starts from the state in which the first part ended.
proof fn lemma_state_at_end_concat(
    plan: Plan,
    first: Seq<Segment>,
    second: Seq<Segment>,
    segment: nat,
    turn: nat,
    s: u64,
)
    requires
        segment < first.len() || (segment == first.len() && turn == 0),
    ensures
        state_at_end(plan, first + second, segment, turn, s) == state_at_end(
            plan,
            second,
            0,
            0,
            state_at_end(plan, first, segment, turn, s),
        ),
    decreases first.len() - segment,
{
    let whole = first + second;
    if segment == first.len() {
        lemma_state_at_end_shift(plan, first, second, 0, 0, s);
    } else {
        assert(whole[segment as int] == first[segment as int]);
        match first[segment as int] {
            Segment::Blocks { pass, order } => {
                lemma_state_at_end_concat(
                    plan,
                    first,
                    second,
                    segment + 1,
                    0,
                    state_after_pass(plan, pass, order, s, turn),
                );
            },
            Segment::Reseed => {
                lemma_state_at_end_concat(plan, first, second, segment + 1, 0, SEED);
            },
            _ => {
                lemma_state_at_end_concat(plan, first, second, segment + 1, 0, s);
            },
        }
    }
}

/// A pass neither starts nor stops the clock.
proof fn lemma_pass_has_no_clock(plan: Plan, pass: Pass, order: Order, s: u64, turn: nat, k: int)
    requires
        0 <= k < pass_ops(plan, pass, order, s, turn).len(),
    ensures
        !is_clock(pass_ops(plan, pass, order, s, turn)[k]),
    decreases plan.count() - turn,
{
    if turn < plan.count() {
        let head = turn_ops(plan, pass, order, s, turn);
        if k >= head.len() {
            lemma_pass_has_no_clock(
                plan,
                pass,
                order,
                state_after_turn(plan, pass, order, s, turn),
                turn + 1,
                k - head.len(),
            );
        }
    }
}

/// A program without clock segments neither starts nor stops the clock.
proof fn lemma_run_has_no_clock(
    plan: Plan,
    program: Seq<Segment>,
    segment: nat,
    turn: nat,
    s: u64,
    k: int,
)
    requires
        forall|i: int|
            0 <= i < program.len() ==> !(#[trigger] program[i] is StartClock) && !(program[i]
                is StopClock),
        0 <= k < run_from(plan, program, segment, turn, s).len(),
    ensures
        !is_clock(run_from(plan, program, segment, turn, s)[k]),
    decreases program.len() - segment,
{
    if segment < program.len() {
        match program[segment as int] {
            Segment::Blocks { pass, order } => {
                let head = pass_ops(plan, pass, order, s, turn);
                if k < head.len() {
                    lemma_pass_has_no_clock(plan, pass, order, s, turn, k);
                } else {
                    lemma_run_has_no_clock(
                        plan,
                        program,
                        segment + 1,
                        0,
                        state_after_pass(plan, pass, order, s, turn),
                        k - head.len(),
                    );
                }
            },
            Segment::Reseed => {
                lemma_run_has_no_clock(plan, program, segment + 1, 0, SEED, k);
            },
            _ => {
                if k > 0 {
                    lemma_run_has_no_clock(plan, program, segment + 1, 0, s, k - 1);
                }
            },
        }
    }
}

/// Every script is the fixture, the start of the clock, the timed part, the
/// stop of the clock and the cleanup, in this order, and the clock is
/// neither started nor stopped anywhere else: the measured time covers the
/// timed part and nothing of the fixture or the cleanup.
pub proof fn lemma_clock_brackets_timed_part(plan: Plan)
    ensures
        script(plan) == fixture_script(plan) + seq![Op::StartClock] + timed_script(plan)
            + seq![Op::StopClock] + cleanup_script(plan),
        forall|k: int|
            0 <= k < fixture_script(plan).len() ==> !is_clock(#[trigger] fixture_script(plan)[k]),
        forall|k: int|
            0 <= k < timed_script(plan).len() ==> !is_clock(#[trigger] timed_script(plan)[k]),
        forall|k: int|
            0 <= k < cleanup_script(plan).len() ==> !is_clock(#[trigger] cleanup_script(plan)[k]),
{
    let fixture = fixture_program_of(plan.variant);
    let timed = timed_program_of(plan.variant);
    let start = seq![Segment::StartClock];
    let stop = seq![Segment::StopClock];
    lemma_script_parts(plan);
    lemma_run_from_concat(plan, fixture + start + timed, stop, 0, 0, SEED);
    lemma_run_from_concat(plan, fixture + start, timed, 0, 0, SEED);
    lemma_run_from_concat(plan, fixture, start, 0, 0, SEED);
    lemma_state_at_end_concat(plan, fixture, start, 0, 0, SEED);
    let started = state_at_start(plan);
    assert(state_at_end(plan, start, 0, 0, started) == started) by {
        reveal_with_fuel(state_at_end, 2);
    }
    assert(run_from(plan, start, 0, 0, started) =~= seq![Op::StartClock]) by {
        reveal_with_fuel(run_from, 2);
    }
    let stopped = state_at_end(plan, fixture + start + timed, 0, 0, SEED);
    assert(run_from(plan, stop, 0, 0, stopped) =~= seq![Op::StopClock]) by {
        reveal_with_fuel(run_from, 2);
    }
    assert(script_until_stop(plan) == fixture_script(plan) + seq![Op::StartClock] + timed_script(
        plan,
    ) + seq![Op::StopClock]);
    assert forall|k: int| 0 <= k < fixture_script(plan).len() implies !is_clock(
        #[trigger] fixture_script(plan)[k],
    ) by {
        reveal(fixture_program_of);
        lemma_run_has_no_clock(plan, fixture, 0, 0, SEED, k);
    }
    assert forall|k: int| 0 <= k < timed_script(plan).len() implies !is_clock(
        #[trigger] timed_script(plan)[k],
    ) by {
        reveal(timed_program_of);
        lemma_run_has_no_clock(plan, timed, 0, 0, started, k);
    }
    assert forall|k: int| 0 <= k < cleanup_script(plan).len() implies !is_clock(
        #[trigger] cleanup_script(plan)[k],
    ) by {
        reveal(cleanup_program_of);
        lemma_run_has_no_clock(
            plan,
            cleanup_program_of(plan.variant),
            0,
            0,
            state_at_end(plan, measured_program_of(plan.variant), 0, 0, SEED),
            k,
        );
    }
}

/// When a large file is written, the last thing done while the clock runs is
/// the flush: the measured time includes it.
pub proof fn lemma_flush_is_timed(plan: Plan)
    requires
        plan.variant.granularity == Granularity::LargeFile,
        plan.variant.operation != Operation::Read,
    ensures
        timed_script(plan).len() > 0,
        timed_script(plan).last() == Op::Flush,
{
    reveal(timed_program_of);
    reveal_with_fuel(run_from, 3);
    let pass = pass_ops(
        plan,
        Pass::Write { mode: OpenMode::Create },
        plan.variant.order,
        state_at_start(plan),
        0,
    );
    assert(timed_script(plan) =~= pass + seq![Op::Flush]);
}

/// When the clock of an update benchmark starts, the generator is at the
/// seed again: the measured pass draws what a write pass draws.
pub proof fn lemma_update_starts_at_seed(plan: Plan)
    requires
        plan.variant.operation == Operation::Update,
    ensures
        state_at_start(plan) == SEED,
{
    reveal(fixture_program_of);
    reveal_with_fuel(state_at_end, 6);
}

} // verus!
