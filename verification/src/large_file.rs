//! Benchmarks over one large file.

use vstd::prelude::*;
use crate::engine::Benchmark;
use crate::geometry::Order;
use crate::registry::{Granularity, Operation, Variant};
use crate::script::{script, target_path, Plan};

verus! {

/// The large-file variant that does `operation` in the order `order`.
pub open spec fn variant(operation: Operation, order: Order) -> Variant {
    Variant { granularity: Granularity::LargeFile, operation, order }
}

fn start(operation: Operation, order: Order, size: u64, block_size: usize, run: u32) -> (benchmark:
    Benchmark)
    requires
        block_size > 0,
    ensures
        benchmark.wf(),
        benchmark.plan() == (Plan {
            variant: variant(operation, order),
            total_size: size,
            block_size,
            run,
        }),
        benchmark.remaining() == script(benchmark.plan()),
        benchmark.path_view() == target_path(benchmark.plan()),
        benchmark.buffer_view().len() == block_size,
{
    Benchmark::new(
        Variant { granularity: Granularity::LargeFile, operation, order },
        size,
        block_size,
        run,
    )
}

/// Writes one large file in order.
pub fn write_inorder(size: u64, block_size: usize, run: u32) -> (benchmark: Benchmark)
    requires
        block_size > 0,
    ensures
        benchmark.wf(),
        benchmark.plan() == (Plan {
            variant: variant(Operation::Write, Order::InOrder),
            total_size: size,
            block_size,
            run,
        }),
        benchmark.remaining() == script(benchmark.plan()),
        benchmark.path_view() == target_path(benchmark.plan()),
        benchmark.buffer_view().len() == block_size,
{
    start(Operation::Write, Order::InOrder, size, block_size, run)
}

/// Fills one large file, then measures rewriting it in order.
pub fn update_inorder(size: u64, block_size: usize, run: u32) -> (benchmark: Benchmark)
    requires
        block_size > 0,
    ensures
        benchmark.wf(),
        benchmark.plan() == (Plan {
            variant: variant(Operation::Update, Order::InOrder),
            total_size: size,
            block_size,
            run,
        }),
        benchmark.remaining() == script(benchmark.plan()),
        benchmark.path_view() == target_path(benchmark.plan()),
        benchmark.buffer_view().len() == block_size,
{
    start(Operation::Update, Order::InOrder, size, block_size, run)
}

/// Fills one large file, then measures reading it in order.
pub fn read_inorder(size: u64, block_size: usize, run: u32) -> (benchmark: Benchmark)
    requires
        block_size > 0,
    ensures
        benchmark.wf(),
        benchmark.plan() == (Plan {
            variant: variant(Operation::Read, Order::InOrder),
            total_size: size,
            block_size,
            run,
        }),
        benchmark.remaining() == script(benchmark.plan()),
        benchmark.path_view() == target_path(benchmark.plan()),
        benchmark.buffer_view().len() == block_size,
{
    start(Operation::Read, Order::InOrder, size, block_size, run)
}

/// Writes one large file in reverse order.
pub fn write_reversed(size: u64, block_size: usize, run: u32) -> (benchmark: Benchmark)
    requires
        block_size > 0,
    ensures
        benchmark.wf(),
        benchmark.plan() == (Plan {
            variant: variant(Operation::Write, Order::Reversed),
            total_size: size,
            block_size,
            run,
        }),
        benchmark.remaining() == script(benchmark.plan()),
        benchmark.path_view() == target_path(benchmark.plan()),
        benchmark.buffer_view().len() == block_size,
{
    start(Operation::Write, Order::Reversed, size, block_size, run)
}

/// Fills one large file, then measures rewriting it in reverse order.
pub fn update_reversed(size: u64, block_size: usize, run: u32) -> (benchmark: Benchmark)
    requires
        block_size > 0,
    ensures
        benchmark.wf(),
        benchmark.plan() == (Plan {
            variant: variant(Operation::Update, Order::Reversed),
            total_size: size,
            block_size,
            run,
        }),
        benchmark.remaining() == script(benchmark.plan()),
        benchmark.path_view() == target_path(benchmark.plan()),
        benchmark.buffer_view().len() == block_size,
{
    start(Operation::Update, Order::Reversed, size, block_size, run)
}

/// Fills one large file, then measures reading it in reverse order.
pub fn read_reversed(size: u64, block_size: usize, run: u32) -> (benchmark: Benchmark)
    requires
        block_size > 0,
    ensures
        benchmark.wf(),
        benchmark.plan() == (Plan {
            variant: variant(Operation::Read, Order::Reversed),
            total_size: size,
            block_size,
            run,
        }),
        benchmark.remaining() == script(benchmark.plan()),
        benchmark.path_view() == target_path(benchmark.plan()),
        benchmark.buffer_view().len() == block_size,
{
    start(Operation::Read, Order::Reversed, size, block_size, run)
}

/// Writes one large file in random order.
pub fn write_random(size: u64, block_size: usize, run: u32) -> (benchmark: Benchmark)
    requires
        block_size > 0,
    ensures
        benchmark.wf(),
        benchmark.plan() == (Plan {
            variant: variant(Operation::Write, Order::Random),
            total_size: size,
            block_size,
            run,
        }),
        benchmark.remaining() == script(benchmark.plan()),
        benchmark.path_view() == target_path(benchmark.plan()),
        benchmark.buffer_view().len() == block_size,
{
    start(Operation::Write, Order::Random, size, block_size, run)
}

/// Fills one large file, then measures rewriting it in random order.
pub fn update_random(size: u64, block_size: usize, run: u32) -> (benchmark: Benchmark)
    requires
        block_size > 0,
    ensures
        benchmark.wf(),
        benchmark.plan() == (Plan {
            variant: variant(Operation::Update, Order::Random),
            total_size: size,
            block_size,
            run,
        }),
        benchmark.remaining() == script(benchmark.plan()),
        benchmark.path_view() == target_path(benchmark.plan()),
        benchmark.buffer_view().len() == block_size,
{
    start(Operation::Update, Order::Random, size, block_size, run)
}

/// Fills one large file, then measures reading it in random order.
pub fn read_random(size: u64, block_size: usize, run: u32) -> (benchmark: Benchmark)
    requires
        block_size > 0,
    ensures
        benchmark.wf(),
        benchmark.plan() == (Plan {
            variant: variant(Operation::Read, Order::Random),
            total_size: size,
            block_size,
            run,
        }),
        benchmark.remaining() == script(benchmark.plan()),
        benchmark.path_view() == target_path(benchmark.plan()),
        benchmark.buffer_view().len() == block_size,
{
    start(Operation::Read, Order::Random, size, block_size, run)
}

} // verus!
