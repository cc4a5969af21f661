//! Runs with different parameters work on different paths.

use vstd::prelude::*;
use crate::registry::{
    Granularity, lemma_mode_name_injective, lemma_reveal_words, mode_name, order_word,
};
use crate::script::{parameter_suffix, Plan, target_path};
use crate::text::{decimal, lemma_decimal_digits, lemma_decimal_injective};

verus! {

/// Two equal texts that each end in `_` and a decimal number end in the same
/// number, and are equal in front of it.
proof fn lemma_split_number(x: Seq<char>, a: nat, y: Seq<char>, b: nat)
    requires
        x + "_"@ + decimal(a) == y + "_"@ + decimal(b),
    ensures
        a == b,
        x == y,
{
    reveal_strlit("_");
    lemma_decimal_digits(a);
    lemma_decimal_digits(b);
    let da = decimal(a);
    let db = decimal(b);
    let whole_a = x + "_"@ + da;
    let whole_b = y + "_"@ + db;
    assert(whole_a.len() == x.len() + 1 + da.len());
    assert(whole_b.len() == y.len() + 1 + db.len());
    assert(whole_a[x.len() as int] == '_');
    assert(whole_b[y.len() as int] == '_');
    if da.len() < db.len() {
        // The `_` of the first text would be a digit of the second.
        assert(whole_b[x.len() as int] == db[x.len() - y.len() - 1]);
        assert(false);
    }
    if db.len() < da.len() {
        assert(whole_a[y.len() as int] == da[y.len() - x.len() - 1]);
        assert(false);
    }
    assert forall|i: int| 0 <= i < x.len() implies x[i] == y[i] by {
        assert(whole_a[i] == x[i]);
        assert(whole_b[i] == y[i]);
    }
    assert(x =~= y);
    assert forall|i: int| 0 <= i < da.len() implies da[i] == db[i] by {
        assert(whole_a[x.len() + 1 + i] == da[i]);
        assert(whole_b[y.len() + 1 + i] == db[i]);
    }
    assert(da =~= db);
    lemma_decimal_injective(a, b);
}

/// Two equal texts that each end in the parameters of a run were made for
/// the same sizes and the same run index, and are equal in front of them.
proof fn lemma_split_parameters(x: Seq<char>, a: Plan, y: Seq<char>, b: Plan)
    requires
        x + parameter_suffix(a) == y + parameter_suffix(b),
    ensures
        a.total_size == b.total_size,
        a.block_size == b.block_size,
        a.run == b.run,
        x == y,
{
    let size_a = decimal(a.total_size as nat);
    let size_b = decimal(b.total_size as nat);
    let block_a = decimal(a.block_size as nat);
    let block_b = decimal(b.block_size as nat);
    let run_a = decimal(a.run as nat);
    let run_b = decimal(b.run as nat);
    let front_a = x + "_"@ + size_a + "_"@ + block_a;
    let front_b = y + "_"@ + size_b + "_"@ + block_b;
    assert(x + parameter_suffix(a) =~= front_a + "_"@ + run_a);
    assert(y + parameter_suffix(b) =~= front_b + "_"@ + run_b);
    lemma_split_number(front_a, a.run as nat, front_b, b.run as nat);
    lemma_split_number(
        x + "_"@ + size_a,
        a.block_size as nat,
        y + "_"@ + size_b,
        b.block_size as nat,
    );
    lemma_split_number(x, a.total_size as nat, y, b.total_size as nat);
}

/// Equal texts stay equal when the same text is taken from their front.
proof fn lemma_same_front(front: Seq<char>, x: Seq<char>, y: Seq<char>)
    requires
        front + x == front + y,
    ensures
        x == y,
{
    assert((front + x).len() == front.len() + x.len());
    assert((front + y).len() == front.len() + y.len());
    assert forall|i: int| 0 <= i < x.len() implies x[i] == y[i] by {
        assert((front + x)[front.len() + i] == x[i]);
        assert((front + y)[front.len() + i] == y[i]);
    }
    assert(x =~= y);
}

/// Equal texts stay equal when the same text is taken from their end.
proof fn lemma_same_end(x: Seq<char>, y: Seq<char>, end: Seq<char>)
    requires
        x + end == y + end,
    ensures
        x == y,
{
    assert((x + end).len() == x.len() + end.len());
    assert((y + end).len() == y.len() + end.len());
    assert forall|i: int| 0 <= i < x.len() implies x[i] == y[i] by {
        assert((x + end)[i] == x[i]);
        assert((y + end)[i] == y[i]);
    }
    assert(x =~= y);
}

/// The path of a large-file run ends in a letter, the path of a small-file
/// run in a digit.
proof fn lemma_last_of_path(plan: Plan)
    ensures
        target_path(plan).len() > 0,
        plan.variant.granularity == Granularity::LargeFile <==> target_path(plan).last() == 't',
{
    reveal_strlit(".txt");
    lemma_decimal_digits(plan.run as nat);
    let run = decimal(plan.run as nat);
    match plan.variant.granularity {
        Granularity::LargeFile => {
            let front = "/scratch/"@ + mode_name(plan.variant) + parameter_suffix(plan);
            assert(target_path(plan)[(front.len() + 3) as int] == ".txt"@[3]);
        },
        Granularity::SmallFiles => {
            let front = "/scratch/small_write_"@ + order_word(plan.variant.order) + "_"@ + decimal(
                plan.total_size as nat,
            ) + "_"@ + decimal(plan.block_size as nat) + "_"@;
            assert(target_path(plan) =~= front + run);
            assert(target_path(plan).last() == run.last());
        },
    }
}

/// Two runs work on the same path only if they agree on the sizes, the run
/// index, the granularity and the access order; two large-file runs only if
/// they agree on the operation too. (The small-file operations of one order
/// share their directory.)
pub proof fn lemma_target_path_injective(a: Plan, b: Plan)
    requires
        target_path(a) == target_path(b),
    ensures
        a.total_size == b.total_size,
        a.block_size == b.block_size,
        a.run == b.run,
        a.variant.granularity == b.variant.granularity,
        a.variant.order == b.variant.order,
        a.variant.granularity == Granularity::LargeFile ==> a == b,
{
    lemma_last_of_path(a);
    lemma_last_of_path(b);
    match a.variant.granularity {
        Granularity::LargeFile => {
            let front_a = "/scratch/"@ + mode_name(a.variant);
            let front_b = "/scratch/"@ + mode_name(b.variant);
            lemma_same_end(
                front_a + parameter_suffix(a),
                front_b + parameter_suffix(b),
                ".txt"@,
            );
            lemma_split_parameters(front_a, a, front_b, b);
            lemma_same_front("/scratch/"@, mode_name(a.variant), mode_name(b.variant));
            lemma_mode_name_injective(a.variant, b.variant);
        },
        Granularity::SmallFiles => {
            let front_a = "/scratch/small_write_"@ + order_word(a.variant.order);
            let front_b = "/scratch/small_write_"@ + order_word(b.variant.order);
            lemma_split_parameters(front_a, a, front_b, b);
            lemma_same_front(
                "/scratch/small_write_"@,
                order_word(a.variant.order),
                order_word(b.variant.order),
            );
            lemma_reveal_words();
            let word_a = order_word(a.variant.order);
            let word_b = order_word(b.variant.order);
            assert(word_a[0] == word_b[0]);
            assert(word_a[1] == word_b[1]);
        },
    }
}

} // verus!
