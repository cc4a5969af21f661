//! Reading the command line: `<program> <mode> <size> <block_size> [run]`.

use vstd::prelude::*;
use vstd::string::StrSliceExecFns;
use crate::registry::{lookup, mode_name, Variant};
use crate::script::Plan;
use crate::text::{decimal, digit_char, lemma_decimal_digits};

verus! {

/// Why a command line was not accepted.
#[derive(Clone, Copy, Debug, PartialEq, Eq, Structural)]
pub enum UsageError {
    /// There are not three or four arguments after the program's name.
    ArgumentCount,
    /// The mode is not the name of a variant.
    UnknownMode,
    /// The size is not a number that fits 64 bits.
    Size,
    /// The block size is not a number that fits the machine's word.
    BlockSize,
    /// The run index is not a number that fits 32 bits.
    Run,
}

/// The value of a decimal digit.
pub open spec fn digit_value(c: char) -> nat {
    (c as nat - '0' as nat) as nat
}

/// The number that a sequence of decimal digits stands for.
pub open spec fn digits_value(digits: Seq<char>) -> nat
    decreases digits.len(),
{
    if digits.len() == 0 {
        0
    } else {
        digits_value(digits.drop_last()) * 10 + digit_value(digits.last())
    }
}

/// What follows an optional leading `+`.
pub open spec fn unsigned_part(text: Seq<char>) -> Seq<char> {
    if text.len() > 0 && text[0] == '+' {
        text.skip(1)
    } else {
        text
    }
}

/// The number that `text` stands for, if it is a number up to `max`: one or
/// more decimal digits and nothing else, but for an optional `+` in front.
pub open spec fn number(text: Seq<char>, max: nat) -> Option<nat> {
    let digits = unsigned_part(text);
    if digits.len() > 0 && (forall|i: int| 0 <= i < digits.len() ==> '0' <= #[trigger] digits[i] <= '9')
        && digits_value(digits) <= max {
        Some(digits_value(digits))
    } else {
        None
    }
}

/// A number written in decimal is read back as the same number.
pub proof fn lemma_number_of_decimal(n: nat, max: nat)
    requires
        n <= max,
    ensures
        number(decimal(n), max) == Some(n),
{
    lemma_decimal_digits(n);
    lemma_decimal_value(n);
    assert(decimal(n)[0] != '+');
}

/// The digits of a number stand for the number.
proof fn lemma_decimal_value(n: nat)
    ensures
        digits_value(decimal(n)) == n,
    decreases n,
{
    let text = decimal(n);
    assert(digit_char(n % 10) as nat == 48 + n % 10);
    assert(text.last() == digit_char(n % 10));
    assert('0' as nat == 48);
    assert(digit_value(text.last()) == n % 10);
    if n >= 10 {
        lemma_decimal_value(n / 10);
        assert(text.drop_last() =~= decimal(n / 10));
    } else {
        assert(text.drop_last() =~= Seq::<char>::empty());
        assert(digits_value(Seq::<char>::empty()) == 0);
    }
}

/// More digits never make a smaller number.
proof fn lemma_digits_value_grows(digits: Seq<char>, n: int)
    requires
        0 <= n <= digits.len(),
    ensures
        digits_value(digits.take(n)) <= digits_value(digits),
    decreases digits.len() - n,
{
    if n == digits.len() {
        assert(digits.take(n) =~= digits);
    } else {
        lemma_digits_value_grows(digits.drop_last(), n);
        assert(digits.drop_last().take(n) =~= digits.take(n));
    }
}

/// Reads a number up to `max`.
pub fn parse_number(text: &str, max: u64) -> (parsed: Option<u64>)
    ensures
        match parsed {
            Some(n) => number(text@, max as nat) == Some(n as nat),
            None => number(text@, max as nat) is None,
        },
{
    let total = text.unicode_len();
    let start: usize = if total > 0 && text.get_char(0) == '+' {
        1
    } else {
        0
    };
    let ghost digits = unsigned_part(text@);
    if start == total {
        return None;
    }
    let mut value: u64 = 0;
    let mut i: usize = start;
    while i < total
        invariant
            start <= i <= total,
            total == text@.len(),
            digits == text@.skip(start as int),
            digits == unsigned_part(text@),
            value == digits_value(digits.take(i - start)),
            value <= max,
            forall|j: int| 0 <= j < i - start ==> '0' <= #[trigger] digits[j] <= '9',
        decreases total - i,
    {
        let c = text.get_char(i);
        assert(digits[i - start] == c);
        if c < '0' || c > '9' {
            return None;
        }
        let digit = (c as u64) - ('0' as u64);
        proof {
            assert(digits.take(i - start + 1).drop_last() =~= digits.take(i - start));
            assert(digits_value(digits.take(i - start + 1)) == value * 10 + digit);
            lemma_digits_value_grows(digits, i - start + 1);
        }
        if digit > max || value > (max - digit) / 10 {
            return None;
        }
        value = value * 10 + digit;
        i += 1;
    }
    proof {
        assert(digits.take(total - start) =~= digits);
    }
    Some(value)
}

/// Reads the arguments of an invocation, the program's name first. The
/// checks run in the order of the arguments, and the first that fails names
/// the error; a missing run index counts as zero.
pub fn parse_invocation(args: &Vec<String>) -> (parsed: Result<Plan, UsageError>)
    ensures
        match parsed {
            Ok(plan) => {
                &&& 4 <= args@.len() <= 5
                &&& mode_name(plan.variant) == args@[1]@
                &&& number(args@[2]@, u64::MAX as nat) == Some(plan.total_size as nat)
                &&& number(args@[3]@, usize::MAX as nat) == Some(plan.block_size as nat)
                &&& if args@.len() == 5 {
                    number(args@[4]@, u32::MAX as nat) == Some(plan.run as nat)
                } else {
                    plan.run == 0
                }
            },
            Err(UsageError::ArgumentCount) => args@.len() < 4 || args@.len() > 5,
            Err(UsageError::UnknownMode) => {
                &&& 4 <= args@.len() <= 5
                &&& forall|v: Variant| mode_name(v) != args@[1]@
            },
            Err(UsageError::Size) => {
                &&& 4 <= args@.len() <= 5
                &&& exists|v: Variant| mode_name(v) == args@[1]@
                &&& number(args@[2]@, u64::MAX as nat) is None
            },
            Err(UsageError::BlockSize) => {
                &&& 4 <= args@.len() <= 5
                &&& exists|v: Variant| mode_name(v) == args@[1]@
                &&& number(args@[2]@, u64::MAX as nat) is Some
                &&& number(args@[3]@, usize::MAX as nat) is None
            },
            Err(UsageError::Run) => {
                &&& args@.len() == 5
                &&& exists|v: Variant| mode_name(v) == args@[1]@
                &&& number(args@[2]@, u64::MAX as nat) is Some
                &&& number(args@[3]@, usize::MAX as nat) is Some
                &&& number(args@[4]@, u32::MAX as nat) is None
            },
        },
{
    if args.len() < 4 || args.len() > 5 {
        return Err(UsageError::ArgumentCount);
    }
    let variant = match lookup(args[1].as_str()) {
        Some(variant) => variant,
        None => {
            return Err(UsageError::UnknownMode);
        },
    };
    let total_size = match parse_number(args[2].as_str(), u64::MAX) {
        Some(size) => size,
        None => {
            return Err(UsageError::Size);
        },
    };
    let block_size = match parse_number(args[3].as_str(), usize::MAX as u64) {
        Some(size) => size as usize,
        None => {
            return Err(UsageError::BlockSize);
        },
    };
    let run = if args.len() == 5 {
        match parse_number(args[4].as_str(), u32::MAX as u64) {
            Some(run) => run as u32,
            None => {
                return Err(UsageError::Run);
            },
        }
    } else {
        0
    };
    Ok(Plan { variant, total_size, block_size, run })
}

} // verus!
