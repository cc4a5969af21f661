use fsbench::geometry::Order;
use fsbench::invocation::{parse_invocation, parse_number, UsageError};
use fsbench::registry::{Granularity, Operation, Variant};
use fsbench::script::Plan;

fn args(words: &[&str]) -> Vec<String> {
    words.iter().map(|w| w.to_string()).collect()
}

#[test]
fn numbers_are_read_as_the_standard_library_reads_them() {
    let texts = [
        "0", "1", "42", "007", "+5", "+", "", "-1", " 1", "1 ", "1_000", "0x10", "12a", "९",
        "18446744073709551615", "18446744073709551616", "99999999999999999999999", "+0",
        "++1", "4294967295", "4294967296", "255", "256",
    ];
    for text in texts {
        assert_eq!(parse_number(text, u64::MAX), text.parse::<u64>().ok(), "{:?}", text);
        assert_eq!(
            parse_number(text, u32::MAX as u64),
            text.parse::<u32>().ok().map(u64::from),
            "{:?}",
            text
        );
        assert_eq!(
            parse_number(text, u8::MAX as u64),
            text.parse::<u8>().ok().map(u64::from),
            "{:?}",
            text
        );
    }
}

#[test]
fn number_limits() {
    assert_eq!(parse_number("5", 5), Some(5));
    assert_eq!(parse_number("6", 5), None);
    assert_eq!(parse_number("9", 5), None);
    assert_eq!(parse_number("0", 0), Some(0));
    assert_eq!(parse_number("1", 0), None);
    assert_eq!(parse_number("00000000000000000000000000000001", 1), Some(1));
}

#[test]
fn a_full_command_line() {
    let plan = parse_invocation(&args(&["bench", "write_inorder", "1024", "256", "3"])).unwrap();
    assert_eq!(
        plan,
        Plan {
            variant: Variant {
                granularity: Granularity::LargeFile,
                operation: Operation::Write,
                order: Order::InOrder,
            },
            total_size: 1024,
            block_size: 256,
            run: 3,
        }
    );
}

#[test]
fn run_defaults_to_zero() {
    let plan = parse_invocation(&args(&["bench", "small_read_random", "512", "128"])).unwrap();
    assert_eq!(plan.run, 0);
    assert_eq!(plan.total_size, 512);
    assert_eq!(plan.block_size, 128);
    assert_eq!(plan.variant.granularity, Granularity::SmallFiles);
    assert_eq!(plan.variant.operation, Operation::Read);
    assert_eq!(plan.variant.order, Order::Random);
}

#[test]
fn wrong_argument_counts() {
    assert_eq!(parse_invocation(&args(&[])), Err(UsageError::ArgumentCount));
    assert_eq!(parse_invocation(&args(&["bench"])), Err(UsageError::ArgumentCount));
    assert_eq!(
        parse_invocation(&args(&["bench", "write_inorder"])),
        Err(UsageError::ArgumentCount)
    );
    // The block size may not be left out.
    assert_eq!(
        parse_invocation(&args(&["bench", "write_inorder", "1024"])),
        Err(UsageError::ArgumentCount)
    );
    assert_eq!(
        parse_invocation(&args(&["bench", "write_inorder", "1024", "256", "0", "extra"])),
        Err(UsageError::ArgumentCount)
    );
    // The count is checked before anything else.
    assert_eq!(parse_invocation(&args(&["bench", "nonsense", "x"])), Err(UsageError::ArgumentCount));
}

#[test]
fn unknown_mode_is_reported_before_the_numbers_are_read() {
    assert_eq!(
        parse_invocation(&args(&["bench", "write_sideways", "1024", "256"])),
        Err(UsageError::UnknownMode)
    );
    assert_eq!(
        parse_invocation(&args(&["bench", "nonsense", "x", "y", "z"])),
        Err(UsageError::UnknownMode)
    );
}

#[test]
fn unparseable_numbers() {
    assert_eq!(
        parse_invocation(&args(&["bench", "read_random", "big", "256"])),
        Err(UsageError::Size)
    );
    assert_eq!(
        parse_invocation(&args(&["bench", "read_random", "-1", "x", "y"])),
        Err(UsageError::Size)
    );
    assert_eq!(
        parse_invocation(&args(&["bench", "read_random", "1024", "", "y"])),
        Err(UsageError::BlockSize)
    );
    assert_eq!(
        parse_invocation(&args(&["bench", "read_random", "1024", "99999999999999999999999"])),
        Err(UsageError::BlockSize)
    );
    assert_eq!(
        parse_invocation(&args(&["bench", "read_random", "1024", "256", "4294967296"])),
        Err(UsageError::Run)
    );
    assert_eq!(
        parse_invocation(&args(&["bench", "read_random", "1024", "256", "one"])),
        Err(UsageError::Run)
    );
}

#[test]
fn a_block_size_of_zero_is_a_number() {
    let plan = parse_invocation(&args(&["bench", "write_inorder", "0", "0"])).unwrap();
    assert_eq!(plan.total_size, 0);
    assert_eq!(plan.block_size, 0);
}

#[test]
fn numbers_written_are_read_back() {
    for n in [0u64, 1, 9, 10, 99, 100, 12345, 4294967295, 4294967296, u64::MAX] {
        let mut text = String::new();
        fsbench::text::push_decimal(&mut text, n);
        assert_eq!(parse_number(&text, u64::MAX), Some(n));
        assert_eq!(parse_number(&text, n), Some(n));
        if n > 0 {
            assert_eq!(parse_number(&text, n - 1), None);
        }
    }
}

#[test]
fn a_command_line_made_from_a_plan_is_read_back() {
    for v in fsbench::registry::all_variants() {
        let plan = Plan { variant: v, total_size: 4096, block_size: 512, run: 9 };
        let words = vec![
            "bench".to_string(),
            v.name(),
            "4096".to_string(),
            "512".to_string(),
            "9".to_string(),
        ];
        assert_eq!(parse_invocation(&words), Ok(plan));
    }
}
