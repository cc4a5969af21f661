use fsbench::geometry::Order;
use fsbench::registry::{all_variants, lookup, Granularity, Operation, Variant};
use fsbench::report::{result_path, result_record};
use fsbench::script::{block_file, path_of, program, OpenMode, Pass, Plan, Segment};
use fsbench::text::{push_decimal, push_hex_padded};

fn decimal(n: u64) -> String {
    let mut s = String::new();
    push_decimal(&mut s, n);
    s
}

fn hex(n: u64, width: usize) -> String {
    let mut s = String::new();
    push_hex_padded(&mut s, n, width);
    s
}

fn plan(granularity: Granularity, operation: Operation, order: Order) -> Plan {
    Plan {
        variant: Variant { granularity, operation, order },
        total_size: 1024,
        block_size: 256,
        run: 3,
    }
}

#[test]
fn decimal_matches_display() {
    for n in [0u64, 1, 9, 10, 11, 99, 100, 1024, 65535, 4294967296, u64::MAX] {
        assert_eq!(decimal(n), format!("{}", n));
    }
}

#[test]
fn decimal_appends() {
    let mut s = String::from("size=");
    push_decimal(&mut s, 512);
    assert_eq!(s, "size=512");
}

#[test]
fn hex_is_padded_to_nine_digits() {
    assert_eq!(hex(0, 9), "000000000");
    assert_eq!(hex(1, 9), "000000001");
    assert_eq!(hex(255, 9), "0000000ff");
    assert_eq!(hex(0xabcdef, 9), "000abcdef");
    assert_eq!(hex(0xf_ffff_ffff, 9), "fffffffff");
}

#[test]
fn hex_is_never_truncated() {
    assert_eq!(hex(0x10_0000_0000, 9), "1000000000");
    assert_eq!(hex(u64::MAX, 9), "ffffffffffffffff");
    for n in [0u64, 5, 16, 4095, 0x1234_5678_9abc, u64::MAX] {
        for width in 0..12usize {
            assert_eq!(hex(n, width), format!("{:0width$x}", n, width = width));
        }
    }
}

#[test]
fn every_variant_is_found_by_its_name() {
    let all = all_variants();
    assert_eq!(all.len(), 18);
    for v in all {
        assert_eq!(lookup(&v.name()), Some(v));
    }
}

#[test]
fn names_of_some_variants() {
    let v = Variant {
        granularity: Granularity::LargeFile,
        operation: Operation::Write,
        order: Order::InOrder,
    };
    assert_eq!(v.name(), "write_inorder");
    assert_eq!(lookup("write_inorder"), Some(v));
    let v = Variant {
        granularity: Granularity::SmallFiles,
        operation: Operation::Read,
        order: Order::Random,
    };
    assert_eq!(v.name(), "small_read_random");
    assert_eq!(lookup("small_read_random"), Some(v));
    assert_eq!(
        lookup("update_reversed"),
        Some(Variant {
            granularity: Granularity::LargeFile,
            operation: Operation::Update,
            order: Order::Reversed,
        })
    );
}

#[test]
fn all_names() {
    let names: Vec<String> = all_variants().iter().map(|v| v.name()).collect();
    assert_eq!(
        names,
        vec![
            "write_inorder",
            "update_inorder",
            "read_inorder",
            "write_reversed",
            "update_reversed",
            "read_reversed",
            "write_random",
            "update_random",
            "read_random",
            "small_write_inorder",
            "small_update_inorder",
            "small_read_inorder",
            "small_write_reversed",
            "small_update_reversed",
            "small_read_reversed",
            "small_write_random",
            "small_update_random",
            "small_read_random",
        ]
    );
}

#[test]
fn unknown_mode_is_not_found() {
    assert_eq!(lookup("bogus"), None);
    assert_eq!(lookup(""), None);
    assert_eq!(lookup("write"), None);
    assert_eq!(lookup("write_inorder "), None);
    assert_eq!(lookup("Write_inorder"), None);
    assert_eq!(lookup("small_write"), None);
    assert_eq!(lookup("small_small_write_inorder"), None);
}

#[test]
fn large_file_path_is_named_after_the_mode() {
    let p = plan(Granularity::LargeFile, Operation::Write, Order::InOrder);
    assert_eq!(path_of(&p), "/scratch/write_inorder_1024_256_3.txt");
    let p = plan(Granularity::LargeFile, Operation::Read, Order::Random);
    assert_eq!(path_of(&p), "/scratch/read_random_1024_256_3.txt");
}

#[test]
fn small_file_directory_is_shared_by_the_operations_of_an_order() {
    for operation in [Operation::Write, Operation::Update, Operation::Read] {
        let p = plan(Granularity::SmallFiles, operation, Order::Reversed);
        assert_eq!(path_of(&p), "/scratch/small_write_reversed_1024_256_3");
    }
    let p = plan(Granularity::SmallFiles, Operation::Read, Order::Random);
    assert_eq!(path_of(&p), "/scratch/small_write_random_1024_256_3");
}

#[test]
fn paths_of_different_parameters_differ() {
    let a = plan(Granularity::LargeFile, Operation::Write, Order::InOrder);
    let mut b = a;
    b.run = 4;
    let mut c = a;
    c.total_size = 2048;
    let mut d = a;
    d.block_size = 128;
    let paths = [path_of(&a), path_of(&b), path_of(&c), path_of(&d)];
    for i in 0..4 {
        for j in 0..4 {
            assert_eq!(paths[i] == paths[j], i == j);
        }
    }
}

#[test]
fn block_file_names() {
    let dir = String::from("/scratch/small_write_inorder_512_128_0");
    assert_eq!(block_file(&dir, 0), "/scratch/small_write_inorder_512_128_0/000000000.txt");
    assert_eq!(block_file(&dir, 1), "/scratch/small_write_inorder_512_128_0/000000001.txt");
    assert_eq!(block_file(&dir, 26), "/scratch/small_write_inorder_512_128_0/00000001a.txt");
}

#[test]
fn result_path_and_record() {
    let p = Plan {
        variant: Variant {
            granularity: Granularity::LargeFile,
            operation: Operation::Write,
            order: Order::InOrder,
        },
        total_size: 1024,
        block_size: 256,
        run: 0,
    };
    assert_eq!(result_path(&p), "/results/result_write_inorder_1024_256_0.json");
    assert_eq!(
        result_record(&p, "0.000123"),
        "{\"name\":\"write_inorder\",\"size\":1024,\"block_size\":256,\"run\":0,\"runtime\":0.000123}"
    );
}

#[test]
fn program_of_a_large_file_read() {
    let v = Variant {
        granularity: Granularity::LargeFile,
        operation: Operation::Read,
        order: Order::Reversed,
    };
    assert_eq!(
        program(v),
        vec![
            Segment::Open { mode: OpenMode::Create },
            Segment::Blocks { pass: Pass::Write { mode: OpenMode::Create }, order: Order::InOrder },
            Segment::Close,
            Segment::Open { mode: OpenMode::ReadOnly },
            Segment::StartClock,
            Segment::Blocks { pass: Pass::Read, order: Order::Reversed },
            Segment::StopClock,
            Segment::Close,
            Segment::Open { mode: OpenMode::Create },
            Segment::Truncate,
            Segment::Close,
        ]
    );
}

#[test]
fn program_of_a_large_file_update() {
    let v = Variant {
        granularity: Granularity::LargeFile,
        operation: Operation::Update,
        order: Order::InOrder,
    };
    assert_eq!(
        program(v),
        vec![
            Segment::Open { mode: OpenMode::Create },
            Segment::Blocks { pass: Pass::Write { mode: OpenMode::Create }, order: Order::InOrder },
            Segment::Close,
            Segment::Open { mode: OpenMode::WriteOnly },
            Segment::Reseed,
            Segment::StartClock,
            Segment::Blocks { pass: Pass::Write { mode: OpenMode::Create }, order: Order::InOrder },
            Segment::Flush,
            Segment::StopClock,
            Segment::Truncate,
            Segment::Close,
        ]
    );
}

#[test]
fn program_of_a_small_file_update() {
    let v = Variant {
        granularity: Granularity::SmallFiles,
        operation: Operation::Update,
        order: Order::Random,
    };
    assert_eq!(
        program(v),
        vec![
            Segment::MakeDir,
            Segment::Blocks {
                pass: Pass::Write { mode: OpenMode::CreateReadable },
                order: Order::InOrder
            },
            Segment::Reseed,
            Segment::StartClock,
            Segment::Blocks { pass: Pass::Write { mode: OpenMode::WriteOnly }, order: Order::Random },
            Segment::StopClock,
            Segment::Blocks { pass: Pass::Truncate, order: Order::InOrder },
        ]
    );
}
