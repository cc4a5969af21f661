use std::collections::{BTreeMap, BTreeSet};

use fsbench::engine::{Benchmark, Step};
use fsbench::geometry::Order;
use fsbench::prng::xorshift64;
use fsbench::registry::{all_variants, lookup, Granularity, Operation, Variant};
use fsbench::script::OpenMode;

/// A filesystem in memory, which performs the steps of a benchmark and fails
/// where the real one would.
#[derive(Default)]
struct Disk {
    dirs: BTreeSet<String>,
    files: BTreeMap<String, Vec<u8>>,
    open: Option<(String, OpenMode)>,
    position: usize,
    clock_running: bool,
    clock_runs: usize,
    /// Every step performed, and whether the clock was running.
    log: Vec<(Step, bool)>,
    /// The largest size each file ever had.
    peak: BTreeMap<String, usize>,
    /// Every offset at which a write or read began.
    touched: Vec<(String, usize, usize)>,
}

impl Disk {
    fn perform(&mut self, step: &Step, buffer: &[u8]) {
        self.log.push((step.clone(), self.clock_running));
        match step {
            Step::MakeDir { path } => {
                // A directory that is there already is used again.
                self.dirs.insert(path.clone());
            }
            Step::Open { path, mode } => {
                assert!(self.open.is_none(), "a file is still open");
                match mode {
                    OpenMode::Create | OpenMode::CreateReadable => {
                        if let Some((dir, _)) = path.rsplit_once('/') {
                            assert!(dir == "/scratch" || self.dirs.contains(dir), "no directory");
                        }
                        self.files.insert(path.clone(), Vec::new());
                    }
                    OpenMode::WriteOnly | OpenMode::ReadOnly => {
                        assert!(self.files.contains_key(path), "no such file");
                    }
                }
                self.open = Some((path.clone(), *mode));
                self.position = 0;
            }
            Step::Seek { offset } => {
                assert!(self.open.is_some());
                self.position = *offset as usize;
            }
            Step::Write { len } => {
                let (path, mode) = self.open.clone().expect("no open file");
                assert!(mode != OpenMode::ReadOnly, "not open for writing");
                let data = &buffer[..*len];
                let file = self.files.get_mut(&path).unwrap();
                if file.len() < self.position + data.len() {
                    file.resize(self.position + data.len(), 0);
                }
                file[self.position..self.position + data.len()].copy_from_slice(data);
                self.touched.push((path.clone(), self.position, data.len()));
                self.position += data.len();
                let size = file.len();
                let peak = self.peak.entry(path).or_insert(0);
                *peak = (*peak).max(size);
            }
            Step::Read { len } => {
                let (path, mode) = self.open.clone().expect("no open file");
                assert!(
                    mode == OpenMode::ReadOnly || mode == OpenMode::CreateReadable,
                    "not open for reading"
                );
                let file = &self.files[&path];
                assert!(self.position + len <= file.len(), "read past the end");
                self.touched.push((path, self.position, *len));
                self.position += len;
            }
            Step::Flush => assert!(self.open.is_some()),
            Step::Truncate => {
                let (path, mode) = self.open.clone().expect("no open file");
                assert!(mode != OpenMode::ReadOnly);
                self.files.get_mut(&path).unwrap().clear();
            }
            Step::Close => {
                assert!(self.open.take().is_some(), "no open file");
            }
            Step::StartClock => {
                assert!(!self.clock_running);
                self.clock_running = true;
            }
            Step::StopClock => {
                assert!(self.clock_running);
                self.clock_running = false;
                self.clock_runs += 1;
            }
        }
    }
}

fn run_on(mut disk: Disk, mut benchmark: Benchmark) -> Disk {
    while let Some(step) = benchmark.next() {
        disk.perform(&step, benchmark.buffer());
    }
    assert!(benchmark.next().is_none());
    disk
}

fn run(benchmark: Benchmark) -> Disk {
    run_on(Disk::default(), benchmark)
}

/// Runs until the clock stops, so that the files are as the measured phase
/// left them.
fn run_until_stop(mut benchmark: Benchmark) -> Disk {
    let mut disk = Disk::default();
    while let Some(step) = benchmark.next() {
        disk.perform(&step, benchmark.buffer());
        if step == Step::StopClock {
            break;
        }
    }
    disk
}

fn stream(skip: usize, len: usize) -> Vec<u8> {
    let mut prng = xorshift64(42);
    for _ in 0..skip {
        prng.next_u64();
    }
    (0..len).map(|_| prng.next_byte()).collect()
}

fn variant(granularity: Granularity, operation: Operation, order: Order) -> Variant {
    Variant { granularity, operation, order }
}

#[test]
fn write_inorder_1024_256() {
    let path = "/scratch/write_inorder_1024_256_0.txt".to_string();
    let benchmark = fsbench::large_file::write_inorder(1024, 256, 0);
    assert_eq!(benchmark.path(), &path);
    let disk = run(benchmark);
    assert_eq!(disk.peak[&path], 1024);
    assert_eq!(disk.files[&path].len(), 0);
    assert_eq!(disk.clock_runs, 1);
    assert!(disk.open.is_none());
    let steps: Vec<Step> = disk.log.iter().map(|(s, _)| s.clone()).collect();
    assert_eq!(
        steps,
        vec![
            Step::Open { path: path.clone(), mode: OpenMode::Create },
            Step::StartClock,
            Step::Write { len: 256 },
            Step::Write { len: 256 },
            Step::Write { len: 256 },
            Step::Write { len: 256 },
            Step::Flush,
            Step::StopClock,
            Step::Truncate,
            Step::Close,
        ]
    );
}

#[test]
fn write_inorder_content_is_the_stream() {
    let path = "/scratch/write_inorder_1024_256_0.txt".to_string();
    let disk = run_until_stop(fsbench::large_file::write_inorder(1024, 256, 0));
    assert_eq!(disk.files[&path], stream(0, 1024));
}

#[test]
fn write_inorder_with_a_short_final_block() {
    let path = "/scratch/write_inorder_1000_256_7.txt".to_string();
    let disk = run_until_stop(fsbench::large_file::write_inorder(1000, 256, 7));
    assert_eq!(disk.files[&path].len(), 1000);
    assert_eq!(disk.files[&path], stream(0, 1000));
    let lens: Vec<usize> = disk.touched.iter().map(|t| t.2).collect();
    assert_eq!(lens, vec![256, 256, 256, 232]);
}

#[test]
fn write_reversed_visits_the_same_offsets_backwards() {
    let forward = run(fsbench::large_file::write_inorder(1000, 256, 0));
    let backward = run(fsbench::large_file::write_reversed(1000, 256, 0));
    let mut f: Vec<(usize, usize)> = forward.touched.iter().map(|t| (t.1, t.2)).collect();
    let b: Vec<(usize, usize)> = backward.touched.iter().map(|t| (t.1, t.2)).collect();
    assert_eq!(b, vec![(768, 232), (512, 256), (256, 256), (0, 256)]);
    f.reverse();
    assert_eq!(f, b);
}

#[test]
fn write_reversed_seeks_before_every_write() {
    let path = "/scratch/write_reversed_512_256_0.txt".to_string();
    let disk = run(fsbench::large_file::write_reversed(512, 256, 0));
    let steps: Vec<Step> = disk.log.iter().map(|(s, _)| s.clone()).collect();
    assert_eq!(
        steps,
        vec![
            Step::Open { path, mode: OpenMode::Create },
            Step::StartClock,
            Step::Seek { offset: 256 },
            Step::Write { len: 256 },
            Step::Seek { offset: 0 },
            Step::Write { len: 256 },
            Step::Flush,
            Step::StopClock,
            Step::Truncate,
            Step::Close,
        ]
    );
}

#[test]
fn write_reversed_puts_the_first_bytes_drawn_into_the_last_block() {
    let path = "/scratch/write_reversed_1000_256_0.txt".to_string();
    let disk = run_until_stop(fsbench::large_file::write_reversed(1000, 256, 0));
    let file = &disk.files[&path];
    assert_eq!(file.len(), 1000);
    assert_eq!(file[768..1000], stream(0, 232)[..]);
    assert_eq!(file[512..768], stream(232, 256)[..]);
    assert_eq!(file[256..512], stream(488, 256)[..]);
    assert_eq!(file[0..256], stream(744, 256)[..]);
}

#[test]
fn write_reversed_of_two_bytes_differs_from_the_stream() {
    let path = "/scratch/write_reversed_2_1_0.txt".to_string();
    let disk = run_until_stop(fsbench::large_file::write_reversed(2, 1, 0));
    assert_eq!(disk.files[&path], vec![191, 170]);
    assert_eq!(stream(0, 2), vec![170, 191]);
}

#[test]
fn update_inorder_leaves_what_a_write_pass_leaves() {
    let path = "/scratch/update_inorder_1000_256_0.txt".to_string();
    let disk = run_until_stop(fsbench::large_file::update_inorder(1000, 256, 0));
    assert_eq!(disk.files[&path].len(), 1000);
    assert_eq!(disk.files[&path], stream(0, 1000));
    let written = run_until_stop(fsbench::large_file::write_inorder(1000, 256, 0));
    assert_eq!(disk.files[&path], written.files["/scratch/write_inorder_1000_256_0.txt"]);
}

#[test]
fn update_inorder_of_one_byte() {
    let path = "/scratch/update_inorder_1_1_0.txt".to_string();
    let disk = run_until_stop(fsbench::large_file::update_inorder(1, 1, 0));
    assert_eq!(disk.files[&path], vec![170]);
    let path = "/scratch/write_inorder_1_1_0.txt".to_string();
    let disk = run_until_stop(fsbench::large_file::write_inorder(1, 1, 0));
    assert_eq!(disk.files[&path], vec![170]);
}

#[test]
fn update_of_one_byte_in_any_order() {
    let disk = run_until_stop(fsbench::large_file::update_reversed(1, 1, 0));
    assert_eq!(disk.files["/scratch/update_reversed_1_1_0.txt"], vec![170]);
    let disk = run_until_stop(fsbench::small_files::update_inorder(1, 1, 0));
    assert_eq!(disk.files["/scratch/small_write_inorder_1_1_0/000000000.txt"], vec![170]);
    // In random order the first word chooses the block and the second fills
    // it, in an update as in a write.
    let disk = run_until_stop(fsbench::large_file::update_random(1, 1, 0));
    assert_eq!(disk.files["/scratch/update_random_1_1_0.txt"], vec![191]);
    let disk = run_until_stop(fsbench::large_file::write_random(1, 1, 0));
    assert_eq!(disk.files["/scratch/write_random_1_1_0.txt"], vec![191]);
}

#[test]
fn update_fills_the_file_before_the_clock_starts() {
    let path = "/scratch/update_reversed_512_256_1.txt".to_string();
    let disk = run(fsbench::large_file::update_reversed(512, 256, 1));
    let steps: Vec<(Step, bool)> = disk.log.clone();
    assert_eq!(
        steps,
        vec![
            (Step::Open { path: path.clone(), mode: OpenMode::Create }, false),
            (Step::Write { len: 256 }, false),
            (Step::Write { len: 256 }, false),
            (Step::Close, false),
            (Step::Open { path: path.clone(), mode: OpenMode::WriteOnly }, false),
            (Step::StartClock, false),
            (Step::Seek { offset: 256 }, true),
            (Step::Write { len: 256 }, true),
            (Step::Seek { offset: 0 }, true),
            (Step::Write { len: 256 }, true),
            (Step::Flush, true),
            (Step::StopClock, true),
            (Step::Truncate, false),
            (Step::Close, false),
        ]
    );
    assert_eq!(disk.files[&path].len(), 0);
}

#[test]
fn read_inorder_reads_exactly_what_was_written() {
    let path = "/scratch/read_inorder_1000_256_0.txt".to_string();
    let disk = run(fsbench::large_file::read_inorder(1000, 256, 0));
    let steps: Vec<(Step, bool)> = disk.log.clone();
    assert_eq!(
        steps,
        vec![
            (Step::Open { path: path.clone(), mode: OpenMode::Create }, false),
            (Step::Write { len: 256 }, false),
            (Step::Write { len: 256 }, false),
            (Step::Write { len: 256 }, false),
            (Step::Write { len: 232 }, false),
            (Step::Close, false),
            (Step::Open { path: path.clone(), mode: OpenMode::ReadOnly }, false),
            (Step::StartClock, false),
            (Step::Read { len: 256 }, true),
            (Step::Read { len: 256 }, true),
            (Step::Read { len: 256 }, true),
            (Step::Read { len: 232 }, true),
            (Step::StopClock, true),
            (Step::Close, false),
            (Step::Open { path: path.clone(), mode: OpenMode::Create }, false),
            (Step::Truncate, false),
            (Step::Close, false),
        ]
    );
    assert_eq!(disk.peak[&path], 1000);
    assert_eq!(disk.files[&path].len(), 0);
}

#[test]
fn read_leaves_the_written_content_alone() {
    let path = "/scratch/read_random_1000_256_0.txt".to_string();
    let disk = run_until_stop(fsbench::large_file::read_random(1000, 256, 0));
    assert_eq!(disk.files[&path], stream(0, 1000));
}

#[test]
fn random_offsets_are_block_starts_inside_the_data() {
    for (total, bs) in [(1000u64, 256usize), (1024, 256), (4096, 64), (10, 3), (5, 8), (1, 1)] {
        for benchmark in [
            fsbench::large_file::write_random(total, bs, 0),
            fsbench::large_file::update_random(total, bs, 0),
            fsbench::large_file::read_random(total, bs, 0),
        ] {
            let disk = run(benchmark);
            let mut seeks = 0;
            for (step, _) in &disk.log {
                if let Step::Seek { offset } = step {
                    assert_eq!(offset % bs as u64, 0);
                    assert!(*offset < total);
                    seeks += 1;
                }
            }
            assert_eq!(seeks as u64, (total + bs as u64 - 1) / bs as u64);
            for (_, offset, len) in &disk.touched {
                assert!((*offset + *len) as u64 <= total);
            }
        }
    }
}

#[test]
fn write_random_draws_the_block_and_then_its_content() {
    // Words of seed 42: the first chooses the block, the next 256 fill it.
    let disk = run(fsbench::large_file::write_random(1024, 256, 0));
    let first = (45454805674u64 % 4) as usize * 256;
    assert_eq!(disk.touched[0].1, first);
    let disk = run_until_stop(fsbench::large_file::write_random(1024, 256, 0));
    let mut prng = xorshift64(42);
    let mut expected: Vec<u8> = Vec::new();
    for _ in 0..4 {
        let block = (prng.next_u64() % 4) as usize;
        let data: Vec<u8> = (0..256).map(|_| prng.next_byte()).collect();
        if expected.len() < (block + 1) * 256 {
            expected.resize((block + 1) * 256, 0);
        }
        expected[block * 256..(block + 1) * 256].copy_from_slice(&data);
    }
    assert_eq!(disk.files["/scratch/write_random_1024_256_0.txt"], expected);
}

#[test]
fn random_may_repeat_and_skip_blocks() {
    let disk = run(fsbench::large_file::write_random(4096, 256, 0));
    let offsets: Vec<usize> = disk.touched.iter().map(|t| t.1).collect();
    assert_eq!(offsets.len(), 16);
    let distinct: BTreeSet<usize> = offsets.iter().cloned().collect();
    assert!(distinct.len() < 16);
}

#[test]
fn small_read_random_512_128() {
    let dir = "/scratch/small_write_random_512_128_0".to_string();
    let benchmark = fsbench::small_files::read_random(512, 128, 0);
    assert_eq!(benchmark.path(), &dir);
    let disk = run(benchmark);
    assert!(disk.dirs.contains(&dir));
    let names: Vec<String> = disk.files.keys().cloned().collect();
    assert_eq!(
        names,
        vec![
            format!("{}/000000000.txt", dir),
            format!("{}/000000001.txt", dir),
            format!("{}/000000002.txt", dir),
            format!("{}/000000003.txt", dir),
        ]
    );
    for name in &names {
        assert_eq!(disk.peak[name], 128);
        assert_eq!(disk.files[name].len(), 0);
    }
    assert_eq!(disk.clock_runs, 1);
}

#[test]
fn small_read_random_steps() {
    let dir = "/scratch/small_write_random_512_128_0";
    let disk = run(fsbench::small_files::read_random(512, 128, 0));
    let file = |i: u64| format!("{}/{:09x}.txt", dir, i);
    let mut expected: Vec<(Step, bool)> = vec![(Step::MakeDir { path: dir.to_string() }, false)];
    for i in 0..4 {
        expected.push((Step::Open { path: file(i), mode: OpenMode::CreateReadable }, false));
        expected.push((Step::Write { len: 128 }, false));
        expected.push((Step::Flush, false));
        expected.push((Step::Close, false));
    }
    expected.push((Step::StartClock, false));
    let mut prng = xorshift64(42);
    for _ in 0..512 {
        prng.next_u64();
    }
    for _ in 0..4 {
        let block = prng.next_u64() % 4;
        expected.push((Step::Open { path: file(block), mode: OpenMode::ReadOnly }, true));
        expected.push((Step::Read { len: 128 }, true));
        expected.push((Step::Close, true));
    }
    expected.push((Step::StopClock, true));
    for i in 0..4 {
        expected.push((Step::Open { path: file(i), mode: OpenMode::Create }, false));
        expected.push((Step::Truncate, false));
        expected.push((Step::Close, false));
    }
    assert_eq!(disk.log, expected);
}

#[test]
fn small_files_hold_the_stream_block_by_block() {
    let dir = "/scratch/small_write_inorder_1000_256_2";
    let disk = run_until_stop(fsbench::small_files::write_inorder(1000, 256, 2));
    let whole = stream(0, 1000);
    assert_eq!(disk.files.len(), 4);
    for i in 0..4usize {
        let name = format!("{}/{:09x}.txt", dir, i);
        let end = (256 * (i + 1)).min(1000);
        assert_eq!(disk.files[&name], whole[256 * i..end]);
    }
}

#[test]
fn small_update_reopens_write_only_inside_the_interval() {
    let dir = "/scratch/small_write_reversed_256_128_0";
    let disk = run(fsbench::small_files::update_reversed(256, 128, 0));
    let file = |i: u64| format!("{}/{:09x}.txt", dir, i);
    assert_eq!(
        disk.log,
        vec![
            (Step::MakeDir { path: dir.to_string() }, false),
            (Step::Open { path: file(0), mode: OpenMode::CreateReadable }, false),
            (Step::Write { len: 128 }, false),
            (Step::Flush, false),
            (Step::Close, false),
            (Step::Open { path: file(1), mode: OpenMode::CreateReadable }, false),
            (Step::Write { len: 128 }, false),
            (Step::Flush, false),
            (Step::Close, false),
            (Step::StartClock, false),
            (Step::Open { path: file(1), mode: OpenMode::WriteOnly }, true),
            (Step::Write { len: 128 }, true),
            (Step::Flush, true),
            (Step::Close, true),
            (Step::Open { path: file(0), mode: OpenMode::WriteOnly }, true),
            (Step::Write { len: 128 }, true),
            (Step::Flush, true),
            (Step::Close, true),
            (Step::StopClock, true),
            (Step::Open { path: file(0), mode: OpenMode::Create }, false),
            (Step::Truncate, false),
            (Step::Close, false),
            (Step::Open { path: file(1), mode: OpenMode::Create }, false),
            (Step::Truncate, false),
            (Step::Close, false),
        ]
    );
}

#[test]
fn small_write_creates_each_file_inside_the_interval() {
    let dir = "/scratch/small_write_inorder_256_128_5";
    let disk = run(fsbench::small_files::write_inorder(256, 128, 5));
    let file = |i: u64| format!("{}/{:09x}.txt", dir, i);
    assert_eq!(
        disk.log[..10],
        [
            (Step::MakeDir { path: dir.to_string() }, false),
            (Step::StartClock, false),
            (Step::Open { path: file(0), mode: OpenMode::Create }, true),
            (Step::Write { len: 128 }, true),
            (Step::Flush, true),
            (Step::Close, true),
            (Step::Open { path: file(1), mode: OpenMode::Create }, true),
            (Step::Write { len: 128 }, true),
            (Step::Flush, true),
            (Step::Close, true),
        ]
    );
}

#[test]
fn every_variant_runs_clean_and_leaves_empty_files() {
    for (total, bs) in [(0u64, 16usize), (1, 1), (7, 3), (64, 64), (100, 7), (5, 9), (1024, 256)] {
        for v in all_variants() {
            let disk = run(Benchmark::new(v, total, bs, 1));
            assert!(disk.open.is_none());
            assert!(!disk.clock_running);
            assert_eq!(disk.clock_runs, 1);
            for content in disk.files.values() {
                assert!(content.is_empty());
            }
            let starts = disk.log.iter().filter(|(s, _)| *s == Step::StartClock).count();
            assert_eq!(starts, 1);
            for (_, offset, len) in &disk.touched {
                assert!(*len > 0 && *len <= bs);
                assert!((*offset + *len) as u64 <= total.max(bs as u64));
            }
        }
    }
}

#[test]
fn fixture_and_cleanup_are_outside_the_interval() {
    for v in all_variants() {
        let disk = run(Benchmark::new(v, 100, 7, 0));
        let start = disk.log.iter().position(|(s, _)| *s == Step::StartClock).unwrap();
        let stop = disk.log.iter().position(|(s, _)| *s == Step::StopClock).unwrap();
        assert!(start < stop);
        let measured = &disk.log[start + 1..stop];
        let blocks = 15;
        let reads = measured.iter().filter(|(s, _)| matches!(s, Step::Read { .. })).count();
        let writes = measured.iter().filter(|(s, _)| matches!(s, Step::Write { .. })).count();
        match v.operation {
            Operation::Read => assert_eq!((reads, writes), (blocks, 0)),
            _ => assert_eq!((reads, writes), (0, blocks)),
        }
        let before = &disk.log[..start];
        let fixture_writes = before.iter().filter(|(s, _)| matches!(s, Step::Write { .. })).count();
        match v.operation {
            Operation::Write => assert_eq!(fixture_writes, 0),
            _ => assert_eq!(fixture_writes, blocks),
        }
        // A large file that was written is flushed last thing before the clock stops.
        if v.granularity == Granularity::LargeFile && v.operation != Operation::Read {
            assert_eq!(disk.log[stop - 1].0, Step::Flush);
        }
        let after = &disk.log[stop + 1..];
        assert!(after.iter().all(|(s, _)| !matches!(s, Step::Write { .. } | Step::Read { .. })));
    }
}

#[test]
fn the_fixture_is_the_write_pass() {
    let written = run_until_stop(fsbench::large_file::write_inorder(1000, 256, 0));
    let content = &written.files["/scratch/write_inorder_1000_256_0.txt"];
    for (benchmark, path) in [
        (fsbench::large_file::update_random(1000, 256, 0), "/scratch/update_random_1000_256_0.txt"),
        (fsbench::large_file::read_reversed(1000, 256, 0), "/scratch/read_reversed_1000_256_0.txt"),
    ] {
        let mut benchmark = benchmark;
        let mut disk = Disk::default();
        while let Some(step) = benchmark.next() {
            if step == Step::Close {
                break;
            }
            disk.perform(&step, benchmark.buffer());
        }
        assert_eq!(&disk.files[path], content);
    }
}

#[test]
fn unknown_mode_starts_nothing() {
    let mut disk = Disk::default();
    if let Some(v) = lookup("write_sideways") {
        let mut benchmark = Benchmark::new(v, 1024, 256, 0);
        while let Some(step) = benchmark.next() {
            disk.perform(&step, benchmark.buffer());
        }
    }
    assert!(disk.log.is_empty());
    assert!(disk.files.is_empty());
    assert!(disk.dirs.is_empty());
}

#[test]
fn named_constructors_match_the_registry() {
    let by_name = Benchmark::new(lookup("small_update_random").unwrap(), 300, 100, 2);
    let direct = fsbench::small_files::update_random(300, 100, 2);
    assert_eq!(run(by_name).log, run(direct).log);
    let by_name = Benchmark::new(
        variant(Granularity::LargeFile, Operation::Read, Order::Reversed),
        300,
        100,
        2,
    );
    let direct = fsbench::large_file::read_reversed(300, 100, 2);
    assert_eq!(run(by_name).log, run(direct).log);
}

#[test]
fn buffer_is_as_long_as_a_block() {
    let benchmark = fsbench::large_file::write_inorder(10, 64, 0);
    assert_eq!(benchmark.buffer().len(), 64);
}

#[test]
fn small_files_written_in_reverse_hold_the_stream_from_the_back() {
    let dir = "/scratch/small_write_reversed_1000_256_0";
    let disk = run_until_stop(fsbench::small_files::write_reversed(1000, 256, 0));
    let file = |i: u64| format!("{}/{:09x}.txt", dir, i);
    assert_eq!(disk.files[&file(3)], stream(0, 232));
    assert_eq!(disk.files[&file(2)], stream(232, 256));
    assert_eq!(disk.files[&file(1)], stream(488, 256));
    assert_eq!(disk.files[&file(0)], stream(744, 256));
}

#[test]
fn small_files_rewritten_hold_what_a_write_pass_leaves() {
    for (updated, written) in [
        (
            run_until_stop(fsbench::small_files::update_inorder(1000, 256, 0)),
            run_until_stop(fsbench::small_files::write_inorder(1000, 256, 0)),
        ),
        (
            run_until_stop(fsbench::small_files::update_reversed(1000, 256, 0)),
            run_until_stop(fsbench::small_files::write_reversed(1000, 256, 0)),
        ),
    ] {
        assert_eq!(updated.files.len(), 4);
        assert_eq!(updated.files, written.files);
    }
    let dir = "/scratch/small_write_inorder_1000_256_0";
    let disk = run_until_stop(fsbench::small_files::update_inorder(1000, 256, 0));
    let file = |i: u64| format!("{}/{:09x}.txt", dir, i);
    assert_eq!(disk.files[&file(0)], stream(0, 256));
    assert_eq!(disk.files[&file(3)], stream(768, 232));
    let dir = "/scratch/small_write_reversed_1000_256_0";
    let disk = run_until_stop(fsbench::small_files::update_reversed(1000, 256, 0));
    let file = |i: u64| format!("{}/{:09x}.txt", dir, i);
    assert_eq!(disk.files[&file(3)], stream(0, 232));
    assert_eq!(disk.files[&file(0)], stream(744, 256));
}

#[test]
fn small_files_that_are_read_keep_the_stream() {
    let dir = "/scratch/small_write_random_1000_256_0";
    let disk = run_until_stop(fsbench::small_files::read_random(1000, 256, 0));
    let file = |i: u64| format!("{}/{:09x}.txt", dir, i);
    let whole = stream(0, 1000);
    for i in 0..4usize {
        let end = (256 * (i + 1)).min(1000);
        assert_eq!(disk.files[&file(i as u64)], whole[256 * i..end]);
    }
}

#[test]
fn update_reversed_leaves_what_a_reversed_write_pass_leaves() {
    let path = "/scratch/update_reversed_1000_256_0.txt".to_string();
    let disk = run_until_stop(fsbench::large_file::update_reversed(1000, 256, 0));
    let file = &disk.files[&path];
    assert_eq!(file.len(), 1000);
    assert_eq!(file[768..1000], stream(0, 232)[..]);
    assert_eq!(file[0..256], stream(744, 256)[..]);
    let written = run_until_stop(fsbench::large_file::write_reversed(1000, 256, 0));
    assert_eq!(file, &written.files["/scratch/write_reversed_1000_256_0.txt"]);
}

#[test]
fn update_random_keeps_the_length_and_rewrites_whole_blocks() {
    for (total, bs) in [(1000usize, 256usize), (4096, 256), (10, 3), (7, 7), (1, 1)] {
        let updated = run_until_stop(fsbench::large_file::update_random(total as u64, bs, 0));
        let written = run_until_stop(fsbench::large_file::write_random(total as u64, bs, 0));
        let updated = &updated.files[&format!("/scratch/update_random_{}_{}_0.txt", total, bs)];
        let written = &written.files[&format!("/scratch/write_random_{}_{}_0.txt", total, bs)];
        let filled = stream(0, total);
        assert_eq!(updated.len(), total);
        let mut kept = 0;
        let mut rewritten = 0;
        for start in (0..total).step_by(bs) {
            let end = (start + bs).min(total);
            if updated[start..end] == filled[start..end] {
                kept += 1;
            } else {
                assert!(written.len() >= end);
                assert_eq!(updated[start..end], written[start..end]);
                rewritten += 1;
            }
        }
        assert_eq!(kept + rewritten, (total + bs - 1) / bs);
    }
}

#[test]
fn update_random_draws_as_write_random_draws() {
    let updated = run(fsbench::large_file::update_random(4096, 256, 0));
    let written = run(fsbench::large_file::write_random(4096, 256, 0));
    let measured: Vec<(usize, usize)> = updated.touched[16..].iter().map(|t| (t.1, t.2)).collect();
    let alone: Vec<(usize, usize)> = written.touched.iter().map(|t| (t.1, t.2)).collect();
    assert_eq!(measured, alone);
}

#[test]
fn a_second_run_with_the_same_parameters_uses_the_directory_again() {
    for v in all_variants() {
        let first = run(Benchmark::new(v, 1000, 256, 4));
        let files: Vec<String> = first.files.keys().cloned().collect();
        let dirs = first.dirs.clone();
        let steps = first.log.len();
        let second = run_on(first, Benchmark::new(v, 1000, 256, 4));
        assert_eq!(second.log.len(), 2 * steps);
        assert_eq!(second.dirs, dirs);
        assert_eq!(second.files.keys().cloned().collect::<Vec<String>>(), files);
        assert!(second.files.values().all(|content| content.is_empty()));
        assert!(second.open.is_none());
        assert_eq!(second.clock_runs, 2);
    }
}

#[test]
fn a_run_starts_over_what_an_earlier_run_of_another_kind_left() {
    let first = run_until_stop(fsbench::small_files::write_inorder(1000, 256, 0));
    let second = run_on(first, fsbench::small_files::read_inorder(1000, 256, 0));
    assert_eq!(second.files.len(), 4);
    assert!(second.files.values().all(|content| content.is_empty()));
}

#[test]
fn a_single_block_reads_the_same_in_both_directions() {
    let forward = run_until_stop(fsbench::large_file::write_inorder(100, 256, 0));
    let backward = run_until_stop(fsbench::large_file::write_reversed(100, 256, 0));
    assert_eq!(
        forward.files["/scratch/write_inorder_100_256_0.txt"],
        backward.files["/scratch/write_reversed_100_256_0.txt"]
    );
    assert_eq!(forward.files["/scratch/write_inorder_100_256_0.txt"], stream(0, 100));
}
