//! A model of the files that a script works on, to say what a script leaves
//! behind.

use vstd::prelude::*;
use crate::script::{Op, OpenMode};

verus! {

/// The directories and the files by path, and the one file that is open
/// with its position.
pub struct Disk {
    pub dirs: Set<Seq<char>>,
    pub files: Map<Seq<char>, Seq<u8>>,
    pub open: Option<Seq<char>>,
    pub position: nat,
}

/// No directories, no files, nothing open.
pub open spec fn fresh() -> Disk {
    Disk { dirs: Set::empty(), files: Map::empty(), open: None, position: 0 }
}

/// `content` after `data` was written at `position`. A gap between the old
/// end and `position` reads as zeros.
pub open spec fn write_at(content: Seq<u8>, position: nat, data: Seq<u8>) -> Seq<u8> {
    Seq::new(
        if content.len() > position + data.len() {
            content.len()
        } else {
            position + data.len()
        },
        |i: int|
            if position <= i < position + data.len() {
                data[i - position]
            } else if i < content.len() {
                content[i]
            } else {
                0u8
            },
    )
}

/// The disk after one operation. Making a directory that is there already
/// changes nothing: what it holds stays.
pub open spec fn apply(disk: Disk, op: Op) -> Disk {
    match op {
        Op::MakeDir { path } => Disk { dirs: disk.dirs.insert(path), ..disk },
        Op::Open { path, mode } => Disk {
            files: if mode == OpenMode::Create || mode == OpenMode::CreateReadable {
                disk.files.insert(path, Seq::empty())
            } else {
                disk.files
            },
            open: Some(path),
            position: 0,
            ..disk
        },
        Op::Seek { offset } => Disk { position: offset, ..disk },
        Op::Write { data } => match disk.open {
            Some(path) => Disk {
                files: disk.files.insert(path, write_at(disk.files[path], disk.position, data)),
                position: disk.position + data.len(),
                ..disk
            },
            None => disk,
        },
        Op::Read { len } => Disk { position: disk.position + len, ..disk },
        Op::Truncate => match disk.open {
            Some(path) => Disk { files: disk.files.insert(path, Seq::empty()), ..disk },
            None => disk,
        },
        Op::Close => Disk { open: None, ..disk },
        _ => disk,
    }
}

/// The disk after a sequence of operations.
pub open spec fn replay(disk: Disk, ops: Seq<Op>) -> Disk
    decreases ops.len(),
{
    if ops.len() == 0 {
        disk
    } else {
        replay(apply(disk, ops[0]), ops.skip(1))
    }
}

/// Replaying two sequences one after the other is replaying their
/// concatenation.
pub proof fn lemma_replay_concat(disk: Disk, first: Seq<Op>, second: Seq<Op>)
    ensures
        replay(disk, first + second) == replay(replay(disk, first), second),
    decreases first.len(),
{
    if first.len() == 0 {
        assert(first + second =~= second);
    } else {
        assert((first + second).skip(1) =~= first.skip(1) + second);
        lemma_replay_concat(apply(disk, first[0]), first.skip(1), second);
    }
}

/// Replaying one operation applies it.
pub proof fn lemma_replay_one(disk: Disk, op: Op)
    ensures
        replay(disk, seq![op]) == apply(disk, op),
{
    assert(seq![op].skip(1) =~= Seq::<Op>::empty());
    assert(replay(apply(disk, op), Seq::<Op>::empty()) == apply(disk, op));
}

/// Replaying two operations applies one and then the other.
pub proof fn lemma_replay_two(disk: Disk, a: Op, b: Op)
    ensures
        replay(disk, seq![a, b]) == apply(apply(disk, a), b),
{
    assert(seq![a, b].skip(1) =~= seq![b]);
    lemma_replay_one(apply(disk, a), b);
}

/// Making a directory that is there already changes nothing.
pub proof fn lemma_make_dir_again(disk: Disk, path: Seq<char>)
    requires
        disk.dirs.contains(path),
    ensures
        apply(disk, Op::MakeDir { path }) == disk,
{
    assert(disk.dirs.insert(path) =~= disk.dirs);
}

} // verus!
