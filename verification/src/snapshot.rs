//! Snapshot builder: a pure transform from the scanner's ordered entry list
//! to the ordered construction instruction list, one instruction per entry,
//! input order preserved exactly — no reordering, no deduplication.

use vstd::prelude::*;

use crate::files::{DirEntry, EntryKind};
use crate::paths::clone_bytes;

verus! {

/// One step of virtual filesystem construction.
#[derive(Debug)]
pub enum Instruction {
    /// Create the directory at the virtual path.
    CreateDir(Vec<u8>),
    /// Create a file at the virtual path, holding the given bytes as
    /// captured from the entry's host path at build time.
    CreateFile(Vec<u8>, Vec<u8>),
}

/// How many of the first `n` entries are files.
pub open spec fn files_among(entries: Seq<DirEntry>, n: int) -> int
    decreases n,
{
    if n <= 0 {
        0
    } else {
        files_among(entries, n - 1) + if entries[n - 1].file_type == EntryKind::File {
            1int
        } else {
            0int
        }
    }
}

/// Counting files over a longer prefix only adds files.
pub proof fn lemma_files_among_mono(entries: Seq<DirEntry>, a: int, b: int)
    requires
        a <= b,
    ensures
        files_among(entries, a) <= files_among(entries, b),
        files_among(entries, b) - files_among(entries, a) <= b - a,
    decreases b - a,
{
    if a < b {
        lemma_files_among_mono(entries, a, b - 1);
    }
}

/// `inst` is exactly the instruction derived from entry `i`: a directory
/// entry yields its `CreateDir`, a file entry yields its `CreateFile` with
/// the bytes captured for it (the next unconsumed element of `contents`).
pub open spec fn instruction_at(
    entries: Seq<DirEntry>,
    contents: Seq<Vec<u8>>,
    i: int,
    inst: Instruction,
) -> bool {
    match entries[i].file_type {
        EntryKind::Directory => inst matches Instruction::CreateDir(p) && p@
            == entries[i].vfs_path@,
        EntryKind::File => inst matches Instruction::CreateFile(p, c) && p@
            == entries[i].vfs_path@ && c@ == contents[files_among(entries, i)]@,
    }
}

/// Derive the ordered instruction list from the ordered entry list.
///
/// `contents[k]` holds the bytes captured at build time from the host path
/// of the `k`-th file entry; capturing them once here is what makes the
/// snapshot immune to later changes of the on-disk files.
pub fn build_instructions(entries: &Vec<DirEntry>, contents: &Vec<Vec<u8>>) -> (r: Vec<
    Instruction,
>)
    requires
        contents@.len() == files_among(entries@, entries@.len() as int),
    ensures
        r@.len() == entries@.len(),
        forall|i: int|
            0 <= i < entries@.len() ==> instruction_at(entries@, contents@, i, #[trigger] r@[i]),
{
    let mut r: Vec<Instruction> = Vec::new();
    let mut nf: usize = 0;
    let mut i: usize = 0;
    while i < entries.len()
        invariant
            i <= entries@.len(),
            r@.len() == i,
            contents@.len() == files_among(entries@, entries@.len() as int),
            nf == files_among(entries@, i as int),
            forall|k: int| 0 <= k < i ==> instruction_at(entries@, contents@, k, #[trigger] r@[k]),
        decreases entries@.len() - i,
    {
        let e = &entries[i];
        match e.file_type {
            EntryKind::Directory => {
                r.push(Instruction::CreateDir(clone_bytes(&e.vfs_path)));
            },
            EntryKind::File => {
                let clen: usize = contents.len();
                proof {
                    assert(files_among(entries@, i as int + 1) == files_among(entries@, i as int)
                        + 1);
                    lemma_files_among_mono(entries@, i as int + 1, entries@.len() as int);
                }
                let content = clone_bytes(&contents[nf]);
                r.push(Instruction::CreateFile(clone_bytes(&e.vfs_path), content));
                nf += 1;
            },
        }
        i += 1;
    }
    r
}

} // verus!
