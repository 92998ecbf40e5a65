//! Tree scanner: turns the outcome of a host directory walk into the ordered
//! entry list, with every host path translated to a virtual path.
//!
//! The host work itself — canonicalizing the root and enumerating the tree —
//! is input here, handed over as plain values: the resolved base path and the
//! raw walk report. The scanner decides what the outcome means: a resolution
//! failure aborts the scan at once, an interrupted walk aborts it with the
//! offending path, and a complete walk yields one entry per reported node, in
//! walk order, no node skipped and none invented.

use vstd::prelude::*;

use crate::paths::{
    canonical_under, clone_bytes, lemma_translate_ancestor, lemma_translate_injective,
    real_ancestor, translate, translate_seq, under_base, virtual_ancestor,
};

verus! {

/// Whether a scanned node is a file or a directory. Anything the host
/// reports as not a directory is treated as a file.
#[derive(Clone, Copy, PartialEq, Eq, Structural, Debug)]
pub enum EntryKind {
    Directory,
    File,
}

/// One node reported by the host walk: its canonicalized absolute path and
/// whether the host calls it a directory.
#[derive(Debug)]
pub struct RawEntry {
    pub path: Vec<u8>,
    pub is_dir: bool,
}

/// One scanned node: its host path, its derived virtual path, and its kind.
#[derive(Debug)]
pub struct DirEntry {
    pub real_path: Vec<u8>,
    pub vfs_path: Vec<u8>,
    pub file_type: EntryKind,
}

/// Why a scan failed. Both failures are fatal: a partial entry list would
/// silently break the snapshot's reproducibility guarantee.
#[derive(Debug)]
pub enum ScanError {
    /// The root path could not be resolved to an existing directory.
    PathResolution { path: Vec<u8>, cause: Vec<u8> },
    /// Enumerating the tree failed at the given path.
    Walk { path: Vec<u8>, cause: Vec<u8> },
}

/// How the host walk of the resolved base ended.
#[derive(Debug)]
pub enum WalkOutcome {
    /// Every node was enumerated, the base itself included, ancestors first.
    Complete(Vec<RawEntry>),
    /// Enumeration failed at the given path; no partial listing is kept.
    Interrupted { path: Vec<u8>, cause: Vec<u8> },
}

/// The kind a raw walk report maps to.
pub open spec fn kind_of(is_dir: bool) -> EntryKind {
    if is_dir {
        EntryKind::Directory
    } else {
        EntryKind::File
    }
}

/// `e` is exactly the entry derived from the raw report `raw` under `base`.
pub open spec fn entry_for(base: Seq<u8>, raw: RawEntry, e: DirEntry) -> bool {
    &&& e.real_path@ == raw.path@
    &&& e.vfs_path@ == translate_seq(base, raw.path@)
    &&& e.file_type == kind_of(raw.is_dir)
}

/// Produce the ordered entry list for one scan, or the error that aborts it.
///
/// `root` is the directory as requested. `resolved` is the outcome of
/// canonicalizing it on the host: the canonical base path, or the cause of
/// the failure. `walk` is the outcome of enumerating the resolved base.
pub fn dir_entries(root: &Vec<u8>, resolved: &Result<Vec<u8>, Vec<u8>>, walk: &WalkOutcome) -> (r:
    Result<Vec<DirEntry>, ScanError>)
    requires
        resolved matches Ok(base) ==> (*walk matches WalkOutcome::Complete(raws) ==> forall|
            i: int,
        |
            0 <= i < raws@.len() ==> under_base(base@, #[trigger] raws@[i].path@)),
    ensures
        match *resolved {
            Err(ref cause) => r matches Err(ScanError::PathResolution { path: p, cause: c })
                && p@ == root@ && c@ == cause@,
            Ok(ref base) => match *walk {
                WalkOutcome::Interrupted { ref path, ref cause } => r matches Err(
                    ScanError::Walk { path: p, cause: c },
                ) && p@ == path@ && c@ == cause@,
                WalkOutcome::Complete(ref raws) => r matches Ok(es) && es@.len() == raws@.len()
                    && forall|i: int|
                    0 <= i < raws@.len() ==> entry_for(base@, raws@[i], #[trigger] es@[i]),
            },
        },
{
    let base = match resolved {
        Err(cause) => {
            return Err(
                ScanError::PathResolution { path: clone_bytes(root), cause: clone_bytes(cause) },
            );
        },
        Ok(base) => base,
    };
    let raws = match walk {
        WalkOutcome::Interrupted { path, cause } => {
            return Err(ScanError::Walk { path: clone_bytes(path), cause: clone_bytes(cause) });
        },
        WalkOutcome::Complete(raws) => raws,
    };
    let mut entries: Vec<DirEntry> = Vec::new();
    let mut i: usize = 0;
    while i < raws.len()
        invariant
            i <= raws@.len(),
            entries@.len() == i,
            forall|k: int| 0 <= k < raws@.len() ==> under_base(base@, #[trigger] raws@[k].path@),
            forall|k: int| 0 <= k < i ==> entry_for(base@, raws@[k], #[trigger] entries@[k]),
        decreases raws@.len() - i,
    {
        let raw = &raws[i];
        let vfs_path = translate(base, &raw.path);
        let kind = if raw.is_dir {
            EntryKind::Directory
        } else {
            EntryKind::File
        };
        entries.push(
            DirEntry { real_path: clone_bytes(&raw.path), vfs_path, file_type: kind },
        );
        i += 1;
    }
    Ok(entries)
}

/// Law (ancestors precede descendants): if the walk reports every host
/// ancestor no later than its descendants — as a pre-order traversal does —
/// then in the derived entry list every entry whose virtual path is an
/// ancestor of another's stands no later than it.
pub proof fn lemma_ancestors_precede(
    base: Seq<u8>,
    raws: Seq<RawEntry>,
    entries: Seq<DirEntry>,
    i: int,
    j: int,
)
    requires
        entries.len() == raws.len(),
        forall|k: int| 0 <= k < raws.len() ==> entry_for(base, raws[k], #[trigger] entries[k]),
        forall|k: int| 0 <= k < raws.len() ==> canonical_under(base, #[trigger] raws[k].path@),
        forall|k: int, l: int|
            0 <= k < raws.len() && 0 <= l < raws.len() && real_ancestor(
                #[trigger] raws[k].path@,
                #[trigger] raws[l].path@,
            ) ==> k <= l,
        0 <= i < entries.len(),
        0 <= j < entries.len(),
        virtual_ancestor(entries[i].vfs_path@, entries[j].vfs_path@),
    ensures
        i <= j,
{
    lemma_translate_ancestor(base, raws[i].path@, raws[j].path@);
}

/// Law (uniqueness): distinct canonical host paths derive distinct virtual
/// paths, so no two entries of one scan share a virtual path.
pub proof fn lemma_virtual_paths_unique(
    base: Seq<u8>,
    raws: Seq<RawEntry>,
    entries: Seq<DirEntry>,
    i: int,
    j: int,
)
    requires
        entries.len() == raws.len(),
        forall|k: int| 0 <= k < raws.len() ==> entry_for(base, raws[k], #[trigger] entries[k]),
        forall|k: int| 0 <= k < raws.len() ==> canonical_under(base, #[trigger] raws[k].path@),
        forall|k: int, l: int|
            0 <= k < raws.len() && 0 <= l < raws.len() && k != l ==> #[trigger] raws[k].path@
                != #[trigger] raws[l].path@,
        0 <= i < entries.len(),
        0 <= j < entries.len(),
        entries[i].vfs_path@ == entries[j].vfs_path@,
    ensures
        i == j,
{
    lemma_translate_injective(base, raws[i].path@, raws[j].path@);
}

} // verus!

