//! An in-memory virtual filesystem and the snapshot replay that populates
//! it.
//!
//! The filesystem is modelled as a map from virtual paths to nodes; a node
//! is `None` for a directory and `Some(bytes)` for a file. Creation is
//! strict: a path may be created once, only under an existing parent
//! directory, so replaying a snapshot is all-or-nothing — the first
//! instruction the filesystem rejects aborts the replay, and no partially
//! populated filesystem is handed back.

use vstd::prelude::*;

use crate::files::{DirEntry, EntryKind};
use crate::paths::{bytes_eq, clone_bytes, slash, virtual_root};
use crate::snapshot::{files_among, instruction_at, Instruction};

verus! {

/// One stored node: its virtual path, and its bytes if it is a file.
#[derive(Debug)]
struct FsEntry {
    path: Vec<u8>,
    content: Option<Vec<u8>>,
}

/// An in-memory virtual filesystem, initially empty, populated by replaying
/// snapshot instructions.
#[derive(Debug)]
pub struct MemoryFs {
    entries: Vec<FsEntry>,
}

/// The node a stored entry stands for: `None` a directory, `Some` the
/// file's bytes.
spec fn content_model(c: Option<Vec<u8>>) -> Option<Seq<u8>> {
    match c {
        Option::None => Option::None,
        Option::Some(v) => Option::Some(v@),
    }
}

/// The path-to-node map a stored entry list stands for.
spec fn map_of(s: Seq<FsEntry>) -> Map<Seq<u8>, Option<Seq<u8>>>
    decreases s.len(),
{
    if s.len() == 0 {
        Map::empty()
    } else {
        map_of(s.drop_last()).insert(s.last().path@, content_model(s.last().content))
    }
}

impl View for MemoryFs {
    type V = Map<Seq<u8>, Option<Seq<u8>>>;

    closed spec fn view(&self) -> Map<Seq<u8>, Option<Seq<u8>>> {
        map_of(self.entries@)
    }
}

proof fn lemma_map_of_contains(s: Seq<FsEntry>, k: Seq<u8>)
    ensures
        map_of(s).contains_key(k) <==> exists|i: int| 0 <= i < s.len() && s[i].path@ == k,
    decreases s.len(),
{
    if s.len() > 0 {
        lemma_map_of_contains(s.drop_last(), k);
        if map_of(s).contains_key(k) && s.last().path@ != k {
            let i = choose|i: int| 0 <= i < s.drop_last().len() && s.drop_last()[i].path@ == k;
            assert(s[i].path@ == k);
        }
        if exists|i: int| 0 <= i < s.len() && s[i].path@ == k {
            let i = choose|i: int| 0 <= i < s.len() && s[i].path@ == k;
            if i < s.len() - 1 {
                assert(s.drop_last()[i].path@ == k);
            }
        }
    }
}

/// No two stored entries share a path.
spec fn distinct_paths(s: Seq<FsEntry>) -> bool {
    forall|i: int, j: int| 0 <= i < j < s.len() ==> s[i].path@ != s[j].path@
}

proof fn lemma_map_of_value(s: Seq<FsEntry>, i: int)
    requires
        distinct_paths(s),
        0 <= i < s.len(),
    ensures
        map_of(s)[s[i].path@] == content_model(s[i].content),
    decreases s.len(),
{
    if i < s.len() - 1 {
        assert(s.drop_last()[i].path@ == s[i].path@);
        lemma_map_of_value(s.drop_last(), i);
    }
}

impl MemoryFs {
    /// A fresh, empty filesystem: nothing exists yet, not even the root.
    pub fn new() -> (r: MemoryFs)
        ensures
            r.wf(),
            r@ == Map::<Seq<u8>, Option<Seq<u8>>>::empty(),
    {
        MemoryFs { entries: Vec::new() }
    }

    /// The index holding `path`, if any.
    fn find(&self, path: &Vec<u8>) -> (r: Option<usize>)
        requires
            self.wf(),
        ensures
            match r {
                Option::Some(i) => i < self.entries@.len() && self.entries@[i as int].path@
                    == path@ && self@.contains_key(path@) && self@[path@] == content_model(
                    self.entries@[i as int].content,
                ),
                Option::None => !self@.contains_key(path@),
            },
    {
        let mut i: usize = 0;
        while i < self.entries.len()
            invariant
                self.wf(),
                i <= self.entries@.len(),
                forall|k: int| 0 <= k < i ==> self.entries@[k].path@ != path@,
            decreases self.entries@.len() - i,
        {
            if bytes_eq(&self.entries[i].path, path) {
                proof {
                    lemma_map_of_contains(self.entries@, path@);
                    lemma_map_of_value(self.entries@, i as int);
                }
                return Some(i);
            }
            i += 1;
        }
        proof {
            lemma_map_of_contains(self.entries@, path@);
        }
        None
    }

    /// Whether anything exists at `path`.
    pub fn node_exists(&self, path: &Vec<u8>) -> (r: bool)
        requires
            self.wf(),
        ensures
            r == self@.contains_key(path@),
    {
        match self.find(path) {
            Option::Some(_) => true,
            Option::None => false,
        }
    }
}

/// A well-formed virtual path: absolute, and not slash-terminated unless it
/// is the root itself.
pub open spec fn valid_vpath(p: Seq<u8>) -> bool {
    p.len() > 0 && p[0] == slash() && (p.len() == 1 || p.last() != slash())
}

/// Index of the last slash in `p`, or -1 if there is none.
pub open spec fn last_slash(p: Seq<u8>) -> int
    decreases p.len(),
{
    if p.len() == 0 {
        -1
    } else if p.last() == slash() {
        p.len() - 1
    } else {
        last_slash(p.drop_last())
    }
}

/// The parent directory path of `p`.
pub open spec fn parent_of(p: Seq<u8>) -> Seq<u8> {
    if last_slash(p) <= 0 {
        virtual_root()
    } else {
        p.take(last_slash(p))
    }
}

/// A directory may be created at `p` in model `m`: the path is well formed,
/// nothing is there yet, and — unless `p` is the root — its parent exists
/// as a directory.
pub open spec fn dir_creatable(m: Map<Seq<u8>, Option<Seq<u8>>>, p: Seq<u8>) -> bool {
    &&& valid_vpath(p)
    &&& !m.contains_key(p)
    &&& (p == virtual_root() || (m.contains_key(parent_of(p)) && m[parent_of(p)] is None))
}

/// A file may be created at `p` in model `m`.
pub open spec fn file_creatable(m: Map<Seq<u8>, Option<Seq<u8>>>, p: Seq<u8>) -> bool {
    &&& valid_vpath(p)
    &&& p != virtual_root()
    &&& !m.contains_key(p)
    &&& m.contains_key(parent_of(p)) && m[parent_of(p)] is None
}

/// Why the filesystem rejected an operation.
#[derive(Debug)]
pub enum VfsError {
    /// The path is not absolute, or is slash-terminated.
    InvalidPath { path: Vec<u8> },
    /// Something already exists at the path.
    AlreadyExists { path: Vec<u8> },
    /// The path's parent was never created as a directory. Under an
    /// ancestors-first instruction list this cannot happen; it marks an
    /// internal-consistency breach, not a normal runtime condition.
    HierarchyViolation { path: Vec<u8> },
    /// Nothing exists at the path.
    NotFound { path: Vec<u8> },
    /// The path names a directory, not a file.
    NotAFile { path: Vec<u8> },
}

/// The error that creating a directory at `p` reports on model `m`.
pub open spec fn create_dir_error(m: Map<Seq<u8>, Option<Seq<u8>>>, p: Seq<u8>, e: VfsError) -> bool {
    if !valid_vpath(p) {
        e matches VfsError::InvalidPath { path } && path@ == p
    } else if m.contains_key(p) {
        e matches VfsError::AlreadyExists { path } && path@ == p
    } else {
        e matches VfsError::HierarchyViolation { path } && path@ == p
    }
}

/// The error that creating a file at `p` reports on model `m`.
pub open spec fn create_file_error(
    m: Map<Seq<u8>, Option<Seq<u8>>>,
    p: Seq<u8>,
    e: VfsError,
) -> bool {
    if !valid_vpath(p) || p == virtual_root() {
        e matches VfsError::InvalidPath { path } && path@ == p
    } else if m.contains_key(p) {
        e matches VfsError::AlreadyExists { path } && path@ == p
    } else {
        e matches VfsError::HierarchyViolation { path } && path@ == p
    }
}

/// Whether `path` is a well-formed virtual path.
fn is_valid_path(path: &Vec<u8>) -> (r: bool)
    ensures
        r == valid_vpath(path@),
{
    if path.len() == 0 {
        return false;
    }
    if path[0] != 47u8 {
        return false;
    }
    if path.len() == 1 {
        return true;
    }
    path[path.len() - 1] != 47u8
}

/// Whether `path` is the virtual root `/`.
fn is_root(path: &Vec<u8>) -> (r: bool)
    ensures
        r == (path@ == virtual_root()),
{
    if path.len() == 1 && path[0] == 47u8 {
        proof {
            assert(path@ =~= virtual_root());
        }
        true
    } else {
        proof {
            assert(virtual_root().len() == 1 && virtual_root()[0] == slash());
        }
        false
    }
}

/// Compute the parent directory path of a well-formed virtual path.
fn parent_path(path: &Vec<u8>) -> (r: Vec<u8>)
    requires
        valid_vpath(path@),
    ensures
        r@ == parent_of(path@),
{
    let mut ls: usize = 0;
    let mut i: usize = 0;
    while i < path.len()
        invariant
            valid_vpath(path@),
            i <= path@.len(),
            i == 0 ==> ls == 0,
            i > 0 ==> ls as int == last_slash(path@.take(i as int)) && (ls as int) < i as int,
        decreases path@.len() - i,
    {
        if path[i] == 47u8 {
            ls = i;
        }
        proof {
            assert(path@.take(i as int + 1).drop_last() =~= path@.take(i as int));
        }
        i += 1;
    }
    proof {
        assert(path@.take(path@.len() as int) =~= path@);
    }
    if ls == 0 {
        let mut r: Vec<u8> = Vec::new();
        r.push(47u8);
        proof {
            assert(r@ =~= virtual_root());
        }
        r
    } else {
        let mut r: Vec<u8> = Vec::new();
        let mut j: usize = 0;
        while j < ls
            invariant
                j <= ls,
                (ls as int) < path@.len(),
                r@ == path@.take(j as int),
            decreases ls - j,
        {
            r.push(path[j]);
            proof {
                assert(path@.take(j as int + 1) =~= path@.take(j as int).push(path@[j as int]));
            }
            j += 1;
        }
        r
    }
}

/// The virtual filesystem interface that a snapshot replay populates.
///
/// An implementation promises exactly the strict creation semantics the
/// replay relies on: each creation either extends the path-to-node model by
/// the one new node, or reports why it was rejected and changes nothing.
pub trait FileSystem: View<V = Map<Seq<u8>, Option<Seq<u8>>>> + Sized {
    /// The implementation's structural invariant, preserved by every
    /// operation.
    spec fn wf(&self) -> bool;

    /// Create a directory at `path`; fails without touching the filesystem
    /// if the path is malformed, already taken, or parentless.
    fn create_dir(&mut self, path: &Vec<u8>) -> (r: Result<(), VfsError>)
        requires
            old(self).wf(),
        ensures
            final(self).wf(),
            match r {
                Result::Ok(_) => dir_creatable(old(self)@, path@) && final(self)@ == old(
                    self,
                )@.insert(path@, Option::None),
                Result::Err(e) => !dir_creatable(old(self)@, path@) && final(self)@ == old(self)@
                    && create_dir_error(old(self)@, path@, e),
            },
    ;

    /// Create a file at `path` holding a copy of `content`; fails without
    /// touching the filesystem if the path is malformed, already taken, or
    /// parentless.
    fn create_file(&mut self, path: &Vec<u8>, content: &Vec<u8>) -> (r: Result<(), VfsError>)
        requires
            old(self).wf(),
        ensures
            final(self).wf(),
            match r {
                Result::Ok(_) => file_creatable(old(self)@, path@) && final(self)@ == old(
                    self,
                )@.insert(path@, Option::Some(content@)),
                Result::Err(e) => !file_creatable(old(self)@, path@) && final(self)@ == old(self)@
                    && create_file_error(old(self)@, path@, e),
            },
    ;
}

impl FileSystem for MemoryFs {
    closed spec fn wf(&self) -> bool {
        distinct_paths(self.entries@)
    }

    fn create_dir(&mut self, path: &Vec<u8>) -> (r: Result<(), VfsError>) {
        if !is_valid_path(path) {
            return Err(VfsError::InvalidPath { path: clone_bytes(path) });
        }
        match self.find(path) {
            Option::Some(_) => {
                return Err(VfsError::AlreadyExists { path: clone_bytes(path) });
            },
            Option::None => {},
        }
        if !is_root(path) {
            let parent = parent_path(path);
            let parent_is_dir = match self.find(&parent) {
                Option::Some(i) => match &self.entries[i].content {
                    Option::None => true,
                    Option::Some(_) => false,
                },
                Option::None => false,
            };
            if !parent_is_dir {
                return Err(VfsError::HierarchyViolation { path: clone_bytes(path) });
            }
        }
        let ghost old_entries = self.entries@;
        self.entries.push(FsEntry { path: clone_bytes(path), content: Option::None });
        proof {
            lemma_map_of_contains(old_entries, path@);
            assert(self.entries@.drop_last() =~= old_entries);
            assert(forall|k: int| 0 <= k < old_entries.len() ==> old_entries[k].path@ != path@);
        }
        Ok(())
    }

    fn create_file(&mut self, path: &Vec<u8>, content: &Vec<u8>) -> (r: Result<(), VfsError>) {
        if !is_valid_path(path) || is_root(path) {
            return Err(VfsError::InvalidPath { path: clone_bytes(path) });
        }
        match self.find(path) {
            Option::Some(_) => {
                return Err(VfsError::AlreadyExists { path: clone_bytes(path) });
            },
            Option::None => {},
        }
        let parent = parent_path(path);
        let parent_is_dir = match self.find(&parent) {
            Option::Some(i) => match &self.entries[i].content {
                Option::None => true,
                Option::Some(_) => false,
            },
            Option::None => false,
        };
        if !parent_is_dir {
            return Err(VfsError::HierarchyViolation { path: clone_bytes(path) });
        }
        let ghost old_entries = self.entries@;
        self.entries.push(
            FsEntry { path: clone_bytes(path), content: Option::Some(clone_bytes(content)) },
        );
        proof {
            lemma_map_of_contains(old_entries, path@);
            assert(self.entries@.drop_last() =~= old_entries);
            assert(forall|k: int| 0 <= k < old_entries.len() ==> old_entries[k].path@ != path@);
        }
        Ok(())
    }
}

/// A reader over one file's bytes, as they stood when the file was opened.
#[derive(Debug)]
pub struct FileReader {
    content: Vec<u8>,
    pos: usize,
}

impl FileReader {
    /// The bytes of the opened file.
    pub closed spec fn bytes(&self) -> Seq<u8> {
        self.content@
    }

    /// How many bytes have been consumed so far.
    pub closed spec fn position(&self) -> int {
        self.pos as int
    }

    /// The reader's invariant: the position never passes the end.
    pub closed spec fn wf(&self) -> bool {
        self.pos <= self.content@.len()
    }
}

/// Read every byte remaining in `reader`.
pub fn read_all(reader: &mut FileReader) -> (r: Vec<u8>)
    requires
        old(reader).wf(),
    ensures
        final(reader).wf(),
        final(reader).bytes() == old(reader).bytes(),
        final(reader).position() == old(reader).bytes().len(),
        r@ == old(reader).bytes().skip(old(reader).position()),
{
    let mut r: Vec<u8> = Vec::new();
    while reader.pos < reader.content.len()
        invariant
            reader.content@ == old(reader).bytes(),
            old(reader).position() <= reader.pos as int <= reader.content@.len(),
            r@ == old(reader).bytes().subrange(old(reader).position(), reader.pos as int),
        decreases reader.content@.len() - reader.pos,
    {
        let b = reader.content[reader.pos];
        r.push(b);
        proof {
            assert(old(reader).bytes().subrange(old(reader).position(), reader.pos as int + 1)
                =~= old(reader).bytes().subrange(
                old(reader).position(),
                reader.pos as int,
            ).push(old(reader).bytes()[reader.pos as int]));
        }
        reader.pos = reader.pos + 1;
    }
    proof {
        assert(old(reader).bytes().subrange(
            old(reader).position(),
            old(reader).bytes().len() as int,
        ) =~= old(reader).bytes().skip(old(reader).position()));
    }
    r
}

impl MemoryFs {
    /// Open the file at `path` for reading.
    pub fn open_file(&self, path: &Vec<u8>) -> (r: Result<FileReader, VfsError>)
        requires
            self.wf(),
        ensures
            match r {
                Result::Ok(reader) => {
                    &&& self@.contains_key(path@)
                    &&& self@[path@] matches Option::Some(bytes) && reader.bytes() == bytes
                    &&& reader.wf()
                    &&& reader.position() == 0
                },
                Result::Err(e) => match e {
                    VfsError::NotFound { path: p } => p@ == path@ && !self@.contains_key(path@),
                    VfsError::NotAFile { path: p } => p@ == path@ && self@.contains_key(path@)
                        && self@[path@] is None,
                    _ => false,
                },
            },
    {
        match self.find(path) {
            Option::None => Err(VfsError::NotFound { path: clone_bytes(path) }),
            Option::Some(i) => match &self.entries[i].content {
                Option::None => Err(VfsError::NotAFile { path: clone_bytes(path) }),
                Option::Some(content) => Ok(FileReader { content: clone_bytes(content), pos: 0 }),
            },
        }
    }
}

/// What applying one instruction does to a filesystem model: the new model,
/// or nothing if the filesystem rejects the instruction.
pub open spec fn apply_model(m: Map<Seq<u8>, Option<Seq<u8>>>, inst: Instruction) -> Option<
    Map<Seq<u8>, Option<Seq<u8>>>,
> {
    match inst {
        Instruction::CreateDir(p) => if dir_creatable(m, p@) {
            Option::Some(m.insert(p@, Option::None))
        } else {
            Option::None
        },
        Instruction::CreateFile(p, c) => if file_creatable(m, p@) {
            Option::Some(m.insert(p@, Option::Some(c@)))
        } else {
            Option::None
        },
    }
}

/// The error a rejected instruction reports on model `m`.
pub open spec fn apply_error(m: Map<Seq<u8>, Option<Seq<u8>>>, inst: Instruction, e: VfsError) -> bool {
    match inst {
        Instruction::CreateDir(p) => create_dir_error(m, p@, e),
        Instruction::CreateFile(p, c) => create_file_error(m, p@, e),
    }
}

/// The filesystem model after replaying `insts` in order on `m`, or nothing
/// if some instruction is rejected along the way.
pub open spec fn replay_model(m: Map<Seq<u8>, Option<Seq<u8>>>, insts: Seq<Instruction>) -> Option<
    Map<Seq<u8>, Option<Seq<u8>>>,
>
    decreases insts.len(),
{
    if insts.len() == 0 {
        Option::Some(m)
    } else {
        match apply_model(m, insts[0]) {
            Option::None => Option::None,
            Option::Some(m2) => replay_model(m2, insts.skip(1)),
        }
    }
}

/// Replay splits at any point: the whole list behaves as its first `k`
/// instructions followed by the rest.
pub proof fn lemma_replay_decompose(m: Map<Seq<u8>, Option<Seq<u8>>>, insts: Seq<Instruction>, k: int)
    requires
        0 <= k <= insts.len(),
    ensures
        replay_model(m, insts) == (match replay_model(m, insts.take(k)) {
            Option::None => Option::None::<Map<Seq<u8>, Option<Seq<u8>>>>,
            Option::Some(mm) => replay_model(mm, insts.skip(k)),
        }),
    decreases k,
{
    if k == 0 {
        assert(insts.take(0) =~= Seq::<Instruction>::empty());
        assert(insts.skip(0) =~= insts);
    } else {
        assert(insts.take(k)[0] == insts[0]);
        match apply_model(m, insts[0]) {
            Option::None => {},
            Option::Some(m2) => {
                lemma_replay_decompose(m2, insts.skip(1), k - 1);
                assert(insts.take(k).skip(1) =~= insts.skip(1).take(k - 1));
                assert(insts.skip(1).skip(k - 1) =~= insts.skip(k));
            },
        }
    }
}

/// Extending a replayed prefix by one instruction applies that instruction.
pub proof fn lemma_replay_step(m: Map<Seq<u8>, Option<Seq<u8>>>, insts: Seq<Instruction>, i: int)
    requires
        0 <= i < insts.len(),
    ensures
        replay_model(m, insts.take(i + 1)) == (match replay_model(m, insts.take(i)) {
            Option::None => Option::None::<Map<Seq<u8>, Option<Seq<u8>>>>,
            Option::Some(mm) => apply_model(mm, insts[i]),
        }),
{
    lemma_replay_decompose(m, insts.take(i + 1), i);
    assert(insts.take(i + 1).take(i) =~= insts.take(i));
    assert(insts.take(i + 1).skip(i) =~= seq![insts[i]]);
    match replay_model(m, insts.take(i)) {
        Option::None => {},
        Option::Some(mm) => {
            assert(seq![insts[i]].skip(1) =~= Seq::<Instruction>::empty());
            match apply_model(mm, insts[i]) {
                Option::None => {
                    assert(replay_model(mm, seq![insts[i]]) is None);
                },
                Option::Some(m2) => {
                    assert(seq![insts[i]][0] == insts[i]);
                    assert(replay_model(m2, seq![insts[i]].skip(1)) == Option::Some(m2));
                    assert(replay_model(mm, seq![insts[i]]) == Option::Some(m2));
                },
            }
        },
    }
}

/// The first-failure report of a replay: which instruction the filesystem
/// rejected, and why.
#[derive(Debug)]
pub struct ReplayError {
    pub index: usize,
    pub error: VfsError,
}

/// Apply the full instruction list, in order, to `fs`.
///
/// All-or-nothing: either every instruction is applied and the populated
/// filesystem is returned, or the first rejected instruction is reported
/// and the partially populated filesystem is discarded.
pub fn load_into_vfs<FS: FileSystem>(instructions: &Vec<Instruction>, fs: FS) -> (r: Result<
    FS,
    ReplayError,
>)
    requires
        fs.wf(),
    ensures
        match r {
            Result::Ok(out) => out.wf() && replay_model(fs@, instructions@) == Option::Some(out@),
            Result::Err(e) => {
                &&& replay_model(fs@, instructions@) is None
                &&& e.index < instructions@.len()
                &&& replay_model(fs@, instructions@.take(e.index as int)) matches Option::Some(m)
                    && apply_model(m, instructions@[e.index as int]) is None && apply_error(
                    m,
                    instructions@[e.index as int],
                    e.error,
                )
            },
        },
{
    let mut cur = fs;
    let mut i: usize = 0;
    while i < instructions.len()
        invariant
            cur.wf(),
            i <= instructions@.len(),
            replay_model(fs@, instructions@.take(i as int)) == Option::Some(cur@),
        decreases instructions@.len() - i,
    {
        let inst = &instructions[i];
        let step = match inst {
            Instruction::CreateDir(p) => cur.create_dir(p),
            Instruction::CreateFile(p, c) => cur.create_file(p, c),
        };
        proof {
            lemma_replay_step(fs@, instructions@, i as int);
        }
        match step {
            Result::Ok(_) => {
                i += 1;
            },
            Result::Err(err) => {
                proof {
                    lemma_replay_decompose(fs@, instructions@, i as int);
                    assert(instructions@.skip(i as int).len() > 0);
                    assert(instructions@.skip(i as int)[0] == instructions@[i as int]);
                    assert(apply_model(cur@, instructions@[i as int]) is None);
                    assert(apply_error(cur@, instructions@[i as int], err));
                    assert(replay_model(cur@, instructions@.skip(i as int)) is None);
                    assert(replay_model(fs@, instructions@) is None);
                }
                return Err(ReplayError { index: i, error: err });
            },
        }
    }
    proof {
        assert(instructions@.take(instructions@.len() as int) =~= instructions@);
    }
    Ok(cur)
}

/// Law: a successful replay never disturbs a binding that already exists —
/// captured bytes are immutable once created.
pub proof fn lemma_replay_preserves(
    m: Map<Seq<u8>, Option<Seq<u8>>>,
    insts: Seq<Instruction>,
    k: Seq<u8>,
)
    requires
        replay_model(m, insts) is Some,
        m.contains_key(k),
    ensures
        replay_model(m, insts)->0.contains_key(k),
        replay_model(m, insts)->0[k] == m[k],
    decreases insts.len(),
{
    if insts.len() > 0 {
        let m2 = apply_model(m, insts[0])->0;
        lemma_replay_preserves(m2, insts.skip(1), k);
    }
}

/// Law (content fidelity): after a successful replay, the bytes found at a
/// file instruction's virtual path are exactly the bytes the snapshot
/// captured for it, whatever instructions follow.
pub proof fn lemma_content_fidelity(
    m: Map<Seq<u8>, Option<Seq<u8>>>,
    insts: Seq<Instruction>,
    i: int,
)
    requires
        replay_model(m, insts) is Some,
        0 <= i < insts.len(),
        insts[i] is CreateFile,
    ensures
        replay_model(m, insts)->0.contains_key(insts[i]->CreateFile_0@),
        replay_model(m, insts)->0[insts[i]->CreateFile_0@] == Option::Some(
            insts[i]->CreateFile_1@,
        ),
{
    lemma_replay_decompose(m, insts, i + 1);
    lemma_replay_step(m, insts, i);
    let mm = replay_model(m, insts.take(i + 1))->0;
    lemma_replay_preserves(mm, insts.skip(i + 1), insts[i]->CreateFile_0@);
}

/// The virtual path an instruction creates.
pub open spec fn instr_path(inst: Instruction) -> Seq<u8> {
    match inst {
        Instruction::CreateDir(p) => p@,
        Instruction::CreateFile(p, _) => p@,
    }
}

/// The node an instruction creates: `None` a directory, `Some` the file's
/// bytes.
pub open spec fn instr_node(inst: Instruction) -> Option<Seq<u8>> {
    match inst {
        Instruction::CreateDir(_) => Option::None,
        Instruction::CreateFile(_, c) => Option::Some(c@),
    }
}

/// `insts` is hierarchical: every path is well formed and created only
/// once, whatever stands at the root is a directory, and every non-root
/// path has its parent created, as a directory, strictly earlier. This is
/// the shape the scanner and builder derive from a complete,
/// ancestors-first walk.
pub open spec fn hierarchical(insts: Seq<Instruction>) -> bool {
    &&& forall|i: int| 0 <= i < insts.len() ==> valid_vpath(#[trigger] instr_path(insts[i]))
    &&& forall|i: int, j: int|
        0 <= i < j < insts.len() ==> instr_path(#[trigger] insts[i]) != instr_path(
            #[trigger] insts[j],
        )
    &&& forall|i: int|
        0 <= i < insts.len() && instr_path(#[trigger] insts[i]) == virtual_root()
            ==> insts[i] is CreateDir
    &&& forall|i: int|
        0 <= i < insts.len() && instr_path(#[trigger] insts[i]) != virtual_root() ==> exists|
            j: int,
        | 0 <= j < i && insts[j] is CreateDir && instr_path(insts[j]) == parent_of(
            instr_path(insts[i]),
        )
}

proof fn lemma_hierarchical_prefix(insts: Seq<Instruction>, k: int)
    requires
        hierarchical(insts),
        0 <= k <= insts.len(),
    ensures
        replay_model(Map::<Seq<u8>, Option<Seq<u8>>>::empty(), insts.take(k)) is Some,
        forall|j: int|
            0 <= j < k ==> replay_model(
                Map::<Seq<u8>, Option<Seq<u8>>>::empty(),
                insts.take(k),
            )->0.contains_key(instr_path(#[trigger] insts[j])) && replay_model(
                Map::<Seq<u8>, Option<Seq<u8>>>::empty(),
                insts.take(k),
            )->0[instr_path(insts[j])] == instr_node(insts[j]),
        forall|key: Seq<u8>|
            replay_model(
                Map::<Seq<u8>, Option<Seq<u8>>>::empty(),
                insts.take(k),
            )->0.contains_key(key) ==> exists|j: int| 0 <= j < k && instr_path(insts[j]) == key,
    decreases k,
{
    if k == 0 {
        assert(insts.take(0) =~= Seq::<Instruction>::empty());
    } else {
        lemma_hierarchical_prefix(insts, k - 1);
        lemma_replay_step(Map::<Seq<u8>, Option<Seq<u8>>>::empty(), insts, k - 1);
        let m = replay_model(Map::<Seq<u8>, Option<Seq<u8>>>::empty(), insts.take(k - 1))->0;
        let inst = insts[k - 1];
        let p = instr_path(inst);
        assert(valid_vpath(p));
        assert(!m.contains_key(p)) by {
            if m.contains_key(p) {
                let j = choose|j: int| 0 <= j < k - 1 && instr_path(insts[j]) == p;
                assert(instr_path(insts[j]) != instr_path(insts[k - 1]));
            }
        }
        if p != virtual_root() {
            let j = choose|j: int|
                0 <= j < k - 1 && insts[j] is CreateDir && instr_path(insts[j]) == parent_of(p);
            assert(m.contains_key(parent_of(p)) && m[parent_of(p)] is None);
        }
        match inst {
            Instruction::CreateDir(pp) => {
                assert(dir_creatable(m, pp@));
            },
            Instruction::CreateFile(pp, _) => {
                assert(inst is CreateFile && instr_path(insts[k - 1]) == pp@);
                assert(pp@ != virtual_root());
                assert(file_creatable(m, pp@));
            },
        }
        let mk = m.insert(p, instr_node(inst));
        assert(replay_model(Map::<Seq<u8>, Option<Seq<u8>>>::empty(), insts.take(k))
            == Option::Some(mk));
        assert forall|j: int| 0 <= j < k implies mk.contains_key(instr_path(#[trigger] insts[j]))
            && mk[instr_path(insts[j])] == instr_node(insts[j]) by {
            if j < k - 1 {
                assert(instr_path(insts[j]) != instr_path(insts[k - 1]));
            }
        }
    }
}

/// Law (hierarchy violations are defensive-only): a hierarchical
/// instruction list replays in full into a fresh filesystem — no
/// instruction is rejected, so in particular no `HierarchyViolation`
/// arises. Together with the scanner's ancestors-first and uniqueness laws
/// this shows the violation can only mark an internal-consistency breach,
/// never a normal outcome of replaying a scan.
pub proof fn lemma_hierarchical_replay_succeeds(insts: Seq<Instruction>)
    requires
        hierarchical(insts),
    ensures
        replay_model(Map::<Seq<u8>, Option<Seq<u8>>>::empty(), insts) is Some,
{
    lemma_hierarchical_prefix(insts, insts.len() as int);
    assert(insts.take(insts.len() as int) =~= insts);
}

/// Law (content fidelity, end to end): replaying a snapshot built from an
/// entry list puts, at every file entry's virtual path, exactly the bytes
/// that were captured for that entry at build time — later changes to the
/// host files cannot reach the materialized filesystem.
pub proof fn lemma_snapshot_fidelity(
    entries: Seq<DirEntry>,
    contents: Seq<Vec<u8>>,
    insts: Seq<Instruction>,
    m: Map<Seq<u8>, Option<Seq<u8>>>,
    i: int,
)
    requires
        insts.len() == entries.len(),
        forall|k: int| 0 <= k < entries.len() ==> instruction_at(entries, contents, k, #[trigger] insts[k]),
        replay_model(m, insts) is Some,
        0 <= i < entries.len(),
        entries[i].file_type == EntryKind::File,
    ensures
        replay_model(m, insts)->0.contains_key(entries[i].vfs_path@),
        replay_model(m, insts)->0[entries[i].vfs_path@] == Option::Some(
            contents[files_among(entries, i)]@,
        ),
{
    assert(instruction_at(entries, contents, i, insts[i]));
    lemma_content_fidelity(m, insts, i);
}

} // verus!
