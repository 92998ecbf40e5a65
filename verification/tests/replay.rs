use vfs_shadow::files::{dir_entries, EntryKind, RawEntry, WalkOutcome};
use vfs_shadow::snapshot::{build_instructions, Instruction};
use vfs_shadow::vfs::{load_into_vfs, read_all, MemoryFs, VfsError};

fn dir(path: &str) -> Instruction {
    Instruction::CreateDir(path.as_bytes().to_vec())
}

fn file(path: &str, content: &[u8]) -> Instruction {
    Instruction::CreateFile(path.as_bytes().to_vec(), content.to_vec())
}

fn read_at(fs: &MemoryFs, path: &str) -> Vec<u8> {
    let mut reader = fs.open_file(&path.as_bytes().to_vec()).unwrap();
    read_all(&mut reader)
}

#[test]
fn build_instructions_one_per_entry() {
    let base = b"/srv/tree".to_vec();
    let walk = WalkOutcome::Complete(vec![
        RawEntry { path: b"/srv/tree".to_vec(), is_dir: true },
        RawEntry { path: b"/srv/tree/a.txt".to_vec(), is_dir: false },
        RawEntry { path: b"/srv/tree/sub".to_vec(), is_dir: true },
        RawEntry { path: b"/srv/tree/sub/b.txt".to_vec(), is_dir: false },
    ]);
    let entries = dir_entries(&base, &Ok(base.clone()), &walk).unwrap();
    assert_eq!(entries[0].file_type, EntryKind::Directory);

    let contents = vec![b"alpha".to_vec(), b"beta".to_vec()];
    let instructions = build_instructions(&entries, &contents);
    assert_eq!(instructions.len(), entries.len());
    match &instructions[0] {
        Instruction::CreateDir(p) => assert_eq!(p, &b"/".to_vec()),
        other => panic!("expected a directory instruction, got {other:?}"),
    }
    match &instructions[1] {
        Instruction::CreateFile(p, c) => {
            assert_eq!(p, &b"/a.txt".to_vec());
            assert_eq!(c, &b"alpha".to_vec());
        }
        other => panic!("expected a file instruction, got {other:?}"),
    }
    match &instructions[3] {
        Instruction::CreateFile(p, c) => {
            assert_eq!(p, &b"/sub/b.txt".to_vec());
            assert_eq!(c, &b"beta".to_vec());
        }
        other => panic!("expected a file instruction, got {other:?}"),
    }
}

#[test]
fn replay_of_nothing_yields_an_empty_filesystem() {
    let fs = load_into_vfs(&Vec::new(), MemoryFs::new()).unwrap();
    assert!(!fs.node_exists(&b"/".to_vec()));
}

#[test]
fn replay_round_trip_keeps_content() {
    let instructions = vec![
        dir("/"),
        file("/config.toml", b"[package]\nname = \"demo\"\n"),
        dir("/some dir"),
        file("/some dir/ellie.txt", b"hello from ellie"),
    ];
    let fs = load_into_vfs(&instructions, MemoryFs::new()).unwrap();

    assert_eq!(read_at(&fs, "/config.toml"), b"[package]\nname = \"demo\"\n".to_vec());
    assert_eq!(read_at(&fs, "/some dir/ellie.txt"), b"hello from ellie".to_vec());
    assert!(fs.node_exists(&b"/some dir".to_vec()));
    assert!(!fs.node_exists(&b"/missing".to_vec()));
}

#[test]
fn replay_is_all_or_nothing() {
    let instructions = vec![
        dir("/"),
        file("/a", b"first"),
        file("/a", b"second"),
        dir("/b"),
    ];
    let err = load_into_vfs(&instructions, MemoryFs::new()).unwrap_err();
    assert_eq!(err.index, 2);
    match err.error {
        VfsError::AlreadyExists { path } => assert_eq!(path, b"/a".to_vec()),
        other => panic!("expected an already-exists error, got {other:?}"),
    }
}

#[test]
fn replay_rejects_orphan_paths() {
    let instructions = vec![dir("/"), file("/lost/child.txt", b"x")];
    let err = load_into_vfs(&instructions, MemoryFs::new()).unwrap_err();
    assert_eq!(err.index, 1);
    match err.error {
        VfsError::HierarchyViolation { path } => assert_eq!(path, b"/lost/child.txt".to_vec()),
        other => panic!("expected a hierarchy violation, got {other:?}"),
    }

    let no_root = vec![file("/a.txt", b"x")];
    let err = load_into_vfs(&no_root, MemoryFs::new()).unwrap_err();
    assert_eq!(err.index, 0);
    assert!(matches!(err.error, VfsError::HierarchyViolation { .. }));
}

#[test]
fn replay_rejects_malformed_paths() {
    let relative = vec![dir("/"), file("not-absolute", b"x")];
    let err = load_into_vfs(&relative, MemoryFs::new()).unwrap_err();
    assert_eq!(err.index, 1);
    assert!(matches!(err.error, VfsError::InvalidPath { .. }));

    let trailing = vec![dir("/"), dir("/sub/")];
    let err = load_into_vfs(&trailing, MemoryFs::new()).unwrap_err();
    assert_eq!(err.index, 1);
    assert!(matches!(err.error, VfsError::InvalidPath { .. }));

    let file_as_root = vec![file("/", b"x")];
    let err = load_into_vfs(&file_as_root, MemoryFs::new()).unwrap_err();
    assert_eq!(err.index, 0);
    assert!(matches!(err.error, VfsError::InvalidPath { .. }));
}

#[test]
fn open_file_distinguishes_errors() {
    let fs = load_into_vfs(&vec![dir("/"), dir("/d")], MemoryFs::new()).unwrap();
    match fs.open_file(&b"/missing".to_vec()) {
        Err(VfsError::NotFound { path }) => assert_eq!(path, b"/missing".to_vec()),
        other => panic!("expected not-found, got {other:?}"),
    }
    match fs.open_file(&b"/d".to_vec()) {
        Err(VfsError::NotAFile { path }) => assert_eq!(path, b"/d".to_vec()),
        other => panic!("expected not-a-file, got {other:?}"),
    }
}

#[test]
fn read_all_consumes_the_reader() {
    let fs = load_into_vfs(&vec![dir("/"), file("/f", b"payload")], MemoryFs::new()).unwrap();
    let mut reader = fs.open_file(&b"/f".to_vec()).unwrap();
    assert_eq!(read_all(&mut reader), b"payload".to_vec());
    assert_eq!(read_all(&mut reader), Vec::<u8>::new());
}

#[test]
fn scan_build_replay_end_to_end() {
    let base = b"/build/assets".to_vec();
    let walk = WalkOutcome::Complete(vec![
        RawEntry { path: b"/build/assets".to_vec(), is_dir: true },
        RawEntry { path: b"/build/assets/data.json".to_vec(), is_dir: false },
        RawEntry { path: b"/build/assets/nested".to_vec(), is_dir: true },
        RawEntry { path: b"/build/assets/nested/deep.bin".to_vec(), is_dir: false },
    ]);
    let entries = dir_entries(&base, &Ok(base.clone()), &walk).unwrap();
    let captured = vec![b"{\"k\":1}".to_vec(), vec![0u8, 255u8, 7u8]];
    let instructions = build_instructions(&entries, &captured);
    let fs = load_into_vfs(&instructions, MemoryFs::new()).unwrap();

    assert_eq!(read_at(&fs, "/data.json"), b"{\"k\":1}".to_vec());
    assert_eq!(read_at(&fs, "/nested/deep.bin"), vec![0u8, 255u8, 7u8]);
}
