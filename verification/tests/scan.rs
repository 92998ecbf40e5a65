use vfs_shadow::files::{dir_entries, DirEntry, EntryKind, RawEntry, ScanError, WalkOutcome};
use vfs_shadow::paths::{translate, PathExt};

fn raw(path: &str, is_dir: bool) -> RawEntry {
    RawEntry { path: path.as_bytes().to_vec(), is_dir }
}

fn entry_tuple(e: &DirEntry) -> (String, String, bool) {
    (
        String::from_utf8(e.real_path.clone()).unwrap(),
        String::from_utf8(e.vfs_path.clone()).unwrap(),
        e.file_type == EntryKind::File,
    )
}

#[test]
fn dir_entries_example_tree() {
    let base = "/home/user/project/example/vfs";
    let root = base.as_bytes().to_vec();
    let resolved = Ok(root.clone());
    let walk = WalkOutcome::Complete(vec![
        raw(base, true),
        raw(&format!("{base}/config.toml"), false),
        raw(&format!("{base}/data.json"), false),
        raw(&format!("{base}/README.md"), false),
        raw(&format!("{base}/some dir"), true),
        raw(&format!("{base}/some dir/ellie.txt"), false),
    ]);

    let entries = dir_entries(&root, &resolved, &walk).unwrap();
    let actual: Vec<(String, String, bool)> = entries.iter().map(entry_tuple).collect();
    let expected = vec![
        (base.to_string(), "/".to_string(), false),
        (format!("{base}/config.toml"), "/config.toml".to_string(), true),
        (format!("{base}/data.json"), "/data.json".to_string(), true),
        (format!("{base}/README.md"), "/README.md".to_string(), true),
        (format!("{base}/some dir"), "/some dir".to_string(), false),
        (format!("{base}/some dir/ellie.txt"), "/some dir/ellie.txt".to_string(), true),
    ];
    assert_eq!(actual, expected);
}

fn example_entries() -> Vec<DirEntry> {
    let base = "/home/user/project/example/vfs";
    let root = base.as_bytes().to_vec();
    let walk = WalkOutcome::Complete(vec![
        raw(base, true),
        raw(&format!("{base}/config.toml"), false),
        raw(&format!("{base}/some dir"), true),
        raw(&format!("{base}/some dir/ellie.txt"), false),
        raw(&format!("{base}/some dir/more"), true),
        raw(&format!("{base}/some dir/more/deep.txt"), false),
    ]);
    dir_entries(&root, &Ok(root.clone()), &walk).unwrap()
}

#[test]
fn ancestors_precede_descendants() {
    let entries = example_entries();
    for (i, e) in entries.iter().enumerate() {
        let vpath = String::from_utf8(e.vfs_path.clone()).unwrap();
        if vpath == "/" {
            continue;
        }
        let cut = vpath.rfind('/').unwrap();
        let parent = if cut == 0 { "/".to_string() } else { vpath[..cut].to_string() };
        let parent_index = entries
            .iter()
            .position(|p| p.vfs_path == parent.as_bytes().to_vec())
            .unwrap_or_else(|| panic!("no entry for the parent of {vpath}"));
        assert!(parent_index <= i, "parent of {vpath} listed after it");
        assert_eq!(entries[parent_index].file_type, EntryKind::Directory);
    }
}

#[test]
fn virtual_paths_are_unique() {
    let entries = example_entries();
    for i in 0..entries.len() {
        for j in 0..i {
            assert_ne!(entries[i].vfs_path, entries[j].vfs_path);
        }
    }
}

#[test]
fn dir_entries_reports_path_resolution_error() {
    let root = b"missing/dir".to_vec();
    let resolved = Err(b"no such file or directory".to_vec());
    let walk = WalkOutcome::Complete(Vec::new());

    match dir_entries(&root, &resolved, &walk) {
        Err(ScanError::PathResolution { path, cause }) => {
            assert_eq!(path, root);
            assert_eq!(cause, b"no such file or directory".to_vec());
        }
        other => panic!("expected a path resolution error, got {other:?}"),
    }
}

#[test]
fn dir_entries_reports_walk_error() {
    let root = b"/srv/data".to_vec();
    let resolved = Ok(root.clone());
    let walk = WalkOutcome::Interrupted {
        path: b"/srv/data/locked".to_vec(),
        cause: b"permission denied".to_vec(),
    };

    match dir_entries(&root, &resolved, &walk) {
        Err(ScanError::Walk { path, cause }) => {
            assert_eq!(path, b"/srv/data/locked".to_vec());
            assert_eq!(cause, b"permission denied".to_vec());
        }
        other => panic!("expected a walk error, got {other:?}"),
    }
}

#[test]
fn unixify_rewrites_backslashes() {
    let p: Vec<u8> = br"dir\sub\file.txt".to_vec();
    assert_eq!(p.unixify(), b"dir/sub/file.txt".to_vec());
    let q: Vec<u8> = b"already/unix".to_vec();
    assert_eq!(q.unixify(), b"already/unix".to_vec());
}

#[test]
fn translate_normalizes_separators() {
    let base: Vec<u8> = br"C:\snapshots\root".to_vec();
    let host: Vec<u8> = br"C:\snapshots\root\sub\note.txt".to_vec();
    let vpath = translate(&base, &host);
    assert_eq!(vpath, b"/sub/note.txt".to_vec());
    assert!(!vpath.contains(&b'\\'));
}

#[test]
fn translate_maps_base_to_root() {
    let base: Vec<u8> = b"/opt/assets".to_vec();
    assert_eq!(translate(&base, &base), b"/".to_vec());
    let child: Vec<u8> = b"/opt/assets/logo.png".to_vec();
    assert_eq!(translate(&base, &child), b"/logo.png".to_vec());
}
