use async_walkdir::{
    Action, Entry, ErrorKind, Event, FileType, Filtering, IgnoreDirs, NoFilter, Node, Outcome,
    PruneAt, Walker, drive_tree, walk_tree,
};

fn file(name: &str) -> Node {
    Node { name: name.to_string(), kind: FileType::File, children: Vec::new() }
}

fn dir(name: &str, children: Vec<Node>) -> Node {
    Node { name: name.to_string(), kind: FileType::Dir, children }
}

/// The sample tree used throughout: `f1.txt`, `d1/f2.txt`, `d1/d2/f3.txt`.
fn sample_root() -> Node {
    dir(
        "root",
        vec![
            file("f1.txt"),
            dir("d1", vec![file("f2.txt"), dir("d2", vec![file("f3.txt")])]),
        ],
    )
}

fn sorted_paths(entries: &[Entry]) -> Vec<Vec<String>> {
    let mut got: Vec<Vec<String>> = entries.iter().map(|e| e.path().clone()).collect();
    got.sort();
    got
}

fn path(components: &[&str]) -> Vec<String> {
    components.iter().map(|c| c.to_string()).collect()
}

#[test]
fn walk_dir_empty() {
    let root = dir("root", Vec::new());
    let out = walk_tree(&root, &NoFilter);
    assert!(out.is_empty());
    assert!(drive(&root, |_| Filtering::Continue).is_empty());
}

#[test]
fn walk_dir_not_exist() {
    let w = Walker::new();
    let (w, out) = w.step(Event::Pull);
    assert!(matches!(out, Outcome::Do(Action::OpenRoot)));
    let (w, out) = w.step(Event::RootOpened(Err(ErrorKind::NotFound)));
    match out {
        Outcome::Item(_) => panic!("want error"),
        Outcome::Error(e) => assert_eq!(e, ErrorKind::NotFound),
        _ => panic!("want error"),
    }
    let (_, out) = w.step(Event::Pull);
    assert!(matches!(out, Outcome::Finished));
}

#[test]
fn walk_dir_files() {
    let root = sample_root();
    let out = walk_tree(&root, &NoFilter);
    let want = vec![
        path(&["d1"]),
        path(&["d1", "d2"]),
        path(&["d1", "d2", "f3.txt"]),
        path(&["d1", "f2.txt"]),
        path(&["f1.txt"]),
    ];
    assert_eq!(sorted_paths(&out), want);
}

#[test]
fn filter_dirs() {
    let root = sample_root();
    let out = walk_tree(&root, &IgnoreDirs);
    let want = vec![
        path(&["d1", "d2", "f3.txt"]),
        path(&["d1", "f2.txt"]),
        path(&["f1.txt"]),
    ];
    assert_eq!(sorted_paths(&out), want);
}

#[test]
fn filter_dirs_no_traverse() {
    let root = sample_root();
    let filter = PruneAt { path: path(&["d1", "d2"]) };
    let out = walk_tree(&root, &filter);
    let want = vec![path(&["d1"]), path(&["d1", "f2.txt"]), path(&["f1.txt"])];
    assert_eq!(sorted_paths(&out), want);
}

#[test]
fn classification_is_idempotent() {
    let root = sample_root();
    let out = walk_tree(&root, &NoFilter);
    assert!(!out.is_empty());
    for e in &out {
        let first = e.file_type();
        let second = e.file_type();
        assert_eq!(first, second);
    }
}

#[test]
fn yielded_kinds_match_tree() {
    let root = sample_root();
    let out = walk_tree(&root, &NoFilter);
    for e in &out {
        let is_dir = e.path().last().map(|c| c.starts_with('d')).unwrap_or(false);
        if is_dir {
            assert_eq!(e.file_type(), FileType::Dir);
        } else {
            assert_eq!(e.file_type(), FileType::File);
        }
    }
}

/// Drives the verified walker over an in-memory tree, answering each action
/// the way a filesystem driver would, and collects what the walker yields.
fn drive<F>(root: &Node, filter: F) -> Vec<Result<Vec<String>, ErrorKind>>
where
    F: Fn(&Entry) -> Filtering,
{
    // One open "listing handle" per level: the children being listed, the
    // cursor, and the path components of the directory they belong to.
    let mut handles: Vec<(&Vec<Node>, usize, Vec<String>)> = Vec::new();
    let mut pending: Option<(&Node, Vec<String>)> = None;
    let mut items: Vec<Result<Vec<String>, ErrorKind>> = Vec::new();
    let mut walker = Walker::new();
    let mut event = Event::Pull;
    loop {
        let (next, out) = walker.step(event);
        walker = next;
        event = match out {
            Outcome::Do(Action::OpenRoot) => {
                handles.push((&root.children, 0, Vec::new()));
                Event::RootOpened(Ok(()))
            }
            Outcome::Do(Action::ReadTop) => {
                let top = handles.last_mut().expect("open handle");
                let children: &Vec<Node> = top.0;
                if top.1 < children.len() {
                    let node = &children[top.1];
                    top.1 += 1;
                    let mut p = top.2.clone();
                    p.push(node.name.clone());
                    pending = Some((node, p.clone()));
                    Event::TopRead(Some(Ok(p)))
                } else {
                    handles.pop();
                    Event::TopRead(None)
                }
            }
            Outcome::Do(Action::Classify) => {
                let node = pending.as_ref().expect("pending entry").0;
                Event::Classified(Ok(node.kind))
            }
            Outcome::Do(Action::RunFilter) => {
                let (node, p) = pending.as_ref().expect("pending entry");
                let entry = Entry::new(p.clone(), node.kind);
                Event::Verdict(filter(&entry))
            }
            Outcome::Do(Action::OpenSubdir) => {
                let node = pending.as_ref().expect("pending entry").0;
                let p = pending.as_ref().expect("pending entry").1.clone();
                handles.push((&node.children, 0, p));
                Event::SubdirOpened(Ok(()))
            }
            Outcome::Item(entry) => {
                items.push(Ok(entry.path().clone()));
                Event::Pull
            }
            Outcome::Error(e) => {
                items.push(Err(e));
                Event::Pull
            }
            Outcome::Finished => return items,
        };
    }
}

#[test]
fn engine_matches_tree_walk_unfiltered() {
    let root = sample_root();
    let driven: Vec<Vec<String>> =
        drive(&root, |_| Filtering::Continue).into_iter().map(|r| r.unwrap()).collect();
    let walked: Vec<Vec<String>> =
        walk_tree(&root, &NoFilter).iter().map(|e| e.path().clone()).collect();
    assert_eq!(driven, walked);
}

#[test]
fn engine_matches_tree_walk_filtered() {
    let root = sample_root();
    let driven: Vec<Vec<String>> = drive(&root, |e| {
        if e.file_type() == FileType::Dir { Filtering::Ignore } else { Filtering::Continue }
    })
    .into_iter()
    .map(|r| r.unwrap())
    .collect();
    let walked: Vec<Vec<String>> =
        walk_tree(&root, &IgnoreDirs).iter().map(|e| e.path().clone()).collect();
    assert_eq!(driven, walked);
}

#[test]
fn verified_driver_matches_tree_walk() {
    let root = sample_root();
    for paths in [
        (
            sorted_paths(&drive_tree(&root, &NoFilter)),
            sorted_paths(&walk_tree(&root, &NoFilter)),
        ),
        (
            sorted_paths(&drive_tree(&root, &IgnoreDirs)),
            sorted_paths(&walk_tree(&root, &IgnoreDirs)),
        ),
    ] {
        assert_eq!(paths.0, paths.1);
        assert!(!paths.0.is_empty());
    }
}

#[test]
fn engine_prunes_subtree() {
    let root = sample_root();
    let prune = path(&["d1", "d2"]);
    let mut driven: Vec<Vec<String>> = drive(&root, |e| {
        if e.path() == &prune { Filtering::IgnoreDir } else { Filtering::Continue }
    })
    .into_iter()
    .map(|r| r.unwrap())
    .collect();
    driven.sort();
    let want = vec![path(&["d1"]), path(&["d1", "f2.txt"]), path(&["f1.txt"])];
    assert_eq!(driven, want);
}

#[test]
fn read_error_is_surfaced_and_walk_goes_on() {
    // Root opens, the first read fails with a permission error, the walker
    // stays at the same level and the next pull keeps reading.
    let w = Walker::new();
    let (w, out) = w.step(Event::Pull);
    assert!(matches!(out, Outcome::Do(Action::OpenRoot)));
    let (w, out) = w.step(Event::RootOpened(Ok(())));
    assert!(matches!(out, Outcome::Do(Action::ReadTop)));
    let (w, out) = w.step(Event::TopRead(Some(Err(ErrorKind::PermissionDenied))));
    match out {
        Outcome::Error(e) => assert_eq!(e, ErrorKind::PermissionDenied),
        _ => panic!("want error"),
    }
    let (w, out) = w.step(Event::Pull);
    assert!(matches!(out, Outcome::Do(Action::ReadTop)));
    let (_, out) = w.step(Event::TopRead(None));
    assert!(matches!(out, Outcome::Finished));
}

#[test]
fn classify_error_drops_entry_and_walk_goes_on() {
    let w = Walker::new();
    let (w, _) = w.step(Event::Pull);
    let (w, _) = w.step(Event::RootOpened(Ok(())));
    let (w, out) = w.step(Event::TopRead(Some(Ok(path(&["gone.txt"])))));
    assert!(matches!(out, Outcome::Do(Action::Classify)));
    let (w, out) = w.step(Event::Classified(Err(ErrorKind::Other)));
    match out {
        Outcome::Error(e) => assert_eq!(e, ErrorKind::Other),
        _ => panic!("want error"),
    }
    let (w, out) = w.step(Event::Pull);
    assert!(matches!(out, Outcome::Do(Action::ReadTop)));
    let (_, out) = w.step(Event::TopRead(None));
    assert!(matches!(out, Outcome::Finished));
}

#[test]
fn unreadable_subdir_is_skipped_but_reported() {
    let w = Walker::new();
    let (w, _) = w.step(Event::Pull);
    let (w, _) = w.step(Event::RootOpened(Ok(())));
    let (w, _) = w.step(Event::TopRead(Some(Ok(path(&["locked"])))));
    let (w, out) = w.step(Event::Classified(Ok(FileType::Dir)));
    assert!(matches!(out, Outcome::Do(Action::RunFilter)));
    let (w, out) = w.step(Event::Verdict(Filtering::Continue));
    assert!(matches!(out, Outcome::Do(Action::OpenSubdir)));
    let (w, out) = w.step(Event::SubdirOpened(Err(ErrorKind::PermissionDenied)));
    match out {
        Outcome::Error(e) => assert_eq!(e, ErrorKind::PermissionDenied),
        _ => panic!("want error"),
    }
    // The failed directory was not pushed: the next read stays at the root
    // level and exhausting it finishes the walk.
    let (w, out) = w.step(Event::Pull);
    assert!(matches!(out, Outcome::Do(Action::ReadTop)));
    let (_, out) = w.step(Event::TopRead(None));
    assert!(matches!(out, Outcome::Finished));
}

#[test]
fn ignored_file_is_not_yielded() {
    let w = Walker::new();
    let (w, _) = w.step(Event::Pull);
    let (w, _) = w.step(Event::RootOpened(Ok(())));
    let (w, _) = w.step(Event::TopRead(Some(Ok(path(&["noise.tmp"])))));
    let (w, _) = w.step(Event::Classified(Ok(FileType::File)));
    let (w, out) = w.step(Event::Verdict(Filtering::Ignore));
    // Nothing is yielded: the walker goes straight back to reading.
    assert!(matches!(out, Outcome::Do(Action::ReadTop)));
    let (_, out) = w.step(Event::TopRead(None));
    assert!(matches!(out, Outcome::Finished));
}

#[test]
fn symlinks_are_not_descended() {
    let mut link = file("link");
    link.kind = FileType::Symlink;
    let root = dir("root", vec![link]);
    let out = walk_tree(&root, &NoFilter);
    assert_eq!(sorted_paths(&out), vec![path(&["link"])]);
    assert_eq!(out[0].file_type(), FileType::Symlink);
}
