use file_finder::{
    collect_files, Child, DirEntry, EntryKind, ErrorBehavior, FileFinderConfig, Notice, ReadError,
    Step, TraversalError,
};

type Pred = fn(&String) -> bool;

/// A directory tree held in memory.
enum Node {
    File(&'static str),
    Dir(&'static str, Vec<Node>),
    Link(&'static str),
    Unreadable(&'static str),
}

/// What a walk over a tree in memory did.
struct Walk {
    emitted: Vec<Child<usize, ()>>,
    log: Vec<Notice>,
    read: Vec<String>,
}

fn child(parent: &str, index: usize, node: &Node) -> Child<usize, ()> {
    let join = |name: &str| if parent.is_empty() { name.to_string() } else { format!("{}/{}", parent, name) };
    match node {
        Node::File(name) => Ok(DirEntry::new(join(name), EntryKind::File, index)),
        Node::Dir(name, _) => Ok(DirEntry::new(join(name), EntryKind::Dir, index)),
        Node::Link(name) => Ok(DirEntry::new(join(name), EntryKind::Symlink, index)),
        Node::Unreadable(name) => {
            Err(ReadError { message: format!("cannot read {}", join(name)), source: () })
        }
    }
}

/// Hands one directory's children to the finder, emits what comes back and
/// descends where the finder left the way open.
fn visit<F: Fn(&String) -> bool, S: Fn(&String) -> bool>(
    config: &FileFinderConfig<F, S>,
    parent: &str,
    nodes: &[Node],
    walk: &mut Walk,
) -> Result<(), TraversalError> {
    let mut batch: Vec<Child<usize, ()>> =
        nodes.iter().enumerate().map(|(index, node)| child(parent, index, node)).collect();
    walk.log.extend(config.process_read_dir(&mut batch)?);
    for child in batch {
        let below = match &child {
            Ok(entry) if entry.descend => Some((entry.path.clone(), entry.handle)),
            _ => None,
        };
        walk.emitted.push(child);
        if let Some((path, index)) = below {
            if let Node::Dir(_, children) = &nodes[index] {
                walk.read.push(path.clone());
                visit(config, &path, children, walk)?;
            }
        }
    }
    Ok(())
}

fn walk<F: Fn(&String) -> bool, S: Fn(&String) -> bool>(
    config: &FileFinderConfig<F, S>,
    tree: Node,
) -> Result<Walk, TraversalError> {
    let mut walk = Walk { emitted: vec![], log: vec![], read: vec![] };
    visit(config, "", &[tree], &mut walk)?;
    Ok(walk)
}

fn find_files<F: Fn(&String) -> bool, S: Fn(&String) -> bool>(
    config: FileFinderConfig<F, S>,
    cwd: Node,
) -> Vec<String> {
    match walk(&config, cwd) {
        Ok(walk) => collect_files(walk.emitted),
        Err(error) => panic!("{}", error.text()),
    }
}

fn test_folder() -> Node {
    Node::Dir(
        "test_folder",
        vec![
            Node::File("index.js"),
            Node::File("notes.txt"),
            Node::Dir("nested", vec![Node::File("deep.js")]),
            Node::Dir("this_is_not_scanned", vec![Node::File("not_found_sad_face.js")]),
        ],
    )
}

#[test]
fn filter_none_skip_none() {
    let found_files = find_files(
        FileFinderConfig {
            dir: None,
            filter: None::<Pred>,
            skipped_dirs: None::<Pred>,
            err_behavior: ErrorBehavior::Ignore,
        },
        test_folder(),
    );
    assert_eq!(4, found_files.len());
}

#[test]
fn filter_js_files_skip_none() {
    let found_files = find_files(
        FileFinderConfig {
            dir: None,
            filter: Some(|path: &String| path.ends_with(".js")),
            skipped_dirs: None::<Pred>,
            err_behavior: ErrorBehavior::Ignore,
        },
        test_folder(),
    );
    assert!(found_files.iter().all(|f| f.ends_with(".js")));
}

#[test]
fn filter_none_skip_directories() {
    let found_files = find_files(
        FileFinderConfig {
            dir: None,
            filter: None::<Pred>,
            skipped_dirs: Some(|path: &String| {
                if path.ends_with("this_is_not_scanned") {
                    return true;
                }
                false
            }),
            err_behavior: ErrorBehavior::Ignore,
        },
        test_folder(),
    );
    assert!(!found_files.iter().any(|f| f.ends_with("not_found_sad_face.js")));
}

#[test]
fn without_predicates_every_file_is_found_once() {
    let found = find_files(
        FileFinderConfig {
            dir: None,
            filter: None::<Pred>,
            skipped_dirs: None::<Pred>,
            err_behavior: ErrorBehavior::Ignore,
        },
        test_folder(),
    );
    assert_eq!(
        found,
        vec![
            "test_folder/index.js",
            "test_folder/notes.txt",
            "test_folder/nested/deep.js",
            "test_folder/this_is_not_scanned/not_found_sad_face.js",
        ]
    );
}

#[test]
fn js_filter_finds_the_js_files_and_no_others() {
    let found = find_files(
        FileFinderConfig {
            dir: None,
            filter: Some(|path: &String| path.ends_with(".js")),
            skipped_dirs: None::<Pred>,
            err_behavior: ErrorBehavior::Ignore,
        },
        test_folder(),
    );
    assert_eq!(
        found,
        vec![
            "test_folder/index.js",
            "test_folder/nested/deep.js",
            "test_folder/this_is_not_scanned/not_found_sad_face.js",
        ]
    );
}

#[test]
fn skipped_directory_is_emitted_and_never_read() {
    let config = FileFinderConfig {
        dir: None,
        filter: None::<Pred>,
        skipped_dirs: Some(|path: &String| path.ends_with("this_is_not_scanned")),
        err_behavior: ErrorBehavior::Ignore,
    };
    let walk = walk(&config, test_folder()).unwrap();
    assert_eq!(walk.read, vec!["test_folder", "test_folder/nested"]);
    assert!(walk.emitted.iter().any(|child| match child {
        Ok(entry) => entry.path == "test_folder/this_is_not_scanned" && !entry.descend,
        Err(_) => false,
    }));
    assert_eq!(
        collect_files(walk.emitted),
        vec!["test_folder/index.js", "test_folder/notes.txt", "test_folder/nested/deep.js"]
    );
}

#[test]
fn skipping_wins_whatever_the_filter_says() {
    let found = find_files(
        FileFinderConfig {
            dir: None,
            filter: Some(|path: &String| path.ends_with(".js")),
            skipped_dirs: Some(|path: &String| path.ends_with("this_is_not_scanned")),
            err_behavior: ErrorBehavior::Ignore,
        },
        test_folder(),
    );
    assert_eq!(found, vec!["test_folder/index.js", "test_folder/nested/deep.js"]);
}

#[test]
fn a_skipped_root_yields_nothing() {
    let found = find_files(
        FileFinderConfig {
            dir: None,
            filter: None::<Pred>,
            skipped_dirs: Some(|path: &String| path == "test_folder"),
            err_behavior: ErrorBehavior::Ignore,
        },
        test_folder(),
    );
    assert!(found.is_empty());
}

#[test]
fn a_root_that_is_a_file_is_the_result() {
    let config = FileFinderConfig {
        dir: None,
        filter: None::<Pred>,
        skipped_dirs: None::<Pred>,
        err_behavior: ErrorBehavior::Ignore,
    };
    assert_eq!(find_files(config, Node::File("lonely.txt")), vec!["lonely.txt"]);
}

#[test]
fn links_are_not_files() {
    let tree = Node::Dir("r", vec![Node::Link("to_somewhere"), Node::File("real")]);
    let config = FileFinderConfig {
        dir: None,
        filter: None::<Pred>,
        skipped_dirs: None::<Pred>,
        err_behavior: ErrorBehavior::Ignore,
    };
    assert_eq!(find_files(config, tree), vec!["r/real"]);
}

#[test]
fn walking_twice_finds_the_same_files() {
    let config = FileFinderConfig {
        dir: None,
        filter: Some(|path: &String| !path.ends_with(".txt")),
        skipped_dirs: Some(|path: &String| path.ends_with("nested")),
        err_behavior: ErrorBehavior::Ignore,
    };
    let first = collect_files(walk(&config, test_folder()).unwrap().emitted);
    let second = collect_files(walk(&config, test_folder()).unwrap().emitted);
    assert_eq!(first, second);
    assert_eq!(
        first,
        vec!["test_folder/index.js", "test_folder/this_is_not_scanned/not_found_sad_face.js"]
    );
}

fn damaged_folder() -> Node {
    Node::Dir(
        "r",
        vec![
            Node::File("a.js"),
            Node::Dir("sub", vec![Node::File("b.js"), Node::Unreadable("locked"), Node::File("c.txt")]),
            Node::File("d.js"),
        ],
    )
}

#[test]
fn ignore_walks_past_an_unreadable_child() {
    let config = FileFinderConfig {
        dir: None,
        filter: None::<Pred>,
        skipped_dirs: None::<Pred>,
        err_behavior: ErrorBehavior::Ignore,
    };
    let walk = walk(&config, damaged_folder()).unwrap();
    assert!(walk.log.is_empty());
    assert_eq!(walk.emitted.iter().filter(|child| child.is_err()).count(), 1);
    assert_eq!(collect_files(walk.emitted), vec!["r/a.js", "r/sub/b.js", "r/sub/c.txt", "r/d.js"]);
}

#[test]
fn log_walks_past_an_unreadable_child_and_tells() {
    let config = FileFinderConfig {
        dir: None,
        filter: Some(|path: &String| path.ends_with(".js")),
        skipped_dirs: None::<Pred>,
        err_behavior: ErrorBehavior::Log,
    };
    let walk = walk(&config, damaged_folder()).unwrap();
    let lines: Vec<String> = walk.log.iter().map(|notice| notice.text()).collect();
    assert_eq!(
        lines,
        vec![
            "Error during Apply Skip operation cannot read r/sub/locked",
            "Error during Apply filter operation cannot read r/sub/locked",
        ]
    );
    assert_eq!(collect_files(walk.emitted), vec!["r/a.js", "r/sub/b.js", "r/d.js"]);
}

#[test]
fn panic_fails_the_whole_walk_on_an_unreadable_child() {
    let config = FileFinderConfig {
        dir: None,
        filter: None::<Pred>,
        skipped_dirs: None::<Pred>,
        err_behavior: ErrorBehavior::Panic,
    };
    match walk(&config, damaged_folder()) {
        Ok(_) => panic!("the walk went on"),
        Err(error) => {
            assert_eq!(
                error,
                TraversalError::ReadFailed(Notice {
                    step: Step::Skip,
                    message: "cannot read r/sub/locked".to_string(),
                })
            );
            assert_eq!(error.text(), "Error during Apply Skip operation cannot read r/sub/locked");
        }
    }
}

#[test]
fn panic_spares_a_walk_that_never_reads_the_unreadable_child() {
    let config = FileFinderConfig {
        dir: None,
        filter: None::<Pred>,
        skipped_dirs: Some(|path: &String| path.ends_with("sub")),
        err_behavior: ErrorBehavior::Panic,
    };
    assert_eq!(find_files(config, damaged_folder()), vec!["r/a.js", "r/d.js"]);
}
