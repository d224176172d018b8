use kmer_count::walker::{Attempt, Found, Walker};

#[test]
fn walker_without_paths_is_done() {
    let mut walker: Walker<&str> = Walker::new(Vec::new());
    assert_eq!(walker.current(), None);
    assert_eq!(walker.total(), 0);
    walker.record(Found::File { count: 3 });
    walker.record(Found::Directory { children: vec!["a"] });
    assert_eq!(walker.current(), None);
    assert_eq!(walker.total(), 0);
}

#[test]
fn path_is_tried_as_directory_first() {
    let walker = Walker::new(vec!["a", "b"]);
    assert_eq!(walker.current(), Some(&"b"));
    assert_eq!(walker.attempt(), Attempt::Directory);
}

#[test]
fn path_that_is_no_directory_is_tried_as_file() {
    let mut walker = Walker::new(vec!["a", "b"]);
    walker.record(Found::NotDirectory);
    assert_eq!(walker.current(), Some(&"b"));
    assert_eq!(walker.attempt(), Attempt::File);
    walker.record(Found::File { count: 7 });
    assert_eq!(walker.current(), Some(&"a"));
    assert_eq!(walker.attempt(), Attempt::Directory);
    assert_eq!(walker.total(), 7);
}

#[test]
fn path_that_is_neither_is_passed_over() {
    let mut walker = Walker::new(vec!["a", "b"]);
    walker.record(Found::NotDirectory);
    walker.record(Found::NotFile);
    assert_eq!(walker.current(), Some(&"a"));
    assert_eq!(walker.attempt(), Attempt::Directory);
    assert_eq!(walker.total(), 0);
    walker.record(Found::NotDirectory);
    walker.record(Found::File { count: 4 });
    assert_eq!(walker.current(), None);
    assert_eq!(walker.total(), 4);
}

#[test]
fn directory_gives_its_entries_to_visit() {
    let mut walker = Walker::new(vec!["root", "d"]);
    walker.record(Found::Directory { children: vec!["d/x", "d/y"] });
    assert_eq!(walker.attempt(), Attempt::Directory);
    assert_eq!(walker.current(), Some(&"d/y"));
    walker.record(Found::NotDirectory);
    walker.record(Found::File { count: 1 });
    assert_eq!(walker.current(), Some(&"d/x"));
    walker.record(Found::Directory { children: Vec::new() });
    assert_eq!(walker.current(), Some(&"root"));
    assert_eq!(walker.total(), 1);
}

#[test]
fn walker_ignores_what_answers_nothing() {
    let mut walker = Walker::new(vec![1u32]);
    walker.record(Found::File { count: 5 });
    walker.record(Found::NotFile);
    assert_eq!(walker.current(), Some(&1));
    assert_eq!(walker.attempt(), Attempt::Directory);
    assert_eq!(walker.total(), 0);
    walker.record(Found::NotDirectory);
    walker.record(Found::NotDirectory);
    walker.record(Found::Directory { children: vec![2, 3] });
    assert_eq!(walker.current(), Some(&1));
    assert_eq!(walker.attempt(), Attempt::File);
    walker.record(Found::File { count: 5 });
    assert_eq!(walker.current(), None);
    assert_eq!(walker.total(), 5);
}

#[test]
fn walker_knows_its_room() {
    let mut walker = Walker::new(vec!["a", "b", "c"]);
    walker.record(Found::NotDirectory);
    walker.record(Found::File { count: usize::MAX - 2 });
    walker.record(Found::NotDirectory);
    assert!(walker.can_record(&Found::File { count: 2 }));
    assert!(!walker.can_record(&Found::File { count: 3 }));
    assert!(walker.can_record(&Found::NotFile));
    walker.record(Found::File { count: 2 });
    assert_eq!(walker.total(), usize::MAX);
    assert!(walker.can_record(&Found::File { count: 3 }));
    walker.record(Found::NotDirectory);
    assert!(walker.can_record(&Found::File { count: 0 }));
    assert!(!walker.can_record(&Found::File { count: 1 }));
}

#[test]
fn walk_of_a_small_tree() {
    // root/ holds a (4 k-mers), sub/ and gone; sub/ holds b (6 k-mers).
    let mut walker = Walker::new(vec![String::from("root")]);
    let mut visited = Vec::new();
    while let Some(path) = walker.current().cloned() {
        let found = match (walker.attempt(), path.as_str()) {
            (Attempt::Directory, "root") => Found::Directory {
                children: vec![
                    String::from("root/a"),
                    String::from("root/sub"),
                    String::from("root/gone"),
                ],
            },
            (Attempt::Directory, "root/sub") => {
                Found::Directory { children: vec![String::from("root/sub/b")] }
            }
            (Attempt::Directory, _) => Found::NotDirectory,
            (Attempt::File, "root/a") => Found::File { count: 4 },
            (Attempt::File, "root/sub/b") => Found::File { count: 6 },
            (Attempt::File, _) => Found::NotFile,
        };
        if walker.attempt() == Attempt::Directory {
            visited.push(path);
        }
        assert!(walker.can_record(&found));
        walker.record(found);
    }
    assert_eq!(walker.total(), 10);
    assert_eq!(visited, vec!["root", "root/gone", "root/sub", "root/sub/b", "root/a"]);
}
