use fortuner::paths::{
    compare_paths, find_files, gather_files, resolve_paths, PathOrder, Probe, ProbeOutcome,
};

fn strings(items: &[&str]) -> Vec<String> {
    items.iter().map(|item| item.to_string()).collect()
}

fn file(path: &str) -> Probe {
    Probe { path: path.to_string(), outcome: ProbeOutcome::File }
}

fn missing(path: &str) -> Probe {
    Probe {
        path: path.to_string(),
        outcome: ProbeOutcome::Unreadable("No such file or directory (os error 2)".to_string()),
    }
}

fn inputs_dir() -> Probe {
    Probe {
        path: "./tests/inputs".to_string(),
        outcome: ProbeOutcome::Directory(strings(&[
            "./tests/inputs/jokes",
            "./tests/inputs/quotes",
            "./tests/inputs/empty/.gitkeep",
            "./tests/inputs/ascii-art",
            "./tests/inputs/literature",
        ])),
    }
}

#[test]
fn lib_test_find_files() {
    // Verify that the function finds a file known to exist
    let res = find_files(&vec![file("./tests/inputs/jokes")]);
    assert!(res.is_ok());

    let files = res.unwrap();
    assert_eq!(files.len(), 1);
    assert_eq!(files.get(0).unwrap(), "./tests/inputs/jokes");

    // Fails to find a bad file
    let res = find_files(&vec![missing("/path/does/not/exist")]);
    assert!(res.is_err());

    // Finds all the input files
    let res = find_files(&vec![inputs_dir()]);
    assert!(res.is_ok());

    // Check number and order of files
    let files = res.unwrap();
    assert_eq!(files.len(), 5);
    let first = files.get(0).unwrap();
    assert!(first.contains("ascii-art"));
    let last = files.last().unwrap();
    assert!(last.contains("quotes"));

    // Test for multiple sources, path must be unique and sorted
    let res = find_files(&vec![
        file("./tests/inputs/jokes"),
        file("./tests/inputs/ascii-art"),
        file("./tests/inputs/jokes"),
    ]);
    assert!(res.is_ok());
    let files = res.unwrap();
    assert_eq!(files.len(), 2);
    assert!(files.first().unwrap().ends_with("/ascii-art"));
    assert!(files.last().unwrap().ends_with("/jokes"));
}

#[test]
fn one_missing_path_fails_wherever_it_stands() {
    for position in 0..3 {
        let mut probes = vec![file("a"), inputs_dir()];
        probes.insert(position, missing("/path/does/not/exist"));
        let error = find_files(&probes).unwrap_err();
        assert_eq!(error.path, "/path/does/not/exist");
        assert_eq!(error.reason, "No such file or directory (os error 2)");
        assert_eq!(
            error.message(),
            "/path/does/not/exist: No such file or directory (os error 2)"
        );
    }
}

#[test]
fn the_first_failure_is_the_one_reported() {
    let probes = vec![file("a"), missing("first"), missing("second")];
    assert_eq!(gather_files(&probes).unwrap_err().path, "first");
}

#[test]
fn gathering_keeps_the_order_given() {
    let probes = vec![
        file("z"),
        Probe { path: "pipe".to_string(), outcome: ProbeOutcome::Other },
        Probe { path: "d".to_string(), outcome: ProbeOutcome::Directory(strings(&["d/b", "d/a"])) },
        file("z"),
    ];
    assert_eq!(gather_files(&probes).unwrap(), strings(&["z", "d/b", "d/a", "z"]));
    assert_eq!(find_files(&probes).unwrap(), strings(&["d/a", "d/b", "z"]));
}

#[test]
fn resolution_is_sorted_and_free_of_duplicates() {
    let found = strings(&["b", "a/b", "b", "a", "ab", "B", "", "a", "\u{e9}", "z"]);
    let resolved = resolve_paths(&found);
    assert_eq!(resolved, strings(&["", "B", "a", "a/b", "ab", "b", "z", "\u{e9}"]));
    for pair in resolved.windows(2) {
        assert!(pair[0] < pair[1]);
    }
}

#[test]
fn resolving_again_changes_nothing() {
    let found = strings(&["q", "j", "q", "a", "j"]);
    let once = resolve_paths(&found);
    let twice = resolve_paths(&once);
    assert_eq!(once, twice);
    assert_eq!(once, strings(&["a", "j", "q"]));
    assert!(resolve_paths(&Vec::new()).is_empty());
}

#[test]
fn paths_compare_byte_by_byte() {
    assert_eq!(compare_paths("jokes", "quotes"), PathOrder::Before);
    assert_eq!(compare_paths("quotes", "jokes"), PathOrder::After);
    assert_eq!(compare_paths("jokes", "jokes"), PathOrder::Same);
    assert_eq!(compare_paths("a", "ab"), PathOrder::Before);
    assert_eq!(compare_paths("ab", "a"), PathOrder::After);
    assert_eq!(compare_paths("", ""), PathOrder::Same);
    assert_eq!(compare_paths("Z", "a"), PathOrder::Before);
    assert_eq!(compare_paths("z", "\u{e9}"), PathOrder::Before);
}
