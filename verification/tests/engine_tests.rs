use fortuner::engine::{load_corpus, respond, FileRead, ReadOutcome};
use fortuner::pattern::SearchPattern;

fn bytes(path: &str, content: &[u8]) -> FileRead {
    FileRead { path: path.to_string(), outcome: ReadOutcome::Bytes(content.to_vec()) }
}

fn failed(path: &str, reason: &str) -> FileRead {
    FileRead { path: path.to_string(), outcome: ReadOutcome::Failed(reason.to_string()) }
}

#[test]
fn a_file_that_cannot_be_opened_is_left_out_and_named() {
    let reads = vec![
        bytes("in/jokes", b"one\n%\ntwo\n%\n"),
        failed("in/locked", "Permission denied (os error 13)"),
        bytes("in/quotes", b"three\n%\n"),
    ];
    let (corpus, diagnostics) = load_corpus(&reads);
    let shown: Vec<(&str, &str)> =
        corpus.iter().map(|f| (f.source.as_str(), f.text.as_str())).collect();
    assert_eq!(shown, vec![("jokes", "one"), ("jokes", "two"), ("quotes", "three")]);
    assert_eq!(diagnostics.len(), 1);
    assert!(diagnostics[0].diagnostic);
    assert_eq!(diagnostics[0].text, "in/locked: Permission denied (os error 13)");
}

#[test]
fn nothing_read_gives_an_empty_corpus() {
    let (corpus, diagnostics) = load_corpus(&Vec::new());
    assert!(corpus.is_empty());
    assert!(diagnostics.is_empty());
    let (corpus, diagnostics) = load_corpus(&vec![failed("a", "gone"), failed("b", "gone")]);
    assert!(corpus.is_empty());
    assert_eq!(diagnostics.len(), 2);
    assert_eq!(diagnostics[1].text, "b: gone");
    let out = respond(&corpus, None, None);
    assert_eq!(out[0].text, "No fortunes found");
}

#[test]
fn search_runs_over_the_loaded_corpus() {
    let reads = vec![
        bytes("a/jokes", b"Foo one\n%\nbar\n%\nfoo two\n%\n"),
        bytes("b/quotes", b"a FOO\r\nover two lines\r\n%\r\nlost foo"),
    ];
    let (corpus, _) = load_corpus(&reads);
    assert_eq!(corpus.len(), 4);
    let pattern = SearchPattern::new("foo", true).unwrap();
    let out = respond(&corpus, Some(&pattern), None);
    let shown: Vec<(bool, &str)> = out.iter().map(|e| (e.diagnostic, e.text.as_str())).collect();
    assert_eq!(
        shown,
        vec![
            (true, "(jokes)\n%"),
            (false, "Foo one\n%"),
            (false, "foo two\n%"),
            (true, "(quotes)\n%"),
            (false, "a FOO\nover two lines\n%"),
        ]
    );
}
