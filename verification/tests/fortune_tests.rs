use fortuner::fortune::{
    file_base_name, is_delimiter_line, join_range, parse_records, read_fortunes, Fortune,
    SourceFile,
};

fn lines(text: &str) -> Vec<String> {
    text.lines().map(|line| line.to_string()).collect()
}

fn jokes() -> SourceFile {
    SourceFile {
        path: "./tests/inputs/jokes".to_string(),
        lines: lines(
            "Q. What do you call a head of lettuce in a shirt and tie?\n\
             A. Collared greens.\n\
             %\n\
             Q: Why did the gardener quit his job?\n\
             A: His celery wasn't high enough.\n\
             %\n\
             Q. Why did the honeydew couple get married in a church?\n\
             A. Their parents told them they cantaloupe.\n\
             %\n\
             Q: What do you call a fake noodle?\n\
             A: An impasta.\n\
             %\n\
             Q: What did the ocean say to the beach?\n\
             A: Nothing, it just waved.\n\
             %\n\
             Q: What do you call a deer wearing an eye patch?\n\
             A: A bad idea (bad-eye deer).\n\
             %\n",
        ),
    }
}

fn quotes() -> SourceFile {
    SourceFile {
        path: "./tests/inputs/quotes".to_string(),
        lines: lines(
            "You cannot achieve the impossible without attempting the absurd.\n\
             %\n\
             Assumption is the mother of all screw-ups.\n\
             %\n\
             Neckties strangle clear thinking.\n\
             %\n\
             When one is tired of London, one is tired of life.\n\
             -- Samuel Johnson\n\
             %\n\
             Simplicity is the ultimate sophistication.\n\
             %\n",
        ),
    }
}

fn texts(corpus: &[Fortune]) -> Vec<&str> {
    corpus.iter().map(|fortune| fortune.text.as_str()).collect()
}

#[test]
fn test_read_fortunes() {
    // Parses all the fortunes without a filter
    let fortunes = read_fortunes(&vec![jokes()]);

    // Correct number and sorting
    assert_eq!(fortunes.len(), 6);
    assert_eq!(
        fortunes.first().unwrap().text,
        "Q. What do you call a head of lettuce in a shirt and tie?\n\
        A. Collared greens."
    );
    assert_eq!(
        fortunes.last().unwrap().text,
        "Q: What do you call a deer wearing an eye patch?\n\
        A: A bad idea (bad-eye deer)."
    );

    // Several files at once
    let fortunes = read_fortunes(&vec![jokes(), quotes()]);
    assert_eq!(fortunes.len(), 11);
}

#[test]
fn jokes_precede_quotes() {
    let fortunes = read_fortunes(&vec![jokes(), quotes()]);
    assert_eq!(fortunes.len(), 11);
    for fortune in &fortunes[..6] {
        assert_eq!(fortune.source, "jokes");
    }
    for fortune in &fortunes[6..] {
        assert_eq!(fortune.source, "quotes");
    }
    assert_eq!(fortunes[6].text, "You cannot achieve the impossible without attempting the absurd.");
}

#[test]
fn three_terminated_records_come_out_in_order() {
    let corpus = parse_records("letters", &lines("A\n%\nB\n%\nC\n%\n"));
    assert_eq!(texts(&corpus), vec!["A", "B", "C"]);
    for fortune in &corpus {
        assert_eq!(fortune.source, "letters");
    }
}

#[test]
fn unterminated_last_record_is_lost() {
    let corpus = parse_records("letters", &lines("A\n%\nB\n%\nC\n"));
    assert_eq!(texts(&corpus), vec!["A", "B"]);
}

#[test]
fn delimiter_that_closes_nothing_yields_nothing() {
    let corpus = parse_records("letters", &lines("%\n%\nA\n%\n%\n%\nB\nb\n%\n"));
    assert_eq!(texts(&corpus), vec!["A", "B\nb"]);
}

#[test]
fn delimiter_tolerates_no_surrounding_space() {
    let corpus = parse_records("letters", &lines("A\n% \n %\n%%\n%\n"));
    assert_eq!(texts(&corpus), vec!["A\n% \n %\n%%"]);
    assert!(is_delimiter_line("%"));
    assert!(!is_delimiter_line("% "));
    assert!(!is_delimiter_line(""));
    assert!(!is_delimiter_line("%%"));
}

#[test]
fn empty_input_has_no_records() {
    assert!(parse_records("none", &Vec::new()).is_empty());
    assert!(read_fortunes(&Vec::new()).is_empty());
}

#[test]
fn each_file_starts_with_an_empty_buffer() {
    let first = SourceFile { path: "a/one".to_string(), lines: lines("kept\n%\nlost\n") };
    let second = SourceFile { path: "b/two".to_string(), lines: lines("next\n%\n") };
    let corpus = read_fortunes(&vec![first, second]);
    assert_eq!(texts(&corpus), vec!["kept", "next"]);
    assert_eq!(corpus[0].source, "one");
    assert_eq!(corpus[1].source, "two");
}

#[test]
fn join_range_puts_breaks_between_lines() {
    let all = lines("a\nb\nc\nd\n");
    assert_eq!(join_range(&all, 1, 3), "b\nc");
    assert_eq!(join_range(&all, 0, 1), "a");
    assert_eq!(join_range(&all, 2, 2), "");
    assert_eq!(join_range(&all, 0, 4), "a\nb\nc\nd");
}

#[test]
fn base_name_is_the_last_component() {
    assert_eq!(file_base_name("./tests/inputs/jokes"), "jokes");
    assert_eq!(file_base_name("jokes"), "jokes");
    assert_eq!(file_base_name("/quotes"), "quotes");
    assert_eq!(file_base_name("dir/"), "");
    assert_eq!(file_base_name(""), "");
    assert_eq!(file_base_name("a/b/\u{e9}t\u{e9}"), "\u{e9}t\u{e9}");
}
