use clipro::{search, search_case_insens};

#[test]
fn case_sens() {
    let query = "duct";
    let contents = "\
Rust:
safe, fast, productive.
pick three.
        ";

    assert_eq!(vec!["safe, fast, productive."], search(query, contents));
}

#[test]
fn case_insens() {
    let query = "rUsT";
    let contents = "\
Rust:
safe, fast productive.
pick three.
Trust me.
        ";

    assert_eq!(
        vec!["Rust:", "Trust me."],
        search_case_insens(query, contents)
    );
}

#[test]
fn case_sens_skips_other_case() {
    let contents = "Rust:\nsafe, fast, productive.\nTrust me.";
    assert_eq!(vec!["Trust me."], search("rust", contents));
    assert_eq!(Vec::<&str>::new(), search("RUST", contents));
}

#[test]
fn case_insens_keeps_original_text() {
    let contents = "Rust:\nsafe, fast productive.\npick three.\nTrust me.";
    assert_eq!(vec!["Rust:", "Trust me."], search_case_insens("RUST", contents));
    assert_eq!(vec!["Rust:", "Trust me."], search_case_insens("rust", contents));
}

#[test]
fn case_insens_covers_case_sens() {
    let contents = "alpha Beta\ngamma\nbeta\nBETA";
    let exact = search("Beta", contents);
    let folded = search_case_insens("Beta", contents);
    assert_eq!(vec!["alpha Beta"], exact);
    assert_eq!(vec!["alpha Beta", "beta", "BETA"], folded);
    for line in exact {
        assert!(folded.contains(&line));
    }
}

#[test]
fn case_insens_same_for_changed_line_case() {
    let lower = "one\ntwo\nthree";
    let upper = "ONE\ntWo\nThree";
    assert_eq!(vec!["two"], search_case_insens("tw", lower));
    assert_eq!(vec!["tWo"], search_case_insens("tw", upper));
}

#[test]
fn empty_query_keeps_every_line() {
    let contents = "first\n\nthird line\n  fourth";
    assert_eq!(vec!["first", "", "third line", "  fourth"], search("", contents));
}

#[test]
fn empty_contents_give_no_lines() {
    assert_eq!(Vec::<&str>::new(), search("", ""));
    assert_eq!(Vec::<&str>::new(), search_case_insens("a", ""));
}

#[test]
fn no_match_is_empty() {
    assert_eq!(Vec::<&str>::new(), search("zebra", "Rust:\nsafe, fast, productive.\npick three."));
}

#[test]
fn line_with_repeated_query_once() {
    assert_eq!(vec!["aa aa aa"], search("aa", "b\naa aa aa\nc"));
}

#[test]
fn equal_lines_each_kept() {
    assert_eq!(vec!["same", "same"], search("am", "same\nother\nsame"));
}

#[test]
fn last_line_without_terminator() {
    assert_eq!(vec!["end here"], search("here", "start\nend here"));
}

#[test]
fn trailing_line_feed_adds_no_line() {
    assert_eq!(vec!["a", "b"], search("", "a\nb\n"));
    assert_eq!(vec!["", ""], search("", "\n\n"));
}

#[test]
fn carriage_return_before_line_feed_is_dropped() {
    assert_eq!(vec!["one", "two"], search("", "one\r\ntwo\r\n"));
    assert_eq!(vec!["two\r"], search("two", "one\r\ntwo\r"));
}

#[test]
fn query_longer_than_line() {
    assert_eq!(vec!["a longer line"], search("longer", "short\na longer line"));
}

#[test]
fn non_ascii_text() {
    let contents = "grüße\nSTRASSE\nÄpfel und Birnen";
    assert_eq!(vec!["grüße"], search("üß", contents));
    assert_eq!(vec!["Äpfel und Birnen"], search_case_insens("äpfel", contents));
}

#[test]
fn repeated_searches_agree() {
    let contents = "Rust:\nsafe, fast, productive.\npick three.\nTrust me.";
    assert_eq!(search("st", contents), search("st", contents));
    assert_eq!(search_case_insens("ST", contents), search_case_insens("ST", contents));
}
