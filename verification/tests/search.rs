use minigrep::{search, search_case_insensitive, search_with};

const POEM: &str = "Rust:\nsafe, fast, productive.\nPick three.";

#[test]
fn case_sensitive_finds_the_one_line() {
    assert_eq!(search("duct", POEM), vec!["safe, fast, productive."]);
}

#[test]
fn mixed_case_query_needs_folding() {
    let none: Vec<&str> = Vec::new();
    assert_eq!(search("rUsT", POEM), none);
    assert_eq!(search_case_insensitive("rUsT", POEM), vec!["Rust:"]);
}

#[test]
fn empty_text_has_no_lines() {
    let none: Vec<&str> = Vec::new();
    assert_eq!(search("anything", ""), none);
    assert_eq!(search_case_insensitive("anything", ""), none);
    assert_eq!(search("", ""), none);
    assert_eq!(search_case_insensitive("", ""), none);
}

#[test]
fn case_insensitive_with_more_lines() {
    let contents = "Rust:\nsafe, fast, productive.\nPick three.\nTrust me.";
    assert_eq!(search_case_insensitive("rUsT", contents), vec!["Rust:", "Trust me."]);
    assert_eq!(search("rust", contents), vec!["Trust me."]);
}

#[test]
fn every_found_line_holds_the_query_and_none_is_missed() {
    let contents = "alpha beta\ngamma\nbeta\n\ndelta beta gamma\nbet a\n";
    let found = search("beta", contents);
    assert_eq!(found, vec!["alpha beta", "beta", "delta beta gamma"]);
    for line in &found {
        assert!(line.contains("beta"));
    }
    let mut expected: Vec<&str> = Vec::new();
    for line in contents.split('\n') {
        if line.contains("beta") {
            expected.push(line);
        }
    }
    assert_eq!(found, expected);
}

#[test]
fn folding_finds_at_least_what_exact_search_finds() {
    let contents = "To be\nor not TO BE\nthat is\nTOtal\nto";
    let exact = search("to", contents);
    let folded = search_case_insensitive("to", contents);
    assert_eq!(exact, vec!["to"]);
    assert_eq!(folded, vec!["To be", "or not TO BE", "TOtal", "to"]);
    let mut at: usize = 0;
    for line in &exact {
        while folded[at] != *line {
            at += 1;
        }
        at += 1;
    }
    for line in &folded {
        assert!(line.to_lowercase().contains("to"));
    }
}

#[test]
fn empty_query_returns_every_line() {
    let all = vec!["Rust:", "safe, fast, productive.", "Pick three."];
    assert_eq!(search("", POEM), all);
    assert_eq!(search_case_insensitive("", POEM), all);
    assert_eq!(search("", "a\n\nb\n"), vec!["a", "", "b"]);
    assert_eq!(search_case_insensitive("", "a\n\nb\n"), vec!["a", "", "b"]);
}

#[test]
fn absent_query_returns_nothing() {
    let none: Vec<&str> = Vec::new();
    assert_eq!(search("monomorphization", POEM), none);
    assert_eq!(search_case_insensitive("monomorphization", POEM), none);
}

#[test]
fn a_final_newline_adds_no_line() {
    assert_eq!(search("", "one\ntwo\n"), vec!["one", "two"]);
    assert_eq!(search("", "one\ntwo"), vec!["one", "two"]);
    assert_eq!(search("", "\n"), vec![""]);
    assert_eq!(search("", "\n\n"), vec!["", ""]);
    assert_eq!(search("", "one\n\n"), vec!["one", ""]);
    assert_eq!(search("two", "one\ntwo\n"), vec!["two"]);
}

#[test]
fn a_repeated_line_is_found_each_time() {
    assert_eq!(search("ab", "ab\ncd\nab\nab"), vec!["ab", "ab", "ab"]);
    assert_eq!(search_case_insensitive("AB", "ab\ncd\nAb\nab"), vec!["ab", "Ab", "ab"]);
}

#[test]
fn a_query_longer_than_a_line_misses_it() {
    let none: Vec<&str> = Vec::new();
    assert_eq!(search("abcd", "abc\nbcd\nab"), none);
    assert_eq!(search("abc", "abc\nbcd\nab"), vec!["abc"]);
}

#[test]
fn a_query_matches_inside_a_word() {
    assert_eq!(search("rod", "productive\nrode\nrd"), vec!["productive", "rode"]);
    assert_eq!(search("e", "productive\nrode\nrd"), vec!["productive", "rode"]);
    assert_eq!(search("p", "productive\nrode\nrd"), vec!["productive"]);
}

#[test]
fn a_query_across_a_line_break_never_matches() {
    let none: Vec<&str> = Vec::new();
    assert_eq!(search("Rust:\nsafe", POEM), none);
    assert_eq!(search_case_insensitive("rust:\nsafe", POEM), none);
    assert_eq!(search("\n", "a\nb\n"), none);
}

#[test]
fn characters_of_several_bytes_are_kept_whole() {
    let contents = "na\u{ef}ve caf\u{e9}\n\u{65e5}\u{672c}\u{8a9e}\n\u{1f980} crab\nplain";
    assert_eq!(search("\u{e9}", contents), vec!["na\u{ef}ve caf\u{e9}"]);
    assert_eq!(search("\u{672c}", contents), vec!["\u{65e5}\u{672c}\u{8a9e}"]);
    assert_eq!(search("\u{1f980} c", contents), vec!["\u{1f980} crab"]);
    assert_eq!(search("", contents).len(), 4);
    assert_eq!(search_case_insensitive("CAF\u{c9}", contents), vec!["na\u{ef}ve caf\u{e9}"]);
}

#[test]
fn a_carriage_return_belongs_to_its_line() {
    assert_eq!(search("a", "a\r\nb\r\n"), vec!["a\r"]);
    assert_eq!(search("\r", "a\r\nb"), vec!["a\r"]);
}

#[test]
fn found_lines_are_views_into_the_text() {
    let contents = String::from("first\nsecond\nthird\n");
    let found = search_case_insensitive("D", &contents);
    assert_eq!(found, vec!["second", "third"]);
    let start = contents.as_ptr() as usize;
    assert_eq!(found[0].as_ptr() as usize, start + 6);
    assert_eq!(found[1].as_ptr() as usize, start + 13);
}

#[test]
fn found_lines_keep_their_case() {
    assert_eq!(search_case_insensitive("hello", "HeLLo World\nbye"), vec!["HeLLo World"]);
    assert_eq!(search_case_insensitive("HELLO", "say hello\nbye"), vec!["say hello"]);
}

#[test]
fn a_final_sigma_is_lowered_by_its_place() {
    let none: Vec<&str> = Vec::new();
    let contents = "\u{391}\u{3a3}\u{391}";
    assert_eq!(search("\u{391}\u{3a3}", contents), vec![contents]);
    assert_eq!(search_case_insensitive("\u{391}\u{3a3}", contents), none);
    assert_eq!(search_case_insensitive("\u{3b1}\u{3c3}", contents), vec![contents]);
}

#[test]
fn the_mode_is_chosen_by_the_flag() {
    let none: Vec<&str> = Vec::new();
    assert_eq!(search_with("rUsT", POEM, false), none);
    assert_eq!(search_with("rUsT", POEM, true), vec!["Rust:"]);
    assert_eq!(search_with("duct", POEM, false), vec!["safe, fast, productive."]);
    assert_eq!(search_with("DUCT", POEM, true), vec!["safe, fast, productive."]);
}
