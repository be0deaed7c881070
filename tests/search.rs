use grep_rs::record::{
    distinct_matches, folded_line_records, literal_line_records, regex_line_records,
};
use grep_rs::segment::annotate_images;
use grep_rs::{annotate, Grep, GrepError, LineMatcher, MatchRecord, Segment, Source};

fn pairs(segs: &[Segment]) -> Vec<(String, bool)> {
    segs.iter().map(|s| (s.text.clone(), s.matched)).collect()
}

fn expect(items: &[(&str, bool)]) -> Vec<(String, bool)> {
    items.iter().map(|(t, m)| (t.to_string(), *m)).collect()
}

fn strings(items: &[&str]) -> Vec<String> {
    items.iter().map(|s| s.to_string()).collect()
}

fn grep(pattern: &str, is_expression: bool, ignore_case: bool) -> Grep {
    Grep::new(Vec::new(), pattern.to_string(), is_expression, ignore_case, false)
}

fn source(origin: &str, lines: &[&str]) -> Source {
    Source {
        origin: origin.to_string(),
        lines: lines.iter().map(|l| l.to_string()).collect(),
    }
}

fn run_one(g: &Grep, lines: &[&str]) -> Vec<MatchRecord> {
    match g.run(&vec![source("stdin", lines)]) {
        Ok(r) => r,
        Err(_) => panic!("the pattern was refused"),
    }
}

fn joined(r: &MatchRecord) -> String {
    r.segments.iter().map(|s| s.text.as_str()).collect()
}

#[test]
fn case_insensitive_keeps_casing() {
    let recs = run_one(&grep("hello", false, true), &["Hello HELLO"]);
    assert_eq!(recs.len(), 1);
    assert_eq!(
        pairs(&recs[0].segments),
        expect(&[("Hello", true), (" ", false), ("HELLO", true)])
    );
}

#[test]
fn case_insensitive_upper_pattern() {
    let recs = run_one(&grep("WORLD", false, true), &["hello world"]);
    assert_eq!(recs.len(), 1);
    assert_eq!(
        pairs(&recs[0].segments),
        expect(&[("hello ", false), ("world", true)])
    );
}

#[test]
fn case_sensitive_literal_misses_other_case() {
    let recs = run_one(&grep("hello", false, false), &["Hello HELLO"]);
    assert!(recs.is_empty());
}

#[test]
fn literal_multi_occurrence() {
    let recs = run_one(&grep("ab", false, false), &["ababab"]);
    assert_eq!(recs.len(), 1);
    assert_eq!(
        pairs(&recs[0].segments),
        expect(&[("ab", true), ("ab", true), ("ab", true)])
    );
}

#[test]
fn regex_dedup_by_text() {
    let recs = run_one(&grep("c.t", true, false), &["cat dog cat"]);
    assert_eq!(recs.len(), 1);
    assert_eq!(
        pairs(&recs[0].segments),
        expect(&[("cat", true), (" dog ", false), ("cat", true)])
    );
}

#[test]
fn regex_one_record_per_distinct_text() {
    let recs = run_one(&grep("c.t", true, false), &["cat cot cat"]);
    assert_eq!(recs.len(), 2);
    assert_eq!(
        pairs(&recs[0].segments),
        expect(&[("cat", true), (" cot ", false), ("cat", true)])
    );
    assert_eq!(
        pairs(&recs[1].segments),
        expect(&[("cat ", false), ("cot", true), (" cat", false)])
    );
}

#[test]
fn regex_case_insensitive_option() {
    let recs = run_one(&grep("HEL+O", true, true), &["say hello"]);
    assert_eq!(recs.len(), 1);
    assert_eq!(
        pairs(&recs[0].segments),
        expect(&[("say ", false), ("hello", true)])
    );
    let none = run_one(&grep("HEL+O", true, false), &["say hello"]);
    assert!(none.is_empty());
}

#[test]
fn regex_empty_matches_are_dropped() {
    let g = grep("a*", true, false);
    assert!(run_one(&g, &["bbb"]).is_empty());
    let recs = run_one(&g, &["baab"]);
    assert_eq!(recs.len(), 1);
    assert_eq!(
        pairs(&recs[0].segments),
        expect(&[("b", false), ("aa", true), ("b", false)])
    );
}

#[test]
fn no_match_no_record() {
    let recs = run_one(&grep("abc", false, false), &["xyz"]);
    assert!(recs.is_empty());
}

#[test]
fn empty_pattern_yields_nothing() {
    assert!(run_one(&grep("", false, false), &["abc", ""]).is_empty());
    assert!(run_one(&grep("", true, false), &["abc", ""]).is_empty());
}

#[test]
fn sources_in_order() {
    let g = Grep::new(
        vec!["a".to_string(), "b".to_string()],
        "x".to_string(),
        false,
        false,
        true,
    );
    let sources = vec![
        source("a", &["x1", "no", "x2"]),
        source("b", &["x3", "x4"]),
    ];
    let recs = match g.run(&sources) {
        Ok(r) => r,
        Err(_) => panic!("the pattern was refused"),
    };
    let labels: Vec<(String, usize)> = recs.iter().map(|r| (r.origin.clone(), r.index)).collect();
    assert_eq!(
        labels,
        vec![
            ("a".to_string(), 1),
            ("a".to_string(), 3),
            ("b".to_string(), 1),
            ("b".to_string(), 2)
        ]
    );
    assert_eq!(joined(&recs[1]), "x2");
    assert!(g.shows_origin());
}

#[test]
fn invalid_regex() {
    let g = grep("(", true, false);
    match g.run(&vec![source("stdin", &["(", "abc"])]) {
        Err(GrepError::InvalidPatternSyntax(msg)) => assert!(!msg.is_empty()),
        Ok(_) => panic!("an invalid pattern was accepted"),
    }
    assert!(g.matcher().is_err());
}

#[test]
fn literal_paren_is_not_a_regex() {
    let recs = run_one(&grep("(", false, false), &["f(x)"]);
    assert_eq!(recs.len(), 1);
    assert_eq!(
        pairs(&recs[0].segments),
        expect(&[("f", false), ("(", true), ("x)", false)])
    );
}

#[test]
fn line_numbers_start_at_one() {
    let recs = run_one(&grep("b", false, false), &["a", "b", "c", "bb"]);
    let idx: Vec<usize> = recs.iter().map(|r| r.index).collect();
    assert_eq!(idx, vec![2, 4]);
    assert_eq!(recs[0].origin, "stdin");
}

#[test]
fn annotate_plain_edges() {
    let segs = annotate("xaby", "ab");
    assert_eq!(pairs(&segs), expect(&[("x", false), ("ab", true), ("y", false)]));
}

#[test]
fn annotate_overlap_is_greedy() {
    let segs = annotate("aaa", "aa");
    assert_eq!(pairs(&segs), expect(&[("aa", true), ("a", false)]));
}

#[test]
fn annotate_without_occurrence_is_one_plain_segment() {
    let segs = annotate("hello", "z");
    assert_eq!(pairs(&segs), expect(&[("hello", false)]));
    assert!(annotate("", "z").is_empty());
}

#[test]
fn annotate_uses_search_positions() {
    let images = strings(&["h", "e", "l", "l", "o"]);
    let segs = annotate_images("Hello", &images, "ll");
    assert_eq!(pairs(&segs), expect(&[("He", false), ("ll", true), ("o", false)]));
}

#[test]
fn annotate_non_ascii() {
    let segs = annotate("héllo wörld", "wö");
    assert_eq!(
        pairs(&segs),
        expect(&[("héllo ", false), ("wö", true), ("rld", false)])
    );
}

#[test]
fn case_folding_marks_whole_characters() {
    let recs = run_one(&grep("x", false, true), &["\u{130}x", "ÄÖx"]);
    assert_eq!(recs.len(), 2);
    assert_eq!(
        pairs(&recs[0].segments),
        expect(&[("\u{130}", false), ("x", true)])
    );
    assert_eq!(
        pairs(&recs[1].segments),
        expect(&[("ÄÖ", false), ("x", true)])
    );
}

#[test]
fn case_folding_longer_image_keeps_positions() {
    let recs = run_one(&grep("a", false, true), &["\u{130}ab"]);
    assert_eq!(recs.len(), 1);
    assert_eq!(
        pairs(&recs[0].segments),
        expect(&[("\u{130}", false), ("a", true), ("b", false)])
    );
    let dotted = run_one(&grep("i", false, true), &["x\u{130}y"]);
    assert_eq!(dotted.len(), 1);
    assert_eq!(
        pairs(&dotted[0].segments),
        expect(&[("x", false), ("\u{130}", true), ("y", false)])
    );
}

#[test]
fn annotate_images_widens_to_whole_characters() {
    let images = strings(&["x", "yz", "w"]);
    let segs = annotate_images("abc", &images, "zw");
    assert_eq!(pairs(&segs), expect(&[("a", false), ("bc", true)]));
    let segs = annotate_images("abc", &images, "y");
    assert_eq!(pairs(&segs), expect(&[("a", false), ("b", true), ("c", false)]));
}

#[test]
fn distinct_matches_keeps_first_order() {
    let found: Vec<String> = ["b", "", "a", "b", "a", "c"].iter().map(|s| s.to_string()).collect();
    assert_eq!(distinct_matches(&found), vec!["b", "a", "c"]);
}

#[test]
fn regex_line_records_given_texts() {
    let found = vec!["o".to_string(), "o".to_string()];
    let recs = regex_line_records("f", 7, "foo", &found);
    assert_eq!(recs.len(), 1);
    assert_eq!(recs[0].origin, "f");
    assert_eq!(recs[0].index, 7);
    assert_eq!(pairs(&recs[0].segments), expect(&[("f", false), ("o", true), ("o", true)]));
}

#[test]
fn literal_line_records_given_search() {
    let images = strings(&["a", "b", "c"]);
    let recs = folded_line_records("f", 3, "ABC", &images, "b");
    assert_eq!(recs.len(), 1);
    assert_eq!(recs[0].index, 3);
    assert_eq!(pairs(&recs[0].segments), expect(&[("A", false), ("B", true), ("C", false)]));
    assert!(folded_line_records("f", 3, "ABC", &images, "B").is_empty());
    assert!(folded_line_records("f", 3, "ABC", &images, "").is_empty());
    let plain = literal_line_records("f", 4, "ABCB", "B");
    assert_eq!(plain.len(), 1);
    assert_eq!(
        pairs(&plain[0].segments),
        expect(&[("A", false), ("B", true), ("C", false), ("B", true)])
    );
    assert!(literal_line_records("f", 4, "ABC", "b").is_empty());
}

#[test]
fn matcher_search_line() {
    let m = LineMatcher::literal("AB", true);
    let recs = m.search_line("s", 1, "xaBy");
    assert_eq!(recs.len(), 1);
    assert_eq!(pairs(&recs[0].segments), expect(&[("x", false), ("aB", true), ("y", false)]));
    let r = match LineMatcher::regex("[0-9]+", false) {
        Ok(r) => r,
        Err(_) => panic!("the pattern was refused"),
    };
    let recs = r.search_line("s", 2, "a12b12c3");
    assert_eq!(recs.len(), 2);
    assert_eq!(
        pairs(&recs[0].segments),
        expect(&[("a", false), ("12", true), ("b", false), ("12", true), ("c3", false)])
    );
    assert_eq!(
        pairs(&recs[1].segments),
        expect(&[("a12b12c", false), ("3", true)])
    );
}

#[test]
fn origin_shown_only_for_several_files() {
    assert!(!grep("a", false, false).shows_origin());
    let one = Grep::new(vec!["f".to_string()], "a".to_string(), false, false, false);
    assert!(!one.shows_origin());
}

#[test]
fn find_matches_literal_keeps_line_casing() {
    let m = LineMatcher::literal("hello", true);
    assert_eq!(
        m.find_matches("Hello HELLO hello Hello"),
        vec!["Hello", "HELLO", "hello"]
    );
    assert!(m.find_matches("help").is_empty());
    assert!(LineMatcher::literal("", false).find_matches("abc").is_empty());
}

#[test]
fn find_matches_regex_distinct_in_order() {
    let m = match LineMatcher::regex("c.t", false) {
        Ok(m) => m,
        Err(_) => panic!("the pattern was refused"),
    };
    assert_eq!(m.find_matches("cot cat cot cut"), vec!["cot", "cat", "cut"]);
    assert!(m.find_matches("dog").is_empty());
}

#[test]
fn regex_refusal_carries_message() {
    match LineMatcher::regex("a(b", false) {
        Err(msg) => assert!(!msg.is_empty()),
        Ok(_) => panic!("an invalid pattern was accepted"),
    }
}

#[test]
fn search_with_matches_run() {
    let g = grep("o", false, false);
    let m = match g.matcher() {
        Ok(m) => m,
        Err(_) => panic!("the pattern was refused"),
    };
    let sources = vec![source("a", &["foo", "bar"]), source("b", &["o"])];
    let recs = g.search_with(&m, &sources);
    let labels: Vec<(String, usize)> = recs.iter().map(|r| (r.origin.clone(), r.index)).collect();
    assert_eq!(labels, vec![("a".to_string(), 1), ("b".to_string(), 1)]);
    assert_eq!(
        pairs(&recs[0].segments),
        expect(&[("f", false), ("o", true), ("o", true)])
    );
}

#[test]
fn lower_text_folds_each_character() {
    assert_eq!(grep_rs::matcher::lower_text_of("AbÇ"), "abç");
    assert_eq!(grep_rs::matcher::lower_images_of("A\u{130}"), vec!["a", "i\u{307}"]);
}
