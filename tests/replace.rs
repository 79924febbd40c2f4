use sd::replacer::{contains_literal, ReplaceError, Replacer};
use sd::source::{Plan, Source};
use sd::text::{replace_literal_str, unescape};

#[test]
fn source_from_no_paths_is_stdin() {
    assert!(matches!(Source::from(vec![]), Source::Stdin));
}

#[test]
fn source_from_one_path_is_files() {
    match Source::from(vec!["x".to_string()]) {
        Source::Files(paths) => assert_eq!(paths, vec!["x".to_string()]),
        Source::Stdin => panic!("expected files"),
    }
}

#[test]
fn source_from_keeps_path_order() {
    let paths = vec!["c".to_string(), "a".to_string(), "b".to_string()];
    match Source::from(paths.clone()) {
        Source::Files(p) => assert_eq!(p, paths),
        Source::Stdin => panic!("expected files"),
    }
}

#[test]
fn plan_stdin_ignores_in_place() {
    assert!(matches!(Source::Stdin.plan(true), Plan::StdinToStdout));
    assert!(matches!(Source::Stdin.plan(false), Plan::StdinToStdout));
}

#[test]
fn plan_files_by_mode() {
    let paths = vec!["a".to_string(), "b".to_string()];
    match Source::from(paths.clone()).plan(true) {
        Plan::RewriteInPlace(p) => assert_eq!(p, paths),
        _ => panic!("expected in-place rewrite"),
    }
    match Source::from(paths.clone()).plan(false) {
        Plan::PrintInOrder(p) => assert_eq!(p, paths),
        _ => panic!("expected printing in order"),
    }
}

#[test]
fn literal_replaces_every_occurrence() {
    let r = Replacer::new("foo", "bar", true).unwrap();
    assert_eq!(r.replace("foo x foo"), "bar x bar");
}

#[test]
fn literal_scan_does_not_overlap() {
    assert_eq!(replace_literal_str("aaa", "aa", "b"), "ba");
    assert_eq!(replace_literal_str("aaaa", "aa", "b"), "bb");
}

#[test]
fn literal_empty_search_matches_between_characters() {
    assert_eq!(replace_literal_str("abc", "", "x"), "xaxbxcx");
    assert_eq!(replace_literal_str("", "", "x"), "x");
}

#[test]
fn literal_empty_text() {
    assert_eq!(replace_literal_str("", "a", "b"), "");
}

#[test]
fn literal_output_splits_into_original_segments() {
    let text = "one,two,,three";
    let out = replace_literal_str(text, ",", "--");
    assert_eq!(out, "one--two----three");
    let before: Vec<&str> = text.split(",").collect();
    let after: Vec<&str> = out.split("--").collect();
    assert_eq!(before, after);
}

#[test]
fn literal_handles_non_ascii() {
    assert_eq!(replace_literal_str("héllo wörld", "ö", "o"), "héllo world");
}

#[test]
fn literal_keeps_backslash_n() {
    let r = Replacer::new("x", "\\n", true).unwrap();
    assert_eq!(r.replace("axb"), "a\\nb");
}

#[test]
fn regex_template_escape_becomes_newline() {
    let r = Replacer::new("x", "\\n", false).unwrap();
    assert_eq!(r.replace("axb"), "a\nb");
}

#[test]
fn regex_replaces_with_capture_groups() {
    let r = Replacer::new(r"(\w+)@(\w+)", "$2 at $1", false).unwrap();
    assert_eq!(r.replace("me@home"), "home at me");
}

#[test]
fn regex_replaces_every_match() {
    let r = Replacer::new(r"\d", "X", false).unwrap();
    assert_eq!(r.replace("a1b2"), "aXbX");
}

#[test]
fn regex_without_match_leaves_text() {
    let r = Replacer::new(r"z+", "y", false).unwrap();
    assert!(!r.is_match("abc def"));
    assert_eq!(r.replace("abc def"), "abc def");
}

#[test]
fn regex_without_match_still_unescapes() {
    let r = Replacer::new(r"z+", "y", false).unwrap();
    assert_eq!(r.replace("a\\tb"), "a\tb");
}

#[test]
fn invalid_regex_is_pattern_error() {
    match Replacer::new("(", "x", false) {
        Err(ReplaceError::Pattern(_)) => {}
        Ok(_) => panic!("expected a pattern error"),
    }
    match Replacer::new("[a-", "x", false) {
        Err(ReplaceError::Pattern(_)) => {}
        Ok(_) => panic!("expected a pattern error"),
    }
}

#[test]
fn invalid_regex_is_fine_as_literal() {
    let r = Replacer::new("(", "x", true).unwrap();
    assert_eq!(r.replace("f(a)"), "fxa)");
}

#[test]
fn is_match_for_both_kinds() {
    let lit = Replacer::new("a.c", "", true).unwrap();
    assert!(!lit.is_match("abc"));
    assert!(lit.is_match("xa.cx"));
    let re = Replacer::new("a.c", "", false).unwrap();
    assert!(re.is_match("abc"));
    assert!(!re.is_match("ab"));
}

#[test]
fn contains_literal_cases() {
    assert!(contains_literal("hello", "ll"));
    assert!(contains_literal("hello", "o"));
    assert!(!contains_literal("hello", "lo!"));
    assert!(contains_literal("", ""));
    assert!(!contains_literal("", "a"));
}

#[test]
fn unescape_known_escapes() {
    assert_eq!(unescape("a\\nb\\tc\\rd"), "a\nb\tc\rd");
    assert_eq!(unescape("\\\\n"), "\\n");
    assert_eq!(unescape("\\'\\\""), "'\"");
}

#[test]
fn unescape_keeps_unknown_and_trailing() {
    assert_eq!(unescape("a\\qb"), "a\\qb");
    assert_eq!(unescape("end\\"), "end\\");
    assert_eq!(unescape(""), "");
}

#[test]
fn outputs_concatenate_in_order() {
    let r = Replacer::new("o", "0", true).unwrap();
    let contents = vec!["foo\n".to_string(), "bar".to_string(), "boo\n".to_string()];
    let out = r.replace_in_order(&contents);
    assert_eq!(out, "f00\nbarb00\n");
    let mut each = String::new();
    for c in contents.iter() {
        each.push_str(&r.replace(c));
    }
    assert_eq!(out, each);
}

#[test]
fn outputs_of_no_files_are_empty() {
    let r = Replacer::new("o", "0", true).unwrap();
    assert_eq!(r.replace_in_order(&vec![]), "");
}

#[test]
fn regex_outputs_concatenate_in_order() {
    let r = Replacer::new(r"(\d+)", "<$1>", false).unwrap();
    let contents = vec!["a1".to_string(), "22b".to_string(), "c".to_string()];
    assert_eq!(r.replace_in_order(&contents), "a<1><22>bc");
}
