use terminal_cli::{
    AutocompleteResult, CliCommand, CliLineMatcher, LineBufferResult, LineMatcherMode,
    LineMatcherProgress,
};

#[test]
pub fn tests_test_suggest() {
    let cmd1 = CliCommand {
        command: b"status".to_vec(),
        help: Some(b"Some basics about the state of the system".to_vec()),
    };
    let cmd2 = CliCommand { command: b"status net".to_vec(), help: None };
    let cmd3 = CliCommand { command: b"stat".to_vec(), help: None };
    let cmd4_args = CliCommand { command: b"exec_args ".to_vec(), help: None };

    let get_matcher = |l: &[u8], m: LineMatcherMode| CliLineMatcher::new(l, m);

    {
        let mut matcher = get_matcher(b"", LineMatcherMode::Execute);
        matcher.match_cmd(&cmd1);
        assert_eq!(LineBufferResult::NoMatchFound, matcher.finish());
    }

    {
        let mut matcher = get_matcher(b"st", LineMatcherMode::Execute);
        matcher.match_cmd(&cmd1);
        assert_eq!(LineBufferResult::NoMatchFound, matcher.finish());
    }

    {
        let mut matcher = get_matcher(b"status", LineMatcherMode::Execute);
        matcher.match_cmd(&cmd1);
        assert_eq!(LineBufferResult::Match { args: b"".to_vec() }, matcher.finish());
    }

    {
        let mut matcher = get_matcher(b"status more", LineMatcherMode::Execute);
        matcher.match_cmd(&cmd1);
        assert_eq!(LineBufferResult::Match { args: b"more".to_vec() }, matcher.finish());
    }

    {
        let mut matcher = get_matcher(b"st", LineMatcherMode::AutocompleteOnly);
        matcher.match_cmd(&cmd1);
        matcher.match_cmd(&cmd2);
    }

    {
        let mut matcher = get_matcher(b"status", LineMatcherMode::Execute);
        matcher.match_cmd(&cmd3);
        matcher.match_cmd(&cmd2);
        matcher.match_cmd(&cmd1);
        let finish = matcher.finish();
        println!("finish: {:?}", finish);
    }

    {
        let mut matcher = get_matcher(b"status help", LineMatcherMode::Execute);
        matcher.match_cmd(&cmd3);
        matcher.match_cmd(&cmd2);
        matcher.match_cmd(&cmd1);
        let finish = matcher.finish();
        println!("finish: {:?}", finish);
    }

    {
        let mut matcher = get_matcher(b"exec_args 1", LineMatcherMode::Execute);
        matcher.match_cmd(&cmd4_args);
        if let LineBufferResult::Match { args } = matcher.finish() {
            assert_eq!(b"1".to_vec(), args);
        } else {
            panic!("should match");
        }
    }
}

#[test]
fn test_exact_match_with_args() {
    // a pattern without its own delimiter takes what follows one space
    let cmd = CliCommand { command: b"status".to_vec(), help: None };
    let mut matcher = CliLineMatcher::new(b"status more", LineMatcherMode::Execute);
    assert_eq!(LineMatcherProgress::MatchFound, matcher.match_cmd(&cmd));
    assert_eq!(LineBufferResult::Match { args: b"more".to_vec() }, matcher.finish());

    let mut matcher = CliLineMatcher::new(b"status", LineMatcherMode::Execute);
    assert_eq!(LineMatcherProgress::MatchFound, matcher.match_cmd(&cmd));
    assert_eq!(LineBufferResult::Match { args: b"".to_vec() }, matcher.finish());
}

#[test]
fn test_no_premature_match() {
    let cmd = CliCommand { command: b"status".to_vec(), help: None };
    let mut matcher = CliLineMatcher::new(b"st", LineMatcherMode::Execute);
    assert_eq!(LineMatcherProgress::Processing, matcher.match_cmd(&cmd));
    assert_eq!(LineBufferResult::NoMatchFound, matcher.finish());
}

#[test]
fn test_no_match_on_longer_word() {
    // the byte after the pattern must be a space or absent
    let cmd = CliCommand { command: b"status".to_vec(), help: None };
    let mut matcher = CliLineMatcher::new(b"statuses", LineMatcherMode::Execute);
    assert_eq!(LineMatcherProgress::Processing, matcher.match_cmd(&cmd));
    assert_eq!(LineBufferResult::NoMatchFound, matcher.finish());
}

#[test]
fn test_at_most_one_match() {
    // once a pattern matched, every further check is a no-op and the
    // match survives to the end of the pass
    let cmd1 = CliCommand { command: b"status".to_vec(), help: None };
    let cmd2 = CliCommand { command: b"status net".to_vec(), help: None };
    let mut matcher = CliLineMatcher::new(b"status net x", LineMatcherMode::Execute);
    assert_eq!(LineMatcherProgress::MatchFound, matcher.match_cmd(&cmd1));
    assert_eq!(LineMatcherProgress::Skipped, matcher.match_cmd(&cmd2));
    assert_eq!(LineMatcherProgress::Skipped, matcher.match_cmd(&cmd1));
    assert_eq!(LineBufferResult::Match { args: b"net x".to_vec() }, matcher.finish());
}

#[test]
fn test_autocomplete_single_expansion() {
    // two candidates with a common prefix longer than the input collapse
    // to that prefix
    let cmd1 = CliCommand { command: b"status".to_vec(), help: None };
    let cmd2 = CliCommand { command: b"status net".to_vec(), help: None };
    let mut matcher = CliLineMatcher::new(b"st", LineMatcherMode::AutocompleteOnly);
    matcher.match_cmd(&cmd1);
    matcher.match_cmd(&cmd2);
    match matcher.finish() {
        LineBufferResult::Autocomplete { result: AutocompleteResult::SingleMatch { line } } => {
            assert_eq!(b"status".to_vec(), *line.get_full_new_line());
            assert_eq!(b"atus".to_vec(), *line.get_additional_part());
        },
        other => panic!("expected a single match, got {:?}", other),
    }
}

#[test]
fn test_autocomplete_multiple_sorted() {
    // when the common prefix is exactly the input, all candidates come
    // back, sorted lexicographically
    let cmd2 = CliCommand { command: b"status net".to_vec(), help: None };
    let cmd1 = CliCommand { command: b"status".to_vec(), help: None };
    let mut matcher = CliLineMatcher::new(b"status", LineMatcherMode::AutocompleteOnly);
    matcher.match_cmd(&cmd2);
    matcher.match_cmd(&cmd1);
    match matcher.finish() {
        LineBufferResult::Autocomplete { result: AutocompleteResult::MultipleMatches { lines } } => {
            let fulls: Vec<Vec<u8>> =
                lines.iter().map(|l| l.get_full_new_line().clone()).collect();
            assert_eq!(vec![b"status".to_vec(), b"status net".to_vec()], fulls);
        },
        other => panic!("expected multiple matches, got {:?}", other),
    }
}

#[test]
fn test_path_aware_display_truncation() {
    // each candidate is truncated after the path separator relevant to it,
    // not at one global point
    let cmd1 = CliCommand { command: b"p1/hello".to_vec(), help: None };
    let cmd2 = CliCommand { command: b"p1/s1/hello".to_vec(), help: None };
    let mut matcher = CliLineMatcher::new(b"p1/", LineMatcherMode::AutocompleteOnly);
    matcher.match_cmd(&cmd1);
    matcher.match_cmd(&cmd2);
    match matcher.finish() {
        LineBufferResult::Autocomplete { result: AutocompleteResult::MultipleMatches { lines } } => {
            let displays: Vec<Vec<u8>> = lines.iter().map(|l| l.get_display().clone()).collect();
            assert_eq!(vec![b"hello".to_vec(), b"s1/".to_vec()], displays);
        },
        other => panic!("expected multiple matches, got {:?}", other),
    }
}

#[test]
fn test_path_segment_candidates() {
    // with an empty input, deep patterns suggest only their first path
    // segment, once
    let cmd1 = CliCommand { command: b"p1/hello".to_vec(), help: None };
    let cmd2 = CliCommand { command: b"p1/s1/hello".to_vec(), help: None };
    let mut matcher = CliLineMatcher::new(b"", LineMatcherMode::AutocompleteOnly);
    matcher.match_cmd(&cmd1);
    matcher.match_cmd(&cmd2);
    match matcher.finish() {
        LineBufferResult::Autocomplete { result: AutocompleteResult::SingleMatch { line } } => {
            assert_eq!(b"p1/".to_vec(), *line.get_full_new_line());
        },
        other => panic!("expected a single segment suggestion, got {:?}", other),
    }
}

#[test]
fn test_empty_pattern_never_matches() {
    let cmd = CliCommand { command: b"".to_vec(), help: None };
    let mut matcher = CliLineMatcher::new(b"", LineMatcherMode::Execute);
    assert_eq!(LineMatcherProgress::Processing, matcher.match_cmd(&cmd));
    assert_eq!(LineBufferResult::NoMatchFound, matcher.finish());
}

#[test]
fn test_line_prefix_is_tried_first() {
    let cmd = CliCommand { command: b"stats".to_vec(), help: None };
    let mut matcher = CliLineMatcher::new(b"net stats 1", LineMatcherMode::Execute);
    matcher.set_line_prefix(b"net ".to_vec());
    assert_eq!(LineMatcherProgress::MatchFound, matcher.match_cmd(&cmd));
    assert_eq!(LineBufferResult::Match { args: b"1".to_vec() }, matcher.finish());
}
