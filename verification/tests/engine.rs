use tradiff::diff::{added_ids, diff_entries, duplicated_ids, project_entries, removed_ids, sort_entries};
use tradiff::lexer::{next_token, LexOutcome};
use tradiff::line_position::LinePosition;
use tradiff::parsers::{parse_trafile, ParseError};
use tradiff::token::{LexError, Token};
use tradiff::tra_structs::{
    ExplicitTraEntry, TraEntry, TraEntryContent, TraFragment, WeiduString, WeiduStringLit,
};

fn entry(id: i64) -> TraEntry {
    TraEntry { id, content: TraEntryContent::At(0) }
}

fn parse_entries(input: &str) -> Vec<TraEntry> {
    let mut errors = Vec::new();
    let fragments = parse_trafile(&mut errors, input).unwrap();
    assert!(errors.is_empty());
    project_entries(&fragments)
}

#[test]
fn five_tilde_literal_keeps_interior_tildes() {
    let text = "~~~~~abc~~abc~~~~~";
    let n = text.chars().count();
    match next_token(text, n, 0) {
        LexOutcome::Token(Token::FiveTildesString(body), start, end) => {
            assert_eq!(body, "abc~~abc");
            assert_eq!(start, 0);
            assert_eq!(end, n);
        },
        other => panic!("expected a five-tilde string, got {other:?}"),
    }
}

#[test]
fn plain_tilde_literal_is_distinct_from_five_tilde_form() {
    let text = "~aaa~";
    let n = text.chars().count();
    match next_token(text, n, 0) {
        LexOutcome::Token(Token::TildeString(body), start, end) => {
            assert_eq!(body, "aaa");
            assert_eq!(start, 0);
            assert_eq!(end, n);
        },
        other => panic!("expected a tilde string, got {other:?}"),
    }
}

#[test]
fn unclosed_five_tilde_form_falls_back_to_plain_tilde() {
    let text = "~~~~~ab";
    let n = text.chars().count();
    match next_token(text, n, 0) {
        LexOutcome::Token(Token::TildeString(body), start, end) => {
            assert_eq!(body, "");
            assert_eq!(start, 0);
            assert_eq!(end, 2);
        },
        other => panic!("expected an empty tilde string, got {other:?}"),
    }
}

#[test]
fn end_of_line_comment_needs_a_newline() {
    let text = "// dangling";
    let n = text.chars().count();
    assert!(matches!(next_token(text, n, 0), LexOutcome::Fail(LexError::InvalidToken, 0)));
}

#[test]
fn negative_and_extreme_ids() {
    let entries = parse_entries("@-5 = ~a~ @-9223372036854775808 = ~b~");
    assert_eq!(entries.len(), 2);
    assert_eq!(entries[0].id, i64::MIN);
    assert_eq!(entries[1].id, -5);
}

#[test]
fn id_overflow_is_an_error_not_a_clamp() {
    let mut errors = Vec::new();
    let r = parse_trafile(&mut errors, "@9223372036854775808 = ~a~");
    assert!(matches!(
        r,
        Err(ParseError::User { error: LexError::IntegerOverflow, location: 0 })
    ));
}

#[test]
fn minus_sign_in_tlk_ref_is_an_invalid_digit() {
    let mut errors = Vec::new();
    let r = parse_trafile(&mut errors, "@1 = #-5");
    assert!(matches!(
        r,
        Err(ParseError::User { error: LexError::InvalidDigit, location: 5 })
    ));
}

#[test]
fn junk_at_start_of_file_is_fatal() {
    let mut errors = Vec::new();
    let r = parse_trafile(&mut errors, "junk @1 = ~a~");
    assert!(matches!(r, Err(ParseError::InvalidToken { location: 0 })));
    assert!(errors.is_empty());
}

#[test]
fn input_ending_mid_entry_is_fatal() {
    let mut errors = Vec::new();
    let r = parse_trafile(&mut errors, "@1 = ~aaa~ @2 =");
    assert!(matches!(r, Err(ParseError::UnrecognizedEof { .. })));
}

#[test]
fn stray_token_after_a_fragment_is_recovered() {
    let mut errors = Vec::new();
    let r = parse_trafile(&mut errors, "@1 = ~a~ = @2 = ~b~");
    let frags = r.unwrap();
    assert_eq!(frags.len(), 3);
    assert!(matches!(frags[0], TraFragment::Entry(TraEntry { id: 1, .. })));
    assert!(matches!(frags[1], TraFragment::Error));
    assert!(matches!(frags[2], TraFragment::Entry(TraEntry { id: 2, .. })));
    assert_eq!(errors.len(), 1);
    assert!(matches!(errors[0], ParseError::UnrecognizedToken { location: 9, .. }));
}

#[test]
fn error_location_resolves_to_line_and_column() {
    let mut errors = Vec::new();
    let input = "@1 = ~aaa~\njunk\n@2 = ~b~\n";
    let frags = parse_trafile(&mut errors, input).unwrap();
    assert_eq!(frags.len(), 3);
    assert_eq!(errors.len(), 1);
    match &errors[0] {
        ParseError::InvalidToken { location } => {
            assert_eq!(LinePosition::from_offset(input, *location), Some(LinePosition::new(2, 1)));
        },
        other => panic!("expected an invalid token, got {other:?}"),
    }
}

#[test]
fn bare_alias_and_tlk_reference_entries() {
    let entries = parse_entries("@1 = @7 @2 = #42");
    assert_eq!(
        entries,
        vec![
            TraEntry { id: 1, content: TraEntryContent::At(7) },
            TraEntry { id: 2, content: TraEntryContent::Tlk(42) },
        ]
    );
}

#[test]
fn tlk_reference_too_large_for_content_is_an_error() {
    let mut errors = Vec::new();
    let r = parse_trafile(&mut errors, "@1 = ~a~ @2 = #4294967296");
    let frags = r.unwrap();
    assert_eq!(frags.len(), 2);
    assert!(matches!(frags[1], TraFragment::Error));
    assert_eq!(errors.len(), 1);
    assert!(matches!(
        errors[0],
        ParseError::User { error: LexError::IntegerOverflow, location: 14 }
    ));
}

#[test]
fn concatenation_nests_innermost_first() {
    let mut errors = Vec::new();
    let frags = parse_trafile(&mut errors, "@1 = ~value~ ^ \"suffix\" ^ \"more\"").unwrap();
    let expected = WeiduString::Concat(
        Box::new(WeiduString::Concat(
            Box::new(WeiduString::Literal(WeiduStringLit::Tilde("value".to_string()))),
            Box::new(WeiduStringLit::DoubleQuote("suffix".to_string())),
        )),
        Box::new(WeiduStringLit::DoubleQuote("more".to_string())),
    );
    assert_eq!(
        frags,
        vec![TraFragment::Entry(TraEntry {
            id: 1,
            content: TraEntryContent::Explicit(ExplicitTraEntry {
                value: expected,
                sound: None,
                alt_value: None,
                alt_sound: None,
            }),
        })]
    );
}

#[test]
fn concatenation_from_an_alias_base() {
    let mut errors = Vec::new();
    let frags = parse_trafile(&mut errors, "@1 = @2 ^ ~x~").unwrap();
    assert_eq!(
        frags,
        vec![TraFragment::Entry(TraEntry {
            id: 1,
            content: TraEntryContent::Explicit(ExplicitTraEntry {
                value: WeiduString::Concat(
                    Box::new(WeiduString::At(2)),
                    Box::new(WeiduStringLit::Tilde("x".to_string())),
                ),
                sound: None,
                alt_value: None,
                alt_sound: None,
            }),
        })]
    );
}

#[test]
fn projection_is_sorted_and_stable() {
    let entries = parse_entries("@3 = ~c~ @1 = ~first~ @2 = ~b~ @1 = ~second~");
    let ids: Vec<i64> = entries.iter().map(|e| e.id).collect();
    assert_eq!(ids, vec![1, 1, 2, 3]);
    // Entries with equal ids keep their original order.
    assert_eq!(
        entries[0].content,
        TraEntryContent::Explicit(ExplicitTraEntry::simplest(WeiduStringLit::Tilde(
            "first".to_string()
        )))
    );
    assert_eq!(
        entries[1].content,
        TraEntryContent::Explicit(ExplicitTraEntry::simplest(WeiduStringLit::Tilde(
            "second".to_string()
        )))
    );
}

#[test]
fn duplicate_detection_reports_each_id_once() {
    let entries = vec![entry(1), entry(2), entry(2), entry(3), entry(3), entry(3)];
    let sorted = sort_entries(entries);
    assert_eq!(duplicated_ids(&sorted), vec![2, 3]);
}

#[test]
fn no_duplicates_in_distinct_ids() {
    let entries = vec![entry(1), entry(2), entry(3)];
    assert_eq!(duplicated_ids(&entries), Vec::<i64>::new());
}

#[test]
fn added_and_removed_between_two_files() {
    let first = vec![entry(1), entry(2), entry(3)];
    let second = vec![entry(2), entry(3), entry(4)];
    assert_eq!(added_ids(&first, &second), vec![4]);
    assert_eq!(removed_ids(&first, &second), vec![1]);
}

#[test]
fn diff_of_a_file_with_itself_is_empty() {
    let a = vec![entry(1), entry(2), entry(2), entry(5)];
    assert_eq!(added_ids(&a, &a), Vec::<i64>::new());
    assert_eq!(removed_ids(&a, &a), Vec::<i64>::new());
}

#[test]
fn diff_is_antisymmetric_on_sample_lists() {
    let a = vec![entry(1), entry(2), entry(3)];
    let b = vec![entry(2), entry(3), entry(4)];
    assert_eq!(added_ids(&a, &b), removed_ids(&b, &a));
    assert_eq!(removed_ids(&a, &b), added_ids(&b, &a));
}

#[test]
fn full_report_for_a_pair_of_files() {
    let first = parse_entries("@1 = ~a~ @2 = ~b~ @2 = ~b2~ @3 = ~c~");
    let second = parse_entries("@2 = ~b~ @3 = ~c~ @3 = ~c2~ @4 = ~d~");
    let report = diff_entries(&first, &second);
    assert_eq!(report.first_duplicates, vec![2]);
    assert_eq!(report.second_duplicates, vec![3]);
    assert_eq!(report.added, vec![4]);
    assert_eq!(report.removed, vec![1]);
}

#[test]
fn empty_file_has_no_fragments() {
    let mut errors = Vec::new();
    assert_eq!(parse_trafile(&mut errors, ""), Ok(vec![]));
    assert!(errors.is_empty());
}

#[test]
fn whitespace_only_file_has_no_fragments() {
    let mut errors = Vec::new();
    assert_eq!(parse_trafile(&mut errors, " \t\n \n"), Ok(vec![]));
    assert!(errors.is_empty());
}

#[test]
fn recovered_errors_are_appended_to_the_given_list() {
    let mut errors = vec![ParseError::InvalidToken { location: 999 }];
    let frags = parse_trafile(&mut errors, "@1 = ~a~\njunk\n@2 = ~b~\n").unwrap();
    assert_eq!(frags.len(), 3);
    assert_eq!(errors.len(), 2);
    assert!(matches!(errors[0], ParseError::InvalidToken { location: 999 }));
    assert!(matches!(errors[1], ParseError::InvalidToken { location: 9 }));
}

#[test]
fn enclosed_comment_is_non_greedy() {
    let text = "/*a**/";
    let n = text.chars().count();
    match next_token(text, n, 0) {
        LexOutcome::Token(Token::EnclosedComment(body), 0, end) => {
            assert_eq!(body, "a*");
            assert_eq!(end, n);
        },
        other => panic!("expected an enclosed comment, got {other:?}"),
    }
}

#[test]
fn ten_tildes_are_an_empty_five_tilde_literal() {
    let text = "~~~~~~~~~~";
    let n = text.chars().count();
    match next_token(text, n, 0) {
        LexOutcome::Token(Token::FiveTildesString(body), 0, end) => {
            assert_eq!(body, "");
            assert_eq!(end, n);
        },
        other => panic!("expected a five-tilde string, got {other:?}"),
    }
}

#[test]
fn bare_tlk_ref_can_stand_as_alt_value() {
    let mut errors = Vec::new();
    let frags = parse_trafile(&mut errors, "@1 = ~a~ #5").unwrap();
    assert_eq!(
        frags,
        vec![TraFragment::Entry(TraEntry {
            id: 1,
            content: TraEntryContent::Explicit(ExplicitTraEntry {
                value: WeiduString::Literal(WeiduStringLit::Tilde("a".to_string())),
                sound: None,
                alt_value: Some(WeiduString::Ref(5)),
                alt_sound: None,
            }),
        })]
    );
}

#[test]
fn concat_operator_at_end_of_input_is_fatal() {
    let mut errors = Vec::new();
    let r = parse_trafile(&mut errors, "@1 = ~v~ ^");
    assert!(matches!(r, Err(ParseError::UnrecognizedEof { .. })));
}

#[test]
fn concat_operator_needs_a_string_literal() {
    let mut errors = Vec::new();
    let r = parse_trafile(&mut errors, "@1 = ~v~ ^ @2");
    assert!(matches!(r, Err(ParseError::UnrecognizedToken { location: 11, .. })));
}
