use tradiff::line_position::LinePosition;

#[test]
fn three_lines_all_with_some_content() {
    let text = "abc\n12\nEFG";
    assert_eq!(LinePosition::from_offset(text, 0), Some(LinePosition::new(1, 1))); // a
    assert_eq!(LinePosition::from_offset(text, 1), Some(LinePosition::new(1, 2))); // b
    assert_eq!(LinePosition::from_offset(text, 2), Some(LinePosition::new(1, 3))); // c
    assert_eq!(LinePosition::from_offset(text, 3), Some(LinePosition::new(1, 4))); // \n
    assert_eq!(LinePosition::from_offset(text, 4), Some(LinePosition::new(2, 1))); // 1
    assert_eq!(LinePosition::from_offset(text, 5), Some(LinePosition::new(2, 2))); // 2
    assert_eq!(LinePosition::from_offset(text, 6), Some(LinePosition::new(2, 3))); // \n
    assert_eq!(LinePosition::from_offset(text, 7), Some(LinePosition::new(3, 1))); // E
    assert_eq!(LinePosition::from_offset(text, 8), Some(LinePosition::new(3, 2))); // F
    assert_eq!(LinePosition::from_offset(text, 9), Some(LinePosition::new(3, 3))); // G
    assert_eq!(LinePosition::from_offset(text, 10), None); // past EOF
    assert_eq!(LinePosition::from_offset(text, 11), None); // past EOF
}

#[test]
fn three_lines_all_with_some_content_andfourth_empty_line_at_end() {
    let text = "abc\n12\nEFG\n";
    assert_eq!(LinePosition::from_offset(text, 0), Some(LinePosition::new(1, 1))); // a
    assert_eq!(LinePosition::from_offset(text, 1), Some(LinePosition::new(1, 2))); // b
    assert_eq!(LinePosition::from_offset(text, 2), Some(LinePosition::new(1, 3))); // c
    assert_eq!(LinePosition::from_offset(text, 3), Some(LinePosition::new(1, 4))); // \n
    assert_eq!(LinePosition::from_offset(text, 4), Some(LinePosition::new(2, 1))); // 1
    assert_eq!(LinePosition::from_offset(text, 5), Some(LinePosition::new(2, 2))); // 2
    assert_eq!(LinePosition::from_offset(text, 6), Some(LinePosition::new(2, 3))); // \n
    assert_eq!(LinePosition::from_offset(text, 7), Some(LinePosition::new(3, 1))); // E
    assert_eq!(LinePosition::from_offset(text, 8), Some(LinePosition::new(3, 2))); // F
    assert_eq!(LinePosition::from_offset(text, 9), Some(LinePosition::new(3, 3))); // G
    assert_eq!(LinePosition::from_offset(text, 10), Some(LinePosition::new(3, 4))); // \n
    assert_eq!(LinePosition::from_offset(text, 11), None); // past EOF
}

#[test]
fn three_lines_with_first_empty() {
    let text = "\n12\nEFG\n";
    assert_eq!(LinePosition::from_offset(text, 0), Some(LinePosition::new(1, 1))); // \n
    assert_eq!(LinePosition::from_offset(text, 1), Some(LinePosition::new(2, 1))); // 1
    assert_eq!(LinePosition::from_offset(text, 2), Some(LinePosition::new(2, 2))); // 2
    assert_eq!(LinePosition::from_offset(text, 3), Some(LinePosition::new(2, 3))); // \n
    assert_eq!(LinePosition::from_offset(text, 4), Some(LinePosition::new(3, 1))); // E
    assert_eq!(LinePosition::from_offset(text, 5), Some(LinePosition::new(3, 2))); // F
    assert_eq!(LinePosition::from_offset(text, 6), Some(LinePosition::new(3, 3))); // G
    assert_eq!(LinePosition::from_offset(text, 7), Some(LinePosition::new(3, 4))); // \n
    assert_eq!(LinePosition::from_offset(text, 8), None);
    assert_eq!(LinePosition::from_offset(text, 9), None);
}

#[test]
fn empty_text() {
    let text = "";
    assert_eq!(LinePosition::from_offset(text, 0), None);
    assert_eq!(LinePosition::from_offset(text, 1), None);
    assert_eq!(LinePosition::from_offset(text, 2), None);
}

#[test]
fn single_empty_line() {
    let text = "\n";
    assert_eq!(LinePosition::from_offset(text, 0), Some(LinePosition::new(1, 1))); // \n
    assert_eq!(LinePosition::from_offset(text, 1), None);
    assert_eq!(LinePosition::from_offset(text, 2), None);
}

#[test]
fn single_line_with_content() {
    let text = "ab\n";
    assert_eq!(LinePosition::from_offset(text, 0), Some(LinePosition::new(1, 1))); // a
    assert_eq!(LinePosition::from_offset(text, 1), Some(LinePosition::new(1, 2))); // b
    assert_eq!(LinePosition::from_offset(text, 2), Some(LinePosition::new(1, 3))); // \n
    assert_eq!(LinePosition::from_offset(text, 3), None);
}
