use nextest_summary::extract::{extract_summary, trim_trailing, ExtractError};

#[test]
fn single_boundary_extracts_suffix() {
    let text = b"...noise...\n----------\n   Summary\n3 passed\n".to_vec();
    let summary = extract_summary(&text).unwrap();
    assert_eq!(summary, b"   Summary\n3 passed\n".to_vec());
    assert_eq!(trim_trailing(&summary), b"   Summary\n3 passed".to_vec());
}

#[test]
fn no_boundary_is_no_summary_found() {
    let text = b"hello\nworld\nnothing to see\n".to_vec();
    assert_eq!(extract_summary(&text), Err(ExtractError::NoSummaryFound));
}

#[test]
fn empty_text_is_no_summary_found() {
    let text = Vec::new();
    assert_eq!(extract_summary(&text), Err(ExtractError::NoSummaryFound));
}

#[test]
fn two_boundaries_are_ambiguous() {
    let text =
        b"...noise...\n----------\n   Summary\n3 passed\n----------\n   Summary\n3 passed\n"
            .to_vec();
    assert_eq!(extract_summary(&text), Err(ExtractError::AmbiguousSummary));
}

#[test]
fn extraction_is_idempotent() {
    let text = b"run output\n------------\n   Summary\n9 passed, 1 skipped\n".to_vec();
    let first = extract_summary(&text);
    let second = extract_summary(&text);
    assert_eq!(first, second);
    assert!(first.is_ok());
}

#[test]
fn crlf_separator_line_is_accepted() {
    let text = b"noise\n-----------\r\n\tSummary\nall good\n".to_vec();
    let summary = extract_summary(&text).unwrap();
    assert_eq!(summary, b"\tSummary\nall good\n".to_vec());
}

#[test]
fn more_than_ten_dashes_are_accepted() {
    let text = b"noise\n--------------------\n   Summary\nok\n".to_vec();
    let summary = extract_summary(&text).unwrap();
    assert_eq!(summary, b"   Summary\nok\n".to_vec());
}

#[test]
fn nine_dashes_are_not_a_boundary() {
    let text = b"noise\n---------\n   Summary\nok\n".to_vec();
    assert_eq!(extract_summary(&text), Err(ExtractError::NoSummaryFound));
}

#[test]
fn dash_line_needs_a_preceding_line_terminator() {
    let text = b"----------\n   Summary\nok\n".to_vec();
    assert_eq!(extract_summary(&text), Err(ExtractError::NoSummaryFound));
}

#[test]
fn heading_needs_leading_whitespace() {
    let text = b"noise\n----------\nSummary\nok\n".to_vec();
    assert_eq!(extract_summary(&text), Err(ExtractError::NoSummaryFound));
}

#[test]
fn summary_must_be_a_whole_word() {
    let text = b"noise\n----------\n   Summarize\nok\n".to_vec();
    assert_eq!(extract_summary(&text), Err(ExtractError::NoSummaryFound));
}

#[test]
fn punctuation_after_summary_keeps_the_word_whole() {
    let text = b"noise\n----------\n   Summary:\nok\n".to_vec();
    let summary = extract_summary(&text).unwrap();
    assert_eq!(summary, b"   Summary:\nok\n".to_vec());
}

#[test]
fn summary_at_end_of_text_is_accepted() {
    let text = b"noise\n----------\n Summary".to_vec();
    let summary = extract_summary(&text).unwrap();
    assert_eq!(summary, b" Summary".to_vec());
}

#[test]
fn earlier_near_boundaries_are_ignored() {
    // The nine-dash line before the first "Summary" is no boundary, so the
    // only boundary is the later ten-dash one.
    let text = b"x\n---------\n   Summary\nnot it\n----------\n   Summary\nreal\n".to_vec();
    let summary = extract_summary(&text).unwrap();
    assert_eq!(summary, b"   Summary\nreal\n".to_vec());
}

#[test]
fn dash_line_with_trailing_spaces_is_not_a_boundary() {
    let text = b"noise\n----------  \n   Summary\nok\n".to_vec();
    assert_eq!(extract_summary(&text), Err(ExtractError::NoSummaryFound));
}

#[test]
fn trim_trailing_removes_mixed_whitespace() {
    let text = b"   Summary\nok \t\r\n\n".to_vec();
    assert_eq!(trim_trailing(&text), b"   Summary\nok".to_vec());
}

#[test]
fn trim_trailing_of_all_whitespace_is_empty() {
    let text = b" \t\r\n".to_vec();
    assert_eq!(trim_trailing(&text), Vec::<u8>::new());
}
