use nextest_summary::naming::name_outfile;

#[test]
fn log_and_txt_extensions_are_eligible() {
    assert_eq!(
        name_outfile(&b"report.log".to_vec()),
        Some(b"report-summary.log".to_vec())
    );
    assert_eq!(
        name_outfile(&b"report.txt".to_vec()),
        Some(b"report-summary.txt".to_vec())
    );
}

#[test]
fn other_extensions_are_skipped() {
    assert_eq!(name_outfile(&b"report.md".to_vec()), None);
    assert_eq!(name_outfile(&b"report".to_vec()), None);
    assert_eq!(name_outfile(&b"report.LOG".to_vec()), None);
}

#[test]
fn naming_formula() {
    assert_eq!(
        name_outfile(&b"run1.log".to_vec()),
        Some(b"run1-summary.log".to_vec())
    );
}

#[test]
fn hidden_file_has_no_extension() {
    assert_eq!(name_outfile(&b".log".to_vec()), None);
}

#[test]
fn only_the_last_dot_counts() {
    assert_eq!(
        name_outfile(&b"a.b.log".to_vec()),
        Some(b"a.b-summary.log".to_vec())
    );
    assert_eq!(name_outfile(&b"a.log.md".to_vec()), None);
}

#[test]
fn near_miss_extensions_are_skipped() {
    assert_eq!(name_outfile(&b"report.lo".to_vec()), None);
    assert_eq!(name_outfile(&b"report.logg".to_vec()), None);
    assert_eq!(name_outfile(&b"report.".to_vec()), None);
}
