use nextest_summary::batch::{run_batch, BatchEntry};
use nextest_summary::extract::ExtractError;

fn entry(name: &[u8], text: &[u8]) -> BatchEntry {
    BatchEntry {
        name: name.to_vec(),
        text: text.to_vec(),
    }
}

#[test]
fn batch_maps_eligible_entries_and_skips_others() {
    let entries = vec![
        entry(b"a.log", b"noise a\n----------\n   Summary\nA ok\n"),
        entry(b"b.txt", b"noise b\n----------\n   Summary\nB ok\n"),
        entry(b"c.md", b"noise c\n----------\n   Summary\nC ok\n"),
    ];
    let outs = run_batch(&entries).unwrap();
    assert_eq!(outs.len(), 2);
    assert_eq!(outs[0].name, b"a-summary.log".to_vec());
    assert_eq!(outs[0].text, b"   Summary\nA ok\n".to_vec());
    assert_eq!(outs[1].name, b"b-summary.txt".to_vec());
    assert_eq!(outs[1].text, b"   Summary\nB ok\n".to_vec());
}

#[test]
fn batch_aborts_on_first_extraction_error() {
    let entries = vec![
        entry(b"a.log", b"noise a\n----------\n   Summary\nA ok\n"),
        entry(b"b.txt", b"no boundary here\n"),
        entry(b"c.log", b"noise c\n----------\n   Summary\nC ok\n"),
    ];
    assert!(matches!(
        run_batch(&entries),
        Err(ExtractError::NoSummaryFound)
    ));
}

#[test]
fn batch_propagates_ambiguity() {
    let entries = vec![entry(
        b"a.log",
        b"x\n----------\n   Summary\none\n----------\n   Summary\ntwo\n",
    )];
    assert!(matches!(
        run_batch(&entries),
        Err(ExtractError::AmbiguousSummary)
    ));
}

#[test]
fn batch_of_only_ineligible_entries_writes_nothing() {
    let entries = vec![entry(b"notes.md", b"anything"), entry(b"data", b"anything")];
    let outs = run_batch(&entries).unwrap();
    assert_eq!(outs.len(), 0);
}

#[test]
fn empty_batch_succeeds() {
    let entries = Vec::new();
    let outs = run_batch(&entries).unwrap();
    assert_eq!(outs.len(), 0);
}

#[test]
fn ineligible_entry_with_bad_text_is_still_skipped() {
    // The skip decision comes before extraction, so an ineligible entry
    // whose text has no boundary does not abort the batch.
    let entries = vec![
        entry(b"c.md", b"no boundary here\n"),
        entry(b"a.log", b"noise\n----------\n   Summary\nok\n"),
    ];
    let outs = run_batch(&entries).unwrap();
    assert_eq!(outs.len(), 1);
    assert_eq!(outs[0].name, b"a-summary.log".to_vec());
}
