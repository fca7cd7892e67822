//! The journal: its physical lines, which of them a run removes, and what is
//! left of it.

use froe::error::Error;
use froe::identifier::{RecordIdentifier, SegmentIdentifier, SegmentSet};
use froe::journal::analysis::{
    analyze_journal_lines, reject_head_disagreement, AnalysisStep, JournalAnalysis,
    RevisionVerdicts, JOURNAL_LINE_PREVIEW_LIMIT,
};
use froe::journal::proofs::{
    compacted_journal_rewrite, journal_convergence_of, pruned_journal_rewrite,
    retained_compacted_head_line, retained_raw_line_matches, verify_retained_journal_lines,
    verify_retained_journal_roots, JournalRewriteDecision,
};
use froe::journal::rewrite::prepare_journal_rewrite;
use froe::journal::scan::{
    parse_record_identifier_text, RawJournal, RawJournalLine, RawJournalLineClassification,
    RawJournalTimestamp,
};
use froe::plan::JournalRemovalReason;

const FIRST: &str = "11111111-1111-4111-a111-111111111111:1";
const SECOND: &str = "22222222-2222-4222-a222-222222222222:2";
const THIRD: &str = "33333333-3333-4333-a333-333333333333:3";

fn journal(text: &str) -> RawJournal {
    RawJournal::of_bytes(text.as_bytes().to_vec())
}

fn record(text: &str) -> RecordIdentifier {
    parse_record_identifier_text(text.as_bytes()).expect("a record identifier")
}

fn segments_of(texts: &[&str]) -> SegmentSet {
    let mut segments = SegmentSet::new();
    for text in texts {
        segments.insert(record(text).segment);
    }
    segments
}

/// Runs an analysis, answering each question from a list of unreadable
/// revisions.
fn analysis(
    raw: &RawJournal,
    segments: &SegmentSet,
    head: RecordIdentifier,
    retention: Option<usize>,
    unreadable: &[RecordIdentifier],
) -> Result<JournalAnalysis, Error> {
    let mut verdicts = RevisionVerdicts::for_journal(raw, head);
    loop {
        match analyze_journal_lines(raw, segments, &verdicts, head, retention)? {
            AnalysisStep::NeedsVerdict(revision) => {
                verdicts.record(raw, revision, !unreadable.contains(&revision));
            }
            AnalysisStep::Complete(complete) => return Ok(complete),
        }
    }
}

fn details(error: Error) -> String {
    match error {
        Error::InvalidFormat { details } => details,
        Error::InputOutput { details } => panic!("unexpected variant: {details}"),
    }
}

#[test]
fn scanner_preserves_every_raw_byte_and_classifies_ignored_lines() {
    let bytes = format!("{FIRST} root 1\nno-space\rnot-a-record root 2\n{SECOND} custom 3");
    let journal = journal(&bytes);
    assert_eq!(journal.source_bytes(), bytes.as_bytes());
    assert_eq!(
        journal
            .lines()
            .iter()
            .flat_map(RawJournalLine::raw_bytes)
            .copied()
            .collect::<Vec<_>>(),
        bytes.as_bytes()
    );
    assert!(matches!(
        journal.lines()[0].classification(),
        RawJournalLineClassification::Record(_)
    ));
    assert!(matches!(
        journal.lines()[1].classification(),
        RawJournalLineClassification::ParserSkippedNoSpace
    ));
    assert!(matches!(
        journal.lines()[2].classification(),
        RawJournalLineClassification::InvalidRecordIdentifier { .. }
    ));
    assert_eq!(
        journal.lines()[3].content_bytes(),
        format!("{SECOND} custom 3").as_bytes()
    );
}

#[test]
fn malformed_or_missing_timestamp_does_not_invalidate_a_record() {
    let journal = journal(&format!("{FIRST} tag not-a-number\n{SECOND} tag\n"));
    let RawJournalLineClassification::Record(first) = journal.lines()[0].classification() else {
        panic!("malformed timestamp must remain a record");
    };
    assert_eq!(first.tag, b"tag");
    assert_eq!(
        first.timestamp,
        RawJournalTimestamp::Malformed {
            raw: b"not-a-number".to_vec()
        }
    );
    let RawJournalLineClassification::Record(second) = journal.lines()[1].classification() else {
        panic!("missing timestamp must remain a record");
    };
    assert_eq!(second.timestamp, RawJournalTimestamp::Missing);
}

#[test]
fn invalid_identifiers_are_distinct_from_parser_skipped_lines() {
    let journal = RawJournal::of_bytes(b"garbage\ngarbage root 12\n".to_vec());
    assert!(matches!(
        journal.lines()[0].classification(),
        RawJournalLineClassification::ParserSkippedNoSpace
    ));
    assert_eq!(
        journal.lines()[1].classification(),
        &RawJournalLineClassification::InvalidRecordIdentifier {
            revision_text: b"garbage".to_vec()
        }
    );
}

#[test]
fn a_record_line_states_its_parts() {
    let journal = journal(&format!("{FIRST} root 1700000000000\r\n"));
    assert_eq!(journal.lines().len(), 1);
    let RawJournalLineClassification::Record(line) = journal.lines()[0].classification() else {
        panic!("a record");
    };
    assert_eq!(
        line.record_identifier,
        RecordIdentifier::new(
            SegmentIdentifier::new(0x1111_1111_1111_4111, 0xa111_1111_1111_1111),
            1
        )
    );
    assert_eq!(line.revision_text, FIRST.as_bytes());
    assert_eq!(line.tag, b"root");
    assert_eq!(
        line.timestamp,
        RawJournalTimestamp::Milliseconds {
            raw: b"1700000000000".to_vec(),
            value: 1_700_000_000_000
        }
    );
}

#[test]
fn an_empty_journal_has_no_lines() {
    assert!(journal("").lines().is_empty());
    assert_eq!(journal("\n\r\n\r").lines().len(), 3);
}

#[test]
fn crlf_and_duplicate_records_survive_byte_for_byte() {
    let bytes = format!("{FIRST} root +01\r\n{FIRST} root +01\r\n");
    let journal = journal(&bytes);
    assert_eq!(journal.lines().len(), 2);
    assert_eq!(journal.lines()[0], journal.lines()[1]);
    let outcome = prepare_journal_rewrite(&journal, &[1, 0]).expect("no-op rewrite");
    assert!(!outcome.changed);
    assert_eq!(outcome.output, bytes.as_bytes());
    let left = outcome.left_alone();
    assert!(left.agrees());
    assert!(left.backup_path.is_none());
    assert_eq!(left.removed_line_count, 0);
}

#[test]
fn rewrite_is_atomic_byte_preserving_and_creates_a_synced_backup() {
    let bytes = format!("ignored\r\n{FIRST} unusual bad\r\n{SECOND} root 2");
    let journal = journal(&bytes);
    let outcome = prepare_journal_rewrite(&journal, &[1, 2]).expect("rewrite journal");

    assert!(outcome.changed);
    assert_eq!(outcome.retained_record_count, 2);
    assert_eq!(outcome.removed_line_count, 1);
    let expected = format!("{FIRST} unusual bad\r\n{SECOND} root 2\n");
    assert_eq!(outcome.output, expected.as_bytes());
    assert_eq!(journal.source_bytes(), bytes.as_bytes());
    let installed = outcome.installed("journal.log.bak.000".to_owned());
    assert!(installed.agrees());
    assert_eq!(installed.backup_path.as_deref(), Some("journal.log.bak.000"));
    assert_eq!(installed.removed_line_count, 1);
    assert_eq!(installed.bytes_written, expected.len());
}

#[test]
fn a_rewrite_refuses_each_unusable_index() {
    let journal = journal(&format!("ignored\n{FIRST} root 1\n"));
    let nonexistent = details(prepare_journal_rewrite(&journal, &[2]).expect_err("no such line"));
    let non_record = details(prepare_journal_rewrite(&journal, &[0]).expect_err("no record"));
    let repeated = details(prepare_journal_rewrite(&journal, &[1, 1]).expect_err("twice"));
    assert!(nonexistent.contains('2'), "{nonexistent}");
    assert!(non_record.contains('0'), "{non_record}");
    assert!(repeated.contains('1'), "{repeated}");
    assert_ne!(nonexistent, non_record);
    assert_ne!(non_record, repeated);
}

#[test]
fn journal_cleanup_preserves_mixed_physical_terminators_exactly() {
    let head = FIRST;
    let retained = format!("{head} tag-lf 1\n{head} tag-crlf 2\r\n{head} tag-cr 3\r");
    let source = format!("{retained}parser-skipped\n");
    let raw = journal(&source);
    let analysed = analysis(&raw, &segments_of(&[head]), record(head), None, &[])
        .expect("plan mixed cleanup");
    assert_eq!(analysed.plan.removals.len(), 1);
    assert_eq!(analysed.plan.removals[0].line_number(), 4);
    let rewrite = prepare_journal_rewrite(&raw, &analysed.retained_indexes).expect("rewrite");
    assert_eq!(
        rewrite.output,
        retained.as_bytes(),
        "LF, CRLF, and bare-CR terminators must remain byte-exact"
    );
}

#[test]
fn journal_removal_preview_is_an_exact_bounded_byte_prefix() {
    let mut hostile = vec![0xff];
    hostile.extend(std::iter::repeat_n(b'x', JOURNAL_LINE_PREVIEW_LIMIT + 20));
    hostile.push(b'\n');
    let mut bytes = format!("{FIRST} root 1\n").into_bytes();
    bytes.extend_from_slice(&hostile);
    let raw = RawJournal::of_bytes(bytes);

    let analysed = analysis(&raw, &segments_of(&[FIRST]), record(FIRST), None, &[])
        .expect("plan long invalid line");
    let removal = analysed.plan.removals.last().expect("invalid line removal");
    assert_eq!(
        removal.preview_bytes(),
        &hostile[..JOURNAL_LINE_PREVIEW_LIMIT]
    );
    assert!(removal.preview_truncated());
    assert_eq!(removal.reason(), JournalRemovalReason::ParserSkippedNoSpace);
}

#[test]
fn dangling_journal_line_is_pruned_with_backup_and_archives_untouched() {
    let missing = SegmentIdentifier::new(7, 0xA000_0000_0000_0007);
    let mut dangling = String::new();
    missing.push_text(&mut dangling);
    let retained = format!("{FIRST} root 1\n");
    let source = format!("{retained}{dangling}:0 root 123\n");
    let raw = journal(&source);
    let analysed =
        analysis(&raw, &segments_of(&[FIRST]), record(FIRST), None, &[]).expect("plan");
    assert_eq!(analysed.plan.removals.len(), 1);
    let removal = &analysed.plan.removals[0];
    assert_eq!(
        removal.record_identifier().map(|record| record.segment),
        Some(missing)
    );
    assert_eq!(removal.reason(), JournalRemovalReason::MissingSegment);
    assert!(removal.preview_bytes().starts_with(dangling.as_bytes()));
    assert!(!removal.preview_truncated());
    assert_eq!(analysed.plan.missing_segments, 1);
    assert_eq!(analysed.plan.removed_lines, 1);
    let rewrite = prepare_journal_rewrite(&raw, &analysed.retained_indexes).expect("rewrite");
    assert_eq!(rewrite.removed_line_count, 1);
    assert_eq!(
        rewrite.output,
        retained.as_bytes(),
        "the retained physical journal line must be byte-exact"
    );
}

#[test]
fn a_bound_counts_only_revisions_that_actually_resolve() {
    let old_head = record(FIRST);
    let new_head = record(SECOND);
    let unreadable = RecordIdentifier::new(new_head.segment, new_head.record_number + 1);
    let mut unreadable_text = String::new();
    unreadable.push_text(&mut unreadable_text);
    let raw = journal(&format!(
        "{FIRST} root 0\n{unreadable_text} root 0\n{SECOND} root 0\n"
    ));
    let analysed = analysis(
        &raw,
        &segments_of(&[FIRST, SECOND]),
        new_head,
        Some(2),
        &[unreadable],
    )
    .expect("bounded plan");
    assert!(
        !analysed.plan.removals.iter().any(|removal| {
            removal.reason() == JournalRemovalReason::BeyondRetention
                && removal.record_identifier() == Some(old_head)
        }),
        "a readable revision was retired to make room for an unreadable one"
    );
    assert_eq!(analysed.plan.unreadable_revisions, 1);
    assert_eq!(analysed.plan.retained_record_ids, vec![old_head, new_head]);
}

#[test]
fn a_bound_larger_than_the_journal_removes_nothing() {
    let raw = journal(&format!("{FIRST} root 0\n{SECOND} root 0\n"));
    let analysed = analysis(
        &raw,
        &segments_of(&[FIRST, SECOND]),
        record(SECOND),
        Some(64),
        &[],
    )
    .expect("wide plan");
    assert!(
        !analysed
            .plan
            .removals
            .iter()
            .any(|removal| removal.reason() == JournalRemovalReason::BeyondRetention),
        "a bound wider than the journal must retire nothing"
    );
    assert!(analysed.plan.removals.is_empty());
}

#[test]
fn a_journal_retention_bound_retires_the_history_the_veto_protects() {
    let old_head = record(FIRST);
    let new_head = record(SECOND);
    let raw = journal(&format!("{FIRST} root 0\n{SECOND} root 0\n"));
    let segments = segments_of(&[FIRST, SECOND]);

    let protected = analysis(&raw, &segments, new_head, None, &[]).expect("unbounded plan");
    assert_eq!(
        protected.plan.retained_record_ids,
        vec![old_head, new_head],
        "without a bound the older revision stays a root"
    );

    let bounded = analysis(&raw, &segments, new_head, Some(1), &[]).expect("bounded plan");
    assert!(
        bounded.plan.removals.iter().any(|removal| {
            removal.reason() == JournalRemovalReason::BeyondRetention
                && removal.record_identifier() == Some(old_head)
        }),
        "the superseded revision must be removed as beyond retention"
    );
    assert_eq!(bounded.plan.retained_record_ids, vec![new_head]);
    let rewrite = prepare_journal_rewrite(&raw, &bounded.retained_indexes).expect("rewrite");
    assert_eq!(
        rewrite.output,
        format!("{SECOND} root 0\n").as_bytes(),
        "a bound of one leaves one journal line"
    );
}

#[test]
fn pruning_a_pruned_journal_removes_nothing_more() {
    let raw = journal(&format!("noise\n{FIRST} root 0\n{THIRD} root 1\n{SECOND} root 2"));
    let segments = segments_of(&[FIRST, SECOND]);
    let head = record(SECOND);
    let first = analysis(&raw, &segments, head, None, &[]).expect("first plan");
    assert_eq!(first.plan.removed_lines, 2);
    let rewrite = prepare_journal_rewrite(&raw, &first.retained_indexes).expect("rewrite");
    let again = RawJournal::of_bytes(rewrite.output);
    let second = analysis(&again, &segments, head, None, &[]).expect("second plan");
    assert_eq!(second.plan.removed_lines, 0);
    assert_eq!(second.plan.retained_record_ids, first.plan.retained_record_ids);
}

#[test]
fn a_journal_head_that_disagrees_is_refused() {
    let raw = journal(&format!("{FIRST} root 0\n{SECOND} root 0\n"));
    let segments = segments_of(&[FIRST, SECOND]);
    assert!(reject_head_disagreement(&raw, &segments, record(SECOND)).is_ok());
    let disagreement = details(
        reject_head_disagreement(&raw, &segments, record(FIRST)).expect_err("older line"),
    );
    assert!(disagreement.contains(SECOND), "{disagreement}");
    assert_eq!(
        details(
            reject_head_disagreement(&raw, &segments_of(&[THIRD]), record(FIRST))
                .expect_err("nothing resolves")
        ),
        "no raw journal record references an existing segment"
    );
}

#[test]
fn a_converged_journal_is_one_line_naming_the_head() {
    let head = record(SECOND);
    let single = journal(&format!("{SECOND} root 0\n"));
    assert!(journal_convergence_of(&single, head).single_line_naming_head);
    assert!(!journal_convergence_of(&single, record(FIRST)).single_line_naming_head);
    let double = journal(&format!("{FIRST} root 0\n{SECOND} root 0\n"));
    assert!(!journal_convergence_of(&double, head).single_line_naming_head);
}

#[test]
fn a_compacted_journal_keeps_the_line_of_the_published_head() {
    let raw = journal(&format!("{FIRST} root 0\nnoise\n{SECOND} root 1\n"));
    assert_eq!(
        retained_compacted_head_line(&raw, record(SECOND)).expect("the published head"),
        2
    );
    assert!(retained_compacted_head_line(&raw, record(THIRD)).is_err());
    match compacted_journal_rewrite(&raw, record(SECOND)).expect("a rewrite") {
        JournalRewriteDecision::Rewrite { retained_indexes } => {
            assert_eq!(retained_indexes, vec![2]);
        }
        JournalRewriteDecision::Unchanged(_) => panic!("two lines must go"),
    }
    let converged = journal(&format!("{SECOND} root 1\n"));
    match compacted_journal_rewrite(&converged, record(SECOND)).expect("nothing to do") {
        JournalRewriteDecision::Unchanged(outcome) => {
            assert!(!outcome.changed);
            assert_eq!(outcome.retained_record_count, 1);
            assert_eq!(outcome.backup_path, None);
        }
        JournalRewriteDecision::Rewrite { .. } => panic!("the only line names the head"),
    }
}

#[test]
fn a_pruned_journal_keeps_the_planned_lines() {
    let raw = journal(&format!("{FIRST} root 0\nnoise\n{SECOND} root 1\n"));
    let segments = segments_of(&[FIRST, SECOND]);
    let head = record(SECOND);
    let planned = analysis(&raw, &segments, head, None, &[]).expect("plan");
    let fresh = analysis(&raw, &segments, head, None, &[]).expect("fresh");
    match pruned_journal_rewrite(&raw, &planned.plan, fresh).expect("a rewrite") {
        JournalRewriteDecision::Rewrite { retained_indexes } => {
            assert_eq!(retained_indexes, vec![0, 2]);
        }
        JournalRewriteDecision::Unchanged(_) => panic!("the noise must go"),
    }
}

#[test]
fn lost_and_duplicate_roots_are_told_apart() {
    let first = record(FIRST);
    let second = record(SECOND);
    assert!(verify_retained_journal_roots(&vec![first, second], &vec![second, first]).is_ok());
    let lost = details(
        verify_retained_journal_roots(&vec![first, second], &vec![first]).expect_err("lost"),
    );
    assert_eq!(
        lost,
        format!(
            "cleanup made previously readable journal root {SECOND} unreadable or removed its journal line"
        )
    );
    let duplicate = details(
        verify_retained_journal_roots(&vec![first, first], &vec![first]).expect_err("one gone"),
    );
    assert_eq!(
        duplicate,
        format!("cleanup removed a duplicate readable journal line for root {FIRST}")
    );
}

#[test]
fn only_one_line_feed_may_be_added_to_a_retained_line() {
    assert!(retained_raw_line_matches(b"a b", b"a b"));
    assert!(retained_raw_line_matches(b"a b", b"a b\n"));
    assert!(!retained_raw_line_matches(b"a b\r", b"a b\r\n"));
    assert!(!retained_raw_line_matches(b"a b", b"a b\r\n"));
    let raw = journal(&format!("{FIRST} root 0\nnoise\n{SECOND} root 1\n"));
    let kept = vec![
        format!("{FIRST} root 0\n").into_bytes(),
        format!("{SECOND} root 1").into_bytes(),
    ];
    assert!(verify_retained_journal_lines(&raw, &kept).is_ok());
    let swapped = vec![kept[1].clone(), kept[0].clone()];
    assert!(verify_retained_journal_lines(&raw, &swapped).is_err());
}
