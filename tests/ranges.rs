use fcsr::ranges::{classify_range, is_protocol_range, verdict_for_outcome, SemverOutcome, Verdict};

#[test]
fn verdicts_for_semver_outcomes() {
    assert_eq!(verdict_for_outcome(SemverOutcome::RangeUnparsable), Verdict::Skip);
    assert_eq!(verdict_for_outcome(SemverOutcome::VersionUnparsable), Verdict::Edge);
    assert_eq!(verdict_for_outcome(SemverOutcome::Compared(true)), Verdict::Edge);
    assert_eq!(verdict_for_outcome(SemverOutcome::Compared(false)), Verdict::Invalid);
}

#[test]
fn classify_goes_through_semver() {
    assert_eq!(classify_range(">=1.0.0", "0.5.0", false), Verdict::Invalid);
    assert_eq!(classify_range(">=1.0.0", "1.5.0", false), Verdict::Edge);
    assert_eq!(classify_range("latest", "1.5.0", false), Verdict::Skip);
    assert_eq!(classify_range("~1.2.0", "not-semver", false), Verdict::Edge);
}

#[test]
fn classify_protocols() {
    assert_eq!(classify_range("workspace:*", "x", false), Verdict::Edge);
    assert_eq!(classify_range("workspace:^", "x", true), Verdict::Edge);
    assert_eq!(classify_range("workspace:~", "1.0.0", false), Verdict::Edge);
    assert_eq!(classify_range("workspace:1.0.0", "1.0.0", false), Verdict::Invalid);
    assert_eq!(classify_range("workspace:**", "1.0.0", false), Verdict::Invalid);
    assert_eq!(classify_range("link:../a", "1.0.0", false), Verdict::Invalid);
    assert_eq!(classify_range("^1.0.0", "1.0.0", true), Verdict::Skip);
    assert!(is_protocol_range("git:x"));
    assert!(!is_protocol_range("^1.0.0"));
}
