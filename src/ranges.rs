use vstd::prelude::*;

verus! {

/// Whether `s` begins with `p`.
pub open spec fn has_prefix(s: Seq<char>, p: Seq<char>) -> bool {
    p.len() <= s.len() && s.take(p.len() as int) == p
}

pub open spec fn workspace_prefix() -> Seq<char> {
    seq!['w', 'o', 'r', 'k', 's', 'p', 'a', 'c', 'e', ':']
}

pub open spec fn link_prefix() -> Seq<char> {
    seq!['l', 'i', 'n', 'k', ':']
}

pub open spec fn file_prefix() -> Seq<char> {
    seq!['f', 'i', 'l', 'e', ':']
}

/// A range that points at a directory on disk (`link:..` or `file:..`).
pub open spec fn is_local_link(range: Seq<char>) -> bool {
    has_prefix(range, link_prefix()) || has_prefix(range, file_prefix())
}

/// A range written with some protocol (`workspace:`, `npm:`, `link:` ...).
pub open spec fn is_protocol(range: Seq<char>) -> bool {
    range.contains(':')
}

/// `workspace:*`, `workspace:^` or `workspace:~`: always the workspace's own copy.
pub open spec fn is_workspace_wildcard(range: Seq<char>) -> bool {
    &&& has_prefix(range, workspace_prefix())
    &&& range.len() == workspace_prefix().len() + 1
    &&& {
        let c = range[workspace_prefix().len() as int];
        c == '*' || c == '^' || c == '~'
    }
}

/// Whether `VersionReq::parse` accepts `range`.
pub uninterp spec fn semver_range_parses(range: Seq<char>) -> bool;

/// Whether `Version::parse` accepts `version`.
pub uninterp spec fn semver_version_parses(version: Seq<char>) -> bool;

/// Whether the parsed `version` satisfies the parsed `range`.
pub uninterp spec fn semver_satisfies(range: Seq<char>, version: Seq<char>) -> bool;

/// What semver makes of a range and a version.
#[derive(Debug, PartialEq, Eq, Clone, Copy)]
pub enum SemverOutcome {
    /// The range is no semver range (a dist-tag such as `latest`).
    RangeUnparsable,
    /// The range parses, the version does not.
    VersionUnparsable,
    /// Both parse; whether the version satisfies the range.
    Compared(bool),
}

/// What semver says of `range` and `version`.
pub open spec fn semver_outcome(range: Seq<char>, version: Seq<char>) -> SemverOutcome {
    if !semver_range_parses(range) {
        SemverOutcome::RangeUnparsable
    } else if !semver_version_parses(version) {
        SemverOutcome::VersionUnparsable
    } else {
        SemverOutcome::Compared(semver_satisfies(range, version))
    }
}

/// Relies on semver's `VersionReq::parse` and `Version::parse` (whether each
/// string parses) and on `VersionReq::matches` (whether the version satisfies
/// the requirement). Each depends on its arguments alone.
#[verifier::external_body]
fn check_semver(range: &str, version: &str) -> (r: SemverOutcome)
    ensures
        r is RangeUnparsable <==> !semver_range_parses(range@),
        r is VersionUnparsable <==> (semver_range_parses(range@) && !semver_version_parses(version@)),
        r matches SemverOutcome::Compared(b) ==> b == semver_satisfies(range@, version@),
{
    match semver::VersionReq::parse(range) {
        Err(_) => SemverOutcome::RangeUnparsable,
        Ok(req) => match semver::Version::parse(version) {
            Err(_) => SemverOutcome::VersionUnparsable,
            Ok(v) => SemverOutcome::Compared(req.matches(&v)),
        },
    }
}

/// How one internal dependency declaration is treated.
#[derive(Debug, PartialEq, Eq, Clone, Copy)]
pub enum Verdict {
    /// The declaration is consistent: it becomes an edge of the graph.
    Edge,
    /// The declaration cannot be satisfied by the workspace: a warning, and the
    /// graph is no longer valid.
    Invalid,
    /// The declaration is left out without a word.
    Skip,
}

/// The verdict on a plain range (no protocol) once semver has looked at it.
pub open spec fn plain_range_verdict(outcome: SemverOutcome) -> Verdict {
    match outcome {
        SemverOutcome::RangeUnparsable => Verdict::Skip,
        SemverOutcome::VersionUnparsable => Verdict::Edge,
        SemverOutcome::Compared(true) => Verdict::Edge,
        SemverOutcome::Compared(false) => Verdict::Invalid,
    }
}

/// The verdict on `range`, declared for a workspace package whose version is
/// `version`, rules tried in this order.
pub open spec fn classify(range: Seq<char>, version: Seq<char>, bump_only_workspace: bool) -> Verdict {
    if is_workspace_wildcard(range) {
        Verdict::Edge
    } else if !has_prefix(range, workspace_prefix()) && bump_only_workspace {
        Verdict::Skip
    } else if is_protocol(range) {
        Verdict::Invalid
    } else {
        plain_range_verdict(semver_outcome(range, version))
    }
}

/// The verdict on a plain range, given what semver made of it.
pub fn verdict_for_outcome(outcome: SemverOutcome) -> (r: Verdict)
    ensures
        r == plain_range_verdict(outcome),
{
    match outcome {
        SemverOutcome::RangeUnparsable => Verdict::Skip,
        SemverOutcome::VersionUnparsable => Verdict::Edge,
        SemverOutcome::Compared(satisfied) => if satisfied {
            Verdict::Edge
        } else {
            Verdict::Invalid
        },
    }
}

/// Whether `s` begins with `p`.
pub fn starts_with(s: &str, p: &str) -> (r: bool)
    ensures
        r == has_prefix(s@, p@),
{
    let n = s.unicode_len();
    let m = p.unicode_len();
    if m > n {
        return false;
    }
    let mut i: usize = 0;
    while i < m
        invariant
            m <= n,
            n == s@.len(),
            m == p@.len(),
            i <= m,
            forall|j: int| 0 <= j < i ==> s@[j] == p@[j],
        decreases m - i,
    {
        if s.get_char(i) != p.get_char(i) {
            assert(s@.take(m as int)[i as int] != p@[i as int]);
            return false;
        }
        i = i + 1;
    }
    assert(s@.take(m as int) =~= p@);
    true
}

/// Whether `range` names a protocol, that is, holds a colon.
pub fn is_protocol_range(range: &str) -> (r: bool)
    ensures
        r == is_protocol(range@),
{
    let n = range.unicode_len();
    let mut i: usize = 0;
    while i < n
        invariant
            n == range@.len(),
            i <= n,
            forall|j: int| 0 <= j < i ==> range@[j] != ':',
        decreases n - i,
    {
        if range.get_char(i) == ':' {
            return true;
        }
        i = i + 1;
    }
    false
}

/// Whether `range` is a local link (`link:..` or `file:..`).
pub fn is_local_link_range(range: &str) -> (r: bool)
    ensures
        r == is_local_link(range@),
{
    proof {
        reveal_strlit("link:");
        reveal_strlit("file:");
    }
    assert("link:"@ =~= link_prefix());
    assert("file:"@ =~= file_prefix());
    starts_with(range, "link:") || starts_with(range, "file:")
}

/// The verdict on `range`, declared for a workspace package at `version`.
pub fn classify_range(range: &str, version: &str, bump_only_workspace: bool) -> (r: Verdict)
    ensures
        r == classify(range@, version@, bump_only_workspace),
{
    proof {
        reveal_strlit("workspace:");
    }
    assert("workspace:"@ =~= workspace_prefix());
    let uses_workspace = starts_with(range, "workspace:");
    if uses_workspace && range.unicode_len() == 11 {
        let c = range.get_char(10);
        if c == '*' || c == '^' || c == '~' {
            return Verdict::Edge;
        }
    }
    if !uses_workspace && bump_only_workspace {
        return Verdict::Skip;
    }
    if is_protocol_range(range) {
        return Verdict::Invalid;
    }
    verdict_for_outcome(check_semver(range, version))
}

/// `workspace:*`, `workspace:^` and `workspace:~` always make an edge,
/// whatever the target's version.
pub proof fn lemma_workspace_wildcard_is_edge(range: Seq<char>, version: Seq<char>, bump_only_workspace: bool)
    requires
        range == workspace_prefix() + seq!['*'] || range == workspace_prefix() + seq!['^']
            || range == workspace_prefix() + seq!['~'],
    ensures
        classify(range, version, bump_only_workspace) == Verdict::Edge,
{
    assert(range.take(workspace_prefix().len() as int) =~= workspace_prefix());
}

/// A `workspace:` range other than the three wildcards is never accepted, even
/// when it names the target's current version exactly.
pub proof fn lemma_pinned_workspace_is_invalid(range: Seq<char>, version: Seq<char>, bump_only_workspace: bool)
    requires
        has_prefix(range, workspace_prefix()),
        !is_workspace_wildcard(range),
    ensures
        classify(range, version, bump_only_workspace) == Verdict::Invalid,
{
    assert(range[9] == ':');
    assert(range.take(10)[9] == workspace_prefix()[9]);
}

/// A range without protocol that semver cannot read (a dist-tag such as
/// `latest`) is passed over without a word.
pub proof fn lemma_dist_tag_is_skipped(range: Seq<char>, version: Seq<char>, bump_only_workspace: bool)
    requires
        !is_protocol(range),
    ensures
        !semver_range_parses(range) ==> classify(range, version, bump_only_workspace) == Verdict::Skip,
{
    if is_workspace_wildcard(range) {
        assert(range[9] == ':');
        assert(range.take(10)[9] == workspace_prefix()[9]);
    }
}

/// When only `workspace:` ranges count, any other range is passed over without
/// a word.
pub proof fn lemma_bump_only_workspace_skips_others(range: Seq<char>, version: Seq<char>)
    requires
        !has_prefix(range, workspace_prefix()),
    ensures
        classify(range, version, true) == Verdict::Skip,
{
}

} // verus!
