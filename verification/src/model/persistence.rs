//! Checkpoint sidecars: what is recorded beside a checkpoint, and whether a checkpoint fits the
//! model and the tokenizer that are to use it.
use vstd::prelude::*;

use crate::digest;
use crate::failure::Failure;
use crate::path;
use crate::reals::{Real, ShortReal};
use crate::text;

verus! {

/// What is recorded beside a checkpoint.
#[derive(Debug, Clone, PartialEq, Eq)]
pub struct CheckpointMetadata {
    pub version: u32,
    pub created_at_utc: String,
    pub git_commit: Option<String>,
    pub input_source: String,
    pub model_shape: CheckpointModelShape,
    pub tokenizer: CheckpointTokenizer,
    pub training: CheckpointTrainingRun,
    pub final_metrics: CheckpointTrainingMetrics,
    /// Whether training was interrupted before its end.
    pub interrupted: bool,
    /// The step at which it was interrupted.
    pub interrupted_at_step: Option<usize>,
    /// The step of a mid-run checkpoint.
    pub step: Option<usize>,
    /// The steps between two mid-run checkpoints.
    pub interval: Option<usize>,
    /// The steps that were completed when the checkpoint was written.
    pub completed_steps: usize,
}

/// The shape of a model.
#[derive(Debug, Clone, Copy, PartialEq, Eq, Structural)]
pub struct CheckpointModelShape {
    pub vocab_size: usize,
    pub block_size: usize,
    pub embed_dim: usize,
    pub num_heads: usize,
    pub num_layers: usize,
}

/// The tokenizer of a checkpoint.
#[derive(Debug, Clone, PartialEq, Eq)]
pub struct CheckpointTokenizer {
    pub path: String,
    pub sha256: Option<String>,
    pub vocab_size: usize,
}

/// The training run of a checkpoint.
#[derive(Debug, Clone, PartialEq, Eq)]
pub struct CheckpointTrainingRun {
    pub backend: String,
    pub train_tokens: usize,
    pub value_tokens: usize,
    pub batch_size: usize,
    pub learning_rate: Real,
    pub train_steps: usize,
    pub eval_interval: usize,
    pub grad_clip_norm: ShortReal,
    pub prefetch_batches: usize,
}

/// What a training run came to.
#[derive(Debug, Clone, Copy, PartialEq, Eq, Structural)]
pub struct CheckpointTrainingMetrics {
    pub final_value_loss: Real,
    pub final_perplexity: Real,
}

/// One way in which a checkpoint does not fit.
#[derive(Debug, Clone, PartialEq, Eq)]
pub struct CheckpointCompatibilityIssue {
    pub field: String,
    pub expected: String,
    pub found: String,
}

/// What a [`CheckpointCompatibilityIssue`] says: the field, what was expected, what was found.
pub type IssueView = (Seq<char>, Seq<char>, Seq<char>);

/// All ways in which a checkpoint does not fit.
#[derive(Debug, Clone, PartialEq, Eq)]
pub struct CheckpointCompatibilityReport {
    pub compatible: bool,
    pub issues: Vec<CheckpointCompatibilityIssue>,
}

/// The views of issues.
pub open spec fn issue_views(issues: Seq<CheckpointCompatibilityIssue>) -> Seq<IssueView> {
    Seq::new(issues.len(), |i: int| (issues[i].field@, issues[i].expected@, issues[i].found@))
}

/// The issue of a number, where it differs from what is expected.
pub open spec fn usize_issue(field: Seq<char>, expected: usize, found: usize) -> Seq<IssueView> {
    if expected != found {
        seq![(field, text::decimal(expected as nat), text::decimal(found as nat))]
    } else {
        Seq::empty()
    }
}

/// The issue of the tokenizer digest. `found` is the digest of the tokenizer that is to be used;
/// without it, or without a recorded digest, there is nothing to compare.
pub open spec fn digest_issue(recorded: Option<String>, found: Option<Seq<char>>) -> Seq<IssueView> {
    match (recorded, found) {
        (Some(r), Some(f)) => if r@ != f {
            seq![("tokenizer.sha256"@, r@, f)]
        } else {
            Seq::empty()
        },
        _ => Seq::empty(),
    }
}

/// All issues of a checkpoint, in the order in which they are reported.
pub open spec fn all_issues(
    metadata: CheckpointMetadata,
    expected: CheckpointModelShape,
    found_digest: Option<Seq<char>>,
) -> Seq<IssueView> {
    usize_issue("model_shape.vocab_size"@, expected.vocab_size, metadata.model_shape.vocab_size)
        + usize_issue(
        "model_shape.block_size"@,
        expected.block_size,
        metadata.model_shape.block_size,
    ) + usize_issue("model_shape.embed_dim"@, expected.embed_dim, metadata.model_shape.embed_dim)
        + usize_issue("model_shape.num_heads"@, expected.num_heads, metadata.model_shape.num_heads)
        + usize_issue(
        "model_shape.num_layers"@,
        expected.num_layers,
        metadata.model_shape.num_layers,
    ) + usize_issue("tokenizer.vocab_size"@, expected.vocab_size, metadata.tokenizer.vocab_size)
        + digest_issue(metadata.tokenizer.sha256, found_digest)
}

/// The issues, each after a semicolon.
pub open spec fn issues_text(issues: Seq<IssueView>) -> Seq<char>
    decreases issues.len(),
{
    if issues.len() == 0 {
        Seq::empty()
    } else {
        let issue = issues.last();
        issues_text(issues.drop_last()) + "; "@ + issue.0 + " expected "@ + issue.1 + ", found "@
            + issue.2
    }
}

/// A report in one line.
pub open spec fn report_text(issues: Seq<IssueView>) -> Seq<char> {
    if issues.len() == 0 {
        "checkpoint metadata is compatible"@
    } else {
        "checkpoint metadata compatibility failed"@ + issues_text(issues)
    }
}

impl CheckpointCompatibilityReport {
    /// What every report keeps: it is compatible where there is no issue.
    pub open spec fn well_formed(self) -> bool {
        self.compatible == (self.issues@.len() == 0)
    }

    /// A report of the given issues.
    pub fn new(issues: Vec<CheckpointCompatibilityIssue>) -> (report: CheckpointCompatibilityReport)
        ensures
            report.well_formed(),
            report.issues == issues,
    {
        CheckpointCompatibilityReport { compatible: issues.len() == 0, issues }
    }

    /// This report in one line: see [`report_text`].
    pub fn to_text(&self) -> (s: String)
        requires
            self.well_formed(),
        ensures
            s@ == report_text(issue_views(self.issues@)),
    {
        if self.compatible {
            return "checkpoint metadata is compatible".to_owned();
        }
        let ghost views = issue_views(self.issues@);
        let mut list = String::new();
        let mut i: usize = 0;
        while i < self.issues.len()
            invariant
                i <= self.issues@.len(),
                views == issue_views(self.issues@),
                list@ == issues_text(views.take(i as int)),
            decreases self.issues.len() - i,
        {
            let issue = &self.issues[i];
            proof {
                assert(views.take(i as int + 1).drop_last() == views.take(i as int));
                assert(views.take(i as int + 1).last() == views[i as int]);
            }
            list.append("; ");
            list.append(issue.field.as_str());
            list.append(" expected ");
            list.append(issue.expected.as_str());
            list.append(", found ");
            list.append(issue.found.as_str());
            i += 1;
        }
        assert(views.take(views.len() as int) == views);
        let mut s = "checkpoint metadata compatibility failed".to_owned();
        s.append(list.as_str());
        s
    }
}

/// The sidecar of a checkpoint.
pub fn metadata_path(checkpoint_path: &str) -> (p: String)
    ensures
        p@ == path::with_extension(checkpoint_path@, "metadata.json"@),
{
    path::path_with_extension(checkpoint_path, "metadata.json")
}

/// The digest of a file's bytes, where there is a file.
pub open spec fn file_digest(contents: Option<Vec<u8>>) -> Option<Seq<char>> {
    match contents {
        Some(bytes) => Some(digest::hex_chars(digest::sha256_digest(bytes@))),
        None => None,
    }
}

/// The digest of a file's bytes, where there is a file.
pub fn sha256_file_hex(contents: &Option<Vec<u8>>) -> (s: Option<String>)
    ensures
        match s {
            Some(t) => file_digest(*contents) == Some(t@),
            None => contents is None,
        },
{
    match contents {
        Some(bytes) => Some(digest::sha256_hex(bytes.as_slice())),
        None => None,
    }
}

/// What a tokenizer file is compared by: its digest, or a note that it is missing.
pub open spec fn tokenizer_mark(contents: Option<Vec<u8>>) -> Seq<char> {
    match file_digest(contents) {
        Some(d) => d,
        None => "missing file"@,
    }
}

fn push_usize_issue(
    issues: &mut Vec<CheckpointCompatibilityIssue>,
    field: &str,
    expected: usize,
    found: usize,
)
    ensures
        issue_views(final(issues)@) == issue_views(old(issues)@) + usize_issue(
            field@,
            expected,
            found,
        ),
{
    if expected != found {
        push_issue(issues, field, text::usize_text(expected), text::usize_text(found));
    } else {
        assert(issue_views(issues@) + usize_issue(field@, expected, found) == issue_views(issues@));
    }
}

fn push_issue(
    issues: &mut Vec<CheckpointCompatibilityIssue>,
    field: &str,
    expected: String,
    found: String,
)
    ensures
        issue_views(final(issues)@) == issue_views(old(issues)@) + seq![
            (field@, expected@, found@),
        ],
{
    let ghost before = issues@;
    issues.push(CheckpointCompatibilityIssue { field: field.to_owned(), expected, found });
    assert(issue_views(issues@) == issue_views(before) + seq![(field@, expected@, found@)]);
}

/// The report about a checkpoint, for a tokenizer of the given digest: see [`all_issues`].
pub fn report_for_digest(
    metadata: &CheckpointMetadata,
    expected_shape: &CheckpointModelShape,
    found_digest: Option<&str>,
) -> (report: CheckpointCompatibilityReport)
    ensures
        report.well_formed(),
        issue_views(report.issues@) == all_issues(
            *metadata,
            *expected_shape,
            match found_digest {
                Some(d) => Some(d@),
                None => None,
            },
        ),
{
    let mut issues: Vec<CheckpointCompatibilityIssue> = Vec::new();
    assert(issue_views(issues@) == Seq::<IssueView>::empty());
    push_usize_issue(
        &mut issues,
        "model_shape.vocab_size",
        expected_shape.vocab_size,
        metadata.model_shape.vocab_size,
    );
    push_usize_issue(
        &mut issues,
        "model_shape.block_size",
        expected_shape.block_size,
        metadata.model_shape.block_size,
    );
    push_usize_issue(
        &mut issues,
        "model_shape.embed_dim",
        expected_shape.embed_dim,
        metadata.model_shape.embed_dim,
    );
    push_usize_issue(
        &mut issues,
        "model_shape.num_heads",
        expected_shape.num_heads,
        metadata.model_shape.num_heads,
    );
    push_usize_issue(
        &mut issues,
        "model_shape.num_layers",
        expected_shape.num_layers,
        metadata.model_shape.num_layers,
    );
    push_usize_issue(
        &mut issues,
        "tokenizer.vocab_size",
        expected_shape.vocab_size,
        metadata.tokenizer.vocab_size,
    );
    match (&metadata.tokenizer.sha256, found_digest) {
        (Some(recorded), Some(found)) => {
            if !text::same_text(recorded.as_str(), found) {
                push_issue(&mut issues, "tokenizer.sha256", recorded.clone(), found.to_owned());
            }
        },
        _ => {},
    }
    assert(issue_views(issues@) == all_issues(
        *metadata,
        *expected_shape,
        match found_digest {
            Some(d) => Some(d@),
            None => None,
        },
    ));
    CheckpointCompatibilityReport::new(issues)
}

/// The report about a checkpoint. `tokenizer_file` is the tokenizer that is to be used, with its
/// bytes where the file is there; without it the recorded digest is not compared.
pub fn checkpoint_compatibility_report(
    metadata: &CheckpointMetadata,
    expected_shape: &CheckpointModelShape,
    tokenizer_file: Option<&Option<Vec<u8>>>,
) -> (report: CheckpointCompatibilityReport)
    ensures
        report.well_formed(),
        issue_views(report.issues@) == all_issues(
            *metadata,
            *expected_shape,
            match tokenizer_file {
                Some(contents) => Some(tokenizer_mark(*contents)),
                None => None,
            },
        ),
{
    match tokenizer_file {
        Some(contents) => {
            let found = match sha256_file_hex(contents) {
                Some(d) => d,
                None => "missing file".to_owned(),
            };
            report_for_digest(metadata, expected_shape, Some(found.as_str()))
        },
        None => report_for_digest(metadata, expected_shape, None),
    }
}

/// Refuses a checkpoint with issues.
pub fn validate_checkpoint_compatibility(
    metadata: &CheckpointMetadata,
    expected_shape: &CheckpointModelShape,
    tokenizer_file: Option<&Option<Vec<u8>>>,
) -> (r: Result<(), Failure>)
    ensures
        ({
            let issues = all_issues(
                *metadata,
                *expected_shape,
                match tokenizer_file {
                    Some(contents) => Some(tokenizer_mark(*contents)),
                    None => None,
                },
            );
            match r {
                Ok(_) => issues.len() == 0,
                Err(e) => issues.len() > 0 && e.cause is None && e.message@ == report_text(issues),
            }
        }),
{
    let report = checkpoint_compatibility_report(metadata, expected_shape, tokenizer_file);
    assert(issue_views(report.issues@).len() == report.issues@.len());
    if !report.compatible {
        return Err(Failure::of(report.to_text()));
    }
    Ok(())
}

/// All issues of a checkpoint that has to record the digest of its tokenizer.
pub open spec fn strict_issues(
    metadata: CheckpointMetadata,
    expected: CheckpointModelShape,
    tokenizer_path: Seq<char>,
    found_digest: Seq<char>,
) -> Seq<IssueView> {
    let issues = all_issues(metadata, expected, Some(found_digest));
    if metadata.tokenizer.sha256 is None {
        issues + seq![
            (
                "tokenizer.sha256"@,
                "sha256 recorded in checkpoint metadata for tokenizer "@ + tokenizer_path,
                "missing"@,
            ),
        ]
    } else {
        issues
    }
}

/// The message about a checkpoint that is refused.
pub open spec fn strict_failure_text(
    checkpoint_path: Seq<char>,
    tokenizer_path: Seq<char>,
    issues: Seq<IssueView>,
) -> Seq<char> {
    "strict checkpoint metadata validation failed for checkpoint "@ + path::with_extension(
        checkpoint_path,
        "mpk"@,
    ) + " with tokenizer "@ + tokenizer_path + ": "@ + report_text(issues)
}

/// Refuses a checkpoint with issues, and one that does not record the digest of its tokenizer.
pub fn validate_checkpoint_compatibility_strict(
    checkpoint_path: &str,
    metadata: &CheckpointMetadata,
    expected_shape: &CheckpointModelShape,
    tokenizer_path: &str,
    tokenizer_file: &Option<Vec<u8>>,
) -> (r: Result<(), Failure>)
    ensures
        ({
            let issues = strict_issues(
                *metadata,
                *expected_shape,
                tokenizer_path@,
                tokenizer_mark(*tokenizer_file),
            );
            match r {
                Ok(_) => issues.len() == 0,
                Err(e) => issues.len() > 0 && e.cause is None && e.message@ == strict_failure_text(
                    checkpoint_path@,
                    tokenizer_path@,
                    issues,
                ),
            }
        }),
{
    let mut report = checkpoint_compatibility_report(metadata, expected_shape, Some(tokenizer_file));
    if metadata.tokenizer.sha256.is_none() {
        let mut expected = "sha256 recorded in checkpoint metadata for tokenizer ".to_owned();
        expected.append(tokenizer_path);
        push_issue(&mut report.issues, "tokenizer.sha256", expected, "missing".to_owned());
        report.compatible = false;
    }
    assert(issue_views(report.issues@).len() == report.issues@.len());
    if !report.compatible {
        let mut message = "strict checkpoint metadata validation failed for checkpoint ".to_owned();
        message.append(path::path_with_extension(checkpoint_path, "mpk").as_str());
        message.append(" with tokenizer ");
        message.append(tokenizer_path);
        message.append(": ");
        message.append(report.to_text().as_str());
        return Err(Failure::of(message));
    }
    Ok(())
}

/// The message about a checkpoint without a sidecar.
pub open spec fn missing_sidecar_text(checkpoint_path: Seq<char>) -> Seq<char> {
    "strict checkpoint metadata validation failed for checkpoint "@ + path::with_extension(
        checkpoint_path,
        "mpk"@,
    ) + ": missing metadata sidecar "@ + path::with_extension(checkpoint_path, "metadata.json"@)
        + "; runtime MiniGPT checkpoint loads require metadata before Burn model deserialization"@
}

/// Whether the weights of a checkpoint may be read at all: only where it has a sidecar, and the
/// sidecar fits.
pub fn admit_checkpoint(
    checkpoint_path: &str,
    metadata: &Option<CheckpointMetadata>,
    expected_shape: &CheckpointModelShape,
    tokenizer_path: &str,
    tokenizer_file: &Option<Vec<u8>>,
) -> (r: Result<(), Failure>)
    ensures
        match *metadata {
            None => r matches Err(e) && e.cause is None && e.message@ == missing_sidecar_text(checkpoint_path@),
            Some(m) => {
                let issues = strict_issues(
                    m,
                    *expected_shape,
                    tokenizer_path@,
                    tokenizer_mark(*tokenizer_file),
                );
                match r {
                    Ok(_) => issues.len() == 0,
                    Err(e) => issues.len() > 0 && e.cause is None && e.message@ == strict_failure_text(
                        checkpoint_path@,
                        tokenizer_path@,
                        issues,
                    ),
                }
            },
        },
{
    match metadata {
        None => {
            let mut message =
                "strict checkpoint metadata validation failed for checkpoint ".to_owned();
            message.append(path::path_with_extension(checkpoint_path, "mpk").as_str());
            message.append(": missing metadata sidecar ");
            message.append(metadata_path(checkpoint_path).as_str());
            message.append(
                "; runtime MiniGPT checkpoint loads require metadata before Burn model deserialization",
            );
            Err(Failure::of(message))
        },
        Some(m) => validate_checkpoint_compatibility_strict(
            checkpoint_path,
            m,
            expected_shape,
            tokenizer_path,
            tokenizer_file,
        ),
    }
}

/// Whether the weights of a checkpoint may be read, where a missing sidecar is no hindrance.
pub fn admit_checkpoint_leniently(
    metadata: &Option<CheckpointMetadata>,
    expected_shape: &CheckpointModelShape,
    tokenizer_file: Option<&Option<Vec<u8>>>,
) -> (r: Result<(), Failure>)
    ensures
        match *metadata {
            None => r is Ok,
            Some(m) => {
                let issues = all_issues(
                    m,
                    *expected_shape,
                    match tokenizer_file {
                        Some(contents) => Some(tokenizer_mark(*contents)),
                        None => None,
                    },
                );
                match r {
                    Ok(_) => issues.len() == 0,
                    Err(e) => issues.len() > 0 && e.cause is None && e.message@ == report_text(issues),
                }
            },
        },
{
    match metadata {
        None => Ok(()),
        Some(m) => validate_checkpoint_compatibility(m, expected_shape, tokenizer_file),
    }
}

/// A checkpoint has no issue exactly where every number of its shape is the expected one and its
/// recorded tokenizer digest, where there is something to compare it with, is that of the
/// tokenizer in use.
pub proof fn law_no_issue_means_same_shape(
    metadata: CheckpointMetadata,
    expected: CheckpointModelShape,
    found_digest: Option<Seq<char>>,
)
    ensures
        all_issues(metadata, expected, found_digest).len() == 0 <==> {
            &&& metadata.model_shape == expected
            &&& metadata.tokenizer.vocab_size == expected.vocab_size
            &&& (metadata.tokenizer.sha256 is Some && found_digest is Some
                ==> metadata.tokenizer.sha256->Some_0@ == found_digest->Some_0)
        },
{
}

/// What is admitted strictly is admitted leniently too.
pub proof fn law_strict_implies_lenient(
    metadata: CheckpointMetadata,
    expected: CheckpointModelShape,
    tokenizer_path: Seq<char>,
    found_digest: Seq<char>,
)
    requires
        strict_issues(metadata, expected, tokenizer_path, found_digest).len() == 0,
    ensures
        all_issues(metadata, expected, Some(found_digest)).len() == 0,
        metadata.tokenizer.sha256 is Some,
        metadata.tokenizer.sha256->Some_0@ == found_digest,
{
    law_no_issue_means_same_shape(metadata, expected, Some(found_digest));
}

/// A checkpoint is admitted strictly exactly where its shape is the expected one in all five sizes,
/// its tokenizer has as many tokens, and the digest of the tokenizer is recorded and is the one
/// found.
pub proof fn law_strict_checkpoints_fit_in_everything(
    metadata: CheckpointMetadata,
    expected: CheckpointModelShape,
    tokenizer_path: Seq<char>,
    found_digest: Seq<char>,
)
    ensures
        strict_issues(metadata, expected, tokenizer_path, found_digest).len() == 0
            <==> metadata.model_shape == expected && metadata.tokenizer.vocab_size
            == expected.vocab_size && (metadata.tokenizer.sha256 matches Some(recorded) && recorded@
            == found_digest),
{
}

/// Every size that differs is reported by its name, with what was expected and what was found, and
/// so is a digest that differs.
pub proof fn law_every_difference_is_reported(
    metadata: CheckpointMetadata,
    expected: CheckpointModelShape,
    found_digest: Option<Seq<char>>,
)
    ensures
        ({
            let issues = all_issues(metadata, expected, found_digest);
            let shape = metadata.model_shape;
            let tells = |field: Seq<char>, wanted: usize, found: usize|
                wanted != found ==> issues.contains(
                    (field, text::decimal(wanted as nat), text::decimal(found as nat)),
                );
            &&& tells("model_shape.vocab_size"@, expected.vocab_size, shape.vocab_size)
            &&& tells("model_shape.block_size"@, expected.block_size, shape.block_size)
            &&& tells("model_shape.embed_dim"@, expected.embed_dim, shape.embed_dim)
            &&& tells("model_shape.num_heads"@, expected.num_heads, shape.num_heads)
            &&& tells("model_shape.num_layers"@, expected.num_layers, shape.num_layers)
            &&& tells("tokenizer.vocab_size"@, expected.vocab_size, metadata.tokenizer.vocab_size)
            &&& metadata.tokenizer.sha256 matches Some(r) ==> found_digest matches Some(f) ==> r@
                != f ==> issues.contains(("tokenizer.sha256"@, r@, f))
        }),
{
    let shape = metadata.model_shape;
    let i1 = usize_issue("model_shape.vocab_size"@, expected.vocab_size, shape.vocab_size);
    let i2 = usize_issue("model_shape.block_size"@, expected.block_size, shape.block_size);
    let i3 = usize_issue("model_shape.embed_dim"@, expected.embed_dim, shape.embed_dim);
    let i4 = usize_issue("model_shape.num_heads"@, expected.num_heads, shape.num_heads);
    let i5 = usize_issue("model_shape.num_layers"@, expected.num_layers, shape.num_layers);
    let i6 = usize_issue(
        "tokenizer.vocab_size"@,
        expected.vocab_size,
        metadata.tokenizer.vocab_size,
    );
    let i7 = digest_issue(metadata.tokenizer.sha256, found_digest);
    let s2 = i1 + i2;
    let s3 = s2 + i3;
    let s4 = s3 + i4;
    let s5 = s4 + i5;
    let s6 = s5 + i6;
    let all = s6 + i7;
    assert(all == all_issues(metadata, expected, found_digest));
    if i1.len() > 0 {
        assert(all[0] == i1[0]);
    }
    if i2.len() > 0 {
        assert(all[i1.len() as int] == i2[0]);
    }
    if i3.len() > 0 {
        assert(all[s2.len() as int] == i3[0]);
    }
    if i4.len() > 0 {
        assert(all[s3.len() as int] == i4[0]);
    }
    if i5.len() > 0 {
        assert(all[s4.len() as int] == i5[0]);
    }
    if i6.len() > 0 {
        assert(all[s5.len() as int] == i6[0]);
    }
    if i7.len() > 0 {
        assert(all[s6.len() as int] == i7[0]);
    }
}

/// A report tells its issues one after the other, each by its field, by what was expected and by
/// what was found.
pub proof fn law_reports_tell_issue_by_issue(a: Seq<IssueView>, b: Seq<IssueView>, issue: IssueView)
    ensures
        issues_text(a + b) == issues_text(a) + issues_text(b),
        issues_text(seq![issue]) == "; "@ + issue.0 + " expected "@ + issue.1 + ", found "@
            + issue.2,
        report_text(Seq::<IssueView>::empty()) == "checkpoint metadata is compatible"@,
        a.len() > 0 ==> report_text(a) == "checkpoint metadata compatibility failed"@
            + issues_text(a),
    decreases b.len(),
{
    let none = Seq::<IssueView>::empty();
    assert(seq![issue].drop_last() == none);
    assert(issues_text(none) == Seq::<char>::empty());
    assert(Seq::<char>::empty() + "; "@ == "; "@);
    if b.len() == 0 {
        assert(a + b == a);
        assert(issues_text(a) + issues_text(b) == issues_text(a));
    } else {
        law_reports_tell_issue_by_issue(a, b.drop_last(), issue);
        assert((a + b).drop_last() == a + b.drop_last());
        assert((a + b).last() == b.last());
        let last = b.last();
        let before = issues_text(a);
        let middle = issues_text(b.drop_last());
        assert((before + middle) + "; "@ + last.0 + " expected "@ + last.1 + ", found "@ + last.2
            == before + (middle + "; "@ + last.0 + " expected "@ + last.1 + ", found "@ + last.2));
    }
}

/// A strict refusal ends in the report of all issues, behind the checkpoint and the tokenizer that
/// it is about.
pub proof fn law_strict_refusals_end_in_the_report(
    checkpoint_path: Seq<char>,
    tokenizer_path: Seq<char>,
    issues: Seq<IssueView>,
)
    ensures
        report_text(issues).is_suffix_of(
            strict_failure_text(checkpoint_path, tokenizer_path, issues),
        ),
        ("strict checkpoint metadata validation failed for checkpoint "@ + path::with_extension(
            checkpoint_path,
            "mpk"@,
        )).is_prefix_of(strict_failure_text(checkpoint_path, tokenizer_path, issues)),
        ("strict checkpoint metadata validation failed for checkpoint "@ + path::with_extension(
            checkpoint_path,
            "mpk"@,
        )).is_prefix_of(missing_sidecar_text(checkpoint_path)),
{
}

} // verus!
