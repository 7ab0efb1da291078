//! Strict validation of an input reference before any file or network is touched.
//!
//! An input is either a local path or a Hugging Face dataset reference of the form
//! `hf://<org>/<dataset>[@<revision>][?key=value[&key=value...]]`. [`InputSource::parse`]
//! decides by the text alone. [`InputSource::validate_local_size`] decides by what the
//! filesystem reported about a local path.
use vstd::prelude::*;

use crate::text;

verus! {

/// Default cap for local input files: 1 GiB.
pub const DEFAULT_MAX_LOCAL_INPUT_BYTES: u64 = 1024 * 1024 * 1024;

/// A parsed and validated input reference.
#[derive(Debug, Clone, PartialEq, Eq)]
pub enum InputSource {
    /// A path on the local filesystem.
    Local(String),
    /// A Hugging Face dataset reference.
    HuggingFace {
        org: String,
        dataset: String,
        revision: Option<String>,
        /// Validated query string in `k=v&k=v` form, without the leading `?`.
        query: Option<String>,
    },
}

/// What an [`InputSource`] says.
pub enum InputSourceView {
    Local(Seq<char>),
    HuggingFace {
        org: Seq<char>,
        dataset: Seq<char>,
        revision: Option<Seq<char>>,
        query: Option<Seq<char>>,
    },
}

/// Why an input reference was refused.
#[derive(Debug, Clone, PartialEq, Eq)]
pub enum InputSourceError {
    /// The input was the empty string.
    Empty,
    /// A scheme other than `hf://` was provided.
    UnsupportedScheme { scheme: String },
    /// The `hf://` reference is not of the form `hf://<org>/<dataset>[@<revision>]`.
    MalformedHuggingFaceUri { reason: String, raw: String },
    /// A segment holds a character outside `[A-Za-z0-9._-]`.
    DisallowedHuggingFaceCharacters { component: &'static str, value: String },
    /// A segment is `.` or `..`.
    HuggingFaceTraversalSegment { component: &'static str, value: String },
    /// A query key is not one of the known ones.
    DisallowedHuggingFaceQueryKey { key: String },
    /// A query value is empty, a traversal segment, or holds a character outside
    /// `[A-Za-z0-9._-]`.
    DisallowedHuggingFaceQueryValue { key: String, value: String, reason: &'static str },
    /// The query string is not of the form `key=value[&key=value...]`.
    MalformedHuggingFaceQuery { reason: String, raw: String },
    /// A local file exceeds the configured maximum size.
    LocalFileTooLarge { path: String, size_bytes: u64, max_bytes: u64 },
    /// A local path does not point to a regular file.
    LocalPathNotAFile { path: String },
    /// The metadata of a local path could not be read.
    LocalMetadataUnreadable { path: String, source: String },
}

/// What an [`InputSourceError`] says.
pub enum InputSourceErrorView {
    Empty,
    UnsupportedScheme { scheme: Seq<char> },
    MalformedHuggingFaceUri { reason: Seq<char>, raw: Seq<char> },
    DisallowedHuggingFaceCharacters { component: Seq<char>, value: Seq<char> },
    HuggingFaceTraversalSegment { component: Seq<char>, value: Seq<char> },
    DisallowedHuggingFaceQueryKey { key: Seq<char> },
    DisallowedHuggingFaceQueryValue { key: Seq<char>, value: Seq<char>, reason: Seq<char> },
    MalformedHuggingFaceQuery { reason: Seq<char>, raw: Seq<char> },
    LocalFileTooLarge { path: Seq<char>, size_bytes: u64, max_bytes: u64 },
    LocalPathNotAFile { path: Seq<char> },
    LocalMetadataUnreadable { path: Seq<char>, source: Seq<char> },
}

/// What the filesystem reported about a local path.
#[derive(Debug, Clone, PartialEq, Eq)]
pub enum LocalMetadata {
    /// The metadata could not be read; `source` is the system's message.
    Unreadable { source: String },
    /// The path exists and is something other than a regular file.
    NotAFile,
    /// A regular file of the given size.
    File { size_bytes: u64 },
}

/// The view of an optional string.
pub open spec fn optional_view(s: Option<String>) -> Option<Seq<char>> {
    match s {
        Some(t) => Some(t@),
        None => None,
    }
}

impl View for InputSource {
    type V = InputSourceView;

    open spec fn view(&self) -> InputSourceView {
        match *self {
            InputSource::Local(path) => InputSourceView::Local(path@),
            InputSource::HuggingFace { org, dataset, revision, query } => {
                InputSourceView::HuggingFace {
                    org: org@,
                    dataset: dataset@,
                    revision: optional_view(revision),
                    query: optional_view(query),
                }
            },
        }
    }
}

impl View for InputSourceError {
    type V = InputSourceErrorView;

    open spec fn view(&self) -> InputSourceErrorView {
        match *self {
            InputSourceError::Empty => InputSourceErrorView::Empty,
            InputSourceError::UnsupportedScheme { scheme } => {
                InputSourceErrorView::UnsupportedScheme { scheme: scheme@ }
            },
            InputSourceError::MalformedHuggingFaceUri { reason, raw } => {
                InputSourceErrorView::MalformedHuggingFaceUri { reason: reason@, raw: raw@ }
            },
            InputSourceError::DisallowedHuggingFaceCharacters { component, value } => {
                InputSourceErrorView::DisallowedHuggingFaceCharacters {
                    component: component@,
                    value: value@,
                }
            },
            InputSourceError::HuggingFaceTraversalSegment { component, value } => {
                InputSourceErrorView::HuggingFaceTraversalSegment {
                    component: component@,
                    value: value@,
                }
            },
            InputSourceError::DisallowedHuggingFaceQueryKey { key } => {
                InputSourceErrorView::DisallowedHuggingFaceQueryKey { key: key@ }
            },
            InputSourceError::DisallowedHuggingFaceQueryValue { key, value, reason } => {
                InputSourceErrorView::DisallowedHuggingFaceQueryValue {
                    key: key@,
                    value: value@,
                    reason: reason@,
                }
            },
            InputSourceError::MalformedHuggingFaceQuery { reason, raw } => {
                InputSourceErrorView::MalformedHuggingFaceQuery { reason: reason@, raw: raw@ }
            },
            InputSourceError::LocalFileTooLarge { path, size_bytes, max_bytes } => {
                InputSourceErrorView::LocalFileTooLarge { path: path@, size_bytes, max_bytes }
            },
            InputSourceError::LocalPathNotAFile { path } => {
                InputSourceErrorView::LocalPathNotAFile { path: path@ }
            },
            InputSourceError::LocalMetadataUnreadable { path, source } => {
                InputSourceErrorView::LocalMetadataUnreadable { path: path@, source: source@ }
            },
        }
    }
}

/// The view of what a fallible step on input references returned.
pub open spec fn outcome<T: View>(r: Result<T, InputSourceError>) -> Result<
    T::V,
    InputSourceErrorView,
> {
    match r {
        Ok(t) => Ok(t@),
        Err(e) => Err(e@),
    }
}

// ---------------------------------------------------------------------------------------
// The grammar
// ---------------------------------------------------------------------------------------

/// The characters of a segment or a query value: `[A-Za-z0-9._-]`.
pub open spec fn is_allowed(c: char) -> bool {
    'A' <= c <= 'Z' || 'a' <= c <= 'z' || '0' <= c <= '9' || c == '.' || c == '_' || c == '-'
}

/// Whether every character is allowed in a segment.
pub open spec fn all_allowed(s: Seq<char>) -> bool {
    forall|i: int| 0 <= i < s.len() ==> is_allowed(#[trigger] s[i])
}

/// `.` and `..`, which would name a directory instead of an entry.
pub open spec fn is_traversal(s: Seq<char>) -> bool {
    s == seq!['.'] || s == seq!['.', '.']
}

/// The query keys that the dataset loader reads.
pub open spec fn is_query_key(key: Seq<char>) -> bool {
    key == "config"@ || key == "split"@ || key == "column"@ || key == "offset"@ || key == "rows"@
        || key == "limit"@
}

/// Why a segment is refused, if it is.
pub open spec fn segment_error(component: Seq<char>, value: Seq<char>) -> Option<
    InputSourceErrorView,
> {
    if is_traversal(value) {
        Some(InputSourceErrorView::HuggingFaceTraversalSegment { component, value })
    } else if !all_allowed(value) {
        Some(InputSourceErrorView::DisallowedHuggingFaceCharacters { component, value })
    } else {
        None
    }
}

/// Why a query value is refused, if it is.
pub open spec fn query_value_error(key: Seq<char>, value: Seq<char>) -> Option<
    InputSourceErrorView,
> {
    if value.len() == 0 {
        Some(
            InputSourceErrorView::DisallowedHuggingFaceQueryValue {
                key,
                value,
                reason: "empty value"@,
            },
        )
    } else if is_traversal(value) {
        Some(
            InputSourceErrorView::DisallowedHuggingFaceQueryValue {
                key,
                value,
                reason: "traversal segment ('.' or '..')"@,
            },
        )
    } else if !all_allowed(value) {
        Some(
            InputSourceErrorView::DisallowedHuggingFaceQueryValue {
                key,
                value,
                reason: "character outside [A-Za-z0-9._-]"@,
            },
        )
    } else {
        None
    }
}

/// Why one `key=value` pair is refused, if it is.
pub open spec fn query_pair_error(pair: Seq<char>, raw: Seq<char>) -> Option<
    InputSourceErrorView,
> {
    if pair.len() == 0 {
        Some(
            InputSourceErrorView::MalformedHuggingFaceQuery {
                reason: "empty parameter (consecutive '&' or trailing '&')"@,
                raw,
            },
        )
    } else {
        match text::split_once(pair, '=') {
            None => Some(
                InputSourceErrorView::MalformedHuggingFaceQuery {
                    reason: "parameter '"@ + pair + "' missing '='"@,
                    raw,
                },
            ),
            Some((key, value)) => if !is_query_key(key) {
                Some(InputSourceErrorView::DisallowedHuggingFaceQueryKey { key })
            } else {
                query_value_error(key, value)
            },
        }
    }
}

/// The first reason among the pairs, in order.
pub open spec fn query_pairs_error(pairs: Seq<Seq<char>>, raw: Seq<char>) -> Option<
    InputSourceErrorView,
>
    decreases pairs.len(),
{
    if pairs.len() == 0 {
        None
    } else {
        match query_pair_error(pairs[0], raw) {
            Some(e) => Some(e),
            None => query_pairs_error(pairs.skip(1), raw),
        }
    }
}

/// A query string is taken as it stands, or refused.
pub open spec fn parsed_query(query: Seq<char>, raw: Seq<char>) -> Result<
    Seq<char>,
    InputSourceErrorView,
> {
    if query.len() == 0 {
        Err(
            InputSourceErrorView::MalformedHuggingFaceQuery {
                reason: "empty query string after '?'"@,
                raw,
            },
        )
    } else {
        match query_pairs_error(text::split(query, '&'), raw) {
            Some(e) => Err(e),
            None => Ok(query),
        }
    }
}

/// The parts of what follows `hf://`: the segments, the revision and the query.
pub open spec fn reference_parts(rest: Seq<char>) -> (
    Seq<Seq<char>>,
    Option<Seq<char>>,
    Option<Seq<char>>,
) {
    let (without_query, query) = match text::split_once(rest, '?') {
        Some((head, tail)) => (head, Some(tail)),
        None => (rest, None),
    };
    let (segments, revision) = match text::rsplit_once(without_query, '@') {
        Some((head, tail)) => (head, Some(tail)),
        None => (without_query, None),
    };
    (text::split(segments, '/'), revision, query)
}

/// Why the segments and the revision are refused, if they are.
pub open spec fn reference_error(
    segments: Seq<Seq<char>>,
    revision: Option<Seq<char>>,
    raw: Seq<char>,
) -> Option<InputSourceErrorView> {
    if segments.len() > 2 {
        Some(
            InputSourceErrorView::MalformedHuggingFaceUri {
                reason: "expected exactly one '/' between org and dataset"@,
                raw,
            },
        )
    } else if segments[0].len() == 0 {
        Some(
            InputSourceErrorView::MalformedHuggingFaceUri {
                reason: "missing organisation segment"@,
                raw,
            },
        )
    } else if segments.len() < 2 || segments[1].len() == 0 {
        Some(
            InputSourceErrorView::MalformedHuggingFaceUri {
                reason: "missing dataset segment"@,
                raw,
            },
        )
    } else if segment_error("org"@, segments[0]) is Some {
        segment_error("org"@, segments[0])
    } else if segment_error("dataset"@, segments[1]) is Some {
        segment_error("dataset"@, segments[1])
    } else {
        match revision {
            None => None,
            Some(revision) => if revision.len() == 0 {
                Some(
                    InputSourceErrorView::MalformedHuggingFaceUri {
                        reason: "empty revision after '@'"@,
                        raw,
                    },
                )
            } else {
                segment_error("revision"@, revision)
            },
        }
    }
}

/// What follows `hf://` as a dataset reference.
pub open spec fn parsed_huggingface(rest: Seq<char>, raw: Seq<char>) -> Result<
    InputSourceView,
    InputSourceErrorView,
> {
    let (segments, revision, query) = reference_parts(rest);
    match reference_error(segments, revision, raw) {
        Some(e) => Err(e),
        None => match query {
            None => Ok(
                InputSourceView::HuggingFace {
                    org: segments[0],
                    dataset: segments[1],
                    revision,
                    query: None,
                },
            ),
            Some(q) => match parsed_query(q, raw) {
                Err(e) => Err(e),
                Ok(canonical) => Ok(
                    InputSourceView::HuggingFace {
                        org: segments[0],
                        dataset: segments[1],
                        revision,
                        query: Some(canonical),
                    },
                ),
            },
        },
    }
}

/// An ASCII letter.
pub open spec fn is_letter(c: char) -> bool {
    'a' <= c <= 'z' || 'A' <= c <= 'Z'
}

/// The characters of a URI scheme after its first.
pub open spec fn is_scheme_char(c: char) -> bool {
    is_letter(c) || '0' <= c <= '9' || c == '+' || c == '-' || c == '.'
}

/// How many scheme characters `s` starts with.
pub open spec fn scheme_run(s: Seq<char>) -> nat
    decreases s.len(),
{
    if s.len() == 0 || !is_scheme_char(s[0]) {
        0
    } else {
        1 + scheme_run(s.skip(1))
    }
}

/// `hf` in either case.
pub open spec fn is_hf(scheme: Seq<char>) -> bool {
    scheme.len() == 2 && (scheme[0] == 'h' || scheme[0] == 'H') && (scheme[1] == 'f' || scheme[1]
        == 'F')
}

/// The scheme of a text that starts with a letter, goes on with scheme characters, and then
/// with `://`. `hf` in either case is not reported.
pub open spec fn foreign_scheme(raw: Seq<char>) -> Option<Seq<char>> {
    if raw.len() == 0 || !is_letter(raw[0]) {
        None
    } else {
        let end = 1 + scheme_run(raw.skip(1));
        if "://"@.is_prefix_of(raw.skip(end as int)) && !is_hf(raw.take(end as int)) {
            Some(raw.take(end as int))
        } else {
            None
        }
    }
}

/// What a raw input text refers to.
pub open spec fn parsed(raw: Seq<char>) -> Result<InputSourceView, InputSourceErrorView> {
    if raw.len() == 0 {
        Err(InputSourceErrorView::Empty)
    } else if "hf://"@.is_prefix_of(raw) {
        parsed_huggingface(raw.skip("hf://"@.len() as int), raw)
    } else {
        match foreign_scheme(raw) {
            Some(scheme) => Err(InputSourceErrorView::UnsupportedScheme { scheme }),
            None => Ok(InputSourceView::Local(raw)),
        }
    }
}

/// The text of a source.
pub open spec fn displayed(source: InputSourceView) -> Seq<char> {
    match source {
        InputSourceView::Local(path) => path,
        InputSourceView::HuggingFace { org, dataset, revision, query } => {
            let name = "hf://"@ + org + "/"@ + dataset;
            let with_revision = match revision {
                Some(r) => name.push('@') + r,
                None => name,
            };
            match query {
                Some(q) => with_revision.push('?') + q,
                None => with_revision,
            }
        },
    }
}

/// What the filesystem's report says about a source and a size cap.
pub open spec fn local_size_check(
    source: InputSourceView,
    max_bytes: u64,
    metadata: LocalMetadata,
) -> Result<(), InputSourceErrorView> {
    match source {
        InputSourceView::HuggingFace { .. } => Ok(()),
        InputSourceView::Local(path) => match metadata {
            LocalMetadata::Unreadable { source } => Err(
                InputSourceErrorView::LocalMetadataUnreadable { path, source: source@ },
            ),
            LocalMetadata::NotAFile => Err(InputSourceErrorView::LocalPathNotAFile { path }),
            LocalMetadata::File { size_bytes } => if size_bytes > max_bytes {
                Err(InputSourceErrorView::LocalFileTooLarge { path, size_bytes, max_bytes })
            } else {
                Ok(())
            },
        },
    }
}

// ---------------------------------------------------------------------------------------
// Parsing
// ---------------------------------------------------------------------------------------

fn allowed(c: char) -> (yes: bool)
    ensures
        yes == is_allowed(c),
{
    ('A' <= c && c <= 'Z') || ('a' <= c && c <= 'z') || ('0' <= c && c <= '9') || c == '.' || c
        == '_' || c == '-'
}

fn every_allowed(chars: &[char]) -> (yes: bool)
    ensures
        yes == all_allowed(chars@),
{
    let mut i: usize = 0;
    while i < chars.len()
        invariant
            i <= chars@.len(),
            forall|j: int| 0 <= j < i ==> is_allowed(#[trigger] chars@[j]),
        decreases chars.len() - i,
    {
        if !allowed(chars[i]) {
            assert(!is_allowed(chars@[i as int]));
            return false;
        }
        i += 1;
    }
    true
}

fn traversal(chars: &[char]) -> (yes: bool)
    ensures
        yes == is_traversal(chars@),
{
    let one = chars.len() == 1 && chars[0] == '.';
    let two = chars.len() == 2 && chars[0] == '.' && chars[1] == '.';
    assert(one == (chars@ =~= seq!['.']));
    assert(two == (chars@ =~= seq!['.', '.']));
    one || two
}

fn validate_hf_segment(component: &'static str, value: &[char]) -> (r: Result<(), InputSourceError>)
    ensures
        match r {
            Ok(_) => segment_error(component@, value@) is None,
            Err(e) => segment_error(component@, value@) == Some(e@),
        },
{
    if traversal(value) {
        return Err(
            InputSourceError::HuggingFaceTraversalSegment {
                component,
                value: text::from_chars(value),
            },
        );
    }
    if !every_allowed(value) {
        return Err(
            InputSourceError::DisallowedHuggingFaceCharacters {
                component,
                value: text::from_chars(value),
            },
        );
    }
    Ok(())
}

fn validate_hf_query_value(key: &[char], value: &[char]) -> (r: Result<(), InputSourceError>)
    ensures
        match r {
            Ok(_) => query_value_error(key@, value@) is None,
            Err(e) => query_value_error(key@, value@) == Some(e@),
        },
{
    if value.len() == 0 {
        return Err(
            InputSourceError::DisallowedHuggingFaceQueryValue {
                key: text::from_chars(key),
                value: text::from_chars(value),
                reason: "empty value",
            },
        );
    }
    if traversal(value) {
        return Err(
            InputSourceError::DisallowedHuggingFaceQueryValue {
                key: text::from_chars(key),
                value: text::from_chars(value),
                reason: "traversal segment ('.' or '..')",
            },
        );
    }
    if !every_allowed(value) {
        return Err(
            InputSourceError::DisallowedHuggingFaceQueryValue {
                key: text::from_chars(key),
                value: text::from_chars(value),
                reason: "character outside [A-Za-z0-9._-]",
            },
        );
    }
    Ok(())
}

fn known_query_key(key: &[char]) -> (yes: bool)
    ensures
        yes == is_query_key(key@),
{
    let name = text::from_chars(key);
    text::same_text(name.as_str(), "config") || text::same_text(name.as_str(), "split")
        || text::same_text(name.as_str(), "column") || text::same_text(name.as_str(), "offset")
        || text::same_text(name.as_str(), "rows") || text::same_text(name.as_str(), "limit")
}

fn validate_hf_query_pair(pair: &[char], raw: &str) -> (r: Result<(), InputSourceError>)
    ensures
        match r {
            Ok(_) => query_pair_error(pair@, raw@) is None,
            Err(e) => query_pair_error(pair@, raw@) == Some(e@),
        },
{
    if pair.len() == 0 {
        return Err(
            InputSourceError::MalformedHuggingFaceQuery {
                reason: "empty parameter (consecutive '&' or trailing '&')".to_owned(),
                raw: raw.to_owned(),
            },
        );
    }
    match text::split_once_chars(pair, '=') {
        None => {
            let mut reason = "parameter '".to_owned();
            reason.append(text::from_chars(pair).as_str());
            reason.append("' missing '='");
            Err(InputSourceError::MalformedHuggingFaceQuery { reason, raw: raw.to_owned() })
        },
        Some((key, value)) => {
            if !known_query_key(key.as_slice()) {
                return Err(
                    InputSourceError::DisallowedHuggingFaceQueryKey {
                        key: text::from_chars(key.as_slice()),
                    },
                );
            }
            validate_hf_query_value(key.as_slice(), value.as_slice())
        },
    }
}

fn parse_hf_query(query: &[char], raw: &str) -> (r: Result<String, InputSourceError>)
    ensures
        outcome(r) == parsed_query(query@, raw@),
{
    if query.len() == 0 {
        return Err(
            InputSourceError::MalformedHuggingFaceQuery {
                reason: "empty query string after '?'".to_owned(),
                raw: raw.to_owned(),
            },
        );
    }
    let pairs = text::split_chars(query, '&');
    let ghost views = text::char_views(pairs@);
    let mut i: usize = 0;
    assert(views.skip(0) == views);
    while i < pairs.len()
        invariant
            i <= pairs@.len(),
            views == text::char_views(pairs@),
            views == text::split(query@, '&'),
            query@.len() > 0,
            query_pairs_error(views, raw@) == query_pairs_error(views.skip(i as int), raw@),
        decreases pairs.len() - i,
    {
        proof {
            assert(views.skip(i as int)[0] == pairs@[i as int]@);
            assert(views.skip(i as int).skip(1) == views.skip(i as int + 1));
        }
        match validate_hf_query_pair(pairs[i].as_slice(), raw) {
            Ok(_) => {},
            Err(e) => {
                return Err(e);
            },
        }
        i += 1;
    }
    Ok(text::from_chars(query))
}

fn parse_huggingface(rest: &[char], raw: &str) -> (r: Result<InputSource, InputSourceError>)
    ensures
        outcome(r) == parsed_huggingface(rest@, raw@),
{
    let (without_query, query) = match text::split_once_chars(rest, '?') {
        Some((head, tail)) => (head, Some(tail)),
        None => (text::slice_chars(rest, 0, rest.len()), None),
    };
    assert(rest@.subrange(0, rest@.len() as int) == rest@);
    let (joined, revision) = match text::rsplit_once_chars(without_query.as_slice(), '@') {
        Some((head, tail)) => (head, Some(tail)),
        None => (text::slice_chars(without_query.as_slice(), 0, without_query.len()), None),
    };
    assert(without_query@.subrange(0, without_query@.len() as int) == without_query@);
    let segments = text::split_chars(joined.as_slice(), '/');
    let ghost (spec_segments, spec_revision, spec_query) = reference_parts(rest@);
    assert(text::char_views(segments@) == spec_segments);
    assert(spec_segments[0] == segments@[0]@);
    if segments.len() > 2 {
        return Err(
            InputSourceError::MalformedHuggingFaceUri {
                reason: "expected exactly one '/' between org and dataset".to_owned(),
                raw: raw.to_owned(),
            },
        );
    }
    if segments[0].len() == 0 {
        return Err(
            InputSourceError::MalformedHuggingFaceUri {
                reason: "missing organisation segment".to_owned(),
                raw: raw.to_owned(),
            },
        );
    }
    if segments.len() < 2 || segments[1].len() == 0 {
        return Err(
            InputSourceError::MalformedHuggingFaceUri {
                reason: "missing dataset segment".to_owned(),
                raw: raw.to_owned(),
            },
        );
    }
    assert(spec_segments[1] == segments@[1]@);
    match validate_hf_segment("org", segments[0].as_slice()) {
        Ok(_) => {},
        Err(e) => {
            return Err(e);
        },
    }
    match validate_hf_segment("dataset", segments[1].as_slice()) {
        Ok(_) => {},
        Err(e) => {
            return Err(e);
        },
    }
    let revision_text = match revision {
        None => None,
        Some(revision) => {
            if revision.len() == 0 {
                return Err(
                    InputSourceError::MalformedHuggingFaceUri {
                        reason: "empty revision after '@'".to_owned(),
                        raw: raw.to_owned(),
                    },
                );
            }
            match validate_hf_segment("revision", revision.as_slice()) {
                Ok(_) => {},
                Err(e) => {
                    return Err(e);
                },
            }
            Some(text::from_chars(revision.as_slice()))
        },
    };
    let query_text = match query {
        None => None,
        Some(q) => match parse_hf_query(q.as_slice(), raw) {
            Ok(canonical) => Some(canonical),
            Err(e) => {
                return Err(e);
            },
        },
    };
    Ok(
        InputSource::HuggingFace {
            org: text::from_chars(segments[0].as_slice()),
            dataset: text::from_chars(segments[1].as_slice()),
            revision: revision_text,
            query: query_text,
        },
    )
}

proof fn lemma_scheme_run_is(s: Seq<char>, k: int)
    requires
        0 <= k <= s.len(),
        forall|j: int| 0 <= j < k ==> is_scheme_char(#[trigger] s[j]),
        k < s.len() ==> !is_scheme_char(s[k]),
    ensures
        scheme_run(s) == k,
    decreases s.len(),
{
    if k > 0 {
        assert(is_scheme_char(s[0]));
        assert forall|j: int| 0 <= j < k - 1 implies is_scheme_char(#[trigger] s.skip(1)[j]) by {
            assert(s.skip(1)[j] == s[j + 1]);
        }
        lemma_scheme_run_is(s.skip(1), k - 1);
    }
}

fn unsupported_scheme(raw: &[char]) -> (scheme: Option<String>)
    ensures
        match scheme {
            Some(s) => foreign_scheme(raw@) == Some(s@),
            None => foreign_scheme(raw@) is None,
        },
{
    if raw.len() == 0 {
        return None;
    }
    let first = raw[0];
    if !(('a' <= first && first <= 'z') || ('A' <= first && first <= 'Z')) {
        return None;
    }
    let mut end: usize = 1;
    while end < raw.len() && (('a' <= raw[end] && raw[end] <= 'z') || ('A' <= raw[end] && raw[end]
        <= 'Z') || ('0' <= raw[end] && raw[end] <= '9') || raw[end] == '+' || raw[end] == '-'
        || raw[end] == '.')
        invariant
            1 <= end <= raw@.len(),
            forall|j: int| 1 <= j < end ==> is_scheme_char(#[trigger] raw@[j]),
        decreases raw.len() - end,
    {
        end += 1;
    }
    proof {
        let tail = raw@.skip(1);
        assert forall|j: int| 0 <= j < end - 1 implies is_scheme_char(#[trigger] tail[j]) by {
            assert(tail[j] == raw@[j + 1]);
        }
        lemma_scheme_run_is(tail, end - 1);
    }
    let tail = text::slice_chars(raw, end, raw.len());
    assert(tail@ == raw@.skip(end as int));
    let scheme = text::slice_chars(raw, 0, end);
    assert(scheme@ == raw@.take(end as int));
    let hf = scheme.len() == 2 && (scheme[0] == 'h' || scheme[0] == 'H') && (scheme[1] == 'f'
        || scheme[1] == 'F');
    if text::has_prefix(tail.as_slice(), "://") && !hf {
        Some(text::from_chars(scheme.as_slice()))
    } else {
        None
    }
}

impl InputSource {
    /// Reads a raw input text. Only the text decides: no file and no network is touched.
    pub fn parse(raw: &str) -> (r: Result<InputSource, InputSourceError>)
        ensures
            outcome(r) == parsed(raw@),
    {
        if raw.is_empty() {
            return Err(InputSourceError::Empty);
        }
        let chars = text::to_chars(raw);
        match text::strip_prefix(chars.as_slice(), "hf://") {
            Some(rest) => parse_huggingface(rest.as_slice(), raw),
            None => match unsupported_scheme(chars.as_slice()) {
                Some(scheme) => Err(InputSourceError::UnsupportedScheme { scheme }),
                None => Ok(InputSource::Local(raw.to_owned())),
            },
        }
    }

    /// Holds a local source to being a regular file of at most `max_bytes`, going by what the
    /// filesystem reported about it. Other sources always pass.
    pub fn validate_local_size(&self, max_bytes: u64, metadata: &LocalMetadata) -> (r: Result<
        (),
        InputSourceError,
    >)
        ensures
            match r {
                Ok(_) => local_size_check(self@, max_bytes, *metadata) is Ok,
                Err(e) => local_size_check(self@, max_bytes, *metadata) == Err::<
                    (),
                    InputSourceErrorView,
                >(e@),
            },
    {
        match self {
            InputSource::HuggingFace { .. } => Ok(()),
            InputSource::Local(path) => validate_local_path(path, max_bytes, metadata),
        }
    }

    /// The text of this source, which parses to it again.
    pub fn display(&self) -> (s: String)
        ensures
            s@ == displayed(self@),
    {
        match self {
            InputSource::Local(path) => path.clone(),
            InputSource::HuggingFace { org, dataset, revision, query } => {
                let mut s = "hf://".to_owned();
                s.append(org.as_str());
                s.append("/");
                s.append(dataset.as_str());
                match revision {
                    Some(r) => {
                        s.push('@');
                        s.append(r.as_str());
                    },
                    None => {},
                }
                match query {
                    Some(q) => {
                        s.push('?');
                        s.append(q.as_str());
                    },
                    None => {},
                }
                s
            },
        }
    }

    /// The path of a local source.
    pub fn local_path(&self) -> (path: Option<&str>)
        ensures
            match (path, self@) {
                (Some(p), InputSourceView::Local(q)) => p@ == q,
                (None, InputSourceView::HuggingFace { .. }) => true,
                _ => false,
            },
    {
        match self {
            InputSource::Local(path) => Some(path.as_str()),
            InputSource::HuggingFace { .. } => None,
        }
    }
}

fn validate_local_path(path: &String, max_bytes: u64, metadata: &LocalMetadata) -> (r: Result<
    (),
    InputSourceError,
>)
    ensures
        match r {
            Ok(_) => local_size_check(InputSourceView::Local(path@), max_bytes, *metadata) is Ok,
            Err(e) => local_size_check(InputSourceView::Local(path@), max_bytes, *metadata)
                == Err::<(), InputSourceErrorView>(e@),
        },
{
    match metadata {
        LocalMetadata::Unreadable { source } => Err(
            InputSourceError::LocalMetadataUnreadable {
                path: path.clone(),
                source: source.clone(),
            },
        ),
        LocalMetadata::NotAFile => Err(InputSourceError::LocalPathNotAFile { path: path.clone() }),
        LocalMetadata::File { size_bytes } => {
            if *size_bytes > max_bytes {
                Err(
                    InputSourceError::LocalFileTooLarge {
                        path: path.clone(),
                        size_bytes: *size_bytes,
                        max_bytes,
                    },
                )
            } else {
                Ok(())
            }
        },
    }
}

// ---------------------------------------------------------------------------------------
// Messages
// ---------------------------------------------------------------------------------------

/// The message of an error.
pub open spec fn error_text(e: InputSourceErrorView) -> Seq<char> {
    match e {
        InputSourceErrorView::Empty => {
            "--input must be a local path or hf://<org>/<dataset>[@<revision>]"@
        },
        InputSourceErrorView::UnsupportedScheme { scheme } => {
            "unsupported input URI scheme '"@ + scheme
                + "'; --input must be a local path or hf://<org>/<dataset>[@<revision>]"@
        },
        InputSourceErrorView::MalformedHuggingFaceUri { reason, raw } => {
            "invalid Hugging Face dataset URI '"@ + raw + "': "@ + reason
                + "; expected hf://<org>/<dataset>[@<revision>]"@
        },
        InputSourceErrorView::DisallowedHuggingFaceCharacters { component, value } => {
            "Hugging Face dataset "@ + component + " '"@ + value
                + "' contains characters outside [A-Za-z0-9._-]; expected hf://<org>/<dataset>[@<revision>]"@
        },
        InputSourceErrorView::HuggingFaceTraversalSegment { component, value } => {
            "Hugging Face dataset "@ + component + " '"@ + value
                + "' is not a valid identifier; expected hf://<org>/<dataset>[@<revision>]"@
        },
        InputSourceErrorView::DisallowedHuggingFaceQueryKey { key } => {
            "unsupported Hugging Face query parameter '"@ + key
                + "'; allowed keys are [\"config\", \"split\", \"column\", \"offset\", \"rows\", \"limit\"]"@
        },
        InputSourceErrorView::DisallowedHuggingFaceQueryValue { key, value, reason } => {
            "invalid value for Hugging Face query parameter '"@ + key + "="@ + value + "': "@
                + reason + "; values must match [A-Za-z0-9._-]"@
        },
        InputSourceErrorView::MalformedHuggingFaceQuery { reason, raw } => {
            "invalid Hugging Face query string in '"@ + raw + "': "@ + reason
                + "; expected ?key=value[&key=value...]"@
        },
        InputSourceErrorView::LocalFileTooLarge { path, size_bytes, max_bytes } => {
            "local input file "@ + path + " is "@ + text::decimal(size_bytes as nat)
                + " bytes which exceeds the configured maximum of "@ + text::decimal(
                max_bytes as nat,
            ) + " bytes"@
        },
        InputSourceErrorView::LocalPathNotAFile { path } => {
            "local input path "@ + path + " is not a regular file"@
        },
        InputSourceErrorView::LocalMetadataUnreadable { path, source } => {
            "failed to read metadata for local input "@ + path + ": "@ + source
        },
    }
}

impl InputSourceError {
    /// The message of this error.
    pub fn to_text(&self) -> (s: String)
        ensures
            s@ == error_text(self@),
    {
        match self {
            InputSourceError::Empty => {
                "--input must be a local path or hf://<org>/<dataset>[@<revision>]".to_owned()
            },
            InputSourceError::UnsupportedScheme { scheme } => {
                let mut s = "unsupported input URI scheme '".to_owned();
                s.append(scheme.as_str());
                s.append("'; --input must be a local path or hf://<org>/<dataset>[@<revision>]");
                s
            },
            InputSourceError::MalformedHuggingFaceUri { reason, raw } => {
                let mut s = "invalid Hugging Face dataset URI '".to_owned();
                s.append(raw.as_str());
                s.append("': ");
                s.append(reason.as_str());
                s.append("; expected hf://<org>/<dataset>[@<revision>]");
                s
            },
            InputSourceError::DisallowedHuggingFaceCharacters { component, value } => {
                let mut s = "Hugging Face dataset ".to_owned();
                s.append(component);
                s.append(" '");
                s.append(value.as_str());
                s.append(
                    "' contains characters outside [A-Za-z0-9._-]; expected hf://<org>/<dataset>[@<revision>]",
                );
                s
            },
            InputSourceError::HuggingFaceTraversalSegment { component, value } => {
                let mut s = "Hugging Face dataset ".to_owned();
                s.append(component);
                s.append(" '");
                s.append(value.as_str());
                s.append("' is not a valid identifier; expected hf://<org>/<dataset>[@<revision>]");
                s
            },
            InputSourceError::DisallowedHuggingFaceQueryKey { key } => {
                let mut s = "unsupported Hugging Face query parameter '".to_owned();
                s.append(key.as_str());
                s.append(
                    "'; allowed keys are [\"config\", \"split\", \"column\", \"offset\", \"rows\", \"limit\"]",
                );
                s
            },
            InputSourceError::DisallowedHuggingFaceQueryValue { key, value, reason } => {
                let mut s = "invalid value for Hugging Face query parameter '".to_owned();
                s.append(key.as_str());
                s.append("=");
                s.append(value.as_str());
                s.append("': ");
                s.append(reason);
                s.append("; values must match [A-Za-z0-9._-]");
                s
            },
            InputSourceError::MalformedHuggingFaceQuery { reason, raw } => {
                let mut s = "invalid Hugging Face query string in '".to_owned();
                s.append(raw.as_str());
                s.append("': ");
                s.append(reason.as_str());
                s.append("; expected ?key=value[&key=value...]");
                s
            },
            InputSourceError::LocalFileTooLarge { path, size_bytes, max_bytes } => {
                let mut s = "local input file ".to_owned();
                s.append(path.as_str());
                s.append(" is ");
                s.append(text::u64_text(*size_bytes).as_str());
                s.append(" bytes which exceeds the configured maximum of ");
                s.append(text::u64_text(*max_bytes).as_str());
                s.append(" bytes");
                s
            },
            InputSourceError::LocalPathNotAFile { path } => {
                let mut s = "local input path ".to_owned();
                s.append(path.as_str());
                s.append(" is not a regular file");
                s
            },
            InputSourceError::LocalMetadataUnreadable { path, source } => {
                let mut s = "failed to read metadata for local input ".to_owned();
                s.append(path.as_str());
                s.append(": ");
                s.append(source.as_str());
                s
            },
        }
    }
}

// ---------------------------------------------------------------------------------------
// Laws
// ---------------------------------------------------------------------------------------

/// A segment that names an entry: not empty, not `.` or `..`, and of allowed characters only.
pub open spec fn is_plain_segment(s: Seq<char>) -> bool {
    s.len() > 0 && !is_traversal(s) && all_allowed(s)
}

/// A pair of a known key and a plain value.
pub open spec fn is_plain_pair(pair: Seq<char>) -> bool {
    match text::split_once(pair, '=') {
        Some((key, value)) => is_query_key(key) && is_plain_segment(value),
        None => false,
    }
}

/// What follows the segments of a reference: its revision and its query.
spec fn suffix(revision: Option<Seq<char>>, query: Option<Seq<char>>) -> Seq<char> {
    (match revision {
        Some(r) => seq!['@'] + r,
        None => Seq::empty(),
    }) + (match query {
        Some(q) => seq!['?'] + q,
        None => Seq::empty(),
    })
}

proof fn lemma_two_segments(joined: Seq<char>)
    requires
        text::split(joined, '/').len() == 2,
    ensures
        joined == text::split(joined, '/')[0] + seq!['/'] + text::split(joined, '/')[1],
{
    let segments = text::split(joined, '/');
    text::lemma_split_joins_back(joined, '/');
    assert(text::join(segments.skip(1), '/') == segments[1]);
    assert(joined == segments[0].push('/') + segments[1]);
}

proof fn lemma_parts_join_back(rest: Seq<char>)
    requires
        reference_parts(rest).0.len() == 2,
    ensures
        ({
            let (segments, revision, query) = reference_parts(rest);
            rest == segments[0] + seq!['/'] + segments[1] + suffix(revision, query)
        }),
{
    let (segments, revision, query) = reference_parts(rest);
    text::lemma_find(rest, '?');
    let without_query = match text::split_once(rest, '?') {
        Some((head, tail)) => head,
        None => rest,
    };
    let after_query = match query {
        Some(q) => seq!['?'] + q,
        None => Seq::empty(),
    };
    assert(rest == without_query + after_query);
    text::lemma_rfind(without_query, '@');
    let joined = match text::rsplit_once(without_query, '@') {
        Some((head, tail)) => head,
        None => without_query,
    };
    let after_revision = match revision {
        Some(r) => seq!['@'] + r,
        None => Seq::empty(),
    };
    assert(without_query == joined + after_revision);
    lemma_two_segments(joined);
    assert(rest == joined + (after_revision + after_query));
}

proof fn lemma_displayed_is(
    org: Seq<char>,
    dataset: Seq<char>,
    revision: Option<Seq<char>>,
    query: Option<Seq<char>>,
)
    ensures
        displayed(InputSourceView::HuggingFace { org, dataset, revision, query }) == "hf://"@ + (org
            + seq!['/'] + dataset + suffix(revision, query)),
{
    reveal_strlit("/");
    let name = "hf://"@ + org + "/"@ + dataset;
    assert("/"@ == seq!['/']);
    assert(name == "hf://"@ + (org + seq!['/'] + dataset));
    let with_revision = match revision {
        Some(r) => name.push('@') + r,
        None => name,
    };
    let after_revision = match revision {
        Some(r) => seq!['@'] + r,
        None => Seq::empty(),
    };
    let after_query = match query {
        Some(q) => seq!['?'] + q,
        None => Seq::empty(),
    };
    assert(with_revision == name + after_revision);
    let shown = displayed(InputSourceView::HuggingFace { org, dataset, revision, query });
    assert(shown == with_revision + after_query);
    assert(shown == "hf://"@ + (org + seq!['/'] + dataset + (after_revision + after_query)));
}

/// The text of a parsed source is the text that it was parsed from.
pub proof fn law_display_gives_back_the_input(raw: Seq<char>)
    requires
        parsed(raw) is Ok,
    ensures
        displayed(parsed(raw)->Ok_0) == raw,
{
    if "hf://"@.is_prefix_of(raw) {
        let rest = raw.skip("hf://"@.len() as int);
        let (segments, revision, query) = reference_parts(rest);
        lemma_parts_join_back(rest);
        lemma_displayed_is(segments[0], segments[1], revision, query);
        assert(raw == "hf://"@ + rest);
    }
}

/// Parsing the text of a parsed source gives that source.
pub proof fn law_parse_of_display(raw: Seq<char>)
    requires
        parsed(raw) is Ok,
    ensures
        parsed(displayed(parsed(raw)->Ok_0)) == parsed(raw),
{
    law_display_gives_back_the_input(raw);
}

/// What an accepted dataset reference is made of: the organisation, the dataset and the revision
/// are plain segments, and every query parameter is a known key with a plain value. No segment
/// or value is a `.` or `..`, and none holds a slash.
pub proof fn law_accepted_references_are_plain(raw: Seq<char>)
    ensures
        match parsed(raw) {
            Ok(InputSourceView::HuggingFace { org, dataset, revision, query }) => {
                &&& is_plain_segment(org)
                &&& is_plain_segment(dataset)
                &&& revision matches Some(r) ==> is_plain_segment(r)
                &&& query matches Some(q) ==> q.len() > 0 && forall|i: int|
                    0 <= i < text::split(q, '&').len() ==> is_plain_pair(
                        #[trigger] text::split(q, '&')[i],
                    )
            },
            _ => true,
        },
{
    match parsed(raw) {
        Ok(InputSourceView::HuggingFace { org, dataset, revision, query }) => {
            let (segments, _r, _q) = reference_parts(raw.skip("hf://"@.len() as int));
            match query {
                Some(q) => {
                    lemma_accepted_pairs(text::split(q, '&'), raw);
                },
                None => {},
            }
        },
        _ => {},
    }
}

proof fn lemma_accepted_pairs(pairs: Seq<Seq<char>>, raw: Seq<char>)
    requires
        query_pairs_error(pairs, raw) is None,
    ensures
        forall|i: int| 0 <= i < pairs.len() ==> is_plain_pair(#[trigger] pairs[i]),
    decreases pairs.len(),
{
    if pairs.len() > 0 {
        lemma_accepted_pairs(pairs.skip(1), raw);
        assert forall|i: int| 0 <= i < pairs.len() implies is_plain_pair(#[trigger] pairs[i]) by {
            if i > 0 {
                assert(pairs[i] == pairs.skip(1)[i - 1]);
            }
        }
    }
}

/// A name of one entry: letters, digits, dots, underscores and hyphens of ASCII, and neither `.`
/// nor `..`.
pub open spec fn is_entry_name(s: Seq<char>) -> bool {
    &&& s.len() > 0
    &&& s != seq!['.']
    &&& s != seq!['.', '.']
    &&& forall|i: int|
        0 <= i < s.len() ==> ('a' <= #[trigger] s[i] <= 'z' || 'A' <= s[i] <= 'Z' || '0' <= s[i]
            <= '9' || s[i] == '.' || s[i] == '_' || s[i] == '-')
}

/// A parameter of a reference: one of the six keys with an entry name.
pub open spec fn is_parameter(pair: Seq<char>) -> bool {
    text::split_once(pair, '=') matches Some((key, value)) && is_entry_name(value) && (key
        == "config"@ || key == "split"@ || key == "column"@ || key == "offset"@ || key == "rows"@
        || key == "limit"@)
}

/// Every reference that is made of an organisation, a dataset, maybe a revision, and maybe
/// parameters, is accepted, and comes out in these parts.
pub proof fn law_plain_references_are_accepted(
    org: Seq<char>,
    dataset: Seq<char>,
    revision: Option<Seq<char>>,
    query: Option<Seq<char>>,
)
    requires
        is_entry_name(org),
        is_entry_name(dataset),
        revision matches Some(r) ==> is_entry_name(r),
        query matches Some(q) ==> q.len() > 0 && forall|i: int|
            0 <= i < text::split(q, '&').len() ==> is_parameter(#[trigger] text::split(q, '&')[i]),
    ensures
        parsed(
            "hf://"@ + (org + seq!['/'] + dataset + (match revision {
                Some(r) => seq!['@'] + r,
                None => Seq::empty(),
            }) + (match query {
                Some(q) => seq!['?'] + q,
                None => Seq::empty(),
            })),
        ) == Ok::<InputSourceView, InputSourceErrorView>(
            InputSourceView::HuggingFace { org, dataset, revision, query },
        ),
{
    let rest = org + seq!['/'] + dataset + (match revision {
        Some(r) => seq!['@'] + r,
        None => Seq::empty(),
    }) + (match query {
        Some(q) => seq!['?'] + q,
        None => Seq::empty(),
    });
    let raw = "hf://"@ + rest;
    assert("hf://"@.is_prefix_of(raw));
    assert(raw.skip("hf://"@.len() as int) == rest);
    reveal_strlit("hf://");
    lemma_reference_parts_are(org, dataset, revision, query);
    lemma_entry_names(org);
    lemma_entry_names(dataset);
    if let Some(r) = revision {
        lemma_entry_names(r);
    }
    if let Some(q) = query {
        lemma_parameters_are_accepted(text::split(q, '&'), raw);
    }
}

#[verifier::spinoff_prover]
#[verifier::rlimit(40)]
proof fn lemma_reference_parts_are(
    org: Seq<char>,
    dataset: Seq<char>,
    revision: Option<Seq<char>>,
    query: Option<Seq<char>>,
)
    requires
        is_entry_name(org),
        is_entry_name(dataset),
        revision matches Some(r) ==> is_entry_name(r),
    ensures
        reference_parts(
            org + seq!['/'] + dataset + (match revision {
                Some(r) => seq!['@'] + r,
                None => Seq::empty(),
            }) + (match query {
                Some(q) => seq!['?'] + q,
                None => Seq::empty(),
            }),
        ) == (seq![org, dataset], revision, query),
{
    let after_revision = match revision {
        Some(r) => seq!['@'] + r,
        None => Seq::empty(),
    };
    let after_query = match query {
        Some(q) => seq!['?'] + q,
        None => Seq::empty(),
    };
    let joined = org + seq!['/'] + dataset;
    let without_query = joined + after_revision;
    let rest = without_query + after_query;
    lemma_entry_names(org);
    lemma_entry_names(dataset);
    lemma_two_names_split(org, dataset);
    if let Some(r) = revision {
        lemma_entry_names(r);
    }
    let k = without_query.len() as int;
    assert forall|j: int| 0 <= j < k implies rest[j] != '?' by {
        assert(rest[j] == without_query[j]);
        if j >= joined.len() {
            assert(without_query[j] == after_revision[j - joined.len()]);
        }
    }
    text::lemma_find_is(rest, '?', k);
    assert(rest.take(k) == without_query);
    if let Some(q) = query {
        assert(rest.skip(k + 1) == q);
    }
    match revision {
        Some(r) => {
            assert forall|j: int| joined.len() < j < k implies without_query[j] != '@' by {
                assert(without_query[j] == r[j - joined.len() - 1]);
            }
            text::lemma_rfind_is(without_query, '@', joined.len() as int);
            assert(without_query.take(joined.len() as int) == joined);
            assert(without_query.skip(joined.len() as int + 1) == r);
        },
        None => {
            text::lemma_rfind_is(without_query, '@', -1);
            assert(without_query == joined);
        },
    }
}

proof fn lemma_two_names_split(org: Seq<char>, dataset: Seq<char>)
    requires
        is_entry_name(org),
        is_entry_name(dataset),
    ensures
        text::split(org + seq!['/'] + dataset, '/') == seq![org, dataset],
{
    let joined = org + seq!['/'] + dataset;
    lemma_entry_names(org);
    lemma_entry_names(dataset);
    text::lemma_find_is(joined, '/', org.len() as int);
    assert(joined.take(org.len() as int) == org);
    assert(joined.skip(org.len() as int + 1) == dataset);
    text::lemma_find_is(dataset, '/', dataset.len() as int);
    assert(text::split(dataset, '/') == seq![dataset]);
    assert(seq![org] + seq![dataset] == seq![org, dataset]);
}

proof fn lemma_entry_names(s: Seq<char>)
    requires
        is_entry_name(s),
    ensures
        is_plain_segment(s),
        forall|j: int|
            0 <= j < s.len() ==> #[trigger] s[j] != '/' && s[j] != '@' && s[j] != '?' && s[j]
                != '=',
{
}

proof fn lemma_parameters_are_accepted(pairs: Seq<Seq<char>>, raw: Seq<char>)
    requires
        forall|i: int| 0 <= i < pairs.len() ==> is_parameter(#[trigger] pairs[i]),
    ensures
        query_pairs_error(pairs, raw) is None,
    decreases pairs.len(),
{
    if pairs.len() > 0 {
        let rest = pairs.skip(1);
        assert(is_parameter(pairs[0]));
        lemma_entry_names(text::split_once(pairs[0], '=')->Some_0.1);
        assert forall|i: int| 0 <= i < rest.len() implies is_parameter(#[trigger] rest[i]) by {
            assert(rest[i] == pairs[i + 1]);
        }
        lemma_parameters_are_accepted(rest, raw);
    }
}

proof fn lemma_scheme_run_fits(s: Seq<char>)
    ensures
        scheme_run(s) <= s.len(),
    decreases s.len(),
{
    if s.len() > 0 {
        lemma_scheme_run_fits(s.skip(1));
    }
}

/// A path without a scheme is a local file, whatever else it holds; a text with the scheme of
/// another protocol is refused by that scheme.
pub proof fn law_paths_are_local(raw: Seq<char>, scheme: Seq<char>, rest: Seq<char>)
    ensures
        raw.len() > 0 && (forall|i: int| 0 <= i < raw.len() ==> #[trigger] raw[i] != ':')
            ==> parsed(raw) == Ok::<InputSourceView, InputSourceErrorView>(InputSourceView::Local(raw)),
        scheme.len() > 0 && scheme != seq!['h', 'f'] && scheme != seq!['H', 'f'] && scheme != seq![
            'h',
            'F',
        ] && scheme != seq!['H', 'F'] && (forall|i: int|
            0 <= i < scheme.len() ==> ('a' <= #[trigger] scheme[i] <= 'z' || 'A' <= scheme[i]
                <= 'Z')) ==> parsed(scheme + seq![':', '/', '/'] + rest) == Err::<
            InputSourceView,
            InputSourceErrorView,
        >(InputSourceErrorView::UnsupportedScheme { scheme }),
{
    reveal_strlit("hf://");
    reveal_strlit("://");
    assert("hf://"@ == seq!['h', 'f', ':', '/', '/']);
    assert("://"@ == seq![':', '/', '/']);
    if raw.len() > 0 && (forall|i: int| 0 <= i < raw.len() ==> #[trigger] raw[i] != ':') {
        if "hf://"@.is_prefix_of(raw) {
            assert(raw[2] == "hf://"@[2]);
        }
        let end = 1 + scheme_run(raw.skip(1)) as int;
        lemma_scheme_run_fits(raw.skip(1));
        if foreign_scheme(raw) is Some {
            let tail = raw.skip(end);
            assert(tail[0] == "://"@[0]);
            assert(tail[0] == raw[end]);
        }
    }
    if scheme.len() > 0 && scheme != seq!['h', 'f'] && scheme != seq!['H', 'f'] && scheme != seq![
        'h',
        'F',
    ] && scheme != seq!['H', 'F'] && (forall|i: int|
        0 <= i < scheme.len() ==> ('a' <= #[trigger] scheme[i] <= 'z' || 'A' <= scheme[i] <= 'Z')) {
        let whole = scheme + seq![':', '/', '/'] + rest;
        let n = scheme.len() as int;
        let tail = whole.skip(1);
        assert(whole[0] == scheme[0]);
        assert forall|j: int| 0 <= j < n - 1 implies is_scheme_char(#[trigger] tail[j]) by {
            assert(tail[j] == scheme[j + 1]);
        }
        assert(tail[n - 1] == ':');
        lemma_scheme_run_is(tail, n - 1);
        assert(whole.take(n) == scheme);
        assert("://"@.is_prefix_of(whole.skip(n)));
        if is_hf(scheme) {
            assert(scheme == seq![scheme[0], scheme[1]]);
        }
        if "hf://"@.is_prefix_of(whole) {
            assert(whole[0] == "hf://"@[0]);
            assert(whole[1] == "hf://"@[1]);
            assert(whole[2] == "hf://"@[2]);
            if n < 2 {
                assert(whole[1] == ':');
            } else if n > 2 {
                assert(whole[2] == scheme[2]);
            } else {
                assert(scheme == seq!['h', 'f']);
            }
        }
    }
}

/// A local source passes exactly where it is a regular file of no more than the allowed size, and a
/// dataset always.
pub proof fn law_local_files_keep_the_size(
    source: InputSourceView,
    max_bytes: u64,
    metadata: LocalMetadata,
)
    ensures
        local_size_check(source, max_bytes, metadata) is Ok <==> (source is HuggingFace || (
        metadata matches LocalMetadata::File { size_bytes } && size_bytes <= max_bytes)),
{
}

/// What is accepted is made of entry names only: the organisation, the dataset, the revision and
/// the value of every parameter; and no other keys than the six are accepted.
pub proof fn law_accepted_references_are_made_of_entry_names(raw: Seq<char>)
    ensures
        match parsed(raw) {
            Ok(InputSourceView::HuggingFace { org, dataset, revision, query }) => {
                &&& is_entry_name(org)
                &&& is_entry_name(dataset)
                &&& revision matches Some(r) ==> is_entry_name(r)
                &&& query matches Some(q) ==> q.len() > 0 && forall|i: int|
                    0 <= i < text::split(q, '&').len() ==> is_parameter(
                        #[trigger] text::split(q, '&')[i],
                    )
            },
            Ok(InputSourceView::Local(path)) => path == raw && raw.len() > 0,
            Err(_) => true,
        },
{
    law_accepted_references_are_plain(raw);
    match parsed(raw) {
        Ok(InputSourceView::HuggingFace { org, dataset, revision, query }) => {
            lemma_plain_segments(org);
            lemma_plain_segments(dataset);
            if let Some(r) = revision {
                lemma_plain_segments(r);
            }
            if let Some(q) = query {
                let pairs = text::split(q, '&');
                assert forall|i: int| 0 <= i < pairs.len() implies is_parameter(
                    #[trigger] pairs[i],
                ) by {
                    assert(is_plain_pair(pairs[i]));
                    lemma_plain_segments(text::split_once(pairs[i], '=')->Some_0.1);
                }
            }
        },
        _ => {},
    }
}

proof fn lemma_plain_segments(s: Seq<char>)
    requires
        is_plain_segment(s),
    ensures
        is_entry_name(s),
{
    assert forall|i: int| 0 <= i < s.len() implies ('a' <= #[trigger] s[i] <= 'z' || 'A' <= s[i]
        <= 'Z' || '0' <= s[i] <= '9' || s[i] == '.' || s[i] == '_' || s[i] == '-') by {
        assert(is_allowed(s[i]));
    }
}

} // verus!
