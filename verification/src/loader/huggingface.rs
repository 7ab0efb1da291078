//! Datasets of the Hugging Face datasets server: which rows a reference asks for, page by page,
//! where they are cached, when a failed request is tried again, and the text that the rows hold.
//!
//! Requests, files and sleeping are the caller's. The caller asks [`DatasetLoad::next_request`]
//! what to fetch, hands every page to [`DatasetLoad::accept_page`], and takes the text from
//! [`DatasetLoad::finish`].
use vstd::prelude::*;
use vstd::utf8;

use crate::digest;
use crate::failure;
use crate::failure::{Failure, FailureView};
use crate::path;
use crate::text;

verus! {

pub const DATASETS_SERVER_ROWS_URL: &'static str = "https://datasets-server.huggingface.co/rows";

pub const DEFAULT_ROWS: usize = 1_000;

/// The most rows that one request may ask for.
pub const MAX_PAGE_ROWS: usize = 100;

pub const DEFAULT_CACHE_DIR: &'static str = "data/huggingface-cache";

pub const DEFAULT_REQUEST_DELAY_MS: u64 = 250;

pub const DEFAULT_MAX_RETRIES: usize = 6;

pub const DEFAULT_RETRY_BASE_DELAY_MS: u64 = 1_000;

/// The rows of a dataset that are asked for.
#[derive(Debug, Clone, PartialEq, Eq)]
pub struct HuggingFaceDatasetSpec {
    pub dataset: String,
    pub config: String,
    pub split: String,
    pub column: String,
    pub offset: usize,
    pub rows: usize,
}

/// What a [`HuggingFaceDatasetSpec`] says.
pub struct DatasetSpecView {
    pub dataset: Seq<char>,
    pub config: Seq<char>,
    pub split: Seq<char>,
    pub column: Seq<char>,
    pub offset: usize,
    pub rows: usize,
}

impl View for HuggingFaceDatasetSpec {
    type V = DatasetSpecView;

    open spec fn view(&self) -> DatasetSpecView {
        DatasetSpecView {
            dataset: self.dataset@,
            config: self.config@,
            split: self.split@,
            column: self.column@,
            offset: self.offset,
            rows: self.rows,
        }
    }
}

// ---------------------------------------------------------------------------------------
// Percent notation
// ---------------------------------------------------------------------------------------

/// The value of a hexadecimal digit.
pub open spec fn hex_value(b: u8) -> Option<int> {
    if 48 <= b <= 57 {
        Some(b - 48)
    } else if 65 <= b <= 70 {
        Some(b - 55)
    } else if 97 <= b <= 102 {
        Some(b - 87)
    } else {
        None
    }
}

/// The byte that two characters after a percent sign write. A plus sign before one digit is read
/// as a sign.
pub open spec fn escaped_byte(a: u8, b: u8) -> Option<u8> {
    match hex_value(b) {
        None => None,
        Some(low) => if a == 43 {
            Some(low as u8)
        } else {
            match hex_value(a) {
                Some(high) => Some((high * 16 + low) as u8),
                None => None,
            }
        },
    }
}

/// Bytes with their percent escapes resolved and `+` read as a space. A percent sign that starts
/// no escape stands for itself.
pub open spec fn unescaped(bytes: Seq<u8>) -> Seq<u8>
    decreases bytes.len(),
{
    if bytes.len() == 0 {
        Seq::empty()
    } else if bytes[0] == 43 {
        seq![32u8] + unescaped(bytes.skip(1))
    } else if bytes[0] == 37 && bytes.len() >= 3 && escaped_byte(bytes[1], bytes[2]) is Some {
        seq![escaped_byte(bytes[1], bytes[2])->Some_0] + unescaped(bytes.skip(3))
    } else {
        seq![bytes[0]] + unescaped(bytes.skip(1))
    }
}

/// A text with its percent escapes resolved.
pub open spec fn percent_decoded(value: Seq<char>) -> Seq<char> {
    text::utf8_text(unescaped(utf8::encode_utf8(value)))
}

/// Whether a byte is written as itself in a URL.
pub open spec fn is_unreserved(b: u8) -> bool {
    48 <= b <= 57 || 65 <= b <= 90 || 97 <= b <= 122 || b == 45 || b == 46 || b == 95 || b == 126
}

/// A hexadecimal digit in upper case.
pub open spec fn upper_hex_digit(d: int) -> char {
    if d < 10 {
        (48 + d) as char
    } else {
        (55 + d) as char
    }
}

/// A byte as it stands in a URL.
pub open spec fn escaped(b: u8) -> Seq<char> {
    if is_unreserved(b) {
        seq![b as char]
    } else {
        seq!['%', upper_hex_digit(b as int / 16), upper_hex_digit(b as int % 16)]
    }
}

/// Bytes as they stand in a URL.
pub open spec fn escaped_all(bytes: Seq<u8>) -> Seq<char>
    decreases bytes.len(),
{
    if bytes.len() == 0 {
        Seq::empty()
    } else {
        escaped_all(bytes.drop_last()) + escaped(bytes.last())
    }
}

/// A text as it stands in a URL.
pub open spec fn percent_encoded(value: Seq<char>) -> Seq<char> {
    escaped_all(utf8::encode_utf8(value))
}

fn hex_of(b: u8) -> (value: Option<u8>)
    ensures
        match value {
            Some(v) => v < 16 && hex_value(b) == Some(v as int),
            None => hex_value(b) is None,
        },
{
    if 48 <= b && b <= 57 {
        Some(b - 48)
    } else if 65 <= b && b <= 70 {
        Some(b - 55)
    } else if 97 <= b && b <= 102 {
        Some(b - 87)
    } else {
        None
    }
}

fn escape_value(a: u8, b: u8) -> (value: Option<u8>)
    ensures
        value == escaped_byte(a, b),
{
    match hex_of(b) {
        None => None,
        Some(low) => {
            if a == 43 {
                Some(low)
            } else {
                match hex_of(a) {
                    Some(high) => Some(high * 16 + low),
                    None => None,
                }
            }
        },
    }
}

/// The bytes of a text with its percent escapes resolved: see [`unescaped`].
pub fn percent_decoded_bytes(value: &str) -> (decoded: Vec<u8>)
    ensures
        decoded@ == unescaped(utf8::encode_utf8(value@)),
{
    let bytes = value.as_bytes();
    let ghost whole = bytes@;
    let mut decoded: Vec<u8> = Vec::new();
    let mut index: usize = 0;
    let n: usize = bytes.len();
    assert(whole.skip(0) == whole);
    while index < n
        invariant
            bytes@ == whole,
            n == whole.len(),
            index <= n,
            unescaped(whole) == decoded@ + unescaped(whole.skip(index as int)),
        decreases n - index,
    {
        let ghost rest = whole.skip(index as int);
        let ghost before = decoded@;
        let byte: u8 = bytes[index];
        assert(rest[0] == byte);
        let escape: Option<u8> = if byte == 37 && n - index >= 3 {
            assert(rest[1] == whole[index as int + 1]);
            assert(rest[2] == whole[index as int + 2]);
            escape_value(bytes[index + 1], bytes[index + 2])
        } else {
            None
        };
        match escape {
            Some(value) => {
                decoded.push(value);
                proof {
                    assert(rest.skip(3) == whole.skip(index as int + 3));
                    assert(before + (seq![value] + unescaped(rest.skip(3))) == decoded@ + unescaped(
                        rest.skip(3),
                    ));
                }
                index += 3;
            },
            None => {
                let plain: u8 = if byte == 43 {
                    32
                } else {
                    byte
                };
                decoded.push(plain);
                proof {
                    assert(rest.skip(1) == whole.skip(index as int + 1));
                    assert(before + (seq![plain] + unescaped(rest.skip(1))) == decoded@ + unescaped(
                        rest.skip(1),
                    ));
                }
                index += 1;
            },
        }
    }
    assert(decoded@ + unescaped(whole.skip(index as int)) == decoded@);
    decoded
}

/// A text with its percent escapes resolved: see [`percent_decoded`].
pub fn percent_decode(value: &str) -> (s: String)
    ensures
        s@ == percent_decoded(value@),
{
    let bytes = percent_decoded_bytes(value);
    text::text_of_bytes(bytes.as_slice())
}

fn upper_hex(d: u8) -> (c: char)
    requires
        d < 16,
    ensures
        c == upper_hex_digit(d as int),
{
    if d < 10 {
        (48 + d) as char
    } else {
        (55 + d) as char
    }
}

/// A text as it stands in a URL: see [`percent_encoded`].
pub fn percent_encode(value: &str) -> (s: String)
    ensures
        s@ == percent_encoded(value@),
{
    let bytes = value.as_bytes();
    let mut s = String::new();
    let mut i: usize = 0;
    while i < bytes.len()
        invariant
            i <= bytes@.len(),
            s@ == escaped_all(bytes@.take(i as int)),
        decreases bytes.len() - i,
    {
        let b: u8 = bytes[i];
        let ghost before = s@;
        proof {
            assert(bytes@.take(i as int + 1).drop_last() == bytes@.take(i as int));
            assert(bytes@.take(i as int + 1).last() == b);
        }
        if (48 <= b && b <= 57) || (65 <= b && b <= 90) || (97 <= b && b <= 122) || b == 45 || b
            == 46 || b == 95 || b == 126 {
            s.push(b as char);
            assert(s@ == before + escaped(b));
        } else {
            s.push('%');
            s.push(upper_hex(b / 16));
            s.push(upper_hex(b % 16));
            assert(s@ == before + escaped(b));
        }
        i += 1;
    }
    assert(bytes@.take(bytes@.len() as int) == bytes@);
    s
}

// ---------------------------------------------------------------------------------------
// References
// ---------------------------------------------------------------------------------------

/// A text without the slashes at its start and end.
pub open spec fn without_outer_slashes(s: Seq<char>) -> Seq<char>
    decreases s.len(),
{
    if s.len() > 0 && s[0] == '/' {
        without_outer_slashes(s.skip(1))
    } else if s.len() > 0 && s.last() == '/' {
        without_outer_slashes(s.drop_last())
    } else {
        s
    }
}

/// The message about a parameter without a value.
pub open spec fn empty_param_text(key: Seq<char>) -> Seq<char> {
    "Hugging Face dataset URI parameter '"@ + key + "' must not be empty"@
}

/// The message about a parameter that is no number.
pub open spec fn invalid_param_text(key: Seq<char>, value: Seq<char>) -> Seq<char> {
    "invalid Hugging Face dataset URI parameter '"@ + key + "="@ + value + "'"@
}

/// The message about a parameter that is zero.
pub open spec fn zero_param_text(key: Seq<char>) -> Seq<char> {
    "Hugging Face dataset URI parameter '"@ + key + "' must be greater than zero"@
}

/// What a parameter makes of a spec, or why it is refused.
pub open spec fn with_param(spec_view: DatasetSpecView, key: Seq<char>, value: Seq<char>) -> Result<
    DatasetSpecView,
    FailureView,
> {
    if key == "config"@ {
        if value.len() == 0 {
            Err(failure::said(empty_param_text(key)))
        } else {
            Ok(DatasetSpecView { config: value, ..spec_view })
        }
    } else if key == "split"@ {
        if value.len() == 0 {
            Err(failure::said(empty_param_text(key)))
        } else {
            Ok(DatasetSpecView { split: value, ..spec_view })
        }
    } else if key == "column"@ {
        if value.len() == 0 {
            Err(failure::said(empty_param_text(key)))
        } else {
            Ok(DatasetSpecView { column: value, ..spec_view })
        }
    } else if key == "offset"@ {
        match text::usize_value(value) {
            Some(n) => Ok(DatasetSpecView { offset: n, ..spec_view }),
            None => Err(
                failure::because(invalid_param_text(key, value), text::usize_cause(value)),
            ),
        }
    } else if key == "rows"@ || key == "limit"@ {
        match text::usize_value(value) {
            Some(n) => if n == 0 {
                Err(failure::said(zero_param_text(key)))
            } else {
                Ok(DatasetSpecView { rows: n, ..spec_view })
            },
            None => Err(
                failure::because(invalid_param_text(key, value), text::usize_cause(value)),
            ),
        }
    } else {
        Err(failure::said("unsupported Hugging Face dataset URI parameter '"@ + key + "'"@))
    }
}

/// The key and the resolved value of a `key=value` pair. A pair without `=` has an empty value.
pub open spec fn pair_parts(pair: Seq<char>) -> (Seq<char>, Seq<char>) {
    match text::split_once(pair, '=') {
        Some((key, value)) => (key, percent_decoded(value)),
        None => (pair, percent_decoded(Seq::empty())),
    }
}

/// What the pairs of a query make of a spec, one after the other. Empty pairs are passed over.
pub open spec fn with_params(spec_view: DatasetSpecView, pairs: Seq<Seq<char>>) -> Result<
    DatasetSpecView,
    FailureView,
>
    decreases pairs.len(),
{
    if pairs.len() == 0 {
        Ok(spec_view)
    } else if pairs[0].len() == 0 {
        with_params(spec_view, pairs.skip(1))
    } else {
        let (key, value) = pair_parts(pairs[0]);
        match with_param(spec_view, key, value) {
            Ok(next) => with_params(next, pairs.skip(1)),
            Err(f) => Err(f),
        }
    }
}

/// What a dataset name alone asks for.
pub open spec fn default_spec(dataset: Seq<char>) -> DatasetSpecView {
    DatasetSpecView {
        dataset,
        config: "default"@,
        split: "train"@,
        column: "text"@,
        offset: 0,
        rows: DEFAULT_ROWS,
    }
}

/// What follows `hf://` as a dataset spec.
pub open spec fn parsed_rest(rest: Seq<char>) -> Result<DatasetSpecView, FailureView> {
    let (name, query) = match text::split_once(rest, '?') {
        Some((head, tail)) => (head, tail),
        None => (rest, Seq::empty()),
    };
    let dataset = without_outer_slashes(name);
    if dataset.len() == 0 {
        Err(
            failure::said("Hugging Face dataset URI must include a dataset id after hf://"@),
        )
    } else {
        with_params(default_spec(dataset), text::split(query, '&'))
    }
}

/// What an input text asks for, where it is a dataset reference.
pub open spec fn parsed(input: Seq<char>) -> Result<Option<DatasetSpecView>, FailureView> {
    if !"hf://"@.is_prefix_of(input) {
        Ok(None)
    } else {
        match parsed_rest(input.skip("hf://"@.len() as int)) {
            Ok(view) => Ok(Some(view)),
            Err(f) => Err(f),
        }
    }
}

fn trim_slashes(chars: &[char]) -> (part: Vec<char>)
    ensures
        part@ == without_outer_slashes(chars@),
{
    let mut start: usize = 0;
    let mut end: usize = chars.len();
    let ghost whole = chars@;
    assert(whole.subrange(0, whole.len() as int) == whole);
    while start < end && (chars[start] == '/' || chars[end - 1] == '/')
        invariant
            chars@ == whole,
            start <= end <= whole.len(),
            without_outer_slashes(whole) == without_outer_slashes(
                whole.subrange(start as int, end as int),
            ),
        decreases end - start,
    {
        let ghost now = whole.subrange(start as int, end as int);
        assert(now[0] == whole[start as int]);
        assert(now.last() == whole[end - 1]);
        if chars[start] == '/' {
            assert(now.skip(1) == whole.subrange(start as int + 1, end as int));
            start += 1;
        } else {
            assert(now.drop_last() == whole.subrange(start as int, end - 1));
            end -= 1;
        }
    }
    proof {
        let now = whole.subrange(start as int, end as int);
        if start < end {
            assert(now[0] == whole[start as int]);
            assert(now.last() == whole[end - 1]);
        }
    }
    text::slice_chars(chars, start, end)
}

fn required_value(key: &str, value: String) -> (r: Result<String, Failure>)
    ensures
        match r {
            Ok(v) => value@.len() > 0 && v@ == value@,
            Err(e) => value@.len() == 0 && e@ == failure::said(empty_param_text(key@)),
        },
{
    if value.as_str().is_empty() {
        let mut message = "Hugging Face dataset URI parameter '".to_owned();
        message.append(key);
        message.append("' must not be empty");
        Err(Failure::of(message))
    } else {
        Ok(value)
    }
}

fn parse_usize_param(key: &str, value: &str) -> (r: Result<usize, Failure>)
    ensures
        match r {
            Ok(n) => text::usize_value(value@) == Some(n),
            Err(e) => text::usize_value(value@) is None && e@ == failure::because(
                invalid_param_text(key@, value@),
                text::usize_cause(value@),
            ),
        },
{
    match text::parse_usize(value) {
        Some(n) => Ok(n),
        None => {
            let mut message = "invalid Hugging Face dataset URI parameter '".to_owned();
            message.append(key);
            message.append("=");
            message.append(value);
            message.append("'");
            Err(Failure::caused(message, text::usize_cause_text(value)))
        },
    }
}

fn parse_positive_usize_param(key: &str, value: &str) -> (r: Result<usize, Failure>)
    ensures
        match r {
            Ok(n) => text::usize_value(value@) == Some(n) && n > 0,
            Err(e) => match text::usize_value(value@) {
                None => e@ == failure::because(
                    invalid_param_text(key@, value@),
                    text::usize_cause(value@),
                ),
                Some(n) => n == 0 && e@ == failure::said(zero_param_text(key@)),
            },
        },
{
    match parse_usize_param(key, value) {
        Err(e) => Err(e),
        Ok(n) => {
            if n == 0 {
                let mut message = "Hugging Face dataset URI parameter '".to_owned();
                message.append(key);
                message.append("' must be greater than zero");
                Err(Failure::of(message))
            } else {
                Ok(n)
            }
        },
    }
}

impl HuggingFaceDatasetSpec {
    /// Sets one parameter, by its key and its resolved value: see [`with_param`].
    pub fn set_param(&mut self, key: &str, value: String) -> (r: Result<(), Failure>)
        ensures
            match r {
                Ok(_) => with_param(old(self)@, key@, value@) == Ok::<DatasetSpecView, FailureView>(
                    final(self)@,
                ),
                Err(e) => with_param(old(self)@, key@, value@) == Err::<DatasetSpecView, FailureView>(
                    e@,
                ) && *final(self) == *old(self),
            },
    {
        if text::same_text(key, "config") {
            match required_value(key, value) {
                Ok(v) => {
                    self.config = v;
                    Ok(())
                },
                Err(e) => Err(e),
            }
        } else if text::same_text(key, "split") {
            match required_value(key, value) {
                Ok(v) => {
                    self.split = v;
                    Ok(())
                },
                Err(e) => Err(e),
            }
        } else if text::same_text(key, "column") {
            match required_value(key, value) {
                Ok(v) => {
                    self.column = v;
                    Ok(())
                },
                Err(e) => Err(e),
            }
        } else if text::same_text(key, "offset") {
            match parse_usize_param(key, value.as_str()) {
                Ok(n) => {
                    self.offset = n;
                    Ok(())
                },
                Err(e) => Err(e),
            }
        } else if text::same_text(key, "rows") || text::same_text(key, "limit") {
            match parse_positive_usize_param(key, value.as_str()) {
                Ok(n) => {
                    self.rows = n;
                    Ok(())
                },
                Err(e) => Err(e),
            }
        } else {
            let mut message = "unsupported Hugging Face dataset URI parameter '".to_owned();
            message.append(key);
            message.append("'");
            Err(Failure::of(message))
        }
    }

    /// Reads a dataset reference. Anything that does not start with `hf://` is none.
    pub fn parse(input: &str) -> (r: Result<Option<HuggingFaceDatasetSpec>, Failure>)
        ensures
            match r {
                Ok(Some(s)) => parsed(input@) == Ok::<Option<DatasetSpecView>, FailureView>(
                    Some(s@),
                ),
                Ok(None) => parsed(input@) == Ok::<Option<DatasetSpecView>, FailureView>(None),
                Err(e) => parsed(input@) == Err::<Option<DatasetSpecView>, FailureView>(e@),
            },
    {
        let chars = text::to_chars(input);
        let rest = match text::strip_prefix(chars.as_slice(), "hf://") {
            Some(rest) => rest,
            None => {
                return Ok(None);
            },
        };
        let (name, query) = match text::split_once_chars(rest.as_slice(), '?') {
            Some((head, tail)) => (head, tail),
            None => (text::slice_chars(rest.as_slice(), 0, rest.len()), Vec::new()),
        };
        assert(rest@.subrange(0, rest@.len() as int) == rest@);
        let dataset = trim_slashes(name.as_slice());
        if dataset.len() == 0 {
            return Err(
                Failure::new("Hugging Face dataset URI must include a dataset id after hf://"),
            );
        }
        let mut dataset_spec = HuggingFaceDatasetSpec {
            dataset: text::from_chars(dataset.as_slice()),
            config: "default".to_owned(),
            split: "train".to_owned(),
            column: "text".to_owned(),
            offset: 0,
            rows: DEFAULT_ROWS,
        };
        let pairs = text::split_chars(query.as_slice(), '&');
        let ghost views = text::char_views(pairs@);
        let ghost outcome = parsed_rest(rest@);
        let mut i: usize = 0;
        assert(views.skip(0) == views);
        while i < pairs.len()
            invariant
                i <= pairs@.len(),
                views == text::char_views(pairs@),
                outcome == with_params(dataset_spec@, views.skip(i as int)),
                parsed(input@) == (match outcome {
                    Ok(view) => Ok::<Option<DatasetSpecView>, FailureView>(Some(view)),
                    Err(f) => Err(f),
                }),
            decreases pairs.len() - i,
        {
            let ghost left = views.skip(i as int);
            proof {
                assert(left[0] == pairs@[i as int]@);
                assert(left.skip(1) == views.skip(i as int + 1));
            }
            if pairs[i].len() > 0 {
                let (key, value) = match text::split_once_chars(pairs[i].as_slice(), '=') {
                    Some((key, value)) => (key, value),
                    None => (
                        text::slice_chars(pairs[i].as_slice(), 0, pairs[i].len()),
                        Vec::new(),
                    ),
                };
                proof {
                    let pair = pairs@[i as int]@;
                    assert(pair.subrange(0, pair.len() as int) == pair);
                }
                let key_text = text::from_chars(key.as_slice());
                let value_text = text::from_chars(value.as_slice());
                let resolved = percent_decode(value_text.as_str());
                match dataset_spec.set_param(key_text.as_str(), resolved) {
                    Ok(_) => {},
                    Err(e) => {
                        return Err(e);
                    },
                }
            }
            i += 1;
        }
        Ok(Some(dataset_spec))
    }
}

// ---------------------------------------------------------------------------------------
// Addresses and cache files
// ---------------------------------------------------------------------------------------

/// The address of a page of rows.
pub open spec fn rows_url_text(s: DatasetSpecView, offset: nat, length: nat) -> Seq<char> {
    DATASETS_SERVER_ROWS_URL@ + "?dataset="@ + percent_encoded(s.dataset) + "&config="@
        + percent_encoded(s.config) + "&split="@ + percent_encoded(s.split) + "&offset="@
        + text::decimal(offset) + "&length="@ + text::decimal(length)
}

/// All that tells one spec from another, as one text.
pub open spec fn cache_key_text(s: DatasetSpecView) -> Seq<char> {
    "dataset="@ + s.dataset + "\nconfig="@ + s.config + "\nsplit="@ + s.split + "\ncolumn="@
        + s.column + "\noffset="@ + text::decimal(s.offset as nat) + "\nrows="@ + text::decimal(
        s.rows as nat,
    ) + "\n"@
}

/// The digest of a spec's cache key.
pub open spec fn cache_digest(s: DatasetSpecView) -> Seq<char> {
    digest::hex_chars(digest::sha256_digest(utf8::encode_utf8(cache_key_text(s))))
}

/// Whether a character may stand in a cache file name.
pub open spec fn is_cache_char(c: char) -> bool {
    '0' <= c <= '9' || 'A' <= c <= 'Z' || 'a' <= c <= 'z' || c == '-' || c == '_' || c == '.'
}

/// A text as a part of a cache file name: at most 64 characters, with a dash for each that may
/// not stand there, and never empty.
pub open spec fn cache_component(value: Seq<char>) -> Seq<char> {
    if value.len() == 0 {
        "default"@
    } else {
        Seq::new(
            (if value.len() < 64 {
                value.len()
            } else {
                64
            }),
            |i: int|
                if is_cache_char(value[i]) {
                    value[i]
                } else {
                    '-'
                },
        )
    }
}

/// The name of the file that holds the text of a spec.
pub open spec fn cache_file_name(s: DatasetSpecView) -> Seq<char> {
    cache_component(s.dataset) + "__"@ + cache_component(s.config) + "__"@ + cache_component(
        s.split,
    ) + "__"@ + cache_component(s.column) + "__offset-"@ + text::decimal(s.offset as nat)
        + "__rows-"@ + text::decimal(s.rows as nat) + "__"@ + cache_digest(s) + ".txt"@
}

/// The name of the file that holds one page of rows.
pub open spec fn page_file_name(s: DatasetSpecView, offset: nat, length: nat) -> Seq<char> {
    cache_component(s.dataset) + "__"@ + cache_component(s.config) + "__"@ + cache_component(
        s.split,
    ) + "__offset-"@ + text::decimal(offset) + "__length-"@ + text::decimal(length) + "__"@
        + cache_digest(s) + ".json"@
}

/// A text as a part of a cache file name: see [`cache_component`].
pub fn safe_cache_component(value: &str) -> (s: String)
    ensures
        s@ == cache_component(value@),
{
    let chars = text::to_chars(value);
    if chars.len() == 0 {
        return "default".to_owned();
    }
    let ghost whole = cache_component(value@);
    let mut s = String::new();
    let mut i: usize = 0;
    while i < chars.len() && i < 64
        invariant
            i <= chars@.len(),
            i <= 64,
            chars@ == value@,
            chars@.len() > 0,
            whole == cache_component(value@),
            s@ == whole.take(i as int),
        decreases chars.len() - i,
    {
        let c = chars[i];
        if ('0' <= c && c <= '9') || ('A' <= c && c <= 'Z') || ('a' <= c && c <= 'z') || c == '-'
            || c == '_' || c == '.' {
            s.push(c);
        } else {
            s.push('-');
        }
        assert(s@ == whole.take(i as int + 1));
        i += 1;
    }
    assert(whole.take(i as int) == whole);
    s
}

impl HuggingFaceDatasetSpec {
    /// The address of a page of rows.
    pub fn rows_url(&self, offset: usize, length: usize) -> (s: String)
        ensures
            s@ == rows_url_text(self@, offset as nat, length as nat),
    {
        let mut s = DATASETS_SERVER_ROWS_URL.to_owned();
        s.append("?dataset=");
        s.append(percent_encode(self.dataset.as_str()).as_str());
        s.append("&config=");
        s.append(percent_encode(self.config.as_str()).as_str());
        s.append("&split=");
        s.append(percent_encode(self.split.as_str()).as_str());
        s.append("&offset=");
        s.append(text::usize_text(offset).as_str());
        s.append("&length=");
        s.append(text::usize_text(length).as_str());
        s
    }

    /// All that tells one spec from another, as one text.
    pub fn cache_key(&self) -> (s: String)
        ensures
            s@ == cache_key_text(self@),
    {
        let mut s = "dataset=".to_owned();
        s.append(self.dataset.as_str());
        s.append("\nconfig=");
        s.append(self.config.as_str());
        s.append("\nsplit=");
        s.append(self.split.as_str());
        s.append("\ncolumn=");
        s.append(self.column.as_str());
        s.append("\noffset=");
        s.append(text::usize_text(self.offset).as_str());
        s.append("\nrows=");
        s.append(text::usize_text(self.rows).as_str());
        s.append("\n");
        s
    }

    fn key_digest(&self) -> (s: String)
        ensures
            s@ == cache_digest(self@),
    {
        let key = self.cache_key();
        digest::sha256_hex(key.as_str().as_bytes())
    }

    /// The file that holds the text of this spec.
    pub fn cache_path(&self, cache_dir: &str) -> (s: String)
        ensures
            s@ == path::join(cache_dir@, cache_file_name(self@)),
    {
        let mut name = safe_cache_component(self.dataset.as_str());
        name.append("__");
        name.append(safe_cache_component(self.config.as_str()).as_str());
        name.append("__");
        name.append(safe_cache_component(self.split.as_str()).as_str());
        name.append("__");
        name.append(safe_cache_component(self.column.as_str()).as_str());
        name.append("__offset-");
        name.append(text::usize_text(self.offset).as_str());
        name.append("__rows-");
        name.append(text::usize_text(self.rows).as_str());
        name.append("__");
        name.append(self.key_digest().as_str());
        name.append(".txt");
        path::path_join(cache_dir, name.as_str())
    }

    /// The file that holds one page of rows.
    pub fn page_cache_path(&self, cache_dir: &str, offset: usize, length: usize) -> (s: String)
        ensures
            s@ == path::join(
                path::join(cache_dir@, "pages"@),
                page_file_name(self@, offset as nat, length as nat),
            ),
    {
        let mut name = safe_cache_component(self.dataset.as_str());
        name.append("__");
        name.append(safe_cache_component(self.config.as_str()).as_str());
        name.append("__");
        name.append(safe_cache_component(self.split.as_str()).as_str());
        name.append("__offset-");
        name.append(text::usize_text(offset).as_str());
        name.append("__length-");
        name.append(text::usize_text(length).as_str());
        name.append("__");
        name.append(self.key_digest().as_str());
        name.append(".json");
        let pages = path::path_join(cache_dir, "pages");
        path::path_join(pages.as_str(), name.as_str())
    }
}

/// The cache directory: the environment's, else the default.
pub fn cache_dir(env: Option<&str>) -> (s: String)
    ensures
        s@ == (match env {
            Some(dir) => dir@,
            None => DEFAULT_CACHE_DIR@,
        }),
{
    match env {
        Some(dir) => dir.to_owned(),
        None => DEFAULT_CACHE_DIR.to_owned(),
    }
}

// ---------------------------------------------------------------------------------------
// Rows
// ---------------------------------------------------------------------------------------

/// One cell of a dataset row. A number and a nested value stand here as their JSON text.
#[derive(Debug, Clone, PartialEq, Eq)]
pub enum Cell {
    Null,
    Text(String),
    Bool(bool),
    Number(String),
    Nested(String),
}

/// One row: its cells by column. A column stands here once.
#[derive(Debug, Clone, PartialEq, Eq)]
pub struct DatasetRow {
    pub cells: Vec<(String, Cell)>,
}

/// One page of rows, and how many rows the dataset has where the server said so.
#[derive(Debug, Clone, PartialEq, Eq)]
pub struct RowsPage {
    pub rows: Vec<DatasetRow>,
    pub num_rows_total: Option<usize>,
}

/// The text of a cell, where it has one.
pub open spec fn cell_text(cell: Cell) -> Option<Seq<char>> {
    match cell {
        Cell::Null => None,
        Cell::Text(s) => Some(s@),
        Cell::Bool(b) => Some(text::bool_chars(b)),
        Cell::Number(s) => Some(s@),
        Cell::Nested(s) => Some(s@),
    }
}

/// The cell of a column, where the row has it.
pub open spec fn cell_at(cells: Seq<(String, Cell)>, column: Seq<char>) -> Option<Cell>
    decreases cells.len(),
{
    if cells.len() == 0 {
        None
    } else if cells[0].0@ == column {
        Some(cells[0].1)
    } else {
        cell_at(cells.skip(1), column)
    }
}

/// The text of a column in a row, where there is one.
pub open spec fn row_text(row: DatasetRow, column: Seq<char>) -> Option<Seq<char>> {
    match cell_at(row.cells@, column) {
        Some(cell) => cell_text(cell),
        None => None,
    }
}

/// A text with a row's text on a line of its own after it, where the row has one.
pub open spec fn with_row(output: Seq<char>, row: DatasetRow, column: Seq<char>) -> Seq<char> {
    match row_text(row, column) {
        None => output,
        Some(line) => if output.len() == 0 {
            line
        } else {
            output.push('\n') + line
        },
    }
}

/// A text with the rows' texts after it, one to a line.
pub open spec fn with_rows(output: Seq<char>, rows: Seq<DatasetRow>, column: Seq<char>) -> Seq<char>
    decreases rows.len(),
{
    if rows.len() == 0 {
        output
    } else {
        with_row(with_rows(output, rows.drop_last(), column), rows.last(), column)
    }
}

/// Whether some row has a text in the column.
pub open spec fn some_row_has(rows: Seq<DatasetRow>, column: Seq<char>) -> bool {
    exists|i: int| 0 <= i < rows.len() && row_text(#[trigger] rows[i], column) is Some
}

/// The message about rows without the column.
pub open spec fn missing_column_text(column: Seq<char>) -> Seq<char> {
    "Hugging Face dataset rows did not include column '"@ + column + "'"@
}

/// The text of a cell: see [`cell_text`].
pub fn value_to_text(cell: &Cell) -> (s: Option<String>)
    ensures
        match s {
            Some(t) => cell_text(*cell) == Some(t@),
            None => cell_text(*cell) is None,
        },
{
    match cell {
        Cell::Null => None,
        Cell::Text(s) => Some(s.clone()),
        Cell::Bool(b) => Some(text::bool_text(*b).to_owned()),
        Cell::Number(s) => Some(s.clone()),
        Cell::Nested(s) => Some(s.clone()),
    }
}

impl DatasetRow {
    fn text_in(&self, column: &str) -> (s: Option<String>)
        ensures
            match s {
                Some(t) => row_text(*self, column@) == Some(t@),
                None => row_text(*self, column@) is None,
            },
    {
        let ghost cells = self.cells@;
        let mut i: usize = 0;
        assert(cells.skip(0) == cells);
        while i < self.cells.len()
            invariant
                i <= cells.len(),
                cells == self.cells@,
                cell_at(cells, column@) == cell_at(cells.skip(i as int), column@),
            decreases self.cells.len() - i,
        {
            proof {
                assert(cells.skip(i as int)[0] == cells[i as int]);
                assert(cells.skip(i as int).skip(1) == cells.skip(i as int + 1));
            }
            if text::same_text(self.cells[i].0.as_str(), column) {
                return value_to_text(&self.cells[i].1);
            }
            i += 1;
        }
        None
    }
}

/// Puts the rows' texts after what is there, one to a line. Rows of which none has a text in the
/// column are refused.
pub fn append_column_text(output: &mut String, rows: &Vec<DatasetRow>, column: &str) -> (r: Result<
    (),
    Failure,
>)
    ensures
        final(output)@ == with_rows(old(output)@, rows@, column@),
        match r {
            Ok(_) => some_row_has(rows@, column@),
            Err(e) => !some_row_has(rows@, column@) && e.cause is None && e.message@ == missing_column_text(column@),
        },
{
    let ghost start = output@;
    let mut found = false;
    let mut i: usize = 0;
    while i < rows.len()
        invariant
            i <= rows@.len(),
            output@ == with_rows(start, rows@.take(i as int), column@),
            found == some_row_has(rows@.take(i as int), column@),
        decreases rows.len() - i,
    {
        let ghost before = rows@.take(i as int);
        let ghost now = rows@.take(i as int + 1);
        proof {
            assert(now.drop_last() == before);
            assert(now.last() == rows@[i as int]);
        }
        match rows[i].text_in(column) {
            Some(line) => {
                if !output.as_str().is_empty() {
                    output.push('\n');
                    output.append(line.as_str());
                } else {
                    output.append(line.as_str());
                    assert(Seq::<char>::empty() + line@ == line@);
                }
                found = true;
                assert(row_text(now[i as int], column@) is Some);
            },
            None => {
                proof {
                    if some_row_has(before, column@) {
                        let k = choose|k: int|
                            0 <= k < before.len() && row_text(#[trigger] before[k], column@) is Some;
                        assert(row_text(now[k], column@) is Some);
                    }
                    if some_row_has(now, column@) {
                        let k = choose|k: int|
                            0 <= k < now.len() && row_text(#[trigger] now[k], column@) is Some;
                        assert(row_text(before[k], column@) is Some);
                    }
                }
            },
        }
        assert(output@ == with_rows(start, now, column@));
        i += 1;
    }
    assert(rows@.take(rows@.len() as int) == rows@);
    if found {
        Ok(())
    } else {
        let mut message = "Hugging Face dataset rows did not include column '".to_owned();
        message.append(column);
        message.append("'");
        Err(Failure::of(message))
    }
}

// ---------------------------------------------------------------------------------------
// Loading, page by page
// ---------------------------------------------------------------------------------------

/// A request for one page.
#[derive(Debug, Clone, PartialEq, Eq)]
pub struct PageRequest {
    pub url: String,
    /// The file that may already hold the page, and is to hold it afterwards.
    pub page_cache_path: String,
    pub offset: usize,
    pub length: usize,
}

/// A dataset on its way in.
pub struct DatasetLoad {
    pub dataset_spec: HuggingFaceDatasetSpec,
    pub cache_dir: String,
    pub output: String,
    pub fetched_rows: usize,
    pub offset: usize,
    pub total_rows: Option<usize>,
    /// Whether the server has no more rows.
    pub exhausted: bool,
}

/// How many rows the next page is asked for: what is missing, up to a full page.
pub open spec fn page_length(rows: usize, fetched: usize) -> int {
    if rows - fetched < MAX_PAGE_ROWS {
        rows - fetched
    } else {
        MAX_PAGE_ROWS as int
    }
}

impl DatasetLoad {
    /// What holds between two pages: the position is as far from its start as rows were read.
    pub open spec fn well_formed(self) -> bool {
        self.offset == self.dataset_spec.offset + self.fetched_rows
    }

    /// Whether another page is to be fetched.
    pub open spec fn wants_more(self) -> bool {
        !self.exhausted && self.fetched_rows < self.dataset_spec.rows
    }

    /// A load with nothing read yet.
    pub fn begin(dataset_spec: HuggingFaceDatasetSpec, cache_dir: &str) -> (load: DatasetLoad)
        ensures
            load.well_formed(),
            load.dataset_spec == dataset_spec,
            load.cache_dir@ == cache_dir@,
            load.output@ == Seq::<char>::empty(),
            load.fetched_rows == 0,
            load.total_rows is None,
            !load.exhausted,
    {
        let offset: usize = dataset_spec.offset;
        DatasetLoad {
            dataset_spec,
            cache_dir: cache_dir.to_owned(),
            output: String::new(),
            fetched_rows: 0,
            offset,
            total_rows: None,
            exhausted: false,
        }
    }

    /// The next page to fetch, where one is still wanted.
    pub fn next_request(&self) -> (request: Option<PageRequest>)
        ensures
            match request {
                Some(r) => {
                    &&& self.wants_more()
                    &&& r.offset == self.offset
                    &&& r.length == page_length(self.dataset_spec.rows, self.fetched_rows)
                    &&& 0 < r.length <= MAX_PAGE_ROWS
                    &&& self.fetched_rows + r.length <= self.dataset_spec.rows
                    &&& r.length == 100 || self.fetched_rows + r.length == self.dataset_spec.rows
                    &&& !self.exhausted && self.fetched_rows < self.dataset_spec.rows
                    &&& self.well_formed() ==> r.offset == self.dataset_spec.offset
                        + self.fetched_rows
                    &&& r.url@ == rows_url_text(
                        self.dataset_spec@,
                        r.offset as nat,
                        r.length as nat,
                    )
                    &&& r.page_cache_path@ == path::join(
                        path::join(self.cache_dir@, "pages"@),
                        page_file_name(self.dataset_spec@, r.offset as nat, r.length as nat),
                    )
                },
                None => !self.wants_more() && (self.exhausted || self.fetched_rows
                    >= self.dataset_spec.rows),
            },
    {
        if self.exhausted || self.fetched_rows >= self.dataset_spec.rows {
            return None;
        }
        let missing: usize = self.dataset_spec.rows - self.fetched_rows;
        let length: usize = if missing < MAX_PAGE_ROWS {
            missing
        } else {
            MAX_PAGE_ROWS
        };
        let url = self.dataset_spec.rows_url(self.offset, length);
        let page_cache_path = self.dataset_spec.page_cache_path(
            self.cache_dir.as_str(),
            self.offset,
            length,
        );
        Some(PageRequest { url, page_cache_path, offset: self.offset, length })
    }

    /// Takes a page in. Says whether to pause before the next request.
    pub fn accept_page(&mut self, page: &RowsPage) -> (r: Result<bool, Failure>)
        requires
            old(self).well_formed(),
            old(self).offset + page.rows@.len() <= usize::MAX,
        ensures
            final(self).dataset_spec == old(self).dataset_spec,
            final(self).cache_dir == old(self).cache_dir,
            final(self).well_formed(),
            match r {
                Err(e) => {
                    &&& page.rows@.len() > 0
                    &&& !some_row_has(page.rows@, old(self).dataset_spec.column@)
                    &&& e.cause is None && e.message@ == missing_column_text(old(self).dataset_spec.column@)
                    &&& final(self).output@ == with_rows(
                        old(self).output@,
                        page.rows@,
                        old(self).dataset_spec.column@,
                    )
                    &&& final(self).fetched_rows == old(self).fetched_rows
                    &&& final(self).exhausted == old(self).exhausted
                    &&& final(self).total_rows == (match page.num_rows_total {
                        Some(total) => Some(total),
                        None => old(self).total_rows,
                    })
                },
                Ok(pause) => {
                    let n = page.rows@.len();
                    &&& n > 0 ==> some_row_has(page.rows@, old(self).dataset_spec.column@)
                    &&& final(self).output@ == with_rows(
                        old(self).output@,
                        page.rows@,
                        old(self).dataset_spec.column@,
                    )
                    &&& final(self).fetched_rows == old(self).fetched_rows + n
                    &&& final(self).total_rows == (match page.num_rows_total {
                        Some(total) => if n > 0 {
                            Some(total)
                        } else {
                            old(self).total_rows
                        },
                        None => old(self).total_rows,
                    })
                    &&& final(self).exhausted == (old(self).exhausted || n == 0 || (
                    final(self).total_rows matches Some(total) && final(self).offset >= total))
                    &&& pause == (n > 0 && final(self).wants_more())
                    &&& page_taken(*old(self), *final(self), *page)
                },
            },
    {
        let ghost before = *self;
        if page.rows.len() == 0 {
            self.exhausted = true;
            assert(with_rows(self.output@, page.rows@, self.dataset_spec.column@) == self.output@);
            return Ok(false);
        }
        match page.num_rows_total {
            Some(total) => {
                self.total_rows = Some(total);
            },
            None => {},
        }
        match append_column_text(&mut self.output, &page.rows, self.dataset_spec.column.as_str()) {
            Ok(_) => {},
            Err(e) => {
                return Err(e);
            },
        }
        self.fetched_rows = self.fetched_rows + page.rows.len();
        self.offset = self.offset + page.rows.len();
        match self.total_rows {
            Some(total) => {
                if self.offset >= total {
                    self.exhausted = true;
                }
            },
            None => {},
        }
        Ok(!self.exhausted && self.fetched_rows < self.dataset_spec.rows)
    }

    /// The text that was read. Nothing but whitespace is refused.
    pub fn finish(&self) -> (r: Result<String, Failure>)
        ensures
            match r {
                Ok(s) => !blank(self.output@) && s@ == self.output@,
                Err(e) => blank(self.output@) && e.cause is None && e.message@ == "Hugging Face dataset '"@
                    + self.dataset_spec.dataset@ + "' returned no text for column '"@
                    + self.dataset_spec.column@ + "'"@,
            },
    {
        if is_blank(self.output.as_str()) {
            let mut message = "Hugging Face dataset '".to_owned();
            message.append(self.dataset_spec.dataset.as_str());
            message.append("' returned no text for column '");
            message.append(self.dataset_spec.column.as_str());
            message.append("'");
            Err(Failure::of(message))
        } else {
            Ok(self.output.clone())
        }
    }
}

/// Whether a text holds nothing but whitespace.
pub open spec fn blank(s: Seq<char>) -> bool {
    text::trim(s).len() == 0
}

/// Whether a text holds nothing but whitespace.
pub fn is_blank(s: &str) -> (yes: bool)
    ensures
        yes == blank(s@),
{
    text::trim_text(s).as_str().is_empty()
}

/// What to do about an input text: nothing, where it is no dataset reference, or to look for the
/// cached text first and to load it where there is none.
pub struct DatasetPlan {
    /// The file that may already hold the text, and is to hold it afterwards.
    pub cache_path: String,
    pub load: DatasetLoad,
}

/// Plans the load of an input text, with the cache directory of the environment or the default.
pub fn load_text_from_uri(input: &str, env_cache_dir: Option<&str>) -> (r: Result<
    Option<DatasetPlan>,
    Failure,
>)
    ensures
        plan_is(r, input@, match env_cache_dir {
            Some(dir) => dir@,
            None => DEFAULT_CACHE_DIR@,
        }),
{
    let dir = cache_dir(env_cache_dir);
    load_text_from_uri_with_cache_dir(input, dir.as_str())
}

/// Whether `r` is the plan for an input text.
pub open spec fn plan_is(
    r: Result<Option<DatasetPlan>, Failure>,
    input: Seq<char>,
    cache_dir: Seq<char>,
) -> bool {
    match r {
        Ok(Some(plan)) => {
            &&& parsed(input) == Ok::<Option<DatasetSpecView>, FailureView>(
                Some(plan.load.dataset_spec@),
            )
            &&& plan.cache_path@ == path::join(cache_dir, cache_file_name(plan.load.dataset_spec@))
            &&& plan.load.well_formed()
            &&& plan.load.cache_dir@ == cache_dir
            &&& plan.load.output@ == Seq::<char>::empty()
            &&& plan.load.fetched_rows == 0
            &&& plan.load.total_rows is None
            &&& !plan.load.exhausted
        },
        Ok(None) => parsed(input) == Ok::<Option<DatasetSpecView>, FailureView>(None),
        Err(e) => parsed(input) == Err::<Option<DatasetSpecView>, FailureView>(e@),
    }
}

/// Plans the load of an input text.
pub fn load_text_from_uri_with_cache_dir(input: &str, cache_dir: &str) -> (r: Result<
    Option<DatasetPlan>,
    Failure,
>)
    ensures
        plan_is(r, input@, cache_dir@),
{
    match HuggingFaceDatasetSpec::parse(input) {
        Ok(Some(dataset_spec)) => {
            let cache_path = dataset_spec.cache_path(cache_dir);
            let load = DatasetLoad::begin(dataset_spec, cache_dir);
            Ok(Some(DatasetPlan { cache_path, load }))
        },
        Ok(None) => Ok(None),
        Err(e) => Err(e),
    }
}

/// The cached text, where it is worth using: one that holds nothing but whitespace is not.
pub fn usable_cache(cached: Option<String>) -> (r: Option<String>)
    ensures
        match (cached, r) {
            (Some(c), Some(s)) => !blank(c@) && s == c,
            (Some(c), None) => blank(c@),
            (None, r) => r is None,
        },
{
    match cached {
        Some(c) => if is_blank(c.as_str()) {
            None
        } else {
            Some(c)
        },
        None => None,
    }
}

// ---------------------------------------------------------------------------------------
// Trying again
// ---------------------------------------------------------------------------------------

/// How often a failed request is tried again, and how long to wait at first.
#[derive(Debug, Clone, Copy, PartialEq, Eq, Structural)]
pub struct RetryPolicy {
    pub max_retries: usize,
    pub base_delay_ms: u64,
}

/// What to do about a response.
#[derive(Debug, Clone, PartialEq, Eq)]
pub enum ResponseDecision {
    /// The body holds the page.
    Accept,
    /// Ask again after so many milliseconds.
    RetryAfter { delay_ms: u128 },
    /// Give up.
    Fail(Failure),
}

/// An environment number that counts only where it can be read.
pub open spec fn u64_or(value: Option<Seq<char>>, default: u64) -> u64 {
    match value {
        Some(s) => match text::u64_value(s) {
            Some(n) => n,
            None => default,
        },
        None => default,
    }
}

/// An environment number that counts only where it can be read.
pub open spec fn usize_or(value: Option<Seq<char>>, default: usize) -> usize {
    match value {
        Some(s) => match text::usize_value(s) {
            Some(n) => n,
            None => default,
        },
        None => default,
    }
}

/// The view of an optional text.
pub open spec fn optional_text(value: Option<&str>) -> Option<Seq<char>> {
    match value {
        Some(s) => Some(s@),
        None => None,
    }
}

/// An environment number, or the default where there is none or it cannot be read.
pub fn env_u64(value: Option<&str>, default: u64) -> (n: u64)
    ensures
        n == u64_or(optional_text(value), default),
{
    match value {
        Some(s) => match text::parse_u64(s) {
            Some(n) => n,
            None => default,
        },
        None => default,
    }
}

/// An environment number, or the default where there is none or it cannot be read.
pub fn env_usize(value: Option<&str>, default: usize) -> (n: usize)
    ensures
        n == usize_or(optional_text(value), default),
{
    match value {
        Some(s) => match text::parse_usize(s) {
            Some(n) => n,
            None => default,
        },
        None => default,
    }
}

impl RetryPolicy {
    /// The policy that the environment sets.
    pub fn from_env(max_retries: Option<&str>, base_delay_ms: Option<&str>) -> (policy: RetryPolicy)
        ensures
            policy.max_retries == usize_or(optional_text(max_retries), DEFAULT_MAX_RETRIES),
            policy.base_delay_ms == u64_or(
                optional_text(base_delay_ms),
                DEFAULT_RETRY_BASE_DELAY_MS,
            ),
    {
        RetryPolicy {
            max_retries: env_usize(max_retries, DEFAULT_MAX_RETRIES),
            base_delay_ms: env_u64(base_delay_ms, DEFAULT_RETRY_BASE_DELAY_MS),
        }
    }
}

/// Whether a status is worth another try: too many requests, or an error of the server.
pub open spec fn retryable(status: u16) -> bool {
    status == 429 || 500 <= status <= 599
}

/// Twice as long with every attempt, up to the seventh.
pub open spec fn backoff_ms(base_delay_ms: u64, attempt: usize) -> int {
    base_delay_ms * vstd::arithmetic::power2::pow2(
        (if attempt < 6 {
            attempt as nat
        } else {
            6nat
        }),
    )
}

/// How long to wait: as the server says, where it says a whole number of seconds, else by the
/// backoff.
pub open spec fn delay_ms(retry_after: Option<Seq<char>>, policy: RetryPolicy, attempt: usize) -> int {
    match retry_after {
        Some(value) => match text::u64_value(text::trim(value)) {
            Some(seconds) => seconds * 1000,
            None => backoff_ms(policy.base_delay_ms, attempt),
        },
        None => backoff_ms(policy.base_delay_ms, attempt),
    }
}

/// Whether a status is worth another try: see [`retryable`].
pub fn should_retry_status(status: u16) -> (yes: bool)
    ensures
        yes == retryable(status),
{
    status == 429 || (500 <= status && status <= 599)
}

/// The backoff: see [`backoff_ms`].
pub fn exponential_backoff(base_delay_ms: u64, attempt: usize) -> (delay: u128)
    ensures
        delay == backoff_ms(base_delay_ms, attempt),
{
    let doublings: usize = if attempt < 6 {
        attempt
    } else {
        6
    };
    let mut delay: u128 = base_delay_ms as u128;
    let mut i: usize = 0;
    proof {
        vstd::arithmetic::power2::lemma2_to64();
    }
    while i < doublings
        invariant
            i <= doublings <= 6,
            delay == base_delay_ms * vstd::arithmetic::power2::pow2(i as nat),
            delay <= base_delay_ms * 64,
        decreases doublings - i,
    {
        proof {
            vstd::arithmetic::power2::lemma2_to64();
            let p = vstd::arithmetic::power2::pow2(i as nat) as int;
            vstd::arithmetic::power2::lemma_pow2_unfold(i as nat + 1);
            let q = vstd::arithmetic::power2::pow2((i + 1) as nat) as int;
            assert(q == 2 * p);
            assert(base_delay_ms * q == 2 * (base_delay_ms * p)) by (nonlinear_arith)
                requires
                    q == 2 * p,
            ;
            assert(q <= 64);
            assert(base_delay_ms * q <= base_delay_ms * 64) by (nonlinear_arith)
                requires
                    q <= 64,
            ;
        }
        delay = delay * 2;
        i += 1;
    }
    delay
}

/// The seconds of a `Retry-After` header, in milliseconds, where it holds a whole number.
pub fn retry_after_delay(value: &str) -> (delay: Option<u128>)
    ensures
        delay == (match text::u64_value(text::trim(value@)) {
            Some(seconds) => Some((seconds * 1000) as u128),
            None => None,
        }),
{
    let trimmed = text::trim_text(value);
    match text::parse_u64(trimmed.as_str()) {
        Some(seconds) => Some(seconds as u128 * 1000),
        None => None,
    }
}

/// How long to wait before the next try: see [`delay_ms`].
pub fn retry_delay(retry_after: Option<&str>, policy: RetryPolicy, attempt: usize) -> (delay: u128)
    ensures
        delay == delay_ms(optional_text(retry_after), policy, attempt),
{
    match retry_after {
        Some(value) => match retry_after_delay(value) {
            Some(delay) => delay,
            None => exponential_backoff(policy.base_delay_ms, attempt),
        },
        None => exponential_backoff(policy.base_delay_ms, attempt),
    }
}

/// The characters that a summary keeps: all but control characters, of which it keeps line feeds
/// and tabs.
pub open spec fn is_kept(c: char) -> bool {
    !(c <= '\u{1f}' || '\u{7f}' <= c <= '\u{9f}') || c == '\n' || c == '\t'
}

/// The characters that a summary keeps, in order.
pub open spec fn kept(s: Seq<char>) -> Seq<char>
    decreases s.len(),
{
    if s.len() == 0 {
        s
    } else if is_kept(s.last()) {
        kept(s.drop_last()).push(s.last())
    } else {
        kept(s.drop_last())
    }
}

/// The first 240 characters of a body, without control characters.
pub open spec fn summary_part(body: Seq<char>) -> Seq<char> {
    let all = kept(body);
    if all.len() <= 240 {
        all
    } else {
        all.take(240)
    }
}

/// What a message says about a body.
pub open spec fn body_summary(body: Seq<char>) -> Seq<char> {
    let part = text::trim(summary_part(body));
    if part.len() == 0 {
        "empty response body"@
    } else {
        "response body: "@ + part
    }
}

/// What a message says about a body: see [`body_summary`].
pub fn response_body_summary(body: &str) -> (s: String)
    ensures
        s@ == body_summary(body@),
{
    let chars = text::to_chars(body);
    let mut kept_chars: Vec<char> = Vec::new();
    let mut i: usize = 0;
    while i < chars.len()
        invariant
            i <= chars@.len(),
            chars@ == body@,
            kept_chars@ == kept(chars@.take(i as int)),
        decreases chars.len() - i,
    {
        let c = chars[i];
        proof {
            assert(chars@.take(i as int + 1).drop_last() == chars@.take(i as int));
            assert(chars@.take(i as int + 1).last() == c);
        }
        if !(c <= '\u{1f}' || ('\u{7f}' <= c && c <= '\u{9f}')) || c == '\n' || c == '\t' {
            kept_chars.push(c);
        }
        i += 1;
    }
    assert(chars@.take(chars@.len() as int) == chars@);
    let end: usize = if kept_chars.len() <= 240 {
        kept_chars.len()
    } else {
        240
    };
    let first = text::slice_chars(kept_chars.as_slice(), 0, end);
    assert(first@ == summary_part(body@));
    let part = text::trim_chars(first.as_slice());
    if part.len() == 0 {
        "empty response body".to_owned()
    } else {
        let mut s = "response body: ".to_owned();
        s.append(text::from_chars(part.as_slice()).as_str());
        s
    }
}

/// Decides about a response: a success is taken, a status worth another try is tried again as
/// long as tries are left, and anything else fails with a message. `status_text` is the status as
/// it is shown, code and reason.
pub fn decide_response(
    url: &str,
    status: u16,
    status_text: &str,
    retry_after: Option<&str>,
    body: &str,
    policy: RetryPolicy,
    attempt: usize,
) -> (decision: ResponseDecision)
    ensures
        match decision {
            ResponseDecision::Accept => 200 <= status <= 299,
            ResponseDecision::RetryAfter { delay_ms: delay } => {
                &&& !(200 <= status <= 299)
                &&& retryable(status)
                &&& attempt < policy.max_retries
                &&& delay == delay_ms(optional_text(retry_after), policy, attempt)
            },
            ResponseDecision::Fail(e) => {
                &&& !(200 <= status <= 299)
                &&& !(retryable(status) && attempt < policy.max_retries)
                &&& e.cause is None && e.message@ == "Hugging Face dataset rows request failed for "@ + url@
                    + ": HTTP "@ + status_text@ + "; "@ + body_summary(body@)
            },
        },
{
    if 200 <= status && status <= 299 {
        return ResponseDecision::Accept;
    }
    if should_retry_status(status) && attempt < policy.max_retries {
        return ResponseDecision::RetryAfter { delay_ms: retry_delay(retry_after, policy, attempt) };
    }
    let mut message = "Hugging Face dataset rows request failed for ".to_owned();
    message.append(url);
    message.append(": HTTP ");
    message.append(status_text);
    message.append("; ");
    message.append(response_body_summary(body).as_str());
    ResponseDecision::Fail(Failure::of(message))
}

// ---------------------------------------------------------------------------------------
// Laws
// ---------------------------------------------------------------------------------------

/// The codes of ASCII characters.
spec fn codes(s: Seq<char>) -> Seq<u8> {
    Seq::new(s.len(), |i: int| s[i] as u8)
}

proof fn lemma_escaped_all_front(b: u8, rest: Seq<u8>)
    ensures
        escaped_all(seq![b] + rest) == escaped(b) + escaped_all(rest),
    decreases rest.len(),
{
    let all = seq![b] + rest;
    if rest.len() == 0 {
        assert(all.drop_last() == rest);
        assert(all.last() == b);
        assert(escaped_all(rest) == Seq::<char>::empty());
        assert(Seq::<char>::empty() + escaped(b) == escaped(b) + Seq::<char>::empty());
    } else {
        lemma_escaped_all_front(b, rest.drop_last());
        assert(all.drop_last() == seq![b] + rest.drop_last());
        assert(all.last() == rest.last());
        assert((escaped(b) + escaped_all(rest.drop_last())) + escaped(rest.last()) == escaped(b) + (
        escaped_all(rest.drop_last()) + escaped(rest.last())));
    }
}

proof fn lemma_upper_hex_reads_back(d: int)
    requires
        0 <= d < 16,
    ensures
        hex_value(upper_hex_digit(d) as u8) == Some(d),
        upper_hex_digit(d) as u8 != 43,
        (upper_hex_digit(d) as u32) < 128,
{
}

proof fn lemma_unescape_one(b: u8, tail: Seq<u8>)
    ensures
        unescaped(codes(escaped(b)) + tail) == seq![b] + unescaped(tail),
{
    let head = codes(escaped(b));
    let all = head + tail;
    if is_unreserved(b) {
        assert(head == seq![b]);
        assert(all[0] == b);
        assert(all.skip(1) == tail);
    } else {
        let high = b as int / 16;
        let low = b as int % 16;
        lemma_upper_hex_reads_back(high);
        lemma_upper_hex_reads_back(low);
        assert(all[0] == 37);
        assert(all[1] == upper_hex_digit(high) as u8);
        assert(all[2] == upper_hex_digit(low) as u8);
        assert(escaped_byte(all[1], all[2]) == Some((high * 16 + low) as u8));
        assert(high * 16 + low == b);
        assert(all.skip(3) == tail);
    }
}

proof fn lemma_unescape_all(bytes: Seq<u8>)
    ensures
        unescaped(codes(escaped_all(bytes))) == bytes,
    decreases bytes.len(),
{
    if bytes.len() == 0 {
        assert(codes(escaped_all(bytes)) == Seq::<u8>::empty());
        assert(unescaped(Seq::<u8>::empty()) == bytes);
    } else {
        let b = bytes[0];
        let rest = bytes.skip(1);
        assert(bytes == seq![b] + rest);
        lemma_escaped_all_front(b, rest);
        lemma_unescape_all(rest);
        assert(codes(escaped_all(bytes)) == codes(escaped(b)) + codes(escaped_all(rest)));
        lemma_unescape_one(b, codes(escaped_all(rest)));
    }
}

proof fn lemma_escaped_is_ascii(bytes: Seq<u8>)
    ensures
        utf8::is_ascii_chars(escaped_all(bytes)),
    decreases bytes.len(),
{
    if bytes.len() > 0 {
        lemma_escaped_is_ascii(bytes.drop_last());
        let b = bytes.last();
        if !is_unreserved(b) {
            lemma_upper_hex_reads_back(b as int / 16);
            lemma_upper_hex_reads_back(b as int % 16);
        }
        assert(utf8::is_ascii_chars(escaped(b)));
        utf8::is_ascii_chars_concat(
            escaped_all(bytes),
            escaped_all(bytes.drop_last()),
            escaped(b),
        );
    }
}

/// What is put into a URL is read back from it.
pub proof fn law_percent_decode_of_encode(value: Seq<char>)
    ensures
        percent_decoded(percent_encoded(value)) == value,
{
    let bytes = utf8::encode_utf8(value);
    let shown = percent_encoded(value);
    lemma_escaped_is_ascii(bytes);
    utf8::is_ascii_chars_encode_utf8(shown);
    assert(utf8::encode_utf8(shown) == codes(shown));
    lemma_unescape_all(bytes);
    text::lemma_utf8_text_of_text(value);
}

/// A digit is no underscore, so a number ends where an underscore stands.
proof fn lemma_number_ends(n: nat, m: nat, a: Seq<char>, b: Seq<char>)
    requires
        text::decimal(n).push('_') + a == text::decimal(m).push('_') + b,
    ensures
        n == m,
{
    let s = text::decimal(n).push('_') + a;
    text::lemma_decimal_reads_back(n, n);
    text::lemma_decimal_reads_back(m, m);
    let i = text::decimal(n).len() as int;
    let j = text::decimal(m).len() as int;
    assert(s[i] == '_');
    assert(s[j] == '_');
    assert forall|k: int| 0 <= k < i implies s[k] != '_' by {
        assert(s[k] == text::decimal(n)[k]);
        assert(text::is_digit(text::decimal(n)[k]));
    }
    assert forall|k: int| 0 <= k < j implies s[k] != '_' by {
        assert(s[k] == text::decimal(m)[k]);
        assert(text::is_digit(text::decimal(m)[k]));
    }
    text::lemma_find_is(s, '_', i);
    text::lemma_find_is(s, '_', j);
    assert(s.take(i) == text::decimal(n));
    assert(s.take(i) == text::decimal(m));
    assert(text::unsigned_value(text::decimal(n), n) == Some(n));
    text::lemma_decimal_reads_back(n, n + m);
    text::lemma_decimal_reads_back(m, n + m);
}

proof fn lemma_same_front(front: Seq<char>, a: Seq<char>, b: Seq<char>)
    requires
        front + a == front + b,
    ensures
        a == b,
{
    assert((front + a).skip(front.len() as int) == a);
    assert((front + b).skip(front.len() as int) == b);
}

/// Whether a text holds no `&`.
pub open spec fn without_ampersand(part: Seq<char>) -> bool {
    forall|i: int| 0 <= i < part.len() ==> #[trigger] part[i] != '&'
}

/// Whether an address of rows is made of the given parts, none of which holds an `&`: so they can
/// be told from it.
pub open spec fn address_has_parts(
    url: Seq<char>,
    dataset: Seq<char>,
    config: Seq<char>,
    split: Seq<char>,
    offset: Seq<char>,
    length: Seq<char>,
) -> bool {
    &&& url == DATASETS_SERVER_ROWS_URL@ + "?dataset="@ + dataset + "&config="@ + config
        + "&split="@ + split + "&offset="@ + offset + "&length="@ + length
    &&& without_ampersand(dataset) && without_ampersand(config) && without_ampersand(split)
    &&& without_ampersand(offset) && without_ampersand(length)
}

proof fn lemma_encoded_has_no_ampersand(bytes: Seq<u8>)
    ensures
        without_ampersand(escaped_all(bytes)),
    decreases bytes.len(),
{
    if bytes.len() > 0 {
        lemma_encoded_has_no_ampersand(bytes.drop_last());
    }
}

proof fn lemma_decimal_has_no_ampersand(n: nat)
    ensures
        without_ampersand(text::decimal(n)),
{
    text::lemma_decimal_reads_back(n, n);
    let digits = text::decimal(n);
    assert forall|i: int| 0 <= i < digits.len() implies #[trigger] digits[i] != '&' by {
        assert(text::is_digit(digits[i]));
    }
}

/// The address of a page reads back: what stands behind `&offset=` and behind `&length=` are the
/// numbers that were asked for, whatever they are, and the other parts resolve to the dataset, its
/// configuration and its split.
pub proof fn law_page_addresses_read_back(s: DatasetSpecView, offset: usize, length: usize)
    ensures
        exists|d: Seq<char>, c: Seq<char>, p: Seq<char>, x: Seq<char>, y: Seq<char>|
            #[trigger] address_has_parts(
                rows_url_text(s, offset as nat, length as nat),
                d,
                c,
                p,
                x,
                y,
            ) && percent_decoded(d) == s.dataset && percent_decoded(c) == s.config
                && percent_decoded(p) == s.split && text::usize_value(x) == Some(offset)
                && text::usize_value(y) == Some(length),
{
    let d = percent_encoded(s.dataset);
    let c = percent_encoded(s.config);
    let p = percent_encoded(s.split);
    let x = text::decimal(offset as nat);
    let y = text::decimal(length as nat);
    law_percent_decode_of_encode(s.dataset);
    law_percent_decode_of_encode(s.config);
    law_percent_decode_of_encode(s.split);
    lemma_encoded_has_no_ampersand(utf8::encode_utf8(s.dataset));
    lemma_encoded_has_no_ampersand(utf8::encode_utf8(s.config));
    lemma_encoded_has_no_ampersand(utf8::encode_utf8(s.split));
    lemma_decimal_has_no_ampersand(offset as nat);
    lemma_decimal_has_no_ampersand(length as nat);
    text::lemma_decimal_reads_back(offset as nat, usize::MAX as nat);
    text::lemma_decimal_reads_back(length as nat, usize::MAX as nat);
    assert(address_has_parts(rows_url_text(s, offset as nat, length as nat), d, c, p, x, y));
}

proof fn lemma_parts_before_ampersand(
    a: Seq<char>,
    b: Seq<char>,
    mark: Seq<char>,
    rest_a: Seq<char>,
    rest_b: Seq<char>,
)
    requires
        without_ampersand(a),
        without_ampersand(b),
        mark.len() > 0,
        mark[0] == '&',
        a + (mark + rest_a) == b + (mark + rest_b),
    ensures
        a == b,
        rest_a == rest_b,
{
    let whole = a + (mark + rest_a);
    assert(whole[a.len() as int] == '&');
    assert(whole[b.len() as int] == '&') by {
        assert((b + (mark + rest_b))[b.len() as int] == mark[0]);
    }
    if a.len() < b.len() {
        assert((b + (mark + rest_b))[a.len() as int] == b[a.len() as int]);
    } else if b.len() < a.len() {
        assert(whole[b.len() as int] == a[b.len() as int]);
    }
    assert(whole.take(a.len() as int) == a);
    assert((b + (mark + rest_b)).take(a.len() as int) == b);
    assert((a + mark) + rest_a == whole);
    assert((b + mark) + rest_b == whole);
    lemma_same_front(a + mark, rest_a, rest_b);
}

/// An address has its parts only once: two readings of it agree.
proof fn lemma_address_parts_are_unique(
    url: Seq<char>,
    d: Seq<char>,
    c: Seq<char>,
    p: Seq<char>,
    x: Seq<char>,
    y: Seq<char>,
    d2: Seq<char>,
    c2: Seq<char>,
    p2: Seq<char>,
    x2: Seq<char>,
    y2: Seq<char>,
)
    requires
        address_has_parts(url, d, c, p, x, y),
        address_has_parts(url, d2, c2, p2, x2, y2),
    ensures
        d == d2,
        c == c2,
        p == p2,
        x == x2,
        y == y2,
{
    reveal_strlit("&config=");
    reveal_strlit("&split=");
    reveal_strlit("&offset=");
    reveal_strlit("&length=");
    let front = DATASETS_SERVER_ROWS_URL@ + "?dataset="@;
    let e1 = x + ("&length="@ + y);
    let e2 = x2 + ("&length="@ + y2);
    let o1 = p + ("&offset="@ + e1);
    let o2 = p2 + ("&offset="@ + e2);
    let s1 = c + ("&split="@ + o1);
    let s2 = c2 + ("&split="@ + o2);
    let t1 = d + ("&config="@ + s1);
    let t2 = d2 + ("&config="@ + s2);
    assert(url == front + t1);
    assert(url == front + t2);
    lemma_same_front(front, t1, t2);
    lemma_parts_before_ampersand(d, d2, "&config="@, s1, s2);
    lemma_parts_before_ampersand(c, c2, "&split="@, o1, o2);
    lemma_parts_before_ampersand(p, p2, "&offset="@, e1, e2);
    lemma_parts_before_ampersand(x, x2, "&length="@, y, y2);
}

/// Different pages have different addresses: an address belongs to one dataset, configuration and
/// split, one offset and one length.
pub proof fn law_page_addresses_differ(
    s: DatasetSpecView,
    t: DatasetSpecView,
    offset: usize,
    length: usize,
    other_offset: usize,
    other_length: usize,
)
    requires
        rows_url_text(s, offset as nat, length as nat) == rows_url_text(
            t,
            other_offset as nat,
            other_length as nat,
        ),
    ensures
        s.dataset == t.dataset,
        s.config == t.config,
        s.split == t.split,
        offset == other_offset,
        length == other_length,
{
    let url = rows_url_text(s, offset as nat, length as nat);
    law_page_addresses_read_back(s, offset, length);
    law_page_addresses_read_back(t, other_offset, other_length);
    let (d, c, p, x, y) = choose|
        d: Seq<char>,
        c: Seq<char>,
        p: Seq<char>,
        x: Seq<char>,
        y: Seq<char>,
    |
        #[trigger] address_has_parts(url, d, c, p, x, y) && percent_decoded(d) == s.dataset
            && percent_decoded(c) == s.config && percent_decoded(p) == s.split
            && text::usize_value(x) == Some(offset) && text::usize_value(y) == Some(length);
    let (d2, c2, p2, x2, y2) = choose|
        d: Seq<char>,
        c: Seq<char>,
        p: Seq<char>,
        x: Seq<char>,
        y: Seq<char>,
    |
        #[trigger] address_has_parts(url, d, c, p, x, y) && percent_decoded(d) == t.dataset
            && percent_decoded(c) == t.config && percent_decoded(p) == t.split
            && text::usize_value(x) == Some(other_offset) && text::usize_value(y) == Some(
            other_length,
        );
    lemma_address_parts_are_unique(url, d, c, p, x, y, d2, c2, p2, x2, y2);
}

/// The front of a cache file name, up to the number of rows.
spec fn before_rows(s: DatasetSpecView) -> Seq<char> {
    cache_component(s.dataset) + "__"@ + cache_component(s.config) + "__"@ + cache_component(
        s.split,
    ) + "__"@ + cache_component(s.column) + "__offset-"@ + text::decimal(s.offset as nat)
        + "__rows-"@
}

proof fn lemma_cache_name_parts(s: DatasetSpecView)
    ensures
        cache_file_name(s) == before_rows(s) + (text::decimal(s.rows as nat).push('_') + (seq!['_']
            + cache_digest(s) + ".txt"@)),
{
    reveal_strlit("__");
    assert("__"@ == seq!['_', '_']);
    let front = before_rows(s);
    let number = text::decimal(s.rows as nat);
    assert(cache_file_name(s) == front + number + "__"@ + cache_digest(s) + ".txt"@);
    assert(front + number + "__"@ + cache_digest(s) + ".txt"@ == front + (number.push('_') + (seq![
        '_',
    ] + cache_digest(s) + ".txt"@)));
}

/// Two specs that ask for different numbers of rows have different cache files.
pub proof fn law_cache_files_differ_by_rows(s: DatasetSpecView, rows: usize)
    requires
        rows != s.rows,
    ensures
        cache_file_name(DatasetSpecView { rows, ..s }) != cache_file_name(s),
{
    let other = DatasetSpecView { rows, ..s };
    if cache_file_name(other) == cache_file_name(s) {
        lemma_cache_name_parts(s);
        lemma_cache_name_parts(other);
        assert(before_rows(other) == before_rows(s));
        let a = text::decimal(s.rows as nat).push('_') + (seq!['_'] + cache_digest(s) + ".txt"@);
        let b = text::decimal(rows as nat).push('_') + (seq!['_'] + cache_digest(other)
            + ".txt"@);
        lemma_same_front(before_rows(s), a, b);
        lemma_number_ends(
            s.rows as nat,
            rows as nat,
            seq!['_'] + cache_digest(s) + ".txt"@,
            seq!['_'] + cache_digest(other) + ".txt"@,
        );
    }
}

spec fn before_offset(s: DatasetSpecView) -> Seq<char> {
    cache_component(s.dataset) + "__"@ + cache_component(s.config) + "__"@ + cache_component(
        s.split,
    ) + "__offset-"@
}

spec fn after_length(s: DatasetSpecView) -> Seq<char> {
    seq!['_'] + cache_digest(s) + ".json"@
}

spec fn after_offset(s: DatasetSpecView, length: nat) -> Seq<char> {
    "_length-"@ + (text::decimal(length).push('_') + after_length(s))
}

proof fn lemma_page_name_parts(s: DatasetSpecView, offset: nat, length: nat)
    ensures
        page_file_name(s, offset, length) == before_offset(s) + (text::decimal(offset).push('_')
            + after_offset(s, length)),
{
    reveal_strlit("__");
    reveal_strlit("__length-");
    reveal_strlit("_length-");
    assert("__"@ == seq!['_', '_']);
    assert("__length-"@ == seq!['_'] + "_length-"@);
    let front = before_offset(s);
    let number = text::decimal(offset);
    assert(page_file_name(s, offset, length) == front + number + "__length-"@ + text::decimal(
        length,
    ) + "__"@ + cache_digest(s) + ".json"@);
    assert(front + number + "__length-"@ + text::decimal(length) + "__"@ + cache_digest(s)
        + ".json"@ == front + (number.push('_') + after_offset(s, length)));
}

/// Two pages of a spec that differ in where they start or in how long they are have different
/// cache files.
pub proof fn law_page_files_differ(
    s: DatasetSpecView,
    offset: nat,
    length: nat,
    other_offset: nat,
    other_length: nat,
)
    requires
        offset != other_offset || length != other_length,
    ensures
        page_file_name(s, offset, length) != page_file_name(s, other_offset, other_length),
{
    if page_file_name(s, offset, length) == page_file_name(s, other_offset, other_length) {
        lemma_page_name_parts(s, offset, length);
        lemma_page_name_parts(s, other_offset, other_length);
        lemma_same_front(
            before_offset(s),
            text::decimal(offset).push('_') + after_offset(s, length),
            text::decimal(other_offset).push('_') + after_offset(s, other_length),
        );
        lemma_number_ends(
            offset,
            other_offset,
            after_offset(s, length),
            after_offset(s, other_length),
        );
        lemma_same_front(
            text::decimal(offset).push('_'),
            after_offset(s, length),
            after_offset(s, other_length),
        );
        lemma_same_front(
            "_length-"@,
            text::decimal(length).push('_') + after_length(s),
            text::decimal(other_length).push('_') + after_length(s),
        );
        lemma_number_ends(length, other_length, after_length(s), after_length(s));
    }
}

/// Every part of a cache file name is made of plain characters, so a cache file never leaves its
/// directory.
pub proof fn law_cache_components_are_plain(value: Seq<char>)
    ensures
        0 < cache_component(value).len() <= 64,
        forall|i: int|
            0 <= i < cache_component(value).len() ==> is_cache_char(
                #[trigger] cache_component(value)[i],
            ),
{
    reveal_strlit("default");
}

/// Which answers are worth another try, and how long is waited: the first wait is the base, each
/// further one is twice as long, up to sixty-four times the base.
pub proof fn law_waits_double(status: u16, base_delay_ms: u64, attempt: usize)
    ensures
        retryable(status) <==> status == 429 || 500 <= status < 600,
        backoff_ms(base_delay_ms, 0) == base_delay_ms,
        attempt < 6 ==> backoff_ms(base_delay_ms, (attempt + 1) as usize) == 2 * backoff_ms(
            base_delay_ms,
            attempt,
        ),
        attempt >= 6 ==> backoff_ms(base_delay_ms, attempt) == 64 * base_delay_ms,
{
    vstd::arithmetic::power2::lemma2_to64();
    assert(base_delay_ms * 1 == base_delay_ms);
    if attempt < 6 {
        vstd::arithmetic::power2::lemma_pow2_unfold((attempt + 1) as nat);
        let p = vstd::arithmetic::power2::pow2(attempt as nat);
        assert(base_delay_ms * (2 * p) == 2 * (base_delay_ms * p)) by (nonlinear_arith);
    } else {
        assert(base_delay_ms * 64 == 64 * base_delay_ms);
    }
}

/// A header with a whole number of seconds overrides the wait, with whitespace around it or not.
pub proof fn law_the_server_says_how_long_to_wait(
    seconds: u64,
    policy: RetryPolicy,
    attempt: usize,
)
    ensures
        delay_ms(Some(text::decimal(seconds as nat)), policy, attempt) == seconds * 1000,
        delay_ms(None, policy, attempt) == backoff_ms(policy.base_delay_ms, attempt),
{
    let digits = text::decimal(seconds as nat);
    text::lemma_decimal_reads_back(seconds as nat, u64::MAX as nat);
    assert(text::is_digit(digits[0]));
    assert(text::is_digit(digits.last()));
    assert(digits.skip(0) == digits);
    assert(text::trim(digits) == digits);
}

/// Rows are taken in one after the other: a row that has a text in the column puts it on a line of
/// its own, and any other changes nothing. It makes no difference how the rows are divided into
/// pages.
pub proof fn law_rows_are_taken_in_line_by_line(
    output: Seq<char>,
    first: Seq<DatasetRow>,
    second: Seq<DatasetRow>,
    row: DatasetRow,
    column: Seq<char>,
    i: int,
)
    ensures
        with_rows(output, first + second, column) == with_rows(
            with_rows(output, first, column),
            second,
            column,
        ),
        with_rows(output, seq![row], column) == with_row(output, row, column),
        0 <= i < row.cells@.len() && row.cells@[i].0@ == column && (forall|j: int|
            0 <= j < i ==> (#[trigger] row.cells@[j]).0@ != column) ==> match row.cells@[i].1 {
            Cell::Null => with_row(output, row, column) == output,
            Cell::Text(s) => output.len() > 0 ==> with_row(output, row, column) == output + seq![
                '\n',
            ] + s@,
            Cell::Number(s) => output.len() > 0 ==> with_row(output, row, column) == output + seq![
                '\n',
            ] + s@,
            Cell::Nested(s) => output.len() > 0 ==> with_row(output, row, column) == output + seq![
                '\n',
            ] + s@,
            Cell::Bool(b) => output.len() > 0 ==> with_row(output, row, column) == output + seq![
                '\n',
            ] + (if b {
                "true"@
            } else {
                "false"@
            }),
        },
        0 <= i < row.cells@.len() && row.cells@[i].0@ == column && (forall|j: int|
            0 <= j < i ==> (#[trigger] row.cells@[j]).0@ != column) && output.len() == 0 ==> (
        row.cells@[i].1 matches Cell::Text(s) ==> with_row(output, row, column) == s@),
        (forall|j: int| 0 <= j < row.cells@.len() ==> (#[trigger] row.cells@[j]).0@ != column)
            ==> with_row(output, row, column) == output,
{
    lemma_rows_concat(output, first, second, column);
    assert(seq![row].drop_last() == Seq::<DatasetRow>::empty());
    assert(with_rows(output, Seq::<DatasetRow>::empty(), column) == output);
    lemma_cell_at(row.cells@, column, i);
    if let Some(line) = row_text(row, column) {
        assert(output.push('\n') + line == output + seq!['\n'] + line);
    }
}

proof fn lemma_rows_concat(
    output: Seq<char>,
    first: Seq<DatasetRow>,
    second: Seq<DatasetRow>,
    column: Seq<char>,
)
    ensures
        with_rows(output, first + second, column) == with_rows(
            with_rows(output, first, column),
            second,
            column,
        ),
    decreases second.len(),
{
    if second.len() == 0 {
        assert(first + second == first);
    } else {
        lemma_rows_concat(output, first, second.drop_last(), column);
        assert((first + second).drop_last() == first + second.drop_last());
        assert((first + second).last() == second.last());
    }
}

proof fn lemma_cell_at(cells: Seq<(String, Cell)>, column: Seq<char>, i: int)
    ensures
        0 <= i < cells.len() && cells[i].0@ == column && (forall|j: int|
            0 <= j < i ==> (#[trigger] cells[j]).0@ != column) ==> cell_at(cells, column) == Some(
            cells[i].1,
        ),
        (forall|j: int| 0 <= j < cells.len() ==> (#[trigger] cells[j]).0@ != column) ==> cell_at(
            cells,
            column,
        ) is None,
    decreases cells.len(),
{
    if cells.len() > 0 && cells[0].0@ != column {
        let rest = cells.skip(1);
        lemma_cell_at(rest, column, i - 1);
        assert(forall|j: int| 0 <= j < rest.len() ==> rest[j] == cells[j + 1]);
        if 0 <= i < cells.len() && cells[i].0@ == column && (forall|j: int|
            0 <= j < i ==> (#[trigger] cells[j]).0@ != column) {
            assert(rest[i - 1] == cells[i]);
            assert forall|j: int| 0 <= j < i - 1 implies (#[trigger] rest[j]).0@ != column by {
                assert(rest[j] == cells[j + 1]);
            }
        }
        if forall|j: int| 0 <= j < cells.len() ==> (#[trigger] cells[j]).0@ != column {
            assert forall|j: int| 0 <= j < rest.len() implies (#[trigger] rest[j]).0@ != column by {
                assert(rest[j] == cells[j + 1]);
            }
        }
    }
}

/// A short plain text stands in a cache file name as it is.
pub proof fn law_plain_components_are_kept(value: Seq<char>)
    requires
        0 < value.len() <= 64,
        forall|i: int| 0 <= i < value.len() ==> is_cache_char(#[trigger] value[i]),
    ensures
        cache_component(value) == value,
{
}

/// A parameter sets its own setting to its value, and no other setting.
pub proof fn law_parameters_set_their_own(
    before: DatasetSpecView,
    key: Seq<char>,
    value: Seq<char>,
    n: usize,
)
    ensures
        with_param(before, key, value) matches Ok(after) ==> {
            &&& after.dataset == before.dataset
            &&& key == "config"@ ==> after.config == value
            &&& key != "config"@ ==> after.config == before.config
            &&& key == "split"@ ==> after.split == value
            &&& key != "split"@ ==> after.split == before.split
            &&& key == "column"@ ==> after.column == value
            &&& key != "column"@ ==> after.column == before.column
            &&& key == "offset"@ && value == text::decimal(n as nat) ==> after.offset == n
            &&& key != "offset"@ ==> after.offset == before.offset
            &&& (key == "rows"@ || key == "limit"@) && value == text::decimal(n as nat)
                ==> after.rows == n
            &&& !(key == "rows"@ || key == "limit"@) ==> after.rows == before.rows
        },
        (key == "config"@ || key == "split"@ || key == "column"@) ==> (with_param(
            before,
            key,
            value,
        ) is Ok <==> value.len() > 0),
        key == "offset"@ && value == text::decimal(n as nat) ==> with_param(before, key, value)
            is Ok,
        (key == "rows"@ || key == "limit"@) && value == text::decimal(n as nat) ==> (with_param(
            before,
            key,
            value,
        ) is Ok <==> n > 0),
        key != "config"@ && key != "split"@ && key != "column"@ && key != "offset"@ && key
            != "rows"@ && key != "limit"@ ==> with_param(before, key, value) is Err,
{
    lemma_keys_differ();
    text::lemma_decimal_reads_back(n as nat, usize::MAX as nat);
    assert(text::usize_value(text::decimal(n as nat)) == Some(n));
}

proof fn lemma_keys_differ()
    ensures
        "config"@ != "split"@,
        "config"@ != "column"@,
        "config"@ != "offset"@,
        "config"@ != "rows"@,
        "config"@ != "limit"@,
        "split"@ != "column"@,
        "split"@ != "offset"@,
        "split"@ != "rows"@,
        "split"@ != "limit"@,
        "column"@ != "offset"@,
        "column"@ != "rows"@,
        "column"@ != "limit"@,
        "offset"@ != "rows"@,
        "offset"@ != "limit"@,
        "rows"@ != "limit"@,
{
    reveal_strlit("config");
    reveal_strlit("split");
    reveal_strlit("column");
    reveal_strlit("offset");
    reveal_strlit("rows");
    reveal_strlit("limit");
    assert("config"@.len() == 6 && "config"@[0] == 'c' && "config"@[2] == 'n');
    assert("column"@.len() == 6 && "column"@[0] == 'c' && "column"@[2] == 'l');
    assert("offset"@.len() == 6 && "offset"@[0] == 'o');
    assert("split"@.len() == 5 && "split"@[0] == 's');
    assert("limit"@.len() == 5 && "limit"@[0] == 'l');
    assert("rows"@.len() == 4);
}

/// One parameter of a reference, with its value as it stands in a URL.
pub open spec fn parameter(key: Seq<char>, value: Seq<char>) -> Seq<char> {
    key.push('=') + percent_encoded(value)
}

proof fn lemma_parameter(key: Seq<char>, value: Seq<char>)
    requires
        forall|i: int| 0 <= i < key.len() ==> #[trigger] key[i] != '=' && key[i] != '&',
    ensures
        pair_parts(parameter(key, value)) == (key, value),
        parameter(key, value).len() > 0,
        forall|i: int|
            0 <= i < parameter(key, value).len() ==> #[trigger] parameter(key, value)[i] != '&',
{
    let pair = parameter(key, value);
    let k = key.len() as int;
    assert(pair[k] == '=');
    assert forall|j: int| 0 <= j < k implies pair[j] != '=' by {
        assert(pair[j] == key[j]);
    }
    text::lemma_find_is(pair, '=', k);
    assert(pair.take(k) == key);
    assert(pair.skip(k + 1) == percent_encoded(value));
    law_percent_decode_of_encode(value);
    lemma_encoded_has_no_ampersand(utf8::encode_utf8(value));
    assert forall|i: int| 0 <= i < pair.len() implies #[trigger] pair[i] != '&' by {
        if i < k {
            assert(pair[i] == key[i]);
        } else if i > k {
            assert(pair[i] == percent_encoded(value)[i - k - 1]);
        }
    }
}

/// The parameters of a spec.
pub open spec fn parameters(s: DatasetSpecView) -> Seq<Seq<char>> {
    seq![
        parameter("config"@, s.config),
        parameter("split"@, s.split),
        parameter("column"@, s.column),
        parameter("offset"@, text::decimal(s.offset as nat)),
        parameter("rows"@, text::decimal(s.rows as nat)),
    ]
}

proof fn lemma_keys_are_plain(key: Seq<char>)
    requires
        key == "config"@ || key == "split"@ || key == "column"@ || key == "offset"@ || key
            == "rows"@,
    ensures
        forall|i: int| 0 <= i < key.len() ==> #[trigger] key[i] != '=' && key[i] != '&',
{
    reveal_strlit("config");
    reveal_strlit("split");
    reveal_strlit("column");
    reveal_strlit("offset");
    reveal_strlit("rows");
}

proof fn lemma_parameters_are_read(before: DatasetSpecView, s: DatasetSpecView)
    requires
        before.dataset == s.dataset,
        s.config.len() > 0,
        s.split.len() > 0,
        s.column.len() > 0,
        s.rows > 0,
    ensures
        with_params(before, parameters(s)) == Ok::<DatasetSpecView, FailureView>(s),
{
    let pairs = parameters(s);
    lemma_keys_differ();
    lemma_keys_are_plain("config"@);
    lemma_keys_are_plain("split"@);
    lemma_keys_are_plain("column"@);
    lemma_keys_are_plain("offset"@);
    lemma_keys_are_plain("rows"@);
    lemma_parameter("config"@, s.config);
    lemma_parameter("split"@, s.split);
    lemma_parameter("column"@, s.column);
    lemma_parameter("offset"@, text::decimal(s.offset as nat));
    lemma_parameter("rows"@, text::decimal(s.rows as nat));
    text::lemma_decimal_reads_back(s.offset as nat, usize::MAX as nat);
    text::lemma_decimal_reads_back(s.rows as nat, usize::MAX as nat);
    let v1 = DatasetSpecView { config: s.config, ..before };
    let v2 = DatasetSpecView { split: s.split, ..v1 };
    let v3 = DatasetSpecView { column: s.column, ..v2 };
    let v4 = DatasetSpecView { offset: s.offset, ..v3 };
    let v5 = DatasetSpecView { rows: s.rows, ..v4 };
    let p1 = pairs.skip(1);
    let p2 = p1.skip(1);
    let p3 = p2.skip(1);
    let p4 = p3.skip(1);
    let p5 = p4.skip(1);
    assert(p5.len() == 0);
    assert(with_params(v5, p5) == Ok::<DatasetSpecView, FailureView>(v5));
    assert(p4[0] == pairs[4]);
    assert(with_params(v4, p4) == Ok::<DatasetSpecView, FailureView>(v5));
    assert(p3[0] == pairs[3]);
    assert(with_params(v3, p3) == Ok::<DatasetSpecView, FailureView>(v5));
    assert(p2[0] == pairs[2]);
    assert(with_params(v2, p2) == Ok::<DatasetSpecView, FailureView>(v5));
    assert(p1[0] == pairs[1]);
    assert(with_params(v1, p1) == Ok::<DatasetSpecView, FailureView>(v5));
    assert(with_params(before, pairs) == Ok::<DatasetSpecView, FailureView>(v5));
    assert(v5 == s);
}

/// Every spec can be written as a reference, and is what that reference is read as.
pub proof fn law_references_read_back(s: DatasetSpecView)
    requires
        s.dataset.len() > 0,
        s.dataset[0] != '/',
        s.dataset.last() != '/',
        forall|i: int| 0 <= i < s.dataset.len() ==> #[trigger] s.dataset[i] != '?',
        s.config.len() > 0,
        s.split.len() > 0,
        s.column.len() > 0,
        s.rows > 0,
    ensures
        parsed("hf://"@ + (s.dataset.push('?') + text::join(parameters(s), '&'))) == Ok::<
            Option<DatasetSpecView>,
            FailureView,
        >(Some(s)),
{
    let pairs = parameters(s);
    let query = text::join(pairs, '&');
    let rest = s.dataset.push('?') + query;
    let input = "hf://"@ + rest;
    assert("hf://"@.is_prefix_of(input));
    assert(input.skip("hf://"@.len() as int) == rest);
    let k = s.dataset.len() as int;
    assert forall|j: int| 0 <= j < k implies rest[j] != '?' by {
        assert(rest[j] == s.dataset[j]);
    }
    assert(rest[k] == '?');
    text::lemma_find_is(rest, '?', k);
    assert(rest.take(k) == s.dataset);
    assert(rest.skip(k + 1) == query);
    assert(without_outer_slashes(s.dataset) == s.dataset);
    assert forall|i: int, j: int|
        0 <= i < pairs.len() && 0 <= j < pairs[i].len() implies #[trigger] pairs[i][j] != '&' by {
        lemma_keys_are_plain("config"@);
        lemma_keys_are_plain("split"@);
        lemma_keys_are_plain("column"@);
        lemma_keys_are_plain("offset"@);
        lemma_keys_are_plain("rows"@);
        lemma_parameter("config"@, s.config);
        lemma_parameter("split"@, s.split);
        lemma_parameter("column"@, s.column);
        lemma_parameter("offset"@, text::decimal(s.offset as nat));
        lemma_parameter("rows"@, text::decimal(s.rows as nat));
    }
    text::law_joined_parts_split_again(pairs, '&');
    lemma_parameters_are_read(default_spec(s.dataset), s);
}

/// A dataset by its name alone is read as the first thousand rows of the column `text` in the split
/// `train` of its default configuration, with slashes around the name or not.
pub proof fn law_names_alone_are_read(dataset: Seq<char>)
    requires
        dataset.len() > 0,
        dataset[0] != '/',
        dataset.last() != '/',
        forall|i: int| 0 <= i < dataset.len() ==> #[trigger] dataset[i] != '?',
    ensures
        parsed("hf://"@ + dataset) == Ok::<Option<DatasetSpecView>, FailureView>(
            Some(
                DatasetSpecView {
                    dataset,
                    config: "default"@,
                    split: "train"@,
                    column: "text"@,
                    offset: 0,
                    rows: 1000,
                },
            ),
        ),
        without_outer_slashes(seq!['/'] + dataset.push('/')) == dataset,
{
    let input = "hf://"@ + dataset;
    assert("hf://"@.is_prefix_of(input));
    assert(input.skip("hf://"@.len() as int) == dataset);
    text::lemma_find_is(dataset, '?', dataset.len() as int);
    assert(without_outer_slashes(dataset) == dataset);
    let empty = Seq::<char>::empty();
    text::lemma_find_is(empty, '&', 0);
    let pairs = text::split(empty, '&');
    assert(pairs == seq![empty]);
    assert(pairs.skip(1).len() == 0);
    assert(with_params(default_spec(dataset), pairs.skip(1)) == Ok::<DatasetSpecView, FailureView>(
        default_spec(dataset),
    ));
    let slashed = seq!['/'] + dataset.push('/');
    assert(slashed.skip(1) == dataset.push('/'));
    assert(dataset.push('/')[0] == dataset[0]);
    assert(dataset.push('/').drop_last() == dataset);
    assert(without_outer_slashes(dataset.push('/')) == dataset);
}

/// A summary keeps what can be shown, in its order, and no more than the first part of it.
pub proof fn law_summaries_are_short(a: Seq<char>, b: Seq<char>)
    ensures
        kept(a + b) == kept(a) + kept(b),
        (forall|i: int| 0 <= i < a.len() ==> is_kept(#[trigger] a[i])) ==> kept(a) == a,
        kept(a).len() <= 240 ==> summary_part(a) == kept(a),
        kept(a).len() > 240 ==> summary_part(a) == kept(a).take(240),
    decreases b.len(), a.len(),
{
    if a.len() > 0 {
        law_summaries_are_short(a.drop_last(), Seq::empty());
        if forall|i: int| 0 <= i < a.len() ==> is_kept(#[trigger] a[i]) {
            let less = a.drop_last();
            assert forall|i: int| 0 <= i < less.len() implies is_kept(#[trigger] less[i]) by {
                assert(less[i] == a[i]);
            }
            assert(is_kept(a[a.len() - 1]));
            assert(less.push(a.last()) == a);
        }
    }
    if b.len() == 0 {
        assert(a + b == a);
        assert(kept(a) + kept(b) == kept(a));
    } else {
        law_summaries_are_short(a, b.drop_last());
        assert((a + b).drop_last() == a + b.drop_last());
        assert((a + b).last() == b.last());
        assert((kept(a) + kept(b.drop_last())).push(b.last()) == kept(a) + kept(
            b.drop_last(),
        ).push(b.last()));
    }
}

/// A number of the environment counts where it is one, and else the usual one does.
pub proof fn law_environment_numbers_count(n: usize, m: u64, default: usize, other: u64)
    ensures
        usize_or(Some(text::decimal(n as nat)), default) == n,
        u64_or(Some(text::decimal(m as nat)), other) == m,
        usize_or(None, default) == default,
        u64_or(None, other) == other,
{
    text::lemma_decimal_reads_back(n as nat, usize::MAX as nat);
    text::lemma_decimal_reads_back(m as nat, u64::MAX as nat);
}

/// How bytes are read out of a URL: a plus sign is a space, a percent sign with two hexadecimal
/// digits of either case behind it is the byte that they write, and anything else is itself.
pub proof fn law_urls_are_read_byte_by_byte(b: u8, high: u8, low: u8, rest: Seq<u8>)
    ensures
        unescaped(Seq::<u8>::empty()) == Seq::<u8>::empty(),
        unescaped(seq![43u8] + rest) == seq![32u8] + unescaped(rest),
        b != 43 && b != 37 ==> unescaped(seq![b] + rest) == seq![b] + unescaped(rest),
        ({
            let value = |c: u8|
                if 48 <= c <= 57 {
                    c - 48
                } else if 65 <= c <= 70 {
                    c - 55
                } else if 97 <= c <= 102 {
                    c - 87
                } else {
                    -1
                };
            0 <= value(high) < 16 && 0 <= value(low) < 16 ==> unescaped(
                seq![37u8, high, low] + rest,
            ) == seq![(16 * value(high) + value(low)) as u8] + unescaped(rest)
        }),
        rest.len() < 2 ==> unescaped(seq![37u8] + rest) == seq![37u8] + unescaped(rest),
{
    assert((seq![43u8] + rest).skip(1) == rest);
    assert((seq![b] + rest).skip(1) == rest);
    assert((seq![37u8] + rest).skip(1) == rest);
    let whole = seq![37u8, high, low] + rest;
    assert(whole.skip(3) == rest);
    assert(whole[0] == 37);
    assert(whole[1] == high);
    assert(whole[2] == low);
}

/// What is written into a URL is made of letters, digits, the marks `-`, `.`, `_` and `~`, and
/// percent signs; and what is made of the former alone is written as it is.
pub proof fn law_urls_hold_plain_characters(bytes: Seq<u8>, i: int)
    ensures
        0 <= i < escaped_all(bytes).len() ==> {
            let c = escaped_all(bytes)[i];
            'a' <= c <= 'z' || 'A' <= c <= 'Z' || '0' <= c <= '9' || c == '-' || c == '.' || c
                == '_' || c == '~' || c == '%'
        },
        (forall|k: int|
            0 <= k < bytes.len() ==> (97 <= #[trigger] bytes[k] <= 122 || 65 <= bytes[k] <= 90 || 48
                <= bytes[k] <= 57 || bytes[k] == 45 || bytes[k] == 46 || bytes[k] == 95 || bytes[k]
                == 126)) ==> escaped_all(bytes) == Seq::new(
            bytes.len(),
            |k: int| bytes[k] as char,
        ),
    decreases bytes.len(),
{
    if bytes.len() > 0 {
        let less = bytes.drop_last();
        law_urls_hold_plain_characters(less, i);
        if forall|k: int|
            0 <= k < bytes.len() ==> (97 <= #[trigger] bytes[k] <= 122 || 65 <= bytes[k] <= 90 || 48
                <= bytes[k] <= 57 || bytes[k] == 45 || bytes[k] == 46 || bytes[k] == 95 || bytes[k]
                == 126) {
            assert forall|k: int| 0 <= k < less.len() implies (97 <= #[trigger] less[k] <= 122 || 65
                <= less[k] <= 90 || 48 <= less[k] <= 57 || less[k] == 45 || less[k] == 46 || less[k]
                == 95 || less[k] == 126) by {
                assert(less[k] == bytes[k]);
            }
            assert(bytes.last() == bytes[bytes.len() - 1]);
            assert(escaped_all(bytes) == Seq::new(bytes.len(), |k: int| bytes[k] as char));
        }
        if escaped_all(less).len() <= i < escaped_all(bytes).len() {
            assert(escaped_all(bytes)[i] == escaped(bytes.last())[i - escaped_all(less).len()]);
        }
    }
}

/// The lines of a cache key.
pub open spec fn key_lines(s: DatasetSpecView) -> Seq<Seq<char>> {
    seq![
        "dataset="@ + s.dataset,
        "config="@ + s.config,
        "split="@ + s.split,
        "column="@ + s.column,
        "offset="@ + text::decimal(s.offset as nat),
        "rows="@ + text::decimal(s.rows as nat),
        Seq::empty(),
    ]
}

/// Whether a text is of one line.
pub open spec fn is_one_line(s: Seq<char>) -> bool {
    forall|i: int| 0 <= i < s.len() ==> #[trigger] s[i] != '\n'
}

proof fn lemma_join_behind(front: Seq<char>, line: Seq<char>, rest: Seq<Seq<char>>)
    requires
        rest.len() > 0,
    ensures
        front + text::join(seq![line] + rest, '\n') == front + line + seq!['\n'] + text::join(
            rest,
            '\n',
        ),
{
    let parts = seq![line] + rest;
    assert(parts.skip(1) == rest);
    assert(front + (line.push('\n') + text::join(rest, '\n')) == front + line + seq!['\n']
        + text::join(rest, '\n'));
}

proof fn lemma_marks_begin_with_a_line_break()
    ensures
        "\nconfig="@ == seq!['\n'] + "config="@,
        "\nsplit="@ == seq!['\n'] + "split="@,
        "\ncolumn="@ == seq!['\n'] + "column="@,
        "\noffset="@ == seq!['\n'] + "offset="@,
        "\nrows="@ == seq!['\n'] + "rows="@,
        "\n"@ == seq!['\n'],
{
    reveal_strlit("\nconfig=");
    reveal_strlit("\nsplit=");
    reveal_strlit("\ncolumn=");
    reveal_strlit("\noffset=");
    reveal_strlit("\nrows=");
    reveal_strlit("\n");
    reveal_strlit("config=");
    reveal_strlit("split=");
    reveal_strlit("column=");
    reveal_strlit("offset=");
    reveal_strlit("rows=");
}

proof fn lemma_mark_and_value(front: Seq<char>, mark: Seq<char>, value: Seq<char>)
    ensures
        front + (seq!['\n'] + mark) + value == front + seq!['\n'] + (mark + value),
{
}

#[verifier::spinoff_prover]
#[verifier::rlimit(40)]
proof fn lemma_key_is_its_lines(s: DatasetSpecView)
    ensures
        cache_key_text(s) == text::join(key_lines(s), '\n'),
{
    lemma_marks_begin_with_a_line_break();
    let offset = text::decimal(s.offset as nat);
    let rows = text::decimal(s.rows as nat);
    let a0 = "dataset="@ + s.dataset;
    let a1 = "config="@ + s.config;
    let a2 = "split="@ + s.split;
    let a3 = "column="@ + s.column;
    let a4 = "offset="@ + offset;
    let a5 = "rows="@ + rows;
    let k1 = a0 + seq!['\n'] + a1;
    let k2 = k1 + seq!['\n'] + a2;
    let k3 = k2 + seq!['\n'] + a3;
    let k4 = k3 + seq!['\n'] + a4;
    let k5 = k4 + seq!['\n'] + a5;
    lemma_mark_and_value(a0, "config="@, s.config);
    lemma_mark_and_value(k1, "split="@, s.split);
    lemma_mark_and_value(k2, "column="@, s.column);
    lemma_mark_and_value(k3, "offset="@, offset);
    lemma_mark_and_value(k4, "rows="@, rows);
    assert(cache_key_text(s) == k5 + seq!['\n']);
    let end = Seq::<char>::empty();
    let l6 = seq![end];
    let l5 = seq![a5] + l6;
    let l4 = seq![a4] + l5;
    let l3 = seq![a3] + l4;
    let l2 = seq![a2] + l3;
    let l1 = seq![a1] + l2;
    let l0 = seq![a0] + l1;
    assert(key_lines(s) == l0);
    lemma_join_behind(end, a0, l1);
    assert(end + a0 == a0);
    assert(end + text::join(l0, '\n') == text::join(l0, '\n'));
    lemma_join_behind(a0 + seq!['\n'], a1, l2);
    lemma_join_behind(k1 + seq!['\n'], a2, l3);
    lemma_join_behind(k2 + seq!['\n'], a3, l4);
    lemma_join_behind(k3 + seq!['\n'], a4, l5);
    lemma_join_behind(k4 + seq!['\n'], a5, l6);
    assert(text::join(l6, '\n') == end);
    assert(k5 + seq!['\n'] + end == k5 + seq!['\n']);
}

proof fn lemma_key_lines_are_lines(s: DatasetSpecView)
    requires
        is_one_line(s.dataset),
        is_one_line(s.config),
        is_one_line(s.split),
        is_one_line(s.column),
    ensures
        forall|i: int, j: int|
            0 <= i < key_lines(s).len() && 0 <= j < key_lines(s)[i].len()
                ==> #[trigger] key_lines(s)[i][j] != '\n',
{
    reveal_strlit("dataset=");
    reveal_strlit("config=");
    reveal_strlit("split=");
    reveal_strlit("column=");
    reveal_strlit("offset=");
    reveal_strlit("rows=");
    text::lemma_decimal_reads_back(s.offset as nat, usize::MAX as nat);
    text::lemma_decimal_reads_back(s.rows as nat, usize::MAX as nat);
    lemma_line("dataset="@, s.dataset);
    lemma_line("config="@, s.config);
    lemma_line("split="@, s.split);
    lemma_line("column="@, s.column);
    assert forall|i: int| 0 <= i < text::decimal(s.offset as nat).len() implies text::decimal(
        s.offset as nat,
    )[i] != '\n' by {
        assert(text::is_digit(text::decimal(s.offset as nat)[i]));
    }
    assert forall|i: int| 0 <= i < text::decimal(s.rows as nat).len() implies text::decimal(
        s.rows as nat,
    )[i] != '\n' by {
        assert(text::is_digit(text::decimal(s.rows as nat)[i]));
    }
    lemma_line("offset="@, text::decimal(s.offset as nat));
    lemma_line("rows="@, text::decimal(s.rows as nat));
    assert forall|i: int, j: int|
        0 <= i < key_lines(s).len() && 0 <= j < key_lines(s)[i].len() implies #[trigger] key_lines(
        s,
    )[i][j] != '\n' by {
        assert(is_one_line(key_lines(s)[i]));
    }
}

proof fn lemma_line(a: Seq<char>, b: Seq<char>)
    requires
        is_one_line(a),
        is_one_line(b),
    ensures
        is_one_line(a + b),
{
    assert forall|i: int| 0 <= i < (a + b).len() implies #[trigger] (a + b)[i] != '\n' by {
        if i < a.len() {
            assert((a + b)[i] == a[i]);
        } else {
            assert((a + b)[i] == b[i - a.len()]);
        }
    }
}

/// A cache key tells one spec from all others: two specs without line breaks that share a key are
/// the same in every setting.
pub proof fn law_cache_keys_tell_specs_apart(s: DatasetSpecView, t: DatasetSpecView)
    requires
        is_one_line(s.dataset) && is_one_line(s.config) && is_one_line(s.split) && is_one_line(
            s.column,
        ),
        is_one_line(t.dataset) && is_one_line(t.config) && is_one_line(t.split) && is_one_line(
            t.column,
        ),
        cache_key_text(s) == cache_key_text(t),
    ensures
        s == t,
{
    lemma_key_is_its_lines(s);
    lemma_key_is_its_lines(t);
    lemma_key_lines_are_lines(s);
    lemma_key_lines_are_lines(t);
    text::law_joined_parts_split_again(key_lines(s), '\n');
    text::law_joined_parts_split_again(key_lines(t), '\n');
    let a = key_lines(s);
    let b = key_lines(t);
    assert(a == b);
    assert(a[0] == b[0]);
    assert(a[1] == b[1]);
    assert(a[2] == b[2]);
    assert(a[3] == b[3]);
    assert(a[4] == b[4]);
    assert(a[5] == b[5]);
    lemma_same_front("dataset="@, s.dataset, t.dataset);
    lemma_same_front("config="@, s.config, t.config);
    lemma_same_front("split="@, s.split, t.split);
    lemma_same_front("column="@, s.column, t.column);
    lemma_same_front("offset="@, text::decimal(s.offset as nat), text::decimal(t.offset as nat));
    lemma_same_front("rows="@, text::decimal(s.rows as nat), text::decimal(t.rows as nat));
    text::lemma_decimal_reads_back(s.offset as nat, usize::MAX as nat);
    text::lemma_decimal_reads_back(t.offset as nat, usize::MAX as nat);
    text::lemma_decimal_reads_back(s.rows as nat, usize::MAX as nat);
    text::lemma_decimal_reads_back(t.rows as nat, usize::MAX as nat);
}

/// Two specs that begin at different rows have different cache files.
pub proof fn law_cache_files_differ_by_offset(s: DatasetSpecView, offset: usize)
    requires
        offset != s.offset,
    ensures
        cache_file_name(DatasetSpecView { offset, ..s }) != cache_file_name(s),
{
    let other = DatasetSpecView { offset, ..s };
    reveal_strlit("__rows-");
    reveal_strlit("_rows-");
    assert("__rows-"@ == seq!['_'] + "_rows-"@);
    let front = cache_component(s.dataset) + "__"@ + cache_component(s.config) + "__"@
        + cache_component(s.split) + "__"@ + cache_component(s.column) + "__offset-"@;
    let rows = text::decimal(s.rows as nat);
    let a = "_rows-"@ + rows + "__"@ + cache_digest(s) + ".txt"@;
    let b = "_rows-"@ + rows + "__"@ + cache_digest(other) + ".txt"@;
    let x = text::decimal(s.offset as nat);
    let y = text::decimal(offset as nat);
    assert(cache_file_name(s) == front + (x.push('_') + a));
    assert(cache_file_name(other) == front + (y.push('_') + b));
    if cache_file_name(other) == cache_file_name(s) {
        lemma_same_front(front, x.push('_') + a, y.push('_') + b);
        lemma_number_ends(s.offset as nat, offset as nat, a, b);
    }
}

/// A text stands in a cache file name with its plain characters in their places, up to the
/// sixty-fourth, and with a dash for each other one.
pub proof fn law_components_keep_their_characters(value: Seq<char>, i: int)
    requires
        0 <= i < value.len(),
        i < 64,
    ensures
        cache_component(value).len() == (if value.len() < 64 {
            value.len()
        } else {
            64
        }),
        ({
            let c = value[i];
            let plain = '0' <= c <= '9' || 'A' <= c <= 'Z' || 'a' <= c <= 'z' || c == '-' || c
                == '_' || c == '.';
            cache_component(value)[i] == (if plain {
                c
            } else {
                '-'
            })
        }),
{
}

proof fn lemma_rows_without_text(output: Seq<char>, rows: Seq<DatasetRow>, column: Seq<char>)
    requires
        forall|i: int| 0 <= i < rows.len() ==> row_text(#[trigger] rows[i], column) is None,
    ensures
        with_rows(output, rows, column) == output,
    decreases rows.len(),
{
    if rows.len() > 0 {
        let less = rows.drop_last();
        assert forall|i: int| 0 <= i < less.len() implies row_text(
            #[trigger] less[i],
            column,
        ) is None by {
            assert(less[i] == rows[i]);
        }
        lemma_rows_without_text(output, less, column);
        assert(row_text(rows[rows.len() - 1], column) is None);
    }
}

/// Rows are refused exactly where none of them has a text in the column, and then they leave
/// nothing behind.
pub proof fn law_rows_without_the_column_leave_nothing(
    output: Seq<char>,
    rows: Seq<DatasetRow>,
    column: Seq<char>,
    i: int,
)
    ensures
        !some_row_has(rows, column) ==> with_rows(output, rows, column) == output,
        0 <= i < rows.len() && row_text(rows[i], column) is Some ==> some_row_has(rows, column),
{
    if !some_row_has(rows, column) {
        lemma_rows_without_text(output, rows, column);
    }
}

/// A text is blank exactly where it holds nothing but whitespace.
pub proof fn law_blank_texts(s: Seq<char>)
    ensures
        blank(s) <==> forall|i: int| 0 <= i < s.len() ==> text::is_space(#[trigger] s[i]),
{
    let nothing = Seq::<char>::empty();
    if forall|i: int| 0 <= i < s.len() ==> text::is_space(#[trigger] s[i]) {
        text::law_trimming_takes_the_ends(s, nothing, nothing);
        assert(s + nothing + nothing == s);
    } else {
        let i = choose|i: int| 0 <= i < s.len() && !text::is_space(#[trigger] s[i]);
        let start = text::leading_spaces(s) as int;
        text::lemma_leading_spaces(s);
        assert(start <= i) by {
            if start > i {
                assert(text::is_space(s[i]));
            }
        }
        let rest = s.skip(start);
        assert(rest[i - start] == s[i]);
        lemma_trimmed_end_keeps(rest, i - start);
    }
}

proof fn lemma_trimmed_end_keeps(s: Seq<char>, i: int)
    requires
        0 <= i < s.len(),
        !text::is_space(s[i]),
    ensures
        text::trim_end(s).len() > i,
    decreases s.len(),
{
    if text::is_space(s.last()) {
        assert(s.drop_last()[i] == s[i]);
        lemma_trimmed_end_keeps(s.drop_last(), i);
    }
}

/// What a message says about a body: that it is empty where nothing of it can be shown, and else
/// what can be.
pub proof fn law_bodies_are_summed_up(body: Seq<char>)
    ensures
        blank(summary_part(body)) ==> body_summary(body) == "empty response body"@,
        !blank(summary_part(body)) ==> body_summary(body) == "response body: "@ + text::trim(
            summary_part(body),
        ),
        body.len() <= 240 && (forall|i: int| 0 <= i < body.len() ==> is_kept(#[trigger] body[i]))
            ==> summary_part(body) == body,
{
    law_summaries_are_short(body, Seq::empty());
}

/// A page is as long as a page may be, or brings all rows that are missing; and it is asked for
/// exactly while rows are missing and the server has not run out of them.
pub proof fn law_pages_bring_what_is_missing(load: DatasetLoad)
    ensures
        load.wants_more() <==> !load.exhausted && load.fetched_rows < load.dataset_spec.rows,
        load.wants_more() ==> {
            let length = page_length(load.dataset_spec.rows, load.fetched_rows);
            &&& 0 < length <= 100
            &&& length == 100 || load.fetched_rows + length == load.dataset_spec.rows
            &&& load.fetched_rows + length <= load.dataset_spec.rows
        },
{
}

/// A planned load begins with nothing read, at the first row of its spec, and its text is cached
/// under a name of its own in the cache directory.
pub proof fn law_loads_begin_at_their_offset(
    plan: DatasetPlan,
    input: Seq<char>,
    cache_dir: Seq<char>,
)
    requires
        plan_is(Ok(Some(plan)), input, cache_dir),
    ensures
        "hf://"@.is_prefix_of(input),
        plan.load.offset == plan.load.dataset_spec.offset,
        plan.load.fetched_rows == 0,
        plan.load.output@.len() == 0,
        !plan.load.exhausted,
        plan.load.wants_more() <==> plan.load.dataset_spec.rows > 0,
        plan.cache_path@ == path::join(cache_dir, cache_file_name(plan.load.dataset_spec@)),
{
}

/// A summary keeps all printable characters, line feeds and tabs, and no other control characters.
pub proof fn law_what_a_summary_keeps(c: char)
    ensures
        ' ' <= c <= '~' ==> is_kept(c),
        c > '\u{9f}' ==> is_kept(c),
        is_kept('\n') && is_kept('\t'),
        (c < ' ' || '\u{7f}' <= c <= '\u{9f}') && c != '\n' && c != '\t' ==> !is_kept(c),
{
}

/// Whether `after` is `before` with a page taken in.
pub open spec fn page_taken(before: DatasetLoad, after: DatasetLoad, page: RowsPage) -> bool {
    let n = page.rows@.len();
    &&& after.dataset_spec == before.dataset_spec
    &&& after.output@ == with_rows(before.output@, page.rows@, before.dataset_spec.column@)
    &&& after.fetched_rows == before.fetched_rows + n
    &&& after.offset == before.offset + n
    &&& after.exhausted == (before.exhausted || n == 0 || (after.total_rows matches Some(total)
        && after.offset >= total))
}

/// The rows of some pages, one after the other.
pub open spec fn rows_of(pages: Seq<RowsPage>) -> Seq<DatasetRow>
    decreases pages.len(),
{
    if pages.len() == 0 {
        Seq::empty()
    } else {
        rows_of(pages.drop_last()) + pages.last().rows@
    }
}

/// Whether a load goes through the given states, taking in one page after the other.
pub open spec fn is_load(states: Seq<DatasetLoad>, pages: Seq<RowsPage>) -> bool {
    &&& states.len() == pages.len() + 1
    &&& states[0].output@ == Seq::<char>::empty()
    &&& states[0].fetched_rows == 0
    &&& states[0].offset == states[0].dataset_spec.offset
    &&& !states[0].exhausted
    &&& forall|k: int|
        #![trigger pages[k]]
        0 <= k < pages.len() ==> page_taken(states[k], states[k + 1], pages[k])
}

/// A load holds the rows of all its pages, in their order, each on a line of its own; it has
/// counted them all, and what it asks for next is what follows them.
pub proof fn law_a_load_holds_all_its_pages(states: Seq<DatasetLoad>, pages: Seq<RowsPage>)
    requires
        is_load(states, pages),
    ensures
        states.last().dataset_spec == states[0].dataset_spec,
        states.last().output@ == with_rows(
            Seq::empty(),
            rows_of(pages),
            states[0].dataset_spec.column@,
        ),
        states.last().fetched_rows == rows_of(pages).len(),
        states.last().offset == states[0].dataset_spec.offset + rows_of(pages).len(),
    decreases pages.len(),
{
    let column = states[0].dataset_spec.column@;
    if pages.len() == 0 {
        assert(with_rows(Seq::empty(), rows_of(pages), column) == Seq::<char>::empty());
    } else {
        let less = pages.drop_last();
        let earlier = states.drop_last();
        assert forall|k: int|
            #![trigger less[k]]
            0 <= k < less.len() implies page_taken(earlier[k], earlier[k + 1], less[k]) by {
            assert(less[k] == pages[k]);
            assert(earlier[k] == states[k]);
            assert(earlier[k + 1] == states[k + 1]);
        }
        assert(earlier[0] == states[0]);
        law_a_load_holds_all_its_pages(earlier, less);
        let last = pages.len() - 1;
        assert(pages[last] == pages.last());
        assert(page_taken(states[last], states[last + 1], pages[last]));
        assert(earlier.last() == states[last]);
        lemma_rows_concat(Seq::empty(), rows_of(less), pages.last().rows@, column);
    }
}

/// A load ends with a page that brings nothing, or with the last row of the dataset where the
/// server has told how many there are; any other page leaves it open.
pub proof fn law_loads_end_with_the_dataset(
    before: DatasetLoad,
    after: DatasetLoad,
    page: RowsPage,
)
    requires
        page_taken(before, after, page),
        !before.exhausted,
    ensures
        page.rows@.len() == 0 ==> after.exhausted,
        page.rows@.len() > 0 && after.total_rows is None ==> !after.exhausted,
        page.rows@.len() > 0 ==> (after.total_rows matches Some(total) ==> (after.exhausted
            <==> before.offset + page.rows@.len() >= total)),
{
}

} // verus!
