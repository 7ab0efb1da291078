//! Characters, decimal numbers and whitespace: the text primitives that the parsers and the
//! messages of this crate are built from.
use vstd::prelude::*;
use vstd::utf8;

verus! {

/// `String::push` appends one character.
pub assume_specification[ String::push ](s: &mut String, c: char)
    ensures
        final(s)@ == old(s)@.push(c),
;

/// What `String::from_utf8_lossy` makes of bytes.
pub uninterp spec fn lossy_text(bytes: Seq<u8>) -> Seq<char>;

/// Calls `String::from_utf8_lossy`. Bytes that are UTF-8 come out as the text that they encode.
/// Of other bytes only this is said: the same bytes always give the same text.
#[verifier::external_body]
fn from_utf8_lossy(bytes: &[u8]) -> (s: String)
    ensures
        s@ == lossy_text(bytes@),
        utf8::valid_utf8(bytes@) ==> s@ == utf8::decode_utf8(bytes@),
{
    String::from_utf8_lossy(bytes).into_owned()
}

/// Calls `String::from_utf8`, which refuses exactly the bytes that are not UTF-8.
#[verifier::external_body]
pub(crate) fn from_utf8(bytes: Vec<u8>) -> (s: Option<String>)
    ensures
        match s {
            Some(t) => utf8::valid_utf8(bytes@) && t@ == utf8::decode_utf8(bytes@),
            None => !utf8::valid_utf8(bytes@),
        },
{
    String::from_utf8(bytes).ok()
}

/// The text of bytes: what they encode where they are UTF-8, and else what
/// `String::from_utf8_lossy` makes of them.
pub open spec fn utf8_text(bytes: Seq<u8>) -> Seq<char> {
    if utf8::valid_utf8(bytes) {
        utf8::decode_utf8(bytes)
    } else {
        lossy_text(bytes)
    }
}

/// The text of bytes: see [`utf8_text`].
pub fn text_of_bytes(bytes: &[u8]) -> (s: String)
    ensures
        s@ == utf8_text(bytes@),
{
    from_utf8_lossy(bytes)
}

/// The bytes of a text give back the text.
pub proof fn lemma_utf8_text_of_text(s: Seq<char>)
    ensures
        utf8_text(utf8::encode_utf8(s)) == s,
{
    utf8::encode_utf8_valid_utf8(s);
    utf8::encode_utf8_decode_utf8(s);
}

// ---------------------------------------------------------------------------------------
// Strings and character sequences
// ---------------------------------------------------------------------------------------

/// The characters of `s`, in order.
pub fn to_chars(s: &str) -> (chars: Vec<char>)
    ensures
        chars@ == s@,
{
    let mut chars: Vec<char> = Vec::new();
    for c in it: s.chars()
        invariant
            it.seq() == s@,
            chars@ == s@.take(it.index() as int),
    {
        chars.push(c);
        assert(chars@ == s@.take(it.index() as int + 1));
    }
    assert(s@.take(s@.len() as int) == s@);
    chars
}

/// The string made of the given characters.
pub fn from_chars(chars: &[char]) -> (s: String)
    ensures
        s@ == chars@,
{
    let mut s = String::new();
    let mut i: usize = 0;
    while i < chars.len()
        invariant
            i <= chars@.len(),
            s@ == chars@.take(i as int),
        decreases chars.len() - i,
    {
        s.push(chars[i]);
        assert(chars@.take(i as int + 1) == chars@.take(i as int).push(chars@[i as int]));
        i += 1;
    }
    assert(chars@.take(chars@.len() as int) == chars@);
    s
}

/// Whether two character slices hold the same characters.
pub fn same_chars(a: &[char], b: &[char]) -> (same: bool)
    ensures
        same == (a@ == b@),
{
    if a.len() != b.len() {
        return false;
    }
    let mut i: usize = 0;
    while i < a.len()
        invariant
            i <= a@.len(),
            a@.len() == b@.len(),
            a@.take(i as int) == b@.take(i as int),
        decreases a.len() - i,
    {
        if a[i] != b[i] {
            assert(a@[i as int] != b@[i as int]);
            return false;
        }
        assert(a@.take(i as int + 1) == a@.take(i as int).push(a@[i as int]));
        assert(b@.take(i as int + 1) == b@.take(i as int).push(b@[i as int]));
        i += 1;
    }
    assert(a@.take(a@.len() as int) == a@);
    assert(b@.take(b@.len() as int) == b@);
    true
}

/// Whether two strings are equal.
pub fn same_text(a: &str, b: &str) -> (same: bool)
    ensures
        same == (a@ == b@),
{
    let left = to_chars(a);
    let right = to_chars(b);
    same_chars(left.as_slice(), right.as_slice())
}

/// The characters `from..to` of `chars`.
pub fn slice_chars(chars: &[char], from: usize, to: usize) -> (part: Vec<char>)
    requires
        from <= to <= chars@.len(),
    ensures
        part@ == chars@.subrange(from as int, to as int),
{
    let mut part: Vec<char> = Vec::new();
    let mut i: usize = from;
    while i < to
        invariant
            from <= i <= to <= chars@.len(),
            part@ == chars@.subrange(from as int, i as int),
        decreases to - i,
    {
        part.push(chars[i]);
        assert(part@ == chars@.subrange(from as int, i as int + 1));
        i += 1;
    }
    part
}

// ---------------------------------------------------------------------------------------
// Decimal numbers
// ---------------------------------------------------------------------------------------

/// The character of a decimal digit.
pub open spec fn digit_char(d: nat) -> char {
    (48 + d) as char
}

/// A number in decimal notation, without leading zeros.
pub open spec fn decimal(n: nat) -> Seq<char>
    decreases n,
{
    if n < 10 {
        seq![digit_char(n)]
    } else {
        decimal(n / 10).push(digit_char(n % 10))
    }
}

/// Whether `c` is one of `0..=9`.
pub open spec fn is_digit(c: char) -> bool {
    '0' <= c <= '9'
}

/// Whether every character is a decimal digit.
pub open spec fn all_digits(s: Seq<char>) -> bool {
    forall|i: int| 0 <= i < s.len() ==> is_digit(#[trigger] s[i])
}

/// The number that a sequence of digits writes.
pub open spec fn digits_value(s: Seq<char>) -> nat
    decreases s.len(),
{
    if s.len() == 0 {
        0
    } else {
        digits_value(s.drop_last()) * 10 + (s.last() as nat - 48) as nat
    }
}

/// An unsigned number as it may be written: digits, with an optional `+` before them, of a
/// value no greater than `max`.
pub open spec fn unsigned_value(s: Seq<char>, max: nat) -> Option<nat> {
    let digits = if s.len() > 0 && s[0] == '+' {
        s.skip(1)
    } else {
        s
    };
    if digits.len() > 0 && all_digits(digits) && digits_value(digits) <= max {
        Some(digits_value(digits))
    } else {
        None
    }
}

/// What a text holds as a `usize`.
pub open spec fn usize_value(s: Seq<char>) -> Option<usize> {
    match unsigned_value(s, usize::MAX as nat) {
        Some(n) => Some(n as usize),
        None => None,
    }
}

/// What a text holds as a `u64`.
pub open spec fn u64_value(s: Seq<char>) -> Option<u64> {
    match unsigned_value(s, u64::MAX as nat) {
        Some(n) => Some(n as u64),
        None => None,
    }
}

fn digit_text(d: u128) -> (c: char)
    requires
        d < 10,
    ensures
        c == digit_char(d as nat),
{
    let byte: u8 = 48 + d as u8;
    byte as char
}

/// `n` in decimal notation.
pub fn u128_text(n: u128) -> (s: String)
    ensures
        s@ == decimal(n as nat),
    decreases n,
{
    if n < 10 {
        let mut s = String::new();
        s.push(digit_text(n));
        assert(s@ == seq![digit_char(n as nat)]);
        s
    } else {
        let mut s = u128_text(n / 10);
        s.push(digit_text(n % 10));
        s
    }
}

/// `n` in decimal notation.
pub fn u64_text(n: u64) -> (s: String)
    ensures
        s@ == decimal(n as nat),
{
    u128_text(n as u128)
}

/// `n` in decimal notation.
pub fn usize_text(n: usize) -> (s: String)
    ensures
        s@ == decimal(n as nat),
{
    u128_text(n as u128)
}

/// `true` or `false`.
pub open spec fn bool_chars(b: bool) -> Seq<char> {
    if b {
        "true"@
    } else {
        "false"@
    }
}

/// `true` or `false`.
pub fn bool_text(b: bool) -> (s: &'static str)
    ensures
        s@ == bool_chars(b),
{
    if b {
        "true"
    } else {
        "false"
    }
}

proof fn lemma_digits_value_push(s: Seq<char>, c: char)
    ensures
        digits_value(s.push(c)) == digits_value(s) * 10 + (c as nat - 48) as nat,
{
    assert(s.push(c).drop_last() == s);
}

proof fn lemma_digits_value_grows(s: Seq<char>, k: int)
    requires
        0 <= k <= s.len(),
    ensures
        digits_value(s.take(k)) <= digits_value(s),
    decreases s.len() - k,
{
    if k == s.len() {
        assert(s.take(k) == s);
    } else {
        lemma_digits_value_grows(s, k + 1);
        assert(s.take(k + 1) == s.take(k).push(s[k]));
        lemma_digits_value_push(s.take(k), s[k]);
    }
}

/// Reads an unsigned number from characters: see [`u64_value`].
pub fn parse_u64_chars(chars: &[char]) -> (value: Option<u64>)
    ensures
        value == u64_value(chars@),
{
    let start: usize = if chars.len() > 0 && chars[0] == '+' {
        1
    } else {
        0
    };
    let ghost digits = chars@.skip(start as int);
    assert(start == 0 ==> digits == chars@);
    if start == chars.len() {
        return None;
    }
    let mut total: u64 = 0;
    let mut i: usize = start;
    while i < chars.len()
        invariant
            start <= i <= chars@.len(),
            start <= 1,
            digits == chars@.skip(start as int),
            digits.len() > 0,
            digits == (if chars@.len() > 0 && chars@[0] == '+' { chars@.skip(1) } else { chars@ }),
            all_digits(digits.take(i - start)),
            total == digits_value(digits.take(i - start)),
        decreases chars.len() - i,
    {
        let c = chars[i];
        proof {
            assert(c == digits[i - start]);
            assert(digits.take(i - start + 1) == digits.take(i - start).push(c));
            lemma_digits_value_push(digits.take(i - start), c);
            lemma_digits_value_grows(digits, i - start + 1);
        }
        if c < '0' || c > '9' {
            assert(!is_digit(digits[i - start]));
            return None;
        }
        let digit: u64 = (c as u32 - 48) as u64;
        if total > (u64::MAX - digit) / 10 {
            assert(total * 10 + digit > u64::MAX);
            return None;
        }
        total = total * 10 + digit;
        assert(forall|j: int|
            0 <= j < i - start + 1 ==> is_digit(#[trigger] digits.take(i - start + 1)[j])) by {
            assert forall|j: int| 0 <= j < i - start + 1 implies is_digit(
                #[trigger] digits.take(i - start + 1)[j],
            ) by {
                if j < i - start {
                    assert(digits.take(i - start)[j] == digits[j]);
                }
            }
        }
        i += 1;
    }
    assert(digits.take(digits.len() as int) == digits);
    Some(total)
}

/// Reads a `u64`: see [`u64_value`].
pub fn parse_u64(s: &str) -> (value: Option<u64>)
    ensures
        value == u64_value(s@),
{
    let chars = to_chars(s);
    parse_u64_chars(chars.as_slice())
}

/// Reads a `usize`: see [`usize_value`].
pub fn parse_usize(s: &str) -> (value: Option<usize>)
    ensures
        value == usize_value(s@),
{
    let wide = parse_u64(s);
    match wide {
        Some(n) => {
            if n <= usize::MAX as u64 {
                Some(n as usize)
            } else {
                None
            }
        },
        None => None,
    }
}

/// Why a text is no unsigned number.
#[derive(Debug, Clone, Copy, PartialEq, Eq, Structural)]
pub enum NumberError {
    /// There is nothing to read.
    Empty,
    /// A character is not a digit.
    InvalidDigit,
    /// The digits write a number that is too large.
    TooLarge,
}

/// How many digits `s` starts with.
pub open spec fn digit_run(s: Seq<char>) -> nat
    decreases s.len(),
{
    if s.len() == 0 || !is_digit(s[0]) {
        0
    } else {
        1 + digit_run(s.skip(1))
    }
}

/// Why `s` is no number up to `max`, for a text that is none. Digits that write too large a
/// number count before a later character that is no digit.
pub open spec fn number_error(s: Seq<char>, max: nat) -> NumberError {
    let digits = if s.len() > 0 && s[0] == '+' {
        s.skip(1)
    } else {
        s
    };
    if s.len() == 0 {
        NumberError::Empty
    } else if digits_value(digits.take(digit_run(digits) as int)) > max {
        NumberError::TooLarge
    } else {
        NumberError::InvalidDigit
    }
}

/// The message of a number that could not be read.
pub open spec fn number_error_text(e: NumberError) -> Seq<char> {
    match e {
        NumberError::Empty => "cannot parse integer from empty string"@,
        NumberError::InvalidDigit => "invalid digit found in string"@,
        NumberError::TooLarge => "number too large to fit in target type"@,
    }
}

impl NumberError {
    /// The message of this error.
    pub fn message(self) -> (s: &'static str)
        ensures
            s@ == number_error_text(self),
    {
        match self {
            NumberError::Empty => "cannot parse integer from empty string",
            NumberError::InvalidDigit => "invalid digit found in string",
            NumberError::TooLarge => "number too large to fit in target type",
        }
    }
}

proof fn lemma_digit_run_is(s: Seq<char>, k: int)
    requires
        0 <= k <= s.len(),
        all_digits(s.take(k)),
        k < s.len() ==> !is_digit(s[k]),
    ensures
        digit_run(s) == k,
    decreases s.len(),
{
    if k > 0 {
        assert(s.take(k)[0] == s[0]);
        assert(all_digits(s.skip(1).take(k - 1))) by {
            assert forall|j: int| 0 <= j < k - 1 implies is_digit(
                #[trigger] s.skip(1).take(k - 1)[j],
            ) by {
                assert(s.skip(1).take(k - 1)[j] == s.take(k)[j + 1]);
            }
        }
        lemma_digit_run_is(s.skip(1), k - 1);
    }
}

/// Why a text that is no `usize` is none: see [`number_error`].
pub fn usize_error(s: &str) -> (e: NumberError)
    requires
        usize_value(s@) is None,
    ensures
        e == number_error(s@, usize::MAX as nat),
{
    let chars = to_chars(s);
    if chars.len() == 0 {
        return NumberError::Empty;
    }
    let start: usize = if chars[0] == '+' {
        1
    } else {
        0
    };
    let ghost digits = chars@.skip(start as int);
    assert(start == 0 ==> digits == chars@);
    let mut end: usize = start;
    while end < chars.len() && '0' <= chars[end] && chars[end] <= '9'
        invariant
            start <= end <= chars@.len(),
            digits == chars@.skip(start as int),
            all_digits(digits.take(end - start)),
        decreases chars.len() - end,
    {
        proof {
            let grown = digits.take(end - start + 1);
            assert forall|j: int| 0 <= j < grown.len() implies is_digit(#[trigger] grown[j]) by {
                if j < end - start {
                    assert(grown[j] == digits.take(end - start)[j]);
                } else {
                    assert(grown[j] == chars@[end as int]);
                }
            }
        }
        end += 1;
    }
    proof {
        lemma_digit_run_is(digits, end - start);
    }
    let run = slice_chars(chars.as_slice(), start, end);
    assert(run@ == digits.take(end - start));
    if run.len() == 0 {
        return NumberError::InvalidDigit;
    }
    proof {
        assert(run@[0] == digits.take(end - start)[0]);
        assert(is_digit(run@[0]));
    }
    match parse_u64_chars(run.as_slice()) {
        Some(n) => {
            if n > usize::MAX as u64 {
                NumberError::TooLarge
            } else {
                NumberError::InvalidDigit
            }
        },
        None => NumberError::TooLarge,
    }
}

/// What is wrong with a text that is no number.
pub open spec fn usize_cause(s: Seq<char>) -> Seq<char> {
    number_error_text(number_error(s, usize::MAX as nat))
}

/// What is wrong with a text that is no number: see [`usize_cause`].
pub fn usize_cause_text(s: &str) -> (cause: String)
    requires
        usize_value(s@) is None,
    ensures
        cause@ == usize_cause(s@),
{
    usize_error(s).message().to_owned()
}

/// A number reads back from its own decimal notation.
pub proof fn lemma_decimal_reads_back(n: nat, max: nat)
    requires
        n <= max,
    ensures
        unsigned_value(decimal(n), max) == Some(n),
        decimal(n).len() > 0,
        all_digits(decimal(n)),
{
    lemma_decimal_digits(n);
    assert(decimal(n)[0] != '+');
}

proof fn lemma_decimal_digits(n: nat)
    ensures
        decimal(n).len() > 0,
        all_digits(decimal(n)),
        digits_value(decimal(n)) == n,
    decreases n,
{
    if n < 10 {
        assert(decimal(n) == Seq::<char>::empty().push(digit_char(n)));
        lemma_digits_value_push(Seq::empty(), digit_char(n));
    } else {
        lemma_decimal_digits(n / 10);
        lemma_digits_value_push(decimal(n / 10), digit_char(n % 10));
    }
}

// ---------------------------------------------------------------------------------------
// Searching and splitting
// ---------------------------------------------------------------------------------------

/// The position of the first `c` in `s`, or the length of `s` where there is none.
pub open spec fn find(s: Seq<char>, c: char) -> nat
    decreases s.len(),
{
    if s.len() == 0 || s[0] == c {
        0
    } else {
        1 + find(s.skip(1), c)
    }
}

/// What stands before and after the first `c`, where there is one.
pub open spec fn split_once(s: Seq<char>, c: char) -> Option<(Seq<char>, Seq<char>)> {
    let k = find(s, c) as int;
    if k < s.len() {
        Some((s.take(k), s.skip(k + 1)))
    } else {
        None
    }
}

/// The position of the last `c` in `s`, or -1 where there is none.
pub open spec fn rfind(s: Seq<char>, c: char) -> int
    decreases s.len(),
{
    if s.len() == 0 {
        -1
    } else if s.last() == c {
        s.len() - 1
    } else {
        rfind(s.drop_last(), c)
    }
}

/// What stands before and after the last `c`, where there is one.
pub open spec fn rsplit_once(s: Seq<char>, c: char) -> Option<(Seq<char>, Seq<char>)> {
    let k = rfind(s, c);
    if k >= 0 {
        Some((s.take(k), s.skip(k + 1)))
    } else {
        None
    }
}

/// The parts between the separators: one more than there are separators, and all of them
/// together, joined by the separator, are `s` again (see [`lemma_split_joins_back`]).
pub open spec fn split(s: Seq<char>, c: char) -> Seq<Seq<char>>
    decreases s.len(),
    via split_decreases
{
    let k = find(s, c) as int;
    if k < s.len() {
        seq![s.take(k)] + split(s.skip(k + 1), c)
    } else {
        seq![s]
    }
}

#[via_fn]
proof fn split_decreases(s: Seq<char>, c: char) {
    lemma_find(s, c);
}

/// Parts put together again with a separator between each two of them.
pub open spec fn join(parts: Seq<Seq<char>>, c: char) -> Seq<char>
    decreases parts.len(),
{
    if parts.len() == 0 {
        Seq::empty()
    } else if parts.len() == 1 {
        parts[0]
    } else {
        parts[0].push(c) + join(parts.skip(1), c)
    }
}

/// The views of a list of character vectors.
pub open spec fn char_views(parts: Seq<Vec<char>>) -> Seq<Seq<char>> {
    Seq::new(parts.len(), |i: int| parts[i]@)
}

/// The views of a list of strings.
pub open spec fn text_views(parts: Seq<String>) -> Seq<Seq<char>> {
    Seq::new(parts.len(), |i: int| parts[i]@)
}

/// `find` is the least position of the character.
pub proof fn lemma_find(s: Seq<char>, c: char)
    ensures
        find(s, c) <= s.len(),
        find(s, c) < s.len() ==> s[find(s, c) as int] == c,
        forall|j: int| 0 <= j < find(s, c) ==> #[trigger] s[j] != c,
    decreases s.len(),
{
    if s.len() > 0 && s[0] != c {
        lemma_find(s.skip(1), c);
        assert forall|j: int| 0 <= j < find(s, c) implies #[trigger] s[j] != c by {
            if j > 0 {
                assert(s[j] == s.skip(1)[j - 1]);
            }
        }
    }
}

/// A position before which the character does not occur, and where it does, is the one that
/// `find` gives.
pub proof fn lemma_find_is(s: Seq<char>, c: char, k: int)
    requires
        0 <= k <= s.len(),
        forall|j: int| 0 <= j < k ==> s[j] != c,
        k < s.len() ==> s[k] == c,
    ensures
        find(s, c) == k,
{
    lemma_find(s, c);
    if find(s, c) < k {
        assert(s[find(s, c) as int] == c);
    }
    if find(s, c) > k {
        assert(s[k] == c);
    }
}

/// `rfind` is the greatest position of the character.
pub proof fn lemma_rfind(s: Seq<char>, c: char)
    ensures
        -1 <= rfind(s, c) < s.len(),
        rfind(s, c) >= 0 ==> s[rfind(s, c)] == c,
        forall|j: int| rfind(s, c) < j < s.len() ==> #[trigger] s[j] != c,
    decreases s.len(),
{
    if s.len() > 0 && s.last() != c {
        lemma_rfind(s.drop_last(), c);
        assert forall|j: int| rfind(s, c) < j < s.len() implies #[trigger] s[j] != c by {
            if j < s.len() - 1 {
                assert(s[j] == s.drop_last()[j]);
            }
        }
    }
}

/// A position after which the character does not occur, and where it does, is the one that
/// `rfind` gives.
pub proof fn lemma_rfind_is(s: Seq<char>, c: char, k: int)
    requires
        -1 <= k < s.len(),
        forall|j: int| k < j < s.len() ==> s[j] != c,
        k >= 0 ==> s[k] == c,
    ensures
        rfind(s, c) == k,
{
    lemma_rfind(s, c);
    if rfind(s, c) < k {
        assert(s[k] == c);
    }
    if rfind(s, c) > k {
        assert(s[rfind(s, c)] == c);
    }
}

/// Splitting loses nothing: the parts joined by the separator are the text again, and no part
/// holds the separator.
pub proof fn lemma_split_joins_back(s: Seq<char>, c: char)
    ensures
        split(s, c).len() > 0,
        join(split(s, c), c) == s,
        forall|i: int, j: int|
            0 <= i < split(s, c).len() && 0 <= j < split(s, c)[i].len() ==> #[trigger] split(
                s,
                c,
            )[i][j] != c,
    decreases s.len(),
{
    lemma_find(s, c);
    let k = find(s, c) as int;
    if k < s.len() {
        let rest = s.skip(k + 1);
        lemma_split_joins_back(rest, c);
        assert(split(s, c).skip(1) == split(rest, c));
        assert(s == s.take(k).push(c) + rest);
        assert forall|i: int, j: int|
            0 <= i < split(s, c).len() && 0 <= j < split(s, c)[i].len() implies #[trigger] split(
            s,
            c,
        )[i][j] != c by {
            if i > 0 {
                assert(split(s, c)[i] == split(rest, c)[i - 1]);
            } else {
                assert(split(s, c)[i] == s.take(k));
            }
        }
    }
}

/// The position of the first `c`: see [`find`].
pub fn find_char(chars: &[char], c: char) -> (k: usize)
    ensures
        k == find(chars@, c),
        k <= chars@.len(),
{
    let mut k: usize = 0;
    while k < chars.len() && chars[k] != c
        invariant
            k <= chars@.len(),
            forall|j: int| 0 <= j < k ==> chars@[j] != c,
        decreases chars.len() - k,
    {
        k += 1;
    }
    proof {
        lemma_find_is(chars@, c, k as int);
    }
    k
}

/// The position of the last `c`: see [`rfind`].
pub fn rfind_char(chars: &[char], c: char) -> (k: Option<usize>)
    ensures
        match k {
            Some(i) => i == rfind(chars@, c) && i < chars@.len(),
            None => rfind(chars@, c) == -1,
        },
{
    let mut i: usize = chars.len();
    while i > 0
        invariant
            i <= chars@.len(),
            forall|j: int| i <= j < chars@.len() ==> chars@[j] != c,
        decreases i,
    {
        i -= 1;
        if chars[i] == c {
            proof {
                lemma_rfind_is(chars@, c, i as int);
            }
            return Some(i);
        }
    }
    proof {
        lemma_rfind_is(chars@, c, -1);
    }
    None
}

/// Splits at the first `c`: see [`split_once`].
pub fn split_once_chars(chars: &[char], c: char) -> (r: Option<(Vec<char>, Vec<char>)>)
    ensures
        match (r, split_once(chars@, c)) {
            (Some(p), Some(q)) => p.0@ == q.0 && p.1@ == q.1,
            (None, None) => true,
            _ => false,
        },
{
    let k = find_char(chars, c);
    if k < chars.len() {
        let before = slice_chars(chars, 0, k);
        let after = slice_chars(chars, k + 1, chars.len());
        assert(before@ == chars@.take(k as int));
        assert(after@ == chars@.skip(k as int + 1));
        Some((before, after))
    } else {
        None
    }
}

/// Splits at the last `c`: see [`rsplit_once`].
pub fn rsplit_once_chars(chars: &[char], c: char) -> (r: Option<(Vec<char>, Vec<char>)>)
    ensures
        match (r, rsplit_once(chars@, c)) {
            (Some(p), Some(q)) => p.0@ == q.0 && p.1@ == q.1,
            (None, None) => true,
            _ => false,
        },
{
    let end: usize = chars.len();
    match rfind_char(chars, c) {
        Some(k) => {
            let before = slice_chars(chars, 0, k);
            let after = slice_chars(chars, k + 1, end);
            assert(before@ == chars@.take(k as int));
            assert(after@ == chars@.skip(k as int + 1));
            Some((before, after))
        },
        None => None,
    }
}

/// Splits at every `c`: see [`split`].
pub fn split_chars(chars: &[char], c: char) -> (parts: Vec<Vec<char>>)
    ensures
        char_views(parts@) == split(chars@, c),
        parts@.len() > 0,
{
    let mut parts: Vec<Vec<char>> = Vec::new();
    let mut start: usize = 0;
    let mut i: usize = 0;
    assert(chars@.skip(0) == chars@);
    while i < chars.len()
        invariant
            start <= i <= chars@.len(),
            forall|j: int| start <= j < i ==> chars@[j] != c,
            split(chars@, c) == char_views(parts@) + split(chars@.skip(start as int), c),
        decreases chars.len() - i,
    {
        if chars[i] == c {
            let part = slice_chars(chars, start, i);
            let ghost rest = chars@.skip(start as int);
            let ghost before = parts@;
            proof {
                lemma_find_is(rest, c, i - start);
                assert(rest.take(i - start) == part@);
                assert(rest.skip(i - start + 1) == chars@.skip(i as int + 1));
                assert(split(rest, c) == seq![part@] + split(chars@.skip(i as int + 1), c));
            }
            parts.push(part);
            proof {
                assert(char_views(parts@) == char_views(before).push(part@));
                assert(split(chars@, c) == char_views(parts@) + split(
                    chars@.skip(i as int + 1),
                    c,
                ));
            }
            start = i + 1;
        }
        i += 1;
    }
    let part = slice_chars(chars, start, chars.len());
    let ghost before = parts@;
    proof {
        lemma_find_is(chars@.skip(start as int), c, chars@.len() - start);
        assert(part@ == chars@.skip(start as int));
    }
    parts.push(part);
    assert(char_views(parts@) == char_views(before).push(part@));
    parts
}

/// Whether `chars` starts with `prefix`.
pub fn has_prefix(chars: &[char], prefix: &str) -> (yes: bool)
    ensures
        yes == prefix@.is_prefix_of(chars@),
{
    let head = to_chars(prefix);
    if head.len() > chars.len() {
        return false;
    }
    let part = slice_chars(chars, 0, head.len());
    assert(part@ == chars@.take(head@.len() as int));
    let same = same_chars(part.as_slice(), head.as_slice());
    proof {
        if prefix@.is_prefix_of(chars@) {
            assert(part@ == prefix@);
        } else if same {
            assert(prefix@ == chars@.subrange(0, prefix@.len() as int));
        }
    }
    same
}

/// Whether `chars` ends with `suffix`.
pub fn has_suffix(chars: &[char], suffix: &str) -> (yes: bool)
    ensures
        yes == suffix@.is_suffix_of(chars@),
{
    let tail = to_chars(suffix);
    if tail.len() > chars.len() {
        return false;
    }
    let part = slice_chars(chars, chars.len() - tail.len(), chars.len());
    let same = same_chars(part.as_slice(), tail.as_slice());
    proof {
        if suffix@.is_suffix_of(chars@) {
            assert(part@ == suffix@);
        } else if same {
            assert(suffix@ == chars@.subrange(chars@.len() - suffix@.len(), chars@.len() as int));
        }
    }
    same
}

/// What follows `prefix`, where `chars` starts with it.
pub fn strip_prefix(chars: &[char], prefix: &str) -> (rest: Option<Vec<char>>)
    ensures
        match rest {
            Some(r) => prefix@.is_prefix_of(chars@) && r@ == chars@.skip(prefix@.len() as int),
            None => !prefix@.is_prefix_of(chars@),
        },
{
    if has_prefix(chars, prefix) {
        let rest = slice_chars(chars, prefix.unicode_len(), chars.len());
        assert(rest@ == chars@.skip(prefix@.len() as int));
        Some(rest)
    } else {
        None
    }
}

// ---------------------------------------------------------------------------------------
// Whitespace
// ---------------------------------------------------------------------------------------

/// The characters with the Unicode property `White_Space`.
pub open spec fn is_space(c: char) -> bool {
    ||| '\u{9}' <= c <= '\u{d}'
    ||| c == ' '
    ||| c == '\u{85}'
    ||| c == '\u{a0}'
    ||| c == '\u{1680}'
    ||| '\u{2000}' <= c <= '\u{200a}'
    ||| c == '\u{2028}'
    ||| c == '\u{2029}'
    ||| c == '\u{202f}'
    ||| c == '\u{205f}'
    ||| c == '\u{3000}'
}

/// Whether `c` is whitespace: see [`is_space`].
pub fn space(c: char) -> (yes: bool)
    ensures
        yes == is_space(c),
{
    ('\u{9}' <= c && c <= '\u{d}') || c == ' ' || c == '\u{85}' || c == '\u{a0}' || c
        == '\u{1680}' || ('\u{2000}' <= c && c <= '\u{200a}') || c == '\u{2028}' || c
        == '\u{2029}' || c == '\u{202f}' || c == '\u{205f}' || c == '\u{3000}'
}

/// How many whitespace characters `s` starts with.
pub open spec fn leading_spaces(s: Seq<char>) -> nat
    decreases s.len(),
{
    if s.len() == 0 || !is_space(s[0]) {
        0
    } else {
        1 + leading_spaces(s.skip(1))
    }
}

/// `s` without the whitespace at its end.
pub open spec fn trim_end(s: Seq<char>) -> Seq<char>
    decreases s.len(),
{
    if s.len() == 0 || !is_space(s.last()) {
        s
    } else {
        trim_end(s.drop_last())
    }
}

/// `s` without the whitespace at its start and end.
pub open spec fn trim(s: Seq<char>) -> Seq<char> {
    trim_end(s.skip(leading_spaces(s) as int))
}

/// How many characters stand before the first whitespace of `s`.
pub open spec fn word_len(s: Seq<char>) -> nat
    decreases s.len(),
{
    if s.len() == 0 || is_space(s[0]) {
        0
    } else {
        1 + word_len(s.skip(1))
    }
}

/// The runs of characters between whitespace.
pub open spec fn words(s: Seq<char>) -> Seq<Seq<char>>
    decreases s.len(),
    via words_decreases
{
    let start = leading_spaces(s) as int;
    if start >= s.len() {
        Seq::empty()
    } else {
        let rest = s.skip(start);
        let k = word_len(rest) as int;
        seq![rest.take(k)] + words(rest.skip(k))
    }
}

#[via_fn]
proof fn words_decreases(s: Seq<char>) {
    lemma_leading_spaces(s);
    let start = leading_spaces(s) as int;
    if start < s.len() {
        let rest = s.skip(start);
        lemma_word_len(rest);
        assert(rest[0] == s[start]);
    }
}

/// `leading_spaces` counts whitespace and stops at the first other character.
pub proof fn lemma_leading_spaces(s: Seq<char>)
    ensures
        leading_spaces(s) <= s.len(),
        leading_spaces(s) < s.len() ==> !is_space(s[leading_spaces(s) as int]),
        forall|j: int| 0 <= j < leading_spaces(s) ==> is_space(#[trigger] s[j]),
    decreases s.len(),
{
    if s.len() > 0 && is_space(s[0]) {
        lemma_leading_spaces(s.skip(1));
        assert forall|j: int| 0 <= j < leading_spaces(s) implies is_space(#[trigger] s[j]) by {
            if j > 0 {
                assert(s[j] == s.skip(1)[j - 1]);
            }
        }
    }
}

proof fn lemma_leading_spaces_is(s: Seq<char>, k: int)
    requires
        0 <= k <= s.len(),
        forall|j: int| 0 <= j < k ==> is_space(s[j]),
        k < s.len() ==> !is_space(s[k]),
    ensures
        leading_spaces(s) == k,
{
    lemma_leading_spaces(s);
    if leading_spaces(s) < k {
        assert(is_space(s[leading_spaces(s) as int]));
    }
    if leading_spaces(s) > k {
        assert(is_space(s[k]));
    }
}

/// `word_len` counts characters up to the first whitespace.
pub proof fn lemma_word_len(s: Seq<char>)
    ensures
        word_len(s) <= s.len(),
        word_len(s) < s.len() ==> is_space(s[word_len(s) as int]),
        forall|j: int| 0 <= j < word_len(s) ==> !is_space(#[trigger] s[j]),
        s.len() > 0 && !is_space(s[0]) ==> word_len(s) > 0,
    decreases s.len(),
{
    if s.len() > 0 && !is_space(s[0]) {
        lemma_word_len(s.skip(1));
        assert forall|j: int| 0 <= j < word_len(s) implies !is_space(#[trigger] s[j]) by {
            if j > 0 {
                assert(s[j] == s.skip(1)[j - 1]);
            }
        }
    }
}

proof fn lemma_word_len_is(s: Seq<char>, k: int)
    requires
        0 <= k <= s.len(),
        forall|j: int| 0 <= j < k ==> !is_space(s[j]),
        k < s.len() ==> is_space(s[k]),
    ensures
        word_len(s) == k,
{
    lemma_word_len(s);
    if word_len(s) < k {
        assert(!is_space(s[word_len(s) as int]));
    }
    if word_len(s) > k {
        assert(!is_space(s[k]));
    }
}

/// `chars` without whitespace at either end: see [`trim`].
pub fn trim_chars(chars: &[char]) -> (part: Vec<char>)
    ensures
        part@ == trim(chars@),
{
    let mut start: usize = 0;
    while start < chars.len() && space(chars[start])
        invariant
            start <= chars@.len(),
            forall|j: int| 0 <= j < start ==> is_space(chars@[j]),
        decreases chars.len() - start,
    {
        start += 1;
    }
    proof {
        lemma_leading_spaces_is(chars@, start as int);
    }
    let ghost rest = chars@.skip(start as int);
    assert(chars@.subrange(start as int, chars@.len() as int) == rest);
    let mut end: usize = chars.len();
    while end > start && space(chars[end - 1])
        invariant
            start <= end <= chars@.len(),
            trim_end(rest) == trim_end(chars@.subrange(start as int, end as int)),
        decreases end,
    {
        let ghost seen = chars@.subrange(start as int, end as int);
        assert(seen.drop_last() == chars@.subrange(start as int, end - 1));
        assert(seen.last() == chars@[end - 1]);
        end -= 1;
    }
    proof {
        let seen = chars@.subrange(start as int, end as int);
        if end > start {
            assert(seen.last() == chars@[end - 1]);
        }
    }
    slice_chars(chars, start, end)
}

/// `s` without whitespace at either end: see [`trim`].
pub fn trim_text(s: &str) -> (part: String)
    ensures
        part@ == trim(s@),
{
    let chars = to_chars(s);
    let part = trim_chars(chars.as_slice());
    from_chars(part.as_slice())
}

/// Splits at whitespace: see [`words`].
pub fn split_words(chars: &[char]) -> (parts: Vec<Vec<char>>)
    ensures
        char_views(parts@) == words(chars@),
{
    let mut parts: Vec<Vec<char>> = Vec::new();
    let mut i: usize = 0;
    assert(chars@.skip(0) == chars@);
    while i < chars.len()
        invariant
            i <= chars@.len(),
            words(chars@) == char_views(parts@) + words(chars@.skip(i as int)),
        decreases chars.len() - i,
    {
        let ghost rest = chars@.skip(i as int);
        let mut start: usize = i;
        while start < chars.len() && space(chars[start])
            invariant
                i <= start <= chars@.len(),
                forall|j: int| i <= j < start ==> is_space(chars@[j]),
            decreases chars.len() - start,
        {
            start += 1;
        }
        proof {
            lemma_leading_spaces_is(rest, start - i);
        }
        if start == chars.len() {
            assert(words(rest) == Seq::<Seq<char>>::empty());
            assert(char_views(parts@) + words(rest) == char_views(parts@));
            return parts;
        }
        let ghost tail = rest.skip(start - i);
        assert(tail == chars@.skip(start as int));
        let mut end: usize = start;
        while end < chars.len() && !space(chars[end])
            invariant
                start <= end <= chars@.len(),
                forall|j: int| start <= j < end ==> !is_space(chars@[j]),
            decreases chars.len() - end,
        {
            end += 1;
        }
        proof {
            lemma_word_len_is(tail, end - start);
            assert(tail[0] == chars@[start as int]);
            lemma_word_len(tail);
        }
        let part = slice_chars(chars, start, end);
        let ghost before = parts@;
        proof {
            assert(tail.take(end - start) == part@);
            assert(tail.skip(end - start) == chars@.skip(end as int));
            assert(words(rest) == seq![part@] + words(chars@.skip(end as int)));
        }
        parts.push(part);
        proof {
            assert(char_views(parts@) == char_views(before).push(part@));
            assert(words(chars@) == char_views(parts@) + words(chars@.skip(end as int)));
        }
        i = end;
    }
    assert(words(chars@.skip(i as int)) == Seq::<Seq<char>>::empty());
    assert(char_views(parts@) + words(chars@.skip(i as int)) == char_views(parts@));
    parts
}

proof fn lemma_trim_end_of(s: Seq<char>, b: Seq<char>)
    requires
        s.len() > 0 ==> !is_space(s.last()),
        forall|i: int| 0 <= i < b.len() ==> is_space(#[trigger] b[i]),
    ensures
        trim_end(s + b) == s,
    decreases b.len(),
{
    if b.len() == 0 {
        assert(s + b == s);
    } else {
        assert((s + b).last() == b.last());
        assert((s + b).drop_last() == s + b.drop_last());
        lemma_trim_end_of(s, b.drop_last());
    }
}

/// Whitespace around a text is taken away, all of it and nothing else.
pub proof fn law_trimming_takes_the_ends(a: Seq<char>, s: Seq<char>, b: Seq<char>)
    requires
        forall|i: int| 0 <= i < a.len() ==> is_space(#[trigger] a[i]),
        forall|i: int| 0 <= i < b.len() ==> is_space(#[trigger] b[i]),
        s.len() > 0 ==> !is_space(s[0]) && !is_space(s.last()),
    ensures
        trim(a + s + b) == s,
{
    let whole = a + s + b;
    if s.len() == 0 {
        assert forall|j: int| 0 <= j < whole.len() implies is_space(whole[j]) by {
            if j < a.len() {
                assert(whole[j] == a[j]);
            } else {
                assert(whole[j] == b[j - a.len()]);
            }
        }
        lemma_leading_spaces_is(whole, whole.len() as int);
        assert(whole.skip(whole.len() as int) == s);
    } else {
        let n = a.len() as int;
        assert forall|j: int| 0 <= j < n implies is_space(whole[j]) by {
            assert(whole[j] == a[j]);
        }
        assert(whole[n] == s[0]);
        lemma_leading_spaces_is(whole, n);
        assert(whole.skip(n) == s + b);
        lemma_trim_end_of(s, b);
    }
}

/// A number is written in decimal digits, with a plus sign before them or not, and is read by its
/// digits, whatever zeros stand before them.
pub proof fn law_numbers_are_digits(s: Seq<char>, max: nat, i: int)
    ensures
        unsigned_value(s, max) matches Some(n) ==> n <= max && s.len() > 0 && (0 <= i < s.len()
            ==> ('0' <= s[i] <= '9' || (i == 0 && s[i] == '+'))),
        s.len() > 0 && s[0] != '+' ==> unsigned_value(seq!['+'] + s, max) == unsigned_value(s, max),
        s.len() > 0 && all_digits(s) ==> unsigned_value(seq!['0'] + s, max) == unsigned_value(
            s,
            max,
        ),
        unsigned_value(s, max) matches Some(n) ==> forall|d: nat|
            d < 10 && n * 10 + d <= max ==> #[trigger] unsigned_value(s.push(digit_char(d)), max)
                == Some(n * 10 + d),
{
    assert((seq!['+'] + s).skip(1) == s);
    if unsigned_value(s, max) is Some {
        let signed = s.len() > 0 && s[0] == '+';
        let digits = if signed {
            s.skip(1)
        } else {
            s
        };
        if 0 <= i < s.len() {
            if signed && i > 0 {
                assert(digits[i - 1] == s[i]);
                assert(is_digit(digits[i - 1]));
            } else if !signed {
                assert(is_digit(digits[i]));
            }
        }
        let n = digits_value(digits);
        assert forall|d: nat| d < 10 && n * 10 + d <= max implies #[trigger] unsigned_value(
            s.push(digit_char(d)),
            max,
        ) == Some(n * 10 + d) by {
            let c = digit_char(d);
            let longer = s.push(c);
            assert(is_digit(c));
            if signed {
                assert(longer.skip(1) == digits.push(c));
            }
            let grown = digits.push(c);
            assert(grown.drop_last() == digits);
            assert forall|j: int| 0 <= j < grown.len() implies is_digit(#[trigger] grown[j]) by {
                if j < digits.len() {
                    assert(grown[j] == digits[j]);
                }
            }
            assert(longer[0] == s[0]);
        }
    }
    if s.len() > 0 && all_digits(s) {
        let longer = seq!['0'] + s;
        assert(is_digit(s[0]));
        assert forall|j: int| 0 <= j < longer.len() implies is_digit(#[trigger] longer[j]) by {
            if j > 0 {
                assert(longer[j] == s[j - 1]);
            }
        }
        lemma_zero_in_front(s);
    }
}

proof fn lemma_zero_in_front(s: Seq<char>)
    ensures
        digits_value(seq!['0'] + s) == digits_value(s),
    decreases s.len(),
{
    let longer = seq!['0'] + s;
    if s.len() == 0 {
        assert(longer.drop_last() == Seq::<char>::empty());
        assert(digits_value(longer.drop_last()) == 0);
        assert(longer.last() == '0');
    } else {
        lemma_zero_in_front(s.drop_last());
        assert(longer.drop_last() == seq!['0'] + s.drop_last());
        assert(longer.last() == s.last());
    }
}

/// Parts that do not hold the separator come out again when the text that they are joined to is
/// split.
pub proof fn law_joined_parts_split_again(parts: Seq<Seq<char>>, c: char)
    requires
        parts.len() > 0,
        forall|i: int, j: int|
            0 <= i < parts.len() && 0 <= j < parts[i].len() ==> #[trigger] parts[i][j] != c,
    ensures
        split(join(parts, c), c) == parts,
    decreases parts.len(),
{
    let first = parts[0];
    let k = first.len() as int;
    let whole = join(parts, c);
    if parts.len() == 1 {
        lemma_find_is(whole, c, k);
        assert(split(whole, c) == parts);
    } else {
        let rest = parts.skip(1);
        assert forall|i: int, j: int|
            0 <= i < rest.len() && 0 <= j < rest[i].len() implies #[trigger] rest[i][j] != c by {
            assert(rest[i] == parts[i + 1]);
            assert(parts[i + 1][j] != c);
        }
        law_joined_parts_split_again(rest, c);
        assert forall|j: int| 0 <= j < k implies whole[j] != c by {
            assert(whole[j] == first[j]);
        }
        assert(whole[k] == c);
        lemma_find_is(whole, c, k);
        assert(whole.take(k) == first);
        assert(whole.skip(k + 1) == join(rest, c));
        assert(seq![first] + rest == parts);
    }
}

/// Why a text is no number: because it is empty, because its digits write too much, or because it
/// begins with something else than a digit or a sign.
pub proof fn law_faults_of_numbers(s: Seq<char>, max: nat)
    requires
        unsigned_value(s, max) is None,
    ensures
        number_error(s, max) is Empty <==> s.len() == 0,
        s.len() > 0 && all_digits(s) ==> number_error(s, max) is TooLarge,
        s.len() > 0 && s[0] != '+' && !is_digit(s[0]) ==> number_error(s, max) is InvalidDigit,
        s == seq!['+'] ==> number_error(s, max) is InvalidDigit,
{
    if s.len() > 0 && all_digits(s) {
        assert(is_digit(s[0]));
        lemma_digit_run_is(s, s.len() as int);
        assert(s.take(s.len() as int) == s);
    }
    if s.len() > 0 && s[0] != '+' && !is_digit(s[0]) {
        assert(s.take(0) == Seq::<char>::empty());
    }
    if s == seq!['+'] {
        let rest = s.skip(1);
        assert(rest.take(digit_run(rest) as int) == Seq::<char>::empty());
    }
}

/// Views hold the texts in their order.
pub proof fn law_views_keep_the_order(texts: Seq<String>, parts: Seq<Vec<char>>, i: int)
    ensures
        text_views(texts).len() == texts.len(),
        0 <= i < texts.len() ==> text_views(texts)[i] == texts[i]@,
        char_views(parts).len() == parts.len(),
        0 <= i < parts.len() ==> char_views(parts)[i] == parts[i]@,
{
}

/// Of the characters of ASCII, whitespace is the space, the tab, the line feed, the vertical tab,
/// the form feed and the carriage return.
pub proof fn law_whitespace_of_ascii(c: char)
    requires
        c <= '\u{7f}',
    ensures
        is_space(c) <==> c == ' ' || c == '\t' || c == '\n' || c == '\u{b}' || c == '\u{c}' || c
            == '\r',
{
}

} // verus!
