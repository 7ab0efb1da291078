//! The ids of training runs.
use vstd::prelude::*;

verus! {

/// Whether a character is a hexadecimal digit.
pub open spec fn is_hex_digit(c: char) -> bool {
    '0' <= c <= '9' || 'a' <= c <= 'f' || 'A' <= c <= 'F'
}

/// Whether a text is made of five groups of hexadecimal digits with hyphens between them, as in
/// `67e55044-10b1-426f-9247-bb680e5fe0c8`.
pub open spec fn is_hyphenated(s: Seq<char>) -> bool {
    &&& s.len() == 36
    &&& forall|i: int|
        0 <= i < 36 ==> if i == 8 || i == 13 || i == 18 || i == 23 {
            #[trigger] s[i] == '-'
        } else {
            is_hex_digit(s[i])
        }
}

/// Whether a text is `urn:uuid:` in any case.
pub open spec fn is_urn_prefix(s: Seq<char>) -> bool {
    &&& s.len() == 9
    &&& s[0] == 'u' || s[0] == 'U'
    &&& s[1] == 'r' || s[1] == 'R'
    &&& s[2] == 'n' || s[2] == 'N'
    &&& s[3] == ':'
    &&& s[4] == 'u' || s[4] == 'U'
    &&& s[5] == 'u' || s[5] == 'U'
    &&& s[6] == 'i' || s[6] == 'I'
    &&& s[7] == 'd' || s[7] == 'D'
    &&& s[8] == ':'
}

/// Whether a text is a UUID: plain digits, hyphenated, hyphenated in braces, or as a URN.
pub open spec fn is_uuid(s: Seq<char>) -> bool {
    ||| s.len() == 32 && forall|i: int| 0 <= i < 32 ==> is_hex_digit(#[trigger] s[i])
    ||| is_hyphenated(s)
    ||| s.len() == 38 && s[0] == '{' && s[37] == '}' && is_hyphenated(s.subrange(1, 37))
    ||| s.len() == 45 && is_urn_prefix(s.take(9)) && is_hyphenated(s.skip(9))
}

/// Calls `uuid::Uuid::parse_str` and says whether it accepted the text. It accepts the four forms
/// of [`is_uuid`], told apart by their length, and nothing else.
#[verifier::external_body]
fn parses_as_uuid(s: &str) -> (yes: bool)
    ensures
        yes == is_uuid(s@),
{
    uuid::Uuid::parse_str(s).is_ok()
}

/// Whether a text is a random UUID as it is written out: hyphenated, in lower case, with the digits
/// that mark a random UUID in their places.
pub open spec fn is_random_uuid(s: Seq<char>) -> bool {
    &&& is_hyphenated(s)
    &&& forall|i: int| 0 <= i < 36 ==> !('A' <= #[trigger] s[i] <= 'F')
    &&& s[14] == '4'
    &&& s[19] == '8' || s[19] == '9' || s[19] == 'a' || s[19] == 'b'
}

/// Calls `uuid::Uuid::new_v4` and writes the id out with `to_string`. The digits come from chance,
/// all but those that tell the version and the variant; what is written is always hyphenated and
/// in lower case.
#[verifier::external_body]
fn new_uuid() -> (s: String)
    ensures
        is_random_uuid(s@),
{
    uuid::Uuid::new_v4().to_string()
}

/// A new id for a run.
pub fn new_run_id() -> (s: String)
    ensures
        is_random_uuid(s@),
        is_uuid(s@),
{
    new_uuid()
}

/// Whether a text can be the id of a run.
pub fn is_run_id(s: &str) -> (yes: bool)
    ensures
        yes == is_uuid(s@),
{
    parses_as_uuid(s)
}

/// The id of a run holds neither a slash nor a dot: it can stand in a file name and never leads
/// out of a directory.
pub proof fn law_run_ids_are_plain(s: Seq<char>, i: int)
    requires
        is_uuid(s),
        0 <= i < s.len(),
    ensures
        s[i] != '/',
        s[i] != '.',
{
    if s.len() == 38 {
        if 1 <= i < 37 {
            assert(s.subrange(1, 37)[i - 1] == s[i]);
        }
    } else if s.len() == 45 {
        if i < 9 {
            assert(s.take(9)[i] == s[i]);
        } else {
            assert(s.skip(9)[i - 9] == s[i]);
        }
    }
}

} // verus!
