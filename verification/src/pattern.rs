//! The regular expressions that definitions are held to.

use vstd::prelude::*;

verus! {

/// A lower-case letter or a digit.
pub open spec fn lower_alphanumeric(c: char) -> bool {
    'a' <= c <= 'z' || '0' <= c <= '9'
}

/// A DNS label of one to 63 characters: lower-case letters, digits and hyphens,
/// with no hyphen at either end.
pub open spec fn dns_label(s: Seq<char>) -> bool {
    &&& 1 <= s.len() <= 63
    &&& lower_alphanumeric(s[0])
    &&& lower_alphanumeric(s.last())
    &&& forall|i: int| 0 <= i < s.len() ==> lower_alphanumeric(#[trigger] s[i]) || s[i] == '-'
}

/// `Regex::is_match`, for the expression of a DNS label.
#[verifier::external_body]
pub(crate) fn is_match(pattern: &str, text: &str) -> (r: bool)
    requires
        pattern@ == "^[a-z0-9]([a-z0-9-]{0,61}[a-z0-9])?$"@,
    ensures
        r == dns_label(text@),
{
    regex::Regex::new(pattern).unwrap().is_match(text)
}

/// The number of a memory limit: digits, perhaps a point, perhaps more digits.
pub open spec fn memory_number(s: Seq<char>) -> bool {
    ||| s.len() > 0 && crate::text::all_digits(s)
    ||| exists|i: int|
        0 < i < s.len() && #[trigger] s[i] == '.' && crate::text::all_digits(s.take(i)) && crate::text::all_digits(
            s.skip(i + 1),
        )
}

/// The unit of a memory limit.
pub open spec fn memory_unit(s: Seq<char>) -> bool {
    s == "K"@ || s == "Ki"@ || s == "M"@ || s == "Mi"@ || s == "G"@ || s == "Gi"@
}

/// The number of a network rate: digits, perhaps a point and more digits.
pub open spec fn rate_number(s: Seq<char>) -> bool {
    ||| s.len() > 0 && crate::text::all_digits(s)
    ||| exists|i: int|
        0 < i < s.len() - 1 && #[trigger] s[i] == '.' && crate::text::all_digits(s.take(i)) && crate::text::all_digits(
            s.skip(i + 1),
        )
}

/// The unit of a network rate.
pub open spec fn rate_unit(s: Seq<char>) -> bool {
    s == "Kbps"@ || s == "Mbps"@ || s == "Gbps"@
}

/// What the two groups of an expression capture in a text.
pub uninterp spec fn captured(pattern: Seq<char>, text: Seq<char>) -> Option<(Seq<char>, Seq<char>)>;

/// Both characters of the text and the split are as the expression asks, where
/// the digits are the ten of ASCII.
pub open spec fn captures_amount(
    text: Seq<char>,
    found: Option<(Seq<char>, Seq<char>)>,
    number: spec_fn(Seq<char>) -> bool,
    unit: spec_fn(Seq<char>) -> bool,
) -> bool {
    match found {
        Some((n, u)) => {
            &&& text == n + u
            &&& unit(u)
            &&& vstd::utf8::is_ascii_chars(text) ==> number(n)
        },
        None => forall|i: int| 0 <= i <= text.len() && number(#[trigger] text.take(i)) ==> !unit(text.skip(i)),
    }
}

/// `Regex::captures`, for the expressions of a memory limit and of a network
/// rate: the texts of the two groups. Both expressions span the whole text. In
/// texts beyond ASCII the number may hold other Unicode digits.
#[verifier::external_body]
pub(crate) fn captures(pattern: &str, text: &str) -> (r: Option<(String, String)>)
    requires
        pattern@ == "^(\\d+\\.?\\d*)([KMG]i?)$"@ || pattern@ == "^(\\d+(?:\\.\\d+)?)(Kbps|Mbps|Gbps)$"@,
    ensures
        captured(pattern@, text@) == (match r {
            Some(c) => Some((c.0@, c.1@)),
            None => None,
        }),
        pattern@ == "^(\\d+\\.?\\d*)([KMG]i?)$"@ ==> captures_amount(
            text@,
            (match r {
                Some(c) => Some((c.0@, c.1@)),
                None => None,
            }),
            |s: Seq<char>| memory_number(s),
            |s: Seq<char>| memory_unit(s),
        ),
        pattern@ == "^(\\d+(?:\\.\\d+)?)(Kbps|Mbps|Gbps)$"@ ==> captures_amount(
            text@,
            (match r {
                Some(c) => Some((c.0@, c.1@)),
                None => None,
            }),
            |s: Seq<char>| rate_number(s),
            |s: Seq<char>| rate_unit(s),
        ),
{
    regex::Regex::new(pattern).unwrap().captures(text).map(|c| (c[1].to_string(), c[2].to_string()))
}

} // verus!
