//! Texts that other crates work out: URL templates and the domain of a
//! URL.

use crate::proxy_scrape::texts;
use vstd::prelude::*;
use vstd::string::*;

verus! {

/// The error of `strfmt`.
#[verifier::external_type_specification]
#[verifier::external_body]
pub struct ExFmtError(strfmt::FmtError);

/// The error of `url` for a text that is no URL.
#[verifier::external_type_specification]
#[verifier::external_body]
pub struct ExUrlParseError(url::ParseError);

/// What `strfmt::strfmt` makes of a template when each of `keys` stands for
/// the text at its place in `values`; `None` where it reports an error.
pub uninterp spec fn strfmt_result(
    template: Seq<char>,
    keys: Seq<Seq<char>>,
    values: Seq<Seq<char>>,
) -> Option<Seq<char>>;

/// The domain of a URL as `url::Url::parse` and `Url::domain` give it: the
/// outer `None` for a text that is no URL, the inner one for a URL without
/// a domain.
pub uninterp spec fn url_domain(url: Seq<char>) -> Option<Option<Seq<char>>>;

/// `strfmt::strfmt` on `template` with a map that holds, for each place of
/// `keys`, the key there with the value at the same place of `values`: the
/// formatted text or the crate's error, as `strfmt_result` names it.
#[verifier::external_body]
pub(crate) fn strfmt_pairs(template: &str, keys: &Vec<String>, values: &Vec<String>) -> (out: Result<
    String,
    strfmt::FmtError,
>)
    ensures
        out matches Ok(s) ==> strfmt_result(template@, texts(keys@), texts(values@)) == Some(s@),
        out is Err ==> strfmt_result(template@, texts(keys@), texts(values@)) is None,
{
    let vars: std::collections::HashMap<String, String> = keys.iter().cloned().zip(
        values.iter().cloned(),
    ).collect();
    strfmt::strfmt(template, &vars)
}

/// `url::Url::parse` and then `Url::domain`: the domain of the URL, if it
/// has one, or the crate's error for a text that is no URL, as `url_domain`
/// names it.
#[verifier::external_body]
pub(crate) fn domain_of_url(url: &str) -> (out: Result<Option<String>, url::ParseError>)
    ensures
        out is Err ==> url_domain(url@) is None,
        out matches Ok(None) ==> url_domain(url@) == Some(None::<Seq<char>>),
        out matches Ok(Some(d)) ==> url_domain(url@) == Some(Some(d@)),
{
    let parsed = url::Url::parse(url)?;
    Ok(parsed.domain().map(|d| d.to_string()))
}


/// The bytes that stay as they are in a percent-encoded text: letters,
/// digits, `-`, `.`, `_` and `~`.
pub open spec fn is_unreserved(b: u8) -> bool {
    (48 <= b <= 57) || (65 <= b <= 90) || (97 <= b <= 122) || b == 45 || b == 46 || b == 95 || b
        == 126
}

/// The upper-case hexadecimal digit of a number below 16.
pub open spec fn hex_digit(d: u8) -> char {
    if d < 10 {
        (48 + d) as char
    } else {
        (55 + d) as char
    }
}

/// A byte as it stands in a percent-encoded text.
pub open spec fn percent_encoded_byte(b: u8) -> Seq<char> {
    if is_unreserved(b) {
        seq![b as char]
    } else {
        seq!['%', hex_digit(b / 16), hex_digit(b % 16)]
    }
}

/// The percent-encoded text of a sequence of bytes.
pub open spec fn percent_encoded(bytes: Seq<u8>) -> Seq<char>
    decreases bytes.len(),
{
    if bytes.len() == 0 {
        Seq::empty()
    } else {
        percent_encoded(bytes.drop_last()) + percent_encoded_byte(bytes.last())
    }
}

/// What `str::trim` leaves of a text: the text without the white space at
/// its beginning and at its end.
pub uninterp spec fn trimmed(s: Seq<char>) -> Seq<char>;

/// `urlencoding::encode`: every byte of the text in UTF-8, except letters,
/// digits and `-`, `.`, `_`, `~`, is written as `%` and two upper-case
/// hexadecimal digits.
#[verifier::external_body]
pub(crate) fn urlencode(data: &str) -> (out: String)
    ensures
        out@ == percent_encoded(data.spec_bytes()),
{
    urlencoding::encode(data).into_owned()
}

/// `str::trim` of the standard library, as `trimmed` names it.
#[verifier::external_body]
pub(crate) fn trim_text(s: &str) -> (out: &str)
    ensures
        out@ == trimmed(s@),
{
    s.trim()
}

} // verus!
