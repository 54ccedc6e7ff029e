//! Field validation shared by the registration and update paths.
//!
//! Pure predicates: each takes a field value and says whether it may be
//! stored. All checks run before any state mutation, so an operation
//! that rejects a field leaves every structure untouched.

use vstd::prelude::*;

verus! {

/// Longest accepted app name, in characters.
pub const MAX_NAME_LEN: usize = 100;

/// Longest accepted app description, in characters.
pub const MAX_DESCRIPTION_LEN: usize = 1000;

/// Most screenshot URLs an app record may hold.
pub const MAX_SCREENSHOTS: usize = 5;

/// An app name is non-empty and at most `MAX_NAME_LEN` characters.
pub open spec fn valid_name(s: Seq<char>) -> bool {
    0 < s.len() <= MAX_NAME_LEN
}

/// A description is non-empty and at most `MAX_DESCRIPTION_LEN` characters.
pub open spec fn valid_description(s: Seq<char>) -> bool {
    0 < s.len() <= MAX_DESCRIPTION_LEN
}

/// A URL field is merely non-empty; no format validation beyond that.
pub open spec fn valid_url(s: Seq<char>) -> bool {
    s.len() > 0
}

/// A screenshot list holds at most `MAX_SCREENSHOTS` entries; empty is fine.
pub open spec fn valid_screenshots(s: Seq<String>) -> bool {
    s.len() <= MAX_SCREENSHOTS
}

/// The recognized app categories, matched exactly and case-sensitively.
pub open spec fn recognized_category(s: Seq<char>) -> bool {
    ||| s == "DeFi"@
    ||| s == "NFT"@
    ||| s == "Gaming"@
    ||| s == "Social"@
    ||| s == "Utility"@
}

pub fn is_valid_name(s: &String) -> (r: bool)
    ensures
        r == valid_name(s@),
{
    let n = s.as_str().unicode_len();
    0 < n && n <= MAX_NAME_LEN
}

pub fn is_valid_description(s: &String) -> (r: bool)
    ensures
        r == valid_description(s@),
{
    let n = s.as_str().unicode_len();
    0 < n && n <= MAX_DESCRIPTION_LEN
}

pub fn is_valid_url(s: &String) -> (r: bool)
    ensures
        r == valid_url(s@),
{
    let n = s.as_str().unicode_len();
    n > 0
}

pub fn is_valid_screenshots(s: &Vec<String>) -> (r: bool)
    ensures
        r == valid_screenshots(s@),
{
    s.len() <= MAX_SCREENSHOTS
}

pub fn is_recognized_category(s: &String) -> (r: bool)
    ensures
        r == recognized_category(s@),
{
    let defi: String = String::from_str("DeFi");
    let nft: String = String::from_str("NFT");
    let gaming: String = String::from_str("Gaming");
    let social: String = String::from_str("Social");
    let utility: String = String::from_str("Utility");
    *s == defi || *s == nft || *s == gaming || *s == social || *s == utility
}

} // verus!
