//! Reading the latest release tag out of the release server's answer.
use vstd::prelude::*;

verus! {

/// What `serde_json` makes of a release listing: `Err` when the text is not
/// JSON; otherwise the `tag_name` string of its first element, if there is
/// one.
pub uninterp spec fn listed_tag(json: Seq<char>) -> Result<Option<Seq<char>>, ()>;

/// Parses the release listing with `serde_json::from_str` into a
/// `serde_json::Value` and reads `[0]["tag_name"]` as a string. Claimed:
/// the result is `listed_tag` of the text; nothing more is stated of it.
#[verifier::external_body]
fn parse_release_listing(json: &str) -> (r: Result<Option<String>, ()>)
    ensures
        match r {
            Ok(Some(t)) => listed_tag(json@) == Ok::<Option<Seq<char>>, ()>(Some(t@)),
            Ok(None) => listed_tag(json@) == Ok::<Option<Seq<char>>, ()>(None),
            Err(_) => listed_tag(json@) is Err,
        },
{
    match serde_json::from_str::<serde_json::Value>(json) {
        Ok(v) => Ok(v.get(0).and_then(|r| r.get("tag_name")).and_then(|t| t.as_str()).map(|t| t.to_string())),
        Err(_) => Err(()),
    }
}

/// Why the latest release could not be read from the server's answer.
#[derive(Debug, Clone, Copy, PartialEq, Eq, Structural)]
pub enum ReleaseError {
    /// The answer is not JSON.
    Unparsable,
    /// The answer names no release with a tag.
    NoTagName,
}

impl ReleaseError {
    /// What the error says.
    pub fn message(&self) -> (r: &'static str)
        ensures
            r@ == match *self {
                ReleaseError::Unparsable => "Failed to parse release API response"@,
                ReleaseError::NoTagName => "Could not extract tag_name from release"@,
            },
    {
        match self {
            ReleaseError::Unparsable => "Failed to parse release API response",
            ReleaseError::NoTagName => "Could not extract tag_name from release",
        }
    }
}

/// The tag of the latest release, read from the release server's answer to
/// the latest-release query.
pub fn latest_tag_in(json: &str) -> (r: Result<String, ReleaseError>)
    ensures
        match listed_tag(json@) {
            Ok(Some(t)) => r matches Ok(s) && s@ == t,
            Ok(None) => r == Err::<String, ReleaseError>(ReleaseError::NoTagName),
            Err(_) => r == Err::<String, ReleaseError>(ReleaseError::Unparsable),
        },
{
    match parse_release_listing(json) {
        Ok(Some(t)) => Ok(t),
        Ok(None) => Err(ReleaseError::NoTagName),
        Err(_) => Err(ReleaseError::Unparsable),
    }
}

} // verus!
