//! What can go wrong in the library's own decisions.

use vstd::prelude::*;
use vstd::string::StringExecFns;

verus! {

/// A failure that the library reports.
#[derive(Debug)]
pub enum Error {
    /// No snapshot has been stored yet.
    NoSnapshot,
    /// The latest snapshot holds no pull request with this url.
    NotFound { url: String },
    /// A stored file is there but cannot be decoded.
    Corrupt,
    /// The configuration cannot be read; the default one is used in its
    /// place.
    ConfigInvalid,
    /// A search failed; `query` names it and `diagnostic` is what the search
    /// tool said.
    CollaboratorFailure { query: String, diagnostic: String },
    /// A note was to be cycled, but the configuration lists no annotations.
    NoAnnotations,
}

impl Error {
    /// The text of `message`.
    pub open spec fn message_spec(self) -> Seq<char> {
        match self {
            Error::NoSnapshot => "No pull requests stored yet"@,
            Error::NotFound { url } => "No PR found with URL: "@ + url@,
            Error::Corrupt => "Stored state cannot be decoded"@,
            Error::ConfigInvalid => "Failed to read config, using default"@,
            Error::CollaboratorFailure { query, diagnostic } => "gh command failed for query "@
                + query@ + ": "@ + diagnostic@,
            Error::NoAnnotations => "No annotations set in config"@,
        }
    }

    /// A sentence for the user.
    pub fn message(&self) -> (text: String)
        ensures
            text@ == self.message_spec(),
    {
        match self {
            Error::NoSnapshot => String::from_str("No pull requests stored yet"),
            Error::Corrupt => String::from_str("Stored state cannot be decoded"),
            Error::ConfigInvalid => String::from_str("Failed to read config, using default"),
            Error::NotFound { url } => {
                let mut text = String::from_str("No PR found with URL: ");
                text.append(url.as_str());
                text
            },
            Error::CollaboratorFailure { query, diagnostic } => {
                let mut text = String::from_str("gh command failed for query ");
                text.append(query.as_str());
                text.append(": ");
                text.append(diagnostic.as_str());
                text
            },
            Error::NoAnnotations => String::from_str("No annotations set in config"),
        }
    }
}

} // verus!
