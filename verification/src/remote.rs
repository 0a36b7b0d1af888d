//! The address of the remote repository: a full address is kept, a bare user
//! name is completed to the user's `dotfiles` repository on GitHub.

use regex::Regex;
use vstd::prelude::*;
use vstd::string::*;

verus! {

/// The error of the `regex` crate, `regex::Error`, carried as it is:
/// nothing is said of what it holds.
#[verifier::external_type_specification]
#[verifier::external_body]
pub struct ExRegexError(regex::Error);

/// The pattern of a full address: one of the schemes `http://`, `https://`,
/// `git@`, `git://`, `ssh://`, `git+ssh://`, then a host, then a path.
pub const REMOTE_PATTERN: &'static str =
    "^(http://|https://|git@|git://|ssh://|git\\+ssh://)([^/]+)(/.*)$";

/// What precedes a user name in the completed address.
pub const HOSTED_PREFIX: &'static str = "https://github.com/";

/// What follows a user name in the completed address.
pub const HOSTED_SUFFIX: &'static str = "/dotfiles";

/// Whether the regular expression `pattern` matches somewhere in `text`, as
/// the `regex` crate decides it; `None` where `pattern` does not compile.
pub uninterp spec fn pattern_search(pattern: Seq<char>, text: Seq<char>) -> Option<bool>;

/// Why an address could not be normalised.
#[derive(Debug, Clone, Copy, PartialEq, Eq, Structural)]
pub enum RemoteError {
    /// The pattern of full addresses was refused by the matcher.
    BadPattern,
}

/// The address for `repository`, given whether it is a full address.
pub open spec fn normalized(repository: Seq<char>, is_url: bool) -> Seq<char> {
    if is_url {
        repository
    } else {
        HOSTED_PREFIX@ + repository + HOSTED_SUFFIX@
    }
}

/// Compiles `pattern` with `regex::Regex::new` and searches `text` with
/// `Regex::is_match` of the compiled expression. Not proved: that the answer
/// depends on `pattern` and `text` alone, which is what `pattern_search`
/// names, the error standing for a pattern that does not compile.
#[verifier::external_body]
fn search(pattern: &str, text: &str) -> (r: Result<bool, regex::Error>)
    ensures
        match r {
            Ok(found) => pattern_search(pattern@, text@) == Some(found),
            Err(_) => pattern_search(pattern@, text@).is_none(),
        },
{
    match Regex::new(pattern) {
        Ok(re) => Ok(re.is_match(text)),
        Err(e) => Err(e),
    }
}

/// Whether `repository` is a full address.
pub fn is_remote_url(repository: &str) -> (r: Result<bool, RemoteError>)
    ensures
        match r {
            Ok(found) => pattern_search(REMOTE_PATTERN@, repository@) == Some(found),
            Err(e) => e == RemoteError::BadPattern && pattern_search(
                REMOTE_PATTERN@,
                repository@,
            ).is_none(),
        },
{
    match search(REMOTE_PATTERN, repository) {
        Ok(found) => Ok(found),
        Err(_) => Err(RemoteError::BadPattern),
    }
}

/// The address for `repository`, given whether it is a full address: a full
/// address is returned as it is, anything else is taken as a user name.
pub fn normalize_with(repository: &str, is_url: bool) -> (r: String)
    ensures
        r@ == normalized(repository@, is_url),
{
    if is_url {
        String::from_str(repository)
    } else {
        let mut url = String::from_str(HOSTED_PREFIX);
        url.append(repository);
        url.append(HOSTED_SUFFIX);
        url
    }
}

/// The address for `repository`: unchanged where it is a full address, else
/// completed from the user name.
pub fn normalize_repository(repository: &str) -> (r: Result<String, RemoteError>)
    ensures
        match r {
            Ok(url) => match pattern_search(REMOTE_PATTERN@, repository@) {
                Some(found) => url@ == normalized(repository@, found),
                None => false,
            },
            Err(e) => e == RemoteError::BadPattern && pattern_search(
                REMOTE_PATTERN@,
                repository@,
            ).is_none(),
        },
{
    match is_remote_url(repository) {
        Ok(found) => Ok(normalize_with(repository, found)),
        Err(e) => Err(e),
    }
}

} // verus!
