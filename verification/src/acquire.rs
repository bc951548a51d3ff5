//! Acquisition planning: validates a repository locator and decides what the
//! acquisition step must do, so that the step itself stays a thin external
//! collaborator.

use vstd::prelude::*;

verus! {

/// The path segments of a locator: the segments of its URL path, or nothing
/// when the locator does not parse as a URL or its path has no segments.
pub uninterp spec fn url_path_segments(s: Seq<char>) -> Option<Seq<Seq<char>>>;

/// Relies on `url::Url::parse` and `url::Url::path_segments`: whether a
/// locator parses, and which path segments it carries, depend on the locator
/// text alone.
#[verifier::external_body]
fn parse_url_segments(locator: &str) -> (r: Option<Vec<String>>)
    ensures
        r is Some <==> url_path_segments(locator@) is Some,
        r matches Some(v) ==> url_path_segments(locator@) matches Some(ss) && v.deep_view() == ss,
{
    match url::Url::parse(locator) {
        Ok(u) => u.path_segments().map(|segs| segs.map(|s| s.to_string()).collect()),
        Err(_) => None,
    }
}

/// A locator that does not parse, or whose path does not name an author and
/// a repository.
#[derive(Debug)]
pub enum AcquireError {
    BadLocator,
}

/// Who owns the repository and what it is called, as the locator names them.
pub struct RepoIdentity {
    pub author: String,
    pub repo_name: String,
}

/// Reads the author and repository name out of a locator. Fails exactly when
/// the locator has no URL path segments or fewer than two.
pub fn repo_identity(locator: &str) -> (r: Result<RepoIdentity, AcquireError>)
    ensures
        r is Ok <==> (url_path_segments(locator@) matches Some(ss) && ss.len() >= 2),
        r matches Ok(id) ==> url_path_segments(locator@) matches Some(ss) && id.author@ == ss[0]
            && id.repo_name@ == ss[1],
{
    match parse_url_segments(locator) {
        Some(segments) => {
            if segments.len() >= 2 {
                let author = segments[0].clone();
                let repo_name = segments[1].clone();
                proof {
                    assert(segments.deep_view()[0] == segments@[0]@);
                    assert(segments.deep_view()[1] == segments@[1]@);
                }
                Ok(RepoIdentity { author, repo_name })
            } else {
                Err(AcquireError::BadLocator)
            }
        },
        None => Err(AcquireError::BadLocator),
    }
}

/// What the acquisition step must do for a local copy.
#[derive(PartialEq, Eq, Structural, Debug)]
pub enum CloneAction {
    UseExisting,
    RemoveThenClone,
    CloneFresh,
}

/// The acquisition decision: an existing copy is kept as success unless the
/// caller forces re-acquisition, which clears it first; otherwise a fresh
/// copy is fetched.
pub fn clone_action(force: bool, exists: bool) -> (a: CloneAction)
    ensures
        a == (if exists && !force {
            CloneAction::UseExisting
        } else if exists {
            CloneAction::RemoveThenClone
        } else {
            CloneAction::CloneFresh
        }),
{
    if exists && !force {
        CloneAction::UseExisting
    } else if exists {
        CloneAction::RemoveThenClone
    } else {
        CloneAction::CloneFresh
    }
}

} // verus!
