//! The errors that the library reports.

use vstd::prelude::*;
use vstd::string::StringExecFns;

verus! {

/// The error of `semver::VersionReq::parse`.
#[verifier::external_type_specification]
#[verifier::external_body]
pub struct ExReqParseError(semver::ReqParseError);

/// The error of `semver::Version::parse`.
#[verifier::external_type_specification]
#[verifier::external_body]
pub struct ExSemVerError(semver::SemVerError);

/// The error of `glob::Pattern::new`.
#[verifier::external_type_specification]
#[verifier::external_body]
pub struct ExPatternError(glob::PatternError);

/// The error of parsing a document with `toml_edit`.
#[verifier::external_type_specification]
#[verifier::external_body]
pub struct ExTomlError(toml_edit::TomlError);

/// What can go wrong while planning, rewriting or publishing.
#[derive(Debug)]
pub enum Error {
    /// A package's manifest lies outside the workspace root.
    PackageNotInWorkspace { id: String, ws: String },
    /// A package that was asked for is not in the workspace.
    PackageNotFound { id: String },
    /// The workspace has no package to work on.
    EmptyWorkspace,
    /// A package's manifest has no parent directory.
    ManifestHasNoParent(String),
    /// A package could not be published.
    Publish(String),
    /// The lock file could not be brought up to date.
    Update,
    /// The named value lacks the placeholder `%n`.
    MustContainPercentN(String),
    /// A new package could not be created.
    Create,
    /// The path of a new package is excluded from the workspace.
    InWorkspaceExclude(String),
    /// The workspace already has a package of that name.
    DuplicatePackageName,
    /// A child command ended unsuccessfully.
    Bail,
    /// The owners of a package could not be changed.
    Owner(String),
    /// Nothing changed, and the caller asked for that to be an error.
    NoChanges,
    /// The working directory is not in a git repository.
    NotGit,
    /// The repository has no commit.
    NoCommits,
    /// No branch is checked out.
    NotBranch,
    /// The remote, or the branch on it, does not exist.
    NoRemote { remote: String, branch: String },
    /// The local branch is behind its upstream.
    BehindRemote { upstream: String, branch: String },
    /// The branch does not match the pattern of allowed branches.
    BranchNotAllowed { branch: String, pattern: String },
    /// Files could not be staged.
    NotAdded(String, String),
    /// The commit could not be made.
    NotCommitted(String, String),
    /// The tag could not be made.
    NotTagged(String, String, String),
    /// The push was rejected.
    NotPushed(String, String),
    /// The output of `cargo config get` has an unknown shape.
    BadConfigGetOutput(String),
    /// The registry did not show a published version in time.
    PublishTimeout,
    /// An identifier of a version has too many hyphens to be read.
    TooManyHyphens(String),
    /// A requirement holds a number that is too large to be read or to be
    /// raised by one.
    NumberTooLarge(String),
    /// A glob pattern is too long to be tried.
    PatternTooLong(String),
    /// The manifest of the workspace root has not the shape of one.
    WorkspaceBadFormat(String),
    /// A text is not a version.
    Version(semver::SemVerError),
    /// A text is not a version requirement.
    Semver(semver::ReqParseError),
    /// A text is not a glob pattern.
    GlobPattern(glob::PatternError),
    /// A text is not a TOML document.
    Toml(toml_edit::TomlError),
}

impl Error {
    /// The text of the error, where nothing outside the library is needed
    /// to say it; `None` for an error that wraps one of another crate.
    pub open spec fn text(&self) -> Option<Seq<char>> {
        match self {
            Error::PackageNotInWorkspace { id, ws } => Some(
                "package "@ + id@ + " is not inside workspace "@ + ws@,
            ),
            Error::PackageNotFound { id } => Some("unable to find package "@ + id@),
            Error::EmptyWorkspace => Some("did not find any package"@),
            Error::ManifestHasNoParent(name) => Some(
                "package "@ + name@ + "'s manifest has no parent directory"@,
            ),
            Error::Publish(name) => Some("unable to publish package "@ + name@),
            Error::Update => Some("unable to update Cargo.lock"@),
            Error::MustContainPercentN(value) => Some(value@ + " value must contain '%n'"@),
            Error::Create => Some("unable to create crate"@),
            Error::InWorkspaceExclude(path) => Some(
                "path for crate is in workspace.exclude list ("@ + path@ + ")"@,
            ),
            Error::DuplicatePackageName => Some(
                "the workspace already contains a package with this name"@,
            ),
            Error::Bail => Some("child command failed to exit successfully"@),
            Error::Owner(name) => Some("unable to change owners of package "@ + name@),
            Error::NoChanges => Some("no changes detected"@),
            Error::NotGit => Some("not a git repository"@),
            Error::NoCommits => Some("no commits in this repository"@),
            Error::NotBranch => Some("not on a git branch"@),
            Error::NoRemote { remote, branch } => Some(
                "remote "@ + remote@ + " not found or branch "@ + branch@ + " not in "@ + remote@,
            ),
            Error::BehindRemote { upstream, branch } => Some(
                "local branch "@ + branch@ + " is behind upstream "@ + upstream@,
            ),
            Error::BranchNotAllowed { branch, pattern } => Some(
                "not allowed to run on branch "@ + branch@ + " because it doesn't match pattern "@
                    + pattern@,
            ),
            Error::NotAdded(out, err) => Some(
                "unable to add files to git index, out = "@ + out@ + ", err = "@ + err@,
            ),
            Error::NotCommitted(out, err) => Some(
                "unable to commit to git, out = "@ + out@ + ", err = "@ + err@,
            ),
            Error::NotTagged(tag, out, err) => Some(
                "unable to tag "@ + tag@ + ", out = "@ + out@ + ", err = "@ + err@,
            ),
            Error::NotPushed(out, err) => Some(
                "unable to push to remote, out = "@ + out@ + ", err = "@ + err@,
            ),
            Error::BadConfigGetOutput(out) => Some(
                "could not understand 'cargo config get' output: "@ + out@,
            ),
            Error::PublishTimeout => Some(
                "timed out waiting for the registry to show the published version"@,
            ),
            Error::TooManyHyphens(text) => Some("too many hyphens in the version "@ + text@),
            Error::NumberTooLarge(req) => Some("a number is too large in the requirement "@ + req@),
            Error::PatternTooLong(pattern) => Some("the pattern is too long: "@ + pattern@),
            Error::WorkspaceBadFormat(what) => Some(
                "the workspace manifest has bad format: "@ + what@,
            ),
            Error::Version(_) => None,
            Error::Semver(_) => None,
            Error::GlobPattern(_) => None,
            Error::Toml(_) => None,
        }
    }

    /// What the error says of itself where nothing outside the library is
    /// needed to say it; `None` for an error that wraps one of another
    /// crate.
    pub fn message(&self) -> (r: Option<String>)
        ensures
            match r {
                Some(text) => self.text() == Some(text@),
                None => self.text() is None,
            },
            r is None <==> (self is Version || self is Semver || self is GlobPattern
                || self is Toml),
    {
        let text = match self {
            Error::PackageNotInWorkspace { id, ws } => pair(
                "package ",
                id,
                " is not inside workspace ",
                ws,
            ),
            Error::PackageNotFound { id } => one("unable to find package ", id),
            Error::EmptyWorkspace => "did not find any package".to_string(),
            Error::ManifestHasNoParent(name) => two(
                "package ",
                name,
                "'s manifest has no parent directory",
            ),
            Error::Publish(name) => one("unable to publish package ", name),
            Error::Update => "unable to update Cargo.lock".to_string(),
            Error::MustContainPercentN(value) => {
                let mut out = value.clone();
                out.append(" value must contain '%n'");
                out
            },
            Error::Create => "unable to create crate".to_string(),
            Error::InWorkspaceExclude(path) => two(
                "path for crate is in workspace.exclude list (",
                path,
                ")",
            ),
            Error::DuplicatePackageName => {
                "the workspace already contains a package with this name".to_string()
            },
            Error::Bail => "child command failed to exit successfully".to_string(),
            Error::Owner(name) => one("unable to change owners of package ", name),
            Error::NoChanges => "no changes detected".to_string(),
            Error::NotGit => "not a git repository".to_string(),
            Error::NoCommits => "no commits in this repository".to_string(),
            Error::NotBranch => "not on a git branch".to_string(),
            Error::NoRemote { remote, branch } => {
                let mut out = three("remote ", remote, " not found or branch ", branch, " not in ");
                out.append(remote.as_str());
                out
            },
            Error::BehindRemote { upstream, branch } => pair(
                "local branch ",
                branch,
                " is behind upstream ",
                upstream,
            ),
            Error::BranchNotAllowed { branch, pattern } => pair(
                "not allowed to run on branch ",
                branch,
                " because it doesn't match pattern ",
                pattern,
            ),
            Error::NotAdded(out, err) => pair(
                "unable to add files to git index, out = ",
                out,
                ", err = ",
                err,
            ),
            Error::NotCommitted(out, err) => pair(
                "unable to commit to git, out = ",
                out,
                ", err = ",
                err,
            ),
            Error::NotTagged(tag, out, err) => {
                let mut text = three("unable to tag ", tag, ", out = ", out, ", err = ");
                text.append(err.as_str());
                text
            },
            Error::NotPushed(out, err) => pair(
                "unable to push to remote, out = ",
                out,
                ", err = ",
                err,
            ),
            Error::BadConfigGetOutput(out) => one(
                "could not understand 'cargo config get' output: ",
                out,
            ),
            Error::PublishTimeout => {
                "timed out waiting for the registry to show the published version".to_string()
            },
            Error::TooManyHyphens(text) => one("too many hyphens in the version ", text),
            Error::NumberTooLarge(req) => one("a number is too large in the requirement ", req),
            Error::PatternTooLong(pattern) => one("the pattern is too long: ", pattern),
            Error::WorkspaceBadFormat(what) => one("the workspace manifest has bad format: ", what),
            Error::Version(_) => {
                return None;
            },
            Error::Semver(_) => {
                return None;
            },
            Error::GlobPattern(_) => {
                return None;
            },
            Error::Toml(_) => {
                return None;
            },
        };
        Some(text)
    }
}

/// `before` and `text`, one after the other.
fn one(before: &str, text: &String) -> (r: String)
    ensures
        r@ == before@ + text@,
{
    let mut out = before.to_string();
    out.append(text.as_str());
    out
}

/// `a`, `first`, `b` and `second`, one after the other.
fn pair(a: &str, first: &String, b: &str, second: &String) -> (r: String)
    ensures
        r@ == a@ + first@ + b@ + second@,
{
    let mut out = a.to_string();
    out.append(first.as_str());
    out.append(b);
    out.append(second.as_str());
    out
}

/// `before`, `text` and `after`, one after the other.
fn two(before: &str, text: &String, after: &str) -> (r: String)
    ensures
        r@ == before@ + text@ + after@,
{
    let mut out = before.to_string();
    out.append(text.as_str());
    out.append(after);
    out
}

/// `a`, `first`, `b`, `second` and `c`, one after the other.
fn three(a: &str, first: &String, b: &str, second: &String, c: &str) -> (r: String)
    ensures
        r@ == a@ + first@ + b@ + second@ + c@,
{
    let mut out = a.to_string();
    out.append(first.as_str());
    out.append(b);
    out.append(second.as_str());
    out.append(c);
    out
}

/// The library's result type.
pub type Result<T> = core::result::Result<T, Error>;

/// Whether to report what is being done in detail.
#[derive(Debug, Clone, Copy, Default)]
pub struct Verbosity {
    pub debug: bool,
}

/// Whether detailed reports are switched on.
pub fn get_debug(verbosity: &Verbosity) -> (r: bool)
    ensures
        r == verbosity.debug,
{
    verbosity.debug
}

/// Switches detailed reports on.
pub fn set_debug(verbosity: &mut Verbosity)
    ensures
        final(verbosity).debug,
{
    verbosity.debug = true;
}

/// Checks that `value` holds the placeholder `%n`.
pub fn validate_value_containing_name(value: &str) -> (r: core::result::Result<(), String>)
    ensures
        match r {
            Ok(_) => crate::text::contains(value@, "%n"@),
            Err(message) => !crate::text::contains(value@, "%n"@) && message@
                == "must contain '%n'\n"@,
        },
{
    if !crate::text::str_contains(value, "%n") {
        return Err("must contain '%n'\n".to_string());
    }
    Ok(())
}

} // verus!
