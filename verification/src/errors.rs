//! The error kinds that any stage of a bump or publish run can surface.

use vstd::prelude::*;

verus! {

/// Everything that can go wrong during resolution, patching or publishing.
/// All of these abort the run; none is retried.
#[derive(Debug)]
pub enum Error {
    /// The named package is not a publishable member of the workspace.
    WorkspaceNotFound(String),
    /// A published version could not be obtained for the named package.
    RegistryLookupFailed(String),
    /// An interactive prompt answer had the wrong shape for the question.
    InteractivePromptProtocolError,
    /// A manifest could not be parsed as a structured document.
    ManifestParseError(String),
    /// A dependency entry that must be rewritten has an unsupported shape.
    ManifestStructuralError(String),
    /// The dependency graph of the workspace is not acyclic.
    CycleDetected,
    /// The target package's local version is not ahead of the registry.
    AlreadyPublished(String),
    /// An external publish or commit subprocess failed.
    SubprocessFailed,
}

/// The text [`Error::describe`] renders: a fixed phrase per kind, with the
/// offending name or detail appended where one is carried.
pub open spec fn error_text(e: Error) -> Seq<char> {
    match e {
        Error::WorkspaceNotFound(name) => "package is not a publishable workspace member: "@
            + name@,
        Error::RegistryLookupFailed(name) => "failed to get a published version: "@ + name@,
        Error::InteractivePromptProtocolError => "unexpected answer shape from the interactive prompt"@,
        Error::ManifestParseError(detail) => "manifest is not valid toml: "@ + detail@,
        Error::ManifestStructuralError(name) => "unsupported shape for dependency entry: "@
            + name@,
        Error::CycleDetected => "circular dependency detected among workspace packages"@,
        Error::AlreadyPublished(name) => "local version is not ahead of the published one: "@
            + name@,
        Error::SubprocessFailed => "external subprocess failed"@,
    }
}

impl Error {
    /// A short human-readable description of the error.
    pub fn describe(&self) -> (r: String)
        ensures
            r@ == error_text(*self),
    {
        match self {
            Error::WorkspaceNotFound(name) => {
                let mut s = String::from_str("package is not a publishable workspace member: ");
                s.append(name.as_str());
                s
            },
            Error::RegistryLookupFailed(name) => {
                let mut s = String::from_str("failed to get a published version: ");
                s.append(name.as_str());
                s
            },
            Error::InteractivePromptProtocolError => {
                String::from_str("unexpected answer shape from the interactive prompt")
            },
            Error::ManifestParseError(detail) => {
                let mut s = String::from_str("manifest is not valid toml: ");
                s.append(detail.as_str());
                s
            },
            Error::ManifestStructuralError(name) => {
                let mut s = String::from_str("unsupported shape for dependency entry: ");
                s.append(name.as_str());
                s
            },
            Error::CycleDetected => {
                String::from_str("circular dependency detected among workspace packages")
            },
            Error::AlreadyPublished(name) => {
                let mut s = String::from_str("local version is not ahead of the published one: ");
                s.append(name.as_str());
                s
            },
            Error::SubprocessFailed => String::from_str("external subprocess failed"),
        }
    }
}

} // verus!
