//! The two commands' data and their pure decision helpers: which crates a
//! bump run starts from, which flags reach the resolver, and which files a
//! commit stages. Prompting, process spawning and file I/O stay with the
//! caller; the answers come back here as plain values.

use vstd::prelude::*;

use crate::errors::Error;

verus! {

/// A question for the operator.
pub enum PromptRequest {
    /// "Is this change to the named crate breaking?" — expects a yes/no.
    ConfirmBreaking(String),
    /// "Select dependants of the named crate to bump" — expects a sublist
    /// of the offered names.
    SelectDependants(String, Vec<String>),
    /// "Select crates to bump" — expects a sublist of the offered names.
    SelectCrates(Vec<String>),
}

/// The operator's structured answer.
pub enum PromptAnswer {
    /// A yes/no answer.
    Confirmed(bool),
    /// A list of selected names.
    Selected(Vec<String>),
}

/// Bump versions of a crate and of its dependant crates, against the
/// versions already published on the registry.
pub struct BumpCommand {
    /// Name of the crate to bump; when absent, the operator picks crates
    /// interactively.
    pub crate_name: Option<String>,
    /// Run in interactive mode.
    pub interactive: bool,
    /// The change is breaking.
    pub breaking: bool,
    /// Bump dependants and update their requirements (only meaningful when
    /// `breaking` is false).
    pub with_dependants: bool,
    /// Commit the touched manifests afterwards.
    pub git: bool,
}

/// Publishes a crate and its dependencies in dependency order.
pub struct PublishCommand {
    /// Name of the crate to publish.
    pub crate_name: String,
    /// Allow publishing only dependencies of the target.
    pub allow_only_deps: bool,
    /// Skip the pre-publish build and packaging checks.
    pub skip_build: bool,
}

impl BumpCommand {
    /// A crate prompt is needed only when no crate name was given.
    pub fn needs_crate_prompt(&self) -> (r: bool)
        ensures
            r == (self.crate_name is None),
    {
        match &self.crate_name {
            Some(_) => false,
            None => true,
        }
    }

    /// The breaking flag the non-interactive resolver sees; interactive runs
    /// let the operator's answers decide instead.
    pub fn effective_breaking(&self) -> (r: bool)
        ensures
            r == (!self.interactive && self.breaking),
    {
        !self.interactive && self.breaking
    }

    /// The dependants flag the non-interactive resolver sees.
    pub fn effective_with_dependants(&self) -> (r: bool)
        ensures
            r == (!self.interactive && self.with_dependants),
    {
        !self.interactive && self.with_dependants
    }

    /// The crates a bump run starts from: the named crate when one was
    /// given, otherwise the names the operator selected. A missing or
    /// wrongly shaped answer is a protocol error.
    pub fn crates_to_bump(&self, answer: Option<&PromptAnswer>) -> (r: Result<Vec<String>, Error>)
        ensures
            match r {
                Ok(names) => match self.crate_name {
                    Some(n) => names.deep_view() =~= seq![n@],
                    None => match answer {
                        Some(PromptAnswer::Selected(sel)) => names.deep_view() == sel.deep_view(),
                        _ => false,
                    },
                },
                Err(e) => {
                    &&& e is InteractivePromptProtocolError
                    &&& self.crate_name is None
                    &&& !(answer matches Some(PromptAnswer::Selected(_)))
                },
            },
    {
        match &self.crate_name {
            Some(n) => {
                let mut names: Vec<String> = Vec::new();
                names.push(n.clone());
                proof {
                    assert(names.deep_view() =~= seq![n@]);
                }
                Ok(names)
            },
            None => match answer {
                Some(PromptAnswer::Selected(sel)) => {
                    let mut names: Vec<String> = Vec::new();
                    let mut i: usize = 0;
                    while i < sel.len()
                        invariant
                            i <= sel.len(),
                            names@.len() == i,
                            forall|j: int| 0 <= j < i ==> (#[trigger] names@[j])@ == sel@[j]@,
                        decreases sel.len() - i,
                    {
                        names.push(sel[i].clone());
                        i = i + 1;
                    }
                    proof {
                        assert forall|j: int| 0 <= j < names@.len() implies names.deep_view()[j]
                            == sel.deep_view()[j] by {
                            assert(names.deep_view()[j] == names@[j]@);
                            assert(sel.deep_view()[j] == sel@[j]@);
                        }
                        assert(names.deep_view() =~= sel.deep_view());
                    }
                    Ok(names)
                },
                _ => Err(Error::InteractivePromptProtocolError),
            },
        }
    }
}

/// Whether a file found while staging a bump commit should be committed:
/// only manifests and lockfiles are.
pub fn wants_commit(file_name: &String) -> (r: bool)
    ensures
        r == (file_name@ == "Cargo.toml"@ || file_name@ == "Cargo.lock"@),
{
    let manifest = String::from_str("Cargo.toml");
    let lockfile = String::from_str("Cargo.lock");
    *file_name == manifest || *file_name == lockfile
}

} // verus!
