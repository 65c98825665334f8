//! Error taxonomy of the loader and the bring-up driver.

use vstd::prelude::*;

verus! {

/// A failure while enumerating or resolving one dependency.
///
/// Enumeration aggregates these instead of failing fast, so a caller sees
/// every unresolved name of a load in one report.
#[derive(Debug, Clone, PartialEq, Eq)]
pub enum DependencyError {
    /// The image's dynamic section or its string table is absent or corrupt,
    /// or the dependency graph is not well formed.
    MalformedImage,
    /// The named dependency could not be resolved to a backing.
    UnresolvedName(String),
}

/// A failure of a whole compartment load.
#[derive(Debug, Clone, PartialEq, Eq)]
pub enum LoadError {
    /// One or more dependencies failed; all of them are reported.
    Dependency(Vec<DependencyError>),
    /// An unresolved symbol reference was found while binding the closure.
    Relocation,
    /// The runtime entry point of a compartment could not be resolved.
    MissingEntry,
    /// A compartment with the requested name already exists.
    DuplicateCompartment,
}

/// A failure while starting the compartments of a load.
#[derive(Debug, Clone, PartialEq, Eq)]
pub struct StartError {
    /// The security-context id of the compartment that failed to start.
    pub sctx_id: u128,
}

impl DependencyError {
    /// A short human-readable description.
    pub fn as_str(&self) -> &'static str {
        match self {
            DependencyError::MalformedImage => "malformed image",
            DependencyError::UnresolvedName(_) => "unresolved dependency name",
        }
    }
}

impl LoadError {
    /// A short human-readable description.
    pub fn as_str(&self) -> &'static str {
        match self {
            LoadError::Dependency(_) => "dependency resolution failed",
            LoadError::Relocation => "relocation failed",
            LoadError::MissingEntry => "missing entry point",
            LoadError::DuplicateCompartment => "duplicate compartment name",
        }
    }
}

} // verus!
