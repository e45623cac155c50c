use vstd::prelude::*;
use vstd::string::StringExecFns;

verus! {

/// The error taxonomy of the library.
///
/// Lookup failures, parse failures, dependency conflicts and syscall
/// failures are kept apart so that a caller can react to each class.
/// Every variant carries a human-readable description of the package or
/// path involved.
#[derive(Debug)]
pub enum Error {
    /// A document (package manifest or repository index) is not valid.
    Parse(String),
    /// The named package has no entry in the installed set.
    NotInstalled(String),
    /// A targeted uninstall was refused: another installed package still
    /// depends on the target. Nothing was deleted.
    DependedUpon(String),
    /// The dependency resolver's output does not fit the installed set
    /// (a closure member is unknown, or a package is missing from its own
    /// closure).
    ResolveInconsistent(String),
    /// A mount or unmount system call failed.
    Syscall(String),
    /// An operation that needs at least one package was given none.
    NoPackages,
}

impl Error {
    /// A human-readable description of the error.
    pub fn message(&self) -> String {
        match self {
            Error::Parse(m) => m.clone(),
            Error::NotInstalled(m) => m.clone(),
            Error::DependedUpon(m) => m.clone(),
            Error::ResolveInconsistent(m) => m.clone(),
            Error::Syscall(m) => m.clone(),
            Error::NoPackages => String::from_str("no packages specified"),
        }
    }
}

} // verus!
