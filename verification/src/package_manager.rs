//! Where packages are found.

use crate::diagnostic::DiagnosticError;
use vstd::prelude::*;

verus! {

/// Where a package was found.
#[derive(Debug)]
pub struct Resolution {
    pub resolved: String,
}

/// Finds the packages that a configuration names.
pub trait PackageManager {
    /// Finds the package `specifier`, named by the file or directory
    /// `from`.
    fn resolve(&self, specifier: &String, from: &String) -> Result<Resolution, DiagnosticError>;
}

} // verus!
