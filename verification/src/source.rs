//! Places in source files.

use vstd::prelude::*;

verus! {

/// A line and a column, both counted from 1.
#[derive(Clone, Copy, Debug, PartialEq, Eq, Hash, Structural)]
pub struct Location {
    pub line: u32,
    pub column: u32,
}

/// A range of a source file.
#[derive(Debug, PartialEq, Eq, Hash)]
pub struct SourceLocation {
    /// The path of the file.
    pub file_path: String,
    /// Where the range starts.
    pub start: Location,
    /// Where the range ends.
    pub end: Location,
}

impl Clone for SourceLocation {
    fn clone(&self) -> (copy: Self)
        ensures
            copy == *self,
    {
        SourceLocation { file_path: self.file_path.clone(), start: self.start, end: self.end }
    }
}

} // verus!
