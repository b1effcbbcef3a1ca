//! Errors of the parsers.
use vstd::prelude::*;

verus! {

/// Why a project document or a task file could not be read.
#[derive(Debug, PartialEq, Eq, Structural)]
pub enum ParseError {
    /// The project document has no `---` line after its front matter.
    MissingFrontMatter,
    /// The task file has fewer than two `---` separators.
    MissingSeparator,
    /// serde_yaml could not read or write the front-matter block.
    Yaml,
    /// The front matter is neither empty nor a mapping.
    NotAMapping,
    /// A front-matter key is not a string, or is given twice.
    InvalidKey,
    /// A required front-matter field is absent.
    MissingField,
    /// A front-matter field holds a value of the wrong kind.
    InvalidField,
    /// A task bullet's issue number is zero or does not fit in 64 bits.
    InvalidIssueNumber,
    /// A task bullet lacks its path or its description.
    MalformedTask,
}

} // verus!
