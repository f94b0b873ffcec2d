use vstd::prelude::*;

verus! {

/// The two attributes that bind an argument to file records.
#[derive(Debug, PartialEq, Eq)]
pub enum RecordAttr {
    /// `field`: one field of each record.
    Field,
    /// `data`: the whole record.
    Data,
}

/// What can be wrong with a test specification. Each variant names the
/// offending argument, axis or attribute.
#[derive(Debug, PartialEq, Eq)]
pub enum SpecError {
    /// An axis, case argument or fixture names no parameter of the function.
    NoMatchingArgument(String),
    /// An axis with no value.
    EmptyValueList(String),
    /// A name given both as an injected fixture and as an axis.
    ConflictingBinding(String),
    /// A fixture injected more than once.
    DuplicateInjection(String),
    /// A case row whose length differs from the number of case arguments.
    ArityMismatch { case: usize, expected: usize, found: usize },
    /// A chain of fixtures, each depending on the next, the last on the first.
    CyclicFixtureDependency(Vec<String>),
    /// A record attribute (second field) on an argument (first field) of a
    /// function that declares no file data set.
    FileAttributeWithoutDataset(String, RecordAttr),
    /// An attribute used more than once on the same argument.
    DuplicateAttributeUsage(String),
    /// An attribute (first field) whose arguments could not be read; the
    /// second field says why.
    InvalidAttributeArgs(String, String),
    /// An attribute that takes one name or string but was given something else.
    ExpectedOneName(String),
    /// An attribute that takes no argument but was given some.
    UnexpectedAttributeArgs(String),
    /// A timeout attribute that could not be read.
    InvalidTimeout(String),
    /// A case row that could not be read.
    InvalidCase(String),
    /// A file data set whose locator could not be resolved.
    InvalidDataSet(String),
    /// An argument with no binding source at all.
    UnresolvedArgument(String),
}

} // verus!
