use vstd::prelude::*;

verus! {

/// Everything that can stop a load.
#[derive(Debug, Clone, PartialEq, Eq)]
pub enum LoadError {
    /// The source file could not be opened or read (its message).
    Io(String),
    /// A column value has no native store representation: the column's name
    /// and a description of the value.
    Conversion(String, String),
    /// A row lacks a required identifier column: that column's name.
    MissingColumn(String),
    /// The concurrency limit given is not a positive number.
    Configuration(usize),
    /// A write against the store failed (the store's message).
    Store(String),
}

} // verus!
