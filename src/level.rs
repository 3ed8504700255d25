use vstd::prelude::*;

verus! {

/// The severity of a record, from least to most important.
#[derive(Clone, Copy, Debug, PartialEq, Eq, Structural, PartialOrd, Ord, Hash)]
pub enum Level {
    Trace,
    Debug,
    Info,
    Warn,
    Error,
}

/// What the prefix of a record is made from.
pub struct Metadata<'a> {
    pub level: Level,
    /// The originating module, its segments separated by `::`.
    pub module: &'a str,
    /// The source line, where known.
    pub line: Option<u32>,
}

} // verus!
