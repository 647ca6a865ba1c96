use vstd::prelude::*;

verus! {

/// Everything that can go wrong while mutating a graph or loading one from
/// its textual form. Mutation fails with one of the first two kinds; the
/// reader can fail with any of them.
#[derive(Clone, Copy, Debug, PartialEq, Eq, Structural)]
pub enum GraphError {
    /// A node or edge identifier would exceed the largest value the
    /// configured index width can represent.
    CapacityExceeded,
    /// An operation referenced a node or edge identifier that has not been
    /// allocated yet.
    IndexOutOfBounds,
    /// The header line is missing tokens, carries an unsupported direction
    /// code, or its counts do not parse.
    HeaderMalformed,
    /// A weight token failed the weight type's textual parse.
    WeightParseError,
    /// A body line is missing its separator, or an identifier token in it
    /// does not parse.
    BodyLineMalformed,
    /// After the whole input was consumed, the realized node or edge totals
    /// differ from the counts the header declared.
    CountMismatch,
}

} // verus!
