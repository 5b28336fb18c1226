use vstd::prelude::*;

verus! {

/// Errors raised by order execution and position accounting.
///
/// `EmptyDepth` and `InsufficientDepth` are market conditions: the book had
/// no levels at all, or had some liquidity but not enough. `Overflow` is the
/// explicit result of an exact computation that left the range of the fixed
/// width integers used by the engine; it replaces silent wrap-around.
#[derive(Debug, Clone, Copy, PartialEq, Eq, Structural)]
pub enum Error {
    /// The required side of the book has no levels at all.
    EmptyDepth,
    /// The book had liquidity but not enough; the payload is exactly the
    /// quantity that could not be matched on the queried side.
    InsufficientDepth(i32),
    /// An exact fixed-point computation left the representable range.
    Overflow,
}

/// Errors raised when decoding text that arrives from outside: composite
/// instrument keys, store field names, dates and numbers inside them.
/// Every malformed input becomes one of these; nothing panics.
#[derive(Debug, Clone, Copy, PartialEq, Eq, Structural)]
pub enum ParseError {
    /// The text does not have the expected number or shape of fields.
    MalformedKey,
    /// An exchange code that names no known exchange.
    UnknownExchange,
    /// A segment code that names no known exchange segment.
    UnknownExchangeType,
    /// A date field that is not a real calendar date.
    BadDate,
    /// A numeric field that is empty, non-numeric or too large to parse.
    BadNumber,
    /// An option-kind field that is neither a call nor a put.
    UnknownOptionType,
    /// A key in a market segment this library does not model.
    UnsupportedSegment,
    /// A parsed value too large for the field it updates.
    ValueOutOfRange,
}

} // verus!
