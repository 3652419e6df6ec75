use vstd::prelude::*;

verus! {

/// Fatal build-time errors of the generator.
#[derive(Clone, Copy, Debug, PartialEq, Eq, Structural)]
pub enum BuildError {
    /// A command or reply argument has a type with no wire mapping.
    UnknownType,
    /// A message name is already taken by a message with a different
    /// signature.
    DuplicateMessage,
    /// An enumeration name is already taken.
    DuplicateEnumeration,
    /// More message IDs are needed than the 8-bit ID space offers.
    TooManyMessages,
    /// Two messages carry the same ID.
    DuplicateMessageId,
    /// A constant with this name was already declared.
    DuplicateConstant,
    /// A second transport-generation directive was found.
    MultipleTransports,
    /// No transport-generation directive was found.
    MissingTransport,
    /// Both candidate files for a submodule exist.
    AmbiguousSubmodule,
    /// Neither candidate file for a submodule exists.
    MissingSubmodule,
    /// The 16-bit static string ID space is exhausted.
    TooManyStaticStrings,
}

} // verus!
