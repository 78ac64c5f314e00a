use vstd::prelude::*;

verus! {

/// Why decoding stopped, or why an attribute was left unresolved.
#[derive(Clone, Copy, Debug, PartialEq, Eq, Structural)]
pub enum DecodeError {
    /// Fewer bytes remained than the next field needs.
    Truncated,
    /// A constant-pool entry starts with a tag byte the format does not define.
    UnknownTag(u8),
    /// A method handle names a reference kind outside 1..=9.
    UnknownReferenceKind(u8),
    /// An access-flags word has bits outside the known mask.
    InvalidAccessFlags(u16),
    /// A constant-pool index that must be present is 0.
    ZeroIndex,
    /// An attribute's name index has no entry in the constant pool.
    NoEntry(u16),
    /// An attribute's name index refers to an entry that is not text.
    NameNotText,
    /// An attribute's name is not one of the kinds that are resolved.
    UnknownAttribute,
}

/// Why encoding stopped: a count or a length does not fit its prefix.
#[derive(Clone, Copy, Debug, PartialEq, Eq, Structural)]
pub enum EncodeError {
    LengthOverflow,
}

} // verus!
