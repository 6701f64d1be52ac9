use vstd::prelude::*;

verus! {

/// Why a rewrite was abandoned.
#[derive(Debug, Clone, Copy, PartialEq, Eq, Structural)]
pub enum RenameError {
    /// An empty name, or a name that starts with a terminator byte.
    InvalidArgument,
    /// An encoded name longer than `DNS_MAX_HOSTNAME_LEN` bytes.
    NameTooLong,
    /// An internal consistency check failed.
    EncodingError,
    /// A name in the packet points or reaches outside the packet, uses a
    /// reserved label type, or takes too many steps to expand.
    MalformedName,
    /// A record's fixed header extends past the end of the packet.
    TruncatedRecord,
}

} // verus!
