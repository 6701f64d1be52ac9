use vstd::prelude::*;

verus! {

/// Longest encoded name, terminator included (RFC 1035, 2.3.4).
pub const DNS_MAX_HOSTNAME_LEN: usize = 255;

/// Longest single label.
pub const DNS_MAX_LABEL_LEN: usize = 63;

/// Fixed bytes after a question's owner name: QTYPE and QCLASS.
pub const DNS_RR_QUESTION_HEADER_SIZE: usize = 4;

/// Fixed bytes after a resource record's owner name: TYPE, CLASS, TTL, RDLENGTH.
pub const DNS_RR_HEADER_SIZE: usize = 10;

/// Offsets at or above this cannot be the target of a compression pointer.
pub const DNS_MAX_POINTER_OFFSET: usize = 0x4000;

/// Most steps (labels plus pointer hops) taken while expanding one name.
pub const DNS_MAX_NAME_STEPS: usize = 256;

} // verus!
