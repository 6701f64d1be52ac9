use vstd::prelude::*;

verus! {

/// Where one record's owner name lies in a packet: it starts at `offset`,
/// and its fixed header starts at `name_end`.
#[derive(Debug, Clone, Copy, PartialEq, Eq, Structural)]
pub struct RecordPos {
    pub offset: usize,
    pub name_end: usize,
}

/// A DNS message with the positions of its question and answer records.
pub struct ParsedPacket {
    pub packet: Vec<u8>,
    pub questions: Vec<RecordPos>,
    pub answers: Vec<RecordPos>,
}

impl ParsedPacket {
    /// Bundles a packet with the positions of its records.
    pub fn new(packet: Vec<u8>, questions: Vec<RecordPos>, answers: Vec<RecordPos>) -> (r:
        ParsedPacket)
        ensures
            r.packet@ == packet@,
            r.questions@ == questions@,
            r.answers@ == answers@,
    {
        ParsedPacket { packet, questions, answers }
    }
}

} // verus!
