use vstd::prelude::*;

use crate::bytes::append_range;
use crate::compress::{
    bytes_view,
    compressed,
    copy_compressed_name,
    copy_uncompressed_name,
    decoded_name,
    SuffixDict,
};
use crate::constants::{DNS_MAX_HOSTNAME_LEN, DNS_RR_HEADER_SIZE, DNS_RR_QUESTION_HEADER_SIZE};
use crate::errors::RenameError;
use crate::packet::{ParsedPacket, RecordPos};
use crate::name::{
    ascii_lower,
    fold,
    labels_match,
    match_offset,
    name_matches,
    reaches_boundary,
    replace_outcome,
    replace_view,
};

verus! {

/// An output buffer under construction and its compression dictionary.
pub type Progress = (Seq<u8>, Seq<(Seq<u8>, u16)>);

/// Appends the owner name at `pos` of `packet` to `out`: `target` in place of
/// `source` where they match, the name as it was elsewhere.
pub open spec fn rewrite_name(
    packet: Seq<u8>,
    pos: int,
    state: Progress,
    target: Seq<u8>,
    source: Seq<u8>,
    match_suffix: bool,
) -> Result<Progress, RenameError> {
    match decoded_name(packet, pos) {
        Err(e) => Err(e),
        Ok(name) => match replace_outcome(name, target, source, match_suffix) {
            Err(e) => Err(e),
            Ok(replaced) => {
                let flat = match replaced {
                    Some(x) => x,
                    None => name,
                };
                let c = compressed(state.1, state.0.len() as int, flat);
                Ok((state.0 + c.0, c.1))
            },
        },
    }
}

/// Appends one record: its owner name, then its `header_size` fixed bytes.
pub open spec fn rewrite_record(
    packet: Seq<u8>,
    rec: RecordPos,
    header_size: int,
    state: Progress,
    target: Seq<u8>,
    source: Seq<u8>,
    match_suffix: bool,
) -> Result<Progress, RenameError> {
    match rewrite_name(packet, rec.offset as int, state, target, source, match_suffix) {
        Err(e) => Err(e),
        Ok(s) => if rec.name_end + header_size > packet.len() {
            Err(RenameError::TruncatedRecord)
        } else {
            Ok(
                (
                    s.0 + packet.subrange(rec.name_end as int, rec.name_end + header_size),
                    s.1,
                ),
            )
        },
    }
}

/// Appends the records `recs[k..]` in order; the first failure ends the walk.
pub open spec fn rewrite_section(
    packet: Seq<u8>,
    recs: Seq<RecordPos>,
    k: int,
    header_size: int,
    state: Progress,
    target: Seq<u8>,
    source: Seq<u8>,
    match_suffix: bool,
) -> Result<Progress, RenameError>
    decreases recs.len() - k,
{
    if k < 0 || k >= recs.len() {
        Ok(state)
    } else {
        match rewrite_record(packet, recs[k], header_size, state, target, source, match_suffix) {
            Err(e) => Err(e),
            Ok(s) => rewrite_section(
                packet,
                recs,
                k + 1,
                header_size,
                s,
                target,
                source,
                match_suffix,
            ),
        }
    }
}

/// The question section, then the answer section, of `packet` with `target`
/// in place of `source`, from an empty buffer and an empty dictionary.
pub open spec fn renamed(
    packet: Seq<u8>,
    questions: Seq<RecordPos>,
    answers: Seq<RecordPos>,
    target: Seq<u8>,
    source: Seq<u8>,
    match_suffix: bool,
) -> Result<Seq<u8>, RenameError> {
    if target.len() == 0 || source.len() == 0 {
        Err(RenameError::InvalidArgument)
    } else if target.len() > DNS_MAX_HOSTNAME_LEN || source.len() > DNS_MAX_HOSTNAME_LEN {
        Err(RenameError::NameTooLong)
    } else {
        let start: Progress = (Seq::empty(), Seq::empty());
        match rewrite_section(
            packet,
            questions,
            0,
            DNS_RR_QUESTION_HEADER_SIZE as int,
            start,
            target,
            source,
            match_suffix,
        ) {
            Err(e) => Err(e),
            Ok(s) => match rewrite_section(
                packet,
                answers,
                0,
                DNS_RR_HEADER_SIZE as int,
                s,
                target,
                source,
                match_suffix,
            ) {
                Err(e) => Err(e),
                Ok(s2) => Ok(s2.0),
            },
        }
    }
}

/// What a step that appends to `out` and `dict` promises, given the outcome
/// `expected` of its spec function.
pub open spec fn step_done(
    r: Result<(), RenameError>,
    expected: Result<Progress, RenameError>,
    out: Seq<u8>,
    dict: SuffixDict,
) -> bool {
    match expected {
        Ok(s) => r matches Ok(_) && out == s.0 && dict@ == s.1 && dict.wf(),
        Err(e) => r == Err::<(), RenameError>(e),
    }
}

/// Rewrites owner names in the question and answer sections of a DNS message.
pub struct Renamer;

impl Renamer {
    /// Substitutes `target_name` for `source_name` in the encoded name `name`.
    /// With `match_suffix`, `source_name` may match a suffix of `name` that
    /// starts on a label boundary; otherwise it must match the whole name.
    /// Labels compare without regard to ASCII case. `Ok(None)` means no match.
    #[verifier::loop_isolation(false)]
    pub fn replace_raw(
        name: &[u8],
        target_name: &[u8],
        source_name: &[u8],
        match_suffix: bool,
    ) -> (r: Result<Option<Vec<u8>>, RenameError>)
        ensures
            replace_view(r) == replace_outcome(name@, target_name@, source_name@, match_suffix),
    {
        let name_len = name.len();
        let source_name_len = source_name.len();
        let target_name_len = target_name.len();
        if source_name_len == 0 || target_name_len == 0 {
            return Err(RenameError::InvalidArgument);
        }
        if source_name[0] == 0 || target_name[0] == 0 {
            return Err(RenameError::InvalidArgument);
        }
        if name_len < source_name_len || (!match_suffix && name_len != source_name_len) {
            return Ok(None);
        }
        let offset = name_len - source_name_len;
        let ghost n = name@;
        let ghost s = source_name@;

        let mut i: usize = 0;
        while i < name_len && name[i] != 0 && i != offset
            invariant
                n == name@,
                s == source_name@,
                name_len == n.len(),
                offset == match_offset(n, s),
                offset < name_len,
                i <= name_len,
                reaches_boundary(n, i as int, offset as int) == reaches_boundary(
                    n,
                    0,
                    offset as int,
                ),
            decreases name_len - i,
        {
            let step = name[i] as usize + 1;
            assert(reaches_boundary(n, i as int, offset as int) == reaches_boundary(
                n,
                i + step,
                offset as int,
            ));
            if step > name_len - i {
                assert(!reaches_boundary(n, i + step, offset as int));
                assert(!reaches_boundary(n, name_len as int, offset as int));
                i = name_len;
            } else {
                i = i + step;
            }
        }
        if i >= name_len || name[i] == 0 {
            return Ok(None);
        }
        if i != offset {
            return Err(RenameError::EncodingError);
        }
        assert(reaches_boundary(n, 0, offset as int));

        loop
            invariant
                n == name@,
                s == source_name@,
                name_len == n.len(),
                source_name_len == s.len(),
                offset == match_offset(n, s),
                offset <= i <= name_len,
                labels_match(n, s, offset as int, i as int) == labels_match(
                    n,
                    s,
                    offset as int,
                    offset as int,
                ),
            decreases name_len - i,
        {
            if i >= name_len {
                return Ok(None);
            }
            let label_len = name[i];
            if label_len == 0 {
                break;
            }
            if source_name[i - offset] != label_len {
                return Ok(None);
            }
            if label_len as usize >= name_len - i {
                return Ok(None);
            }
            let mut k: usize = 1;
            while k <= label_len as usize
                invariant
                    n == name@,
                    s == source_name@,
                    name_len == n.len(),
                    source_name_len == s.len(),
                    offset == match_offset(n, s),
                    offset <= i < name_len,
                    i + label_len < name_len,
                    1 <= k <= label_len + 1,
                    forall|kk: int|
                        1 <= kk < k ==> #[trigger] fold(n[i + kk]) == fold(
                            s[i + kk - offset],
                        ),
                decreases label_len + 1 - k,
            {
                if ascii_lower(name[i + k]) != ascii_lower(source_name[i + k - offset]) {
                    return Ok(None);
                }
                k = k + 1;
            }
            i = i + label_len as usize + 1;
        }
        assert(name_matches(n, s, match_suffix));
        if offset > DNS_MAX_HOSTNAME_LEN || target_name_len > DNS_MAX_HOSTNAME_LEN - offset {
            return Err(RenameError::NameTooLong);
        }
        let mut res: Vec<u8> = Vec::with_capacity(offset + target_name_len);
        append_range(&mut res, name, 0, offset);
        append_range(&mut res, target_name, 0, target_name_len);
        assert(target_name@.subrange(0, target_name_len as int) =~= target_name@);
        Ok(Some(res))
    }

    fn copy_with_replaced_name(
        renamed_packet: &mut Vec<u8>,
        packet: &[u8],
        offset: usize,
        suffix_dict: &mut SuffixDict,
        target_name: &[u8],
        source_name: &[u8],
        match_suffix: bool,
    ) -> (r: Result<(), RenameError>)
        requires
            old(suffix_dict).wf(),
        ensures
            step_done(
                r,
                rewrite_name(
                    packet@,
                    offset as int,
                    (old(renamed_packet)@, old(suffix_dict)@),
                    target_name@,
                    source_name@,
                    match_suffix,
                ),
                final(renamed_packet)@,
                *final(suffix_dict),
            ),
    {
        let name = match copy_uncompressed_name(packet, offset) {
            Ok(name) => name,
            Err(e) => return Err(e),
        };
        let replaced_name = match Self::replace_raw(
            name.as_slice(),
            target_name,
            source_name,
            match_suffix,
        ) {
            Ok(r) => r,
            Err(e) => return Err(e),
        };
        match replaced_name {
            None => {
                copy_compressed_name(suffix_dict, renamed_packet, name.as_slice());
            },
            Some(replaced_name) => {
                copy_compressed_name(suffix_dict, renamed_packet, replaced_name.as_slice());
            },
        }
        Ok(())
    }

    fn rename_records(
        renamed_packet: &mut Vec<u8>,
        packet: &[u8],
        records: &[RecordPos],
        header_size: usize,
        suffix_dict: &mut SuffixDict,
        target_name: &[u8],
        source_name: &[u8],
        match_suffix: bool,
    ) -> (r: Result<(), RenameError>)
        requires
            old(suffix_dict).wf(),
        ensures
            step_done(
                r,
                rewrite_section(
                    packet@,
                    records@,
                    0,
                    header_size as int,
                    (old(renamed_packet)@, old(suffix_dict)@),
                    target_name@,
                    source_name@,
                    match_suffix,
                ),
                final(renamed_packet)@,
                *final(suffix_dict),
            ),
    {
        let ghost goal = rewrite_section(
            packet@,
            records@,
            0,
            header_size as int,
            (renamed_packet@, suffix_dict@),
            target_name@,
            source_name@,
            match_suffix,
        );
        let plen = packet.len();
        let n = records.len();
        let mut k: usize = 0;
        while k < n
            invariant
                plen == packet@.len(),
                n == records@.len(),
                k <= n,
                suffix_dict.wf(),
                goal == rewrite_section(
                    packet@,
                    records@,
                    0,
                    header_size as int,
                    (old(renamed_packet)@, old(suffix_dict)@),
                    target_name@,
                    source_name@,
                    match_suffix,
                ),
                rewrite_section(
                    packet@,
                    records@,
                    k as int,
                    header_size as int,
                    (renamed_packet@, suffix_dict@),
                    target_name@,
                    source_name@,
                    match_suffix,
                ) == goal,
            decreases n - k,
        {
            let rec = records[k];
            let ghost before: Progress = (renamed_packet@, suffix_dict@);
            match Self::copy_with_replaced_name(
                renamed_packet,
                packet,
                rec.offset,
                suffix_dict,
                target_name,
                source_name,
                match_suffix,
            ) {
                Ok(()) => {},
                Err(e) => return Err(e),
            }
            if rec.name_end > plen || plen - rec.name_end < header_size {
                return Err(RenameError::TruncatedRecord);
            }
            append_range(renamed_packet, packet, rec.name_end, rec.name_end + header_size);
            assert(rewrite_record(
                packet@,
                rec,
                header_size as int,
                before,
                target_name@,
                source_name@,
                match_suffix,
            ) == Ok::<Progress, RenameError>((renamed_packet@, suffix_dict@)));
            k = k + 1;
        }
        Ok(())
    }

    fn rename_question_section(
        renamed_packet: &mut Vec<u8>,
        parsed_packet: &ParsedPacket,
        suffix_dict: &mut SuffixDict,
        target_name: &[u8],
        source_name: &[u8],
        match_suffix: bool,
    ) -> (r: Result<(), RenameError>)
        requires
            old(suffix_dict).wf(),
        ensures
            step_done(
                r,
                rewrite_section(
                    parsed_packet.packet@,
                    parsed_packet.questions@,
                    0,
                    DNS_RR_QUESTION_HEADER_SIZE as int,
                    (old(renamed_packet)@, old(suffix_dict)@),
                    target_name@,
                    source_name@,
                    match_suffix,
                ),
                final(renamed_packet)@,
                *final(suffix_dict),
            ),
    {
        Self::rename_records(
            renamed_packet,
            parsed_packet.packet.as_slice(),
            parsed_packet.questions.as_slice(),
            DNS_RR_QUESTION_HEADER_SIZE,
            suffix_dict,
            target_name,
            source_name,
            match_suffix,
        )
    }

    fn rename_answer_section(
        renamed_packet: &mut Vec<u8>,
        parsed_packet: &ParsedPacket,
        suffix_dict: &mut SuffixDict,
        target_name: &[u8],
        source_name: &[u8],
        match_suffix: bool,
    ) -> (r: Result<(), RenameError>)
        requires
            old(suffix_dict).wf(),
        ensures
            step_done(
                r,
                rewrite_section(
                    parsed_packet.packet@,
                    parsed_packet.answers@,
                    0,
                    DNS_RR_HEADER_SIZE as int,
                    (old(renamed_packet)@, old(suffix_dict)@),
                    target_name@,
                    source_name@,
                    match_suffix,
                ),
                final(renamed_packet)@,
                *final(suffix_dict),
            ),
    {
        Self::rename_records(
            renamed_packet,
            parsed_packet.packet.as_slice(),
            parsed_packet.answers.as_slice(),
            DNS_RR_HEADER_SIZE,
            suffix_dict,
            target_name,
            source_name,
            match_suffix,
        )
    }

    /// Rewrites the owner names of the question and answer records of
    /// `parsed_packet`, putting `target_name` in place of `source_name`, and
    /// returns the two sections, recompressed into a fresh buffer. Record data
    /// past each fixed header is not copied.
    pub fn rename_with_raw_names(
        parsed_packet: &ParsedPacket,
        target_name: &[u8],
        source_name: &[u8],
        match_suffix: bool,
    ) -> (r: Result<Vec<u8>, RenameError>)
        ensures
            bytes_view(r) == renamed(
                parsed_packet.packet@,
                parsed_packet.questions@,
                parsed_packet.answers@,
                target_name@,
                source_name@,
                match_suffix,
            ),
    {
        if target_name.len() == 0 || source_name.len() == 0 {
            return Err(RenameError::InvalidArgument);
        }
        if target_name.len() > DNS_MAX_HOSTNAME_LEN || source_name.len() > DNS_MAX_HOSTNAME_LEN {
            return Err(RenameError::NameTooLong);
        }
        let mut renamed_packet: Vec<u8> = Vec::with_capacity(parsed_packet.packet.len());
        let mut suffix_dict = SuffixDict::new();
        assert(renamed_packet@ =~= Seq::<u8>::empty());
        match Self::rename_question_section(
            &mut renamed_packet,
            parsed_packet,
            &mut suffix_dict,
            target_name,
            source_name,
            match_suffix,
        ) {
            Ok(()) => {},
            Err(e) => return Err(e),
        }
        match Self::rename_answer_section(
            &mut renamed_packet,
            parsed_packet,
            &mut suffix_dict,
            target_name,
            source_name,
            match_suffix,
        ) {
            Ok(()) => {},
            Err(e) => return Err(e),
        }
        Ok(renamed_packet)
    }
}

} // verus!
