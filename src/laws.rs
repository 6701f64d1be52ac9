use vstd::prelude::*;

use crate::compress::{compressed, decoded_name};
use crate::constants::{DNS_MAX_HOSTNAME_LEN, DNS_RR_HEADER_SIZE, DNS_RR_QUESTION_HEADER_SIZE};
use crate::errors::RenameError;
use crate::packet::RecordPos;
use crate::renamer::{renamed, rewrite_name, rewrite_record, rewrite_section, Progress};
use crate::name::{
    fold,
    labels_from,
    labels_match,
    lower,
    match_offset,
    name_matches,
    reaches_boundary,
    replace_outcome,
    valid_name,
};

verus! {

/// A run of labels that `source` repeats byte for byte from `offset` on
/// matches it.
pub proof fn lemma_tail_matches(name: Seq<u8>, source: Seq<u8>, offset: int, i: int)
    requires
        0 <= offset <= i,
        name.subrange(offset, name.len() as int) == source,
        labels_from(name, i),
    ensures
        labels_match(name, source, offset, i),
    decreases name.len() - i,
{
    assert(source[i - offset] == name[i]);
    if name[i] != 0 {
        let l = name[i] as int;
        assert forall|k: int| 1 <= k <= l implies #[trigger] fold(name[i + k]) == fold(
            source[i + k - offset],
        ) by {
            assert(source[i + k - offset] == name[i + k]);
        }
        lemma_tail_matches(name, source, offset, i + l + 1);
    }
}

/// A well-formed name that replaces itself, matched exactly, comes back
/// unchanged.
pub proof fn exact_match_identity(name: Seq<u8>)
    requires
        valid_name(name),
        name[0] != 0,
    ensures
        replace_outcome(name, name, name, false) == Ok::<Option<Seq<u8>>, RenameError>(
            Some(name),
        ),
{
    assert(reaches_boundary(name, 0, 0));
    assert(name.subrange(0, name.len() as int) =~= name);
    lemma_tail_matches(name, name, 0, 0);
    assert(name.subrange(0, 0) + name =~= name);
}

/// A substitution whose result would exceed `DNS_MAX_HOSTNAME_LEN` bytes
/// fails with `NameTooLong`, however short the part of the name kept.
pub proof fn substitution_too_long(
    name: Seq<u8>,
    target: Seq<u8>,
    source: Seq<u8>,
    match_suffix: bool,
)
    requires
        source.len() > 0,
        target.len() > 0,
        source[0] != 0,
        target[0] != 0,
        name_matches(name, source, match_suffix),
        match_offset(name, source) + target.len() > DNS_MAX_HOSTNAME_LEN,
    ensures
        replace_outcome(name, target, source, match_suffix) == Err::<Option<Seq<u8>>, RenameError>(
            RenameError::NameTooLong,
        ),
{
}

/// `www.example.com` in wire form.
pub open spec fn www_example_com() -> Seq<u8> {
    seq![3u8, 119, 119, 119, 7, 101, 120, 97, 109, 112, 108, 101, 3, 99, 111, 109, 0]
}

/// `example.com` in wire form.
pub open spec fn example_com() -> Seq<u8> {
    seq![7u8, 101, 120, 97, 109, 112, 108, 101, 3, 99, 111, 109, 0]
}

/// `ample.com` in wire form.
pub open spec fn ample_com() -> Seq<u8> {
    seq![5u8, 97, 109, 112, 108, 101, 3, 99, 111, 109, 0]
}

/// The label `www` alone, with no terminator.
pub open spec fn www_label() -> Seq<u8> {
    seq![3u8, 119, 119, 119]
}

/// A suffix match on a label boundary keeps the labels before it and puts
/// the target after them.
pub proof fn suffix_alignment(target: Seq<u8>)
    requires
        target.len() > 0,
        target[0] != 0,
        4 + target.len() <= DNS_MAX_HOSTNAME_LEN,
    ensures
        replace_outcome(www_example_com(), target, example_com(), true) == Ok::<
            Option<Seq<u8>>,
            RenameError,
        >(Some(www_label() + target)),
{
    let n = www_example_com();
    let s = example_com();
    assert(match_offset(n, s) == 4);
    assert(reaches_boundary(n, 4, 4));
    assert(reaches_boundary(n, 0, 4));
    assert(labels_from(n, 16));
    assert(labels_from(n, 12));
    assert(labels_from(n, 4));
    assert(n.subrange(4, 17) =~= s);
    lemma_tail_matches(n, s, 4, 4);
    assert(n.subrange(0, 4) =~= www_label());
}

/// A suffix that does not start on a label boundary does not match.
pub proof fn misaligned_suffix_no_match(target: Seq<u8>)
    requires
        target.len() > 0,
        target[0] != 0,
    ensures
        replace_outcome(www_example_com(), target, ample_com(), true) == Ok::<
            Option<Seq<u8>>,
            RenameError,
        >(None),
{
    let n = www_example_com();
    assert(match_offset(n, ample_com()) == 6);
    assert(!reaches_boundary(n, 16, 6));
    assert(!reaches_boundary(n, 12, 6));
    assert(!reaches_boundary(n, 4, 6));
    assert(!reaches_boundary(n, 0, 6));
}

proof fn lemma_walk_lands(name: Seq<u8>, i: int, offset: int)
    requires
        labels_from(name, i),
        reaches_boundary(name, i, offset),
    ensures
        labels_from(name, offset),
    decreases name.len() - i,
{
    if i != offset {
        lemma_walk_lands(name, i + name[i] + 1, offset);
    }
}

proof fn lemma_walk_lower(name: Seq<u8>, i: int, offset: int)
    requires
        labels_from(name, i),
    ensures
        reaches_boundary(name, i, offset) == reaches_boundary(lower(name), i, offset),
    decreases name.len() - i,
{
    let ln = lower(name);
    assert(ln.len() == name.len());
    assert(ln[i] == fold(name[i]));
    assert(ln[i] == name[i]);
    if name[i] != 0 && i != offset {
        lemma_walk_lower(name, i + name[i] + 1, offset);
    }
}

proof fn lemma_match_lower_name(name: Seq<u8>, source: Seq<u8>, offset: int, i: int)
    requires
        0 <= offset <= i,
        labels_from(name, i),
    ensures
        labels_match(name, source, offset, i) == labels_match(lower(name), source, offset, i),
    decreases name.len() - i,
{
    let ln = lower(name);
    assert(ln.len() == name.len());
    assert(ln[i] == fold(name[i]));
    assert(ln[i] == name[i]);
    if name[i] != 0 {
        let l = name[i] as int;
        assert forall|k: int| 1 <= k <= l implies #[trigger] fold(ln[i + k]) == fold(
            name[i + k],
        ) by {
            assert(ln[i + k] == fold(name[i + k]));
        }
        assert((forall|k: int|
            1 <= k <= l ==> #[trigger] fold(name[i + k]) == fold(source[i + k - offset])) == (
        forall|k: int| 1 <= k <= l ==> #[trigger] fold(ln[i + k]) == fold(source[i + k - offset])))
            by {
            assert forall|k: int| 1 <= k <= l implies fold(ln[i + k]) == #[trigger] fold(
                name[i + k],
            ) by {}
        }
        lemma_match_lower_name(name, source, offset, i + l + 1);
    }
}

proof fn lemma_match_lower_source(name: Seq<u8>, source: Seq<u8>, offset: int, i: int)
    requires
        0 <= offset <= i,
        source.len() == name.len() - offset,
        labels_from(name, i),
    ensures
        labels_match(name, source, offset, i) == labels_match(name, lower(source), offset, i),
    decreases name.len() - i,
{
    let ls = lower(source);
    assert(ls.len() == source.len());
    if name[i] != 0 {
        let l = name[i] as int;
        assert(ls[i - offset] == fold(source[i - offset]));
        assert((ls[i - offset] == name[i]) == (source[i - offset] == name[i]));
        if i + l < name.len() {
            assert forall|k: int| 1 <= k <= l implies #[trigger] fold(ls[i + k - offset]) == fold(
                source[i + k - offset],
            ) by {
                assert(ls[i + k - offset] == fold(source[i + k - offset]));
            }
            assert((forall|k: int|
                1 <= k <= l ==> #[trigger] fold(name[i + k]) == fold(source[i + k - offset])) == (
            forall|k: int| 1 <= k <= l ==> #[trigger] fold(name[i + k]) == fold(ls[i + k - offset])))
                by {
                assert forall|k: int| 1 <= k <= l implies fold(ls[i + k - offset]) == fold(
                    #[trigger] source[i + k - offset],
                ) by {}
            }
        }
        lemma_match_lower_source(name, source, offset, i + l + 1);
    }
}

/// Whether a well-formed name matches a source name does not change when
/// either of them is folded to ASCII lower case.
pub proof fn case_insensitive_match(name: Seq<u8>, source: Seq<u8>, match_suffix: bool)
    requires
        valid_name(name),
    ensures
        name_matches(name, source, match_suffix) == name_matches(
            lower(name),
            source,
            match_suffix,
        ),
        name_matches(name, source, match_suffix) == name_matches(
            name,
            lower(source),
            match_suffix,
        ),
{
    let offset = match_offset(name, source);
    lemma_walk_lower(name, 0, offset);
    if name.len() >= source.len() && reaches_boundary(name, 0, offset) {
        lemma_walk_lands(name, 0, offset);
        lemma_match_lower_name(name, source, offset, offset);
        lemma_match_lower_source(name, source, offset, offset);
    }
}

/// The name at `pos` of `packet` does not match `source`, or cannot be read.
pub open spec fn no_match_at(packet: Seq<u8>, pos: int, source: Seq<u8>, match_suffix: bool) -> bool {
    match decoded_name(packet, pos) {
        Ok(name) => !name_matches(name, source, match_suffix),
        Err(_) => true,
    }
}

/// Appends one record as it was: its owner name recompressed, then its
/// `header_size` fixed bytes.
pub open spec fn copy_record(packet: Seq<u8>, rec: RecordPos, header_size: int, state: Progress) -> Result<
    Progress,
    RenameError,
> {
    match decoded_name(packet, rec.offset as int) {
        Err(e) => Err(e),
        Ok(name) => {
            let c = compressed(state.1, state.0.len() as int, name);
            if rec.name_end + header_size > packet.len() {
                Err(RenameError::TruncatedRecord)
            } else {
                Ok(
                    (
                        state.0 + c.0 + packet.subrange(
                            rec.name_end as int,
                            rec.name_end + header_size,
                        ),
                        c.1,
                    ),
                )
            }
        },
    }
}

/// Appends the records `recs[k..]` as they were.
pub open spec fn copy_section(
    packet: Seq<u8>,
    recs: Seq<RecordPos>,
    k: int,
    header_size: int,
    state: Progress,
) -> Result<Progress, RenameError>
    decreases recs.len() - k,
{
    if k < 0 || k >= recs.len() {
        Ok(state)
    } else {
        match copy_record(packet, recs[k], header_size, state) {
            Err(e) => Err(e),
            Ok(s) => copy_section(packet, recs, k + 1, header_size, s),
        }
    }
}

/// The question and answer sections of `packet` recompressed, unchanged.
pub open spec fn recompressed(
    packet: Seq<u8>,
    questions: Seq<RecordPos>,
    answers: Seq<RecordPos>,
) -> Result<Seq<u8>, RenameError> {
    let start: Progress = (Seq::empty(), Seq::empty());
    match copy_section(packet, questions, 0, DNS_RR_QUESTION_HEADER_SIZE as int, start) {
        Err(e) => Err(e),
        Ok(s) => match copy_section(packet, answers, 0, DNS_RR_HEADER_SIZE as int, s) {
            Err(e) => Err(e),
            Ok(s2) => Ok(s2.0),
        },
    }
}

/// Names usable as source and target.
pub open spec fn usable_names(target: Seq<u8>, source: Seq<u8>) -> bool {
    &&& 0 < target.len() <= DNS_MAX_HOSTNAME_LEN
    &&& 0 < source.len() <= DNS_MAX_HOSTNAME_LEN
    &&& target[0] != 0
    &&& source[0] != 0
}

proof fn lemma_section_unmatched(
    packet: Seq<u8>,
    recs: Seq<RecordPos>,
    k: int,
    header_size: int,
    state: Progress,
    target: Seq<u8>,
    source: Seq<u8>,
    match_suffix: bool,
)
    requires
        usable_names(target, source),
        0 <= k,
        forall|j: int|
            0 <= j < recs.len() ==> no_match_at(packet, #[trigger] recs[j].offset as int, source, match_suffix),
    ensures
        rewrite_section(packet, recs, k, header_size, state, target, source, match_suffix)
            == copy_section(packet, recs, k, header_size, state),
    decreases recs.len() - k,
{
    if k < recs.len() {
        let rec = recs[k];
        assert(no_match_at(packet, rec.offset as int, source, match_suffix));
        let r = rewrite_record(packet, rec, header_size, state, target, source, match_suffix);
        assert(r == copy_record(packet, rec, header_size, state)) by {
            match decoded_name(packet, rec.offset as int) {
                Ok(name) => {
                    let c = compressed(state.1, state.0.len() as int, name);
                    assert(state.0 + c.0 + packet.subrange(rec.name_end as int, rec.name_end + header_size)
                        == (state.0 + c.0) + packet.subrange(rec.name_end as int, rec.name_end + header_size));
                },
                Err(_) => {},
            }
        }
        match r {
            Ok(s) => {
                lemma_section_unmatched(packet, recs, k + 1, header_size, s, target, source, match_suffix);
            },
            Err(_) => {},
        }
    }
}

/// Where no owner name matches the source name, the rewritten sections are
/// exactly the original sections recompressed.
pub proof fn unmatched_names_recompressed(
    packet: Seq<u8>,
    questions: Seq<RecordPos>,
    answers: Seq<RecordPos>,
    target: Seq<u8>,
    source: Seq<u8>,
    match_suffix: bool,
)
    requires
        usable_names(target, source),
        forall|j: int|
            0 <= j < questions.len() ==> no_match_at(
                packet,
                #[trigger] questions[j].offset as int,
                source,
                match_suffix,
            ),
        forall|j: int|
            0 <= j < answers.len() ==> no_match_at(
                packet,
                #[trigger] answers[j].offset as int,
                source,
                match_suffix,
            ),
    ensures
        renamed(packet, questions, answers, target, source, match_suffix) == recompressed(
            packet,
            questions,
            answers,
        ),
{
    let start: Progress = (Seq::empty(), Seq::empty());
    let q = DNS_RR_QUESTION_HEADER_SIZE as int;
    let a = DNS_RR_HEADER_SIZE as int;
    lemma_section_unmatched(packet, questions, 0, q, start, target, source, match_suffix);
    match copy_section(packet, questions, 0, q, start) {
        Ok(s) => {
            lemma_section_unmatched(packet, answers, 0, a, s, target, source, match_suffix);
        },
        Err(_) => {},
    }
}

/// A record whose fixed header runs past the end of the packet fails, and
/// fails with `TruncatedRecord` once its owner name has been handled.
pub proof fn truncated_record_fails(
    packet: Seq<u8>,
    rec: RecordPos,
    header_size: int,
    state: Progress,
    target: Seq<u8>,
    source: Seq<u8>,
    match_suffix: bool,
)
    requires
        rec.name_end + header_size > packet.len(),
    ensures
        rewrite_record(packet, rec, header_size, state, target, source, match_suffix) is Err,
        rewrite_name(packet, rec.offset as int, state, target, source, match_suffix) is Ok
            ==> rewrite_record(packet, rec, header_size, state, target, source, match_suffix)
            == Err::<Progress, RenameError>(RenameError::TruncatedRecord),
{
}

proof fn lemma_section_truncated(
    packet: Seq<u8>,
    recs: Seq<RecordPos>,
    j: int,
    k: int,
    header_size: int,
    state: Progress,
    target: Seq<u8>,
    source: Seq<u8>,
    match_suffix: bool,
)
    requires
        0 <= j <= k < recs.len(),
        recs[k].name_end + header_size > packet.len(),
    ensures
        rewrite_section(packet, recs, j, header_size, state, target, source, match_suffix) is Err,
    decreases k - j,
{
    if j == k {
        truncated_record_fails(packet, recs[k], header_size, state, target, source, match_suffix);
    } else {
        match rewrite_record(packet, recs[j], header_size, state, target, source, match_suffix) {
            Ok(s) => {
                lemma_section_truncated(packet, recs, j + 1, k, header_size, s, target, source, match_suffix);
            },
            Err(_) => {},
        }
    }
}

/// A packet with a question or answer record whose fixed header runs past
/// its end is never rewritten.
pub proof fn truncated_packet_fails(
    packet: Seq<u8>,
    questions: Seq<RecordPos>,
    answers: Seq<RecordPos>,
    target: Seq<u8>,
    source: Seq<u8>,
    match_suffix: bool,
    k: int,
)
    requires
        (0 <= k < questions.len() && questions[k].name_end + DNS_RR_QUESTION_HEADER_SIZE
            > packet.len()) || (0 <= k < answers.len() && answers[k].name_end
            + DNS_RR_HEADER_SIZE > packet.len()),
    ensures
        renamed(packet, questions, answers, target, source, match_suffix) is Err,
{
    let start: Progress = (Seq::empty(), Seq::empty());
    let q = DNS_RR_QUESTION_HEADER_SIZE as int;
    let a = DNS_RR_HEADER_SIZE as int;
    if 0 <= k < questions.len() && questions[k].name_end + q > packet.len() {
        lemma_section_truncated(packet, questions, 0, k, q, start, target, source, match_suffix);
    } else {
        match rewrite_section(packet, questions, 0, q, start, target, source, match_suffix) {
            Ok(s) => {
                lemma_section_truncated(packet, answers, 0, k, a, s, target, source, match_suffix);
            },
            Err(_) => {},
        }
    }
}

/// Equal inputs give equal results: the outcome of a rewrite is a function of
/// the packet, its record positions, the two names and the matching mode.
pub proof fn rename_deterministic(
    packet: Seq<u8>,
    questions: Seq<RecordPos>,
    answers: Seq<RecordPos>,
    target: Seq<u8>,
    source: Seq<u8>,
    match_suffix: bool,
    packet2: Seq<u8>,
    questions2: Seq<RecordPos>,
    answers2: Seq<RecordPos>,
    target2: Seq<u8>,
    source2: Seq<u8>,
)
    requires
        packet == packet2,
        questions == questions2,
        answers == answers2,
        target == target2,
        source == source2,
    ensures
        renamed(packet, questions, answers, target, source, match_suffix) == renamed(
            packet2,
            questions2,
            answers2,
            target2,
            source2,
            match_suffix,
        ),
{
}

} // verus!
