use dns_renamer::compress::{copy_compressed_name, copy_uncompressed_name, SuffixDict};
use dns_renamer::errors::RenameError;
use dns_renamer::packet::{ParsedPacket, RecordPos};
use dns_renamer::renamer::Renamer;

fn encode(text: &str) -> Vec<u8> {
    let mut out = Vec::new();
    if !text.is_empty() {
        for label in text.split('.') {
            out.push(label.len() as u8);
            out.extend_from_slice(label.as_bytes());
        }
    }
    out.push(0);
    out
}

fn header() -> Vec<u8> {
    vec![0x12, 0x34, 0x81, 0x80, 0, 1, 0, 1, 0, 0, 0, 0]
}

/// A response with one question for `qname` (type A, class IN) and one CNAME
/// answer whose owner name points back at the question's name.
fn cname_response(qname: &str) -> (Vec<u8>, RecordPos, RecordPos) {
    let mut p = header();
    let q_off = p.len();
    p.extend_from_slice(&encode(qname));
    let q_end = p.len();
    p.extend_from_slice(&[0, 1, 0, 1]);
    let a_off = p.len();
    p.extend_from_slice(&[0xc0, q_off as u8]);
    let a_end = p.len();
    p.extend_from_slice(&[0, 5, 0, 1, 0, 0, 0x0e, 0x10, 0, 6]);
    p.extend_from_slice(&[3, b'w', b'e', b'b', 0xc0, (q_off + 4) as u8]);
    (
        p,
        RecordPos { offset: q_off, name_end: q_end },
        RecordPos { offset: a_off, name_end: a_end },
    )
}

#[test]
fn exact_match_returns_name_itself() {
    let n = encode("www.example.com");
    assert_eq!(Renamer::replace_raw(&n, &n, &n, false), Ok(Some(n.clone())));
}

#[test]
fn suffix_match_keeps_leading_labels() {
    let n = encode("www.example.com");
    let t = encode("example.org");
    let mut expected = vec![3, b'w', b'w', b'w'];
    expected.extend_from_slice(&t);
    assert_eq!(
        Renamer::replace_raw(&n, &t, &encode("example.com"), true),
        Ok(Some(expected))
    );
}

#[test]
fn suffix_off_label_boundary_does_not_match() {
    let n = encode("www.example.com");
    let t = encode("example.org");
    assert_eq!(Renamer::replace_raw(&n, &t, &encode("ample.com"), true), Ok(None));
}

#[test]
fn exact_mode_ignores_suffix() {
    let n = encode("www.example.com");
    let t = encode("example.org");
    assert_eq!(Renamer::replace_raw(&n, &t, &encode("example.com"), false), Ok(None));
}

#[test]
fn shorter_name_does_not_match() {
    let n = encode("com");
    let t = encode("example.org");
    assert_eq!(Renamer::replace_raw(&n, &t, &encode("example.com"), true), Ok(None));
}

#[test]
fn matching_ignores_ascii_case() {
    let n = encode("WWW.Example.COM");
    let t = encode("example.org");
    let mut expected = vec![3, b'W', b'W', b'W'];
    expected.extend_from_slice(&t);
    assert_eq!(
        Renamer::replace_raw(&n, &t, &encode("example.com"), true),
        Ok(Some(expected.clone()))
    );
    assert_eq!(
        Renamer::replace_raw(&encode("www.example.com"), &t, &encode("EXAMPLE.com"), true),
        Ok(Some(encode("www.example.org")))
    );
}

#[test]
fn different_label_does_not_match() {
    let n = encode("www.example.com");
    let t = encode("example.org");
    assert_eq!(Renamer::replace_raw(&n, &t, &encode("exbmple.com"), true), Ok(None));
}

#[test]
fn substitution_past_limit_is_too_long() {
    let label = "a".repeat(60);
    let text = format!("{0}.{0}.{0}.{0}.com", label);
    let n = encode(&text);
    assert_eq!(n.len(), 249);
    let t = encode("example.org");
    assert_eq!(t.len(), 13);
    // 244 bytes kept plus 13 of target: 257.
    assert_eq!(
        Renamer::replace_raw(&n, &t, &encode("com"), true),
        Err(RenameError::NameTooLong)
    );
    // 244 plus 11 is exactly the limit.
    let r = Renamer::replace_raw(&n, &encode("abcdefghi"), &encode("com"), true);
    assert_eq!(r.map(|v| v.map(|x| x.len())), Ok(Some(255)));
}

#[test]
fn empty_or_terminator_names_are_rejected() {
    let n = encode("www.example.com");
    assert_eq!(Renamer::replace_raw(&n, &[], &n, true), Err(RenameError::InvalidArgument));
    assert_eq!(Renamer::replace_raw(&n, &n, &[], true), Err(RenameError::InvalidArgument));
    assert_eq!(Renamer::replace_raw(&n, &[0], &n, true), Err(RenameError::InvalidArgument));
    assert_eq!(Renamer::replace_raw(&n, &n, &[0], true), Err(RenameError::InvalidArgument));
}

#[test]
fn end_to_end_cname_response() {
    let (p, q, a) = cname_response("www.example.com");
    let original = p.clone();
    let pp = ParsedPacket::new(p, vec![q], vec![a]);
    let out = Renamer::rename_with_raw_names(
        &pp,
        &encode("example.org"),
        &encode("example.com"),
        true,
    )
    .unwrap();
    let mut expected = encode("www.example.org");
    expected.extend_from_slice(&[0, 1, 0, 1]);
    expected.extend_from_slice(&[0xc0, 0x00]);
    expected.extend_from_slice(&[0, 5, 0, 1, 0, 0, 0x0e, 0x10, 0, 6]);
    assert_eq!(out, expected);
    assert_eq!(copy_uncompressed_name(&out, 0), Ok(encode("www.example.org")));
    assert_eq!(copy_uncompressed_name(&out, 21), Ok(encode("www.example.org")));
    assert_eq!(pp.packet, original);
}

#[test]
fn unmatched_packet_is_recompressed_unchanged() {
    let (p, q, a) = cname_response("www.example.net");
    let pp = ParsedPacket::new(p.clone(), vec![q], vec![a]);
    let out = Renamer::rename_with_raw_names(
        &pp,
        &encode("example.org"),
        &encode("example.com"),
        true,
    )
    .unwrap();
    let mut expected = encode("www.example.net");
    expected.extend_from_slice(&[0, 1, 0, 1]);
    expected.extend_from_slice(&[0xc0, 0x00]);
    expected.extend_from_slice(&[0, 5, 0, 1, 0, 0, 0x0e, 0x10, 0, 6]);
    assert_eq!(out, expected);
}

#[test]
fn rename_is_deterministic() {
    let (p, q, a) = cname_response("mail.example.com");
    let pp = ParsedPacket::new(p, vec![q], vec![a]);
    let t = encode("other.test");
    let s = encode("example.com");
    let first = Renamer::rename_with_raw_names(&pp, &t, &s, true);
    let second = Renamer::rename_with_raw_names(&pp, &t, &s, true);
    assert!(first.is_ok());
    assert_eq!(first, second);
}

#[test]
fn truncated_question_is_rejected() {
    let mut p = header();
    p.extend_from_slice(&encode("www.example.com"));
    let end = p.len();
    p.extend_from_slice(&[0, 1, 0]);
    let pp = ParsedPacket::new(p, vec![RecordPos { offset: 12, name_end: end }], vec![]);
    assert_eq!(
        Renamer::rename_with_raw_names(&pp, &encode("example.org"), &encode("example.com"), true),
        Err(RenameError::TruncatedRecord)
    );
}

#[test]
fn truncated_answer_is_rejected() {
    let (mut p, q, a) = cname_response("www.example.com");
    p.truncate(a.name_end + 9);
    let pp = ParsedPacket::new(p, vec![q], vec![a]);
    assert_eq!(
        Renamer::rename_with_raw_names(&pp, &encode("example.org"), &encode("example.com"), true),
        Err(RenameError::TruncatedRecord)
    );
}

#[test]
fn end_offset_far_past_packet_is_rejected() {
    let (p, q, _) = cname_response("www.example.com");
    let far = RecordPos { offset: q.offset, name_end: usize::MAX };
    let pp = ParsedPacket::new(p, vec![far], vec![]);
    assert_eq!(
        Renamer::rename_with_raw_names(&pp, &encode("example.org"), &encode("example.com"), true),
        Err(RenameError::TruncatedRecord)
    );
}

#[test]
fn rename_rejects_bad_names() {
    let (p, q, a) = cname_response("www.example.com");
    let pp = ParsedPacket::new(p, vec![q], vec![a]);
    let s = encode("example.com");
    assert_eq!(
        Renamer::rename_with_raw_names(&pp, &[], &s, true),
        Err(RenameError::InvalidArgument)
    );
    assert_eq!(
        Renamer::rename_with_raw_names(&pp, &s, &[], true),
        Err(RenameError::InvalidArgument)
    );
    let long = vec![1u8; 256];
    assert_eq!(
        Renamer::rename_with_raw_names(&pp, &long, &s, true),
        Err(RenameError::NameTooLong)
    );
    assert_eq!(
        Renamer::rename_with_raw_names(&pp, &s, &long, true),
        Err(RenameError::NameTooLong)
    );
}

#[test]
fn rename_too_long_after_substitution() {
    let label = "a".repeat(60);
    let text = format!("{0}.{0}.{0}.{0}.com", label);
    let (p, q, a) = cname_response(&text);
    let pp = ParsedPacket::new(p, vec![q], vec![a]);
    assert_eq!(
        Renamer::rename_with_raw_names(&pp, &encode("example.org"), &encode("com"), true),
        Err(RenameError::NameTooLong)
    );
}

#[test]
fn bad_pointer_is_malformed() {
    let p = vec![0xc0, 0x40];
    assert_eq!(copy_uncompressed_name(&p, 0), Err(RenameError::MalformedName));
    let looping = vec![0xc0, 0x00];
    assert_eq!(copy_uncompressed_name(&looping, 0), Err(RenameError::MalformedName));
    let pp = ParsedPacket::new(
        vec![0xc0, 0x40, 0, 1, 0, 1],
        vec![RecordPos { offset: 0, name_end: 2 }],
        vec![],
    );
    assert_eq!(
        Renamer::rename_with_raw_names(&pp, &encode("example.org"), &encode("example.com"), true),
        Err(RenameError::MalformedName)
    );
}

#[test]
fn decoder_follows_pointers() {
    let (p, _, a) = cname_response("www.example.com");
    assert_eq!(copy_uncompressed_name(&p, a.offset), Ok(encode("www.example.com")));
    let rdata = a.name_end + 10;
    assert_eq!(copy_uncompressed_name(&p, rdata), Ok(encode("web.example.com")));
}

#[test]
fn compressor_points_at_known_suffix() {
    let mut dict = SuffixDict::new();
    let mut out = Vec::new();
    copy_compressed_name(&mut dict, &mut out, &encode("www.example.com"));
    assert_eq!(out, encode("www.example.com"));
    copy_compressed_name(&mut dict, &mut out, &encode("mail.example.com"));
    let mut expected = encode("www.example.com");
    expected.extend_from_slice(&[4, b'm', b'a', b'i', b'l', 0xc0, 4]);
    assert_eq!(out, expected);
    assert_eq!(dict.find_tail(&encode("example.com"), 0), Some(4));
    assert_eq!(dict.find_tail(&encode("mail.example.com"), 0), Some(17));
    copy_compressed_name(&mut dict, &mut out, &encode("www.example.com"));
    assert_eq!(&out[out.len() - 2..], &[0xc0, 0][..]);
}

#[test]
fn root_name_compresses_to_terminator() {
    let mut dict = SuffixDict::new();
    let mut out = vec![9u8];
    copy_compressed_name(&mut dict, &mut out, &[0]);
    assert_eq!(out, vec![9, 0]);
}
