//! Annex-B framing.

use oxideav_vdpau::annexb::{split_nal_units, strip_emulation_prevention};

/// A payload with emulation-prevention bytes put in.
fn escape(payload: &[u8]) -> Vec<u8> {
    let mut out = Vec::new();
    let mut zeros = 0;
    for &b in payload {
        if zeros >= 2 && b <= 3 {
            out.push(3);
            zeros = 0;
        }
        out.push(b);
        zeros = if b == 0 { zeros + 1 } else { 0 };
    }
    out
}

#[test]
fn split_finds_three_nal_starts_in_synthetic_buffer() {
    let buf = [
        0, 0, 0, 1, 0x67, 0xaa, // NAL 1
        0, 0, 1, 0x68, 0xbb, // NAL 2
        0, 0, 0, 1, 0x65, 0xcc, 0xdd, // NAL 3
    ];
    let nals = split_nal_units(&buf);
    assert_eq!(nals.len(), 3);
    assert_eq!(nals[0], &[0x67, 0xaa]);
    assert_eq!(nals[1], &[0x68, 0xbb]);
    assert_eq!(nals[2], &[0x65, 0xcc, 0xdd]);
}

#[test]
fn split_of_nothing_is_nothing() {
    assert!(split_nal_units(&[]).is_empty());
    assert!(split_nal_units(&[0x67, 0, 0, 2]).is_empty());
}

#[test]
fn split_drops_bytes_before_the_first_start_code() {
    let nals = split_nal_units(&[9, 9, 0, 0, 1, 7]);
    assert_eq!(nals, vec![&[7u8][..]]);
}

#[test]
fn split_keeps_empty_units() {
    let nals = split_nal_units(&[0, 0, 1, 0, 0, 1, 5, 0, 0, 1]);
    assert_eq!(nals, vec![&[][..], &[5u8][..], &[][..]]);
}

#[test]
fn split_gives_back_what_was_framed() {
    let payloads: [&[u8]; 4] = [&[1, 2, 0], &[0, 0, 2], &[], &[9, 0, 0]];
    let mut buf = Vec::new();
    for p in payloads {
        buf.extend_from_slice(&[0, 0, 0, 1]);
        buf.extend_from_slice(p);
    }
    assert_eq!(split_nal_units(&buf), payloads.to_vec());
}

#[test]
fn strip_collapses_escape_triples() {
    assert_eq!(strip_emulation_prevention(&[0, 0, 3, 1]), vec![0, 0, 1]);
    assert_eq!(strip_emulation_prevention(&[0, 0, 3]), vec![0, 0]);
    assert_eq!(strip_emulation_prevention(&[0, 3, 0, 0]), vec![0, 3, 0, 0]);
    assert_eq!(
        strip_emulation_prevention(&[0, 0, 3, 0, 0, 3, 1]),
        vec![0, 0, 0, 0, 1]
    );
    assert_eq!(strip_emulation_prevention(&[]), Vec::<u8>::new());
}

#[test]
fn strip_undoes_escape() {
    // Every payload of up to seven bytes out of a small alphabet.
    let alphabet = [0u8, 1, 3, 4];
    for len in 0..=7u32 {
        for n in 0..4u32.pow(len) {
            let payload: Vec<u8> = (0..len)
                .map(|i| alphabet[((n / 4u32.pow(i)) % 4) as usize])
                .collect();
            assert_eq!(strip_emulation_prevention(&escape(&payload)), payload);
        }
    }
}
