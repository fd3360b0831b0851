//! Bit reading.

use oxideav_vdpau::bits::BitReader;

/// The Exp-Golomb code word of `v`, as bits.
fn ue_code(v: u64) -> Vec<u8> {
    let x = v + 1;
    let n = 63 - x.leading_zeros() as usize;
    let mut bits = vec![0u8; n];
    for i in (0..=n).rev() {
        bits.push(((x >> i) & 1) as u8);
    }
    bits
}

/// Bits packed into bytes, the last byte filled up with zeros.
fn pack(bits: &[u8]) -> Vec<u8> {
    let mut out = Vec::new();
    for chunk in bits.chunks(8) {
        let mut byte = 0u8;
        for (i, b) in chunk.iter().enumerate() {
            byte |= b << (7 - i);
        }
        out.push(byte);
    }
    out
}

#[test]
fn ue_decodes_known_values() {
    // Bit stream: 1 010 011 00100
    //  ue=0  -> "1"
    //  ue=1  -> "010"
    //  ue=2  -> "011"
    //  ue=3  -> "00100"
    // 13 bits packed into 2 bytes: 10100110 01000000.
    let bytes = [0b1010_0110, 0b0100_0000];
    let mut r = BitReader::new(&bytes);
    assert_eq!(r.ue(), 0);
    assert_eq!(r.ue(), 1);
    assert_eq!(r.ue(), 2);
    assert_eq!(r.ue(), 3);
}

#[test]
fn u_reads_most_significant_bit_first() {
    let bytes = [0b1011_0001, 0xff, 0x00, 0x12, 0x34, 0x56, 0x78];
    let mut r = BitReader::new(&bytes);
    assert_eq!(r.u(1), 1);
    assert_eq!(r.u(3), 0b011);
    assert_eq!(r.u(4), 1);
    assert_eq!(r.u(0), 0);
    assert_eq!(r.u(12), 0xff0);
    assert_eq!(r.u(4), 0);
    assert_eq!(r.u(32), 0x1234_5678);
    assert_eq!(r.bit_offset(), 56);
}

#[test]
fn flag_reads_one_bit() {
    let bytes = [0b0100_0000];
    let mut r = BitReader::new(&bytes);
    assert_eq!(r.flag(), 0);
    assert_eq!(r.flag(), 1);
    assert_eq!(r.bit_offset(), 2);
}

#[test]
fn ue_and_se_read_back_what_was_written() {
    for v in [0u64, 1, 2, 3, 4, 7, 8, 100, 255, 65535, 0x7fff_fffe, 0x7fff_ffff, 0xffff_fffe] {
        let code = ue_code(v);
        let bytes = pack(&code);
        let mut r = BitReader::new(&bytes);
        assert_eq!(r.ue() as u64, v);
        assert_eq!(r.bit_offset(), code.len() as u128);
    }
    for (code, k) in [(0u64, 0i32), (1, 1), (2, -1), (3, 2), (4, -2), (25, 13), (26, -13)] {
        let bytes = pack(&ue_code(code));
        assert_eq!(BitReader::new(&bytes).se(), k);
    }
    // The greatest code stands for the least number that comes up.
    let bytes = pack(&ue_code(0xffff_fffe));
    assert_eq!(BitReader::new(&bytes).se(), -0x7fff_ffff);
}

#[test]
fn overlong_prefix_gives_zero() {
    // 32 zeros: the number is given up and 32 bits are taken.
    let bytes = [0u8, 0, 0, 0, 0xff];
    let mut r = BitReader::new(&bytes);
    assert_eq!(r.ue(), 0);
    assert_eq!(r.bit_offset(), 32);
    assert_eq!(r.u(8), 0xff);
}

#[test]
fn reads_past_the_end_are_zero() {
    let bytes = [0xff];
    let mut r = BitReader::new(&bytes);
    assert_eq!(r.u(12), 0xff0);
    assert_eq!(r.ue(), 0);
    assert_eq!(r.se(), 0);
    assert_eq!(r.bit_offset(), 12);
    assert_eq!(r.u(32), 0);
    assert_eq!(r.bit_offset(), 44);
    // A zero run that ends with the data has no one bit behind it.
    let zeros = [0b1111_1000];
    let mut r = BitReader::new(&zeros);
    assert_eq!(r.u(5), 31);
    assert_eq!(r.ue(), 7);
    assert_eq!(r.bit_offset(), 11);
}

#[test]
fn s_reads_magnitude_and_sign() {
    // 0101 1 -> -5, 0101 0 -> 5.
    let bytes = [0b0101_1010, 0b1000_0000];
    let mut r = BitReader::new(&bytes);
    assert_eq!(r.s(4), -5);
    assert_eq!(r.s(4), 5);
    assert_eq!(r.bit_offset(), 10);
    assert_eq!(r.byte_offset(), 2);
}

#[test]
fn byte_offset_rounds_up() {
    let bytes = [0u8; 4];
    let mut r = BitReader::new(&bytes);
    assert_eq!(r.byte_offset(), 0);
    r.skip(1);
    assert_eq!(r.byte_offset(), 1);
    r.skip(7);
    assert_eq!(r.byte_offset(), 1);
    r.skip(1);
    assert_eq!(r.byte_offset(), 2);
}

#[test]
fn skip_ues_passes_over_numbers() {
    let mut bits = Vec::new();
    for v in [5u64, 0, 12, 3] {
        bits.extend(ue_code(v));
    }
    let bytes = pack(&bits);
    let mut r = BitReader::new(&bytes);
    r.skip_ues(3);
    assert_eq!(r.ue(), 3);
}

#[test]
fn more_rbsp_data_needs_a_second_one_bit() {
    // Only the trailing one bit is left.
    assert!(!BitReader::new(&[0b1000_0000]).more_rbsp_data());
    assert!(!BitReader::new(&[0b0000_0001, 0]).more_rbsp_data());
    // Nothing is left.
    assert!(!BitReader::new(&[]).more_rbsp_data());
    assert!(!BitReader::new(&[0, 0]).more_rbsp_data());
    // Payload in front of the trailing one bit.
    assert!(BitReader::new(&[0b0100_0000, 0b1000_0000]).more_rbsp_data());
    let bytes = [0b1100_0000];
    let mut r = BitReader::new(&bytes);
    assert!(r.more_rbsp_data());
    r.skip(1);
    assert!(!r.more_rbsp_data());
    r.skip(100);
    assert!(!r.more_rbsp_data());
}
