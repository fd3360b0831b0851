//! Frames.

use oxideav_vdpau::frame::{nv12_to_i420, read_bits, DecodeAction, Nv12Planes};

#[test]
fn nv12_is_deinterleaved() {
    let planes = Nv12Planes {
        y: (0..24).collect(),
        uv: vec![1, 101, 2, 102, 3, 103, 4, 104, 5, 105, 6, 106],
    };
    let frame = nv12_to_i420(6, 4, planes);
    assert_eq!(frame.width, 6);
    assert_eq!(frame.height, 4);
    assert_eq!(frame.y, (0..24).collect::<Vec<u8>>());
    assert_eq!(frame.u, vec![1, 2, 3, 4, 5, 6]);
    assert_eq!(frame.v, vec![101, 102, 103, 104, 105, 106]);
}

#[test]
fn odd_sizes_round_the_chroma_planes_down() {
    let frame = nv12_to_i420(
        5,
        3,
        Nv12Planes {
            y: vec![0; 15],
            uv: vec![1, 2, 3, 4],
        },
    );
    assert_eq!(frame.u, vec![1, 3]);
    assert_eq!(frame.v, vec![2, 4]);
    match read_bits::<()>(5, 3) {
        DecodeAction::ReadBits {
            plane_lens,
            pitches,
            ..
        } => {
            assert_eq!(plane_lens, [15, 4]);
            assert_eq!(pitches, [5, 4]);
        }
        _ => panic!("expected a read-back"),
    }
}

#[test]
fn interleaved_planes_come_back() {
    let u: Vec<u8> = (0..50).collect();
    let v: Vec<u8> = (100..150).collect();
    let mut uv = Vec::new();
    for (a, b) in u.iter().zip(v.iter()) {
        uv.push(*a);
        uv.push(*b);
    }
    let frame = nv12_to_i420(
        20,
        10,
        Nv12Planes {
            y: vec![9; 200],
            uv,
        },
    );
    assert_eq!(frame.u, u);
    assert_eq!(frame.v, v);
}
