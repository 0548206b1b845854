use lamp_blueprint::models::{BlueprintError, Signal, SignalRef};
use lamp_blueprint::pixels::{
    frame_to_outputs, pack_grayscale_frames_to_outputs, rgb_to_int, Frame,
};

fn catalog(n: usize) -> Vec<Signal> {
    let mut v = Vec::new();
    for i in 0..n {
        v.push(Signal { type_: "item".to_string(), name: format!("s{}", i), quality: None });
    }
    v
}

fn luma(width: u32, height: u32, pixels: Vec<u8>) -> Frame {
    Frame { width, height, channels: 1, pixels }
}

#[test]
fn rgb_packs_channels_high_to_low() {
    assert_eq!(rgb_to_int(0x12, 0x34, 0x56), 0x123456);
    assert_eq!(rgb_to_int(255, 255, 255), 0xFFFFFF);
    assert_eq!(rgb_to_int(0, 0, 0), 0);
    assert_eq!(rgb_to_int(1, 0, 0), 65536);
}

#[test]
fn color_frame_outputs_follow_pixels() {
    let frame = Frame { width: 2, height: 1, channels: 3, pixels: vec![255, 0, 0, 0, 0, 255] };
    let out = frame_to_outputs(&frame, &catalog(2)).unwrap();
    assert_eq!(out.len(), 2);
    assert_eq!(out[0].constant, Some(0xFF0000));
    assert_eq!(out[1].constant, Some(0x0000FF));
    assert!(!out[0].copy_count_from_input);
    assert_eq!(out[1].signal, SignalRef::Catalog(1));
}

#[test]
fn luma_frame_outputs_are_gray() {
    let frame = luma(1, 1, vec![0x40]);
    let out = frame_to_outputs(&frame, &catalog(1)).unwrap();
    assert_eq!(out[0].constant, Some(0x404040));
}

#[test]
fn color_frame_too_large_for_catalog() {
    let frame = Frame { width: 2, height: 2, channels: 3, pixels: vec![0; 12] };
    let r = frame_to_outputs(&frame, &catalog(3));
    assert_eq!(r.unwrap_err(), BlueprintError::InsufficientSignalBudget);
}

#[test]
fn crop_keeps_columns() {
    let frame = luma(3, 2, vec![1, 2, 3, 4, 5, 6]);
    let c = frame.crop(1, 2);
    assert_eq!(c.width, 2);
    assert_eq!(c.height, 2);
    assert_eq!(c.pixels, vec![2, 3, 5, 6]);
}

#[test]
fn pack_one_bit_thresholds_at_128() {
    let frames = vec![luma(2, 1, vec![128, 127]), luma(2, 1, vec![0, 255]), luma(2, 1, vec![200, 200])];
    let out = pack_grayscale_frames_to_outputs(&frames, &catalog(2), 1).unwrap();
    assert_eq!(out[0].constant, Some(0b101));
    assert_eq!(out[1].constant, Some(0b110));
}

#[test]
fn pack_four_bits_keeps_top_nibbles() {
    let frames = vec![luma(1, 1, vec![0xAB]), luma(1, 1, vec![0x3C])];
    let out = pack_grayscale_frames_to_outputs(&frames, &catalog(1), 4).unwrap();
    assert_eq!(out[0].constant, Some(0x3A));
}

#[test]
fn pack_eight_bits_reads_as_signed() {
    let frames = vec![
        luma(1, 1, vec![0x01]),
        luma(1, 1, vec![0x02]),
        luma(1, 1, vec![0x03]),
        luma(1, 1, vec![0xFF]),
    ];
    let out = pack_grayscale_frames_to_outputs(&frames, &catalog(1), 8).unwrap();
    assert_eq!(out[0].constant, Some(0xFF030201u32 as i32));
    assert!(out[0].constant.unwrap() < 0);
}

#[test]
fn pack_then_unpack_recovers_each_sample() {
    for bits in [1u32, 4, 8] {
        let per = 32 / bits;
        let mut frames = Vec::new();
        for j in 0..per {
            frames.push(luma(1, 1, vec![(j * 37 + 11) as u8]));
        }
        let out = pack_grayscale_frames_to_outputs(&frames, &catalog(1), bits).unwrap();
        let word = out[0].constant.unwrap() as u32;
        let mask = (1u32 << bits) - 1;
        for j in 0..per {
            let l = frames[j as usize].pixels[0];
            let expected = if bits == 1 {
                if l >= 128 { 1 } else { 0 }
            } else if bits == 4 {
                (l >> 4) as u32
            } else {
                l as u32
            };
            assert_eq!((word >> (bits * j)) & mask, expected);
        }
    }
}

#[test]
fn pack_of_no_frames_is_empty_input() {
    let r = pack_grayscale_frames_to_outputs(&Vec::new(), &catalog(1), 1);
    assert_eq!(r.unwrap_err(), BlueprintError::EmptyInput);
}

#[test]
fn pack_too_large_for_catalog() {
    let frames = vec![luma(2, 1, vec![1, 2])];
    let r = pack_grayscale_frames_to_outputs(&frames, &catalog(1), 8);
    assert_eq!(r.unwrap_err(), BlueprintError::InsufficientSignalBudget);
}
