use helmet_link::loader::{
    decode_1bit, decode_auto, decode_grayscale, expand_1bit, normalize_samples, PipelineError,
};
use helmet_link::pack::{pack_byte, pack_rows, threshold};
use helmet_link::rotate::{rotate, Rot90};
use helmet_link::session::HelmetMcu;
use helmet_link::transport::{build_frame, plan_transmission, Step, PREAMBLE_BYTE};

fn encode_png(data: &[u8], w: u32, h: u32, depth: png::BitDepth) -> Vec<u8> {
    let mut out: Vec<u8> = Vec::new();
    {
        let mut enc = png::Encoder::new(&mut out, w, h);
        enc.set_color(png::ColorType::Grayscale);
        enc.set_depth(depth);
        let mut writer = enc.write_header().unwrap();
        writer.write_image_data(data).unwrap();
    }
    out
}

fn checkerboard(n: usize) -> Vec<u8> {
    let mut v = Vec::new();
    for row in 0..n {
        for col in 0..n {
            v.push(if (row + col) % 2 == 0 { 0 } else { 255 });
        }
    }
    v
}

#[test]
fn rotate_three_by_three() {
    let data: Vec<u8> = (0..9).collect();
    // x varies fastest: rows 2, 1, 0 of column 0, then of column 1, ...
    assert_eq!(rotate(data, (3, 3)), vec![6, 3, 0, 7, 4, 1, 8, 5, 2]);
}

#[test]
fn rotate_visits_every_index_once() {
    let data: Vec<u16> = (0..4096).collect();
    let out = rotate(data, (64, 64));
    assert_eq!(out.len(), 4096);
    let mut seen = vec![false; 4096];
    for v in &out {
        assert!(!seen[*v as usize]);
        seen[*v as usize] = true;
    }
    assert!(seen.iter().all(|s| *s));
    assert_eq!(out[0], 63 * 64);
    assert_eq!(out[1], 62 * 64);
    assert_eq!(out[64], 63 * 64 + 1);
}

#[test]
fn rotate_non_square_ends_early() {
    assert_eq!(rotate(vec![1u8, 2], (2, 1)), Vec::<u8>::new());
}

#[test]
fn cursor_steps_and_stops() {
    let mut it = Rot90::new(vec![1u8, 2, 3, 4], (2, 2));
    assert_eq!(it.internal_peek(), Some(3));
    assert_eq!(it.at_pre(1, 0), Some(2));
    assert_eq!(it.at_pre(0, 2), None);
    assert_eq!(it.at_pre(usize::MAX, usize::MAX), None);
    let mut got = Vec::new();
    while let Some(v) = it.next() {
        got.push(v);
    }
    assert_eq!(got, vec![3, 1, 4, 2]);
    assert_eq!(it.next(), None);
}

#[test]
fn threshold_cuts_at_mid_scale() {
    assert!(!threshold(127, false));
    assert!(threshold(128, false));
    assert!(threshold(127, true));
    assert!(!threshold(255, true));
}

#[test]
fn pack_byte_is_lsb_first() {
    let s = vec![255u8, 0, 0, 0, 0, 0, 0, 0, 255];
    assert_eq!(pack_byte(&s, 0, false), 0x01);
    assert_eq!(pack_byte(&s, 1, false), 0x80);
    assert_eq!(pack_byte(&s, 0, true), 0xFE);
    let w = vec![200u8, 10, 200, 200, 10, 10, 10, 200];
    assert_eq!(pack_byte(&w, 0, false), 1 + 4 + 8 + 128);
}

#[test]
fn pack_rows_pads_each_row_and_drops_partial_rows() {
    let s = vec![255u8; 64 + 63];
    let out = pack_rows(&s, false);
    assert_eq!(out, vec![0xFF, 0xFF, 0xFF, 0xFF, 0xFF, 0xFF, 0xFF, 0xFF, 0x00]);
    assert_eq!(pack_rows(&vec![0u8; 10], false), Vec::<u8>::new());
}

#[test]
fn frame_of_full_image_has_587_bytes() {
    let s = vec![0u8; 4096];
    let f = build_frame(&s, false);
    assert_eq!(f.len(), 587);
    assert!(f[..11].iter().all(|b| *b == PREAMBLE_BYTE));
    assert_eq!(f[11 + 8], 0);
    let inverted = build_frame(&s, true);
    assert_eq!(inverted[11], 0xFF);
    assert_eq!(inverted[11 + 8], 0);
}

#[test]
fn checkerboard_packs_to_alternating_bytes() {
    let t = HelmetMcu::new().send_rotated(checkerboard(64)).unwrap();
    assert_eq!(t.frame.len(), 587);
    for row in 0..64 {
        let unit = &t.frame[11 + row * 9..11 + row * 9 + 9];
        for b in &unit[..8] {
            assert!(*b == 0xAA || *b == 0x55);
        }
        // each unit is one source column; its parity decides the phase
        let expected = if row % 2 == 0 { 0x55 } else { 0xAA };
        assert_eq!(unit[0], expected);
        assert_eq!(unit[8], 0);
    }
}

#[test]
fn plan_pauses_after_every_second_row() {
    let steps = plan_transmission(4, 2, 17);
    assert_eq!(
        steps,
        vec![
            Step::Write { start: 0, end: 11 },
            Step::Flush,
            Step::Write { start: 11, end: 20 },
            Step::Flush,
            Step::Write { start: 20, end: 29 },
            Step::Flush,
            Step::Pause { millis: 17 },
            Step::Write { start: 29, end: 38 },
            Step::Flush,
            Step::Write { start: 38, end: 47 },
            Step::Flush,
            Step::Pause { millis: 17 },
            Step::Flush,
        ]
    );
    let full = plan_transmission(64, 2, 17);
    let pauses = full.iter().filter(|s| matches!(s, Step::Pause { .. })).count();
    assert_eq!(pauses, 32);
    let odd = plan_transmission(5, 3, 10);
    let pauses = odd.iter().filter(|s| matches!(s, Step::Pause { .. })).count();
    assert_eq!(pauses, 1);
}

#[test]
fn malformed_length_fails_the_size_check() {
    assert_eq!(normalize_samples(vec![0u8; 4095], (64, 64)), Err(PipelineError::SizeMismatch));
    assert_eq!(normalize_samples(vec![7u8; 4096], (64, 64)), Ok(vec![7u8; 4096]));
    let packed = normalize_samples(vec![0x01u8; 512], (64, 64)).unwrap();
    assert_eq!(packed.len(), 4096);
    assert_eq!(&packed[..8], &[255, 0, 0, 0, 0, 0, 0, 0]);
}

#[test]
fn expand_is_lsb_first() {
    assert_eq!(expand_1bit(&vec![0b1000_0101u8]), vec![255, 0, 255, 0, 0, 0, 0, 255]);
    assert_eq!(expand_1bit(&vec![]), Vec::<u8>::new());
}

#[test]
fn size_mismatch_before_anything_is_built() {
    let mcu = HelmetMcu::new();
    assert!(matches!(mcu.send_rotated(vec![0u8; 4095]), Err(PipelineError::SizeMismatch)));
}

#[test]
fn grayscale_png_round_trips() {
    let data: Vec<u8> = (0..4096u32).map(|i| (i % 251) as u8).collect();
    let bytes = encode_png(&data, 64, 64, png::BitDepth::Eight);
    assert_eq!(decode_grayscale(&bytes).unwrap(), data);
    assert_eq!(decode_auto(&bytes, (64, 64)).unwrap(), data);
}

#[test]
fn one_bit_png_expands() {
    let mut raw = vec![0u8; 512];
    raw[0] = 0x01;
    let bytes = encode_png(&raw, 64, 64, png::BitDepth::One);
    let samples = decode_1bit(&bytes).unwrap();
    assert_eq!(samples.len(), 4096);
    assert_eq!(&samples[..8], &[255, 0, 0, 0, 0, 0, 0, 0]);
    assert_eq!(decode_auto(&bytes, (64, 64)).unwrap(), samples);
}

#[test]
fn png_of_wrong_size_is_refused() {
    let bytes = encode_png(&vec![0u8; 100], 10, 10, png::BitDepth::Eight);
    assert_eq!(decode_auto(&bytes, (64, 64)), Err(PipelineError::SizeMismatch));
    let mcu = HelmetMcu::new();
    assert!(matches!(mcu.send_png(&bytes), Err(PipelineError::SizeMismatch)));
}

#[test]
fn garbage_is_a_decode_error() {
    assert_eq!(decode_grayscale(&vec![1u8, 2, 3]), Err(PipelineError::Decode));
    let mcu = HelmetMcu::new();
    assert!(matches!(mcu.send_map(&vec![0u8; 20]), Err(PipelineError::Decode)));
}

#[test]
fn session_sends_a_png_image() {
    let bytes = encode_png(&checkerboard(64), 64, 64, png::BitDepth::Eight);
    let mcu = HelmetMcu::new();
    let t = mcu.send_png_g(&bytes).unwrap();
    assert_eq!(t.frame.len(), 587);
    assert_eq!(t.steps.len(), 2 + 64 * 2 + 32 + 1);
    let one_bit = encode_png(&vec![0xFFu8; 512], 64, 64, png::BitDepth::One);
    let t = mcu.send_png_1bit(&one_bit).unwrap();
    assert!(t.frame[11..].iter().enumerate().all(|(i, b)| if i % 9 == 8 { *b == 0 } else { *b == 0xFF }));
}
