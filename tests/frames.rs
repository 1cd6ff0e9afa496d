use universe_remote::bus::{EncodedFrame, FrameCursor, FrameSequencer};
use universe_remote::frame::{
    capture_tick, capture_tick_half, downscale_half, fast_downscale_rgba_to_rgb, publish_encoded,
    repack_rows, RawFrame,
};

fn padded_frame(width: usize, height: usize, pitch: usize) -> Vec<u8> {
    let mut data = Vec::new();
    for y in 0..height {
        for x in 0..pitch {
            data.push((y * 31 + x) as u8);
        }
    }
    data
}

#[test]
fn repack_drops_row_padding() {
    let data = padded_frame(2, 3, 12);
    let frame = RawFrame::from_capture(data.clone(), 2, 3);
    assert_eq!(frame.pitch, 12);
    let packed = repack_rows(&frame);
    assert_eq!(packed.len(), 2 * 3 * 4);
    for y in 0..3 {
        assert_eq!(&packed[y * 8..y * 8 + 8], &data[y * 12..y * 12 + 8]);
    }
}

#[test]
fn repack_tight_rows_is_identity() {
    let data = padded_frame(3, 2, 12);
    let frame = RawFrame::from_capture(data.clone(), 3, 2);
    assert_eq!(repack_rows(&frame), data);
}

#[test]
fn repack_zero_fills_rows_past_the_buffer() {
    let frame = RawFrame { width: 2, height: 2, pitch: 8, data: vec![7u8; 10] };
    let packed = repack_rows(&frame);
    assert_eq!(&packed[0..8], &[7u8; 8]);
    assert_eq!(&packed[8..16], &[0u8; 8]);
}

#[test]
fn repack_empty_frame() {
    let frame = RawFrame::from_capture(Vec::new(), 5, 0);
    assert_eq!(frame.pitch, 0);
    assert!(repack_rows(&frame).is_empty());
}

#[test]
fn downscale_by_two_samples_even_pixels() {
    let (w, h) = (4usize, 4usize);
    let src: Vec<u8> = (0..(w * h * 4)).map(|i| i as u8).collect();
    let out = downscale_half(&src, w, h);
    assert_eq!(out.len(), 2 * 2 * 3);
    for y in 0..2 {
        for x in 0..2 {
            for c in 0..3 {
                assert_eq!(out[(y * 2 + x) * 3 + c], src[((2 * y) * w + 2 * x) * 4 + c]);
            }
        }
    }
    assert_eq!(&out[0..3], &[0, 1, 2]);
    assert_eq!(&out[3..6], &[8, 9, 10]);
    assert_eq!(&out[6..9], &[32, 33, 34]);
}

#[test]
fn downscale_odd_size_rounds_down() {
    let src = vec![9u8; 5 * 3 * 4];
    let out = downscale_half(&src, 5, 3);
    assert_eq!(out.len(), 2 * 1 * 3);
}

#[test]
fn fast_downscale_leaves_tail_untouched() {
    let src: Vec<u8> = (0..64u8).collect();
    let mut dst = vec![0xAAu8; 16];
    fast_downscale_rgba_to_rgb(&src, 4, 4, &mut dst, 2);
    assert_eq!(&dst[0..12], &[0, 1, 2, 8, 9, 10, 32, 33, 34, 40, 41, 42]);
    assert_eq!(&dst[12..16], &[0xAA; 4]);
}

#[test]
fn capture_tick_encodes_jpeg_and_numbers_frames() {
    let frame = RawFrame::from_capture(padded_frame(8, 8, 40), 8, 8);
    let mut seq = FrameSequencer::new();
    let first = capture_tick(&frame, 60, &mut seq).expect("encodes");
    assert_eq!(first.seq, 0);
    assert_eq!(&first.data[0..2], &[0xFF, 0xD8]);
    let second = capture_tick(&frame, 60, &mut seq).expect("encodes");
    assert_eq!(second.seq, 1);
    assert_eq!(second.data, first.data);
    assert_eq!(seq.next, 2);
}

#[test]
fn capture_tick_drops_frames_the_codec_refuses() {
    let frame = RawFrame::from_capture(vec![0u8; 70_000 * 4], 70_000, 1);
    let mut seq = FrameSequencer::new();
    assert!(capture_tick(&frame, 60, &mut seq).is_none());
    assert_eq!(seq.next, 0);
}

#[test]
fn capture_tick_half_encodes_rgb() {
    let src = vec![200u8; 16 * 16 * 4];
    let mut seq = FrameSequencer { next: 41 };
    let f = capture_tick_half(&src, 16, 16, 70, &mut seq).expect("encodes");
    assert_eq!(f.seq, 41);
    assert_eq!(&f.data[0..2], &[0xFF, 0xD8]);
    assert_eq!(seq.next, 42);
}

#[test]
fn publish_failed_encoding_uses_no_number() {
    let mut seq = FrameSequencer::new();
    assert!(publish_encoded(None, &mut seq).is_none());
    assert_eq!(seq.next, 0);
    let f: EncodedFrame = publish_encoded(Some(vec![1, 2]), &mut seq).unwrap();
    assert_eq!((f.seq, f.data), (0, vec![1, 2]));
}

#[test]
fn sequencer_stops_at_the_last_number() {
    let mut seq = FrameSequencer { next: u64::MAX };
    assert!(seq.stamp(vec![1]).is_none());
    assert_eq!(seq.next, u64::MAX);
}

#[test]
fn cursor_forwards_increasing_numbers_only() {
    let mut c = FrameCursor::new();
    let offered = [3u64, 3, 4, 2, 9, 9, 10, 5];
    let taken: Vec<u64> = offered.iter().copied().filter(|&s| c.accept(s)).collect();
    assert_eq!(taken, vec![3, 4, 9, 10]);
    assert_eq!(c.last, Some(10));
}

#[test]
fn slow_cursor_does_not_hold_back_another() {
    let mut fast = FrameCursor::new();
    let mut slow = FrameCursor::new();
    for s in 0..20u64 {
        assert!(fast.accept(s));
        if s % 7 == 0 {
            assert!(slow.accept(s));
        }
    }
    assert_eq!(fast.last, Some(19));
    assert_eq!(slow.last, Some(14));
}
