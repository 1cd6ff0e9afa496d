//! Raw capture buffers: repacking padded rows, halving the resolution and
//! compressing the result.
use vstd::arithmetic::div_mod::lemma_fundamental_div_mod_converse;
use crate::bus::{EncodedFrame, FrameSequencer};
use image::codecs::jpeg::JpegEncoder;
use image::{ColorType, ImageEncoder};
use vstd::prelude::*;

verus! {

/// A captured frame as the display delivers it: `height` rows of `pitch`
/// bytes each, of which the first `width * 4` hold the row's pixels.
pub struct RawFrame {
    pub width: usize,
    pub height: usize,
    pub pitch: usize,
    pub data: Vec<u8>,
}

impl RawFrame {
    /// The rows the pitch describes all lie inside the buffer.
    pub open spec fn wf(&self) -> bool {
        self.pitch * self.height <= self.data@.len()
    }

    /// A frame whose row pitch is the buffer's length over its height.
    pub fn from_capture(data: Vec<u8>, width: usize, height: usize) -> (r: RawFrame)
        ensures
            r.wf(),
            r.width == width,
            r.height == height,
            r.data@ == data@,
            r.pitch == (if height == 0 { 0 } else { data@.len() / (height as nat) }),
    {
        let pitch: usize = if height == 0 { 0 } else { data.len() / height };
        proof {
            if height > 0 {
                vstd::arithmetic::div_mod::lemma_fundamental_div_mod(data@.len() as int, height as int);
                assert(pitch * height <= data@.len()) by (nonlinear_arith)
                    requires
                        pitch == data@.len() as int / (height as int),
                        height > 0,
                        data@.len() as int == (height as int) * (data@.len() as int / (height as int)) + (data@.len() as int) % (height as int),
                        (data@.len() as int) % (height as int) >= 0;
            }
        }
        RawFrame { width, height, pitch, data }
    }
}

/// Byte `i` of the tightly packed copy of a frame: row `i / row_len`,
/// column `i % row_len`, or zero where that row runs past the buffer.
pub open spec fn repacked_at(src: Seq<u8>, row_len: int, pitch: int, i: int) -> u8 {
    let y = i / row_len;
    let x = i % row_len;
    if y * pitch + row_len <= src.len() {
        src[y * pitch + x]
    } else {
        0u8
    }
}

/// Copies the leading `width * 4` bytes of each row into a buffer of
/// exactly `width * height * 4` bytes, leaving zeros for rows that do not
/// fit in the source.
pub fn repack_rows(frame: &RawFrame) -> (r: Vec<u8>)
    requires
        frame.wf(),
        frame.width * frame.height * 4 <= usize::MAX,
    ensures
        r@.len() == frame.width * frame.height * 4,
        forall|i: int|
            0 <= i < r@.len() ==> r@[i] == repacked_at(frame.data@, frame.width * 4, frame.pitch as int, i),
{
    if frame.height == 0 || frame.width == 0 {
        proof {
            assert(frame.width * frame.height * 4 == 0) by (nonlinear_arith)
                requires frame.height == 0 || frame.width == 0;
        }
        return Vec::new();
    }
    let width = frame.width;
    let height = frame.height;
    let pitch = frame.pitch;
    proof {
        assert(width * 4 <= width * height * 4) by (nonlinear_arith)
            requires height >= 1;
    }
    let row_len: usize = width * 4;
    proof {
        assert(row_len * height == width * height * 4) by (nonlinear_arith)
            requires row_len == width * 4;
    }
    let len: usize = frame.data.len();
    let mut out: Vec<u8> = Vec::new();
    let mut y: usize = 0;
    while y < height
        invariant
            frame.wf(),
            width == frame.width,
            height == frame.height,
            pitch == frame.pitch,
            len == frame.data@.len(),
            row_len == width * 4,
            row_len > 0,
            row_len * height == width * height * 4,
            y <= height,
            width * height * 4 <= usize::MAX,
            out@.len() == y * row_len,
            forall|i: int| 0 <= i < out@.len() ==> out@[i] == repacked_at(frame.data@, row_len as int, pitch as int, i),
        decreases height - y,
    {
        proof {
            assert(y * pitch <= len) by (nonlinear_arith)
                requires y <= height, pitch * height <= len;
            assert((y + 1) * row_len <= row_len * height) by (nonlinear_arith)
                requires y < height, row_len > 0;
            assert(row_len * height == width * height * 4) by (nonlinear_arith)
                requires row_len == width * 4;
        }
        let start: usize = y * pitch;
        let fits = len - start >= row_len;
        let mut x: usize = 0;
        while x < row_len
            invariant
                frame.wf(),
                len == frame.data@.len(),
                row_len > 0,
                x <= row_len,
                y < height,
                start == y * pitch,
                start <= len,
                fits == (start + row_len <= len),
                (y + 1) * row_len <= usize::MAX,
                out@.len() == y * row_len + x,
                forall|i: int| 0 <= i < out@.len() ==> out@[i] == repacked_at(frame.data@, row_len as int, pitch as int, i),
            decreases row_len - x,
        {
            proof {
                assert((y + 1) * row_len == y * row_len + row_len) by (nonlinear_arith);
                lemma_fundamental_div_mod_converse(y * row_len + x, row_len as int, y as int, x as int);
            }
            let b: u8 = if fits { frame.data[start + x] } else { 0u8 };
            out.push(b);
            x = x + 1;
        }
        proof {
            assert((y + 1) * row_len == y * row_len + row_len) by (nonlinear_arith);
        }
        y = y + 1;
    }
    proof {
        assert(y * row_len == row_len * height) by (nonlinear_arith)
            requires y == height;
    }
    out
}

/// For a source whose rows of `pitch >= width * 4` bytes all lie in the
/// buffer, each row of the packed copy equals the leading `width * 4` bytes
/// of the same source row.
pub proof fn lemma_repack_row(src: Seq<u8>, width: int, height: int, pitch: int, y: int)
    requires
        0 <= y,
        pitch >= width * 4,
        pitch * height <= src.len(),
        y < height,
        width > 0,
    ensures
        Seq::new((width * 4) as nat, |x: int| repacked_at(src, width * 4, pitch, y * (width * 4) + x))
            == src.subrange(y * pitch, y * pitch + width * 4),
{
    let row_len = width * 4;
    assert((y + 1) * pitch <= pitch * height) by (nonlinear_arith)
        requires y < height, pitch >= 0;
    assert((y + 1) * pitch == y * pitch + pitch) by (nonlinear_arith);
    assert forall|x: int| 0 <= x < row_len implies #[trigger] repacked_at(src, row_len, pitch, y * row_len + x)
        == src[y * pitch + x] by {
        lemma_fundamental_div_mod_converse(y * row_len + x, row_len as int, y as int, x);
    }
    assert(Seq::new(row_len as nat, |x: int| repacked_at(src, row_len, pitch, y * row_len + x))
        =~= src.subrange(y * pitch, y * pitch + row_len));
}

/// Byte `i` of the half-size RGB image: channel `i % 3` of output pixel
/// `i / 3`, taken from the source pixel at twice its column and row.
pub open spec fn downscaled_at(src: Seq<u8>, src_w: int, dst_w: int, i: int) -> u8 {
    let p = i / 3;
    let c = i % 3;
    let y = p / dst_w;
    let x = p % dst_w;
    src[((2 * y) * src_w + 2 * x) * 4 + c]
}

/// Number of bytes the half-size RGB image of `src_h` source rows and
/// `dst_w` output columns occupies.
pub open spec fn downscaled_len(src_h: int, dst_w: int) -> int {
    (src_h / 2) * dst_w * 3
}

/// Halves an RGBA image in each axis by nearest-neighbour sampling and
/// drops the alpha channel, writing the RGB bytes to the front of `dst`.
pub fn fast_downscale_rgba_to_rgb(src: &[u8], src_w: usize, src_h: usize, dst: &mut [u8], dst_w: usize)
    requires
        dst_w * 2 <= src_w,
        src_w * src_h * 4 <= src@.len(),
        downscaled_len(src_h as int, dst_w as int) <= old(dst)@.len(),
    ensures
        final(dst)@.len() == old(dst)@.len(),
        forall|i: int|
            0 <= i < downscaled_len(src_h as int, dst_w as int) ==> final(dst)@[i] == downscaled_at(
                src@,
                src_w as int,
                dst_w as int,
                i,
            ),
        forall|i: int| downscaled_len(src_h as int, dst_w as int) <= i < old(dst)@.len() ==> final(dst)@[i] == old(dst)@[i],
{
    let ghost n = downscaled_len(src_h as int, dst_w as int);
    let src_len: usize = src.len();
    let rows: usize = src_h / 2;
    let mut dst_idx: usize = 0;
    let mut y: usize = 0;
    while y < rows
        invariant
            dst_w * 2 <= src_w,
            src_w * src_h * 4 <= src@.len(),
            src_len == src@.len(),
            n == downscaled_len(src_h as int, dst_w as int),
            n <= dst@.len(),
            dst@.len() == old(dst)@.len(),
            rows == src_h / 2,
            y <= rows,
            dst_idx == y * dst_w * 3,
            forall|i: int| 0 <= i < dst_idx ==> dst@[i] == downscaled_at(src@, src_w as int, dst_w as int, i),
            forall|i: int| n <= i < dst@.len() ==> dst@[i] == old(dst)@[i],
        decreases rows - y,
    {
        proof {
            assert((y + 1) * dst_w * 3 <= rows * dst_w * 3) by (nonlinear_arith)
                requires y < rows;
            assert(2 * y + 1 < src_h) by {
                vstd::arithmetic::div_mod::lemma_fundamental_div_mod(src_h as int, 2);
            }
            assert((2 * y + 1) * src_w * 4 <= src_w * src_h * 4) by (nonlinear_arith)
                requires 2 * y + 1 < src_h;
            assert((y * 2) * src_w * 4 <= (2 * y + 1) * src_w * 4) by (nonlinear_arith);
            assert((y * 2) * src_w <= (y * 2) * src_w * 4) by (nonlinear_arith);
        }
        let row_start: usize = (y * 2) * src_w * 4;
        let mut x: usize = 0;
        while x < dst_w
            invariant
                dst_w * 2 <= src_w,
                (2 * y + 1) * src_w * 4 <= src@.len(),
                src_len == src@.len(),
                row_start == (y * 2) * src_w * 4,
                n == downscaled_len(src_h as int, dst_w as int),
                n == rows * dst_w * 3,
                n <= dst@.len(),
                dst@.len() == old(dst)@.len(),
                y < rows,
                (y + 1) * dst_w * 3 <= n,
                x <= dst_w,
                dst_idx == (y * dst_w + x) * 3,
                forall|i: int| 0 <= i < dst_idx ==> dst@[i] == downscaled_at(src@, src_w as int, dst_w as int, i),
                forall|i: int| n <= i < dst@.len() ==> dst@[i] == old(dst)@[i],
            decreases dst_w - x,
        {
            proof {
                assert((y * dst_w + x) * 3 + 3 <= (y + 1) * dst_w * 3) by (nonlinear_arith)
                    requires x < dst_w;
                assert(((2 * y) * src_w + 2 * x) * 4 + 3 < (2 * y + 1) * src_w * 4) by (nonlinear_arith)
                    requires 2 * x + 1 < src_w + 1, x < dst_w, dst_w * 2 <= src_w;
                assert(row_start + (x * 2) * 4 == ((2 * y) * src_w + 2 * x) * 4) by (nonlinear_arith)
                    requires row_start == (y * 2) * src_w * 4;
                let p = y * dst_w + x;
                lemma_fundamental_div_mod_converse(p as int, dst_w as int, y as int, x as int);
                lemma_fundamental_div_mod_converse(p * 3 + 0, 3, p as int, 0);
                lemma_fundamental_div_mod_converse(p * 3 + 1, 3, p as int, 1);
                lemma_fundamental_div_mod_converse(p * 3 + 2, 3, p as int, 2);
            }
            assert(x * 2 * 4 <= ((2 * y) * src_w + 2 * x) * 4) by (nonlinear_arith)
                requires y >= 0, src_w >= 0;
            let src_idx: usize = row_start + (x * 2) * 4;
            dst[dst_idx] = src[src_idx];
            dst[dst_idx + 1] = src[src_idx + 1];
            dst[dst_idx + 2] = src[src_idx + 2];
            dst_idx = dst_idx + 3;
            x = x + 1;
        }
        proof {
            assert((y * dst_w + dst_w) * 3 == (y + 1) * dst_w * 3) by (nonlinear_arith);
        }
        y = y + 1;
    }
}

/// The half-size RGB copy of a `width` x `height` RGBA image.
pub fn downscale_half(src: &[u8], width: usize, height: usize) -> (r: Vec<u8>)
    requires
        width * height * 4 <= src@.len(),
    ensures
        r@.len() == downscaled_len(height as int, width as int / 2),
        forall|i: int| 0 <= i < r@.len() ==> r@[i] == downscaled_at(src@, width as int, width as int / 2, i),
{
    let dst_w: usize = width / 2;
    proof {
        assert((height / 2) * dst_w * 3 <= width * height * 4) by (nonlinear_arith)
            requires dst_w == width / 2, width * height * 4 <= src@.len();
        assert((height / 2) * dst_w <= (height / 2) * dst_w * 3) by (nonlinear_arith);
    }
    let src_len: usize = src.len();
    let n: usize = (height / 2) * dst_w * 3;
    let mut dst: Vec<u8> = vec![0u8; n];
    fast_downscale_rgba_to_rgb(src, width, height, dst.as_mut_slice(), dst_w);
    dst
}

/// Pixel `(x, y)` of the half-size image holds the red, green and blue
/// bytes of source pixel `(2x, 2y)`.
pub proof fn lemma_downscale_pixel(src: Seq<u8>, src_w: int, dst_w: int, x: int, y: int, c: int)
    requires
        0 <= x < dst_w,
        0 <= y,
        0 <= c < 3,
    ensures
        downscaled_at(src, src_w, dst_w, (y * dst_w + x) * 3 + c) == src[((2 * y) * src_w + 2 * x) * 4 + c],
{
    let p = y * dst_w + x;
    lemma_fundamental_div_mod_converse(p, dst_w, y, x);
    lemma_fundamental_div_mod_converse(p * 3 + c, 3, p, c);
    assert((y * dst_w + x) * 3 + c == p * 3 + c);
}

/// The packed copy of a frame's pixels, as `repack_rows` builds it.
pub open spec fn repacked(frame: RawFrame) -> Seq<u8> {
    Seq::new(
        (frame.width * frame.height * 4) as nat,
        |i: int| repacked_at(frame.data@, frame.width * 4, frame.pitch as int, i),
    )
}

/// The JPEG stream that the image codec makes of `pixels` (four bytes a
/// pixel when `rgba`, else three) at the given quality, or `None` where it
/// refuses them.
pub uninterp spec fn jpeg_of(pixels: Seq<u8>, width: u32, height: u32, rgba: bool, quality: u8) -> Option<Seq<u8>>;

/// Relies on image's `JpegEncoder::new_with_quality` and its
/// `ImageEncoder::write_image`: the bytes written depend on the pixels,
/// the size, the layout and the quality alone. It panics unless the buffer
/// holds exactly `width * height` pixels.
#[verifier::external_body]
fn encode_jpeg(pixels: &[u8], width: u32, height: u32, rgba: bool, quality: u8) -> (r: Option<Vec<u8>>)
    requires
        pixels@.len() == width * height * (if rgba { 4int } else { 3int }),
    ensures
        r is Some <==> jpeg_of(pixels@, width, height, rgba, quality) is Some,
        r is Some ==> jpeg_of(pixels@, width, height, rgba, quality) == Some(r->0@),
{
    let mut out: Vec<u8> = Vec::new();
    let color = if rgba { ColorType::Rgba8 } else { ColorType::Rgb8 };
    match JpegEncoder::new_with_quality(&mut out, quality).write_image(pixels, width, height, color) {
        Ok(()) => Some(out),
        Err(_) => None,
    }
}

/// Turns the codec's outcome into a published frame: a failed encoding is
/// dropped and uses no sequence number.
pub fn publish_encoded(encoded: Option<Vec<u8>>, seq: &mut FrameSequencer) -> (r: Option<EncodedFrame>)
    ensures
        encoded is None ==> r is None && final(seq).next == old(seq).next,
        encoded is Some && old(seq).next < u64::MAX ==> r == Some(
            EncodedFrame { seq: old(seq).next, data: encoded->0 },
        ) && final(seq).next == old(seq).next + 1,
        encoded is Some && old(seq).next == u64::MAX ==> r is None && final(seq).next == old(seq).next,
{
    match encoded {
        None => None,
        Some(data) => seq.stamp(data),
    }
}

/// One capture tick at full size: packs the frame's rows, compresses them
/// as RGBA, and stamps the result with the next sequence number.
pub fn capture_tick(frame: &RawFrame, quality: u8, seq: &mut FrameSequencer) -> (r: Option<EncodedFrame>)
    requires
        frame.wf(),
        frame.width * frame.height * 4 <= usize::MAX,
    ensures
        ({
            let fits = frame.width <= u32::MAX && frame.height <= u32::MAX;
            let enc = jpeg_of(repacked(*frame), frame.width as u32, frame.height as u32, true, quality);
            if fits && enc is Some && old(seq).next < u64::MAX {
                r == Some(EncodedFrame { seq: old(seq).next, data: r->0.data }) && r->0.data@ == enc->0
                    && final(seq).next == old(seq).next + 1
            } else {
                r is None && final(seq).next == old(seq).next
            }
        }),
{
    if frame.width > u32::MAX as usize || frame.height > u32::MAX as usize {
        return None;
    }
    let pixels = repack_rows(frame);
    assert(pixels@ =~= repacked(*frame));
    let encoded = encode_jpeg(pixels.as_slice(), frame.width as u32, frame.height as u32, true, quality);
    publish_encoded(encoded, seq)
}

/// One capture tick at half size: samples every second pixel of an RGBA
/// image, compresses the RGB result, and stamps it.
pub fn capture_tick_half(src: &[u8], width: usize, height: usize, quality: u8, seq: &mut FrameSequencer) -> (r: Option<
    EncodedFrame,
>)
    requires
        width * height * 4 <= src@.len(),
    ensures
        ({
            let fits = width <= u32::MAX && height <= u32::MAX;
            let half = Seq::new(
                downscaled_len(height as int, width as int / 2) as nat,
                |i: int| downscaled_at(src@, width as int, width as int / 2, i),
            );
            let enc = jpeg_of(half, (width / 2) as u32, (height / 2) as u32, false, quality);
            if fits && enc is Some && old(seq).next < u64::MAX {
                r == Some(EncodedFrame { seq: old(seq).next, data: r->0.data }) && r->0.data@ == enc->0
                    && final(seq).next == old(seq).next + 1
            } else {
                r is None && final(seq).next == old(seq).next
            }
        }),
{
    if width > u32::MAX as usize || height > u32::MAX as usize {
        return None;
    }
    let rgb = downscale_half(src, width, height);
    let ghost half = Seq::new(
        downscaled_len(height as int, width as int / 2) as nat,
        |i: int| downscaled_at(src@, width as int, width as int / 2, i),
    );
    assert(rgb@ =~= half);
    proof {
        assert(downscaled_len(height as int, width as int / 2) == (width / 2) as u32 * (height / 2) as u32 * 3int)
            by (nonlinear_arith)
            requires width <= u32::MAX, height <= u32::MAX;
    }
    let encoded = encode_jpeg(rgb.as_slice(), (width / 2) as u32, (height / 2) as u32, false, quality);
    publish_encoded(encoded, seq)
}

} // verus!
