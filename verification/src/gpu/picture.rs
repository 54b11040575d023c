//! PNG pictures as RGBA pixels.
use vstd::prelude::*;

verus! {

/// PNG colour types, by their number in the file format.
pub const GRAYSCALE: u8 = 0;

pub const RGB: u8 = 2;

pub const GRAYSCALE_ALPHA: u8 = 4;

pub const RGBA: u8 = 6;

/// The first frame of a PNG file: the size in its header, its colour type and
/// bits per sample, and the samples row by row.
#[derive(Debug)]
pub struct PngFrame {
    pub width: u32,
    pub height: u32,
    pub color: u8,
    pub depth: u8,
    pub data: Vec<u8>,
}

/// The mathematical content of a [`PngFrame`].
pub struct Frame {
    pub width: u32,
    pub height: u32,
    pub color: u8,
    pub depth: u8,
    pub data: Seq<u8>,
}

impl View for PngFrame {
    type V = Frame;

    open spec fn view(&self) -> Frame {
        Frame {
            width: self.width,
            height: self.height,
            color: self.color,
            depth: self.depth,
            data: self.data@,
        }
    }
}

/// What the PNG decoder makes of a file: its first frame, or nothing where
/// the file is malformed or the frame is more than `longest` bytes.
pub uninterp spec fn png_frame(bytes: Seq<u8>, longest: int) -> Option<Frame>;

/// `png::Decoder::read_info` on `bytes`, then `png::Reader::next_frame` into a
/// buffer of the size that `png::Reader::output_buffer_size` asks for, cut to
/// the bytes written. Any error of theirs gives `None`. The samples are as
/// stored: no transformation is asked of the decoder. The outcome depends on
/// the bytes, and on the target only through the longest buffer it allows.
#[verifier::external_body]
fn decode_png(bytes: &[u8]) -> (r: Option<PngFrame>)
    ensures
        match r {
            Some(f) => png_frame(bytes@, isize::MAX as int) == Some(f@),
            None => png_frame(bytes@, isize::MAX as int) is None,
        },
{
    let mut reader = png::Decoder::new(std::io::Cursor::new(bytes)).read_info().ok()?;
    let mut data = vec![0u8; reader.output_buffer_size()?];
    let frame = reader.next_frame(&mut data).ok()?;
    data.truncate(frame.buffer_size());
    let info = reader.info();
    Some(
        PngFrame {
            width: info.width,
            height: info.height,
            color: info.color_type as u8,
            depth: info.bit_depth as u8,
            data,
        },
    )
}

/// The RGBA bytes of samples of 8 bits; nothing for other colour types and
/// depths. A pixel cut off at the end is dropped.
pub open spec fn rgba_bytes(f: Frame) -> Option<Seq<u8>> {
    let d = f.data;
    if f.depth != 8 {
        None
    } else if f.color == RGBA {
        Some(d)
    } else if f.color == RGB {
        Some(
            Seq::new(
                d.len() / 3 * 4,
                |i: int|
                    if i % 4 == 3 {
                        0xFFu8
                    } else {
                        d[i / 4 * 3 + i % 4]
                    },
            ),
        )
    } else if f.color == GRAYSCALE {
        Some(
            Seq::new(
                d.len() * 4,
                |i: int|
                    if i % 4 == 3 {
                        0xFFu8
                    } else {
                        d[i / 4]
                    },
            ),
        )
    } else if f.color == GRAYSCALE_ALPHA {
        Some(
            Seq::new(
                d.len() / 2 * 4,
                |i: int|
                    if i % 4 == 3 {
                        d[i / 4 * 2 + 1]
                    } else {
                        d[i / 4 * 2]
                    },
            ),
        )
    } else {
        None
    }
}

fn push_pixel(out: &mut Vec<u8>, r: u8, g: u8, b: u8, a: u8)
    ensures
        final(out)@ == old(out)@ + seq![r, g, b, a],
{
    out.push(r);
    out.push(g);
    out.push(b);
    out.push(a);
    assert(out@ =~= old(out)@ + seq![r, g, b, a]);
}

/// Normalises a frame to RGBA bytes.
pub fn to_rgba(f: PngFrame) -> (r: Option<Vec<u8>>)
    ensures
        match r {
            Some(px) => rgba_bytes(f@) == Some(px@),
            None => rgba_bytes(f@) is None,
        },
{
    if f.depth != 8 {
        return None;
    }
    if f.color == RGBA {
        return Some(f.data);
    }
    let ghost want: Seq<u8> = rgba_bytes(f@)->Some_0;
    let mut out: Vec<u8> = Vec::new();
    let n: usize = f.data.len();
    if f.color == RGB {
        let mut k: usize = 0;
        let pixels: usize = n / 3;
        while k < pixels
            invariant
                n == f.data@.len(),
                pixels == n / 3,
                k <= pixels,
                f.depth == 8,
                f.color == RGB,
                rgba_bytes(f@) == Some(want),
                out@.len() == k * 4,
                forall|i: int| 0 <= i < out@.len() ==> out@[i] == want[i],
            decreases pixels - k,
        {
            let at: usize = k * 3;
            push_pixel(&mut out, f.data[at], f.data[at + 1], f.data[at + 2], 0xFF);
            k = k + 1;
        }
        assert(out@ =~= want);
        Some(out)
    } else if f.color == GRAYSCALE {
        let mut k: usize = 0;
        while k < n
            invariant
                n == f.data@.len(),
                k <= n,
                f.depth == 8,
                f.color == GRAYSCALE,
                rgba_bytes(f@) == Some(want),
                out@.len() == k * 4,
                forall|i: int| 0 <= i < out@.len() ==> out@[i] == want[i],
            decreases n - k,
        {
            let g: u8 = f.data[k];
            push_pixel(&mut out, g, g, g, 0xFF);
            k = k + 1;
        }
        assert(out@ =~= want);
        Some(out)
    } else if f.color == GRAYSCALE_ALPHA {
        let mut k: usize = 0;
        let pixels: usize = n / 2;
        while k < pixels
            invariant
                n == f.data@.len(),
                pixels == n / 2,
                k <= pixels,
                f.depth == 8,
                f.color == GRAYSCALE_ALPHA,
                rgba_bytes(f@) == Some(want),
                out@.len() == k * 4,
                forall|i: int| 0 <= i < out@.len() ==> out@[i] == want[i],
            decreases pixels - k,
        {
            let at: usize = k * 2;
            let g: u8 = f.data[at];
            push_pixel(&mut out, g, g, g, f.data[at + 1]);
            k = k + 1;
        }
        assert(out@ =~= want);
        Some(out)
    } else {
        None
    }
}

/// A picture: its size and RGBA bytes.
#[derive(Debug)]
pub struct Picture {
    pub width: u32,
    pub height: u32,
    pub rgba: Vec<u8>,
}

/// Decodes a PNG file to RGBA bytes. The size is the one in the header.
pub fn decode_picture(bytes: &[u8]) -> (r: Option<Picture>)
    ensures
        match png_frame(bytes@, isize::MAX as int) {
            None => r is None,
            Some(f) => match rgba_bytes(f) {
                None => r is None,
                Some(px) => r matches Some(p) && p.width == f.width && p.height == f.height
                    && p.rgba@ == px,
            },
        },
{
    let frame = decode_png(bytes)?;
    let width: u32 = frame.width;
    let height: u32 = frame.height;
    let rgba = to_rgba(frame)?;
    Some(Picture { width, height, rgba })
}

/// Pixels come out one for one: each has the samples of its own pixel, grey
/// counts for all three colours, and what has no alpha is opaque. Other depths
/// than 8 bits and other colour types give nothing.
pub proof fn pixels_keep_their_samples(f: Frame, k: int)
    ensures
        f.depth != 8 ==> rgba_bytes(f) is None,
        !(f.color == 0 || f.color == 2 || f.color == 4 || f.color == 6) ==> rgba_bytes(f) is None,
        f.depth == 8 && f.color == 6 ==> rgba_bytes(f) == Some(f.data),
        f.depth == 8 && f.color == 2 ==> rgba_bytes(f) is Some && rgba_bytes(f)->0.len() == 4 * (
        f.data.len() / 3),
        f.depth == 8 && f.color == 0 ==> rgba_bytes(f) is Some && rgba_bytes(f)->0.len() == 4
            * f.data.len(),
        f.depth == 8 && f.color == 4 ==> rgba_bytes(f) is Some && rgba_bytes(f)->0.len() == 4 * (
        f.data.len() / 2),
        f.depth == 8 && f.color == 2 && 0 <= k && 3 * k + 2 < f.data.len() ==> rgba_bytes(
            f,
        )->0.subrange(4 * k, 4 * k + 3) == f.data.subrange(3 * k, 3 * k + 3) && rgba_bytes(
            f,
        )->0[4 * k + 3] == 255,
        f.depth == 8 && f.color == 0 && 0 <= k < f.data.len() ==> rgba_bytes(f)->0.subrange(
            4 * k,
            4 * k + 4,
        ) == seq![f.data[k], f.data[k], f.data[k], 255u8],
        f.depth == 8 && f.color == 4 && 0 <= k && 2 * k + 1 < f.data.len() ==> rgba_bytes(
            f,
        )->0.subrange(4 * k, 4 * k + 4) == seq![
            f.data[2 * k],
            f.data[2 * k],
            f.data[2 * k],
            f.data[2 * k + 1],
        ],
{
    if f.depth == 8 && rgba_bytes(f) is Some {
        let px = rgba_bytes(f)->0;
        if f.color == 2 && 0 <= k && 3 * k + 2 < f.data.len() {
            assert(px.subrange(4 * k, 4 * k + 3) =~= f.data.subrange(3 * k, 3 * k + 3));
        }
        if f.color == 0 && 0 <= k < f.data.len() {
            assert(px.subrange(4 * k, 4 * k + 4) =~= seq![
                f.data[k],
                f.data[k],
                f.data[k],
                255u8,
            ]);
        }
        if f.color == 4 && 0 <= k && 2 * k + 1 < f.data.len() {
            assert(px.subrange(4 * k, 4 * k + 4) =~= seq![
                f.data[2 * k],
                f.data[2 * k],
                f.data[2 * k],
                f.data[2 * k + 1],
            ]);
        }
    }
}

} // verus!
