//! Reading a rendered frame back as RGBA bytes.
use vstd::prelude::*;

verus! {

/// Rows of a readback buffer start at multiples of this many bytes.
pub const ROW_ALIGN: u32 = 256;

/// Bytes of a row of pixels, rounded up to the next start of a row.
pub open spec fn padded_row(width: int) -> int {
    (width * 4 + 255) / 256 * 256
}

/// The bytes from one row of a readback buffer to the next.
pub fn padded_bytes_per_row(width: u32) -> (r: u32)
    requires
        width * 4 + 255 <= u32::MAX,
    ensures
        r == padded_row(width as int),
        width * 4 <= r,
        r % ROW_ALIGN == 0,
        r < width * 4 + ROW_ALIGN,
{
    (width * 4 + 255) / 256 * 256
}

/// Where channel `ch` of a pixel is read from: red and blue change places
/// where the buffer has blue first.
pub open spec fn channel(ch: int, bgra: bool) -> int {
    if bgra && ch == 0 {
        2
    } else if bgra && ch == 2 {
        0
    } else {
        ch
    }
}

/// Byte `ch` of the pixel at `(x, y)`.
pub open spec fn captured(view: Seq<u8>, width: int, bgra: bool, x: int, y: int, ch: int) -> u8 {
    view[y * padded_row(width) + x * 4 + channel(ch, bgra)]
}

/// Takes the pixels of a readback buffer, without the filling at the end of
/// its rows and with red first.
pub fn unpad_rows(view: &[u8], width: u32, height: u32, bgra: bool) -> (r: Vec<u8>)
    requires
        width * 4 + 255 <= u32::MAX,
        padded_row(width as int) * height <= view@.len(),
    ensures
        r@.len() == width * height * 4,
        forall|x: int, y: int, ch: int|
            0 <= x < width && 0 <= y < height && 0 <= ch < 4 ==> r@[(y * width + x) * 4 + ch]
                == #[trigger] captured(view@, width as int, bgra, x, y, ch),
{
    let padded: usize = padded_bytes_per_row(width) as usize;
    let n: usize = view.len();
    let ghost w = width as int;
    let mut out: Vec<u8> = Vec::new();
    let mut row: u32 = 0;
    let mut start: usize = 0;
    assert(width * 0 * 4 == 0);
    while row < height
        invariant
            row <= height,
            n == view@.len(),
            w == width,
            padded == padded_row(w),
            width * 4 <= padded,
            start == row * padded,
            padded * height <= view@.len(),
            out@.len() == width * row * 4,
            forall|x: int, y: int, ch: int|
                0 <= x < width && 0 <= y < row && 0 <= ch < 4 ==> out@[(y * width + x) * 4 + ch]
                    == #[trigger] captured(view@, w, bgra, x, y, ch),
        decreases height - row,
    {
        proof {
            assert((row + 1) * padded <= height * padded) by (nonlinear_arith)
                requires
                    row + 1 <= height,
                    0 <= padded,
            ;
            assert((row + 1) * padded == row * padded + padded) by (nonlinear_arith);
            assert(height * padded == padded * height) by (nonlinear_arith);
        }
        let mut col: u32 = 0;
        while col < width
            invariant
                col <= width,
                row < height,
                n == view@.len(),
                w == width,
                padded == padded_row(w),
                width * 4 <= padded,
                start == row * padded,
                start + padded <= view@.len(),
                out@.len() == (width * row + col) * 4,
                forall|x: int, y: int, ch: int|
                    0 <= ch < 4 && ((0 <= y < row && 0 <= x < width) || (y == row && 0 <= x < col))
                        ==> out@[(y * width + x) * 4 + ch] == #[trigger] captured(
                        view@,
                        w,
                        bgra,
                        x,
                        y,
                        ch,
                    ),
            decreases width - col,
        {
            let at: usize = start + (col as usize) * 4;
            let ghost before = out@;
            if bgra {
                out.push(view[at + 2]);
                out.push(view[at + 1]);
                out.push(view[at]);
            } else {
                out.push(view[at]);
                out.push(view[at + 1]);
                out.push(view[at + 2]);
            }
            out.push(view[at + 3]);
            proof {
                assert(row * width == width * row) by (nonlinear_arith);
                assert forall|x: int, y: int, ch: int|
                    0 <= ch < 4 && ((0 <= y < row && 0 <= x < width) || (y == row && 0 <= x < col
                        + 1)) implies out@[(y * width + x) * 4 + ch] == #[trigger] captured(
                    view@,
                    w,
                    bgra,
                    x,
                    y,
                    ch,
                ) by {
                    if y < row {
                        assert((y + 1) * width <= row * width) by (nonlinear_arith)
                            requires
                                y + 1 <= row,
                                0 <= width,
                        ;
                        assert((y + 1) * width == y * width + width) by (nonlinear_arith);
                        assert(0 <= y * width) by (nonlinear_arith)
                            requires
                                0 <= y,
                                0 <= width,
                        ;
                        assert(out@[(y * width + x) * 4 + ch] == before[(y * width + x) * 4 + ch]);
                    } else if x < col {
                        assert(0 <= y * width) by (nonlinear_arith)
                            requires
                                0 <= y,
                                0 <= width,
                        ;
                        assert(out@[(y * width + x) * 4 + ch] == before[(y * width + x) * 4 + ch]);
                    } else {
                        assert(y * padded == row * padded);
                    }
                }
            }
            col = col + 1;
        }
        proof {
            assert(width * (row + 1) == width * row + width) by (nonlinear_arith);
        }
        start = start + padded;
        row = row + 1;
    }
    proof {
        assert(width * height * 4 == (width * height) * 4);
    }
    out
}

/// Rows of a readback buffer start at multiples of 256 bytes, as soon as one is
/// full.
pub proof fn rows_start_at_multiples(width: int)
    requires
        0 <= width,
    ensures
        padded_row(width) % 256 == 0,
        width * 4 <= padded_row(width) < width * 4 + 256,
{
}

/// Where the buffer has blue first, red and blue are read from each other's
/// place; green and alpha are read where they stand either way.
pub proof fn blue_and_red_change_places(view: Seq<u8>, width: int, x: int, y: int)
    ensures
        captured(view, width, true, x, y, 0) == captured(view, width, false, x, y, 2),
        captured(view, width, true, x, y, 1) == captured(view, width, false, x, y, 1),
        captured(view, width, true, x, y, 2) == captured(view, width, false, x, y, 0),
        captured(view, width, true, x, y, 3) == captured(view, width, false, x, y, 3),
{
}

/// The pixels of a row lie one behind the other, four bytes to each, and each
/// row starts where the next row of the buffer does.
pub proof fn pixels_lie_row_by_row(view: Seq<u8>, width: int, x: int, y: int, ch: int)
    requires
        0 <= ch < 4,
    ensures
        ({
            let start = y * padded_row(width);
            &&& captured(view, width, false, x, y, ch) == view[start + 4 * x + ch]
            &&& y > 0 ==> captured(view, width, false, x, y, ch) == captured(
                view.skip(padded_row(width)),
                width,
                false,
                x,
                y - 1,
                ch,
            ) || start + 4 * x + ch >= view.len() || x < 0 || width < 0
        }),
{
    if y > 0 && x >= 0 && width >= 0 && y * padded_row(width) + 4 * x + ch < view.len() {
        let p = padded_row(width);
        assert((y - 1) * p == y * p - p) by (nonlinear_arith);
        assert((y - 1) * p >= 0) by (nonlinear_arith)
            requires
                y >= 1,
                p >= 0,
        ;
    }
}

} // verus!
