//! The framebuffer and the collector that fills it.
//!
//! Pixels are stored row by row from the top, four bytes each: red, green,
//! blue, and an alpha that is 255 once the pixel has been written.

use vstd::prelude::*;

verus! {

/// One pixel's colour, already brought to eight bits a channel.
#[derive(Clone, Copy, Debug, PartialEq, Eq, Structural)]
pub struct Rgb {
    pub red: u8,
    pub green: u8,
    pub blue: u8,
}

/// What a worker reports for one pixel: where it is and what colour it has.
#[derive(Clone, Copy, Debug, PartialEq, Eq, Structural)]
pub struct Pixel {
    pub row: usize,
    pub column: usize,
    pub color: Rgb,
}

/// Why a frame could not be made or filled.
#[derive(Clone, Copy, Debug, PartialEq, Eq, Structural)]
pub enum FrameError {
    /// Four bytes a pixel are more than can be addressed.
    TooLarge,
    /// A pixel was reported for a place outside the frame.
    OutOfFrame,
}

/// Position of the first byte of the pixel at (`row`, `column`).
pub open spec fn offset(width: nat, row: nat, column: nat) -> nat {
    4 * (row * width + column)
}

/// The pixel lies inside a frame of the given size.
pub open spec fn in_frame(width: nat, height: nat, pixel: Pixel) -> bool {
    pixel.row < height && pixel.column < width
}

/// The bytes of a frame after `pixel` has been written into it.
pub open spec fn placed(bytes: Seq<u8>, width: nat, pixel: Pixel) -> Seq<u8> {
    let at = offset(width, pixel.row as nat, pixel.column as nat) as int;
    bytes.update(at, pixel.color.red).update(at + 1, pixel.color.green).update(
        at + 2,
        pixel.color.blue,
    ).update(at + 3, 255u8)
}

/// The bytes of a frame in which nothing has been written yet.
pub open spec fn blank(width: nat, height: nat) -> Seq<u8> {
    Seq::new(4 * width * height, |i: int| 0u8)
}

/// The bytes of a frame after the pixels have been written in the order given,
/// starting from `bytes`.
pub open spec fn assembled(bytes: Seq<u8>, width: nat, pixels: Seq<Pixel>) -> Seq<u8>
    decreases pixels.len(),
{
    if pixels.len() == 0 {
        bytes
    } else {
        placed(assembled(bytes, width, pixels.drop_last()), width, pixels.last())
    }
}

/// Every pixel of the sequence lies inside the frame.
pub open spec fn all_in_frame(width: nat, height: nat, pixels: Seq<Pixel>) -> bool {
    forall|i: int| 0 <= i < pixels.len() ==> in_frame(width, height, #[trigger] pixels[i])
}

/// A pixel inside the frame has its four bytes inside the frame's bytes, and
/// two different pixels do not share a byte.
pub proof fn lemma_offset_bounds(width: nat, height: nat, row: nat, column: nat)
    requires
        row < height,
        column < width,
    ensures
        offset(width, row, column) + 4 <= 4 * width * height,
        row * width + column < width * height,
{
    assert(row * width + column < width * height) by (nonlinear_arith)
        requires
            row < height,
            column < width,
    ;
    assert(4 * (width * height) == 4 * width * height) by (nonlinear_arith);
}

/// Two pixels of a frame start at the same byte only if they are the same
/// pixel.
pub proof fn lemma_offset_injective(width: nat, r1: nat, c1: nat, r2: nat, c2: nat)
    requires
        c1 < width,
        c2 < width,
        offset(width, r1, c1) == offset(width, r2, c2),
    ensures
        r1 == r2,
        c1 == c2,
{
    assert(r1 == r2 && c1 == c2) by (nonlinear_arith)
        requires
            c1 < width,
            c2 < width,
            r1 * width + c1 == r2 * width + c2,
    ;
}

/// The last pixel of the sequence that was reported for (`row`, `column`).
pub open spec fn last_report(pixels: Seq<Pixel>, row: nat, column: nat) -> Option<Pixel>
    decreases pixels.len(),
{
    if pixels.len() == 0 {
        None
    } else if pixels.last().row == row && pixels.last().column == column {
        Some(pixels.last())
    } else {
        last_report(pixels.drop_last(), row, column)
    }
}

/// Two reports for one place agree on its colour.
pub open spec fn no_conflict(pixels: Seq<Pixel>) -> bool {
    forall|i: int, j: int|
        0 <= i < pixels.len() && 0 <= j < pixels.len() && (#[trigger] pixels[i]).row == (
        #[trigger] pixels[j]).row && pixels[i].column == pixels[j].column ==> pixels[i]
            == pixels[j]
}

/// The two sequences hold the same reports, in whatever order and number.
pub open spec fn same_reports(a: Seq<Pixel>, b: Seq<Pixel>) -> bool {
    forall|p: Pixel| a.contains(p) <==> b.contains(p)
}

/// Writing a pixel changes its own four bytes and no others.
pub proof fn lemma_placed(bytes: Seq<u8>, width: nat, height: nat, pixel: Pixel)
    requires
        bytes.len() == 4 * width * height,
        in_frame(width, height, pixel),
    ensures
        placed(bytes, width, pixel).len() == bytes.len(),
        ({
            let at = offset(width, pixel.row as nat, pixel.column as nat) as int;
            let out = placed(bytes, width, pixel);
            &&& out[at] == pixel.color.red
            &&& out[at + 1] == pixel.color.green
            &&& out[at + 2] == pixel.color.blue
            &&& out[at + 3] == 255u8
            &&& forall|x: int|
                0 <= x < bytes.len() && !(at <= x < at + 4) ==> #[trigger] out[x] == bytes[x]
        }),
{
    lemma_offset_bounds(width, height, pixel.row as nat, pixel.column as nat);
}

/// What the last report for a place is: one of the reports, and for that place;
/// and where there is none, no report is for that place.
pub proof fn lemma_last_report(pixels: Seq<Pixel>, row: nat, column: nat)
    ensures
        match last_report(pixels, row, column) {
            Some(p) => pixels.contains(p) && p.row == row && p.column == column,
            None => forall|i: int|
                0 <= i < pixels.len() ==> !((#[trigger] pixels[i]).row == row && pixels[i].column
                    == column),
        },
    decreases pixels.len(),
{
    if pixels.len() > 0 {
        let rest = pixels.drop_last();
        lemma_last_report(rest, row, column);
        if pixels.last().row == row && pixels.last().column == column {
            assert(pixels[pixels.len() - 1] == pixels.last());
        } else {
            match last_report(rest, row, column) {
                Some(p) => {
                    let i = choose|i: int| 0 <= i < rest.len() && rest[i] == p;
                    assert(pixels[i] == p);
                },
                None => {
                    assert forall|i: int| 0 <= i < pixels.len() implies !((
                    #[trigger] pixels[i]).row == row && pixels[i].column == column) by {
                        if i < rest.len() {
                            assert(rest[i] == pixels[i]);
                        }
                    }
                },
            }
        }
    }
}

/// Each pixel of an assembled frame shows the last report that was made for
/// it, opaque; a pixel for which none was made is as it was.
pub proof fn lemma_assembled_pixel(
    bytes: Seq<u8>,
    width: nat,
    height: nat,
    pixels: Seq<Pixel>,
    row: nat,
    column: nat,
)
    requires
        bytes.len() == 4 * width * height,
        all_in_frame(width, height, pixels),
        row < height,
        column < width,
    ensures
        assembled(bytes, width, pixels).len() == bytes.len(),
        ({
            let at = offset(width, row, column) as int;
            let out = assembled(bytes, width, pixels);
            match last_report(pixels, row, column) {
                Some(p) => {
                    &&& out[at] == p.color.red
                    &&& out[at + 1] == p.color.green
                    &&& out[at + 2] == p.color.blue
                    &&& out[at + 3] == 255u8
                },
                None => {
                    &&& out[at] == bytes[at]
                    &&& out[at + 1] == bytes[at + 1]
                    &&& out[at + 2] == bytes[at + 2]
                    &&& out[at + 3] == bytes[at + 3]
                },
            }
        }),
    decreases pixels.len(),
{
    lemma_offset_bounds(width, height, row, column);
    if pixels.len() > 0 {
        let rest = pixels.drop_last();
        let p = pixels.last();
        assert(all_in_frame(width, height, rest)) by {
            assert forall|i: int| 0 <= i < rest.len() implies in_frame(
                width,
                height,
                #[trigger] rest[i],
            ) by {
                assert(rest[i] == pixels[i]);
            }
        }
        lemma_assembled_pixel(bytes, width, height, rest, row, column);
        let before = assembled(bytes, width, rest);
        lemma_placed(before, width, height, p);
        if !(p.row == row && p.column == column) {
            let here = offset(width, row, column) as int;
            let there = offset(width, p.row as nat, p.column as nat) as int;
            if here == there {
                lemma_offset_injective(width, row, column, p.row as nat, p.column as nat);
            }
            assert(!(there <= here < there + 4) && !(there <= here + 1 < there + 4) && !(there
                <= here + 2 < there + 4) && !(there <= here + 3 < there + 4));
        }
    }
}

/// The frame depends on which pixels were reported, not on the order in which
/// the reports arrived: two runs of reports give the same frame if they hold
/// the same reports and no two of them give one place two colours.
pub proof fn lemma_arrival_order_is_irrelevant(
    width: nat,
    height: nat,
    a: Seq<Pixel>,
    b: Seq<Pixel>,
)
    requires
        all_in_frame(width, height, a),
        same_reports(a, b),
        no_conflict(a),
    ensures
        assembled(blank(width, height), width, a) == assembled(blank(width, height), width, b),
{
    let start = blank(width, height);
    let fa = assembled(start, width, a);
    let fb = assembled(start, width, b);
    assert(all_in_frame(width, height, b)) by {
        assert forall|i: int| 0 <= i < b.len() implies in_frame(width, height, #[trigger] b[i]) by {
            assert(b.contains(b[i]));
            assert(a.contains(b[i]));
        }
    }
    lemma_assembled_len(start, width, height, a);
    lemma_assembled_len(start, width, height, b);
    assert forall|x: int| 0 <= x < fa.len() implies fa[x] == fb[x] by {
        assert(width > 0 && height > 0) by (nonlinear_arith)
            requires
                0 <= x < 4 * width * height,
        ;
        let cell = (x / 4) as nat;
        let row = cell / width;
        let column = cell % width;
        assert(cell < width * height) by (nonlinear_arith)
            requires
                x < 4 * width * height,
                cell == x / 4,
                x >= 0,
        ;
        assert(cell == row * width + column && row < height) by (nonlinear_arith)
            requires
                row == cell / width,
                column == cell % width,
                cell < width * height,
                width > 0,
        ;
        let at = offset(width, row, column) as int;
        assert(at <= x < at + 4);
        lemma_assembled_pixel(start, width, height, a, row, column);
        lemma_assembled_pixel(start, width, height, b, row, column);
        lemma_last_report(a, row, column);
        lemma_last_report(b, row, column);
        match last_report(a, row, column) {
            Some(pa) => {
                assert(b.contains(pa));
                let i = choose|i: int| 0 <= i < b.len() && b[i] == pa;
                assert(b[i].row == row && b[i].column == column);
                let pb = last_report(b, row, column).unwrap();
                assert(a.contains(pb));
                let ia = choose|ia: int| 0 <= ia < a.len() && a[ia] == pa;
                let ib = choose|ib: int| 0 <= ib < a.len() && a[ib] == pb;
                assert(a[ia] == a[ib]);
            },
            None => {
                if last_report(b, row, column) is Some {
                    let pb = last_report(b, row, column).unwrap();
                    assert(a.contains(pb));
                    let ib = choose|ib: int| 0 <= ib < a.len() && a[ib] == pb;
                    assert(a[ib].row == row && a[ib].column == column);
                }
            },
        }
    }
    assert(fa =~= fb);
}

/// Assembling keeps the number of bytes.
pub proof fn lemma_assembled_len(bytes: Seq<u8>, width: nat, height: nat, pixels: Seq<Pixel>)
    requires
        bytes.len() == 4 * width * height,
        all_in_frame(width, height, pixels),
    ensures
        assembled(bytes, width, pixels).len() == bytes.len(),
    decreases pixels.len(),
{
    if pixels.len() > 0 {
        let rest = pixels.drop_last();
        assert(all_in_frame(width, height, rest)) by {
            assert forall|i: int| 0 <= i < rest.len() implies in_frame(
                width,
                height,
                #[trigger] rest[i],
            ) by {
                assert(rest[i] == pixels[i]);
            }
        }
        assert(in_frame(width, height, pixels[pixels.len() - 1]));
        lemma_assembled_len(bytes, width, height, rest);
        lemma_placed(assembled(bytes, width, rest), width, height, pixels.last());
    }
}

/// A width by height image of RGBA pixels.
#[derive(Debug)]
pub struct Framebuffer {
    width: usize,
    height: usize,
    data: Vec<u8>,
}

impl Framebuffer {
    /// Number of pixels in a row.
    pub closed spec fn columns(&self) -> nat {
        self.width as nat
    }

    /// Number of rows.
    pub closed spec fn rows(&self) -> nat {
        self.height as nat
    }

    /// The bytes of the image, in the order in which an encoder takes them.
    pub closed spec fn bytes(&self) -> Seq<u8> {
        self.data@
    }

    /// There are four bytes for each pixel, and the sides are numbers that a
    /// machine word holds.
    pub open spec fn wf(&self) -> bool {
        &&& self.bytes().len() == 4 * self.columns() * self.rows()
        &&& self.columns() <= usize::MAX
        &&& self.rows() <= usize::MAX
    }

    /// The four bytes of the pixel at (`row`, `column`).
    pub open spec fn rgba(&self, row: nat, column: nat) -> (u8, u8, u8, u8) {
        let at = offset(self.columns(), row, column) as int;
        (self.bytes()[at], self.bytes()[at + 1], self.bytes()[at + 2], self.bytes()[at + 3])
    }

    /// What writing one pixel does to each pixel of the frame: the pixel written
    /// takes the reported colour and becomes opaque, every other stays as it was.
    pub proof fn lemma_place_effect(
        before: Framebuffer,
        after: Framebuffer,
        pixel: Pixel,
        row: nat,
        column: nat,
    )
        requires
            before.wf(),
            after.columns() == before.columns(),
            after.rows() == before.rows(),
            in_frame(before.columns(), before.rows(), pixel),
            after.bytes() == placed(before.bytes(), before.columns(), pixel),
            row < before.rows(),
            column < before.columns(),
        ensures
            after.wf(),
            after.rgba(row, column) == (if row == pixel.row && column == pixel.column {
                (pixel.color.red, pixel.color.green, pixel.color.blue, 255u8)
            } else {
                before.rgba(row, column)
            }),
    {
        let width = before.columns();
        let height = before.rows();
        lemma_placed(before.bytes(), width, height, pixel);
        lemma_offset_bounds(width, height, row, column);
        lemma_offset_bounds(width, height, pixel.row as nat, pixel.column as nat);
        if !(row == pixel.row && column == pixel.column) {
            let here = offset(width, row, column) as int;
            let there = offset(width, pixel.row as nat, pixel.column as nat) as int;
            if here == there {
                lemma_offset_injective(width, row, column, pixel.row as nat, pixel.column as nat);
            }
            assert(!(there <= here < there + 4) && !(there <= here + 1 < there + 4) && !(there
                <= here + 2 < there + 4) && !(there <= here + 3 < there + 4));
        }
    }

    /// A frame of the given size with nothing written in it: every byte is 0.
    pub fn new(width: usize, height: usize) -> (out: Result<Framebuffer, FrameError>)
        ensures
            match out {
                Ok(frame) => {
                    &&& 4 * width * height <= usize::MAX
                    &&& frame.wf()
                    &&& frame.columns() == width
                    &&& frame.rows() == height
                    &&& frame.bytes() == blank(width as nat, height as nat)
                },
                Err(e) => e == FrameError::TooLarge && 4 * width * height > usize::MAX,
            },
    {
        let pixels = match width.checked_mul(height) {
            Some(n) => n,
            None => {
                assert(4 * width * height >= width * height) by (nonlinear_arith);
                return Err(FrameError::TooLarge);
            },
        };
        let len = match pixels.checked_mul(4) {
            Some(n) => n,
            None => {
                assert(4 * width * height == (width * height) * 4) by (nonlinear_arith);
                return Err(FrameError::TooLarge);
            },
        };
        assert(4 * width * height == (width * height) * 4) by (nonlinear_arith);
        let data = vec![0u8; len];
        assert(data@ =~= blank(width as nat, height as nat));
        Ok(Framebuffer { width, height, data })
    }

    /// Number of pixels in a row.
    pub fn width(&self) -> (out: usize)
        ensures
            out == self.columns(),
    {
        self.width
    }

    /// Number of rows.
    pub fn height(&self) -> (out: usize)
        ensures
            out == self.rows(),
    {
        self.height
    }

    /// The image as bytes, row by row from the top, four bytes a pixel.
    pub fn as_bytes(&self) -> (out: &Vec<u8>)
        ensures
            out@ == self.bytes(),
    {
        &self.data
    }

    /// Writes one reported pixel at its own place, whatever was there before,
    /// and marks it opaque. A pixel outside the frame changes nothing.
    pub fn place(&mut self, pixel: &Pixel) -> (out: Result<(), FrameError>)
        requires
            old(self).wf(),
        ensures
            final(self).wf(),
            final(self).columns() == old(self).columns(),
            final(self).rows() == old(self).rows(),
            match out {
                Ok(_) => {
                    &&& in_frame(old(self).columns(), old(self).rows(), *pixel)
                    &&& final(self).bytes() == placed(old(self).bytes(), old(self).columns(), *pixel)
                },
                Err(e) => {
                    &&& e == FrameError::OutOfFrame
                    &&& !in_frame(old(self).columns(), old(self).rows(), *pixel)
                    &&& final(self).bytes() == old(self).bytes()
                },
            },
    {
        if pixel.row >= self.height || pixel.column >= self.width {
            return Err(FrameError::OutOfFrame);
        }
        let len = self.data.len();
        proof {
            lemma_offset_bounds(
                self.width as nat,
                self.height as nat,
                pixel.row as nat,
                pixel.column as nat,
            );
            let cell = pixel.row as nat * self.width as nat + pixel.column as nat;
            assert(offset(self.width as nat, pixel.row as nat, pixel.column as nat) == 4 * cell);
            assert(4 * cell + 4 <= len);
            assert(pixel.row as nat * self.width as nat <= cell);
        }
        let at: usize = 4 * (pixel.row * self.width + pixel.column);
        self.data.set(at, pixel.color.red);
        self.data.set(at + 1, pixel.color.green);
        self.data.set(at + 2, pixel.color.blue);
        self.data.set(at + 3, 255u8);
        Ok(())
    }

    /// The collector: makes a frame and writes every reported pixel at its own
    /// place, in the order of arrival.
    pub fn collect(width: usize, height: usize, pixels: &Vec<Pixel>) -> (out: Result<
        Framebuffer,
        FrameError,
    >)
        ensures
            match out {
                Ok(frame) => {
                    &&& 4 * width * height <= usize::MAX
                    &&& all_in_frame(width as nat, height as nat, pixels@)
                    &&& frame.wf()
                    &&& frame.columns() == width
                    &&& frame.rows() == height
                    &&& frame.bytes() == assembled(
                        blank(width as nat, height as nat),
                        width as nat,
                        pixels@,
                    )
                },
                Err(FrameError::TooLarge) => 4 * width * height > usize::MAX,
                Err(FrameError::OutOfFrame) => {
                    &&& 4 * width * height <= usize::MAX
                    &&& !all_in_frame(width as nat, height as nat, pixels@)
                },
            },
    {
        let mut frame = match Framebuffer::new(width, height) {
            Ok(frame) => frame,
            Err(e) => {
                return Err(e);
            },
        };
        let mut i: usize = 0;
        while i < pixels.len()
            invariant
                i <= pixels.len(),
                4 * width * height <= usize::MAX,
                frame.wf(),
                frame.columns() == width,
                frame.rows() == height,
                all_in_frame(width as nat, height as nat, pixels@.take(i as int)),
                frame.bytes() == assembled(
                    blank(width as nat, height as nat),
                    width as nat,
                    pixels@.take(i as int),
                ),
            decreases pixels.len() - i,
        {
            proof {
                assert(pixels@.take(i + 1).drop_last() =~= pixels@.take(i as int));
                assert(pixels@.take(i + 1).last() == pixels@[i as int]);
            }
            match frame.place(&pixels[i]) {
                Ok(_) => {},
                Err(e) => {
                    return Err(e);
                },
            }
            i += 1;
        }
        assert(pixels@.take(i as int) =~= pixels@);
        Ok(frame)
    }
}

} // verus!
