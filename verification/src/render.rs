//! Rendering: every pixel of a band, and every band of the image.

use vstd::prelude::*;
use vstd::arithmetic::div_mod::{lemma_fundamental_div_mod, lemma_fundamental_div_mod_converse};
use crate::frame::{offset, FrameError, Framebuffer, Pixel, Rgb};
use crate::optics::Optics;
use crate::shader::{cast_ray, shaded, Limits};
use crate::tiles::{band_end, band_of, band_start, bands, lemma_bands_contiguous,
    lemma_row_in_one_band, Band};

verus! {

/// The three steps that give a pixel its colour: the kernel's ray through the
/// pixel, the colour that the shader returns for it at depth 0, and the
/// kernel's eight-bit form of that colour.
pub open spec fn pixel_steps<K: Optics>(
    k: &K,
    spheres: &Vec<K::Sphere>,
    lights: &Vec<K::Light>,
    width: usize,
    height: usize,
    limits: Limits,
    pixel: Pixel,
    ray: K::Ray,
    color: K::Color,
) -> bool {
    &&& call_ensures(K::primary_ray, (k, pixel.column, pixel.row, width, height), ray)
    &&& shaded(k, spheres, lights, &ray, 0, limits, color)
    &&& call_ensures(K::quantize, (k, &color), pixel.color)
}

/// The pixel holds the colour that the scene shows at its place.
pub open spec fn pixel_traced<K: Optics>(
    k: &K,
    spheres: &Vec<K::Sphere>,
    lights: &Vec<K::Light>,
    width: usize,
    height: usize,
    limits: Limits,
    pixel: Pixel,
) -> bool {
    exists|ray: K::Ray, color: K::Color| #[trigger]
        pixel_steps(k, spheres, lights, width, height, limits, pixel, ray, color)
}

/// Number of rows in a band; a band that is turned round has none.
pub open spec fn band_rows(band: Band) -> nat {
    if band.end >= band.start {
        (band.end - band.start) as nat
    } else {
        0
    }
}

/// `out` holds the pixels of the band, row by row and from left to right, each
/// exactly once and each with the colour that the scene shows there.
pub open spec fn band_rendered<K: Optics>(
    k: &K,
    spheres: &Vec<K::Sphere>,
    lights: &Vec<K::Light>,
    band: Band,
    width: usize,
    height: usize,
    limits: Limits,
    out: Seq<Pixel>,
) -> bool {
    &&& out.len() == band_rows(band) * width
    &&& forall|i: int|
        0 <= i < out.len() ==> {
            &&& (#[trigger] out[i]).row == band.start + i / (width as int)
            &&& out[i].column == i % (width as int)
            &&& pixel_traced(k, spheres, lights, width, height, limits, out[i])
        }
}

/// The frame shows at (`row`, `column`) the colour that the scene shows
/// there, opaque.
pub open spec fn pixel_shown<K: Optics>(
    k: &K,
    spheres: &Vec<K::Sphere>,
    lights: &Vec<K::Light>,
    limits: Limits,
    frame: Framebuffer,
    row: usize,
    column: usize,
    color: Rgb,
) -> bool {
    &&& pixel_traced(
        k,
        spheres,
        lights,
        frame.columns() as usize,
        frame.rows() as usize,
        limits,
        Pixel { row, column, color },
    )
    &&& frame.rgba(row as nat, column as nat) == (color.red, color.green, color.blue, 255u8)
}

/// The frame shows at (`row`, `column`) what the scene shows there.
pub open spec fn shows<K: Optics>(
    k: &K,
    spheres: &Vec<K::Sphere>,
    lights: &Vec<K::Light>,
    limits: Limits,
    frame: Framebuffer,
    row: usize,
    column: usize,
) -> bool {
    exists|color: Rgb| #[trigger]
        pixel_shown(k, spheres, lights, limits, frame, row, column, color)
}

/// Every pixel of the frame shows the colour that the scene shows at its
/// place, opaque. The number of workers does not come into it.
pub open spec fn rendered<K: Optics>(
    k: &K,
    spheres: &Vec<K::Sphere>,
    lights: &Vec<K::Light>,
    limits: Limits,
    frame: Framebuffer,
) -> bool {
    forall|row: usize, column: usize|
        row < frame.rows() && column < frame.columns() ==> #[trigger] shows(
            k,
            spheres,
            lights,
            limits,
            frame,
            row,
            column,
        )
}

/// Computes the pixels of one band: for each, the ray through it is cast at
/// depth 0 and the colour that comes back is brought to eight bits a channel.
pub fn render_band<K: Optics>(
    k: &K,
    spheres: &Vec<K::Sphere>,
    lights: &Vec<K::Light>,
    band: &Band,
    width: usize,
    height: usize,
    limits: &Limits,
) -> (out: Vec<Pixel>)
    ensures
        band_rendered(k, spheres, lights, *band, width, height, *limits, out@),
{
    let mut out: Vec<Pixel> = Vec::new();
    let mut row: usize = band.start;
    while row < band.end
        invariant
            band.start <= row,
            band.start <= band.end ==> row <= band.end,
            band.end < band.start ==> row == band.start,
            out@.len() == (row - band.start) * width,
            forall|i: int|
                0 <= i < out@.len() ==> {
                    &&& (#[trigger] out@[i]).row == band.start + i / (width as int)
                    &&& out@[i].column == i % (width as int)
                    &&& pixel_traced(k, spheres, lights, width, height, *limits, out@[i])
                },
        decreases band.end - row,
    {
        let mut column: usize = 0;
        while column < width
            invariant
                    band.start <= row < band.end,
                column <= width,
                out@.len() == (row - band.start) * width + column,
                forall|i: int|
                    0 <= i < out@.len() ==> {
                        &&& (#[trigger] out@[i]).row == band.start + i / (width as int)
                        &&& out@[i].column == i % (width as int)
                        &&& pixel_traced(k, spheres, lights, width, height, *limits, out@[i])
                    },
            decreases width - column,
        {
            let ray = k.primary_ray(column, row, width, height);
            let color = cast_ray(k, &ray, spheres, lights, 0, limits);
            let rgb = k.quantize(&color);
            let pixel = Pixel { row, column, color: rgb };
            proof {
                assert(pixel_steps(k, spheres, lights, width, height, *limits, pixel, ray, color));
                lemma_fundamental_div_mod_converse(
                    out@.len() as int,
                    width as int,
                    (row - band.start) as int,
                    column as int,
                );
            }
            out.push(pixel);
            column += 1;
        }
        proof {
            assert((row - band.start) * width + width == (row + 1 - band.start) * width)
                by (nonlinear_arith);
        }
        row += 1;
    }
    proof {
        if band.end < band.start {
            assert((row - band.start) * width == 0) by (nonlinear_arith)
                requires
                    row == band.start,
            ;
        }
    }
    out
}

/// Worker `k` writes the pixel at (`row`, `column`) as the `i`-th of its band.
pub open spec fn written_at(
    height: nat,
    workers: nat,
    width: nat,
    k: nat,
    i: nat,
    row: nat,
    column: nat,
) -> bool {
    &&& k < workers
    &&& i < (band_end(height, workers, k) - band_start(height, workers, k)) * width
    &&& row == band_start(height, workers, k) + i / width
    &&& column == i % width
}

/// Every pixel of the image is written, and written once: by the worker in
/// whose band its row lies, and at one position of that band.
pub proof fn lemma_pixel_written_once(
    height: nat,
    workers: nat,
    width: nat,
    row: nat,
    column: nat,
)
    requires
        workers > 0,
        row < height,
        column < width,
    ensures
        ({
            let k = band_of(height, workers, row);
            let i = ((row - band_start(height, workers, k)) * width + column) as nat;
            &&& written_at(height, workers, width, k, i, row, column)
            &&& forall|k2: nat, i2: nat| #[trigger]
                written_at(height, workers, width, k2, i2, row, column) ==> k2 == k && i2 == i
        }),
{
    let k = band_of(height, workers, row);
    lemma_row_in_one_band(height, workers, row, k);
    let start = band_start(height, workers, k);
    let end = band_end(height, workers, k);
    let i = ((row - start) * width + column) as nat;
    assert((row - start) * width + column < (end - start) * width) by (nonlinear_arith)
        requires
            start <= row < end,
            column < width,
    ;
    assert((row - start) * width >= 0) by (nonlinear_arith)
        requires
            start <= row,
    ;
    lemma_fundamental_div_mod_converse(i as int, width as int, (row - start) as int, column as int);
    assert forall|k2: nat, i2: nat| #[trigger]
        written_at(height, workers, width, k2, i2, row, column) implies k2 == k && i2 == i by {
        let s2 = band_start(height, workers, k2);
        let e2 = band_end(height, workers, k2);
        lemma_bands_contiguous(height, workers, k2);
        assert(i2 / width < e2 - s2) by (nonlinear_arith)
            requires
                i2 < (e2 - s2) * width,
                width > 0,
        ;
        lemma_row_in_one_band(height, workers, row, k2);
        lemma_fundamental_div_mod(i2 as int, width as int);
        assert(width * (i2 / width) == (row - start) * width) by (nonlinear_arith)
            requires
                i2 / width == row - start,
        ;
    }
}

/// The rows that are done once the first `count` bands are: all those above
/// the end of the last of them.
pub open spec fn rows_done(height: nat, workers: nat, count: nat) -> nat {
    if count == 0 {
        0
    } else {
        band_end(height, workers, (count - 1) as nat)
    }
}

/// Renders the whole image: the rows are cut into one band per worker, each
/// band is computed, and every pixel is written at its own place.
pub fn render<K: Optics>(
    k: &K,
    spheres: &Vec<K::Sphere>,
    lights: &Vec<K::Light>,
    width: usize,
    height: usize,
    limits: &Limits,
    workers: usize,
) -> (out: Result<Framebuffer, FrameError>)
    requires
        workers > 0,
    ensures
        match out {
            Ok(frame) => {
                &&& 4 * width * height <= usize::MAX
                &&& frame.wf()
                &&& frame.columns() == width
                &&& frame.rows() == height
                &&& rendered(k, spheres, lights, *limits, frame)
            },
            Err(e) => e == FrameError::TooLarge && 4 * width * height > usize::MAX,
        },
{
    let mut frame = match Framebuffer::new(width, height) {
        Ok(frame) => frame,
        Err(e) => {
            return Err(e);
        },
    };
    let all = bands(height, workers);
    let mut j: usize = 0;
    while j < workers
        invariant
            workers > 0,
            j <= workers,
            4 * width * height <= usize::MAX,
            frame.wf(),
            frame.columns() == width,
            frame.rows() == height,
            all@.len() == workers,
            forall|b: int|
                0 <= b < workers ==> {
                    &&& (#[trigger] all@[b]).start == band_start(
                        height as nat,
                        workers as nat,
                        b as nat,
                    )
                    &&& all@[b].end == band_end(height as nat, workers as nat, b as nat)
                },
            forall|row: usize, column: usize|
                row < rows_done(height as nat, workers as nat, j as nat) && column < width
                    ==> #[trigger] shows(k, spheres, lights, *limits, frame, row, column),
        decreases workers - j,
    {
        let band = all[j];
        proof {
            lemma_bands_contiguous(height as nat, workers as nat, j as nat);
            if j > 0 {
                lemma_bands_contiguous(height as nat, workers as nat, (j - 1) as nat);
            }
            assert(band.start == rows_done(height as nat, workers as nat, j as nat));
        }
        let pixels = render_band(k, spheres, lights, &band, width, height, limits);
        let mut i: usize = 0;
        while i < pixels.len()
            invariant
                i <= pixels.len(),
                frame.wf(),
                frame.columns() == width,
                frame.rows() == height,
                band.start <= band.end <= height,
                band_rendered(k, spheres, lights, band, width, height, *limits, pixels@),
                forall|row: usize, column: usize|
                    column < width && (row < band.start || (band.start <= row && (row
                        - band.start) * width + column < i)) ==> #[trigger] shows(
                        k,
                        spheres,
                        lights,
                        *limits,
                        frame,
                        row,
                        column,
                    ),
            decreases pixels.len() - i,
        {
            let ghost before = frame;
            let pixel = pixels[i];
            proof {
                assert(width > 0) by (nonlinear_arith)
                    requires
                        i < band_rows(band) * width,
                ;
                assert((i as int) / (width as int) < band_rows(band)) by (nonlinear_arith)
                    requires
                        0 <= i < band_rows(band) * width,
                        width > 0,
                ;
            }
            let _ = frame.place(&pixel);
            proof {
                assert forall|row: usize, column: usize|
                    column < width && (row < band.start || (band.start <= row && (row
                        - band.start) * width + column < i + 1)) implies #[trigger] shows(
                    k,
                    spheres,
                    lights,
                    *limits,
                    frame,
                    row,
                    column,
                ) by {
                    if band.start <= row {
                        assert(row - band.start < band_rows(band)) by (nonlinear_arith)
                            requires
                                (row - band.start) * width + column < i + 1,
                                i < band_rows(band) * width,
                                row >= band.start,
                                column >= 0,
                        ;
                    }
                    Framebuffer::lemma_place_effect(before, frame, pixel, row as nat, column as nat);
                    if band.start <= row && (row - band.start) * width + column == i {
                        lemma_fundamental_div_mod_converse(
                            i as int,
                            width as int,
                            (row - band.start) as int,
                            column as int,
                        );
                        assert(pixel_shown(
                            k,
                            spheres,
                            lights,
                            *limits,
                            frame,
                            row,
                            column,
                            pixel.color,
                        ));
                    } else {
                        assert(shows(k, spheres, lights, *limits, before, row, column));
                        let color = choose|color: Rgb| #[trigger]
                            pixel_shown(k, spheres, lights, *limits, before, row, column, color);
                        if row == pixel.row && column == pixel.column {
                            lemma_fundamental_div_mod(i as int, width as int);
                            assert((row - band.start) * width == width * ((i as int) / (
                            width as int))) by (nonlinear_arith)
                                requires
                                    row - band.start == (i as int) / (width as int),
                            ;
                        }
                        assert(pixel_shown(k, spheres, lights, *limits, frame, row, column, color));
                    }
                }
            }
            i += 1;
        }
        proof {
            assert forall|row: usize, column: usize|
                row < rows_done(height as nat, workers as nat, (j + 1) as nat) && column
                    < width implies #[trigger] shows(
                k,
                spheres,
                lights,
                *limits,
                frame,
                row,
                column,
            ) by {
                if band.start <= row {
                    assert((row - band.start) * width + column < band_rows(band) * width)
                        by (nonlinear_arith)
                        requires
                            band.start <= row < band.end,
                            column < width,
                            band_rows(band) == band.end - band.start,
                    ;
                }
            }
        }
        j += 1;
    }
    proof {
        lemma_bands_contiguous(height as nat, workers as nat, (workers - 1) as nat);
    }
    Ok(frame)
}

/// The frame does not depend on how many workers shared the rows: where the
/// kernel gives each pixel one colour only, any two frames that show the
/// scene hold the same bytes.
pub proof fn lemma_render_independent_of_workers<K: Optics>(
    k: &K,
    spheres: &Vec<K::Sphere>,
    lights: &Vec<K::Light>,
    limits: Limits,
    a: Framebuffer,
    b: Framebuffer,
)
    requires
        a.wf(),
        b.wf(),
        a.columns() == b.columns(),
        a.rows() == b.rows(),
        rendered(k, spheres, lights, limits, a),
        rendered(k, spheres, lights, limits, b),
        forall|p: Pixel, q: Pixel|
            p.row == q.row && p.column == q.column && #[trigger] pixel_traced(
                k,
                spheres,
                lights,
                a.columns() as usize,
                a.rows() as usize,
                limits,
                p,
            ) && #[trigger] pixel_traced(
                k,
                spheres,
                lights,
                a.columns() as usize,
                a.rows() as usize,
                limits,
                q,
            ) ==> p.color == q.color,
    ensures
        a.bytes() == b.bytes(),
{
    let width = a.columns();
    let height = a.rows();
    assert forall|x: int| 0 <= x < a.bytes().len() implies a.bytes()[x] == b.bytes()[x] by {
        assert(width > 0 && height > 0) by (nonlinear_arith)
            requires
                0 <= x < 4 * width * height,
        ;
        let cell = (x / 4) as nat;
        let row = cell / width;
        let column = cell % width;
        assert(cell < width * height) by (nonlinear_arith)
            requires
                x < 4 * width * height,
                cell == x / 4,
                x >= 0,
        ;
        assert(cell == row * width + column && row < height) by (nonlinear_arith)
            requires
                row == cell / width,
                column == cell % width,
                cell < width * height,
                width > 0,
        ;
        let at = offset(width, row, column) as int;
        assert(at <= x < at + 4);
        let r = row as usize;
        let c = column as usize;
        assert(shows(k, spheres, lights, limits, a, r, c));
        assert(shows(k, spheres, lights, limits, b, r, c));
        let ca = choose|color: Rgb| #[trigger] pixel_shown(k, spheres, lights, limits, a, r, c, color);
        let cb = choose|color: Rgb| #[trigger] pixel_shown(k, spheres, lights, limits, b, r, c, color);
        let pa = Pixel { row: r, column: c, color: ca };
        let pb = Pixel { row: r, column: c, color: cb };
        assert(pixel_traced(k, spheres, lights, width as usize, height as usize, limits, pa));
        assert(pixel_traced(k, spheres, lights, width as usize, height as usize, limits, pb));
        assert(ca == cb);
    }
    assert(a.bytes() =~= b.bytes());
}

} // verus!
