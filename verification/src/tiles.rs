//! The scheduler: the image's rows, cut into one band per worker.

use vstd::prelude::*;
use vstd::arithmetic::div_mod::lemma_fundamental_div_mod;

verus! {

/// A run of consecutive rows, from `start` up to but not including `end`.
#[derive(Clone, Copy, Debug, PartialEq, Eq, Structural)]
pub struct Band {
    pub start: usize,
    pub end: usize,
}

/// The first row of band `k`, where `height` rows go to `workers` bands.
pub open spec fn band_start(height: nat, workers: nat, k: nat) -> nat {
    k * (height / workers)
}

/// The row after the last of band `k`. Every band has `height / workers` rows
/// but the last, which takes the rows that are left as well.
pub open spec fn band_end(height: nat, workers: nat, k: nat) -> nat {
    if k + 1 == workers {
        height
    } else {
        (k + 1) * (height / workers)
    }
}

/// The band in which `row` lies.
pub open spec fn band_of(height: nat, workers: nat, row: nat) -> nat {
    if height / workers == 0 || row / (height / workers) >= workers {
        (workers - 1) as nat
    } else {
        row / (height / workers)
    }
}

/// Bands never run past the image: `k` bands of the common size fit in it.
pub proof fn lemma_band_fits(height: nat, workers: nat, k: nat)
    requires
        workers > 0,
        k <= workers,
    ensures
        k * (height / workers) <= height,
{
    let share = height / workers;
    lemma_fundamental_div_mod(height as int, workers as int);
    assert(k * share <= workers * share) by (nonlinear_arith)
        requires
            k <= workers,
            share >= 0,
    ;
}

/// The bands follow one another without a gap: the first starts at the top,
/// each ends where the next starts, the last ends at the bottom, and none is
/// turned round.
pub proof fn lemma_bands_contiguous(height: nat, workers: nat, k: nat)
    requires
        workers > 0,
        k < workers,
    ensures
        band_start(height, workers, 0) == 0,
        band_start(height, workers, k) <= band_end(height, workers, k) <= height,
        k + 1 < workers ==> band_end(height, workers, k) == band_start(height, workers, k + 1),
        k + 1 == workers ==> band_end(height, workers, k) == height,
{
    let share = height / workers;
    lemma_band_fits(height, workers, k);
    lemma_band_fits(height, workers, k + 1);
    assert(k * share <= (k + 1) * share) by (nonlinear_arith)
        requires
            share >= 0,
    ;
}

/// Every band but the last has the same number of rows, and the last has the
/// remainder more.
pub proof fn lemma_band_sizes(height: nat, workers: nat, k: nat)
    requires
        workers > 0,
        k < workers,
    ensures
        k + 1 < workers ==> band_end(height, workers, k) - band_start(height, workers, k) == height
            / workers,
        k + 1 == workers ==> band_end(height, workers, k) - band_start(height, workers, k) == height
            / workers + height % workers,
{
    let share = height / workers;
    lemma_fundamental_div_mod(height as int, workers as int);
    assert((k + 1) * share - k * share == share) by (nonlinear_arith);
    if k + 1 == workers {
        assert(workers * share == (k + 1) * share);
    }
}

/// Each row of the image lies in exactly one band.
pub proof fn lemma_row_in_one_band(height: nat, workers: nat, row: nat, k: nat)
    requires
        workers > 0,
        row < height,
        k < workers,
    ensures
        band_of(height, workers, row) < workers,
        (band_start(height, workers, k) <= row < band_end(height, workers, k)) <==> k == band_of(
            height,
            workers,
            row,
        ),
{
    let share = height / workers;
    if share == 0 {
        assert(k * share == 0 && (k + 1) * share == 0) by (nonlinear_arith)
            requires
                share == 0,
        ;
    } else {
        let q = row / share;
        lemma_fundamental_div_mod(row as int, share as int);
        assert(share * q <= row < share * q + share);
        if k + 1 < workers {
            if k == q {
                assert(k * share == share * q && (k + 1) * share == share * q + share)
                    by (nonlinear_arith)
                    requires
                        k == q,
                ;
            } else if k < q {
                assert((k + 1) * share <= share * q) by (nonlinear_arith)
                    requires
                        k + 1 <= q,
                        share > 0,
                ;
            } else {
                assert(k * share >= share * q + share) by (nonlinear_arith)
                    requires
                        k >= q + 1,
                        share > 0,
                ;
            }
        } else {
            if q >= k {
                assert(k * share <= share * q) by (nonlinear_arith)
                    requires
                        k <= q,
                        share > 0,
                ;
            } else {
                assert(k * share >= share * q + share) by (nonlinear_arith)
                    requires
                        k >= q + 1,
                        share > 0,
                ;
            }
        }
    }
}

/// The rows of band `k`, where `height` rows go to `workers` bands.
pub fn band(height: usize, workers: usize, k: usize) -> (out: Band)
    requires
        workers > 0,
        k < workers,
    ensures
        out.start == band_start(height as nat, workers as nat, k as nat),
        out.end == band_end(height as nat, workers as nat, k as nat),
        out.start <= out.end <= height,
{
    let share: usize = height / workers;
    proof {
        lemma_band_fits(height as nat, workers as nat, k as nat);
        lemma_band_fits(height as nat, workers as nat, (k + 1) as nat);
        lemma_bands_contiguous(height as nat, workers as nat, k as nat);
    }
    let start: usize = k * share;
    let end: usize = if k + 1 == workers {
        height
    } else {
        (k + 1) * share
    };
    Band { start, end }
}

/// All the bands, from the top of the image to the bottom.
pub fn bands(height: usize, workers: usize) -> (out: Vec<Band>)
    requires
        workers > 0,
    ensures
        out@.len() == workers,
        forall|k: int|
            0 <= k < workers ==> {
                &&& (#[trigger] out@[k]).start == band_start(height as nat, workers as nat, k as nat)
                &&& out@[k].end == band_end(height as nat, workers as nat, k as nat)
            },
{
    let mut out: Vec<Band> = Vec::new();
    let mut k: usize = 0;
    while k < workers
        invariant
            workers > 0,
            k <= workers,
            out@.len() == k,
            forall|j: int|
                0 <= j < k ==> {
                    &&& (#[trigger] out@[j]).start == band_start(
                        height as nat,
                        workers as nat,
                        j as nat,
                    )
                    &&& out@[j].end == band_end(height as nat, workers as nat, j as nat)
                },
        decreases workers - k,
    {
        out.push(band(height, workers, k));
        k += 1;
    }
    out
}

} // verus!
