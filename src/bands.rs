use vstd::prelude::*;

verus! {

/// A horizontal strip of the raster: `rows` rows starting at row `top`.
#[derive(Clone, Copy, Debug, PartialEq, Eq, Structural)]
pub struct Band {
    pub top: usize,
    pub rows: usize,
}

/// Number of bands of at most `rows_per_band` rows that cover `height` rows.
pub open spec fn band_count(height: nat, rows_per_band: nat) -> nat
    recommends
        rows_per_band > 0,
{
    if height % rows_per_band == 0 {
        height / rows_per_band
    } else {
        height / rows_per_band + 1
    }
}

/// The `i`-th band when `height` rows are cut into bands of `rows_per_band`
/// rows, the last one possibly shorter.
pub open spec fn band_at(height: nat, rows_per_band: nat, i: nat) -> (nat, nat) {
    let top = i * rows_per_band;
    let rest = height - top;
    (top, if rest < rows_per_band { rest as nat } else { rows_per_band })
}

/// Whether the band `(top, rows)` holds `row`.
pub open spec fn band_holds(band: (nat, nat), row: int) -> bool {
    band.0 <= row < band.0 + band.1
}

/// The view of a band as `(top, rows)`.
pub open spec fn band_view(b: Band) -> (nat, nat) {
    (b.top as nat, b.rows as nat)
}

proof fn lemma_band_count(height: nat, rows_per_band: nat, n: nat)
    requires
        rows_per_band > 0,
        n * rows_per_band >= height,
        n == 0 || (n - 1) * rows_per_band < height,
    ensures
        n == band_count(height, rows_per_band),
{
    let r = rows_per_band;
    let q = height / r;
    let m = height % r;
    assert(height == q * r + m && 0 <= m < r) by (nonlinear_arith)
        requires
            r > 0,
            q == height / r,
            m == height % r,
    ;
    if n == 0 {
        assert(height == 0);
        assert(q == 0) by (nonlinear_arith)
            requires
                height == q * r + m,
                height == 0,
                r > 0,
                m >= 0,
        ;
    } else {
        assert(n >= q) by (nonlinear_arith)
            requires
                n * r >= height,
                height == q * r + m,
                m >= 0,
                r > 0,
        ;
        assert(n - 1 <= q) by (nonlinear_arith)
            requires
                (n - 1) * r < height,
                height == q * r + m,
                m < r,
                n >= 1,
                r > 0,
        ;
        if m == 0 {
            assert(n <= q) by (nonlinear_arith)
                requires
                    (n - 1) * r < height,
                    height == q * r,
                    n >= 1,
                    r > 0,
            ;
        } else {
            assert(n == q + 1) by (nonlinear_arith)
                requires
                    n * r >= height,
                    height == q * r + m,
                    m > 0,
                    n - 1 <= q,
                    r > 0,
            ;
        }
    }
}

/// Cuts `height` rows into bands of `rows_per_band` rows, top to bottom; the
/// last band holds what is left and may be shorter.
pub fn partition_rows(height: usize, rows_per_band: usize) -> (r: Vec<Band>)
    requires
        rows_per_band > 0,
    ensures
        r@.len() == band_count(height as nat, rows_per_band as nat),
        forall|i: int|
            0 <= i < r@.len() ==> #[trigger] band_view(r@[i]) == band_at(
                height as nat,
                rows_per_band as nat,
                i as nat,
            ),
{
    let mut bands: Vec<Band> = Vec::new();
    let mut top: usize = 0;
    assert(bands@.len() * rows_per_band == 0) by (nonlinear_arith)
        requires
            bands@.len() == 0,
    ;
    while top < height
        invariant
            rows_per_band > 0,
            top <= height,
            top == bands@.len() * rows_per_band,
            forall|i: int|
                0 <= i < bands@.len() ==> #[trigger] band_view(bands@[i]) == band_at(
                    height as nat,
                    rows_per_band as nat,
                    i as nat,
                ),
        decreases height - top,
    {
        let n = bands.len();
        if height - top <= rows_per_band {
            bands.push(Band { top, rows: height - top });
            assert(bands@.len() * rows_per_band >= height) by (nonlinear_arith)
                requires
                    bands@.len() == n + 1,
                    top == n * rows_per_band,
                    height - top <= rows_per_band,
            ;
            proof {
                lemma_band_count(height as nat, rows_per_band as nat, bands@.len());
            }
            return bands;
        }
        bands.push(Band { top, rows: rows_per_band });
        top = top + rows_per_band;
        assert(top == bands@.len() * rows_per_band) by (nonlinear_arith)
            requires
                bands@.len() == n + 1,
                top == n * rows_per_band + rows_per_band,
        ;
    }
    proof {
        let n = bands@.len();
        if n > 0 {
            assert((n - 1) * rows_per_band < height) by (nonlinear_arith)
                requires
                    height == n * rows_per_band,
                    rows_per_band > 0,
                    n > 0,
            ;
        }
        lemma_band_count(height as nat, rows_per_band as nat, n);
    }
    bands
}

/// The bands cover `0..height` exactly once: each band is non-empty and lies
/// within `0..height`, each row lies in the band numbered `row / rows_per_band`,
/// and in no other.
pub proof fn lemma_partition_exact(height: nat, rows_per_band: nat)
    requires
        rows_per_band > 0,
    ensures
        forall|i: nat|
            i < band_count(height, rows_per_band) ==> {
                let b = #[trigger] band_at(height, rows_per_band, i);
                b.1 > 0 && b.0 + b.1 <= height
            },
        forall|row: nat|
            row < height ==> {
                let i = #[trigger] (row / rows_per_band);
                i < band_count(height, rows_per_band) && band_holds(
                    band_at(height, rows_per_band, i),
                    row as int,
                )
            },
        forall|i: nat, row: nat|
            i < band_count(height, rows_per_band) && #[trigger] band_holds(
                band_at(height, rows_per_band, i),
                row as int,
            ) ==> i == row / rows_per_band,
{
    let r = rows_per_band;
    let n = band_count(height, r);
    assert(n * r >= height && (n == 0 || (n - 1) * r < height)) by (nonlinear_arith)
        requires
            r > 0,
            n == (if height % r == 0 { height / r } else { height / r + 1 }),
    {
        let q = height / r;
        let m = height % r;
        assert(height == q * r + m && 0 <= m < r);
    }
    assert forall|i: nat| i < n implies {
        let b = #[trigger] band_at(height, r, i);
        b.1 > 0 && b.0 + b.1 <= height
    } by {
        assert(i * r < height) by (nonlinear_arith)
            requires
                i < n,
                n == 0 || (n - 1) * r < height,
                r > 0,
        ;
    }
    assert forall|row: nat| row < height implies {
        let i = #[trigger] (row / r);
        i < n && band_holds(band_at(height, r, i), row as int)
    } by {
        let i = row / r;
        assert(i * r <= row < i * r + r) by (nonlinear_arith)
            requires
                r > 0,
                i == row / r,
        {
            assert(row == (row / r) * r + row % r);
        }
        assert(i < n) by (nonlinear_arith)
            requires
                i * r <= row,
                row < height,
                n * r >= height,
                r > 0,
        ;
    }
    assert forall|i: nat, row: nat|
        i < n && #[trigger] band_holds(band_at(height, r, i), row as int) implies i == row / r by {
        assert(i * r <= row < i * r + r);
        assert(i == row / r) by (nonlinear_arith)
            requires
                i * r <= row < i * r + r,
                r > 0,
        {
            let q = row / r;
            assert(row == q * r + row % r);
        }
    }
}

} // verus!
