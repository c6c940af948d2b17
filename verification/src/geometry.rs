//! Fitting a picture to the sub-cell grid of a terminal.

use vstd::prelude::*;

verus! {

/// Columns assumed when the terminal cannot be asked for its size.
pub const DEFAULT_COLUMNS: u16 = 100;

/// Rows assumed when the terminal cannot be asked for its size.
pub const DEFAULT_ROWS: u16 = 200;

/// Text rows kept free for the prompt and status lines.
pub const RESERVED_ROWS: u16 = 2;

/// Size of a terminal in character cells.
#[derive(Clone, Copy, Debug, PartialEq, Eq, Structural)]
pub struct TerminalGeometry {
    pub columns: u16,
    pub rows: u16,
}

/// Why no target resolution exists for a terminal.
#[derive(Clone, Copy, Debug, PartialEq, Eq, Structural)]
pub enum GeometryError {
    /// The terminal has no row left once the reserved rows are taken away.
    TerminalTooSmall,
}

impl TerminalGeometry {
    /// Width of the usable grid in sub-cells: two per column.
    pub open spec fn grid_width(self) -> int {
        2 * self.columns
    }

    /// Height of the usable grid in sub-cells: four per row that is not reserved.
    pub open spec fn grid_height(self) -> int {
        4 * (self.rows - RESERVED_ROWS)
    }

    /// Whether any row is left for the picture.
    pub open spec fn usable(self) -> bool {
        self.rows > RESERVED_ROWS
    }

    /// The geometry a terminal reported, or the fixed default when it reported none.
    pub fn or_default(queried: Option<(u16, u16)>) -> (g: TerminalGeometry)
        ensures
            queried matches Some(size) ==> g.columns == size.0 && g.rows == size.1,
            queried is None ==> g.columns == DEFAULT_COLUMNS && g.rows == DEFAULT_ROWS,
    {
        match queried {
            Some((columns, rows)) => TerminalGeometry { columns, rows },
            None => TerminalGeometry { columns: DEFAULT_COLUMNS, rows: DEFAULT_ROWS },
        }
    }
}

/// The quotient `n / d` rounded to the nearest integer, halves rounded up
/// (which is away from zero, as neither is negative).
pub open spec fn round_div(n: int, d: int) -> int
    recommends
        n >= 0,
        d > 0,
{
    (2 * n + d) / (2 * d)
}

/// Target resolution for a picture of `width` by `height` samples on a grid of
/// `grid_w` by `grid_h` sub-cells.
///
/// The aspect is `height / width`. A picture wider than tall takes the full
/// grid width and the height scaled by the aspect; one taller than wide takes
/// the full grid height and the width scaled by the aspect. Whichever side then
/// overshoots the grid is cut back to it and the other side scaled down by the
/// same ratio. A square picture takes the smaller side of the grid twice.
pub open spec fn fitted(width: int, height: int, grid_w: int, grid_h: int) -> (int, int) {
    if height < width {
        let h = round_div(grid_w * height, width);
        if h > grid_h {
            (round_div(grid_w * grid_h, h), grid_h)
        } else {
            (grid_w, h)
        }
    } else if height > width {
        let w = round_div(grid_h * height, width);
        if w > grid_w {
            (grid_w, round_div(grid_h * grid_w, w))
        } else {
            (w, grid_h)
        }
    } else if grid_w <= grid_h {
        (grid_w, grid_w)
    } else {
        (grid_h, grid_h)
    }
}

/// A rounded quotient of a product never exceeds a factor whose partner is at
/// most the divisor.
pub proof fn lemma_round_div_bounded(a: int, b: int, c: int)
    requires
        0 <= a,
        0 <= b <= c,
        0 < c,
    ensures
        0 <= round_div(a * b, c) <= a,
{
    assert(0 <= a * b <= a * c) by (nonlinear_arith)
        requires
            0 <= a,
            0 <= b <= c,
    ;
    let n = 2 * (a * b) + c;
    let d = 2 * c;
    assert(n < d * (a + 1)) by (nonlinear_arith)
        requires
            n == 2 * (a * b) + c,
            d == 2 * c,
            a * b <= a * c,
            0 < c,
    ;
    assert(0 <= n / d <= a) by (nonlinear_arith)
        requires
            0 <= n < d * (a + 1),
            0 < d,
    ;
}

/// The rounded quotient lies within half a unit of the exact one.
pub proof fn lemma_round_div_error(n: int, d: int)
    requires
        0 <= n,
        0 < d,
    ensures
        -d <= 2 * n - 2 * d * round_div(n, d) < d,
        0 <= round_div(n, d) <= n + 1,
{
    let q = (2 * n + d) / (2 * d);
    assert(2 * d * q <= 2 * n + d < 2 * d * q + 2 * d && 0 <= q <= n + 1) by (nonlinear_arith)
        requires
            q == (2 * n + d) / (2 * d),
            0 <= n,
            0 < d,
    ;
}

/// The fitted resolution stays inside the grid in both directions.
pub proof fn lemma_fitted_within_grid(width: int, height: int, grid_w: int, grid_h: int)
    requires
        0 < width,
        0 < height,
        0 <= grid_w,
        0 <= grid_h,
    ensures
        0 <= fitted(width, height, grid_w, grid_h).0 <= grid_w,
        0 <= fitted(width, height, grid_w, grid_h).1 <= grid_h,
{
    if height < width {
        lemma_round_div_bounded(grid_w, height, width);
        let h = round_div(grid_w * height, width);
        if h > grid_h {
            lemma_round_div_bounded(grid_w, grid_h, h);
        }
    } else if height > width {
        let w = round_div(grid_h * height, width);
        if w > grid_w {
            lemma_round_div_bounded(grid_h, grid_w, w);
        } else {
            assert(0 <= grid_h * height) by (nonlinear_arith)
                requires
                    0 <= grid_h,
                    0 < height,
            ;
            lemma_round_div_error(grid_h * height, width);
        }
    }
}

/// A picture at least as wide as tall keeps its aspect: the fitted height
/// differs from the fitted width times `height / width` by less than one
/// sub-cell, that is `2 * |w * height - h * width| <= width + height`.
pub proof fn lemma_fitted_keeps_aspect(width: int, height: int, grid_w: int, grid_h: int)
    requires
        0 < height <= width,
        0 <= grid_w,
        0 <= grid_h,
    ensures
        ({
            let (w, h) = fitted(width, height, grid_w, grid_h);
            -(width + height) <= 2 * (w * height - h * width) <= width + height
        }),
{
    let (w, h) = fitted(width, height, grid_w, grid_h);
    if height < width {
        let h0 = round_div(grid_w * height, width);
        assert(0 <= grid_w * height) by (nonlinear_arith)
            requires
                0 <= grid_w,
                0 < height,
        ;
        lemma_round_div_error(grid_w * height, width);
        if h0 > grid_h {
            assert(0 <= grid_w * grid_h) by (nonlinear_arith)
                requires
                    0 <= grid_w,
                    0 <= grid_h,
            ;
            lemma_round_div_error(grid_w * grid_h, h0);
            let r1 = 2 * (grid_w * grid_h) - 2 * h0 * w;
            let r2 = 2 * (grid_w * height) - 2 * width * h0;
            assert(-(width + height) <= 2 * (w * height - grid_h * width) <= width + height)
                by (nonlinear_arith)
                requires
                    r1 == 2 * (grid_w * grid_h) - 2 * h0 * w,
                    r2 == 2 * (grid_w * height) - 2 * width * h0,
                    -h0 <= r1 < h0,
                    -width <= r2 < width,
                    0 <= grid_h < h0,
                    0 < height,
                    0 < width,
            ;
        } else {
            assert(2 * (grid_w * height - h0 * width) == 2 * (grid_w * height) - 2 * width * h0)
                by (nonlinear_arith);
        }
    } else {
        assert(w == h);
        assert(w * height - h * width == 0) by (nonlinear_arith)
            requires
                w == h,
                width == height,
        ;
    }
}

/// A picture taller than wide has its width scaled by `height / width` as
/// well: the fitted width differs from the fitted height times
/// `height / width` by less than `height / width` sub-cells, that is
/// `2 * |h * height - w * width| <= width + height`.
pub proof fn lemma_fitted_tall_scaling(width: int, height: int, grid_w: int, grid_h: int)
    requires
        0 < width < height,
        0 <= grid_w,
        0 <= grid_h,
    ensures
        ({
            let (w, h) = fitted(width, height, grid_w, grid_h);
            -(width + height) <= 2 * (h * height - w * width) <= width + height
        }),
{
    let (w, h) = fitted(width, height, grid_w, grid_h);
    let w0 = round_div(grid_h * height, width);
    assert(0 <= grid_h * height) by (nonlinear_arith)
        requires
            0 <= grid_h,
            0 < height,
    ;
    lemma_round_div_error(grid_h * height, width);
    if w0 > grid_w {
        assert(0 <= grid_h * grid_w) by (nonlinear_arith)
            requires
                0 <= grid_w,
                0 <= grid_h,
        ;
        lemma_round_div_error(grid_h * grid_w, w0);
        let r1 = 2 * (grid_h * grid_w) - 2 * w0 * h;
        let r2 = 2 * (grid_h * height) - 2 * width * w0;
        assert(-(width + height) <= 2 * (h * height - grid_w * width) <= width + height)
            by (nonlinear_arith)
            requires
                r1 == 2 * (grid_h * grid_w) - 2 * w0 * h,
                r2 == 2 * (grid_h * height) - 2 * width * w0,
                -w0 <= r1 < w0,
                -width <= r2 < width,
                0 <= grid_w < w0,
                0 < height,
                0 < width,
        ;
    } else {
        assert(2 * (grid_h * height - w0 * width) == 2 * (grid_h * height) - 2 * width * w0)
            by (nonlinear_arith);
    }
}

/// Computes the target resolution for a picture on a terminal: `fitted` on the
/// terminal's usable grid, or an error when the terminal leaves no usable row.
pub fn fit_dimensions(width: u32, height: u32, terminal: TerminalGeometry) -> (r: Result<
    (u32, u32),
    GeometryError,
>)
    requires
        width > 0,
        height > 0,
    ensures
        !terminal.usable() <==> r == Err::<(u32, u32), GeometryError>(
            GeometryError::TerminalTooSmall,
        ),
        terminal.usable() ==> r is Ok && ({
            let t = fitted(
                width as int,
                height as int,
                terminal.grid_width(),
                terminal.grid_height(),
            );
            r->Ok_0.0 == t.0 && r->Ok_0.1 == t.1
        }),
        r matches Ok(t) ==> t.0 <= terminal.grid_width() && t.1 <= terminal.grid_height(),
{
    if terminal.rows <= RESERVED_ROWS {
        return Err(GeometryError::TerminalTooSmall);
    }
    let grid_w: u64 = 2 * (terminal.columns as u64);
    let grid_h: u64 = 4 * ((terminal.rows - RESERVED_ROWS) as u64);
    let w: u64 = width as u64;
    let h: u64 = height as u64;
    proof {
        lemma_fitted_within_grid(w as int, h as int, grid_w as int, grid_h as int);
    }
    if h < w {
        proof {
            lemma_round_div_bounded(grid_w as int, h as int, w as int);
        }
        let scaled: u64 = rounded_quotient(grid_w, h, w);
        if scaled > grid_h {
            let cut: u64 = rounded_quotient(grid_w, grid_h, scaled);
            Ok((cut as u32, grid_h as u32))
        } else {
            Ok((grid_w as u32, scaled as u32))
        }
    } else if h > w {
        let scaled: u64 = rounded_quotient(grid_h, h, w);
        if scaled > grid_w {
            let cut: u64 = rounded_quotient(grid_h, grid_w, scaled);
            Ok((grid_w as u32, cut as u32))
        } else {
            Ok((scaled as u32, grid_h as u32))
        }
    } else if grid_w <= grid_h {
        Ok((grid_w as u32, grid_w as u32))
    } else {
        Ok((grid_h as u32, grid_h as u32))
    }
}

/// `a * b / c` rounded to the nearest integer, for factors small enough that
/// twice the product plus the divisor fits in 64 bits.
fn rounded_quotient(a: u64, b: u64, c: u64) -> (q: u64)
    requires
        a <= 0x10_0000,
        b <= 0xffff_ffff,
        0 < c <= 0x10_0000_0000_0000,
    ensures
        q == round_div(a * b, c as int),
        q <= a * b + 1,
        q <= 0x10_0000_0000_0000,
{
    proof {
        assert(0 <= a * b) by (nonlinear_arith);
        lemma_round_div_error(a * b, c as int);
    }
    assert(a * b <= 0x10_0000 * 0xffff_ffff) by (nonlinear_arith)
        requires
            a <= 0x10_0000,
            b <= 0xffff_ffff,
    ;
    (2 * (a * b) + c) / (2 * c)
}

} // verus!
