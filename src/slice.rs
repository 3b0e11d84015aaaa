use vstd::prelude::*;
use crate::raster::{lemma_index_bound, Image, RasterView};

verus! {

/// Why a rectangle could not be cut out of a picture.
#[derive(Debug, Clone, Copy, PartialEq, Eq, Structural)]
pub enum SliceError {
    /// The rectangle reaches past the right or bottom edge.
    OutOfBounds,
}

pub open spec fn min_u32(a: u32, b: u32) -> u32 {
    if a <= b { a } else { b }
}

pub open spec fn max_u32(a: u32, b: u32) -> u32 {
    if a <= b { b } else { a }
}

/// The bytes of rows `y0 .. y0 + n`, each cut to columns `x0 .. x1`,
/// one after another.
pub open spec fn crop_rows(v: RasterView, x0: nat, x1: nat, y0: nat, n: nat) -> Seq<u8>
    decreases n,
{
    if n == 0 {
        Seq::empty()
    } else {
        let y = (y0 + n - 1) as nat;
        crop_rows(v, x0, x1, y0, (n - 1) as nat) + v.data.subrange(v.offset(x0, y), v.offset(x1, y))
    }
}

/// The rectangle spanned by two corners, in either order, lies inside `v`.
pub open spec fn slice_fits(v: RasterView, p1: (u32, u32), p2: (u32, u32)) -> bool {
    &&& max_u32(p1.0, p2.0) <= v.width
    &&& max_u32(p1.1, p2.1) <= v.height
}

/// The part of `v` between the corners `p1` and `p2`: columns from the
/// smaller x up to the larger, rows from the smaller y up to the larger.
pub open spec fn sliced(v: RasterView, p1: (u32, u32), p2: (u32, u32)) -> RasterView {
    let x0 = min_u32(p1.0, p2.0);
    let x1 = max_u32(p1.0, p2.0);
    let y0 = min_u32(p1.1, p2.1);
    let y1 = max_u32(p1.1, p2.1);
    RasterView {
        width: (x1 - x0) as nat,
        height: (y1 - y0) as nat,
        data: crop_rows(v, x0 as nat, x1 as nat, y0 as nat, (y1 - y0) as nat),
    }
}

proof fn lemma_crop_rows_len(v: RasterView, x0: nat, x1: nat, y0: nat, n: nat)
    requires
        v.wf(),
        x0 <= x1 <= v.width,
        y0 + n <= v.height,
    ensures
        crop_rows(v, x0, x1, y0, n).len() == 3 * (x1 - x0) * n,
    decreases n,
{
    if n > 0 {
        let y = (y0 + n - 1) as nat;
        lemma_crop_rows_len(v, x0, x1, y0, (n - 1) as nat);
        lemma_index_bound(v.width, v.height, x1, y);
        let a = y * v.width + x0;
        let b = y * v.width + x1;
        assert(v.offset(x0, y) == 3 * a);
        assert(v.offset(x1, y) == 3 * b);
        assert(3 * (x1 - x0) * (n - 1) + 3 * (x1 - x0) == 3 * (x1 - x0) * n) by (nonlinear_arith);
    } else {
        assert(3 * (x1 - x0) * n == 0) by (nonlinear_arith)
            requires
                n == 0,
        ;
    }
}

/// Row `r` of a crop is the span of columns `x0 .. x1` of source row `y0 + r`.
proof fn lemma_crop_row(v: RasterView, x0: nat, x1: nat, y0: nat, n: nat, r: nat)
    requires
        v.wf(),
        x0 <= x1 <= v.width,
        y0 + n <= v.height,
        r < n,
    ensures
        crop_rows(v, x0, x1, y0, n).subrange(3 * (x1 - x0) * r, 3 * (x1 - x0) * (r + 1))
            == v.data.subrange(v.offset(x0, y0 + r), v.offset(x1, y0 + r)),
    decreases n,
{
    let prev = crop_rows(v, x0, x1, y0, (n - 1) as nat);
    let whole = crop_rows(v, x0, x1, y0, n);
    lemma_crop_rows_len(v, x0, x1, y0, (n - 1) as nat);
    lemma_crop_rows_len(v, x0, x1, y0, n);
    let lo = 3 * (x1 - x0) * r;
    let hi = 3 * (x1 - x0) * (r + 1);
    assert(hi == lo + 3 * (x1 - x0)) by (nonlinear_arith)
        requires
            lo == 3 * (x1 - x0) * r,
            hi == 3 * (x1 - x0) * (r + 1),
    ;
    assert(hi <= 3 * (x1 - x0) * n) by (nonlinear_arith)
        requires
            hi == 3 * (x1 - x0) * (r + 1),
            r + 1 <= n,
            x0 <= x1,
    ;
    assert(0 <= lo) by (nonlinear_arith)
        requires
            lo == 3 * (x1 - x0) * r,
            x0 <= x1,
    ;
    if r + 1 == n {
        assert(whole.subrange(lo, hi) =~= v.data.subrange(
            v.offset(x0, y0 + r),
            v.offset(x1, y0 + r),
        ));
    } else {
        lemma_crop_row(v, x0, x1, y0, (n - 1) as nat, r);
        assert(hi <= 3 * (x1 - x0) * (n - 1)) by (nonlinear_arith)
            requires
                hi == 3 * (x1 - x0) * (r + 1),
                r + 1 < n,
                x0 <= x1,
        ;
        assert(whole.subrange(lo, hi) =~= prev.subrange(lo, hi));
    }
}

/// Pixel `(x, y)` of a crop is pixel `(x0 + x, y0 + y)` of the source, where
/// `(x0, y0)` is the crop's upper left corner.
pub proof fn lemma_sliced_pixel(v: RasterView, p1: (u32, u32), p2: (u32, u32), x: nat, y: nat)
    requires
        v.wf(),
        slice_fits(v, p1, p2),
        x < sliced(v, p1, p2).width,
        y < sliced(v, p1, p2).height,
    ensures
        sliced(v, p1, p2).pixel(x, y) == v.pixel(
            (min_u32(p1.0, p2.0) + x) as nat,
            (min_u32(p1.1, p2.1) + y) as nat,
        ),
{
    let x0 = min_u32(p1.0, p2.0) as nat;
    let x1 = max_u32(p1.0, p2.0) as nat;
    let y0 = min_u32(p1.1, p2.1) as nat;
    let n = (max_u32(p1.1, p2.1) - y0) as nat;
    let w = (x1 - x0) as nat;
    let out = sliced(v, p1, p2);
    lemma_sliced_wf(v, p1, p2);
    lemma_crop_row(v, x0, x1, y0, n, y);
    lemma_index_bound(v.width, v.height, x1, y0 + y);
    let row = out.data.subrange((3 * w * y) as int, (3 * w * (y + 1)) as int);
    assert(3 * w * (y + 1) == 3 * w * y + 3 * w) by (nonlinear_arith);
    assert(3 * w * (y + 1) <= 3 * w * n) by (nonlinear_arith)
        requires
            y < n,
    ;
    assert(out.width == w);
    assert(out.offset(x, y) == 3 * (y * w + x));
    assert(3 * (y * w + x) == 3 * w * y + 3 * x) by (nonlinear_arith);
    assert(3 * ((y0 + y) * v.width + (x0 + x)) == 3 * ((y0 + y) * v.width + x0) + 3 * x)
        by (nonlinear_arith);
    assert(v.offset(x0, y0 + y) <= v.offset(x1, y0 + y)) by (nonlinear_arith)
        requires
            x0 <= x1,
    ;
    assert(out.pixel(x, y) =~= row.subrange((3 * x) as int, (3 * x + 3) as int));
    assert(v.pixel(x0 + x, y0 + y) =~= v.data.subrange(
        v.offset(x0, y0 + y),
        v.offset(x1, y0 + y),
    ).subrange((3 * x) as int, (3 * x + 3) as int));
}

/// A crop of `v` fits the dimensions it claims.
pub proof fn lemma_sliced_wf(v: RasterView, p1: (u32, u32), p2: (u32, u32))
    requires
        v.wf(),
        slice_fits(v, p1, p2),
    ensures
        sliced(v, p1, p2).wf(),
        sliced(v, p1, p2).width <= v.width,
        sliced(v, p1, p2).height <= v.height,
{
    let x0 = min_u32(p1.0, p2.0);
    let x1 = max_u32(p1.0, p2.0);
    let y0 = min_u32(p1.1, p2.1);
    let y1 = max_u32(p1.1, p2.1);
    lemma_crop_rows_len(v, x0 as nat, x1 as nat, y0 as nat, (y1 - y0) as nat);
    assert(3 * ((x1 - x0) as nat) * ((y1 - y0) as nat) == 3 * (x1 - x0) * (y1 - y0));
}

/// Cutting a rectangle does not depend on the order in which its two
/// corners are given.
pub proof fn lemma_slice_symmetric(v: RasterView, p1: (u32, u32), p2: (u32, u32))
    ensures
        slice_fits(v, p1, p2) == slice_fits(v, p2, p1),
        sliced(v, p1, p2) == sliced(v, p2, p1),
{
}

proof fn lemma_crop_full_rows(v: RasterView, n: nat)
    requires
        v.wf(),
        n <= v.height,
    ensures
        crop_rows(v, 0, v.width, 0, n) == v.data.subrange(0, (3 * v.width * n) as int),
    decreases n,
{
    if n == 0 {
        assert(3 * v.width * n == 0) by (nonlinear_arith)
            requires
                n == 0,
        ;
        assert(v.data.subrange(0, 0) =~= Seq::empty());
    } else {
        let y = (n - 1) as nat;
        lemma_crop_full_rows(v, y);
        lemma_index_bound(v.width, v.height, v.width, y);
        assert(v.offset(0, y) == 3 * (y * v.width));
        assert(3 * (y * v.width) == 3 * v.width * y) by (nonlinear_arith);
        assert(3 * (y * v.width + v.width) == 3 * v.width * n) by (nonlinear_arith)
            requires
                y + 1 == n,
        ;
        assert(3 * v.width * y <= 3 * v.width * n) by (nonlinear_arith)
            requires
                y + 1 == n,
        ;
        assert(v.data.subrange(0, (3 * v.width * y) as int) + v.data.subrange(
            (3 * v.width * y) as int,
            (3 * v.width * n) as int,
        ) =~= v.data.subrange(0, (3 * v.width * n) as int));
    }
}

/// Cutting from the origin to the far corner gives back the whole picture.
pub proof fn lemma_slice_whole(v: RasterView)
    requires
        v.wf(),
        v.width <= u32::MAX,
        v.height <= u32::MAX,
    ensures
        slice_fits(v, (0, 0), (v.width as u32, v.height as u32)),
        sliced(v, (0, 0), (v.width as u32, v.height as u32)) == v,
{
    lemma_crop_full_rows(v, v.height);
    assert(v.data.subrange(0, (3 * v.width * v.height) as int) =~= v.data);
}

/// Copies the rectangle spanned by the corners `point1` and `point2`, which
/// may be given in either order, into a picture of its own. Equal
/// coordinates on an axis give an empty picture.
pub fn slice_image(img: &Image, point1: (u32, u32), point2: (u32, u32)) -> (r: Result<
    Image,
    SliceError,
>)
    requires
        img.wf(),
    ensures
        r is Ok <==> slice_fits(img@, point1, point2),
        r matches Ok(out) ==> out.wf() && out@ == sliced(img@, point1, point2),
        r matches Ok(out) ==> forall|x: nat, y: nat|
            x < out@.width && y < out@.height ==> #[trigger] out@.pixel(x, y) == img@.pixel(
                (min_u32(point1.0, point2.0) + x) as nat,
                (min_u32(point1.1, point2.1) + y) as nat,
            ),
        r matches Err(e) ==> e == SliceError::OutOfBounds,
{
    let x0 = if point1.0 <= point2.0 { point1.0 } else { point2.0 };
    let x1 = if point1.0 <= point2.0 { point2.0 } else { point1.0 };
    let y0 = if point1.1 <= point2.1 { point1.1 } else { point2.1 };
    let y1 = if point1.1 <= point2.1 { point2.1 } else { point1.1 };
    if x1 > img.width() || y1 > img.height() {
        return Err(SliceError::OutOfBounds);
    }
    let ghost v = img@;
    let rows: u32 = y1 - y0;
    let mut out: Vec<u8> = Vec::new();
    let mut n: u32 = 0;
    while n < rows
        invariant
            img.wf(),
            v == img@,
            n <= rows,
            rows == y1 - y0,
            x0 <= x1 <= v.width,
            y1 <= v.height,
            out@ == crop_rows(v, x0 as nat, x1 as nat, y0 as nat, n as nat),
        decreases rows - n,
    {
        img.append_row_span(&mut out, y0 + n, x0, x1);
        n = n + 1;
    }
    proof {
        lemma_sliced_wf(v, point1, point2);
        assert forall|x: nat, y: nat|
            x < sliced(v, point1, point2).width && y < sliced(v, point1, point2).height implies
            #[trigger] sliced(v, point1, point2).pixel(x, y) == v.pixel(
                (min_u32(point1.0, point2.0) + x) as nat,
                (min_u32(point1.1, point2.1) + y) as nat,
            ) by {
            lemma_sliced_pixel(v, point1, point2, x, y);
        }
    }
    match Image::from_raw(x1 - x0, rows, out) {
        Some(s) => Ok(s),
        None => Err(SliceError::OutOfBounds),
    }
}

} // verus!
