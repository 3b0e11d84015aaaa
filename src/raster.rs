use vstd::prelude::*;

verus! {

/// Mathematical model of an RGB picture: `width * height` pixels stored row
/// by row, three bytes (red, green, blue) per pixel.
pub struct RasterView {
    pub width: nat,
    pub height: nat,
    pub data: Seq<u8>,
}

impl RasterView {
    /// The byte sequence holds exactly three bytes per pixel.
    pub open spec fn wf(self) -> bool {
        self.data.len() == 3 * self.width * self.height
    }

    /// Offset of the first byte of pixel `(x, y)`.
    pub open spec fn offset(self, x: nat, y: nat) -> int {
        (3 * (y * self.width + x)) as int
    }

    /// The three bytes of pixel `(x, y)`.
    pub open spec fn pixel(self, x: nat, y: nat) -> Seq<u8> {
        self.data.subrange(self.offset(x, y), self.offset(x, y) + 3)
    }
}

/// A `width` by `height` picture whose every byte is zero (black).
pub open spec fn blank(width: nat, height: nat) -> RasterView {
    RasterView { width, height, data: Seq::new(3 * width * height, |k: int| 0u8) }
}

/// Resampling kernels of the picture library.
#[derive(Debug, Clone, Copy, PartialEq, Eq, Structural)]
pub enum Filter {
    /// Each output pixel copies the nearest input pixel.
    Nearest,
    /// Windowed sinc with three lobes; smooth, for shrinking.
    Lanczos3,
}

/// The bytes that the picture library's resampler makes of a `width` by
/// `height` RGB picture `data` at the new size with the nearest-pixel
/// kernel. That kernel weighs a single input pixel by one, so its result
/// depends on these arguments alone.
pub uninterp spec fn nearest_resampled(
    width: nat,
    height: nat,
    data: Seq<u8>,
    new_width: nat,
    new_height: nat,
) -> Seq<u8>;

/// `v` resampled to `new_width` by `new_height` with the nearest-pixel kernel.
pub open spec fn nearest_view(v: RasterView, new_width: nat, new_height: nat) -> RasterView {
    RasterView {
        width: new_width,
        height: new_height,
        data: nearest_resampled(v.width, v.height, v.data, new_width, new_height),
    }
}

/// `top` pasted onto `bottom` with its upper left corner at `(x, y)`: inside
/// the part of `bottom` that `top` covers each pixel is `top`'s, elsewhere
/// `bottom` is unchanged; what falls outside `bottom` is dropped.
pub open spec fn overlaid(bottom: RasterView, top: RasterView, x: nat, y: nat) -> RasterView {
    RasterView {
        width: bottom.width,
        height: bottom.height,
        data: Seq::new(
            bottom.data.len(),
            |k: int|
                {
                    let p = k / 3;
                    let px = p % (bottom.width as int);
                    let py = p / (bottom.width as int);
                    if x <= px < x + top.width && y <= py < y + top.height {
                        top.data[3 * ((py - y) * top.width + (px - x)) + k % 3]
                    } else {
                        bottom.data[k]
                    }
                },
        ),
    }
}

/// An owned RGB picture with eight bits per channel.
pub struct Image {
    width: u32,
    height: u32,
    data: Vec<u8>,
}

impl View for Image {
    type V = RasterView;

    closed spec fn view(&self) -> RasterView {
        RasterView { width: self.width as nat, height: self.height as nat, data: self.data@ }
    }
}

/// `y * w + x` stays below `w * h` for every in-range column and row.
pub proof fn lemma_index_bound(w: nat, h: nat, x: nat, y: nat)
    requires
        x <= w,
        y < h,
    ensures
        y * w + x <= w * h,
        3 * (y * w + x) <= 3 * w * h,
        y * w <= y * w + x,
{
    assert(y * w + x <= y * w + w);
    assert(y * w + w == (y + 1) * w) by (nonlinear_arith);
    assert((y + 1) * w <= h * w) by (nonlinear_arith)
        requires
            y + 1 <= h,
    ;
    assert(h * w == w * h) by (nonlinear_arith);
    assert(3 * (w * h) == 3 * w * h) by (nonlinear_arith);
}

impl Image {
    /// The buffer matches the dimensions, and its length fits in memory.
    pub open spec fn wf(&self) -> bool {
        &&& self@.wf()
        &&& 3 * self@.width * self@.height <= usize::MAX
    }

    /// A black picture of the given size.
    pub fn new(width: u32, height: u32) -> (r: Image)
        requires
            3 * width * height <= usize::MAX,
        ensures
            r.wf(),
            r@ == blank(width as nat, height as nat),
    {
        assert((width as nat) * (height as nat) * 3 == 3 * width * height) by (nonlinear_arith);
        assert((width as nat) * (height as nat) <= 3 * width * height) by (nonlinear_arith);
        let n: usize = (width as usize) * (height as usize) * 3;
        assert(n == 3 * width * height) by (nonlinear_arith)
            requires
                n == (width as nat) * (height as nat) * 3,
        ;
        let mut data: Vec<u8> = Vec::new();
        let mut k: usize = 0;
        while k < n
            invariant
                k <= n,
                data@ == Seq::new(k as nat, |i: int| 0u8),
            decreases n - k,
        {
            data.push(0u8);
            k = k + 1;
            assert(data@ =~= Seq::new(k as nat, |i: int| 0u8));
        }
        let r = Image { width, height, data };
        assert(r@.data =~= blank(width as nat, height as nat).data);
        r
    }

    /// Takes a row-major RGB byte buffer; `None` when its length is not
    /// three bytes per pixel.
    pub fn from_raw(width: u32, height: u32, data: Vec<u8>) -> (r: Option<Image>)
        ensures
            r is Some <==> data@.len() == 3 * width * height,
            r matches Some(img) ==> img.wf() && img@ == (RasterView {
                width: width as nat,
                height: height as nat,
                data: data@,
            }),
    {
        let n: usize = data.len();
        match (width as usize).checked_mul(height as usize) {
            None => {
                assert(data@.len() != 3 * width * height) by (nonlinear_arith)
                    requires
                        (width as nat) * (height as nat) > usize::MAX,
                        n == data@.len(),
                ;
                None
            },
            Some(p) => {
                if p <= n / 3 && p * 3 == n {
                    assert(n == 3 * width * height) by (nonlinear_arith)
                        requires
                            p == (width as nat) * (height as nat),
                            n == p * 3,
                    ;
                    Some(Image { width, height, data })
                } else {
                    assert(data@.len() != 3 * width * height) by (nonlinear_arith)
                        requires
                            p == (width as nat) * (height as nat),
                            !(p <= n / 3 && p * 3 == n),
                            n == data@.len(),
                    ;
                    None
                }
            },
        }
    }

    pub fn width(&self) -> (r: u32)
        ensures
            r == self@.width,
    {
        self.width
    }

    pub fn height(&self) -> (r: u32)
        ensures
            r == self@.height,
    {
        self.height
    }

    /// Width and height together.
    pub fn dimensions(&self) -> (r: (u32, u32))
        ensures
            r.0 == self@.width,
            r.1 == self@.height,
    {
        (self.width, self.height)
    }

    /// The row-major RGB bytes.
    pub fn as_bytes(&self) -> (r: &[u8])
        ensures
            r@ == self@.data,
    {
        self.data.as_slice()
    }

    /// The bytes of pixel `(x, y)`.
    pub fn get_pixel(&self, x: u32, y: u32) -> (r: [u8; 3])
        requires
            self.wf(),
            x < self@.width,
            y < self@.height,
        ensures
            r@ == self@.pixel(x as nat, y as nat),
    {
        proof {
            lemma_index_bound(self@.width, self@.height, (x + 1) as nat, y as nat);
        }
        let base: usize = 3 * ((y as usize) * (self.width as usize) + (x as usize));
        let r = [self.data[base], self.data[base + 1], self.data[base + 2]];
        assert(r@ =~= self@.pixel(x as nat, y as nat));
        r
    }

    /// Appends to `out` the bytes of row `y` from column `x0` up to, not
    /// including, column `x1`.
    pub fn append_row_span(&self, out: &mut Vec<u8>, y: u32, x0: u32, x1: u32)
        requires
            self.wf(),
            y < self@.height,
            x0 <= x1 <= self@.width,
        ensures
            final(out)@ == old(out)@ + self@.data.subrange(
                self@.offset(x0 as nat, y as nat),
                self@.offset(x1 as nat, y as nat),
            ),
    {
        proof {
            lemma_index_bound(self@.width, self@.height, x1 as nat, y as nat);
        }
        let row: usize = (y as usize) * (self.width as usize);
        let start: usize = 3 * (row + (x0 as usize));
        let end: usize = 3 * (row + (x1 as usize));
        let ghost before = out@;
        let mut k: usize = start;
        while k < end
            invariant
                start <= k <= end,
                end <= self.data@.len(),
                out@ == before + self.data@.subrange(start as int, k as int),
            decreases end - k,
        {
            out.push(self.data[k]);
            k = k + 1;
            assert(out@ =~= before + self.data@.subrange(start as int, k as int));
        }
    }
}

/// Relies on `image::imageops::resize`: the result has exactly the requested
/// size, three bytes per pixel, and is a copy of the input when the size is
/// unchanged. With the nearest-pixel kernel its bytes are a function of the
/// input and the new size; the Lanczos kernel goes through `f32::sin`, whose
/// precision std leaves open, so of its bytes nothing more is stated. It
/// panics on an input without pixels, and when its result, or
/// the working buffer that it uses when the size changes (the input's width
/// by the new height, four channels), does not fit in memory.
#[verifier::external_body]
pub(crate) fn resample(img: &Image, new_width: u32, new_height: u32, filter: Filter) -> (r: Image)
    requires
        img.wf(),
        img@.width >= 1,
        img@.height >= 1,
        3 * new_width * new_height <= usize::MAX,
        (new_width == img@.width && new_height == img@.height) || 4 * img@.width * new_height
            <= usize::MAX,
    ensures
        r.wf(),
        r@.width == new_width,
        r@.height == new_height,
        filter == Filter::Nearest ==> r@.data == nearest_resampled(
            img@.width,
            img@.height,
            img@.data,
            new_width as nat,
            new_height as nat,
        ),
        r@.data.len() == 3 * new_width * new_height,
        new_width == img@.width && new_height == img@.height ==> r@ == img@,
{
    let kernel = match filter {
        Filter::Nearest => image::imageops::FilterType::Nearest,
        Filter::Lanczos3 => image::imageops::FilterType::Lanczos3,
    };
    let src = image::RgbImage::from_raw(img.width, img.height, img.data.clone()).unwrap();
    let out = image::imageops::resize(&src, new_width, new_height, kernel);
    Image { width: out.width(), height: out.height(), data: out.into_raw() }
}

/// Relies on `image::imageops::overlay` on RGB pictures, where blending a
/// pixel onto another replaces it: the covered part of `bottom` takes
/// `top`'s pixels, the rest of `bottom` and its size stay as they were.
#[verifier::external_body]
pub(crate) fn overlay(bottom: &mut Image, top: &Image, x: u32, y: u32)
    requires
        old(bottom).wf(),
        top.wf(),
    ensures
        final(bottom)@ == overlaid(old(bottom)@, top@, x as nat, y as nat),
{
    let data = std::mem::take(&mut bottom.data);
    let mut canvas = image::RgbImage::from_raw(bottom.width, bottom.height, data).unwrap();
    let layer = image::RgbImage::from_raw(top.width, top.height, top.data.clone()).unwrap();
    image::imageops::overlay(&mut canvas, &layer, x as i64, y as i64);
    bottom.data = canvas.into_raw();
}

} // verus!
