use vstd::prelude::*;
use crate::raster::{resample, Filter, Image, RasterView};
use crate::reconstruct::{reconstruct_image, reconstructed, views};
use crate::slice::{lemma_sliced_wf, slice_fits, slice_image, sliced};

verus! {

/// Why a picture could not be shrunk.
#[derive(Debug, Clone, Copy, PartialEq, Eq, Structural)]
pub enum ResizeError {
    /// The divisor is zero.
    ZeroFactor,
    /// The divisor exceeds the picture's width or height, which would leave
    /// no pixel on that axis.
    FactorTooLarge,
}

/// Why a pipeline configuration was refused.
#[derive(Debug, Clone, Copy, PartialEq, Eq, Structural)]
pub enum ConfigError {
    /// Fewer than two layers.
    TooFewDivisions,
    /// A downscale factor below two.
    FactorTooSmall,
}

/// Shrinking a `width` by `height` picture by `factor` leaves at least one
/// pixel on each axis.
pub open spec fn resize_fits(width: nat, height: nat, factor: nat) -> bool {
    1 <= factor && factor <= width && factor <= height
}

/// Shrinks `img` by the divisor `factor` on both axes (rounding down) with a
/// high-quality Lanczos filter; a divisor of one gives the picture back
/// unchanged. A divisor of zero, or one larger than the width or the
/// height, is refused.
pub fn resize_image(img: &Image, factor: u32) -> (r: Result<Image, ResizeError>)
    requires
        img.wf(),
    ensures
        r is Ok <==> resize_fits(img@.width, img@.height, factor as nat),
        r matches Ok(out) ==> {
            &&& out.wf()
            &&& out@.width == img@.width / (factor as nat)
            &&& out@.height == img@.height / (factor as nat)
            &&& factor == 1 ==> out@ == img@
        },
        r matches Err(e) ==> e == (if factor == 0 {
            ResizeError::ZeroFactor
        } else {
            ResizeError::FactorTooLarge
        }),
{
    if factor == 0 {
        return Err(ResizeError::ZeroFactor);
    }
    let (w, h) = img.dimensions();
    if factor > w || factor > h {
        return Err(ResizeError::FactorTooLarge);
    }
    let nw: u32 = w / factor;
    let nh: u32 = h / factor;
    assert(3 * nw * nh <= 3 * w * h) by (nonlinear_arith)
        requires
            nw <= w,
            nh <= h,
    ;
    if factor >= 2 {
        assert(4 * w * nh <= 3 * w * h) by (nonlinear_arith)
            requires
                nh == h / factor,
                factor >= 2,
        ;
    }
    Ok(resample(img, nw, nh, Filter::Lanczos3))
}

/// Width and height of layer `k`: the first layer's size divided by
/// `factor` `k` times, rounding down each time.
pub open spec fn layer_size(width: nat, height: nat, factor: nat, k: nat) -> (nat, nat)
    decreases k,
{
    if k == 0 {
        (width, height)
    } else {
        let p = layer_size(width, height, factor, (k - 1) as nat);
        (p.0 / factor, p.1 / factor)
    }
}

/// Every shrinking step that makes the first `n` layers leaves pixels on
/// both axes.
pub open spec fn chain_fits(width: nat, height: nat, factor: nat, n: nat) -> bool
    decreases n,
{
    if n <= 1 {
        true
    } else {
        let p = layer_size(width, height, factor, (n - 2) as nat);
        chain_fits(width, height, factor, (n - 1) as nat) && resize_fits(p.0, p.1, factor)
    }
}

proof fn lemma_chain_fits_prefix(width: nat, height: nat, factor: nat, n: nat, m: nat)
    requires
        n <= m,
        chain_fits(width, height, factor, m),
    ensures
        chain_fits(width, height, factor, n),
    decreases m - n,
{
    if n < m {
        lemma_chain_fits_prefix(width, height, factor, n, (m - 1) as nat);
    }
}

/// No layer is wider than the first.
proof fn lemma_layer_width(width: nat, height: nat, factor: nat, k: nat)
    requires
        factor >= 1,
    ensures
        layer_size(width, height, factor, k).0 <= width,
    decreases k,
{
    if k > 0 {
        lemma_layer_width(width, height, factor, (k - 1) as nat);
        let p = layer_size(width, height, factor, (k - 1) as nat);
        assert(p.0 / factor <= p.0) by (nonlinear_arith)
            requires
                factor >= 1,
        ;
    }
}

/// The list of `divisions` layers: `input`, then each layer shrunk by
/// `factor` from the one before. Fails when a step would leave no pixel on
/// an axis.
pub fn build_layers(input: Image, divisions: u32, factor: u32) -> (r: Result<Vec<Image>, ResizeError>)
    requires
        input.wf(),
        divisions >= 1,
    ensures
        r is Ok <==> chain_fits(input@.width, input@.height, factor as nat, divisions as nat),
        r matches Ok(layers) ==> {
            &&& layers@.len() == divisions
            &&& layers@[0]@ == input@
            &&& forall|i: int|
                0 <= i < layers@.len() ==> #[trigger] layers@[i].wf() && (layers@[i]@.width, layers@[i]@.height)
                    == layer_size(input@.width, input@.height, factor as nat, i as nat)
        },
        r matches Err(e) ==> e == (if factor == 0 {
            ResizeError::ZeroFactor
        } else {
            ResizeError::FactorTooLarge
        }),
{
    let ghost v = input@;
    let mut layers: Vec<Image> = Vec::new();
    layers.push(input);
    let mut n: u32 = 1;
    while n < divisions
        invariant
            1 <= n <= divisions,
            v == input@,
            layers@.len() == n,
            layers@[0]@ == v,
            chain_fits(v.width, v.height, factor as nat, n as nat),
            forall|i: int|
                0 <= i < layers@.len() ==> #[trigger] layers@[i].wf() && (layers@[i]@.width, layers@[i]@.height)
                    == layer_size(v.width, v.height, factor as nat, i as nat),
        decreases divisions - n,
    {
        assert(layers@[n - 1].wf());
        match resize_image(&layers[(n - 1) as usize], factor) {
            Ok(next) => {
                layers.push(next);
                assert(layers@[n as int] == next);
                n = n + 1;
            },
            Err(e) => {
                proof {
                    assert(!chain_fits(v.width, v.height, factor as nat, (n + 1) as nat));
                    if chain_fits(v.width, v.height, factor as nat, divisions as nat) {
                        lemma_chain_fits_prefix(
                            v.width,
                            v.height,
                            factor as nat,
                            (n + 1) as nat,
                            divisions as nat,
                        );
                    }
                }
                return Err(e);
            },
        }
    }
    Ok(layers)
}

/// First coordinate of a span of `len / parts` centred in a span of `len`.
pub open spec fn centred_start(len: nat, parts: nat) -> nat {
    (len / 2 - (len / parts) / 2) as nat
}

/// The centred crop of `v` that is `1 / parts` of its width and height.
pub open spec fn centred_crop(v: RasterView, parts: nat) -> RasterView {
    let x0 = centred_start(v.width, parts);
    let y0 = centred_start(v.height, parts);
    sliced(
        v,
        (x0 as u32, y0 as u32),
        ((x0 + v.width / parts) as u32, (y0 + v.height / parts) as u32),
    )
}

/// Layer `i` cropped to `1 / (divisions - i)` of its size around its centre.
pub open spec fn centred_crops(layers: Seq<RasterView>, divisions: nat) -> Seq<RasterView> {
    Seq::new(layers.len(), |i: int| centred_crop(layers[i], (divisions - i) as nat))
}

proof fn lemma_centred_span(len: nat, parts: nat)
    requires
        parts >= 1,
    ensures
        len / parts <= len,
        (len / parts) / 2 <= len / 2,
        centred_start(len, parts) + len / parts <= len,
{
    let s = len / parts;
    assert(s <= len) by (nonlinear_arith)
        requires
            parts >= 1,
            s == len / parts,
    ;
}

/// Cuts out the centred crop of `img` that is `1 / parts` of its width and
/// height (rounding down).
pub fn crop_centre(img: &Image, parts: u32) -> (r: Image)
    requires
        img.wf(),
        parts >= 1,
    ensures
        r.wf(),
        r@ == centred_crop(img@, parts as nat),
        r@.width == img@.width / (parts as nat),
        r@.height == img@.height / (parts as nat),
{
    let (w, h) = img.dimensions();
    proof {
        lemma_centred_span(w as nat, parts as nat);
        lemma_centred_span(h as nat, parts as nat);
    }
    let xs: u32 = w / parts;
    let ys: u32 = h / parts;
    let x0: u32 = w / 2 - xs / 2;
    let y0: u32 = h / 2 - ys / 2;
    let p1 = (x0, y0);
    let p2 = (x0 + xs, y0 + ys);
    assert(slice_fits(img@, p1, p2));
    proof {
        lemma_sliced_wf(img@, p1, p2);
    }
    match slice_image(img, p1, p2) {
        Ok(out) => out,
        Err(_) => {
            proof {
                assert(false);
            }
            Image::new(0, 0)
        },
    }
}

/// Every layer cut to its centred crop: layer `i` keeps `1 / (divisions - i)`
/// of its width and height.
pub fn slice_layers(layers: &Vec<Image>, divisions: u32) -> (r: Vec<Image>)
    requires
        layers@.len() <= divisions,
        forall|i: int| 0 <= i < layers@.len() ==> #[trigger] layers@[i].wf(),
    ensures
        views(r@) == centred_crops(views(layers@), divisions as nat),
        r@.len() == layers@.len(),
        forall|i: int|
            0 <= i < r@.len() ==> {
                &&& #[trigger] r@[i].wf()
                &&& r@[i]@.width == layers@[i]@.width / ((divisions - i) as nat)
                &&& r@[i]@.height == layers@[i]@.height / ((divisions - i) as nat)
                &&& r@[i]@.width <= layers@[i]@.width
            },
{
    let mut out: Vec<Image> = Vec::new();
    let mut k: usize = 0;
    while k < layers.len()
        invariant
            k <= layers@.len() <= divisions,
            forall|i: int| 0 <= i < layers@.len() ==> #[trigger] layers@[i].wf(),
            out@.len() == k,
            forall|i: int|
                0 <= i < k ==> {
                    &&& #[trigger] out@[i].wf()
                    &&& out@[i]@ == centred_crop(layers@[i]@, (divisions - i) as nat)
                    &&& out@[i]@.width == layers@[i]@.width / ((divisions - i) as nat)
                    &&& out@[i]@.height == layers@[i]@.height / ((divisions - i) as nat)
                    &&& out@[i]@.width <= layers@[i]@.width
                },
        decreases layers@.len() - k,
    {
        let layer = &layers[k];
        assert(layers@[k as int].wf());
        let crop = crop_centre(layer, divisions - (k as u32));
        proof {
            lemma_centred_span(layer@.width, (divisions - k) as nat);
        }
        out.push(crop);
        k = k + 1;
    }
    assert forall|i: int| 0 <= i < out@.len() implies views(out@)[i] == centred_crops(
        views(layers@),
        divisions as nat,
    )[i] by {
        assert(out@[i].wf());
        assert(views(out@)[i] == out@[i]@);
        assert(views(layers@)[i] == layers@[i]@);
    }
    assert(views(out@) =~= centred_crops(views(layers@), divisions as nat));
    out
}

/// Settings of the pipeline: how many layers it makes, and by how much each
/// layer shrinks the one before.
pub struct ConfigView {
    pub divisions: nat,
    pub factor: nat,
}

/// Pipeline settings that have been checked: at least two layers and a
/// downscale factor of at least two.
pub struct Config {
    divisions: u32,
    factor: u32,
}

impl View for Config {
    type V = ConfigView;

    closed spec fn view(&self) -> ConfigView {
        ConfigView { divisions: self.divisions as nat, factor: self.factor as nat }
    }
}

impl Config {
    #[verifier::type_invariant]
    spec fn valid(&self) -> bool {
        self.divisions >= 2 && self.factor >= 2
    }

    /// Accepts `divisions` layers shrunk by `factor`; fewer than two layers,
    /// or a factor below two, is refused.
    pub fn new(divisions: u32, factor: u32) -> (r: Result<Config, ConfigError>)
        ensures
            r is Ok <==> divisions >= 2 && factor >= 2,
            r matches Ok(c) ==> c@ == (ConfigView {
                divisions: divisions as nat,
                factor: factor as nat,
            }),
            r matches Err(e) ==> e == (if divisions < 2 {
                ConfigError::TooFewDivisions
            } else {
                ConfigError::FactorTooSmall
            }),
    {
        if divisions < 2 {
            Err(ConfigError::TooFewDivisions)
        } else if factor < 2 {
            Err(ConfigError::FactorTooSmall)
        } else {
            Ok(Config { divisions, factor })
        }
    }

    pub fn divisions(&self) -> (r: u32)
        ensures
            r == self@.divisions,
            r >= 2,
    {
        proof {
            use_type_invariant(self);
        }
        self.divisions
    }

    pub fn factor(&self) -> (r: u32)
        ensures
            r == self@.factor,
            r >= 2,
    {
        proof {
            use_type_invariant(self);
        }
        self.factor
    }
}

/// What one run of the pipeline makes: the crop of every layer, in layer
/// order, and their composite.
pub struct PipelineOutput {
    pub slices: Vec<Image>,
    pub reconstruction: Image,
}

/// The crops that a run makes of its layers.
pub open spec fn pipeline_slices(layers: Seq<RasterView>, divisions: nat) -> Seq<RasterView> {
    centred_crops(layers, divisions)
}

/// The composite that a run makes of its layers on a `width` by `height`
/// canvas.
pub open spec fn pipeline_composite(
    layers: Seq<RasterView>,
    divisions: nat,
    width: nat,
    height: nat,
) -> RasterView {
    reconstructed(pipeline_slices(layers, divisions), width, height, divisions)
}

proof fn lemma_scale_le(a: nat, b: nat, c: nat)
    requires
        a <= b,
    ensures
        4 * a * c <= 4 * b * c,
{
    assert(4 * a * c <= 4 * b * c) by (nonlinear_arith)
        requires
            a <= b,
    ;
}

/// What the pipeline does once the layers are made: crops every layer
/// around its centre and composes the crops on a canvas of size `canvas`.
pub fn compose_layers(layers: &Vec<Image>, divisions: u32, canvas: (u32, u32)) -> (out: PipelineOutput)
    requires
        layers@.len() <= divisions,
        3 * canvas.0 * canvas.1 <= usize::MAX,
        forall|i: int|
            0 <= i < layers@.len() ==> #[trigger] layers@[i].wf() && 4 * layers@[i]@.width
                * canvas.1 <= usize::MAX,
    ensures
        views(out.slices@) == pipeline_slices(views(layers@), divisions as nat),
        out.reconstruction@ == pipeline_composite(
            views(layers@),
            divisions as nat,
            canvas.0 as nat,
            canvas.1 as nat,
        ),
        out.reconstruction@ == reconstructed(
            views(out.slices@),
            canvas.0 as nat,
            canvas.1 as nat,
            divisions as nat,
        ),
        out.reconstruction.wf(),
        out.reconstruction@.width == canvas.0,
        out.reconstruction@.height == canvas.1,
        out.slices@.len() == layers@.len(),
        forall|i: int|
            0 <= i < out.slices@.len() ==> {
                &&& #[trigger] out.slices@[i].wf()
                &&& out.slices@[i]@.width == layers@[i]@.width / ((divisions - i) as nat)
                &&& out.slices@[i]@.height == layers@[i]@.height / ((divisions - i) as nat)
            },
{
    let slices = slice_layers(layers, divisions);
    assert forall|i: int| 0 <= i < slices@.len() implies #[trigger] slices@[i].wf() && 4
        * slices@[i]@.width * canvas.1 <= usize::MAX by {
        assert(slices@[i].wf());
        assert(layers@[i].wf());
        lemma_scale_le(slices@[i]@.width, layers@[i]@.width, canvas.1 as nat);
    }
    let reconstruction = reconstruct_image(&slices, canvas, divisions);
    PipelineOutput { slices, reconstruction }
}

/// Runs the whole transformation: the layers of `input`, their centred
/// crops, and the composite of the crops on a canvas of size `canvas`.
/// Fails when a shrinking step would leave no pixel on an axis. The first
/// crop is cut from `input` itself; the later ones come from Lanczos
/// resamples, of which only the size is known.
pub fn run_pipeline(input: Image, config: &Config, canvas: (u32, u32)) -> (r: Result<
    PipelineOutput,
    ResizeError,
>)
    requires
        input.wf(),
        3 * canvas.0 * canvas.1 <= usize::MAX,
        4 * input@.width * canvas.1 <= usize::MAX,
    ensures
        r is Ok <==> chain_fits(input@.width, input@.height, config@.factor, config@.divisions),
        r matches Ok(out) ==> {
            &&& out.slices@.len() == config@.divisions
            &&& out.slices@[0]@ == centred_crop(input@, config@.divisions)
            &&& forall|i: int|
                0 <= i < out.slices@.len() ==> {
                    &&& #[trigger] out.slices@[i].wf()
                    &&& out.slices@[i]@.width == layer_size(
                        input@.width,
                        input@.height,
                        config@.factor,
                        i as nat,
                    ).0 / ((config@.divisions - i) as nat)
                    &&& out.slices@[i]@.height == layer_size(
                        input@.width,
                        input@.height,
                        config@.factor,
                        i as nat,
                    ).1 / ((config@.divisions - i) as nat)
                }
            &&& out.reconstruction@ == reconstructed(
                views(out.slices@),
                canvas.0 as nat,
                canvas.1 as nat,
                config@.divisions,
            )
            &&& out.reconstruction@.width == canvas.0
            &&& out.reconstruction@.height == canvas.1
            &&& out.reconstruction.wf()
        },
        r matches Err(e) ==> e == ResizeError::FactorTooLarge,
{
    let ghost v = input@;
    let divisions = config.divisions();
    let factor = config.factor();
    let layers = match build_layers(input, divisions, factor) {
        Ok(ls) => ls,
        Err(e) => {
            return Err(e);
        },
    };
    assert forall|i: int| 0 <= i < layers@.len() implies #[trigger] layers@[i].wf() && 4
        * layers@[i]@.width * canvas.1 <= usize::MAX by {
        assert(layers@[i].wf());
        lemma_layer_width(v.width, v.height, factor as nat, i as nat);
        lemma_scale_le(layers@[i]@.width, v.width, canvas.1 as nat);
    }
    let out = compose_layers(&layers, divisions, canvas);
    proof {
        assert(views(out.slices@)[0] == out.slices@[0]@);
        assert(views(layers@)[0] == layers@[0]@);
        assert forall|i: int| 0 <= i < out.slices@.len() implies {
            &&& #[trigger] out.slices@[i].wf()
            &&& out.slices@[i]@.width == layer_size(v.width, v.height, factor as nat, i as nat).0
                / ((divisions - i) as nat)
            &&& out.slices@[i]@.height == layer_size(v.width, v.height, factor as nat, i as nat).1
                / ((divisions - i) as nat)
        } by {
            assert(out.slices@[i].wf());
            assert(layers@[i].wf());
        }
    }
    Ok(out)
}

/// Cropping and composing equal layers with the same settings gives equal
/// crops and an equal composite: once the layers are made, the outcome
/// depends on them and the settings alone. (The sizes of the layers depend
/// on the first picture's size and the factor alone, by `layer_size`.)
pub proof fn lemma_pipeline_repeatable(
    a: Seq<RasterView>,
    b: Seq<RasterView>,
    divisions: nat,
    width: nat,
    height: nat,
)
    requires
        a == b,
    ensures
        pipeline_slices(a, divisions) == pipeline_slices(b, divisions),
        pipeline_composite(a, divisions, width, height) == pipeline_composite(
            b,
            divisions,
            width,
            height,
        ),
        reconstructed(a, width, height, divisions) == reconstructed(b, width, height, divisions),
{
}

} // verus!
