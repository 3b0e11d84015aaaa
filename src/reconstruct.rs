use vstd::prelude::*;
use crate::raster::{
    blank, overlaid, overlay, resample, nearest_view, Filter, Image, RasterView,
};

verus! {

/// Side of the square-ish frame that layer `index` fills on an axis of
/// length `canvas`: the canvas split into `divisions - index` parts.
pub open spec fn display_size(canvas: nat, divisions: nat, index: nat) -> nat {
    canvas / ((divisions - index) as nat)
}

/// Offset that centres a span of `inner` inside a span of `outer`.
pub open spec fn centre_offset(outer: nat, inner: nat) -> nat {
    (outer / 2 - inner / 2) as nat
}

/// `canvas` with layer `index` drawn on it: the layer is resampled with the
/// nearest-pixel kernel to its display size and pasted at the centre. A
/// layer without pixels draws nothing.
pub open spec fn draw_layer(canvas: RasterView, layer: RasterView, index: nat, divisions: nat) -> RasterView {
    if layer.width == 0 || layer.height == 0 {
        canvas
    } else {
        let w = display_size(canvas.width, divisions, index);
        let h = display_size(canvas.height, divisions, index);
        overlaid(
            canvas,
            nearest_view(layer, w, h),
            centre_offset(canvas.width, w),
            centre_offset(canvas.height, h),
        )
    }
}

/// A black `width` by `height` canvas with the layers from `from` onwards
/// drawn on it, the last one first.
pub open spec fn composite(
    layers: Seq<RasterView>,
    from: nat,
    width: nat,
    height: nat,
    divisions: nat,
) -> RasterView
    decreases layers.len() - from,
{
    if from >= layers.len() {
        blank(width, height)
    } else {
        draw_layer(
            composite(layers, from + 1, width, height, divisions),
            layers[from as int],
            from,
            divisions,
        )
    }
}

/// The reconstruction of `layers` on a `width` by `height` canvas.
pub open spec fn reconstructed(layers: Seq<RasterView>, width: nat, height: nat, divisions: nat) -> RasterView {
    composite(layers, 0, width, height, divisions)
}

/// The views of a sequence of pictures.
pub open spec fn views(images: Seq<Image>) -> Seq<RasterView> {
    images.map_values(|img: Image| img@)
}

proof fn lemma_composite_size(
    layers: Seq<RasterView>,
    from: nat,
    width: nat,
    height: nat,
    divisions: nat,
)
    ensures
        composite(layers, from, width, height, divisions).width == width,
        composite(layers, from, width, height, divisions).height == height,
    decreases layers.len() - from,
{
    if from < layers.len() {
        lemma_composite_size(layers, from + 1, width, height, divisions);
    }
}

/// The reconstruction has the canvas's size, whatever the layers are and
/// however many there are.
pub proof fn lemma_reconstruction_size(
    layers: Seq<RasterView>,
    width: nat,
    height: nat,
    divisions: nat,
)
    ensures
        reconstructed(layers, width, height, divisions).width == width,
        reconstructed(layers, width, height, divisions).height == height,
{
    lemma_composite_size(layers, 0, width, height, divisions);
}

/// Draws `layers` on a black canvas of size `dimensions`, from the last to
/// the first, each resampled to the canvas divided by `divisions - i` (for
/// layer `i`) and centred, so that earlier layers lie on top.
pub fn reconstruct_image(layers: &Vec<Image>, dimensions: (u32, u32), divisions: u32) -> (r: Image)
    requires
        layers.len() <= divisions,
        3 * dimensions.0 * dimensions.1 <= usize::MAX,
        forall|i: int|
            0 <= i < layers.len() ==> #[trigger] layers[i].wf() && 4 * layers[i]@.width
                * dimensions.1 <= usize::MAX,
    ensures
        r.wf(),
        r@ == reconstructed(views(layers@), dimensions.0 as nat, dimensions.1 as nat, divisions as nat),
        r@.width == dimensions.0,
        r@.height == dimensions.1,
{
    let ghost ls = views(layers@);
    let (cw, ch) = dimensions;
    let mut out = Image::new(cw, ch);
    let mut k: usize = layers.len();
    while k > 0
        invariant
            k <= layers.len() <= divisions,
            ls == views(layers@),
            dimensions == (cw, ch),
            3 * cw * ch <= usize::MAX,
            forall|i: int|
                0 <= i < layers.len() ==> #[trigger] layers[i].wf() && 4 * layers[i]@.width * ch
                    <= usize::MAX,
            out.wf(),
            out@ == composite(ls, k as nat, cw as nat, ch as nat, divisions as nat),
        decreases k,
    {
        k = k - 1;
        let layer = &layers[k];
        assert(ls[k as int] == layer@);
        assert(layers[k as int].wf());
        let ghost below = out@;
        proof {
            lemma_composite_size(ls, (k + 1) as nat, cw as nat, ch as nat, divisions as nat);
        }
        if layer.width() > 0 && layer.height() > 0 {
            let parts: u32 = divisions - (k as u32);
            let w: u32 = cw / parts;
            let h: u32 = ch / parts;
            assert(3 * w * h <= 3 * cw * ch) by (nonlinear_arith)
                requires
                    w <= cw,
                    h <= ch,
            ;
            assert(4 * layer@.width * h <= 4 * layer@.width * ch) by (nonlinear_arith)
                requires
                    h <= ch,
            ;
            let shown = resample(layer, w, h, Filter::Nearest);
            assert(w == display_size(cw as nat, divisions as nat, k as nat));
            assert(h == display_size(ch as nat, divisions as nat, k as nat));
            overlay(&mut out, &shown, cw / 2 - w / 2, ch / 2 - h / 2);
        }
        assert(out@ == draw_layer(below, layer@, k as nat, divisions as nat));
    }
    proof {
        lemma_reconstruction_size(ls, cw as nat, ch as nat, divisions as nat);
    }
    out
}

} // verus!
