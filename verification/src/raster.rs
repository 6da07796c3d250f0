//! Pixel grids held in buffers of the `image` crate.

use vstd::prelude::*;
use crate::Diffable;
use crate::algo::{DiffAlgo, DiffPatch};
use crate::img::{ColorModel, ColorSub, Grid, Heatmap, PixelPatch, RedGreen};
use crate::img::{color_sub_levels, heat_levels, higher, patches, pixelwise, raw_index, red_green_levels};
use crate::img::zero_levels;
use crate::subpixel::Subpixel;

verus! {

/// An image buffer of the `image` crate whose pixels hold red, green, blue
/// and opacity, eight bits each.
#[verifier::external_body]
#[derive(Debug, PartialEq, Eq)]
pub struct Raster {
    buffer: image::ImageBuffer<image::Rgba<u8>, Vec<u8>>,
}

/// The width and the height of an image buffer.
pub uninterp spec fn extent(img: Raster) -> (u32, u32);

/// The samples of the pixels of an image buffer, row by row from the top
/// and pixel by pixel.
pub uninterp spec fn samples(img: Raster) -> Seq<u8>;

/// Calls `ImageBuffer::width`, which returns the width that the buffer was
/// made with.
#[verifier::external_body]
fn buffer_width(img: &Raster) -> (w: u32)
    ensures
        w == extent(*img).0,
{
    img.buffer.width()
}

/// Calls `ImageBuffer::height`, which returns the height that the buffer
/// was made with.
#[verifier::external_body]
fn buffer_height(img: &Raster) -> (h: u32)
    ensures
        h == extent(*img).1,
{
    img.buffer.height()
}

/// Calls `ImageBuffer::pixels` and collects the channels of the pixels it
/// yields.
///
/// Trusted: `pixels` walks the buffer row by row and yields each of its
/// `width * height` pixels once, four samples to the pixel.
#[verifier::external_body]
fn buffer_samples(img: &Raster) -> (data: Vec<u8>)
    ensures
        data@ == samples(*img),
        data@.len() == 4 * extent(*img).0 * extent(*img).1,
{
    img.buffer.pixels().flat_map(|p| p.0).collect()
}

/// Calls `ImageBuffer::from_raw`.
///
/// Trusted: `from_raw` makes a buffer of the given width and height over
/// `data` if `data` holds at least the `4 * width * height` samples of its
/// pixels, and `None` otherwise; the pixels of the buffer are the first
/// samples of `data`, in order.
#[verifier::external_body]
fn buffer_from_raw(width: u32, height: u32, data: Vec<u8>) -> (out: Option<Raster>)
    ensures
        out is Some <==> 4 * width * height <= data@.len(),
        out matches Some(img) ==> extent(img) == (width, height) && samples(img) == data@.take(
            4 * width * height,
        ),
{
    image::ImageBuffer::from_raw(width, height, data).map(|buffer| Raster { buffer })
}

/// The levels of the pixel of an image buffer at `(x, y)`; those of a pixel
/// with every channel at zero where the buffer has none there.
pub open spec fn levels_in(img: Raster, x: int, y: int) -> Seq<int> {
    if 0 <= x < extent(img).0 && 0 <= y < extent(img).1 {
        Seq::new(4, |c: int| samples(img)[raw_index(4, extent(img).0 as int, x, y, c)] as int)
    } else {
        zero_levels(ColorModel::Rgba)
    }
}

/// Whether the grid `g` holds the pixels of the image buffer `img`.
pub open spec fn shows(g: &Grid<u8>, img: Raster) -> bool {
    &&& g.wf()
    &&& g.model == ColorModel::Rgba
    &&& g.width == extent(img).0
    &&& g.height == extent(img).1
    &&& g.laid_out_as(samples(img))
}

/// A grid that holds the pixels of an image buffer has the levels of the
/// buffer at every place.
pub proof fn lemma_same_levels(g: &Grid<u8>, img: Raster)
    requires
        shows(g, img),
    ensures
        forall|x: int, y: int| #[trigger] g.levels_at(x, y) == levels_in(img, x, y),
{
    assert forall|x: int, y: int| #[trigger] g.levels_at(x, y) == levels_in(img, x, y) by {
        if g.holds(x, y) {
            let p = g.rows@[y]@[x];
            assert(p.wf());
            assert forall|c: int| 0 <= c < 4 implies p.levels()[c] == levels_in(img, x, y)[c] by {
                assert(p.channels@[c] == samples(img)[raw_index(4, g.width as int, x, y, c)]);
            }
            assert(p.levels() =~= levels_in(img, x, y));
        }
    }
}

impl Raster {
    /// The image buffer of `width` by `height` pixels over the samples
    /// `data`, four to the pixel, row by row from the top; `None` if `data`
    /// holds fewer samples than such a buffer has. Samples beyond those of
    /// the pixels are kept but belong to no pixel.
    pub fn from_raw(width: u32, height: u32, data: Vec<u8>) -> (out: Option<Raster>)
        ensures
            out is Some <==> 4 * width * height <= data@.len(),
            out matches Some(img) ==> extent(img) == (width, height) && samples(img) == data@.take(
                4 * width * height,
            ),
    {
        buffer_from_raw(width, height, data)
    }

    /// The number of pixels in a row.
    pub fn width(&self) -> (w: u32)
        ensures
            w == extent(*self).0,
    {
        buffer_width(self)
    }

    /// The number of rows.
    pub fn height(&self) -> (h: u32)
        ensures
            h == extent(*self).1,
    {
        buffer_height(self)
    }

    /// The samples of the pixels, row by row from the top.
    pub fn to_raw(&self) -> (data: Vec<u8>)
        ensures
            data@ == samples(*self),
            data@.len() == 4 * extent(*self).0 * extent(*self).1,
    {
        buffer_samples(self)
    }

    /// The grid that holds the pixels of this buffer.
    pub fn to_grid(&self) -> (g: Grid<u8>)
        ensures
            shows(&g, *self),
    {
        let width = buffer_width(self);
        let height = buffer_height(self);
        let data = buffer_samples(self);
        proof {
            assert(4 * width * height == width * height * 4) by (nonlinear_arith);
        }
        let found = Grid::from_raw(ColorModel::Rgba, width, height, data.as_slice());
        found.unwrap()
    }

    /// The buffer that holds the pixels of the grid `g`.
    pub fn from_grid(g: &Grid<u8>) -> (img: Raster)
        requires
            g.wf(),
            g.model == ColorModel::Rgba,
        ensures
            shows(g, img),
    {
        let data = g.to_raw();
        proof {
            assert(4 * g.width * g.height == g.width * g.height * 4) by (nonlinear_arith);
            assert(data@.take(4 * g.width * g.height) =~= data@);
        }
        let made = buffer_from_raw(g.width(), g.height(), data);
        made.unwrap()
    }
}

/// Whether `out` is as wide and as high as the larger of `l` and `r` and
/// has, at every place, the levels that `rule` gives for the levels of `l`
/// and `r` there, a pixel with every channel at zero standing in where a
/// buffer has none.
pub open spec fn raster_pixelwise(
    l: Raster,
    r: Raster,
    out: Raster,
    rule: spec_fn(ColorModel, Seq<int>, Seq<int>, int) -> Seq<int>,
) -> bool {
    &&& extent(out).0 == higher(extent(l).0 as int, extent(r).0 as int)
    &&& extent(out).1 == higher(extent(l).1 as int, extent(r).1 as int)
    &&& forall|x: int, y: int|
        0 <= x < extent(out).0 && 0 <= y < extent(out).1 ==> #[trigger] levels_in(out, x, y) == rule(
            ColorModel::Rgba,
            levels_in(l, x, y),
            levels_in(r, x, y),
            u8::MAX as int,
        )
}

/// What holds place by place of grids that hold the pixels of image
/// buffers holds of the buffers.
proof fn lemma_pixelwise_on_buffers(
    gl: &Grid<u8>,
    gr: &Grid<u8>,
    go: &Grid<u8>,
    l: Raster,
    r: Raster,
    out: Raster,
    rule: spec_fn(ColorModel, Seq<int>, Seq<int>, int) -> Seq<int>,
)
    requires
        shows(gl, l),
        shows(gr, r),
        shows(go, out),
        pixelwise(gl, gr, go, rule),
    ensures
        raster_pixelwise(l, r, out, rule),
{
    lemma_same_levels(gl, l);
    lemma_same_levels(gr, r);
    lemma_same_levels(go, out);
    assert forall|x: int, y: int| 0 <= x < extent(out).0 && 0 <= y < extent(out).1 implies #[trigger] levels_in(
        out,
        x,
        y,
    ) == rule(ColorModel::Rgba, levels_in(l, x, y), levels_in(r, x, y), u8::MAX as int) by {
        assert(go.holds(x, y));
        assert(go.levels_at(x, y) == levels_in(out, x, y));
        assert(gl.levels_at(x, y) == levels_in(l, x, y));
        assert(gr.levels_at(x, y) == levels_in(r, x, y));
    }
}

impl<'a> DiffAlgo<'a, Raster> for ColorSub {
    type Diff = Raster;

    open spec fn accepts(l: &Raster, r: &Raster) -> bool {
        true
    }

    open spec fn describes(l: &Raster, r: &Raster, out: Raster) -> bool {
        raster_pixelwise(
            *l,
            *r,
            out,
            |m: ColorModel, a: Seq<int>, b: Seq<int>, top: int| color_sub_levels(m, a, b, top),
        )
    }

    fn diff(l: &'a Raster, r: &'a Raster) -> (out: Raster) {
        let gl = l.to_grid();
        let gr = r.to_grid();
        let go = <ColorSub as DiffAlgo<Grid<u8>>>::diff(&gl, &gr);
        let out = Raster::from_grid(&go);
        proof {
            lemma_pixelwise_on_buffers(
                &gl,
                &gr,
                &go,
                *l,
                *r,
                out,
                |m: ColorModel, a: Seq<int>, b: Seq<int>, top: int| color_sub_levels(m, a, b, top),
            );
        }
        out
    }
}

impl<'a> DiffAlgo<'a, Raster> for Heatmap {
    type Diff = Raster;

    open spec fn accepts(l: &Raster, r: &Raster) -> bool {
        true
    }

    open spec fn describes(l: &Raster, r: &Raster, out: Raster) -> bool {
        raster_pixelwise(
            *l,
            *r,
            out,
            |m: ColorModel, a: Seq<int>, b: Seq<int>, top: int| heat_levels(m, a, b, top),
        )
    }

    fn diff(l: &'a Raster, r: &'a Raster) -> (out: Raster) {
        let gl = l.to_grid();
        let gr = r.to_grid();
        let go = <Heatmap as DiffAlgo<Grid<u8>>>::diff(&gl, &gr);
        let out = Raster::from_grid(&go);
        proof {
            lemma_pixelwise_on_buffers(
                &gl,
                &gr,
                &go,
                *l,
                *r,
                out,
                |m: ColorModel, a: Seq<int>, b: Seq<int>, top: int| heat_levels(m, a, b, top),
            );
        }
        out
    }
}

impl<'a> DiffAlgo<'a, Raster> for RedGreen {
    type Diff = Raster;

    open spec fn accepts(l: &Raster, r: &Raster) -> bool {
        true
    }

    open spec fn describes(l: &Raster, r: &Raster, out: Raster) -> bool {
        raster_pixelwise(
            *l,
            *r,
            out,
            |m: ColorModel, a: Seq<int>, b: Seq<int>, top: int| red_green_levels(m, a, b, top),
        )
    }

    fn diff(l: &'a Raster, r: &'a Raster) -> (out: Raster) {
        let gl = l.to_grid();
        let gr = r.to_grid();
        let go = <RedGreen as DiffAlgo<Grid<u8>>>::diff(&gl, &gr);
        let out = Raster::from_grid(&go);
        proof {
            lemma_pixelwise_on_buffers(
                &gl,
                &gr,
                &go,
                *l,
                *r,
                out,
                |m: ColorModel, a: Seq<int>, b: Seq<int>, top: int| red_green_levels(m, a, b, top),
            );
        }
        out
    }
}

impl<'a> DiffAlgo<'a, Raster> for crate::algo::Default {
    type Diff = Raster;

    open spec fn accepts(l: &Raster, r: &Raster) -> bool {
        <RedGreen as DiffAlgo<'a, Raster>>::accepts(l, r)
    }

    open spec fn describes(l: &Raster, r: &Raster, out: Raster) -> bool {
        <RedGreen as DiffAlgo<'a, Raster>>::describes(l, r, out)
    }

    fn diff(l: &'a Raster, r: &'a Raster) -> (out: Raster) {
        <RedGreen as DiffAlgo<'a, Raster>>::diff(l, r)
    }
}

/// Whether `rows` is a patch from `l` to `r`: as wide and as high as the
/// larger of the two, row by row from the top, with one amount for each of
/// the four channels of each pixel, such that the level on the left and the
/// amount add up to the level on the right. A pixel with every channel at
/// zero stands in where a buffer has none.
pub open spec fn raster_patches(l: Raster, r: Raster, rows: Seq<Vec<Vec<i16>>>) -> bool {
    &&& rows.len() == higher(extent(l).1 as int, extent(r).1 as int)
    &&& forall|y: int|
        0 <= y < rows.len() ==> (#[trigger] rows[y])@.len() == higher(extent(l).0 as int, extent(r).0 as int)
    &&& forall|x: int, y: int|
        0 <= y < rows.len() && 0 <= x < higher(extent(l).0 as int, extent(r).0 as int) ==> (
        #[trigger] rows[y]@[x])@.len() == 4
    &&& forall|x: int, y: int, c: int|
        0 <= y < rows.len() && 0 <= x < higher(extent(l).0 as int, extent(r).0 as int) && 0 <= c < 4
            ==> levels_in(l, x, y)[c] + (#[trigger] rows[y]@[x]@[c]) == levels_in(r, x, y)[c]
}

impl<'a> DiffAlgo<'a, Raster> for PixelPatch {
    type Diff = Vec<Vec<Vec<i16>>>;

    open spec fn accepts(l: &Raster, r: &Raster) -> bool {
        true
    }

    open spec fn describes(l: &Raster, r: &Raster, out: Self::Diff) -> bool {
        raster_patches(*l, *r, out@)
    }

    fn diff(l: &'a Raster, r: &'a Raster) -> (out: Self::Diff) {
        let gl = l.to_grid();
        let gr = r.to_grid();
        let out = <PixelPatch as DiffAlgo<Grid<u8>>>::diff(&gl, &gr);
        proof {
            lemma_same_levels(&gl, *l);
            lemma_same_levels(&gr, *r);
            assert(patches(&gl, &gr, out@));
            assert forall|x: int, y: int, c: int|
                0 <= y < out@.len() && 0 <= x < higher(extent(*l).0 as int, extent(*r).0 as int) && 0 <= c < 4
                    implies levels_in(*l, x, y)[c] + (#[trigger] out@[y]@[x]@[c]) == levels_in(*r, x, y)[c] by {
                assert(gl.levels_at(x, y) == levels_in(*l, x, y));
                assert(gr.levels_at(x, y) == levels_in(*r, x, y));
            }
        }
        out
    }
}

impl<'a> DiffPatch<'a, Raster> for PixelPatch {
}

impl Diffable for Raster {
    type Item = Raster;

    open spec fn item(&self) -> &Raster {
        self
    }

    fn diff<'a, A: DiffAlgo<'a, Raster>>(&'a self, other: &'a Self) -> (out: A::Diff) {
        A::diff(self, other)
    }
}

} // verus!
