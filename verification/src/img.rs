//! Differences of pixel grids.

use vstd::prelude::*;
use crate::Diffable;
use crate::algo::{DiffAlgo, DiffPatch};
use crate::subpixel::{DiffPixel, Subpixel, gap};

verus! {

/// What the channels of a pixel mean: grey or red, green and blue, with or
/// without a last channel for opacity.
#[derive(Clone, Copy, Debug, PartialEq, Eq, Structural)]
pub enum ColorModel {
    Luma,
    LumaA,
    Rgb,
    Rgba,
}

/// The model that goes by `name`: `Y` for grey, `RGB` for red, green and
/// blue, and either followed by `A` where there is an opacity.
pub open spec fn model_named(name: Seq<char>) -> Option<ColorModel> {
    if name == seq!['Y'] {
        Some(ColorModel::Luma)
    } else if name == seq!['Y', 'A'] {
        Some(ColorModel::LumaA)
    } else if name == seq!['R', 'G', 'B'] {
        Some(ColorModel::Rgb)
    } else if name == seq!['R', 'G', 'B', 'A'] {
        Some(ColorModel::Rgba)
    } else {
        None
    }
}

impl ColorModel {
    /// The model that goes by `name`, if it is one of `Y`, `YA`, `RGB` and
    /// `RGBA`.
    pub fn named(name: &str) -> (out: Option<ColorModel>)
        ensures
            out == model_named(name@),
    {
        let n = name.unicode_len();
        if n == 1 {
            if name.get_char(0) == 'Y' {
                proof {
                    assert(name@ =~= seq!['Y']);
                }
                Some(ColorModel::Luma)
            } else {
                None
            }
        } else if n == 2 {
            if name.get_char(0) == 'Y' && name.get_char(1) == 'A' {
                proof {
                    assert(name@ =~= seq!['Y', 'A']);
                }
                Some(ColorModel::LumaA)
            } else {
                None
            }
        } else if n == 3 {
            if name.get_char(0) == 'R' && name.get_char(1) == 'G' && name.get_char(2) == 'B' {
                proof {
                    assert(name@ =~= seq!['R', 'G', 'B']);
                }
                Some(ColorModel::Rgb)
            } else {
                None
            }
        } else if n == 4 {
            if name.get_char(0) == 'R' && name.get_char(1) == 'G' && name.get_char(2) == 'B' && name.get_char(3)
                == 'A' {
                proof {
                    assert(name@ =~= seq!['R', 'G', 'B', 'A']);
                }
                Some(ColorModel::Rgba)
            } else {
                None
            }
        } else {
            None
        }
    }

    /// The number of channels of a pixel.
    pub open spec fn channels(self) -> nat {
        match self {
            ColorModel::Luma => 1,
            ColorModel::LumaA => 2,
            ColorModel::Rgb => 3,
            ColorModel::Rgba => 4,
        }
    }

    /// Whether the last channel of a pixel is its opacity.
    pub open spec fn has_alpha(self) -> bool {
        self == ColorModel::LumaA || self == ColorModel::Rgba
    }

    /// Whether a pixel starts with a red, a green and a blue channel.
    pub open spec fn has_rgb(self) -> bool {
        self == ColorModel::Rgb || self == ColorModel::Rgba
    }

    /// The number of channels that are not the opacity.
    pub open spec fn colors(self) -> nat {
        if self.has_alpha() {
            (self.channels() - 1) as nat
        } else {
            self.channels()
        }
    }

    /// The index of the opacity channel, or `-1` where there is none.
    pub open spec fn alpha_index(self) -> int {
        if self.has_alpha() {
            self.channels() - 1
        } else {
            -1
        }
    }

    /// The number of channels of a pixel.
    pub fn channel_count(self) -> (n: usize)
        ensures
            n == self.channels(),
    {
        match self {
            ColorModel::Luma => 1,
            ColorModel::LumaA => 2,
            ColorModel::Rgb => 3,
            ColorModel::Rgba => 4,
        }
    }

    /// The number of channels that are not the opacity.
    pub fn color_count(self) -> (n: usize)
        ensures
            n == self.colors(),
    {
        match self {
            ColorModel::Luma => 1,
            ColorModel::LumaA => 1,
            ColorModel::Rgb => 3,
            ColorModel::Rgba => 3,
        }
    }

    /// Whether the last channel of a pixel is its opacity.
    pub fn is_alpha(self) -> (b: bool)
        ensures
            b == self.has_alpha(),
    {
        match self {
            ColorModel::Luma => false,
            ColorModel::LumaA => true,
            ColorModel::Rgb => false,
            ColorModel::Rgba => true,
        }
    }

    /// Whether a pixel starts with a red, a green and a blue channel.
    pub fn is_rgb(self) -> (b: bool)
        ensures
            b == self.has_rgb(),
    {
        match self {
            ColorModel::Luma => false,
            ColorModel::LumaA => false,
            ColorModel::Rgb => true,
            ColorModel::Rgba => true,
        }
    }
}

/// The levels of a pixel under `model` whose opacity, if it has one, is
/// `alpha`, and whose other channels are `rest`, but for the one at index
/// `lit`, which is `top`.
pub open spec fn painted_levels(model: ColorModel, lit: int, top: int, rest: int, alpha: int) -> Seq<int> {
    Seq::new(
        model.channels(),
        |i: int|
            if i == model.alpha_index() {
                alpha
            } else if i == lit {
                top
            } else {
                rest
            },
    )
}

/// The levels of pure red under `model`; a grey pixel turns black.
pub open spec fn red_levels(model: ColorModel, top: int) -> Seq<int> {
    if model.has_rgb() {
        painted_levels(model, 0, top, 0, top)
    } else {
        painted_levels(model, -1, top, 0, top)
    }
}

/// The levels of pure green under `model`; a grey pixel turns white.
pub open spec fn green_levels(model: ColorModel, top: int) -> Seq<int> {
    if model.has_rgb() {
        painted_levels(model, 1, top, 0, top)
    } else {
        painted_levels(model, -1, top, top, top)
    }
}

/// The levels of pure blue under `model`; a grey pixel turns mid-grey.
pub open spec fn blue_levels(model: ColorModel, top: int) -> Seq<int> {
    if model.has_rgb() {
        painted_levels(model, 2, top, 0, top)
    } else {
        painted_levels(model, -1, top, top / 2, top)
    }
}

/// A pixel: its channels in order, the opacity last where `model` has one.
#[derive(Debug, PartialEq, Eq)]
pub struct Pixel<S> {
    pub model: ColorModel,
    pub channels: Vec<S>,
}

impl<S: Subpixel> Pixel<S> {
    /// Whether the pixel has as many channels as its model says.
    pub open spec fn wf(&self) -> bool {
        self.channels@.len() == self.model.channels()
    }

    /// The levels of the channels.
    pub open spec fn levels(&self) -> Seq<int> {
        self.channels@.map_values(|s: S| s.level())
    }

    /// A pixel of the given channels, if there are as many as `model` says.
    pub fn new(model: ColorModel, channels: Vec<S>) -> (out: Option<Self>)
        ensures
            out is Some <==> channels@.len() == model.channels(),
            out matches Some(p) ==> p.wf() && p.model == model && p.channels@ == channels@,
    {
        if channels.len() == model.channel_count() {
            Some(Pixel { model, channels })
        } else {
            None
        }
    }

    /// The pixel under `model` whose opacity, if it has one, is `alpha`, and
    /// whose other channels are `rest`, but for the one at index `lit`,
    /// which holds the greatest value.
    pub fn painted(model: ColorModel, lit: Option<usize>, rest: S, alpha: S) -> (out: Self)
        ensures
            out.wf(),
            out.model == model,
            out.levels() == painted_levels(
                model,
                if lit is Some { lit->0 as int } else { -1 },
                S::top(),
                rest.level(),
                alpha.level(),
            ),
    {
        let n = model.channel_count();
        let colors = model.color_count();
        let ghost lit_index = if lit is Some { lit->0 as int } else { -1 };
        let mut channels: Vec<S> = Vec::new();
        let mut i: usize = 0;
        while i < n
            invariant
                0 <= i <= n,
                n == model.channels(),
                colors == model.colors(),
                lit_index == (if lit is Some { lit->0 as int } else { -1 }),
                channels@.len() == i,
                forall|j: int|
                    0 <= j < i ==> (#[trigger] channels@[j]).level() == painted_levels(
                        model,
                        lit_index,
                        S::top(),
                        rest.level(),
                        alpha.level(),
                    )[j],
            decreases n - i,
        {
            let value = if i >= colors {
                alpha
            } else {
                match lit {
                    Some(at) => if at == i { S::max_value() } else { rest },
                    None => rest,
                }
            };
            channels.push(value);
            i += 1;
        }
        let out = Pixel { model, channels };
        out
    }

    /// The pixel under `model` with every channel at zero.
    pub fn zeroed(model: ColorModel) -> (out: Self)
        ensures
            out.wf(),
            out.model == model,
            out.levels() == Seq::new(model.channels(), |i: int| 0int),
    {
        let out = Self::painted(model, None, S::zero(), S::zero());
        out
    }
}

/// What the strategies ask of a pixel beyond its channels.
pub trait PixelExt: Sized {
    /// The type of the channel values.
    type Subpixel: Subpixel;

    /// The model of the pixel.
    spec fn model(&self) -> ColorModel;

    /// The channels of the pixel, in order.
    spec fn samples(&self) -> Seq<Self::Subpixel>;

    /// Whether the pixel has as many channels as its model says.
    spec fn valid(&self) -> bool;

    /// Whether the last channel is the opacity.
    fn is_alpha(&self) -> (b: bool)
        ensures
            b == self.model().has_alpha(),
    ;

    /// Whether the pixel has a red, a green and a blue channel.
    fn is_rgb(&self) -> (b: bool)
        ensures
            b == self.model().has_rgb(),
    ;

    /// The channels but for the opacity.
    fn channels_no_alpha(&self) -> (colors: &[Self::Subpixel])
        requires
            self.valid(),
        ensures
            colors@ == self.samples().take(self.model().colors() as int),
    ;

    /// The channels but for the opacity, to be written to. The model and
    /// the opacity stay as they are.
    fn channels_no_alpha_mut(&mut self) -> (colors: &mut [Self::Subpixel])
        requires
            old(self).valid(),
        ensures
            colors@ == old(self).samples().take(old(self).model().colors() as int),
            final(self).model() == old(self).model(),
            final(self).samples() == final(colors)@ + old(self).samples().skip(
                old(self).model().colors() as int,
            ),
    ;

    /// The opacity, where the pixel has one.
    fn alpha(&self) -> (alpha: Option<&Self::Subpixel>)
        requires
            self.valid(),
        ensures
            alpha is Some <==> self.model().has_alpha(),
            alpha matches Some(a) ==> *a == self.samples().last(),
    ;

    /// The opacity, where the pixel has one, to be written to. The model
    /// and the other channels stay as they are.
    fn alpha_mut(&mut self) -> (alpha: Option<&mut Self::Subpixel>)
        requires
            old(self).valid(),
        ensures
            alpha is Some <==> old(self).model().has_alpha(),
            final(self).model() == old(self).model(),
            alpha matches Some(a) ==> *a == old(self).samples().last() && final(self).samples() == old(
                self,
            ).samples().update(old(self).samples().len() - 1, *final(a)),
            alpha is None ==> final(self).samples() == old(self).samples(),
    ;

    /// The pixel whose colour channels are `f` of the colour channels of
    /// this pixel and of `other`, pair by pair, and whose opacity, if it
    /// has one, is `g` of the two opacities.
    fn map2_with_alpha<F: Fn(Self::Subpixel, Self::Subpixel) -> Self::Subpixel, G: Fn(
        Self::Subpixel,
        Self::Subpixel,
    ) -> Self::Subpixel>(&self, other: &Self, f: F, g: G) -> (out: Self)
        requires
            self.valid(),
            other.valid(),
            self.model() == other.model(),
            forall|i: int|
                0 <= i < self.model().colors() ==> #[trigger] call_requires(
                    f,
                    (self.samples()[i], other.samples()[i]),
                ),
            self.model().has_alpha() ==> call_requires(g, (self.samples().last(), other.samples().last())),
        ensures
            out.valid(),
            out.model() == self.model(),
            forall|i: int|
                0 <= i < self.model().colors() ==> call_ensures(
                    f,
                    (self.samples()[i], other.samples()[i]),
                    #[trigger] out.samples()[i],
                ),
            self.model().has_alpha() ==> call_ensures(
                g,
                (self.samples().last(), other.samples().last()),
                out.samples().last(),
            ),
    ;

    /// Pure red at full opacity; black where the pixel is grey.
    fn red(&self) -> (out: Self)
        ensures
            out.valid(),
            out.model() == self.model(),
            out.samples().map_values(|s: Self::Subpixel| s.level()) == red_levels(
                self.model(),
                Self::Subpixel::top(),
            ),
    ;

    /// Pure green at full opacity; white where the pixel is grey.
    fn green(&self) -> (out: Self)
        ensures
            out.valid(),
            out.model() == self.model(),
            out.samples().map_values(|s: Self::Subpixel| s.level()) == green_levels(
                self.model(),
                Self::Subpixel::top(),
            ),
    ;

    /// Pure blue at full opacity; mid-grey where the pixel is grey.
    fn blue(&self) -> (out: Self)
        ensures
            out.valid(),
            out.model() == self.model(),
            out.samples().map_values(|s: Self::Subpixel| s.level()) == blue_levels(
                self.model(),
                Self::Subpixel::top(),
            ),
    ;
}

impl<S: Subpixel> PixelExt for Pixel<S> {
    type Subpixel = S;

    open spec fn model(&self) -> ColorModel {
        self.model
    }

    open spec fn samples(&self) -> Seq<S> {
        self.channels@
    }

    open spec fn valid(&self) -> bool {
        self.wf()
    }

    fn is_alpha(&self) -> (b: bool) {
        self.model.is_alpha()
    }

    fn is_rgb(&self) -> (b: bool) {
        self.model.is_rgb()
    }

    fn channels_no_alpha(&self) -> (colors: &[S]) {
        let chans = self.channels.as_slice();
        if self.is_alpha() {
            &chans[0..chans.len() - 1]
        } else {
            chans
        }
    }

    fn channels_no_alpha_mut(&mut self) -> (colors: &mut [S]) {
        let split = self.model.color_count();
        let chans = self.channels.as_mut_slice();
        let (colors, _) = chans.split_at_mut(split);
        colors
    }

    fn alpha(&self) -> (alpha: Option<&S>) {
        if self.is_alpha() {
            self.channels.as_slice().last()
        } else {
            None
        }
    }

    fn alpha_mut(&mut self) -> (alpha: Option<&mut S>) {
        if self.is_alpha() {
            self.channels.as_mut_slice().last_mut()
        } else {
            None
        }
    }

    fn map2_with_alpha<F: Fn(S, S) -> S, G: Fn(S, S) -> S>(&self, other: &Self, f: F, g: G) -> (out: Self) {
        let colors = self.model.color_count();
        let mut channels: Vec<S> = Vec::new();
        let mut idx: usize = 0;
        proof {
            assert(self.samples() == self.channels@ && other.samples() == other.channels@);
        }
        while idx < colors
            invariant
                0 <= idx <= colors,
                colors == self.model.colors(),
                self.wf(),
                other.wf(),
                self.model == other.model,
                channels@.len() == idx,
                forall|i: int|
                    0 <= i < colors ==> #[trigger] call_requires(f, (self.channels@[i], other.channels@[i])),
                forall|i: int|
                    0 <= i < idx ==> call_ensures(
                        f,
                        (self.channels@[i], other.channels@[i]),
                        #[trigger] channels@[i],
                    ),
            decreases colors - idx,
        {
            let out = f(self.channels[idx], other.channels[idx]);
            channels.push(out);
            idx += 1;
        }
        if self.is_alpha() {
            let out = g(self.channels[colors], other.channels[colors]);
            channels.push(out);
        }
        Pixel { model: self.model, channels }
    }

    fn red(&self) -> (out: Self) {
        if self.is_rgb() {
            Pixel::painted(self.model, Some(0), S::zero(), S::max_value())
        } else {
            Pixel::painted(self.model, None, S::zero(), S::max_value())
        }
    }

    fn green(&self) -> (out: Self) {
        if self.is_rgb() {
            Pixel::painted(self.model, Some(1), S::zero(), S::max_value())
        } else {
            Pixel::painted(self.model, None, S::max_value(), S::max_value())
        }
    }

    fn blue(&self) -> (out: Self) {
        if self.is_rgb() {
            Pixel::painted(self.model, Some(2), S::zero(), S::max_value())
        } else {
            Pixel::painted(self.model, None, S::half_max(), S::max_value())
        }
    }
}

/// The greater of two levels.
pub open spec fn higher(a: int, b: int) -> int {
    if a > b { a } else { b }
}

/// Whether two pixels under `model` agree on every channel but the opacity.
pub open spec fn same_colors(model: ColorModel, l: Seq<int>, r: Seq<int>) -> bool {
    l.take(model.colors() as int) =~= r.take(model.colors() as int)
}

/// The opacity of a pixel under `model`, zero where it has none.
pub open spec fn alpha_level(model: ColorModel, levels: Seq<int>) -> int {
    if model.has_alpha() {
        levels.last()
    } else {
        0
    }
}

/// Colour subtraction: every colour channel is the distance between the
/// two, held back to `top`; the opacity is the greater of the two.
pub open spec fn color_sub_levels(model: ColorModel, l: Seq<int>, r: Seq<int>, top: int) -> Seq<int> {
    Seq::new(
        model.channels(),
        |i: int|
            if i == model.alpha_index() {
                higher(l[i], r[i])
            } else {
                gap(l[i], r[i], top)
            },
    )
}

/// Heat map: the left pixel where the two agree on their colours or are
/// both fully transparent; else the first channel at `top`, the other
/// colours at zero, and the greater of the two opacities.
pub open spec fn heat_levels(model: ColorModel, l: Seq<int>, r: Seq<int>, top: int) -> Seq<int> {
    if same_colors(model, l, r) || (model.has_alpha() && l.last() == 0 && r.last() == 0) {
        l
    } else {
        painted_levels(model, 0, top, 0, higher(l.last(), r.last()))
    }
}

/// Red and green: green where the right pixel is the more opaque, red where
/// the left one is; where they are as opaque as each other, the left pixel
/// if both are fully transparent or agree on their colours, else blue.
pub open spec fn red_green_levels(model: ColorModel, l: Seq<int>, r: Seq<int>, top: int) -> Seq<int> {
    let la = alpha_level(model, l);
    let ra = alpha_level(model, r);
    if la < ra {
        green_levels(model, top)
    } else if la > ra {
        red_levels(model, top)
    } else if la == 0 || same_colors(model, l, r) {
        l
    } else {
        blue_levels(model, top)
    }
}

/// Opacity is looked at before colour: where the right pixel is the more
/// opaque the result is pure green, and where the left one is it is pure
/// red, whatever the colours are.
pub proof fn lemma_red_green_alpha_first(model: ColorModel, l: Seq<int>, r: Seq<int>, top: int)
    ensures
        alpha_level(model, l) < alpha_level(model, r) ==> red_green_levels(model, l, r, top) == green_levels(
            model,
            top,
        ),
        alpha_level(model, l) > alpha_level(model, r) ==> red_green_levels(model, l, r, top) == red_levels(
            model,
            top,
        ),
{
}

impl<S: Subpixel> Pixel<S> {
    /// A pixel with the same model and channels.
    pub fn copy(&self) -> (out: Self)
        requires
            self.wf(),
        ensures
            out.wf(),
            out.model == self.model,
            out.channels@ == self.channels@,
    {
        let mut channels: Vec<S> = Vec::new();
        let mut i: usize = 0;
        while i < self.channels.len()
            invariant
                0 <= i <= self.channels@.len(),
                channels@ == self.channels@.take(i as int),
            decreases self.channels@.len() - i,
        {
            channels.push(self.channels[i]);
            i += 1;
        }
        Pixel { model: self.model, channels }
    }

    /// Whether this pixel and `other` agree on every channel but the
    /// opacity.
    pub fn same_colors(&self, other: &Self) -> (b: bool)
        requires
            self.wf(),
            other.wf(),
            self.model == other.model,
        ensures
            b == same_colors(self.model, self.levels(), other.levels()),
    {
        let colors = self.model.color_count();
        let mut i: usize = 0;
        while i < colors
            invariant
                0 <= i <= colors,
                colors == self.model.colors(),
                self.wf(),
                other.wf(),
                self.model == other.model,
                self.levels().take(i as int) == other.levels().take(i as int),
            decreases colors - i,
        {
            let a = self.channels[i];
            let b = other.channels[i];
            if a.below(b) || b.below(a) {
                proof {
                    let n = colors as int;
                    assert(self.levels().take(n)[i as int] != other.levels().take(n)[i as int]);
                }
                return false;
            }
            i += 1;
        }
        true
    }

    /// The opacity of the pixel, zero where it has none.
    pub fn alpha_or_zero(&self) -> (a: S)
        requires
            self.wf(),
        ensures
            a.level() == alpha_level(self.model, self.levels()),
    {
        match self.alpha() {
            Some(a) => *a,
            None => S::zero(),
        }
    }
}

/// The greater of two values.
pub fn larger<S: Subpixel>(l: S, r: S) -> (m: S)
    ensures
        m.level() == higher(l.level(), r.level()),
{
    if r.below(l) {
        l
    } else {
        r
    }
}

/// One pixel of a colour subtraction.
pub fn color_sub_pixel<S: Subpixel>(pl: &Pixel<S>, pr: &Pixel<S>) -> (out: Pixel<S>)
    requires
        pl.wf(),
        pr.wf(),
        pl.model == pr.model,
    ensures
        out.wf(),
        out.model == pl.model,
        out.levels() == color_sub_levels(pl.model, pl.levels(), pr.levels(), S::top()),
{
    let f = |l: S, r: S| -> (d: S)
        ensures
            d.level() == gap(l.level(), r.level(), S::top()),
        { l.distance(r) };
    let g = |l: S, r: S| -> (m: S)
        ensures
            m.level() == higher(l.level(), r.level()),
        { larger(l, r) };
    let out = pl.map2_with_alpha(pr, f, g);
    proof {
        assert(out.samples() == out.channels@);
    }
    out
}

/// One pixel of a heat map.
pub fn heat_pixel<S: Subpixel>(pl: &Pixel<S>, pr: &Pixel<S>) -> (out: Pixel<S>)
    requires
        pl.wf(),
        pr.wf(),
        pl.model == pr.model,
    ensures
        out.wf(),
        out.model == pl.model,
        out.levels() == heat_levels(pl.model, pl.levels(), pr.levels(), S::top()),
{
    let zero = S::zero();
    let la = pl.alpha_or_zero();
    let ra = pr.alpha_or_zero();
    let clear = pl.is_alpha() && !la.below(zero) && !zero.below(la) && !ra.below(zero) && !zero.below(ra);
    if pl.same_colors(pr) || clear {
        pl.copy()
    } else {
        Pixel::painted(pl.model, Some(0), zero, larger(la, ra))
    }
}

/// One pixel of a red and green difference.
pub fn red_green_pixel<S: Subpixel>(pl: &Pixel<S>, pr: &Pixel<S>) -> (out: Pixel<S>)
    requires
        pl.wf(),
        pr.wf(),
        pl.model == pr.model,
    ensures
        out.wf(),
        out.model == pl.model,
        out.levels() == red_green_levels(pl.model, pl.levels(), pr.levels(), S::top()),
{
    let zero = S::zero();
    let la = pl.alpha_or_zero();
    let ra = pr.alpha_or_zero();
    if la.below(ra) {
        pl.green()
    } else if ra.below(la) {
        pl.red()
    } else if !la.below(zero) && !zero.below(la) {
        pl.copy()
    } else if pl.same_colors(pr) {
        pl.copy()
    } else {
        pl.blue()
    }
}

/// One pixel of a patch: for every channel, what has to be added to the
/// left value to reach the right one.
pub fn patch_pixel<S: DiffPixel>(pl: &Pixel<S>, pr: &Pixel<S>) -> (out: Vec<S::Diff>)
    requires
        pl.wf(),
        pr.wf(),
        pl.model == pr.model,
    ensures
        out@.len() == pl.model.channels(),
        forall|i: int| 0 <= i < out@.len() ==> pl.levels()[i] + S::amount(#[trigger] out@[i]) == pr.levels()[i],
{
    let mut out: Vec<S::Diff> = Vec::new();
    let mut i: usize = 0;
    while i < pl.channels.len()
        invariant
            0 <= i <= pl.channels@.len(),
            pl.channels@.len() == pr.channels@.len(),
            out@.len() == i,
            forall|j: int| 0 <= j < i ==> pl.levels()[j] + S::amount(#[trigger] out@[j]) == pr.levels()[j],
        decreases pl.channels@.len() - i,
    {
        out.push(pl.channels[i].delta(pr.channels[i]));
        i += 1;
    }
    out
}

/// A grid of pixels of one model, row by row from the top.
#[derive(Debug, PartialEq, Eq)]
pub struct Grid<S> {
    pub model: ColorModel,
    pub width: u32,
    pub height: u32,
    pub rows: Vec<Vec<Pixel<S>>>,
}

/// Whether `rows` holds `height` rows of `width` well-formed pixels of
/// `model` each.
pub open spec fn rows_fit<S: Subpixel>(rows: Seq<Vec<Pixel<S>>>, model: ColorModel, width: int, height: int) -> bool {
    &&& rows.len() == height
    &&& forall|y: int| 0 <= y < height ==> (#[trigger] rows[y])@.len() == width
    &&& forall|x: int, y: int|
        0 <= y < height && 0 <= x < width ==> (#[trigger] rows[y]@[x]).wf() && rows[y]@[x].model == model
}

/// The levels of a pixel under `model` with every channel at zero.
pub open spec fn zero_levels(model: ColorModel) -> Seq<int> {
    Seq::new(model.channels(), |i: int| 0int)
}

impl<S: Subpixel> Grid<S> {
    /// Whether the grid holds `height` rows of `width` pixels of its model.
    pub open spec fn wf(&self) -> bool {
        rows_fit(self.rows@, self.model, self.width as int, self.height as int)
    }

    /// Whether the grid has a pixel at `(x, y)`.
    pub open spec fn holds(&self, x: int, y: int) -> bool {
        0 <= x < self.width && 0 <= y < self.height
    }

    /// The levels of the pixel at `(x, y)`; those of a pixel with every
    /// channel at zero where the grid has none there.
    pub open spec fn levels_at(&self, x: int, y: int) -> Seq<int> {
        if self.holds(x, y) {
            self.rows@[y]@[x].levels()
        } else {
            zero_levels(self.model)
        }
    }

    /// The number of pixels in a row.
    pub fn width(&self) -> (w: u32)
        ensures
            w == self.width,
    {
        self.width
    }

    /// The number of rows.
    pub fn height(&self) -> (h: u32)
        ensures
            h == self.height,
    {
        self.height
    }

    /// The pixel at `(x, y)`, if the grid has one there.
    pub fn get_pixel_checked(&self, x: u32, y: u32) -> (p: Option<&Pixel<S>>)
        requires
            self.wf(),
        ensures
            p is Some <==> self.holds(x as int, y as int),
            p matches Some(found) ==> *found == self.rows@[y as int]@[x as int],
    {
        if x < self.width && y < self.height {
            Some(&self.rows[y as usize][x as usize])
        } else {
            None
        }
    }

    /// A grid of `width` by `height` pixels with every channel at zero.
    pub fn new(model: ColorModel, width: u32, height: u32) -> (out: Self)
        ensures
            out.wf(),
            out.model == model,
            out.width == width,
            out.height == height,
            forall|x: int, y: int| out.levels_at(x, y) == zero_levels(model),
    {
        let mut rows: Vec<Vec<Pixel<S>>> = Vec::new();
        let mut y: u32 = 0;
        while y < height
            invariant
                0 <= y <= height,
                rows_fit(rows@, model, width as int, y as int),
                forall|i: int, j: int|
                    0 <= j < y && 0 <= i < width ==> (#[trigger] rows@[j]@[i]).levels() == zero_levels(model),
            decreases height - y,
        {
            let mut row: Vec<Pixel<S>> = Vec::new();
            let mut x: u32 = 0;
            while x < width
                invariant
                    0 <= x <= width,
                    row@.len() == x,
                    forall|i: int|
                        0 <= i < x ==> (#[trigger] row@[i]).wf() && row@[i].model == model && row@[i].levels()
                            == zero_levels(model),
                decreases width - x,
            {
                row.push(Pixel::zeroed(model));
                x += 1;
            }
            rows.push(row);
            y += 1;
        }
        Grid { model, width, height, rows }
    }
}

/// The place of channel `c` of the pixel at `(x, y)` among the samples of a
/// grid `width` pixels wide, laid out row by row with `channels` samples to
/// the pixel.
pub open spec fn raw_index(channels: int, width: int, x: int, y: int, c: int) -> int {
    (y * width + x) * channels + c
}

/// A place inside a grid lies before the end of its samples, and the places
/// follow each other row by row, pixel by pixel.
proof fn lemma_raw_index(channels: int, width: int, height: int, x: int, y: int, c: int)
    requires
        0 <= x < width,
        0 <= y < height,
        0 <= c < channels,
    ensures
        0 <= raw_index(channels, width, x, y, c) < width * height * channels,
        raw_index(channels, width, x, y, c) + 1 == if c + 1 < channels {
            raw_index(channels, width, x, y, c + 1)
        } else if x + 1 < width {
            raw_index(channels, width, x + 1, y, 0)
        } else {
            raw_index(channels, width, 0, y + 1, 0)
        },
        raw_index(channels, width, 0, height, 0) == width * height * channels,
{
    assert(0 <= raw_index(channels, width, x, y, c) < width * height * channels) by (nonlinear_arith)
        requires
            0 <= x < width,
            0 <= y < height,
            0 <= c < channels,
    {
        assert(y * width + x <= (height - 1) * width + (width - 1));
        assert((y * width + x) * channels <= ((height - 1) * width + (width - 1)) * channels);
        assert(((height - 1) * width + (width - 1)) * channels + channels == width * height * channels);
        assert(0 <= (y * width + x) * channels);
    }
    assert((y * width + x) * channels + channels == (y * width + (x + 1)) * channels) by (nonlinear_arith);
    assert(y * width + width == (y + 1) * width + 0) by (nonlinear_arith);
    assert((height * width + 0) * channels + 0 == width * height * channels) by (nonlinear_arith);
}

impl<S: Subpixel> Grid<S> {
    /// Whether the grid is well-formed. Verified code knows it of every
    /// grid it is handed; other code can ask.
    pub fn check(&self) -> (ok: bool)
        ensures
            ok == self.wf(),
    {
        if self.rows.len() != self.height as usize {
            return false;
        }
        let mut y: usize = 0;
        while y < self.rows.len()
            invariant
                0 <= y <= self.rows@.len(),
                self.rows@.len() == self.height,
                rows_fit(self.rows@.take(y as int), self.model, self.width as int, y as int),
            decreases self.rows@.len() - y,
        {
            let row = &self.rows[y];
            if row.len() != self.width as usize {
                return false;
            }
            let mut x: usize = 0;
            while x < row.len()
                invariant
                    0 <= x <= row@.len(),
                    0 <= y < self.height,
                    row@.len() == self.width,
                    row == self.rows@[y as int],
                    forall|i: int| 0 <= i < x ==> (#[trigger] row@[i]).wf() && row@[i].model == self.model,
                decreases row@.len() - x,
            {
                let p = &row[x];
                if p.channels.len() != p.model.channel_count() || p.model != self.model {
                    return false;
                }
                x += 1;
            }
            y += 1;
        }
        proof {
            assert(self.rows@.take(self.rows@.len() as int) =~= self.rows@);
        }
        true
    }

    /// Whether the samples `data`, laid out row by row from the top and
    /// pixel by pixel, are those of this grid.
    pub open spec fn laid_out_as(&self, data: Seq<S>) -> bool {
        &&& data.len() == self.width * self.height * self.model.channels()
        &&& forall|x: int, y: int, c: int|
            self.holds(x, y) && 0 <= c < self.model.channels() ==> self.rows@[y]@[x].channels@[c]
                == #[trigger] data[raw_index(self.model.channels() as int, self.width as int, x, y, c)]
    }

    /// The grid of `width` by `height` pixels whose samples are `data`, row
    /// by row from the top and pixel by pixel; `None` unless `data` holds
    /// exactly as many samples as such a grid has.
    pub fn from_raw(model: ColorModel, width: u32, height: u32, data: &[S]) -> (out: Option<Self>)
        ensures
            out is Some <==> data@.len() == width * height * model.channels(),
            out matches Some(g) ==> g.wf() && g.model == model && g.width == width && g.height == height
                && g.laid_out_as(data@),
    {
        let n = model.channel_count();
        let ghost w = width as int;
        let ghost ch = n as int;
        let mut rows: Vec<Vec<Pixel<S>>> = Vec::new();
        let mut idx: usize = 0;
        let mut y: u32 = 0;
        proof {
            assert(raw_index(ch, w, 0, 0, 0) == 0) by (nonlinear_arith);
        }
        while y < height
            invariant
                0 <= y <= height,
                n == model.channels(),
                w == width,
                ch == n,
                idx == raw_index(ch, w, 0, y as int, 0),
                idx <= data@.len(),
                rows_fit(rows@, model, w, y as int),
                forall|i: int, j: int, c: int|
                    0 <= j < y && 0 <= i < w && 0 <= c < ch ==> rows@[j]@[i].channels@[c]
                        == #[trigger] data@[raw_index(ch, w, i, j, c)],
            decreases height - y,
        {
            let mut row: Vec<Pixel<S>> = Vec::new();
            let mut x: u32 = 0;
            while x < width
                invariant
                    0 <= x <= width,
                    0 <= y < height,
                    n == model.channels(),
                    w == width,
                    ch == n,
                    idx == raw_index(ch, w, x as int, y as int, 0),
                    idx <= data@.len(),
                    row@.len() == x,
                    forall|i: int| 0 <= i < x ==> (#[trigger] row@[i]).wf() && row@[i].model == model,
                    forall|i: int, c: int|
                        0 <= i < x && 0 <= c < ch ==> row@[i].channels@[c]
                            == #[trigger] data@[raw_index(ch, w, i, y as int, c)],
                decreases width - x,
            {
                let mut channels: Vec<S> = Vec::new();
                let mut c: usize = 0;
                while c < n
                    invariant
                        0 <= c <= n,
                        0 <= x < width,
                        0 <= y < height,
                        n == model.channels(),
                        w == width,
                        ch == n,
                        idx == raw_index(ch, w, x as int, y as int, 0) + c,
                        idx <= data@.len(),
                        channels@.len() == c,
                        forall|k: int|
                            0 <= k < c ==> #[trigger] channels@[k] == data@[raw_index(ch, w, x as int, y as int, k)],
                    decreases n - c,
                {
                    if idx >= data.len() {
                        proof {
                            lemma_raw_index(ch, w, height as int, x as int, y as int, c as int);
                        }
                        return None;
                    }
                    channels.push(data[idx]);
                    idx += 1;
                    c += 1;
                }
                proof {
                    lemma_raw_index(ch, w, height as int, x as int, y as int, ch - 1);
                }
                row.push(Pixel { model, channels });
                x += 1;
            }
            proof {
                if width > 0 {
                    lemma_raw_index(ch, w, height as int, w - 1, y as int, ch - 1);
                } else {
                    assert(raw_index(ch, w, 0, y as int, 0) == raw_index(ch, w, 0, y + 1, 0)) by (nonlinear_arith)
                        requires
                            w == 0,
                    ;
                }
            }
            rows.push(row);
            y += 1;
        }
        proof {
            assert(raw_index(ch, w, 0, height as int, 0) == width * height * model.channels()) by (nonlinear_arith)
                requires
                    ch == model.channels(),
                    w == width,
            ;
        }
        if idx == data.len() {
            Some(Grid { model, width, height, rows })
        } else {
            None
        }
    }

    /// The samples of the grid, row by row from the top and pixel by pixel.
    pub fn to_raw(&self) -> (data: Vec<S>)
        requires
            self.wf(),
        ensures
            self.laid_out_as(data@),
    {
        let ghost w = self.width as int;
        let ghost ch = self.model.channels() as int;
        let mut data: Vec<S> = Vec::new();
        let mut y: usize = 0;
        while y < self.rows.len()
            invariant
                0 <= y <= self.height,
                self.wf(),
                w == self.width,
                ch == self.model.channels(),
                data@.len() == raw_index(ch, w, 0, y as int, 0),
                forall|i: int, j: int, c: int|
                    0 <= j < y && 0 <= i < w && 0 <= c < ch ==> self.rows@[j]@[i].channels@[c]
                        == #[trigger] data@[raw_index(ch, w, i, j, c)],
            decreases self.height - y,
        {
            let row = &self.rows[y];
            let mut x: usize = 0;
            while x < row.len()
                invariant
                    0 <= x <= self.width,
                    0 <= y < self.height,
                    self.wf(),
                    row == self.rows@[y as int],
                    w == self.width,
                    ch == self.model.channels(),
                    data@.len() == raw_index(ch, w, x as int, y as int, 0),
                    forall|i: int, j: int, c: int|
                        0 <= i < w && 0 <= c < ch && (0 <= j < y || (j == y && i < x))
                            ==> self.rows@[j]@[i].channels@[c] == #[trigger] data@[raw_index(ch, w, i, j, c)],
                decreases self.width - x,
            {
                let p = &row[x];
                let mut c: usize = 0;
                while c < p.channels.len()
                    invariant
                        0 <= c <= ch,
                        0 <= x < self.width,
                        0 <= y < self.height,
                        self.wf(),
                        row == self.rows@[y as int],
                        p == row@[x as int],
                        w == self.width,
                        ch == self.model.channels(),
                        data@.len() == raw_index(ch, w, x as int, y as int, 0) + c,
                        forall|i: int, j: int, k: int|
                            0 <= i < w && 0 <= k < ch && (0 <= j < y || (j == y && i < x) || (j == y && i == x && k
                                < c)) ==> self.rows@[j]@[i].channels@[k] == #[trigger] data@[raw_index(ch, w, i, j, k)],
                    decreases ch - c,
                {
                    data.push(p.channels[c]);
                    proof {
                        assert forall|i: int, j: int, k: int|
                            0 <= i < w && 0 <= k < ch && (0 <= j < y || (j == y && i < x) || (j == y && i == x && k
                                < c + 1)) implies self.rows@[j]@[i].channels@[k] == #[trigger] data@[raw_index(
                            ch,
                            w,
                            i,
                            j,
                            k,
                        )] by {
                            lemma_raw_order(ch, w, i, j, k, x as int, y as int, c as int);
                        }
                    }
                    c += 1;
                }
                proof {
                    lemma_raw_index(ch, w, self.height as int, x as int, y as int, ch - 1);
                }
                x += 1;
            }
            proof {
                if w > 0 {
                    lemma_raw_index(ch, w, self.height as int, w - 1, y as int, ch - 1);
                } else {
                    assert(raw_index(ch, w, 0, y as int, 0) == raw_index(ch, w, 0, y + 1, 0)) by (nonlinear_arith)
                        requires
                            w == 0,
                    ;
                }
            }
            y += 1;
        }
        proof {
            assert(raw_index(ch, w, 0, self.height as int, 0) == self.width * self.height * self.model.channels())
                by (nonlinear_arith)
                requires
                    ch == self.model.channels(),
                    w == self.width,
            ;
        }
        data
    }
}

/// A place that comes earlier in a grid, row by row and pixel by pixel,
/// comes earlier among its samples, and the same place is the same sample.
proof fn lemma_raw_order(channels: int, width: int, i: int, j: int, k: int, x: int, y: int, c: int)
    requires
        0 <= i < width,
        0 <= x < width,
        0 <= k < channels,
        0 <= c < channels,
        0 <= j,
        0 <= y,
    ensures
        0 <= raw_index(channels, width, i, j, k),
        (j < y || (j == y && i < x) || (j == y && i == x && k < c)) ==> raw_index(channels, width, i, j, k)
            < raw_index(channels, width, x, y, c),
        (j == y && i == x && k == c) ==> raw_index(channels, width, i, j, k) == raw_index(channels, width, x, y, c),
{
    assert(0 <= (j * width + i) * channels) by (nonlinear_arith)
        requires
            0 <= i,
            0 <= j,
            0 < width,
            0 < channels,
    ;
    if j < y {
        assert((j * width + i) * channels + k < (y * width + x) * channels + c) by (nonlinear_arith)
            requires
                0 <= i < width,
                0 <= x,
                0 <= k < channels,
                0 <= c,
                0 <= j < y,
        {
            assert(j * width + i + 1 <= y * width + x) by (nonlinear_arith)
                requires
                    0 <= i < width,
                    0 <= x,
                    0 <= j < y,
            {
                assert((j + 1) * width <= y * width);
            }
            assert((j * width + i + 1) * channels <= (y * width + x) * channels);
        }
    } else if j == y && i < x {
        assert((j * width + i) * channels + k < (y * width + x) * channels + c) by (nonlinear_arith)
            requires
                0 <= i < x,
                0 <= k < channels,
                0 <= c,
                j == y,
        {
            assert((j * width + i + 1) * channels <= (y * width + x) * channels);
        }
    }
}

/// Whether `rows` holds, at every place of a grid as wide and as high as
/// the larger of `l` and `r`, a value that `f` can give for the pixels of
/// `l` and `r` there, the pixel `blank` taken where a grid has none.
pub open spec fn combines<S: Subpixel, Out, F: Fn(&Pixel<S>, &Pixel<S>) -> Out>(
    rows: Seq<Vec<Out>>,
    l: &Grid<S>,
    r: &Grid<S>,
    blank: &Pixel<S>,
    f: F,
) -> bool {
    &&& rows.len() == higher(l.height as int, r.height as int)
    &&& forall|y: int| 0 <= y < rows.len() ==> (#[trigger] rows[y])@.len() == higher(l.width as int, r.width as int)
    &&& forall|x: int, y: int|
        0 <= y < rows.len() && 0 <= x < higher(l.width as int, r.width as int) ==> call_ensures(
            f,
            (pixel_or(l, x, y, blank), pixel_or(r, x, y, blank)),
            #[trigger] rows[y]@[x],
        )
}

/// The pixel of `g` at `(x, y)`, or `blank` where it has none.
pub open spec fn pixel_or<'a, S: Subpixel>(g: &'a Grid<S>, x: int, y: int, blank: &'a Pixel<S>) -> &'a Pixel<S> {
    if g.holds(x, y) {
        &g.rows@[y]@[x]
    } else {
        blank
    }
}

/// Walks the places of a grid as wide and as high as the larger of `l` and
/// `r`, row by row, and collects what `f` gives for the two pixels at each
/// place. Where a grid has no pixel, `f` is handed `zeroed`.
pub fn combine<S: Subpixel, Out, F: Fn(&Pixel<S>, &Pixel<S>) -> Out>(
    l: &Grid<S>,
    r: &Grid<S>,
    zeroed: &Pixel<S>,
    f: F,
) -> (rows: Vec<Vec<Out>>)
    requires
        l.wf(),
        r.wf(),
        l.model == r.model,
        zeroed.wf(),
        zeroed.model == l.model,
        forall|pl: &Pixel<S>, pr: &Pixel<S>|
            pl.wf() && pr.wf() && pl.model == l.model && pr.model == l.model ==> call_requires(f, (pl, pr)),
    ensures
        combines(rows@, l, r, zeroed, f),
{
    let width = if l.width() > r.width() { l.width() } else { r.width() };
    let height = if l.height() > r.height() { l.height() } else { r.height() };
    let mut rows: Vec<Vec<Out>> = Vec::new();
    let mut h: u32 = 0;
    while h < height
        invariant
            0 <= h <= height,
            width == higher(l.width as int, r.width as int),
            height == higher(l.height as int, r.height as int),
            l.wf(),
            r.wf(),
            l.model == r.model,
            zeroed.wf(),
            zeroed.model == l.model,
            forall|pl: &Pixel<S>, pr: &Pixel<S>|
                pl.wf() && pr.wf() && pl.model == l.model && pr.model == l.model ==> call_requires(f, (pl, pr)),
            rows@.len() == h,
            forall|y: int| 0 <= y < h ==> (#[trigger] rows@[y])@.len() == width,
            forall|x: int, y: int|
                0 <= y < h && 0 <= x < width ==> call_ensures(
                    f,
                    (pixel_or(l, x, y, zeroed), pixel_or(r, x, y, zeroed)),
                    #[trigger] rows@[y]@[x],
                ),
        decreases height - h,
    {
        let mut row: Vec<Out> = Vec::new();
        let mut w: u32 = 0;
        while w < width
            invariant
                0 <= w <= width,
                0 <= h < height,
                l.wf(),
                r.wf(),
                l.model == r.model,
                zeroed.wf(),
                zeroed.model == l.model,
                forall|pl: &Pixel<S>, pr: &Pixel<S>|
                    pl.wf() && pr.wf() && pl.model == l.model && pr.model == l.model ==> call_requires(f, (pl, pr)),
                row@.len() == w,
                forall|x: int|
                    0 <= x < w ==> call_ensures(
                        f,
                        (pixel_or(l, x, h as int, zeroed), pixel_or(r, x, h as int, zeroed)),
                        #[trigger] row@[x],
                    ),
            decreases width - w,
        {
            let pl = match l.get_pixel_checked(w, h) {
                Some(p) => p,
                None => zeroed,
            };
            let pr = match r.get_pixel_checked(w, h) {
                Some(p) => p,
                None => zeroed,
            };
            row.push(f(pl, pr));
            w += 1;
        }
        rows.push(row);
        h += 1;
    }
    rows
}

/// Whether `out` is as wide and as high as the larger of `l` and `r` and
/// has, at every place, the levels that `rule` gives for the levels of `l`
/// and `r` there, a pixel with every channel at zero standing in where a
/// grid has none.
pub open spec fn pixelwise<S: Subpixel>(
    l: &Grid<S>,
    r: &Grid<S>,
    out: &Grid<S>,
    rule: spec_fn(ColorModel, Seq<int>, Seq<int>, int) -> Seq<int>,
) -> bool {
    &&& out.wf()
    &&& out.model == l.model
    &&& out.width == higher(l.width as int, r.width as int)
    &&& out.height == higher(l.height as int, r.height as int)
    &&& forall|x: int, y: int|
        out.holds(x, y) ==> #[trigger] out.levels_at(x, y) == rule(
            l.model,
            l.levels_at(x, y),
            r.levels_at(x, y),
            S::top(),
        )
}

/// The grids that the strategies for grids can be run on: well-formed, and
/// of the same model.
pub open spec fn comparable<S: Subpixel>(l: &Grid<S>, r: &Grid<S>) -> bool {
    l.wf() && r.wf() && l.model == r.model
}

/// The larger of two extents.
fn larger_extent(a: u32, b: u32) -> (m: u32)
    ensures
        m == higher(a as int, b as int),
{
    if a > b {
        a
    } else {
        b
    }
}

/// Colour subtraction: how far apart the two grids are, channel by channel.
pub struct ColorSub;

impl<'a, S: Subpixel + 'a> DiffAlgo<'a, Grid<S>> for ColorSub {
    type Diff = Grid<S>;

    open spec fn accepts(l: &Grid<S>, r: &Grid<S>) -> bool {
        comparable(l, r)
    }

    open spec fn describes(l: &Grid<S>, r: &Grid<S>, out: Grid<S>) -> bool {
        pixelwise(l, r, &out, |m: ColorModel, a: Seq<int>, b: Seq<int>, top: int| color_sub_levels(m, a, b, top))
    }

    fn diff(l: &'a Grid<S>, r: &'a Grid<S>) -> (out: Grid<S>) {
        let zeroed: Pixel<S> = Pixel::zeroed(l.model);
        let rows = combine(l, r, &zeroed, color_sub_pixel::<S>);
        Grid {
            model: l.model,
            width: larger_extent(l.width, r.width),
            height: larger_extent(l.height, r.height),
            rows,
        }
    }
}

/// Heat map: which pixels differ, marked in the first channel.
pub struct Heatmap;

impl<'a, S: Subpixel + 'a> DiffAlgo<'a, Grid<S>> for Heatmap {
    type Diff = Grid<S>;

    open spec fn accepts(l: &Grid<S>, r: &Grid<S>) -> bool {
        comparable(l, r)
    }

    open spec fn describes(l: &Grid<S>, r: &Grid<S>, out: Grid<S>) -> bool {
        pixelwise(l, r, &out, |m: ColorModel, a: Seq<int>, b: Seq<int>, top: int| heat_levels(m, a, b, top))
    }

    fn diff(l: &'a Grid<S>, r: &'a Grid<S>) -> (out: Grid<S>) {
        let zeroed: Pixel<S> = Pixel::zeroed(l.model);
        let rows = combine(l, r, &zeroed, heat_pixel::<S>);
        Grid {
            model: l.model,
            width: larger_extent(l.width, r.width),
            height: larger_extent(l.height, r.height),
            rows,
        }
    }
}

/// Red and green: what became less opaque in red, what became more opaque
/// in green, what changed colour at the same opacity in blue.
pub struct RedGreen;

impl<'a, S: Subpixel + 'a> DiffAlgo<'a, Grid<S>> for RedGreen {
    type Diff = Grid<S>;

    open spec fn accepts(l: &Grid<S>, r: &Grid<S>) -> bool {
        comparable(l, r)
    }

    open spec fn describes(l: &Grid<S>, r: &Grid<S>, out: Grid<S>) -> bool {
        pixelwise(l, r, &out, |m: ColorModel, a: Seq<int>, b: Seq<int>, top: int| red_green_levels(m, a, b, top))
    }

    fn diff(l: &'a Grid<S>, r: &'a Grid<S>) -> (out: Grid<S>) {
        let zeroed: Pixel<S> = Pixel::zeroed(l.model);
        let rows = combine(l, r, &zeroed, red_green_pixel::<S>);
        Grid {
            model: l.model,
            width: larger_extent(l.width, r.width),
            height: larger_extent(l.height, r.height),
            rows,
        }
    }
}

impl<'a, S: Subpixel + 'a> DiffAlgo<'a, Grid<S>> for crate::algo::Default {
    type Diff = Grid<S>;

    open spec fn accepts(l: &Grid<S>, r: &Grid<S>) -> bool {
        <RedGreen as DiffAlgo<'a, Grid<S>>>::accepts(l, r)
    }

    open spec fn describes(l: &Grid<S>, r: &Grid<S>, out: Grid<S>) -> bool {
        <RedGreen as DiffAlgo<'a, Grid<S>>>::describes(l, r, out)
    }

    fn diff(l: &'a Grid<S>, r: &'a Grid<S>) -> (out: Grid<S>) {
        RedGreen::diff(l, r)
    }
}

/// Pixel patch: for every channel of every pixel, what has to be added to
/// the left grid to reach the right one.
pub struct PixelPatch;

/// Whether `rows` is a patch from `l` to `r`: as wide and as high as the
/// larger of the two, row by row from the top, with one amount for each
/// channel of each pixel, such that the level on the left and the amount
/// add up to the level on the right. A pixel with every channel at zero
/// stands in where a grid has none.
pub open spec fn patches<S: DiffPixel>(l: &Grid<S>, r: &Grid<S>, rows: Seq<Vec<Vec<S::Diff>>>) -> bool {
    &&& rows.len() == higher(l.height as int, r.height as int)
    &&& forall|y: int| 0 <= y < rows.len() ==> (#[trigger] rows[y])@.len() == higher(l.width as int, r.width as int)
    &&& forall|x: int, y: int|
        0 <= y < rows.len() && 0 <= x < higher(l.width as int, r.width as int) ==> (#[trigger] rows[y]@[x])@.len()
            == l.model.channels()
    &&& forall|x: int, y: int, c: int|
        0 <= y < rows.len() && 0 <= x < higher(l.width as int, r.width as int) && 0 <= c < l.model.channels()
            ==> l.levels_at(x, y)[c] + S::amount(#[trigger] rows[y]@[x]@[c]) == r.levels_at(x, y)[c]
}

impl<'a, S: DiffPixel + 'a> DiffAlgo<'a, Grid<S>> for PixelPatch {
    type Diff = Vec<Vec<Vec<S::Diff>>>;

    open spec fn accepts(l: &Grid<S>, r: &Grid<S>) -> bool {
        comparable(l, r)
    }

    open spec fn describes(l: &Grid<S>, r: &Grid<S>, out: Self::Diff) -> bool {
        patches(l, r, out@)
    }

    fn diff(l: &'a Grid<S>, r: &'a Grid<S>) -> (out: Self::Diff) {
        let zeroed: Pixel<S> = Pixel::zeroed(l.model);
        combine(l, r, &zeroed, patch_pixel::<S>)
    }
}

impl<'a, S: DiffPixel + 'a> DiffPatch<'a, Grid<S>> for PixelPatch {
}

impl<S: Subpixel> Diffable for Grid<S> {
    type Item = Grid<S>;

    open spec fn item(&self) -> &Grid<S> {
        self
    }

    fn diff<'a, A: DiffAlgo<'a, Grid<S>>>(&'a self, other: &'a Self) -> (out: A::Diff) {
        A::diff(self, other)
    }
}

} // verus!
