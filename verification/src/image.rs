use crate::color::{black, Rgb};
use vstd::arithmetic::div_mod::{
    lemma_fundamental_div_mod_converse_div, lemma_fundamental_div_mod_converse_mod,
};
use vstd::pervasive::VecAdditionalExecFns;
use vstd::prelude::*;

verus! {

/// The abstract state of an image: the pixel grid (one palette index per
/// pixel, row-major), the palette, and the transparency table.
#[verifier::ext_equal]
pub ghost struct ImageView {
    pub width: int,
    pub height: int,
    pub pixels: Seq<u8>,
    pub palette: Seq<Rgb>,
    pub trns: Seq<u8>,
}

impl ImageView {
    /// Dimensions are positive and fit the format, the pixel grid has one
    /// byte per pixel and a rendering of it fits the machine, the palette
    /// fits one-byte indices, every pixel points into the palette, and the
    /// transparency table is never longer than the palette.
    pub open spec fn wf(self) -> bool {
        &&& 1 <= self.width <= u32::MAX
        &&& 1 <= self.height <= u32::MAX
        &&& self.pixels.len() == self.width * self.height
        &&& 4 * self.pixels.len() <= usize::MAX
        &&& self.palette.len() <= 256
        &&& self.trns.len() <= self.palette.len()
        &&& forall|i: int| 0 <= i < self.pixels.len() ==> (self.pixels[i] as int) < self.palette.len()
    }

    /// The alpha of palette index `i`: read from the transparency table,
    /// fully opaque where the table does not reach.
    pub open spec fn alpha_of(self, i: int) -> u8 {
        if i < self.trns.len() {
            self.trns[i]
        } else {
            255
        }
    }

    /// Byte `i` of the rendered buffer: four bytes per pixel, red, green,
    /// blue from the palette entry, then the entry's alpha.
    pub open spec fn rgba_byte(self, i: int) -> u8 {
        let px = self.pixels[i / 4] as int;
        if i % 4 == 0 {
            self.palette[px].r
        } else if i % 4 == 1 {
            self.palette[px].g
        } else if i % 4 == 2 {
            self.palette[px].b
        } else {
            self.alpha_of(px)
        }
    }

    /// The rendered image: a flat RGBA buffer in row-major order, a pure
    /// function of palette, transparency and pixel grid.
    pub open spec fn rendered(self) -> Seq<u8> {
        Seq::new((4 * self.pixels.len()) as nat, |i: int| self.rgba_byte(i))
    }
}

/// The state of a blank canvas: every pixel at index 0, two opaque black
/// palette entries, and index 0 fully transparent.
pub open spec fn blank(width: int, height: int) -> ImageView {
    ImageView {
        width,
        height,
        pixels: Seq::new((width * height) as nat, |i: int| 0u8),
        palette: seq![black(), black()],
        trns: seq![0u8],
    }
}

/// The transparency table with `alpha` written at `index`: grown first with
/// fully opaque entries if it did not reach `index`.
pub open spec fn trns_written(t: Seq<u8>, index: int, alpha: u8) -> Seq<u8>
    recommends
        0 <= index,
{
    let grown = if t.len() > index {
        t
    } else {
        t + Seq::new((index + 1 - t.len()) as nat, |i: int| 255u8)
    };
    grown.update(index, alpha)
}

/// Length of the table after dropping every trailing fully opaque entry.
pub open spec fn canon_len(t: Seq<u8>) -> int
    decreases t.len(),
{
    if t.len() > 0 && t[t.len() - 1] == 255 {
        canon_len(t.drop_last())
    } else {
        t.len() as int
    }
}

/// The table with every trailing fully opaque entry dropped: entries it
/// keeps are unchanged, and it never ends in 255.
pub open spec fn canonical(t: Seq<u8>) -> Seq<u8> {
    t.take(canon_len(t))
}

pub proof fn lemma_canon_len_bounds(t: Seq<u8>)
    ensures
        0 <= canon_len(t) <= t.len(),
    decreases t.len(),
{
    if t.len() > 0 && t[t.len() - 1] == 255 {
        lemma_canon_len_bounds(t.drop_last());
    }
}

/// The canonical table never ends in a fully opaque entry.
pub proof fn lemma_canon_last(t: Seq<u8>)
    ensures
        canon_len(t) > 0 ==> t[canon_len(t) - 1] != 255,
    decreases t.len(),
{
    if t.len() > 0 && t[t.len() - 1] == 255 {
        lemma_canon_last(t.drop_last());
        lemma_canon_len_bounds(t.drop_last());
        if canon_len(t) > 0 {
            assert(t[canon_len(t) - 1] == t.drop_last()[canon_len(t.drop_last()) - 1]);
        }
    }
}

/// Every entry the canonicalization drops is fully opaque.
pub proof fn lemma_canon_dropped(t: Seq<u8>)
    ensures
        forall|k: int| canon_len(t) <= k < t.len() ==> t[k] == 255,
    decreases t.len(),
{
    lemma_canon_len_bounds(t);
    if t.len() > 0 && t[t.len() - 1] == 255 {
        lemma_canon_dropped(t.drop_last());
        assert forall|k: int| canon_len(t) <= k < t.len() implies t[k] == 255 by {
            if k < t.len() - 1 {
                assert(t.drop_last()[k] == 255);
            }
        }
    }
}

/// Dropping a trailing fully opaque entry leaves the canonical table as it is.
proof fn lemma_canon_drop_last(t: Seq<u8>)
    requires
        t.len() > 0,
        t[t.len() - 1] == 255,
    ensures
        canonical(t.drop_last()) == canonical(t),
{
    lemma_canon_len_bounds(t.drop_last());
    assert(canonical(t.drop_last()) =~= canonical(t));
}

/// Canonicalization never changes an observable alpha: an index answered by
/// a dropped entry was fully opaque, which is what a missing entry means.
pub proof fn lemma_canonical_alpha(t: Seq<u8>, i: int)
    requires
        0 <= i,
    ensures
        ({
            let c = canonical(t);
            (if i < c.len() {
                c[i]
            } else {
                255u8
            }) == (if i < t.len() {
                t[i]
            } else {
                255u8
            })
        }),
{
    lemma_canon_len_bounds(t);
    lemma_canon_dropped(t);
}

/// After a transparency write the table is canonical: never longer than the
/// palette, and never ending in a fully opaque entry.
pub proof fn lemma_transparency_canonical(t: Seq<u8>, index: int, alpha: u8, pal_len: int)
    requires
        0 <= index < pal_len,
        t.len() <= pal_len,
    ensures
        canonical(trns_written(t, index, alpha)).len() <= pal_len,
        canonical(trns_written(t, index, alpha)).len() > 0 ==> canonical(
            trns_written(t, index, alpha),
        ).last() != 255,
{
    let w = trns_written(t, index, alpha);
    lemma_canon_len_bounds(w);
    lemma_canon_last(w);
}

/// Rendering is pure: the rendered buffer is a function of palette,
/// transparency and pixel grid alone, so two renders of one unchanged state
/// are byte-identical.
pub proof fn lemma_render_deterministic(v: ImageView, r1: Seq<u8>, r2: Seq<u8>)
    requires
        r1 == v.rendered(),
        r2 == v.rendered(),
    ensures
        r1 == r2,
{
}

/// A well-formed image has a well-formed abstract state.
pub proof fn lemma_wf_view(img: &Image)
    requires
        img.wf(),
    ensures
        img@.wf(),
{
}

/// A palette-indexed image: pixel grid, palette and transparency table,
/// with a cache of the last rendering that every mutation invalidates.
pub struct Image {
    width: usize,
    height: usize,
    pixels: Vec<u8>,
    palette: Vec<Rgb>,
    trns: Vec<u8>,
    cache: Option<Vec<u8>>,
}

impl View for Image {
    type V = ImageView;

    closed spec fn view(&self) -> ImageView {
        ImageView {
            width: self.width as int,
            height: self.height as int,
            pixels: self.pixels@,
            palette: self.palette@,
            trns: self.trns@,
        }
    }
}

/// A fresh copy of a byte buffer.
fn copy_bytes(v: &Vec<u8>) -> (r: Vec<u8>)
    ensures
        r@ == v@,
{
    let mut out: Vec<u8> = Vec::new();
    let mut i: usize = 0;
    while i < v.len()
        invariant
            i <= v.len(),
            out@ == v@.take(i as int),
        decreases v.len() - i,
    {
        out.push(v[i]);
        i = i + 1;
    }
    proof {
        assert(out@ =~= v@);
    }
    out
}

impl Image {
    /// The image is well formed: its abstract state is well formed
    /// (`ImageView::wf`) and the render cache, when present, holds exactly
    /// the rendering of that state.
    pub closed spec fn wf(&self) -> bool {
        &&& self@.wf()
        &&& (self.cache matches Some(c) ==> c@ == self@.rendered())
    }

    /// A blank canvas: `x` by `y` pixels, all at index 0, the default
    /// two-entry palette, and index 0 fully transparent.
    pub fn new(x: usize, y: usize) -> (r: Image)
        requires
            1 <= x <= u32::MAX,
            1 <= y <= u32::MAX,
            4 * (x * y) <= usize::MAX,
        ensures
            r.wf(),
            r@ == blank(x as int, y as int),
    {
        let n: usize = x * y;
        let mut pixels: Vec<u8> = Vec::new();
        let mut i: usize = 0;
        while i < n
            invariant
                i <= n,
                pixels@.len() == i,
                forall|k: int| 0 <= k < i ==> pixels@[k] == 0u8,
            decreases n - i,
        {
            pixels.push(0);
            i = i + 1;
        }
        let mut palette: Vec<Rgb> = Vec::new();
        palette.push(Rgb { r: 0, g: 0, b: 0 });
        palette.push(Rgb { r: 0, g: 0, b: 0 });
        let mut trns: Vec<u8> = Vec::new();
        trns.push(0);
        let r = Image { width: x, height: y, pixels, palette, trns, cache: None };
        proof {
            assert(r@.pixels =~= blank(x as int, y as int).pixels);
            assert(r@.palette =~= blank(x as int, y as int).palette);
            assert(r@.trns =~= blank(x as int, y as int).trns);
            assert(r@ =~= blank(x as int, y as int));
        }
        r
    }

    /// An image from already decoded parts: a flat one-byte-per-pixel
    /// buffer, a palette, and a transparency table.
    pub fn from_buffers(width: u32, height: u32, pixels: Vec<u8>, palette: Vec<Rgb>, trns: Vec<u8>) -> (r:
        Image)
        requires
            1 <= width,
            1 <= height,
            pixels@.len() == width * height,
            4 * pixels@.len() <= usize::MAX,
            palette@.len() <= 256,
            trns@.len() <= palette@.len(),
            forall|i: int| 0 <= i < pixels@.len() ==> (pixels@[i] as int) < palette@.len(),
        ensures
            r.wf(),
            r@ == (ImageView {
                width: width as int,
                height: height as int,
                pixels: pixels@,
                palette: palette@,
                trns: trns@,
            }),
    {
        Image {
            width: width as usize,
            height: height as usize,
            pixels,
            palette,
            trns,
            cache: None,
        }
    }

    /// The palette, read-only.
    pub fn palette(&self) -> (r: &Vec<Rgb>)
        ensures
            r@ == self@.palette,
    {
        &self.palette
    }

    /// The pixel grid, read-only: one palette index per pixel, row-major.
    pub fn image(&self) -> (r: &Vec<u8>)
        ensures
            r@ == self@.pixels,
    {
        &self.pixels
    }

    /// The transparency table, read-only.
    pub fn trns(&self) -> (r: &Vec<u8>)
        ensures
            r@ == self@.trns,
    {
        &self.trns
    }

    /// The width in pixels.
    pub fn width(&self) -> (r: usize)
        ensures
            r == self@.width,
    {
        self.width
    }

    /// The height in pixels.
    pub fn height(&self) -> (r: usize)
        ensures
            r == self@.height,
    {
        self.height
    }

    /// Overwrite the pixel at `(x, y)` with a palette index.
    pub fn set_pixel(&mut self, index: (usize, usize), color: u8)
        requires
            old(self).wf(),
            (index.0 as int) < old(self)@.width,
            (index.1 as int) < old(self)@.height,
            (color as int) < old(self)@.palette.len(),
        ensures
            final(self).wf(),
            final(self)@ == (ImageView {
                pixels: old(self)@.pixels.update(
                    index.1 * old(self)@.width + index.0,
                    color,
                ),
                ..old(self)@
            }),
    {
        self.cache = None;
        proof {
            assert(index.1 * self@.width + index.0 < self@.width * self@.height)
                by (nonlinear_arith)
                requires
                    (index.0 as int) < self@.width,
                    (index.1 as int) < self@.height,
                    1 <= self@.width,
                    1 <= self@.height,
            ;
        }
        let pos = index.1 * self.width + index.0;
        self.pixels.set(pos, color);
    }

    /// Overwrite the palette entry at `index`.
    pub fn set_color(&mut self, index: u8, color: Rgb)
        requires
            old(self).wf(),
            (index as int) < old(self)@.palette.len(),
        ensures
            final(self).wf(),
            final(self)@ == (ImageView {
                palette: old(self)@.palette.update(index as int, color),
                ..old(self)@
            }),
    {
        self.cache = None;
        self.palette.set(index as usize, color);
    }

    /// Append a palette entry; the palette can never outgrow one-byte
    /// indices, so it takes at most 256 entries.
    pub fn push_color(&mut self, color: Rgb)
        requires
            old(self).wf(),
            old(self)@.palette.len() < 256,
        ensures
            final(self).wf(),
            final(self)@ == (ImageView {
                palette: old(self)@.palette.push(color),
                ..old(self)@
            }),
            final(self)@.palette.len() <= 256,
    {
        self.cache = None;
        self.palette.push(color);
    }

    /// `set_pixel`, with the contract violations checked: a position
    /// outside the grid or a color index outside the palette is rejected,
    /// never clamped, and a rejected call leaves the image unchanged.
    pub fn try_set_pixel(&mut self, index: (usize, usize), color: u8) -> (r: Result<
        (),
        crate::codec::ImgError,
    >)
        requires
            old(self).wf(),
        ensures
            final(self).wf(),
            (r is Ok) <==> ((index.0 as int) < old(self)@.width && (index.1 as int)
                < old(self)@.height && (color as int) < old(self)@.palette.len()),
            r is Ok ==> final(self)@ == (ImageView {
                pixels: old(self)@.pixels.update(
                    index.1 * old(self)@.width + index.0,
                    color,
                ),
                ..old(self)@
            }),
            r is Err ==> *final(self) == *old(self) && (r matches Err(e)
                && e is IndexOutOfRange),
    {
        if !(index.0 < self.width && index.1 < self.height && (color as usize)
            < self.palette.len()) {
            return Err(crate::codec::ImgError::IndexOutOfRange);
        }
        self.set_pixel(index, color);
        Ok(())
    }

    /// `set_color`, with the contract violation checked: an index outside
    /// the palette is rejected, never clamped, and a rejected call leaves
    /// the image unchanged.
    pub fn try_set_color(&mut self, index: u8, color: Rgb) -> (r: Result<
        (),
        crate::codec::ImgError,
    >)
        requires
            old(self).wf(),
        ensures
            final(self).wf(),
            (r is Ok) <==> (index as int) < old(self)@.palette.len(),
            r is Ok ==> final(self)@ == (ImageView {
                palette: old(self)@.palette.update(index as int, color),
                ..old(self)@
            }),
            r is Err ==> *final(self) == *old(self) && (r matches Err(e)
                && e is IndexOutOfRange),
    {
        if (index as usize) >= self.palette.len() {
            return Err(crate::codec::ImgError::IndexOutOfRange);
        }
        self.set_color(index, color);
        Ok(())
    }

    /// `push_color`, with the palette bound checked: a palette that already
    /// holds 256 entries rejects the push, so an index always fits one byte
    /// and the palette never outgrows 256 entries.
    pub fn try_push_color(&mut self, color: Rgb) -> (r: Result<(), crate::codec::ImgError>)
        requires
            old(self).wf(),
        ensures
            final(self).wf(),
            final(self)@.palette.len() <= 256,
            (r is Ok) <==> old(self)@.palette.len() < 256,
            r is Ok ==> final(self)@ == (ImageView {
                palette: old(self)@.palette.push(color),
                ..old(self)@
            }),
            r is Err ==> *final(self) == *old(self) && (r matches Err(e)
                && e is PaletteTooLarge),
    {
        if self.palette.len() >= 256 {
            return Err(crate::codec::ImgError::PaletteTooLarge);
        }
        self.push_color(color);
        Ok(())
    }

    /// `set_transparency`, with the contract violation checked: an index
    /// outside the palette is rejected, never clamped or wrapped, and a
    /// rejected call leaves the image unchanged.
    pub fn try_set_transparency(&mut self, index: u8, transparency: u8) -> (r: Result<
        (),
        crate::codec::ImgError,
    >)
        requires
            old(self).wf(),
        ensures
            final(self).wf(),
            (r is Ok) <==> (index as int) < old(self)@.palette.len(),
            r is Ok ==> final(self)@ == (ImageView {
                trns: canonical(trns_written(old(self)@.trns, index as int, transparency)),
                ..old(self)@
            }),
            r is Ok ==> final(self)@.trns.len() <= final(self)@.palette.len(),
            r is Ok && final(self)@.trns.len() > 0 ==> final(self)@.trns.last() != 255,
            r is Err ==> *final(self) == *old(self) && (r matches Err(e)
                && e is IndexOutOfRange),
    {
        if (index as usize) >= self.palette.len() {
            return Err(crate::codec::ImgError::IndexOutOfRange);
        }
        self.set_transparency(index, transparency);
        Ok(())
    }

    /// Write an alpha for palette index `index`: the table grows with fully
    /// opaque entries if it did not reach the index, and is canonicalized
    /// afterwards, so it never ends in a fully opaque entry.
    pub fn set_transparency(&mut self, index: u8, transparency: u8)
        requires
            old(self).wf(),
            (index as int) < old(self)@.palette.len(),
        ensures
            final(self).wf(),
            final(self)@ == (ImageView {
                trns: canonical(trns_written(old(self)@.trns, index as int, transparency)),
                ..old(self)@
            }),
            final(self)@.trns.len() <= final(self)@.palette.len(),
            final(self)@.trns.len() > 0 ==> final(self)@.trns.last() != 255,
    {
        self.cache = None;
        let idx = index as usize;
        let ghost t0 = self.trns@;
        while self.trns.len() <= idx
            invariant
                self.width == old(self).width,
                self.height == old(self).height,
                self.pixels == old(self).pixels,
                self.palette == old(self).palette,
                self.cache is None,
                t0 == old(self)@.trns,
                idx == index as int,
                idx < self.palette@.len(),
                t0.len() <= self.trns@.len(),
                self.trns@.len() <= idx + 1 || self.trns@.len() == t0.len(),
                self.trns@.take(t0.len() as int) == t0,
                forall|k: int| t0.len() <= k < self.trns@.len() ==> self.trns@[k] == 255u8,
            decreases idx + 1 - self.trns@.len(),
        {
            self.trns.push(255);
        }
        proof {
            let grown = if t0.len() > idx {
                t0
            } else {
                t0 + Seq::new((idx + 1 - t0.len()) as nat, |i: int| 255u8)
            };
            assert(self.trns@ =~= grown);
        }
        self.trns.set(idx, transparency);
        proof {
            assert(self.trns@ == trns_written(t0, index as int, transparency));
            lemma_transparency_canonical(
                t0,
                index as int,
                transparency,
                self.palette@.len() as int,
            );
        }
        self.shrink_trns();
    }

    /// Drop every trailing fully opaque entry of the transparency table: a
    /// missing entry already means fully opaque, so the observable alphas
    /// stay the same.
    pub fn shrink_trns(&mut self)
        requires
            old(self).wf(),
        ensures
            final(self).wf(),
            final(self)@ == (ImageView { trns: canonical(old(self)@.trns), ..old(self)@ }),
            final(self)@.trns.len() > 0 ==> final(self)@.trns.last() != 255,
    {
        self.cache = None;
        let ghost t0 = self.trns@;
        while self.trns.len() > 0 && self.trns[self.trns.len() - 1] == 255
            invariant
                self.width == old(self).width,
                self.height == old(self).height,
                self.pixels == old(self).pixels,
                self.palette == old(self).palette,
                self.cache is None,
                t0 == old(self)@.trns,
                self.trns@.len() <= t0.len(),
                canonical(self.trns@) == canonical(t0),
            decreases self.trns@.len(),
        {
            let ghost before = self.trns@;
            let _ = self.trns.pop();
            proof {
                assert(self.trns@ =~= before.drop_last());
                lemma_canon_drop_last(before);
            }
        }
        proof {
            lemma_canon_len_bounds(self.trns@);
            assert(canonical(self.trns@) =~= self.trns@);
            lemma_canon_len_bounds(t0);
            lemma_canon_last(t0);
        }
    }

    /// The rendered image as a flat RGBA buffer, row-major, four bytes per
    /// pixel: colors resolved through the palette, alphas through the
    /// transparency table, missing entries fully opaque. The result is
    /// cached; any mutation invalidates the cache, so the buffer always
    /// reflects the current state.
    pub fn render(&mut self) -> (r: Vec<u8>)
        requires
            old(self).wf(),
        ensures
            final(self).wf(),
            final(self)@ == old(self)@,
            r@ == old(self)@.rendered(),
    {
        if self.cache.is_some() {
            let c = self.cache.as_ref().unwrap();
            return copy_bytes(c);
        }
        let buf = self.compute_rgba();
        self.cache = Some(copy_bytes(&buf));
        buf
    }

    /// Resolve every pixel through palette and transparency table.
    fn compute_rgba(&self) -> (r: Vec<u8>)
        requires
            self.wf(),
        ensures
            r@ == self@.rendered(),
    {
        let mut buf: Vec<u8> = Vec::new();
        let mut k: usize = 0;
        while k < self.pixels.len()
            invariant
                self.wf(),
                k <= self.pixels@.len(),
                buf@.len() == 4 * k,
                forall|i: int| 0 <= i < buf@.len() ==> buf@[i] == #[trigger] self@.rgba_byte(i),
            decreases self.pixels@.len() - k,
        {
            let px = self.pixels[k];
            let c = self.palette[px as usize];
            let a = if (px as usize) < self.trns.len() {
                self.trns[px as usize]
            } else {
                255
            };
            buf.push(c.r);
            buf.push(c.g);
            buf.push(c.b);
            buf.push(a);
            proof {
                assert forall|i: int| 4 * k <= i < 4 * (k + 1) implies buf@[i]
                    == self@.rgba_byte(i) by {
                    lemma_fundamental_div_mod_converse_div(i, 4, k as int, i - 4 * k);
                    lemma_fundamental_div_mod_converse_mod(i, 4, k as int, i - 4 * k);
                }
            }
            k = k + 1;
        }
        proof {
            assert(buf@ =~= self@.rendered());
        }
        buf
    }
}

impl Default for Image {
    /// The default new canvas: a blank 16 by 16 image.
    fn default() -> (r: Image)
        ensures
            r.wf(),
            r@ == blank(16, 16),
    {
        Image::new(16, 16)
    }
}

} // verus!
