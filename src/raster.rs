//! RGBA images held as plain bytes, and the per-pixel work of a patch:
//! masking and sampling through a lattice.
use vstd::prelude::*;
use crate::fixed::div_floor;
use crate::lattice::{Lattice, LatticeView, Point, unit, lemma_row_index, identity_warp_is_exact};

verus! {

/// An RGBA image with 8-bit channels, stored row by row, four bytes per pixel.
#[derive(Debug, Clone)]
pub struct Image {
    pub width: u32,
    pub height: u32,
    pub pixels: Vec<u8>,
}

impl Image {
    /// The buffer holds exactly `width * height` pixels.
    pub open spec fn wf(&self) -> bool {
        self.pixels@.len() == self.width * self.height * 4
    }

    /// A fully transparent image.
    pub fn new(width: u32, height: u32) -> (r: Image)
        requires
            width * height * 4 <= usize::MAX,
        ensures
            r.width == width,
            r.height == height,
            r.wf(),
            forall|k: int| 0 <= k < r.pixels@.len() ==> r.pixels@[k] == 0,
    {
        let n: usize = width as usize * height as usize * 4;
        let mut pixels: Vec<u8> = Vec::new();
        while pixels.len() < n
            invariant
                pixels@.len() <= n,
                forall|k: int| 0 <= k < pixels@.len() ==> pixels@[k] == 0,
            decreases n - pixels@.len(),
        {
            pixels.push(0);
        }
        Image { width, height, pixels }
    }
}

/// Byte `k` of a `width`-wide RGBA image belongs to a pixel inside the
/// rectangle at `(x, y)` of `w` by `h` pixels.
pub open spec fn in_rect(k: int, width: int, x: int, y: int, w: int, h: int) -> bool {
    let px = (k / 4) % width;
    let py = (k / 4) / width;
    x <= px < x + w && y <= py < y + h
}

/// A channel value scaled by a mask value read as an opacity in `[0, 1]`.
pub open spec fn masked(c: u8, m: u8) -> u8 {
    (c * m / 255) as u8
}

/// Every channel of every pixel scaled by that pixel's mask value.
pub open spec fn masked_layer(pixels: Seq<u8>, mask: Seq<u8>) -> Seq<u8> {
    Seq::new(pixels.len(), |k: int| masked(pixels[k], mask[k / 4]))
}

/// The bytes of an optional mask.
pub open spec fn mask_view(mask: Option<Vec<u8>>) -> Option<Seq<u8>> {
    match mask {
        Some(m) => Some(m@),
        None => None,
    }
}

/// `v` moved into `[0, n)`: below it gives `0`, above it `n - 1`.
pub open spec fn clamp_index(v: int, n: int) -> int {
    if v < 0 {
        0
    } else if v >= n {
        n - 1
    } else {
        v
    }
}

/// The fixed-point position of pixel `x` of `n`, `x / n` rounded up, so that
/// scaling it back by `n` and rounding down gives `x` again.
pub open spec fn position_of(x: int, n: int) -> int {
    (x * unit() + n - 1) / n
}

/// Index of the source pixel that pixel `i` (row-major) of a `w` by `h` patch
/// takes its colour from: the pixel's normalized position is warped and scaled
/// back to pixels, then clamped into the image.
pub open spec fn sample_index(l: LatticeView, i: int, w: int, h: int) -> int {
    let p = l.warp(Point { u: position_of(i % w, w) as i32, v: position_of(i / w, h) as i32 });
    clamp_index(p.v * h / unit(), h) * w + clamp_index(p.u * w / unit(), w)
}

/// A `w` by `h` patch drawn through the lattice from `pixels`, each sampled
/// pixel scaled by the mask value at the same place when there is a mask.
pub open spec fn warped_layer(
    pixels: Seq<u8>,
    mask: Option<Seq<u8>>,
    l: LatticeView,
    w: int,
    h: int,
) -> Seq<u8> {
    Seq::new(
        (w * h * 4) as nat,
        |k: int|
            {
                let s = sample_index(l, k / 4, w, h);
                let c = pixels[s * 4 + k % 4];
                match mask {
                    Some(m) => masked(c, m[s]),
                    None => c,
                }
            },
    )
}

/// The diagnostic gradient: red grows with `x`, green with `y`, blue is `0`
/// and the pixel is opaque.
pub open spec fn gradient_layer(w: int, h: int) -> Seq<u8> {
    Seq::new(
        (w * h * 4) as nat,
        |k: int|
            {
                let c = k % 4;
                if c == 0 {
                    ((k / 4) % w * 255 / w) as u8
                } else if c == 1 {
                    ((k / 4) / w * 255 / h) as u8
                } else if c == 2 {
                    0u8
                } else {
                    255u8
                }
            },
    )
}

fn mask_channel(c: u8, m: u8) -> (r: u8)
    ensures
        r == masked(c, m),
{
    proof {
        assert(c * m <= 255 * 255) by (nonlinear_arith);
        assert(c * m / 255 <= 255) by (nonlinear_arith)
            requires
                c * m <= 255 * 255,
        ;
    }
    (c as u32 * m as u32 / 255) as u8
}

/// Scales every channel of `pixels` by the mask value of its pixel.
pub fn apply_mask(pixels: &Vec<u8>, mask: &Vec<u8>) -> (r: Vec<u8>)
    requires
        pixels@.len() == mask@.len() * 4,
    ensures
        r@ == masked_layer(pixels@, mask@),
{
    let mut out: Vec<u8> = Vec::new();
    let mut k: usize = 0;
    while k < pixels.len()
        invariant
            pixels@.len() == mask@.len() * 4,
            k <= pixels@.len(),
            out@.len() == k,
            forall|j: int| 0 <= j < k ==> out@[j] == masked(pixels@[j], mask@[j / 4]),
        decreases pixels@.len() - k,
    {
        out.push(mask_channel(pixels[k], mask[k / 4]));
        k = k + 1;
    }
    assert(out@ =~= masked_layer(pixels@, mask@));
    out
}

/// `v` clamped into `[0, n)`.
fn clamp_exec(v: i128, n: u32) -> (r: usize)
    requires
        n >= 1,
    ensures
        r as int == clamp_index(v as int, n as int),
        r < n,
{
    if v < 0 {
        0
    } else if v >= n as i128 {
        (n - 1) as usize
    } else {
        v as usize
    }
}

proof fn lemma_split_index(i: int, w: int, h: int)
    by (nonlinear_arith)
    requires
        0 <= i < w * h,
        w >= 1,
        h >= 1,
    ensures
        0 <= i % w < w,
        0 <= i / w < h,
{
}

proof fn lemma_position(x: int, n: int)
    requires
        0 <= x < n,
    ensures
        0 <= position_of(x, n) <= unit(),
        x * unit() <= position_of(x, n) * n < x * unit() + n,
{
    let u = unit();
    let m = x * u + n - 1;
    let c = m / n;
    assert(m >= 0) by (nonlinear_arith)
        requires
            m == x * u + n - 1,
            x >= 0,
            n >= 1,
            u > 0,
    ;
    vstd::arithmetic::div_mod::lemma_fundamental_div_mod(m, n);
    vstd::arithmetic::div_mod::lemma_mod_pos_bound(m, n);
    assert(c * n == n * c) by (nonlinear_arith);
    assert(x * u + n - 1 <= n * (u + 1) - 1 - u) by (nonlinear_arith)
        requires
            x <= n - 1,
            u > 0,
    ;
    assert(0 <= c <= u) by (nonlinear_arith)
        requires
            c * n <= m,
            c * n > m - n,
            m <= n * (u + 1) - 1 - u,
            m >= 0,
            n >= 1,
            u > 0,
    ;
}

/// The fixed-point position of pixel `x` of `n`, as [`position_of`] says.
fn position(x: usize, n: u32) -> (r: i32)
    requires
        x < n,
    ensures
        r as int == position_of(x as int, n as int),
{
    proof {
        lemma_position(x as int, n as int);
    }
    ((x as u64 * 65536 + n as u64 - 1) / n as u64) as i32
}

/// On an identity lattice whose block counts divide `UNIT`, every pixel of a
/// patch no larger than `UNIT` either way samples itself.
proof fn lemma_sample_identity(lattice: &Lattice, i: int, w: int, h: int)
    requires
        lattice@.is_identity(),
        unit() % (lattice@.x_blocks as int) == 0,
        unit() % (lattice@.y_blocks as int) == 0,
        1 <= w <= unit(),
        1 <= h <= unit(),
        0 <= i < w * h,
    ensures
        sample_index(lattice@, i, w, h) == i,
{
    lemma_split_index(i, w, h);
    let x = i % w;
    let y = i / w;
    vstd::arithmetic::div_mod::lemma_fundamental_div_mod(i, w);
    assert(y * w == w * y) by (nonlinear_arith);
    lemma_position(x, w);
    lemma_position(y, h);
    let nu = position_of(x, w);
    let nv = position_of(y, h);
    let pt = Point { u: nu as i32, v: nv as i32 };
    identity_warp_is_exact(lattice, pt);
    assert(lattice@.warp(pt) == pt);
    let u = unit();
    vstd::arithmetic::div_mod::lemma_fundamental_div_mod_converse(nu * w, u, x, nu * w - x * u);
    vstd::arithmetic::div_mod::lemma_fundamental_div_mod_converse(nv * h, u, y, nv * h - y * u);
}

/// The source pixel that pixel `i` of a `w` by `h` patch samples.
fn sample(lattice: &Lattice, i: usize, w: u32, h: u32) -> (s: usize)
    requires
        w >= 1,
        h >= 1,
        i < w * h,
        w * h <= usize::MAX,
    ensures
        s as int == sample_index(lattice@, i as int, w as int, h as int),
        s < w * h,
{
    proof {
        lemma_split_index(i as int, w as int, h as int);
    }
    let x: usize = i % (w as usize);
    let y: usize = i / (w as usize);
    let p = lattice.warp_bilinear(Point { u: position(x, w), v: position(y, h) });
    proof {
        assert(i32::MIN * u32::MAX <= p.u * w <= i32::MAX * u32::MAX) by (nonlinear_arith);
        assert(i32::MIN * u32::MAX <= p.v * h <= i32::MAX * u32::MAX) by (nonlinear_arith);
    }
    let sx = clamp_exec(div_floor(p.u as i128 * w as i128, 65536), w);
    let sy = clamp_exec(div_floor(p.v as i128 * h as i128, 65536), h);
    proof {
        lemma_row_index(sx as int, sy as int, w as int, h as int);
    }
    sy * (w as usize) + sx
}

/// Draws a `width` by `height` patch from `pixels` (an image of that same
/// size) through the lattice, masking each sampled pixel when there is a mask.
pub fn warp_layer(
    pixels: &Vec<u8>,
    mask: &Option<Vec<u8>>,
    lattice: &Lattice,
    width: u32,
    height: u32,
) -> (r: Vec<u8>)
    requires
        pixels@.len() == width * height * 4,
        width * height * 4 <= usize::MAX,
        mask is Some ==> mask->0@.len() == width * height,
    ensures
        r@ == warped_layer(pixels@, mask_view(*mask), lattice@, width as int, height as int),
        lattice@.is_identity() && unit() % (lattice@.x_blocks as int) == 0 && unit() % (
        lattice@.y_blocks as int) == 0 && width <= unit() && height <= unit() ==> r@ == match mask_view(*mask) {
            Some(m) => masked_layer(pixels@, m),
            None => pixels@,
        },
{
    let n: usize = width as usize * height as usize;
    let mut out: Vec<u8> = Vec::new();
    let mut i: usize = 0;
    while i < n
        invariant
            n == width * height,
            n * 4 <= usize::MAX,
            pixels@.len() == n * 4,
                mask is Some ==> mask->0@.len() == n,
            i <= n,
            out@.len() == i * 4,
            forall|k: int|
                0 <= k < i * 4 ==> out@[k] == warped_layer(
                    pixels@,
                    mask_view(*mask),
                    lattice@,
                    width as int,
                    height as int,
                )[k],
        decreases n - i,
    {
        proof {
            assert(width >= 1 && height >= 1) by (nonlinear_arith)
                requires
                    0 <= i < width * height,
            ;
        }
        let s = sample(lattice, i, width, height);
        let m: Option<u8> = match mask {
            Some(mv) => Some(mv[s]),
            None => None,
        };
        let mut c: usize = 0;
        while c < 4
            invariant
                n == width * height,
                n * 4 <= usize::MAX,
                pixels@.len() == n * 4,
                i < n,
                s < n,
                s == sample_index(lattice@, i as int, width as int, height as int),
                mask is Some ==> m == Some(mask->0@[s as int]),
                mask is None ==> m is None,
                c <= 4,
                out@.len() == i * 4 + c,
                forall|k: int|
                    0 <= k < i * 4 + c ==> out@[k] == warped_layer(
                        pixels@,
                        mask_view(*mask),
                        lattice@,
                        width as int,
                        height as int,
                    )[k],
            decreases 4 - c,
        {
            let v = pixels[s * 4 + c];
            let ch = match m {
                Some(mv) => mask_channel(v, mv),
                None => v,
            };
            out.push(ch);
            c = c + 1;
        }
        i = i + 1;
    }
    assert(out@ =~= warped_layer(pixels@, mask_view(*mask), lattice@, width as int, height as int));
    proof {
        if lattice@.is_identity() && unit() % (lattice@.x_blocks as int) == 0 && unit() % (
        lattice@.y_blocks as int) == 0 && width <= unit() && height <= unit() {
        let target = match mask_view(*mask) {
            Some(m) => masked_layer(pixels@, m),
            None => pixels@,
        };
        assert forall|k: int| 0 <= k < out@.len() implies out@[k] == target[k] by {
            lemma_sample_identity(lattice, k / 4, width as int, height as int);
        }
        assert(out@ =~= target);
        }
    }
    out
}

/// The diagnostic gradient image of the given size.
pub fn gradient(width: u32, height: u32) -> (r: Image)
    requires
        width * height * 4 <= usize::MAX,
    ensures
        r.width == width,
        r.height == height,
        r.wf(),
        r.pixels@ == gradient_layer(width as int, height as int),
{
    let n: usize = width as usize * height as usize;
    let mut out: Vec<u8> = Vec::new();
    let mut i: usize = 0;
    while i < n
        invariant
            n == width * height,
            n * 4 <= usize::MAX,
            i <= n,
            out@.len() == i * 4,
            forall|k: int|
                0 <= k < i * 4 ==> out@[k] == gradient_layer(width as int, height as int)[k],
        decreases n - i,
    {
        proof {
            lemma_split_index(i as int, width as int, height as int);
        }
        let x: usize = i % (width as usize);
        let y: usize = i / (width as usize);
        proof {
            assert(x * 255 / width as int <= 255) by (nonlinear_arith)
                requires
                    x < width,
            ;
            assert(y * 255 / height as int <= 255) by (nonlinear_arith)
                requires
                    y < height,
            ;
        }
        out.push((x as u64 * 255 / width as u64) as u8);
        out.push((y as u64 * 255 / height as u64) as u8);
        out.push(0);
        out.push(255);
        i = i + 1;
    }
    assert(out@ =~= gradient_layer(width as int, height as int));
    Image { width, height, pixels: out }
}

} // verus!
