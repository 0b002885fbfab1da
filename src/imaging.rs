//! The calls into the `image` crate: resampling, grayscale conversion and
//! alpha compositing, on images held as plain bytes.
use vstd::prelude::*;
use image::{imageops, ImageBuffer, Luma, Rgba};
use crate::raster::{in_rect, Image};

verus! {

/// The RGBA bytes that triangle-filter resampling makes of a `width` by
/// `height` image at `new_width` by `new_height`.
pub uninterp spec fn resized_of(
    pixels: Seq<u8>,
    width: nat,
    height: nat,
    new_width: nat,
    new_height: nat,
) -> Seq<u8>;

/// The luma bytes, one per pixel, of a `width` by `height` RGBA image.
pub uninterp spec fn grayscale_of(pixels: Seq<u8>, width: nat, height: nat) -> Seq<u8>;

/// The RGBA bytes of a `width` by `height` image after a `top_width` by
/// `top_height` layer has been alpha-blended onto it at `(x, y)`.
pub uninterp spec fn overlay_of(
    bottom: Seq<u8>,
    width: nat,
    height: nat,
    top: Seq<u8>,
    top_width: nat,
    top_height: nat,
    x: nat,
    y: nat,
) -> Seq<u8>;

/// Relies on `image::imageops::resize` with `FilterType::Triangle`: it returns an
/// image of exactly the requested size, whose bytes depend on the input's bytes
/// and size and the requested size alone. It reads the input's pixels, so an
/// empty input is left out, and it allocates an intermediate image of the input
/// width by the new height.
#[verifier::external_body]
pub(crate) fn resize_triangle(image: &Image, width: u32, height: u32) -> (r: Image)
    requires
        image.wf(),
        image.width >= 1,
        image.height >= 1,
        image.width * height * 4 <= usize::MAX,
        width * height * 4 <= usize::MAX,
    ensures
        r.width == width,
        r.height == height,
        r.wf(),
        r.pixels@ == resized_of(image.pixels@, image.width as nat, image.height as nat, width as nat, height as nat),
{
    let source = ImageBuffer::<Rgba<u8>, &[u8]>::from_raw(image.width, image.height, image.pixels.as_slice()).unwrap();
    let out = imageops::resize(&source, width, height, imageops::FilterType::Triangle);
    Image { width: out.width(), height: out.height(), pixels: out.into_raw() }
}

/// Relies on `image::imageops::colorops::grayscale`: one luma byte per pixel,
/// depending on the input's bytes and size alone.
#[verifier::external_body]
pub(crate) fn grayscale(image: &Image) -> (r: Vec<u8>)
    requires
        image.wf(),
    ensures
        r@.len() == image.width * image.height,
        r@ == grayscale_of(image.pixels@, image.width as nat, image.height as nat),
{
    let source = ImageBuffer::<Rgba<u8>, &[u8]>::from_raw(image.width, image.height, image.pixels.as_slice()).unwrap();
    let out: ImageBuffer<Luma<u8>, Vec<u8>> = imageops::colorops::grayscale(&source);
    out.into_raw()
}

/// Relies on `image::imageops::overlay`: it alpha-blends the layer onto the
/// canvas in place, clipped to the canvas, which keeps its size; it writes only
/// the pixels that the layer covers.
#[verifier::external_body]
pub(crate) fn overlay(canvas: &mut Image, top: &Vec<u8>, top_width: u32, top_height: u32, x: u32, y: u32)
    requires
        old(canvas).wf(),
        top@.len() == top_width * top_height * 4,
    ensures
        final(canvas).width == old(canvas).width,
        final(canvas).height == old(canvas).height,
        final(canvas).pixels@.len() == old(canvas).pixels@.len(),
        final(canvas).pixels@ == overlay_of(
            old(canvas).pixels@,
            old(canvas).width as nat,
            old(canvas).height as nat,
            top@,
            top_width as nat,
            top_height as nat,
            x as nat,
            y as nat,
        ),
        forall|k: int|
            0 <= k < old(canvas).pixels@.len() && !in_rect(
                k,
                old(canvas).width as int,
                x as int,
                y as int,
                top_width as int,
                top_height as int,
            ) ==> #[trigger] final(canvas).pixels@[k] == old(canvas).pixels@[k],
{
    let (w, h) = (canvas.width, canvas.height);
    let mut bottom = ImageBuffer::<Rgba<u8>, &mut [u8]>::from_raw(w, h, canvas.pixels.as_mut_slice()).unwrap();
    let layer = ImageBuffer::<Rgba<u8>, &[u8]>::from_raw(top_width, top_height, top.as_slice()).unwrap();
    imageops::overlay(&mut bottom, &layer, x, y);
}

} // verus!
