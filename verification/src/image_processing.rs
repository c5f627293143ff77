use vstd::prelude::*;

use crate::lut::{nearest_grid, LUT};

verus! {

/// Pixel `p` of the RGBA buffer `after` is pixel `p` of `before` with its
/// colour replaced by the lookup table's and its alpha kept.
pub open spec fn pixel_remapped(lut: &LUT<u8>, before: Seq<u8>, after: Seq<u8>, p: int) -> bool {
    let i = 4 * p;
    &&& [after[i], after[i + 1], after[i + 2]] == lut.cell_array(
        nearest_grid(before[i] as int),
        nearest_grid(before[i + 1] as int),
        nearest_grid(before[i + 2] as int),
    )
    &&& after[i + 3] == before[i + 3]
}

/// A remapped pixel takes the table colour of the grid cell nearest to its
/// own input colour, and keeps its own alpha.
pub proof fn law_remapped_pixel_takes_own_cell(lut: &LUT<u8>, before: Seq<u8>, after: Seq<u8>, p: int)
    requires
        0 <= p,
        4 * p + 3 < before.len(),
        4 * p + 3 < after.len(),
        pixel_remapped(lut, before, after, p),
    ensures
        after[4 * p] == lut.cell_array(
            nearest_grid(before[4 * p] as int),
            nearest_grid(before[4 * p + 1] as int),
            nearest_grid(before[4 * p + 2] as int),
        )[0],
        after[4 * p + 1] == lut.cell_array(
            nearest_grid(before[4 * p] as int),
            nearest_grid(before[4 * p + 1] as int),
            nearest_grid(before[4 * p + 2] as int),
        )[1],
        after[4 * p + 2] == lut.cell_array(
            nearest_grid(before[4 * p] as int),
            nearest_grid(before[4 * p + 1] as int),
            nearest_grid(before[4 * p + 2] as int),
        )[2],
        after[4 * p + 3] == before[4 * p + 3],
{
}

/// The colour a pixel gets depends on that pixel's input colour alone: two
/// pixels, in the same buffer or in different ones, at any positions and
/// with any alpha or neighbours, that enter with the same red, green and blue
/// leave with the same red, green and blue.
pub proof fn law_remap_is_per_pixel(
    lut: &LUT<u8>,
    before1: Seq<u8>,
    after1: Seq<u8>,
    p1: int,
    before2: Seq<u8>,
    after2: Seq<u8>,
    p2: int,
)
    requires
        0 <= p1,
        4 * p1 + 3 < before1.len(),
        4 * p1 + 3 < after1.len(),
        0 <= p2,
        4 * p2 + 3 < before2.len(),
        4 * p2 + 3 < after2.len(),
        pixel_remapped(lut, before1, after1, p1),
        pixel_remapped(lut, before2, after2, p2),
        before1[4 * p1] == before2[4 * p2],
        before1[4 * p1 + 1] == before2[4 * p2 + 1],
        before1[4 * p1 + 2] == before2[4 * p2 + 2],
    ensures
        after1[4 * p1] == after2[4 * p2],
        after1[4 * p1 + 1] == after2[4 * p2 + 1],
        after1[4 * p1 + 2] == after2[4 * p2 + 2],
{
    law_remapped_pixel_takes_own_cell(lut, before1, after1, p1);
    law_remapped_pixel_takes_own_cell(lut, before2, after2, p2);
}

/// Replaces the colour of every pixel of an RGBA buffer (four bytes per
/// pixel: red, green, blue, alpha) with the colour the lookup table gives
/// for it; alpha and any bytes after the last whole pixel stay as they were.
pub fn process(lut: &LUT<u8>, pixels: &mut [u8])
    requires
    ensures
        final(pixels)@.len() == old(pixels)@.len(),
        forall|p: int|
            0 <= p < old(pixels)@.len() / 4 ==> #[trigger] pixel_remapped(
                lut,
                old(pixels)@,
                final(pixels)@,
                p,
            ),
        forall|i: int|
            4 * (old(pixels)@.len() / 4) <= i < old(pixels)@.len() ==> final(pixels)@[i] == old(
                pixels,
            )@[i],
{
    let n = pixels.len();
    let count = n / 4;
    let mut p: usize = 0;
    while p < count
        invariant
            count == old(pixels)@.len() / 4,
            n == old(pixels)@.len(),
            pixels@.len() == n,
            p <= count,
                forall|q: int| 0 <= q < p ==> #[trigger] pixel_remapped(lut, old(pixels)@, pixels@, q),
            forall|i: int| 4 * p <= i < n ==> pixels@[i] == old(pixels)@[i],
        decreases count - p,
    {
        let i = p * 4;
        let ghost before = pixels@;
        let c = lut.lookup(pixels[i], pixels[i + 1], pixels[i + 2]);
        pixels[i] = c[0];
        pixels[i + 1] = c[1];
        pixels[i + 2] = c[2];
        assert forall|q: int| 0 <= q <= p implies #[trigger] pixel_remapped(
            lut,
            old(pixels)@,
            pixels@,
            q,
        ) by {
            if q < p {
                assert(pixel_remapped(lut, old(pixels)@, before, q));
            }
        }
        p = p + 1;
    }
}

/// An image of 8-bit RGBA pixels stored row by row, four bytes per pixel.
pub struct RgbaImage {
    pub width: u32,
    pub height: u32,
    pub pixels: Vec<u8>,
}

impl RgbaImage {
    /// The buffer holds exactly the image's pixels.
    pub open spec fn wf(&self) -> bool {
        self.pixels@.len() == 4 * self.width * self.height
    }
}

/// An image `width` pixels wide is left at its size for the target width
/// `res`: there is none, or the image is narrower than it.
pub open spec fn keeps_size(width: u32, res: Option<u32>) -> bool {
    match res {
        None => true,
        Some(r) => width < r,
    }
}

/// `scaled_extent` may be called to scale an extent by `res / reference`
/// wherever `res` is at most `reference`.
pub open spec fn scale_callable<F: Fn(u32, u32, u32) -> u32>(scaled_extent: F) -> bool {
    forall|e: u32, r: u32, m: u32| r <= m ==> call_requires(scaled_extent, (e, r, m))
}

/// `s` raised to at least one and capped at `extent`, which a down-scaled
/// extent never exceeds (a cap of zero still gives one).
pub open spec fn clamp_extent(s: u32, extent: u32) -> u32 {
    if s > extent {
        if extent >= 1 {
            extent
        } else {
            1
        }
    } else if s >= 1 {
        s
    } else {
        1
    }
}

/// `out_height` is the height `scaled_extent` gives for an image of
/// `width` × `height` scaled to width `res`, clamped as [`clamp_extent`] does.
pub open spec fn scaled_height<F: Fn(u32, u32, u32) -> u32>(
    scaled_extent: F,
    width: u32,
    height: u32,
    res: u32,
    out_height: u32,
) -> bool {
    exists|s: u32|
        #[trigger] call_ensures(scaled_extent, (height, res, width), s) && out_height
            == clamp_extent(s, height)
}

/// An image is scaled exactly when there is a target width and the image is
/// at least that wide; so an image scaled for a target is still scaled when
/// it is wider.
pub proof fn law_scaled_exactly_when_wide_enough(width: u32, r: u32, wider: u32)
    requires
        width <= wider,
    ensures
        keeps_size(width, None),
        keeps_size(width, Some(r)) <==> width < r,
        !keeps_size(width, Some(r)) ==> !keeps_size(wider, Some(r)),
        !keeps_size(r, Some(r)),
{
}

/// The clamped extent is the scaled extent itself whenever that lies between
/// one and the source extent; an overshoot gives the source extent, and zero
/// gives one.
pub proof fn law_clamp_keeps_in_range_extent(s: u32, extent: u32)
    ensures
        1 <= s <= extent ==> clamp_extent(s, extent) == s,
        s > extent >= 1 ==> clamp_extent(s, extent) == extent,
        s == 0 ==> clamp_extent(s, extent) == 1,
        extent == 0 ==> clamp_extent(s, extent) == 1,
        1 <= clamp_extent(s, extent),
        extent >= 1 ==> clamp_extent(s, extent) <= extent,
{
}

/// A scaled height is one that the scaling function gives for the height,
/// taken as it is whenever it lies between one and the source height.
pub proof fn law_scaled_height_is_the_scaled_value<F: Fn(u32, u32, u32) -> u32>(
    scaled_extent: F,
    width: u32,
    height: u32,
    res: u32,
    out_height: u32,
)
    requires
        scaled_height(scaled_extent, width, height, res, out_height),
    ensures
        exists|s: u32|
            #[trigger] call_ensures(scaled_extent, (height, res, width), s) && (1 <= s <= height
                ==> out_height == s) && (s > height >= 1 ==> out_height == height) && (s == 0
                ==> out_height == 1),
        1 <= out_height,
        height >= 1 ==> out_height <= height,
{
    let s = choose|s: u32|
        #[trigger] call_ensures(scaled_extent, (height, res, width), s) && out_height
            == clamp_extent(s, height);
    law_clamp_keeps_in_range_extent(s, height);
}

/// What `fast_image_resize`'s bilinear convolution makes of the RGBA pixels
/// of a `width` × `height` image resampled to `new_width` × `new_height`.
pub uninterp spec fn bilinear_resized(
    pixels: Seq<u8>,
    width: u32,
    height: u32,
    new_width: u32,
    new_height: u32,
) -> Seq<u8>;

/// The image `out` is `image` scaled to the target width `res`: exactly
/// `res` wide, as high as `scaled_extent` makes it, with the pixels the
/// bilinear resampling gives (the source unchanged where the size is).
pub open spec fn resized_for<F: Fn(u32, u32, u32) -> u32>(
    image: &RgbaImage,
    res: u32,
    scaled_extent: F,
    out: &RgbaImage,
) -> bool {
    &&& out.wf()
    &&& out.width == res
    &&& scaled_height(scaled_extent, image.width, image.height, res, out.height)
    &&& out.pixels@ == bilinear_resized(
        image.pixels@,
        image.width,
        image.height,
        out.width,
        out.height,
    )
    &&& out.width == image.width && out.height == image.height ==> out.pixels@ == image.pixels@
}

/// Resamples the RGBA pixels of a `width` × `height` image to `new_width` ×
/// `new_height` with `fast_image_resize`'s bilinear convolution
/// (`Resizer::resize` from an `ImageRef` into a new `Image`, then
/// `Image::into_vec`). Stated: the result is the crate's resampling of these
/// arguments, it holds exactly the new image's pixels, and where the size
/// does not change the resizer copies the source unchanged.
#[verifier::external_body]
fn resize_rgba_bilinear(pixels: &[u8], width: u32, height: u32, new_width: u32, new_height: u32) -> (out: Vec<u8>)
    requires
        pixels@.len() == 4 * width * height,
        4 * new_width * new_height <= usize::MAX,
    ensures
        out@ == bilinear_resized(pixels@, width, height, new_width, new_height),
        out@.len() == 4 * new_width * new_height,
        new_width == width && new_height == height ==> out@ == pixels@,
{
    let src = fast_image_resize::images::ImageRef::new(width, height, pixels, fast_image_resize::PixelType::U8x4).unwrap();
    let mut dst = fast_image_resize::images::Image::new(new_width, new_height, fast_image_resize::PixelType::U8x4);
    let options = fast_image_resize::ResizeOptions::new().resize_alg(fast_image_resize::ResizeAlg::Convolution(fast_image_resize::FilterType::Bilinear));
    fast_image_resize::Resizer::new().resize(&src, &mut dst, &options).unwrap();
    dst.into_vec()
}

proof fn lemma_area_bound(w: u32, h: u32, nw: u32, nh: u32)
    by (nonlinear_arith)
    requires
        nw <= w,
        nh <= h,
    ensures
        4 * nw * nh <= 4 * w * h,
{
}

/// Scales `image` to the target width `res`: `None` where the image keeps
/// its size, else the image resampled to `res` × the height that
/// `scaled_extent(height, res, width)` gives, at least one and at most the
/// image's height.
pub fn img_resize<F: Fn(u32, u32, u32) -> u32>(image: &RgbaImage, res: Option<u32>, scaled_extent: F) -> (resized: Option<RgbaImage>)
    requires
        image.wf(),
        4 * image.width <= usize::MAX,
        res matches Some(r) ==> r > 0,
        scale_callable(scaled_extent),
    ensures
        keeps_size(image.width, res) <==> resized is None,
        resized matches Some(out) ==> resized_for(image, res->0, scaled_extent, &out),
{
    let r = match res {
        None => return None,
        Some(r) => r,
    };
    let width = image.width;
    let height = image.height;
    if width < r {
        return None;
    }
    let s = scaled_extent(height, r, width);
    let new_height = if s > height {
        if height >= 1 {
            height
        } else {
            1
        }
    } else if s >= 1 {
        s
    } else {
        1
    };
    let source = image.pixels.as_slice();
    let source_len: usize = source.len();
    assert(source_len == 4 * width * height);
    proof {
        if height >= 1 {
            lemma_area_bound(width, height, r, new_height);
        } else {
            lemma_area_bound(width, 1, r, new_height);
        }
    }
    let pixels = resize_rgba_bilinear(source, width, height, r, new_height);
    let out = RgbaImage { width: r, height: new_height, pixels };
    assert(scaled_height(scaled_extent, width, height, r, new_height));
    Some(out)
}

/// The pixels that processing `image` for the target width `res` remaps
/// into an image of `width` × `height`: the image's own where it keeps its
/// size, else its bilinear resampling to that size.
pub open spec fn pixels_to_remap(image: &RgbaImage, res: Option<u32>, width: u32, height: u32) -> Seq<u8> {
    if keeps_size(image.width, res) {
        image.pixels@
    } else {
        bilinear_resized(image.pixels@, image.width, image.height, width, height)
    }
}

/// A resized image is exactly the target width wide, between one and the
/// source height high, holds exactly its pixels, and those pixels are the
/// bilinear resampling of the source to its own size.
pub proof fn law_resized_image_shape<F: Fn(u32, u32, u32) -> u32>(
    image: &RgbaImage,
    res: u32,
    scaled_extent: F,
    out: &RgbaImage,
)
    requires
        resized_for(image, res, scaled_extent, out),
    ensures
        out.width == res,
        1 <= out.height,
        image.height >= 1 ==> out.height <= image.height,
        out.pixels@.len() == 4 * res * out.height,
        out.pixels@ == bilinear_resized(image.pixels@, image.width, image.height, res, out.height),
{
    law_scaled_height_is_the_scaled_value(scaled_extent, image.width, image.height, res, out.height);
}

/// Processing remaps the image's own pixels where there is no target or the
/// image is narrower than it, and the bilinear resampling of them otherwise.
pub proof fn law_pixels_to_remap(image: &RgbaImage, r: u32, width: u32, height: u32)
    ensures
        pixels_to_remap(image, None, width, height) == image.pixels@,
        image.width < r ==> pixels_to_remap(image, Some(r), width, height) == image.pixels@,
        image.width >= r ==> pixels_to_remap(image, Some(r), width, height) == bilinear_resized(
            image.pixels@,
            image.width,
            image.height,
            width,
            height,
        ),
{
}

/// The computing part of processing one image file: the decoded image is
/// scaled to the target width as [`img_resize`] does, then every pixel is
/// remapped through the lookup table as [`process`] does.
pub fn process_image<F: Fn(u32, u32, u32) -> u32>(lut: &LUT<u8>, image: RgbaImage, res: Option<u32>, scaled_extent: F) -> (out: RgbaImage)
    requires
        image.wf(),
        4 * image.width <= usize::MAX,
        res matches Some(r) ==> r > 0,
        scale_callable(scaled_extent),
    ensures
        out.wf(),
        keeps_size(image.width, res) ==> out.width == image.width && out.height == image.height,
        !keeps_size(image.width, res) ==> out.width == res->0 && scaled_height(
            scaled_extent,
            image.width,
            image.height,
            res->0,
            out.height,
        ),
        forall|p: int|
            0 <= p < out.pixels@.len() / 4 ==> #[trigger] pixel_remapped(
                lut,
                pixels_to_remap(&image, res, out.width, out.height),
                out.pixels@,
                p,
            ),
{
    let mut img = match img_resize(&image, res, scaled_extent) {
        Some(resized) => resized,
        None => image,
    };
    process(lut, img.pixels.as_mut_slice());
    img
}

} // verus!
