//! 8-bit RGB images as plain bytes.
use crate::error::{Error, Message};
use crate::float::Float;
use image::imageops::FilterType;
use image::RgbImage;
use vstd::prelude::*;

verus! {

/// An image: rows from the top, pixels from the left, red, green and blue of each
/// pixel.
#[derive(Debug, Clone)]
pub struct RgbBytes {
    pub width: u32,
    pub height: u32,
    pub pixels: Vec<u8>,
}

impl RgbBytes {
    /// The pixels fill the dimensions exactly.
    pub open spec fn wf(self) -> bool {
        self.pixels@.len() == self.height * (3 * self.width)
    }

    /// The bytes of one row.
    pub open spec fn row(self, y: int) -> Seq<u8> {
        row_of(self.pixels@, self.width as int, y)
    }
}

/// The bytes of row `y` of an image that is `width` pixels wide.
pub open spec fn row_of(pixels: Seq<u8>, width: int, y: int) -> Seq<u8> {
    pixels.subrange(y * (3 * width), (y + 1) * (3 * width))
}

/// The resampling filters that image processors name.
#[derive(Debug, Clone, Copy, PartialEq, Eq, Structural)]
pub enum Filter {
    Nearest,
    Lanczos3,
    Triangle,
    CatmullRom,
}

/// The pixels that resampling may give for the pixels, the width and the height of an
/// image, the new width and height, and a filter.
pub uninterp spec fn resamplings(
    pixels: Seq<u8>,
    width: u32,
    height: u32,
    new_width: u32,
    new_height: u32,
    filter: Filter,
) -> Set<Seq<u8>>;

/// `r` is `image` in the given dimensions.
pub open spec fn is_resampled(
    r: RgbBytes,
    image: RgbBytes,
    width: u32,
    height: u32,
    filter: Filter,
) -> bool {
    &&& r.wf()
    &&& r.width == width
    &&& r.height == height
    &&& resamplings(
        image.pixels@,
        image.width,
        image.height,
        width,
        height,
        filter,
    ).contains(r.pixels@)
    &&& width == image.width && height == image.height ==> r.pixels@ == image.pixels@
}

/// The longest side that resampling counts exactly enough. Places are computed in
/// single precision: on longer sides every pixel near the last place may weigh nothing.
pub const LONGEST_SIDE: u32 = 0x40_0000;

/// An image of the given dimensions can be resampled to `width` by `height`: its sides
/// and the new ones are not too long, and what is computed on the way can be addressed.
pub open spec fn resizable(from_width: u32, from_height: u32, width: u32, height: u32) -> bool {
    &&& from_width <= LONGEST_SIDE
    &&& from_height <= LONGEST_SIDE
    &&& width <= LONGEST_SIDE
    &&& height <= LONGEST_SIDE
    &&& from_width * height * 16 <= isize::MAX
    &&& width * height * 3 <= isize::MAX
}

/// Whether an image can be resampled to `width` by `height`.
pub fn can_resize(image: &RgbBytes, width: u32, height: u32) -> (r: bool)
    ensures
        r == resizable(image.width, image.height, width, height),
{
    if image.width > LONGEST_SIDE || image.height > LONGEST_SIDE || width > LONGEST_SIDE || height
        > LONGEST_SIDE {
        return false;
    }
    let limit: u64 = isize::MAX as u64;
    proof {
        assert(image.width * height * 16 <= 0x40_0000 * 0x40_0000 * 16 && width * height * 3
            <= 0x40_0000 * 0x40_0000 * 3) by (nonlinear_arith)
            requires
                image.width <= 0x40_0000,
                width <= 0x40_0000,
                height <= 0x40_0000,
        ;
        assert(image.width * height >= 0 && width * height >= 0) by (nonlinear_arith);
    }
    image.width as u64 * height as u64 * 16 <= limit && width as u64 * height as u64 * 3 <= limit
}

/// `imageops::resize` resamples to the requested dimensions, and copies an image
/// that has them already. Resampled pixels are computed in floating point, with
/// functions whose last digits may differ from machine to machine: the arguments
/// settle which pixels are possible and not which of them come. The call panics where
/// it cannot address what it computes, and where the weights of a place add up to
/// nothing.
#[verifier::external_body]
pub(crate) fn resample(image: &RgbBytes, width: u32, height: u32, filter: Filter) -> (r: RgbBytes)
    requires
        image.wf(),
        resizable(image.width, image.height, width, height),
    ensures
        r.wf(),
        r.width == width,
        r.height == height,
        resamplings(
            image.pixels@,
            image.width,
            image.height,
            width,
            height,
            filter,
        ).contains(r.pixels@),
        width == image.width && height == image.height ==> r.pixels@ == image.pixels@,
{
    let filter = match filter {
        Filter::Nearest => FilterType::Nearest,
        Filter::Lanczos3 => FilterType::Lanczos3,
        Filter::Triangle => FilterType::Triangle,
        Filter::CatmullRom => FilterType::CatmullRom,
    };
    let source = RgbImage::from_raw(image.width, image.height, image.pixels.clone()).unwrap();
    let out = image::imageops::resize(&source, width, height, filter);
    RgbBytes { width, height, pixels: out.into_raw() }
}

/// The filter for resizing: bicubic unless a checkpoint names another one.
pub open spec fn filter_for(named: Option<Filter>) -> Filter {
    match named {
        Some(filter) => filter,
        None => Filter::CatmullRom,
    }
}

/// Decides on the filter for resizing.
pub fn resize_filter(named: Option<Filter>) -> (f: Filter)
    ensures
        f == filter_for(named),
{
    match named {
        Some(filter) => filter,
        None => Filter::CatmullRom,
    }
}

/// An image in the requested dimensions; one that has them is not resampled.
pub fn resized(image: &RgbBytes, height: u32, width: u32, named: Option<Filter>) -> (r: RgbBytes)
    requires
        image.wf(),
        resizable(image.width, image.height, width, height),
    ensures
        is_resampled(r, *image, width, height, filter_for(named)),
{
    resample(image, width, height, resize_filter(named))
}

/// Appends `bytes[from..to]` to `out`.
pub fn push_bytes(out: &mut Vec<u8>, bytes: &Vec<u8>, from: usize, to: usize)
    requires
        from <= to <= bytes.len(),
    ensures
        final(out)@ == old(out)@ + bytes@.subrange(from as int, to as int),
{
    let ghost start = out@;
    let mut i: usize = from;
    while i < to
        invariant
            from <= i <= to <= bytes.len(),
            out@ == start + bytes@.subrange(from as int, i as int),
        decreases to - i,
    {
        out.push(bytes[i]);
        i = i + 1;
        proof {
            assert(out@ =~= start + bytes@.subrange(from as int, i as int));
        }
    }
}

/// Where a row begins and ends inside an image of `h` rows of `w` bytes.
pub proof fn lemma_row_bounds(y: int, h: int, w: int)
    requires
        0 <= y < h,
        0 <= w,
    ensures
        0 <= y * w <= (y + 1) * w <= h * w,
        (y + 1) * w == y * w + w,
{
    assert(0 <= y * w <= (y + 1) * w <= h * w) by (nonlinear_arith)
        requires
            0 <= y < h,
            0 <= w,
    ;
    assert((y + 1) * w == y * w + w) by (nonlinear_arith);
}

/// The `width` by `height` part of an image whose top left corner is (`x`, `y`).
pub fn crop(image: &RgbBytes, x: u32, y: u32, width: u32, height: u32) -> (r: RgbBytes)
    requires
        image.wf(),
        x + width <= image.width,
        y + height <= image.height,
    ensures
        r.wf(),
        r.width == width,
        r.height == height,
        forall|i: int|
            0 <= i < height ==> #[trigger] r.row(i) == image.row(y + i).subrange(
                3 * x as int,
                3 * (x + width),
            ),
{
    let ghost w = 3 * width as int;
    let ghost stride = 3 * image.width as int;
    let mut pixels: Vec<u8> = Vec::new();
    let mut i: u32 = 0;
    proof {
        assert(0 * w == 0) by (nonlinear_arith);
    }
    while i < height
        invariant
            image.wf(),
            i <= height,
            x + width <= image.width,
            y + height <= image.height,
            w == 3 * width,
            stride == 3 * image.width,
            pixels@.len() == i * w,
            forall|k: int|
                0 <= k < i ==> pixels@.subrange(#[trigger] (k * w), (k + 1) * w) == image.row(
                    y + k,
                ).subrange(3 * x as int, 3 * (x + width)),
        decreases height - i,
    {
        proof {
            lemma_row_bounds(y + i, image.height as int, stride);
            assert(image.pixels@.len() == image.height as int * stride);
            assert(image.pixels.len() <= usize::MAX);
            assert(stride <= usize::MAX);
            assert((y + i) * stride <= usize::MAX);
            assert(pixels@.len() + w == (i + 1) * w) by (nonlinear_arith)
                requires
                    pixels@.len() == i * w,
            ;
        }
        let line: usize = (y as usize + i as usize) * (3 * (image.width as usize));
        let ghost before = pixels@;
        let from: usize = line + 3 * (x as usize);
        let to: usize = from + 3 * (width as usize);
        push_bytes(&mut pixels, &image.pixels, from, to);
        proof {
            let src = image.row(y + i).subrange(3 * x as int, 3 * (x + width));
            assert(src =~= image.pixels@.subrange(from as int, to as int));
            assert(pixels@.subrange(i * w, (i + 1) * w) =~= src);
            assert forall|k: int| 0 <= k < i + 1 implies pixels@.subrange(
                #[trigger] (k * w),
                (k + 1) * w,
            ) == image.row(y + k).subrange(3 * x as int, 3 * (x + width)) by {
                if k < i {
                    lemma_row_bounds(k, i as int, w);
                    assert(pixels@.subrange(k * w, (k + 1) * w) =~= before.subrange(
                        k * w,
                        (k + 1) * w,
                    ));
                }
            }
        }
        i = i + 1;
    }
    let r = RgbBytes { width, height, pixels };
    proof {
        assert forall|k: int| 0 <= k < height implies #[trigger] r.row(k) == image.row(
            y + k,
        ).subrange(3 * x as int, 3 * (x + width)) by {
            assert(r.row(k) == r.pixels@.subrange(k * w, (k + 1) * w));
        }
    }
    r
}

/// There are statistics for three channels.
pub open spec fn has_channels(mean: Seq<Float>, std: Seq<Float>) -> bool {
    mean.len() == 3 && std.len() == 3
}

/// Checks that there are statistics for three channels; others are an error of the
/// configuration.
pub fn validate_channels(model: &str, mean: &Vec<Float>, std: &Vec<Float>) -> (r: Result<(), Error>)
    ensures
        match r {
            Ok(_) => has_channels(mean@, std@),
            Err(e) => !has_channels(mean@, std@) && e@ is Config,
        },
{
    if mean.len() != 3 || std.len() != 3 {
        return Err(
            Message::new(model).text(": image_mean and image_std must have three entries").config(),
        );
    }
    Ok(())
}

/// No patch setting is zero.
pub open spec fn has_patches(
    patch_size: usize,
    merge_size: usize,
    temporal_patch_size: usize,
) -> bool {
    patch_size > 0 && merge_size > 0 && temporal_patch_size > 0
}

/// Checks that no patch setting is zero; one that is is an error of the configuration.
pub fn validate_patches(
    model: &str,
    patch_size: usize,
    merge_size: usize,
    temporal_patch_size: usize,
) -> (r: Result<(), Error>)
    ensures
        match r {
            Ok(_) => has_patches(patch_size, merge_size, temporal_patch_size),
            Err(e) => !has_patches(patch_size, merge_size, temporal_patch_size) && e@ is Config,
        },
{
    if patch_size == 0 || merge_size == 0 || temporal_patch_size == 0 {
        return Err(
            Message::new(model).text(
                ": patch_size, merge_size and temporal_patch_size must be non-zero",
            ).config(),
        );
    }
    Ok(())
}

/// Three bytes for each pixel make up a row, and the rows follow each other.
pub proof fn law_rows_follow_each_other(image: RgbBytes, x: int, y: int, channel: int)
    requires
        image.wf(),
        0 <= x < image.width,
        0 <= y < image.height,
        0 <= channel < 3,
    ensures
        image.row(y).len() == 3 * image.width,
        image.row(y)[3 * x + channel] == image.pixels@[(y * image.width + x) * 3 + channel],
{
    lemma_row_bounds(y, image.height as int, 3 * image.width as int);
    assert(y * (3 * image.width as int) + (3 * x + channel) == (y * image.width + x) * 3 + channel)
        by (nonlinear_arith);
}

/// A checkpoint that names a filter gets that one, and every other the bicubic one.
pub proof fn law_named_filter_is_used(filter: Filter)
    ensures
        filter_for(Some(filter)) == filter,
        filter_for(None) == Filter::CatmullRom,
{
}

/// Statistics are complete with one mean and one deviation for each of three channels.
pub proof fn law_each_channel_has_statistics(mean: Seq<Float>, std: Seq<Float>, extra: Float)
    requires
        has_channels(mean, std),
    ensures
        mean.len() == 3,
        std.len() == 3,
        !has_channels(mean.push(extra), std),
        !has_channels(mean, std.push(extra)),
        !has_channels(mean.drop_last(), std),
        !has_channels(mean, std.drop_last()),
{
}

/// An image can be resampled when no side, old or new, is too long, and what is computed
/// on the way and what comes out can be addressed.
pub proof fn law_resampling_has_room(from_width: u32, from_height: u32, width: u32, height: u32)
    requires
        resizable(from_width, from_height, width, height),
    ensures
        from_width <= LONGEST_SIDE,
        from_height <= LONGEST_SIDE,
        width <= LONGEST_SIDE,
        height <= LONGEST_SIDE,
        16 * (from_width * height) <= isize::MAX,
        3 * (width * height) <= isize::MAX,
{
}

/// A resampled image has the dimensions that were asked for; one that had them already
/// keeps all of its pixels.
pub proof fn law_image_of_the_right_size_is_kept(
    r: RgbBytes,
    image: RgbBytes,
    width: u32,
    height: u32,
    filter: Filter,
)
    requires
        is_resampled(r, image, width, height, filter),
    ensures
        r.width == width,
        r.height == height,
        r.pixels@.len() == (width * height) * 3,
        image.width == width && image.height == height ==> r.pixels@ == image.pixels@,
        resamplings(
            image.pixels@,
            image.width,
            image.height,
            width,
            height,
            filter,
        ).contains(r.pixels@),
{
    assert(height * (3 * width) == (width * height) * 3) by (nonlinear_arith);
}

} // verus!
