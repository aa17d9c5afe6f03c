//! From a page image to a grid of patches.
use super::config::{OvisOcr2ImageProcessorConfig, OvisOcr2VisionConfig};
use crate::error::{self, Error, ErrorView, Fault, Message};
use crate::patches::{self, PatchPlan};
use crate::text;
use vstd::prelude::*;

verus! {

/// The first setting on which the image processor and the vision tower disagree.
pub open spec fn mismatch(
    cfg: OvisOcr2ImageProcessorConfig,
    vision: OvisOcr2VisionConfig,
) -> Option<ErrorView> {
    if cfg.patch_size != vision.patch_size {
        Some(
            ErrorView::Config(
                "OvisOCR2 patch_size mismatch: processor "@ + text::dec(cfg.patch_size as nat)
                    + " != vision "@ + text::dec(vision.patch_size as nat),
            ),
        )
    } else if cfg.temporal_patch_size != vision.temporal_patch_size {
        Some(
            ErrorView::Config(
                "OvisOCR2 temporal_patch_size mismatch: processor "@ + text::dec(
                    cfg.temporal_patch_size as nat,
                ) + " != vision "@ + text::dec(vision.temporal_patch_size as nat),
            ),
        )
    } else if cfg.merge_size != vision.spatial_merge_size {
        Some(
            ErrorView::Config(
                "OvisOCR2 merge_size mismatch: processor "@ + text::dec(cfg.merge_size as nat)
                    + " != vision "@ + text::dec(vision.spatial_merge_size as nat),
            ),
        )
    } else if vision.in_channels != 3 {
        Some(
            ErrorView::Config(
                "OvisOCR2 image preprocessing supports three RGB channels, got "@ + text::dec(
                    vision.in_channels as nat,
                ),
            ),
        )
    } else {
        None
    }
}

/// Checks that the image processor and the vision tower agree.
pub fn validate_processor_vision_compatibility(
    cfg: &OvisOcr2ImageProcessorConfig,
    vision_cfg: &OvisOcr2VisionConfig,
) -> (r: Result<(), Error>)
    ensures
        error::verdict(mismatch(*cfg, *vision_cfg), r),
{
    if cfg.patch_size != vision_cfg.patch_size {
        return Err(
            Message::new("OvisOCR2 patch_size mismatch: processor ").num(
                cfg.patch_size as u64,
            ).text(" != vision ").num(vision_cfg.patch_size as u64).config(),
        );
    }
    if cfg.temporal_patch_size != vision_cfg.temporal_patch_size {
        return Err(
            Message::new("OvisOCR2 temporal_patch_size mismatch: processor ").num(
                cfg.temporal_patch_size as u64,
            ).text(" != vision ").num(vision_cfg.temporal_patch_size as u64).config(),
        );
    }
    if cfg.merge_size != vision_cfg.spatial_merge_size {
        return Err(
            Message::new("OvisOCR2 merge_size mismatch: processor ").num(
                cfg.merge_size as u64,
            ).text(" != vision ").num(vision_cfg.spatial_merge_size as u64).config(),
        );
    }
    if vision_cfg.in_channels != 3 {
        return Err(
            Message::new("OvisOCR2 image preprocessing supports three RGB channels, got ").num(
                vision_cfg.in_channels as u64,
            ).config(),
        );
    }
    Ok(())
}

/// What the dimensions of a page have to become.
#[derive(Debug, Clone, Copy, PartialEq, Eq, Structural)]
pub struct ResizeRequest {
    pub height: u32,
    pub width: u32,
    /// The dimensions have to be multiples of this.
    pub factor: u32,
    pub min_pixels: u32,
    pub max_pixels: u32,
    /// Whether the dimensions may change at all.
    pub resize: bool,
}

/// The request for a page, or the first thing wrong with it and the configuration.
pub open spec fn resize_request(
    cfg: OvisOcr2ImageProcessorConfig,
    vision: OvisOcr2VisionConfig,
    width: u32,
    height: u32,
) -> Result<ResizeRequest, Fault> {
    let factor = cfg.patch_size * cfg.merge_size;
    if cfg.problem() is Some {
        Err(cfg.problem()->0)
    } else if vision.problem() is Some {
        Err(Fault::Told(vision.problem()->0))
    } else if mismatch(cfg, vision) is Some {
        Err(Fault::Told(mismatch(cfg, vision)->0))
    } else if factor > u32::MAX || factor > usize::MAX {
        Err(Fault::Told(ErrorView::Config("OvisOCR2 patch/merge factor overflow"@)))
    } else if height == 0 || width == 0 {
        Err(
            Fault::Told(ErrorView::InvalidInput(
                "OvisOCR2 input image must be non-empty, got "@ + text::dec(width as nat) + "x"@
                    + text::dec(height as nat),
            )),
        )
    } else {
        Ok(
            ResizeRequest {
                height,
                width,
                factor: factor as u32,
                min_pixels: 200_704,
                max_pixels: 8_294_400,
                resize: cfg.do_resize,
            },
        )
    }
}

/// Checks a page and the configuration.
pub fn request_resize(
    cfg: &OvisOcr2ImageProcessorConfig,
    vision_cfg: &OvisOcr2VisionConfig,
    width: u32,
    height: u32,
) -> (r: Result<ResizeRequest, Error>)
    ensures
        error::reports(r, resize_request(*cfg, *vision_cfg, width, height)),
        r matches Ok(request) ==> request.factor > 0,
{
    if let Err(e) = cfg.validate() {
        return Err(e);
    }
    if let Err(e) = vision_cfg.validate() {
        return Err(e);
    }
    if let Err(e) = validate_processor_vision_compatibility(cfg, vision_cfg) {
        return Err(e);
    }
    let product: Option<usize> = cfg.patch_size.checked_mul(cfg.merge_size);
    let factor: u32 = match product {
        Some(factor) if factor <= 0xffff_ffff => factor as u32,
        _ => return Err(Error::config("OvisOCR2 patch/merge factor overflow")),
    };
    proof {
        assert(factor > 0) by (nonlinear_arith)
            requires
                factor == cfg.patch_size * cfg.merge_size,
                cfg.patch_size > 0,
                cfg.merge_size > 0,
        ;
    }
    let (min_pixels, max_pixels): (u32, u32) = cfg.runtime_pixel_bounds();
    if height == 0 || width == 0 {
        return Err(
            Message::new("OvisOCR2 input image must be non-empty, got ").num(width as u64).text(
                "x",
            ).num(height as u64).invalid_input(),
        );
    }
    Ok(ResizeRequest { height, width, factor, min_pixels, max_pixels, resize: cfg.do_resize })
}

/// Both dimensions are multiples of `factor`.
pub open spec fn divides(factor: u32, height: u32, width: u32) -> bool {
    height % factor == 0 && width % factor == 0
}

/// Cuts a resized page into patches.
pub fn plan_patches(
    cfg: &OvisOcr2ImageProcessorConfig,
    in_channels: usize,
    factor: u32,
    resized_height: u32,
    resized_width: u32,
) -> (r: Result<PatchPlan, Error>)
    requires
        cfg.patch_size > 0,
        cfg.merge_size > 0,
        factor == cfg.patch_size * cfg.merge_size,
        resized_height * resized_width <= usize::MAX,
        in_channels * cfg.temporal_patch_size <= usize::MAX,
        in_channels * cfg.temporal_patch_size * cfg.patch_size <= usize::MAX,
        in_channels * cfg.temporal_patch_size * cfg.patch_size * cfg.patch_size <= usize::MAX,
        cfg.merge_size * cfg.merge_size <= usize::MAX,
    ensures
        match r {
            Ok(plan) => {
                &&& divides(factor, resized_height, resized_width)
                &&& patches::is_patch_plan(
                    plan,
                    cfg.patch_size as int,
                    cfg.merge_size as int,
                    in_channels * cfg.temporal_patch_size * cfg.patch_size * cfg.patch_size,
                    resized_height as int,
                    resized_width as int,
                )
                &&& plan.grid_thw.1 % cfg.merge_size == 0
                &&& plan.grid_thw.2 % cfg.merge_size == 0
            },
            Err(e) => {
                &&& !divides(factor, resized_height, resized_width)
                &&& e@ == ErrorView::InvalidInput(
                    "OvisOCR2 preprocessed dimensions "@ + text::dec(resized_height as nat) + "x"@
                        + text::dec(resized_width as nat) + " must be divisible by "@ + text::dec(
                        factor as nat,
                    ),
                )
            },
        },
{
    proof {
        assert(factor > 0) by (nonlinear_arith)
            requires
                factor == cfg.patch_size * cfg.merge_size,
                cfg.patch_size > 0,
                cfg.merge_size > 0,
        ;
    }
    if resized_height % factor != 0 || resized_width % factor != 0 {
        return Err(
            Message::new("OvisOCR2 preprocessed dimensions ").num(resized_height as u64).text(
                "x",
            ).num(resized_width as u64).text(" must be divisible by ").num(
                factor as u64,
            ).invalid_input(),
        );
    }
    proof {
        patches::lemma_blocks(resized_height as int, cfg.patch_size as int, cfg.merge_size as int);
        patches::lemma_blocks(resized_width as int, cfg.patch_size as int, cfg.merge_size as int);
    }
    let patch_dim: usize = in_channels * cfg.temporal_patch_size * cfg.patch_size * cfg.patch_size;
    Ok(
        patches::plan_patches(
            cfg.patch_size,
            cfg.merge_size,
            patch_dim,
            resized_height,
            resized_width,
        ),
    )
}

/// The image processor and the vision tower agree when they cut the same patches, in
/// space and in time, merge the same blocks, and the tower takes three channels.
pub proof fn law_agreement_is_on_patches_and_channels(
    cfg: OvisOcr2ImageProcessorConfig,
    vision: OvisOcr2VisionConfig,
)
    ensures
        mismatch(cfg, vision) is None <==> {
            &&& cfg.patch_size == vision.patch_size
            &&& cfg.temporal_patch_size == vision.temporal_patch_size
            &&& cfg.merge_size == vision.spatial_merge_size
            &&& vision.in_channels == 3
        },
{
}

/// A page that is accepted is asked for in its own dimensions, in whole blocks of
/// patches, with an area between those of squares of 448 and of 2880 pixels.
pub proof fn law_request_keeps_the_page(
    cfg: OvisOcr2ImageProcessorConfig,
    vision: OvisOcr2VisionConfig,
    width: u32,
    height: u32,
)
    ensures
        match resize_request(cfg, vision, width, height) {
            Ok(request) => {
                &&& request.height == height > 0
                &&& request.width == width > 0
                &&& request.factor == cfg.patch_size * cfg.merge_size
                &&& request.min_pixels == 448 * 448
                &&& request.max_pixels == 2880 * 2880
                &&& request.resize == cfg.do_resize
                &&& cfg.problem() is None
                &&& vision.problem() is None
                &&& mismatch(cfg, vision) is None
            },
            Err(_) => {
                ||| cfg.problem() is Some
                ||| vision.problem() is Some
                ||| mismatch(cfg, vision) is Some
                ||| cfg.patch_size * cfg.merge_size > u32::MAX
                ||| width == 0
                ||| height == 0
            },
        },
{
}

/// A page is cut into whole blocks when each of its sides is some number of blocks.
pub proof fn law_whole_blocks_fill_a_page(factor: u32, rows: int, cols: int, height: u32, width: u32)
    requires
        factor > 0,
    ensures
        height == rows * factor && width == cols * factor ==> divides(factor, height, width),
        divides(factor, height, width) ==> height == (height / factor) * factor && width == (width
            / factor) * factor,
{
    if height == rows * factor && width == cols * factor {
        vstd::arithmetic::div_mod::lemma_mod_multiples_basic(rows, factor as int);
        vstd::arithmetic::div_mod::lemma_mod_multiples_basic(cols, factor as int);
    }
    vstd::arithmetic::div_mod::lemma_fundamental_div_mod(height as int, factor as int);
    vstd::arithmetic::div_mod::lemma_fundamental_div_mod(width as int, factor as int);
    assert(factor as int * (height as int / factor as int) == (height as int / factor as int)
        * factor as int) by (nonlinear_arith);
    assert(factor as int * (width as int / factor as int) == (width as int / factor as int)
        * factor as int) by (nonlinear_arith);
}

/// A disagreement is told as a fault of the configuration, and an empty page as one of
/// the request.
pub proof fn law_faults_are_told_apart(
    cfg: OvisOcr2ImageProcessorConfig,
    vision: OvisOcr2VisionConfig,
    width: u32,
    height: u32,
)
    ensures
        mismatch(cfg, vision) matches Some(e) ==> e is Config,
        cfg.problem() is None && vision.problem() is None && mismatch(cfg, vision) is None
            && cfg.patch_size * cfg.merge_size <= u32::MAX && cfg.patch_size * cfg.merge_size
            <= usize::MAX ==> (resize_request(cfg, vision, width, height) matches Err(fault)
            ==> fault matches Fault::Told(e) && e is InvalidInput),
{
}

} // verus!
