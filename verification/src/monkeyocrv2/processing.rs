//! From an image to a grid of patches.
use super::config::MonkeyOcrV2ImageProcessorConfig;
use crate::error::{self, Error, ErrorView, Fault, Message};
use crate::patches::{self, PatchPlan};
use crate::text;
use vstd::prelude::*;

verus! {

/// The pixels along one side of a block of patches, as 32 bits hold them.
pub open spec fn factor_of(cfg: MonkeyOcrV2ImageProcessorConfig) -> int {
    (cfg.patch_size * cfg.merge_size) % 0x1_0000_0000
}

/// Whether `n` is a multiple of `d`; only zero is a multiple of zero.
pub open spec fn multiple32(n: u32, d: u32) -> bool {
    if d == 0 {
        n == 0
    } else {
        n % d == 0
    }
}

/// The least area of a region: that of the configuration, or a larger one that a
/// task asks for, within the greatest area.
pub fn min_pixels(cfg: &MonkeyOcrV2ImageProcessorConfig, asked: Option<u32>) -> (m: u32)
    ensures
        m == match asked {
            None => cfg.min_pixels,
            Some(p) => {
                let wanted = if p > cfg.min_pixels {
                    p
                } else {
                    cfg.min_pixels
                };
                if wanted > cfg.max_pixels {
                    cfg.max_pixels
                } else {
                    wanted
                }
            },
        },
{
    let mut m: u32 = cfg.min_pixels;
    if let Some(p) = asked {
        if p > m {
            m = p;
        }
        if m > cfg.max_pixels {
            m = cfg.max_pixels;
        }
    }
    m
}

/// What an image is cut into, or the first thing wrong with it and the
/// configuration.
pub open spec fn factor_for(
    cfg: MonkeyOcrV2ImageProcessorConfig,
    width: u32,
    height: u32,
) -> Result<u32, Fault> {
    let factor = factor_of(cfg);
    let f = factor as u32;
    if cfg.problem() is Some {
        Err(cfg.problem()->Some_0)
    } else if width == 0 || height == 0 {
        Err(Fault::Told(ErrorView::InvalidInput("MonkeyOCRv2 cannot process an empty image"@)))
    } else if !cfg.do_resize && (height < factor || width < factor) {
        Err(
            Fault::Told(ErrorView::InvalidInput(
                "MonkeyOCRv2 image dimensions must be at least "@ + text::dec(factor as nat)
                    + "x"@ + text::dec(factor as nat) + ", got "@ + text::dec(width as nat) + "x"@
                    + text::dec(height as nat),
            )),
        )
    } else if !cfg.do_resize && (!multiple32(height, f) || !multiple32(width, f)) {
        Err(
            Fault::Told(ErrorView::InvalidInput(
                "MonkeyOCRv2 image dimensions must be divisible by "@ + text::dec(factor as nat)
                    + " when resizing is disabled, got "@ + text::dec(width as nat) + "x"@
                    + text::dec(height as nat),
            )),
        )
    } else {
        Ok(f)
    }
}

/// Decides [`multiple32`].
fn is_multiple32(n: u32, d: u32) -> (r: bool)
    ensures
        r == multiple32(n, d),
{
    if d == 0 {
        n == 0
    } else {
        n % d == 0
    }
}

/// Checks an image and the configuration, and gives the number that the resized
/// dimensions have to be multiples of.
pub fn check_image(cfg: &MonkeyOcrV2ImageProcessorConfig, width: u32, height: u32) -> (r: Result<
    u32,
    Error,
>)
    requires
        cfg.patch_size * cfg.merge_size <= usize::MAX,
    ensures
        error::reports(r, factor_for(*cfg, width, height)),
{
    if let Err(e) = cfg.validate() {
        return Err(e);
    }
    if width == 0 || height == 0 {
        return Err(Error::invalid_input("MonkeyOCRv2 cannot process an empty image"));
    }
    let product: usize = cfg.patch_size * cfg.merge_size;
    let factor: u32 = (product as u64 % 0x1_0000_0000) as u32;
    if !cfg.do_resize && (height < factor || width < factor) {
        return Err(
            Message::new("MonkeyOCRv2 image dimensions must be at least ").num(
                factor as u64,
            ).text("x").num(factor as u64).text(", got ").num(width as u64).text("x").num(
                height as u64,
            ).invalid_input(),
        );
    }
    if !cfg.do_resize && (!is_multiple32(height, factor) || !is_multiple32(width, factor)) {
        return Err(
            Message::new("MonkeyOCRv2 image dimensions must be divisible by ").num(
                factor as u64,
            ).text(" when resizing is disabled, got ").num(width as u64).text("x").num(
                height as u64,
            ).invalid_input(),
        );
    }
    Ok(factor)
}

/// Cuts a resized image into patches.
pub fn plan_patches(
    cfg: &MonkeyOcrV2ImageProcessorConfig,
    resized_height: u32,
    resized_width: u32,
) -> (r: Result<PatchPlan, Error>)
    requires
        cfg.patch_size > 0,
        cfg.merge_size > 0,
        resized_height * resized_width <= usize::MAX,
        cfg.merge_size * cfg.merge_size <= usize::MAX,
        3 * cfg.temporal_patch_size <= usize::MAX,
        3 * cfg.temporal_patch_size * cfg.patch_size <= usize::MAX,
        3 * cfg.temporal_patch_size * cfg.patch_size * cfg.patch_size <= usize::MAX,
    ensures
        ({
            let h = resized_height as int / cfg.patch_size as int;
            let w = resized_width as int / cfg.patch_size as int;
            let m = cfg.merge_size as int;
            if h % m != 0 || w % m != 0 {
                r matches Err(e) && e@ == ErrorView::Config(
                    "MonkeyOCRv2 resized grid "@ + text::dec(h as nat) + "x"@ + text::dec(
                        w as nat,
                    ) + " is not divisible by merge_size "@ + text::dec(m as nat),
                )
            } else {
                r matches Ok(plan) && patches::is_patch_plan(
                    plan,
                    cfg.patch_size as int,
                    m,
                    3 * cfg.temporal_patch_size * cfg.patch_size * cfg.patch_size,
                    resized_height as int,
                    resized_width as int,
                )
            }
        }),
{
    let grid_h: usize = resized_height as usize / cfg.patch_size;
    let grid_w: usize = resized_width as usize / cfg.patch_size;
    if grid_h % cfg.merge_size != 0 || grid_w % cfg.merge_size != 0 {
        return Err(
            Message::new("MonkeyOCRv2 resized grid ").num(grid_h as u64).text("x").num(
                grid_w as u64,
            ).text(" is not divisible by merge_size ").num(cfg.merge_size as u64).config(),
        );
    }
    let patch_dim: usize = 3 * cfg.temporal_patch_size * cfg.patch_size * cfg.patch_size;
    Ok(
        patches::plan_patches(
            cfg.patch_size,
            cfg.merge_size,
            patch_dim,
            resized_height,
            resized_width,
        ),
    )
}

/// An image that is not resized is cut into whole blocks.
pub proof fn law_accepted_image_fills_its_grid(
    cfg: MonkeyOcrV2ImageProcessorConfig,
    width: u32,
    height: u32,
)
    requires
        cfg.patch_size * cfg.merge_size <= u32::MAX,
        !cfg.do_resize,
        factor_for(cfg, width, height) is Ok,
    ensures
        (height as int / cfg.patch_size as int) % (cfg.merge_size as int) == 0,
        (width as int / cfg.patch_size as int) % (cfg.merge_size as int) == 0,
{
    let p = cfg.patch_size as int;
    let m = cfg.merge_size as int;
    assert(p * m > 0) by (nonlinear_arith)
        requires
            p > 0,
            m > 0,
    ;
    vstd::arithmetic::div_mod::lemma_small_mod((p * m) as nat, 0x1_0000_0000);
    patches::lemma_blocks(height as int, p, m);
    patches::lemma_blocks(width as int, p, m);
}

/// An image is accepted when the settings are sound, it is not empty and, unless it is
/// resized, each of its sides is made of whole blocks of patches.
pub proof fn law_image_is_resized_or_made_of_blocks(
    cfg: MonkeyOcrV2ImageProcessorConfig,
    width: u32,
    height: u32,
)
    requires
        0 < cfg.patch_size * cfg.merge_size <= u32::MAX,
    ensures
        match factor_for(cfg, width, height) {
            Ok(factor) => {
                &&& factor == cfg.patch_size * cfg.merge_size
                &&& cfg.problem() is None
                &&& width > 0
                &&& height > 0
                &&& cfg.do_resize || width % factor == 0 && height % factor == 0
            },
            Err(_) => {
                ||| cfg.problem() is Some
                ||| width == 0
                ||| height == 0
                ||| !cfg.do_resize && (width as int % (cfg.patch_size * cfg.merge_size) != 0
                    || height as int % (cfg.patch_size * cfg.merge_size) != 0)
            },
        },
{
    let factor = cfg.patch_size * cfg.merge_size;
    vstd::arithmetic::div_mod::lemma_small_mod(factor as nat, 0x1_0000_0000);
    assert(factor_of(cfg) == factor);
    if height < factor {
        vstd::arithmetic::div_mod::lemma_small_mod(height as nat, factor as nat);
    }
    if width < factor {
        vstd::arithmetic::div_mod::lemma_small_mod(width as nat, factor as nat);
    }
}

} // verus!
