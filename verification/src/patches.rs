//! Cutting an image into patches.
use crate::error::{self, Error, ErrorView, Message};
use crate::text;
use vstd::arithmetic::div_mod;
use vstd::prelude::*;

verus! {

/// An image cut into patches.
#[derive(Debug, Clone, Copy)]
pub struct PatchPlan {
    pub grid_thw: (usize, usize, usize),
    pub patch_dim: usize,
    pub num_patches: usize,
    pub num_image_tokens: usize,
}

/// The patches of `patch` by `patch` pixels and `dim` values of an image, of which
/// each block of `merge` by `merge` becomes one image token.
pub open spec fn is_patch_plan(
    plan: PatchPlan,
    patch: int,
    merge: int,
    dim: int,
    height: int,
    width: int,
) -> bool {
    let h = height / patch;
    let w = width / patch;
    &&& plan.grid_thw.0 == 1
    &&& plan.grid_thw.1 == h
    &&& plan.grid_thw.2 == w
    &&& plan.num_patches == h * w
    &&& plan.patch_dim == dim
    &&& plan.num_image_tokens == (h * w) / (merge * merge)
}

/// Where the dimensions are multiples of patches and blocks, the patches fill
/// blocks.
pub proof fn lemma_blocks(size: int, patch: int, merge: int)
    requires
        patch > 0,
        merge > 0,
        size >= 0,
        size % (patch * merge) == 0,
    ensures
        (size / patch) % merge == 0,
        size / patch == (size / (patch * merge)) * merge,
{
    assert(patch * merge > 0) by (nonlinear_arith)
        requires
            patch > 0,
            merge > 0,
    ;
    let q = size / (patch * merge);
    div_mod::lemma_fundamental_div_mod(size, patch * merge);
    assert(size == (q * merge) * patch + 0) by (nonlinear_arith)
        requires
            size == (patch * merge) * q,
    ;
    div_mod::lemma_fundamental_div_mod_converse(size, patch, q * merge, 0);
    div_mod::lemma_fundamental_div_mod_converse(q * merge, merge, q, 0);
}

/// Cuts an image into patches.
pub fn plan_patches(
    patch_size: usize,
    merge_size: usize,
    patch_dim: usize,
    height: u32,
    width: u32,
) -> (plan: PatchPlan)
    requires
        patch_size > 0,
        merge_size > 0,
        height * width <= usize::MAX,
        merge_size * merge_size <= usize::MAX,
    ensures
        is_patch_plan(
            plan,
            patch_size as int,
            merge_size as int,
            patch_dim as int,
            height as int,
            width as int,
        ),
{
    let grid_h: usize = height as usize / patch_size;
    let grid_w: usize = width as usize / patch_size;
    proof {
        let p = patch_size as int;
        assert(grid_h <= height && grid_w <= width) by {
            div_mod::lemma_div_is_ordered_by_denominator(height as int, 1, p);
            div_mod::lemma_div_is_ordered_by_denominator(width as int, 1, p);
        }
        assert(grid_h * grid_w <= height * width) by (nonlinear_arith)
            requires
                0 <= grid_h <= height,
                0 <= grid_w <= width,
        ;
        assert(merge_size * merge_size > 0) by (nonlinear_arith)
            requires
                merge_size > 0,
        ;
    }
    let num_patches: usize = grid_h * grid_w;
    let num_image_tokens: usize = num_patches / (merge_size * merge_size);
    PatchPlan { grid_thw: (1, grid_h, grid_w), patch_dim, num_patches, num_image_tokens }
}

/// Every image token stands for one block of patches, and together they stand for
/// all of them.
pub proof fn law_tokens_cover_the_patches(
    plan: PatchPlan,
    patch: int,
    merge: int,
    dim: int,
    height: int,
    width: int,
)
    requires
        patch > 0,
        merge > 0,
        height >= 0,
        width >= 0,
        height % (patch * merge) == 0,
        width % (patch * merge) == 0,
        is_patch_plan(plan, patch, merge, dim, height, width),
    ensures
        plan.num_image_tokens * (merge * merge) == plan.num_patches,
        plan.num_image_tokens == (plan.grid_thw.1 as int / merge) * (plan.grid_thw.2 as int
            / merge),
{
    lemma_blocks(height, patch, merge);
    lemma_blocks(width, patch, merge);
    let a = height / (patch * merge);
    let b = width / (patch * merge);
    let h = height / patch;
    let w = width / patch;
    assert(h * w == (a * b) * (merge * merge)) by (nonlinear_arith)
        requires
            h == a * merge,
            w == b * merge,
    ;
    assert(merge * merge > 0) by (nonlinear_arith)
        requires
            merge > 0,
    ;
    div_mod::lemma_fundamental_div_mod_converse(h * w, merge * merge, a * b, 0);
    div_mod::lemma_fundamental_div_mod_converse(h, merge, a, 0);
    div_mod::lemma_fundamental_div_mod_converse(w, merge, b, 0);
}

/// Checks the number of values that were cut out of an image.
pub fn check_patch_values(model: &str, plan: &PatchPlan, values: usize) -> (r: Result<(), Error>)
    requires
        plan.num_patches * plan.patch_dim <= usize::MAX,
    ensures
        error::verdict(
            if values != plan.num_patches * plan.patch_dim {
                Some(
                    ErrorView::InvalidInput(
                        model@ + " patch extraction produced "@ + text::dec(values as nat)
                            + " values, expected "@ + text::dec(
                            (plan.num_patches * plan.patch_dim) as nat,
                        ),
                    ),
                )
            } else {
                None
            },
            r,
        ),
{
    let expected: usize = plan.num_patches * plan.patch_dim;
    if values != expected {
        return Err(
            Message::new(model).text(" patch extraction produced ").num(values as u64).text(
                " values, expected ",
            ).num(expected as u64).invalid_input(),
        );
    }
    Ok(())
}

/// An image of `rows` by `cols` blocks of patches has one frame, a patch for each
/// square of pixels and a token for each block.
pub proof fn law_plan_counts_patches_and_blocks(
    plan: PatchPlan,
    patch: int,
    merge: int,
    dim: int,
    rows: int,
    cols: int,
)
    requires
        patch > 0,
        merge > 0,
        rows >= 0,
        cols >= 0,
        is_patch_plan(plan, patch, merge, dim, rows * merge * patch, cols * merge * patch),
    ensures
        plan.grid_thw.0 == 1,
        plan.grid_thw.1 == rows * merge,
        plan.grid_thw.2 == cols * merge,
        plan.num_patches == (rows * merge) * (cols * merge),
        plan.patch_dim == dim,
        plan.num_image_tokens == rows * cols,
{
    let h = rows * merge;
    let w = cols * merge;
    vstd::arithmetic::div_mod::lemma_fundamental_div_mod_converse(h * patch, patch, h, 0);
    vstd::arithmetic::div_mod::lemma_fundamental_div_mod_converse(w * patch, patch, w, 0);
    assert(h * w == (rows * cols) * (merge * merge)) by (nonlinear_arith)
        requires
            h == rows * merge,
            w == cols * merge,
    ;
    assert(merge * merge > 0) by (nonlinear_arith)
        requires
            merge > 0,
    ;
    vstd::arithmetic::div_mod::lemma_fundamental_div_mod_converse(
        h * w,
        merge * merge,
        rows * cols,
        0,
    );
}

} // verus!
