//! The vision tower: its patches and the order in which its outputs are merged.
use crate::error::{self, Error, ErrorView, Message};
use crate::grid;
use crate::text;
use vstd::prelude::*;

verus! {

/// Checks the number of patches of a tile.
pub fn validate_patch_count(patch_count: usize, grid_size: usize) -> (r: Result<(), Error>)
    requires
        grid_size * grid_size <= usize::MAX,
    ensures
        error::verdict(
            if patch_count != grid_size * grid_size {
                Some(
                    ErrorView::InvalidInput(
                        "HPD-Parsing received "@ + text::dec(patch_count as nat)
                            + " patches per tile, expected "@ + text::dec(
                            (grid_size * grid_size) as nat,
                        ),
                    ),
                )
            } else {
                None
            },
            r,
        ),
{
    let expected: usize = grid_size * grid_size;
    if patch_count != expected {
        return Err(
            Message::new("HPD-Parsing received ").num(patch_count as u64).text(
                " patches per tile, expected ",
            ).num(expected as u64).invalid_input(),
        );
    }
    Ok(())
}

/// The patch whose output stands at place `k` when the outputs of a square tile are
/// merged in blocks of `downsample` by `downsample`.
pub open spec fn shuffled(k: int, grid_size: int, downsample: int) -> int {
    let (row, col) = grid::cell(k, grid_size, downsample);
    row * grid_size + col
}

/// The patches of a tile in the order in which their outputs are merged: as many
/// neighbours as a block holds make up one image token.
pub fn shuffled_patches(grid_size: usize, downsample: usize) -> (order: Vec<usize>)
    requires
        downsample > 0,
        grid_size > 0,
        grid_size % downsample == 0,
        grid_size * grid_size <= usize::MAX,
    ensures
        order.len() == grid_size * grid_size,
        forall|k: int|
            0 <= k < order.len() ==> #[trigger] order[k] == shuffled(
                k,
                grid_size as int,
                downsample as int,
            ),
        forall|k: int| 0 <= k < order.len() ==> #[trigger] order[k] < grid_size * grid_size,
{
    proof {
        assert(1 * grid_size * grid_size == grid_size * grid_size) by (nonlinear_arith);
    }
    let cells = grid::merge_grouped(1, grid_size, grid_size, downsample);
    let mut order: Vec<usize> = Vec::new();
    let mut k: usize = 0;
    while k < cells.len()
        invariant
            k <= cells.len(),
            cells.len() == grid_size * grid_size,
            grid_size > 0,
            downsample > 0,
            grid_size % downsample == 0,
            grid_size * grid_size <= usize::MAX,
            forall|j: int|
                #![trigger cells[j]]
                0 <= j < cells.len() ==> cells[j].0 == grid::cell(
                    j % (grid_size * grid_size),
                    grid_size as int,
                    downsample as int,
                ).0 && cells[j].1 == grid::cell(
                    j % (grid_size * grid_size),
                    grid_size as int,
                    downsample as int,
                ).1,
            order.len() == k,
            forall|j: int|
                0 <= j < k ==> #[trigger] order[j] == shuffled(
                    j,
                    grid_size as int,
                    downsample as int,
                ),
            forall|j: int| 0 <= j < k ==> #[trigger] order[j] < grid_size * grid_size,
        decreases cells.len() - k,
    {
        let (row, col): (usize, usize) = cells[k];
        proof {
            let n = grid_size as int;
            vstd::arithmetic::div_mod::lemma_small_mod(k as nat, (n * n) as nat);
            grid::law_reading_visits_each_place(k as int, n, n, downsample as int);
            assert(0 <= row * n && row * n + col < n * n) by (nonlinear_arith)
                requires
                    0 <= row <= n - 1,
                    0 <= col <= n - 1,
            ;
        }
        order.push(row * grid_size + col);
        k = k + 1;
    }
    order
}

/// Merging loses no patch: each stands at exactly one place.
pub proof fn law_every_patch_is_merged_once(row: int, col: int, grid_size: int, downsample: int)
    requires
        downsample > 0,
        grid_size % downsample == 0,
        0 <= row < grid_size,
        0 <= col < grid_size,
    ensures
        ({
            let k = grid::reading_place(row, col, grid_size, downsample);
            &&& 0 <= k < grid_size * grid_size
            &&& shuffled(k, grid_size, downsample) == row * grid_size + col
        }),
        forall|j: int|
            0 <= j < grid_size * grid_size && #[trigger] shuffled(j, grid_size, downsample) == row
                * grid_size + col ==> j == grid::reading_place(row, col, grid_size, downsample),
{
    grid::law_reading_misses_no_cell(row, col, grid_size, grid_size, downsample);
    assert forall|j: int|
        0 <= j < grid_size * grid_size && #[trigger] shuffled(j, grid_size, downsample) == row
            * grid_size + col implies j == grid::reading_place(
        row,
        col,
        grid_size,
        downsample,
    ) by {
        grid::law_reading_visits_each_place(j, grid_size, grid_size, downsample);
        let (r, c) = grid::cell(j, grid_size, downsample);
        crate::numbers::lemma_parts(r, c, grid_size);
        crate::numbers::lemma_parts(row, col, grid_size);
    }
}

/// The outputs of a block of neighbouring patches stand side by side, row by row, and
/// the blocks follow each other from left to right and from top to bottom.
pub proof fn law_neighbours_are_merged(
    block_row: int,
    block_col: int,
    r: int,
    c: int,
    blocks: int,
    downsample: int,
)
    requires
        downsample > 0,
        0 <= block_row,
        0 <= block_col < blocks,
        0 <= r < downsample,
        0 <= c < downsample,
    ensures
        shuffled(
            (block_row * blocks + block_col) * (downsample * downsample) + (r * downsample + c),
            blocks * downsample,
            downsample,
        ) == (block_row * downsample + r) * (blocks * downsample) + (block_col * downsample + c),
{
    grid::law_reading_goes_block_by_block(block_row, block_col, r, c, blocks, downsample);
}

} // verus!
