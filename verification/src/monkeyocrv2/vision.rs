//! The vision tower's grids.
use crate::error::{self, Error, ErrorView, Message};
use crate::grid;
use crate::numbers;
use crate::text;
use vstd::prelude::*;

verus! {

/// The first thing wrong with the patches of an image.
pub open spec fn grid_problem(
    grid: (usize, usize, usize),
    merge: usize,
    patches: usize,
) -> Option<ErrorView> {
    let area = grid.1 * grid.2;
    if grid.0 != 1 || grid.1 == 0 || grid.2 == 0 || !numbers::multiple(grid.1, merge)
        || !numbers::multiple(grid.2, merge) {
        Some(
            ErrorView::InvalidInput(
                "MonkeyOCRv2 invalid image grid "@ + text::dec_triple(grid) + " for merge_size "@
                    + text::dec(merge as nat),
            ),
        )
    } else if patches != area {
        Some(
            ErrorView::InvalidInput(
                "MonkeyOCRv2 pixel patch count "@ + text::dec(patches as nat)
                    + " does not match grid "@ + text::dec_triple(grid) + " ("@ + text::dec(
                    area as nat,
                ) + ")"@,
            ),
        )
    } else {
        None
    }
}

/// Checks the patches of an image against their grid.
pub fn validate_grid(grid_thw: (usize, usize, usize), merge_size: usize, patches: usize) -> (r: Result<
    (),
    Error,
>)
    requires
        grid_thw.1 * grid_thw.2 <= usize::MAX,
    ensures
        error::verdict(grid_problem(grid_thw, merge_size, patches), r),
{
    if grid_thw.0 != 1 || grid_thw.1 == 0 || grid_thw.2 == 0 || !numbers::is_multiple(
        grid_thw.1,
        merge_size,
    ) || !numbers::is_multiple(grid_thw.2, merge_size) {
        return Err(
            Message::new("MonkeyOCRv2 invalid image grid ").triple(grid_thw).text(
                " for merge_size ",
            ).num(merge_size as u64).invalid_input(),
        );
    }
    let expected: usize = grid_thw.1 * grid_thw.2;
    if patches != expected {
        return Err(
            Message::new("MonkeyOCRv2 pixel patch count ").num(patches as u64).text(
                " does not match grid ",
            ).triple(grid_thw).text(" (").num(expected as u64).text(")").invalid_input(),
        );
    }
    Ok(())
}

/// The number of image embeddings that the merger makes of an image's patches.
pub fn merged_len(num_patches: usize, merge_group: usize) -> (r: Result<usize, Error>)
    requires
        merge_group > 0 || num_patches > 0,
    ensures
        error::tells(
            r,
            if !numbers::multiple(num_patches, merge_group) {
                Err(
                    ErrorView::InvalidInput(
                        "MonkeyOCRv2 merger patch count "@ + text::dec(num_patches as nat)
                            + " is not divisible by "@ + text::dec(merge_group as nat),
                    ),
                )
            } else {
                Ok((num_patches / merge_group) as usize)
            },
        ),
{
    if !numbers::is_multiple(num_patches, merge_group) {
        return Err(
            Message::new("MonkeyOCRv2 merger patch count ").num(num_patches as u64).text(
                " is not divisible by ",
            ).num(merge_group as u64).invalid_input(),
        );
    }
    Ok(num_patches / merge_group)
}

/// What rotates one lane of a patch: `coordinate` over the base to the power of
/// `index` by half the size of a head.
#[derive(Debug, Clone, Copy, PartialEq, Eq, Structural)]
pub struct RopeLane {
    pub coordinate: usize,
    pub index: usize,
}

/// The lane `d` of a patch at a row and a column: rows and columns take turns, and
/// the second half of the lanes is the first one again.
pub open spec fn lane(d: int, row: int, col: int, half: int) -> (int, int) {
    let e = d % half;
    (
        if e % 2 == 0 {
            row
        } else {
            col
        },
        e - e % 2,
    )
}

/// The lanes of all patches, in reading order.
pub fn rope_lanes(grid_h: usize, grid_w: usize, merge_size: usize, head_dim: usize) -> (lanes: Vec<
    RopeLane,
>)
    requires
        merge_size > 0,
        grid_h > 0,
        grid_w > 0,
        grid_h % merge_size == 0,
        grid_w % merge_size == 0,
        head_dim > 0,
        head_dim % 4 == 0,
        grid_h * grid_w <= usize::MAX,
        grid_h * grid_w * head_dim <= usize::MAX,
    ensures
        lanes.len() == grid_h * grid_w * head_dim,
        forall|k: int, d: int|
            #![trigger lanes[k * head_dim + d]]
            0 <= k < grid_h * grid_w && 0 <= d < head_dim ==> {
                let (row, col) = grid::cell(k, grid_w as int, merge_size as int);
                let l = lane(d, row, col, head_dim as int / 2);
                lanes[k * head_dim + d].coordinate == l.0 && lanes[k * head_dim + d].index == l.1
            },
{
    proof {
        assert(1 * grid_h * grid_w == grid_h * grid_w) by (nonlinear_arith);
    }
    let cells = grid::merge_grouped(1, grid_h, grid_w, merge_size);
    let half: usize = head_dim / 2;
    let mut lanes: Vec<RopeLane> = Vec::new();
    let ghost flat: spec_fn(int) -> (int, int) = |i: int|
        {
            let k = i / (head_dim as int);
            let (row, col) = grid::cell(k, grid_w as int, merge_size as int);
            lane(i % (head_dim as int), row, col, head_dim as int / 2)
        };
    let n: usize = cells.len();
    let mut k: usize = 0;
    proof {
        assert(0 * head_dim == 0) by (nonlinear_arith);
    }
    while k < n
        invariant
            k <= n == cells.len(),
            n == grid_h * grid_w,
            n * head_dim <= usize::MAX,
            half == head_dim / 2,
            half > 0,
            head_dim > 0,
            grid_w > 0,
            flat == (|i: int|
                {
                    let k = i / (head_dim as int);
                    let (row, col) = grid::cell(k, grid_w as int, merge_size as int);
                    lane(i % (head_dim as int), row, col, head_dim as int / 2)
                }),
            forall|j: int|
                #![trigger cells[j]]
                0 <= j < cells.len() ==> cells[j].0 == grid::cell(
                    j % (grid_h * grid_w),
                    grid_w as int,
                    merge_size as int,
                ).0 && cells[j].1 == grid::cell(
                    j % (grid_h * grid_w),
                    grid_w as int,
                    merge_size as int,
                ).1,
            lanes.len() == k * head_dim,
            forall|i: int|
                0 <= i < lanes.len() ==> ((#[trigger] lanes[i]).coordinate as int, lanes[
                    i
                ].index as int) == flat(i),
        decreases n - k,
    {
        let (row, col): (usize, usize) = cells[k];
        let mut d: usize = 0;
        proof {
            vstd::arithmetic::div_mod::lemma_small_mod(k as nat, n as nat);
            assert((k + 1) * head_dim == k * head_dim + head_dim) by (nonlinear_arith);
            assert((k + 1) * head_dim <= n * head_dim) by (nonlinear_arith)
                requires
                    k + 1 <= n,
                    head_dim > 0,
            ;
        }
        while d < head_dim
            invariant
                d <= head_dim,
                half == head_dim / 2,
                half > 0,
                head_dim > 0,
                (row as int, col as int) == grid::cell(k as int, grid_w as int, merge_size as int),
                flat == (|i: int|
                    {
                        let k = i / (head_dim as int);
                        let (row, col) = grid::cell(k, grid_w as int, merge_size as int);
                        lane(i % (head_dim as int), row, col, head_dim as int / 2)
                    }),
                k * head_dim + head_dim <= usize::MAX,
                lanes.len() == k * head_dim + d,
                forall|i: int|
                    0 <= i < lanes.len() ==> ((#[trigger] lanes[i]).coordinate as int, lanes[
                        i
                    ].index as int) == flat(i),
            decreases head_dim - d,
        {
            let ghost at = lanes@.len() as int;
            let e: usize = d % half;
            let coordinate: usize = if e % 2 == 0 {
                row
            } else {
                col
            };
            lanes.push(RopeLane { coordinate, index: e - e % 2 });
            proof {
                vstd::arithmetic::div_mod::lemma_fundamental_div_mod_converse(
                    at,
                    head_dim as int,
                    k as int,
                    d as int,
                );
                assert((lanes[at].coordinate as int, lanes[at].index as int) == flat(at));
            }
            d = d + 1;
        }
        k = k + 1;
    }
    proof {
        assert forall|k: int, d: int|
            #![trigger lanes[k * head_dim + d]]
            0 <= k < grid_h * grid_w && 0 <= d < head_dim implies {
            let (row, col) = grid::cell(k, grid_w as int, merge_size as int);
            let l = lane(d, row, col, head_dim as int / 2);
            lanes[k * head_dim + d].coordinate == l.0 && lanes[k * head_dim + d].index == l.1
        } by {
            let i = k * head_dim + d;
            vstd::arithmetic::div_mod::lemma_fundamental_div_mod_converse(
                i,
                head_dim as int,
                k,
                d,
            );
            assert(0 <= i < n * head_dim) by (nonlinear_arith)
                requires
                    0 <= k <= n - 1,
                    0 <= d < head_dim,
                    i == k * head_dim + d,
            ;
            assert((lanes[i].coordinate as int, lanes[i].index as int) == flat(i));
        }
    }
    lanes
}

/// A lane and its partner in the other half rotate alike.
pub proof fn law_lanes_rotate_in_pairs(d: int, row: int, col: int, half: int)
    requires
        0 <= d < half,
    ensures
        lane(d, row, col, half) == lane(d + half, row, col, half),
{
    vstd::arithmetic::div_mod::lemma_small_mod(d as nat, half as nat);
    vstd::arithmetic::div_mod::lemma_mod_add_multiples_vanish(d, half);
}

/// A grid is sound when it has one frame that blocks fill, and the patches are as many
/// as it has places.
pub proof fn law_sound_grid_is_filled(grid: (usize, usize, usize), merge: usize, patches: usize)
    ensures
        grid_problem(grid, merge, patches) is None <==> {
            &&& grid.0 == 1
            &&& grid.1 > 0
            &&& grid.2 > 0
            &&& merge > 0
            &&& grid.1 % merge == 0
            &&& grid.2 % merge == 0
            &&& patches == grid.1 * grid.2
        },
{
}

/// Of each two neighbouring lanes the first turns with the row and the second with the
/// column, both by the frequency of the first.
pub proof fn law_rows_and_columns_take_turns(j: int, row: int, col: int, half: int)
    requires
        0 <= j,
        2 * j + 1 < half,
        half % 2 == 0,
    ensures
        lane(2 * j, row, col, half) == (row, 2 * j),
        lane(2 * j + 1, row, col, half) == (col, 2 * j),
        lane(half + 2 * j, row, col, half) == (row, 2 * j),
        lane(half + 2 * j + 1, row, col, half) == (col, 2 * j),
{
    vstd::arithmetic::div_mod::lemma_small_mod((2 * j) as nat, half as nat);
    vstd::arithmetic::div_mod::lemma_small_mod((2 * j + 1) as nat, half as nat);
    law_lanes_rotate_in_pairs(2 * j, row, col, half);
    law_lanes_rotate_in_pairs(2 * j + 1, row, col, half);
    assert((2 * j) % 2 == 0);
    assert((2 * j + 1) % 2 == 1);
}

/// What is wrong with a grid is told as a fault of the request.
pub proof fn law_faults_are_of_the_request(grid: (usize, usize, usize), merge: usize, patches: usize)
    ensures
        grid_problem(grid, merge, patches) matches Some(e) ==> e is InvalidInput,
{
}

} // verus!
