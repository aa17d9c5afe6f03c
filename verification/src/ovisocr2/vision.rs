//! The vision tower's grids.
use crate::error::{self, Error, ErrorView, Message};
use crate::grid;
use crate::numbers;
use crate::text;
use vstd::prelude::*;

verus! {

/// The first thing wrong with the patches of a page.
pub open spec fn grid_problem(
    grid: (usize, usize, usize),
    merge: usize,
    patches: usize,
) -> Option<ErrorView> {
    let area = grid.0 * grid.1 * grid.2;
    if grid.0 == 0 || grid.1 == 0 || grid.2 == 0 {
        Some(
            ErrorView::InvalidInput(
                "OvisOCR2 vision grid must be non-zero, got "@ + text::dec_triple(grid),
            ),
        )
    } else if !numbers::multiple(grid.1, merge) || !numbers::multiple(grid.2, merge) {
        Some(
            ErrorView::InvalidInput(
                "OvisOCR2 vision grid "@ + text::dec(grid.1 as nat) + "x"@ + text::dec(
                    grid.2 as nat,
                ) + " must be divisible by merge_size "@ + text::dec(merge as nat),
            ),
        )
    } else if grid.0 * grid.1 > usize::MAX || area > usize::MAX {
        Some(ErrorView::InvalidInput("OvisOCR2 vision patch count overflow"@))
    } else if patches != area {
        Some(
            ErrorView::InvalidInput(
                "OvisOCR2 pixel_values patch count ("@ + text::dec(patches as nat)
                    + ") does not match grid "@ + text::dec_triple(grid) + " ("@ + text::dec(
                    area as nat,
                ) + ")"@,
            ),
        )
    } else {
        None
    }
}

/// The number of patches of a grid, unless it is too large.
fn patch_count(grid: (usize, usize, usize)) -> (r: Option<usize>)
    ensures
        match r {
            Some(n) => n == grid.0 * grid.1 * grid.2 && grid.0 * grid.1 <= usize::MAX,
            None => grid.0 * grid.1 > usize::MAX || grid.0 * grid.1 * grid.2 > usize::MAX,
        },
{
    match grid.0.checked_mul(grid.1) {
        Some(plane) => plane.checked_mul(grid.2),
        None => None,
    }
}

/// Checks the patches of a page against their grid.
pub fn validate_grid(grid_thw: (usize, usize, usize), merge_size: usize, patches: usize) -> (r: Result<
    (),
    Error,
>)
    ensures
        error::verdict(grid_problem(grid_thw, merge_size, patches), r),
{
    if grid_thw.0 == 0 || grid_thw.1 == 0 || grid_thw.2 == 0 {
        return Err(
            Message::new("OvisOCR2 vision grid must be non-zero, got ").triple(
                grid_thw,
            ).invalid_input(),
        );
    }
    if !numbers::is_multiple(grid_thw.1, merge_size) || !numbers::is_multiple(
        grid_thw.2,
        merge_size,
    ) {
        return Err(
            Message::new("OvisOCR2 vision grid ").num(grid_thw.1 as u64).text("x").num(
                grid_thw.2 as u64,
            ).text(" must be divisible by merge_size ").num(merge_size as u64).invalid_input(),
        );
    }
    let num_patches: usize = match patch_count(grid_thw) {
        Some(n) => n,
        None => return Err(Error::invalid_input("OvisOCR2 vision patch count overflow")),
    };
    if patches != num_patches {
        return Err(
            Message::new("OvisOCR2 pixel_values patch count (").num(patches as u64).text(
                ") does not match grid ",
            ).triple(grid_thw).text(" (").num(num_patches as u64).text(")").invalid_input(),
        );
    }
    Ok(())
}

/// The first thing wrong with a grid that is to be read block by block.
pub open spec fn merge_problem(grid: (usize, usize, usize), merge: usize) -> Option<ErrorView> {
    if grid.0 == 0 || grid.1 == 0 || grid.2 == 0 || merge == 0 || grid.1 % merge != 0 || grid.2
        % merge != 0 {
        Some(
            ErrorView::InvalidInput(
                "OvisOCR2 invalid merge-grouped grid: grid="@ + text::dec_triple(grid)
                    + ", merge="@ + text::dec(merge as nat),
            ),
        )
    } else if grid.0 * grid.1 > usize::MAX || grid.0 * grid.1 * grid.2 > usize::MAX {
        Some(ErrorView::InvalidInput("OvisOCR2 merge-grouped patch count overflow"@))
    } else {
        None
    }
}

/// The rows and columns of the patches of a page, block by block.
pub fn merge_grouped_spatial_coordinates(
    grid_thw: (usize, usize, usize),
    merge_size: usize,
) -> (r: Result<Vec<(usize, usize)>, Error>)
    ensures
        match r {
            Ok(cells) => {
                &&& merge_problem(grid_thw, merge_size) is None
                &&& cells.len() == grid_thw.0 * grid_thw.1 * grid_thw.2
                &&& forall|k: int|
                    #![trigger cells[k]]
                    0 <= k < cells.len() ==> (cells[k].0 as int, cells[k].1 as int) == grid::cell(
                        k % (grid_thw.1 * grid_thw.2),
                        grid_thw.2 as int,
                        merge_size as int,
                    )
            },
            Err(e) => merge_problem(grid_thw, merge_size) == Some(e@),
        },
{
    if grid_thw.0 == 0 || grid_thw.1 == 0 || grid_thw.2 == 0 || merge_size == 0 || grid_thw.1
        % merge_size != 0 || grid_thw.2 % merge_size != 0 {
        return Err(
            Message::new("OvisOCR2 invalid merge-grouped grid: grid=").triple(grid_thw).text(
                ", merge=",
            ).num(merge_size as u64).invalid_input(),
        );
    }
    if patch_count(grid_thw).is_none() {
        return Err(Error::invalid_input("OvisOCR2 merge-grouped patch count overflow"));
    }
    Ok(grid::merge_grouped(grid_thw.0, grid_thw.1, grid_thw.2, merge_size))
}

/// The first thing wrong with the learned positions.
pub open spec fn table_problem(
    rows: usize,
    base: usize,
    grid: (usize, usize, usize),
    merge: usize,
) -> Option<ErrorView> {
    if base == 0 {
        Some(
            ErrorView::InvalidInput(
                "OvisOCR2 invalid learned-position grid: base="@ + text::dec(base as nat)
                    + ", grid="@ + text::dec_triple(grid) + ", merge="@ + text::dec(merge as nat),
            ),
        )
    } else if rows != base * base {
        Some(
            ErrorView::Config(
                "OvisOCR2 position embedding rows ("@ + text::dec(rows as nat)
                    + ") do not match base grid "@ + text::dec(base as nat) + "x"@ + text::dec(
                    base as nat,
                ),
            ),
        )
    } else {
        None
    }
}

/// Checks the table of learned positions.
pub fn validate_position_table(
    rows: usize,
    base_grid_size: usize,
    grid_thw: (usize, usize, usize),
    merge_size: usize,
) -> (r: Result<(), Error>)
    requires
        base_grid_size * base_grid_size <= usize::MAX,
    ensures
        error::verdict(table_problem(rows, base_grid_size, grid_thw, merge_size), r),
{
    if base_grid_size == 0 {
        return Err(
            Message::new("OvisOCR2 invalid learned-position grid: base=").num(
                base_grid_size as u64,
            ).text(", grid=").triple(grid_thw).text(", merge=").num(
                merge_size as u64,
            ).invalid_input(),
        );
    }
    if rows != base_grid_size * base_grid_size {
        return Err(
            Message::new("OvisOCR2 position embedding rows (").num(rows as u64).text(
                ") do not match base grid ",
            ).num(base_grid_size as u64).text("x").num(base_grid_size as u64).config(),
        );
    }
    Ok(())
}

/// The table entries between which a position lies.
#[derive(Debug, Clone, Copy, PartialEq, Eq, Structural)]
pub struct Corners {
    pub top_left: u32,
    pub top_right: u32,
    pub bottom_left: u32,
    pub bottom_right: u32,
}

/// The neighbour of a table row or column; the last one is its own.
pub open spec fn neighbour(i: int, base: int) -> int {
    if i + 1 < base {
        i + 1
    } else {
        base - 1
    }
}

/// The entries around a position whose whole part is (`h0`, `w0`).
pub fn corners(h0: usize, w0: usize, base_grid_size: usize) -> (c: Corners)
    requires
        h0 < base_grid_size,
        w0 < base_grid_size,
        base_grid_size * base_grid_size <= u32::MAX,
    ensures
        ({
            let base = base_grid_size as int;
            let h1 = neighbour(h0 as int, base);
            let w1 = neighbour(w0 as int, base);
            &&& c.top_left == h0 * base + w0
            &&& c.top_right == h0 * base + w1
            &&& c.bottom_left == h1 * base + w0
            &&& c.bottom_right == h1 * base + w1
        }),
        c.top_left < base_grid_size * base_grid_size,
        c.top_right < base_grid_size * base_grid_size,
        c.bottom_left < base_grid_size * base_grid_size,
        c.bottom_right < base_grid_size * base_grid_size,
{
    let h1: usize = if h0 + 1 < base_grid_size {
        h0 + 1
    } else {
        base_grid_size - 1
    };
    let w1: usize = if w0 + 1 < base_grid_size {
        w0 + 1
    } else {
        base_grid_size - 1
    };
    proof {
        lemma_entry(h0 as int, w0 as int, base_grid_size as int);
        lemma_entry(h0 as int, w1 as int, base_grid_size as int);
        lemma_entry(h1 as int, w0 as int, base_grid_size as int);
        lemma_entry(h1 as int, w1 as int, base_grid_size as int);
    }
    Corners {
        top_left: (h0 * base_grid_size + w0) as u32,
        top_right: (h0 * base_grid_size + w1) as u32,
        bottom_left: (h1 * base_grid_size + w0) as u32,
        bottom_right: (h1 * base_grid_size + w1) as u32,
    }
}

/// An entry of a square table lies in it.
proof fn lemma_entry(row: int, col: int, base: int)
    requires
        0 <= row < base,
        0 <= col < base,
    ensures
        0 <= row * base,
        0 <= row * base + col < base * base,
{
    assert(0 <= row * base && row * base + col < base * base) by (nonlinear_arith)
        requires
            0 <= row <= base - 1,
            0 <= col <= base - 1,
    ;
}

/// The number of image embeddings that the merger makes of a page's patches.
pub fn merged_len(num_patches: usize, merge_group: usize) -> (r: Result<usize, Error>)
    requires
        merge_group > 0 || num_patches > 0,
    ensures
        error::tells(
            r,
            if !numbers::multiple(num_patches, merge_group) {
                Err(
                    ErrorView::InvalidInput(
                        "OvisOCR2 vision merger expected patch count divisible by "@ + text::dec(
                            merge_group as nat,
                        ) + ", got "@ + text::dec(num_patches as nat),
                    ),
                )
            } else {
                Ok((num_patches / merge_group) as usize)
            },
        ),
{
    if !numbers::is_multiple(num_patches, merge_group) {
        return Err(
            Message::new("OvisOCR2 vision merger expected patch count divisible by ").num(
                merge_group as u64,
            ).text(", got ").num(num_patches as u64).invalid_input(),
        );
    }
    Ok(num_patches / merge_group)
}

/// A grid is sound when none of its sides is empty, blocks fill its frames, and the
/// patches are as many as it has places.
pub proof fn law_sound_grid_is_filled(grid: (usize, usize, usize), merge: usize, patches: usize)
    ensures
        grid_problem(grid, merge, patches) is None <==> {
            &&& grid.0 > 0
            &&& grid.1 > 0
            &&& grid.2 > 0
            &&& merge > 0
            &&& grid.1 % merge == 0
            &&& grid.2 % merge == 0
            &&& patches == grid.0 * grid.1 * grid.2
        },
        merge_problem(grid, merge) is None <==> {
            &&& grid.0 > 0
            &&& grid.1 > 0
            &&& grid.2 > 0
            &&& merge > 0
            &&& grid.1 % merge == 0
            &&& grid.2 % merge == 0
            &&& grid.0 * grid.1 * grid.2 <= usize::MAX
        },
{
    let side = grid.0 * grid.1;
    if grid.2 > 0 {
        assert(side <= side * grid.2) by (nonlinear_arith)
            requires
                grid.2 > 0,
                side >= 0,
        ;
    }
}

/// A table of learned positions is square.
pub proof fn law_position_table_is_square(
    rows: usize,
    base: usize,
    grid: (usize, usize, usize),
    merge: usize,
)
    ensures
        table_problem(rows, base, grid, merge) is None <==> base > 0 && rows == base * base,
{
}

/// Each row and column of a table has the next one as its neighbour, up to the last.
pub proof fn law_neighbour_is_the_next_one(i: int, base: int)
    requires
        0 <= i < base,
    ensures
        i < base - 1 ==> neighbour(i, base) == i + 1,
        i == base - 1 ==> neighbour(i, base) == i,
{
}

/// What is wrong with a grid is told as a fault of the request, and a table of positions
/// that is not as large as its sides say as one of the configuration.
pub proof fn law_faults_are_told_apart(
    grid: (usize, usize, usize),
    merge: usize,
    patches: usize,
    rows: usize,
    base: usize,
)
    ensures
        grid_problem(grid, merge, patches) matches Some(e) ==> e is InvalidInput,
        merge_problem(grid, merge) matches Some(e) ==> e is InvalidInput,
        table_problem(rows, 0, grid, merge) matches Some(e) && e is InvalidInput,
        base > 0 ==> (table_problem(rows, base, grid, merge) matches Some(e) ==> e is Config),
{
}

} // verus!
