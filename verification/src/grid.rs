//! Patch grids whose cells are read block by block.
use crate::numbers;
use vstd::arithmetic::div_mod;
use vstd::prelude::*;

verus! {

/// The row and column of patch `k` of a frame of `w` columns that is read in
/// blocks of `m` by `m`: blocks row by row, and the patches of a block row by row.
pub open spec fn cell(k: int, w: int, m: int) -> (int, int) {
    let block = k / (m * m);
    let inner = k % (m * m);
    ((block / (w / m)) * m + inner / m, (block % (w / m)) * m + inner % m)
}

/// Where the patch at a row and a column is read.
pub open spec fn reading_place(row: int, col: int, w: int, m: int) -> int {
    ((row / m) * (w / m) + col / m) * (m * m) + ((row % m) * m + col % m)
}

/// A cell of a block of `m` by `m` has a number below `m * m`.
proof fn lemma_inner(a: int, b: int, m: int)
    requires
        0 <= a < m,
        0 <= b < m,
    ensures
        0 <= a * m + b < m * m,
{
    assert(0 <= a * m + b < m * m) by (nonlinear_arith)
        requires
            0 <= a < m,
            0 <= b < m,
    ;
}

/// Reading a frame block by block visits the place of each cell: the cell that is
/// read at a place is in the frame, and its place is that place.
pub proof fn law_reading_visits_each_place(k: int, h: int, w: int, m: int)
    requires
        m > 0,
        h > 0,
        w > 0,
        h % m == 0,
        w % m == 0,
        0 <= k < h * w,
    ensures
        0 <= cell(k, w, m).0 < h,
        0 <= cell(k, w, m).1 < w,
        reading_place(cell(k, w, m).0, cell(k, w, m).1, w, m) == k,
{
    let rows = h / m;
    let cols = w / m;
    div_mod::lemma_fundamental_div_mod(h, m);
    div_mod::lemma_fundamental_div_mod(w, m);
    assert(h * w == (rows * cols) * (m * m)) by (nonlinear_arith)
        requires
            h == m * rows,
            w == m * cols,
    ;
    assert(m * m > 0) by (nonlinear_arith)
        requires
            m > 0,
    ;
    numbers::lemma_quotient(k, rows * cols, m * m);
    let block = k / (m * m);
    let inner = k % (m * m);
    assert(cols > 0) by (nonlinear_arith)
        requires
            w == m * cols,
            w > 0,
            m > 0,
    ;
    numbers::lemma_quotient(block, rows, cols);
    numbers::lemma_quotient(inner, m, m);
    let (row, col) = cell(k, w, m);
    numbers::lemma_parts(block / cols, inner / m, m);
    numbers::lemma_parts(block % cols, inner % m, m);
    assert(row < h) by (nonlinear_arith)
        requires
            row == (block / cols) * m + inner / m,
            block / cols <= rows - 1,
            inner / m < m,
            h == m * rows,
            m > 0,
    ;
    assert(col < w) by (nonlinear_arith)
        requires
            col == (block % cols) * m + inner % m,
            block % cols <= cols - 1,
            inner % m < m,
            w == m * cols,
            m > 0,
    ;
    assert(0 <= row) by (nonlinear_arith)
        requires
            row == (block / cols) * m + inner / m,
            block / cols >= 0,
            inner / m >= 0,
            m > 0,
    ;
    assert(0 <= col) by (nonlinear_arith)
        requires
            col == (block % cols) * m + inner % m,
            block % cols >= 0,
            inner % m >= 0,
            m > 0,
    ;
}

/// Reading a frame block by block misses no cell: each is read at its place.
pub proof fn law_reading_misses_no_cell(row: int, col: int, h: int, w: int, m: int)
    requires
        m > 0,
        h % m == 0,
        w % m == 0,
        0 <= row < h,
        0 <= col < w,
    ensures
        0 <= reading_place(row, col, w, m) < h * w,
        cell(reading_place(row, col, w, m), w, m) == (row, col),
{
    let rows = h / m;
    let cols = w / m;
    div_mod::lemma_fundamental_div_mod(h, m);
    div_mod::lemma_fundamental_div_mod(w, m);
    assert(h == rows * m) by (nonlinear_arith)
        requires
            h == m * rows,
    ;
    assert(w == cols * m) by (nonlinear_arith)
        requires
            w == m * cols,
    ;
    numbers::lemma_quotient(row, rows, m);
    numbers::lemma_quotient(col, cols, m);
    let block = (row / m) * cols + col / m;
    let inner = (row % m) * m + col % m;
    lemma_inner(row % m, col % m, m);
    numbers::lemma_parts(block, inner, m * m);
    numbers::lemma_parts(row / m, col / m, cols);
    numbers::lemma_parts(row % m, col % m, m);
    assert(0 <= block <= rows * cols - 1) by (nonlinear_arith)
        requires
            block == (row / m) * cols + col / m,
            0 <= row / m <= rows - 1,
            0 <= col / m <= cols - 1,
    ;
    assert(0 <= block * (m * m) + inner < (rows * cols) * (m * m)) by (nonlinear_arith)
        requires
            0 <= block <= rows * cols - 1,
            0 <= inner < m * m,
    ;
    assert(h * w == (rows * cols) * (m * m)) by (nonlinear_arith)
        requires
            h == m * rows,
            w == m * cols,
    ;
}

/// The rows and columns of the patches of `frames` frames, in reading order.
pub fn merge_grouped(frames: usize, h: usize, w: usize, m: usize) -> (cells: Vec<(usize, usize)>)
    requires
        m > 0,
        h % m == 0,
        w % m == 0,
        h > 0,
        w > 0,
        frames * h * w <= usize::MAX,
    ensures
        cells.len() == frames * h * w,
        forall|k: int|
            #![trigger cells[k]]
            0 <= k < cells.len() ==> cells[k].0 == cell(k % (h * w), w as int, m as int).0
                && cells[k].1 == cell(k % (h * w), w as int, m as int).1,
{
    let mut cells: Vec<(usize, usize)> = Vec::new();
    proof {
        assert(frames * h * w == frames * (h * w)) by (nonlinear_arith);
        assert(frames == 0 || h * w <= frames * (h * w)) by (nonlinear_arith)
            requires
                frames >= 0,
                h >= 0,
                w >= 0,
        ;
        assert(0 < h * w) by (nonlinear_arith)
            requires
                h > 0,
                w > 0,
        ;
        assert(0 * (h * w) == 0) by (nonlinear_arith);
        assert(m <= h && m <= w) by {
            div_mod::lemma_fundamental_div_mod(h as int, m as int);
            div_mod::lemma_fundamental_div_mod(w as int, m as int);
            assert(m <= h) by (nonlinear_arith)
                requires
                    h == m * (h as int / m as int),
                    h > 0,
                    m > 0,
            ;
            assert(m <= w) by (nonlinear_arith)
                requires
                    w == m * (w as int / m as int),
                    w > 0,
                    m > 0,
            ;
        }
        assert(m * m <= h * w) by (nonlinear_arith)
            requires
                0 < m <= h,
                m <= w,
        ;
        assert(w / m > 0) by {
            div_mod::lemma_fundamental_div_mod(w as int, m as int);
            assert(w as int / m as int > 0) by (nonlinear_arith)
                requires
                    w == m * (w as int / m as int),
                    w > 0,
                    m > 0,
            ;
        }
    }
    if frames == 0 {
        return cells;
    }
    let area: usize = h * w;
    let cols: usize = w / m;
    let mut frame: usize = 0;
    while frame < frames
        invariant
            m > 0,
            m * m <= area,
            cols == w / m,
            cols > 0,
            h % m == 0,
            w % m == 0,
            h > 0,
            w > 0,
            area == h * w,
            area > 0,
            frames * area <= usize::MAX,
            frame <= frames,
            cells.len() == frame * area,
            forall|k: int|
                #![trigger cells[k]]
                0 <= k < cells.len() ==> cells[k].0 == cell(k % (h * w), w as int, m as int).0
                    && cells[k].1 == cell(k % (h * w), w as int, m as int).1,
        decreases frames - frame,
    {
        let mut k: usize = 0;
        proof {
            assert((frame + 1) * area == frame * area + area) by (nonlinear_arith);
        }
        while k < area
            invariant
                m > 0,
                m * m <= area,
                cols == w / m,
                cols > 0,
                h % m == 0,
                w % m == 0,
                h > 0,
                w > 0,
                area == h * w,
                k <= area,
                cells.len() == frame * area + k,
                forall|k: int|
                    #![trigger cells[k]]
                    0 <= k < cells.len() ==> cells[k].0 == cell(k % (h * w), w as int, m as int).0
                        && cells[k].1 == cell(k % (h * w), w as int, m as int).1,
            decreases area - k,
        {
            let ghost place = cells@.len() as int;
            proof {
                law_reading_visits_each_place(k as int, h as int, w as int, m as int);
                numbers::lemma_parts(frame as int, k as int, area as int);
                assert(m * m > 0) by (nonlinear_arith)
                    requires
                        m > 0,
                ;
            }
            let block: usize = k / (m * m);
            let inner: usize = k % (m * m);
            proof {
                let b = (block as int) / (cols as int);
                let c = (block as int) % (cols as int);
                div_mod::lemma_div_pos_is_pos(block as int, cols as int);
                div_mod::lemma_div_pos_is_pos(inner as int, m as int);
                assert(b * m >= 0 && c * m >= 0) by (nonlinear_arith)
                    requires
                        b >= 0,
                        c >= 0,
                        m > 0,
                ;
            }
            let row: usize = (block / cols) * m + inner / m;
            let col: usize = (block % cols) * m + inner % m;
            cells.push((row, col));
            proof {
                assert(place % (h * w) == k);
                assert(cells@[place].0 == cell(place % (h * w), w as int, m as int).0);
                assert(cells@[place].1 == cell(place % (h * w), w as int, m as int).1);
            }
            k = k + 1;
        }
        frame = frame + 1;
    }
    cells
}

/// A frame is read block by block, the blocks from left to right and from top to
/// bottom, and each block in the same way.
pub proof fn law_reading_goes_block_by_block(
    block_row: int,
    block_col: int,
    r: int,
    c: int,
    blocks: int,
    m: int,
)
    requires
        m > 0,
        0 <= block_row,
        0 <= block_col < blocks,
        0 <= r < m,
        0 <= c < m,
    ensures
        cell((block_row * blocks + block_col) * (m * m) + (r * m + c), blocks * m, m) == (
            block_row * m + r,
            block_col * m + c,
        ),
{
    let block = block_row * blocks + block_col;
    let inner = r * m + c;
    lemma_inner(r, c, m);
    vstd::arithmetic::div_mod::lemma_fundamental_div_mod_converse(
        block * (m * m) + inner,
        m * m,
        block,
        inner,
    );
    vstd::arithmetic::div_mod::lemma_fundamental_div_mod_converse(inner, m, r, c);
    vstd::arithmetic::div_mod::lemma_fundamental_div_mod_converse(
        block,
        blocks,
        block_row,
        block_col,
    );
    vstd::arithmetic::div_mod::lemma_fundamental_div_mod_converse(blocks * m, m, blocks, 0);
}

} // verus!
