//! Rotary positions of prompts with one image: text advances on all three axes,
//! the image lays out its grid.
use vstd::prelude::*;

verus! {

/// Positions along the three axes, one entry for each token.
#[derive(Debug)]
pub struct MropeIds {
    pub temporal: Vec<i64>,
    pub height: Vec<i64>,
    pub width: Vec<i64>,
}

impl MropeIds {
    /// The entries of token `i`.
    pub open spec fn at(self, i: int) -> (int, int, int) {
        (self.temporal@[i] as int, self.height@[i] as int, self.width@[i] as int)
    }

    /// There are entries for `n` tokens.
    pub open spec fn covers(self, n: nat) -> bool {
        &&& self.temporal@.len() == n
        &&& self.height@.len() == n
        &&& self.width@.len() == n
    }
}

/// The entries of token `i` of a prompt whose image takes the places `a..b` with
/// frames of `h` rows and `w` columns. Text before the image has its place; the
/// image has the coordinates of its grid, counted from `a`; text behind it goes on
/// at `a + advance`.
pub open spec fn position_at(i: int, a: int, b: int, h: int, w: int, advance: int) -> (int, int, int) {
    if i < a {
        (i, i, i)
    } else if i < b {
        let k = i - a;
        (a + k / (h * w), a + (k / w) % h, a + k % w)
    } else {
        let p = a + advance + (i - b);
        (p, p, p)
    }
}

/// The greatest of three numbers.
pub open spec fn max3(x: int, y: int, z: int) -> int {
    if x >= y && x >= z {
        x
    } else if y >= z {
        y
    } else {
        z
    }
}

/// The coordinates of a grid do not exceed the number of its cell.
pub proof fn lemma_grid_bounds(k: int, h: int, w: int)
    requires
        0 <= k,
        0 < h,
        0 < w,
    ensures
        0 < h * w,
        0 <= k / (h * w) <= k,
        0 <= (k / w) % h <= k,
        0 <= (k / w) % h < h,
        0 <= k % w <= k,
        0 <= k % w < w,
{
    assert(0 < h * w) by (nonlinear_arith)
        requires
            0 < h,
            0 < w,
    ;
    let hw = h * w;
    assert(0 <= k / hw <= k) by (nonlinear_arith)
        requires
            0 <= k,
            0 < hw,
    ;
    let q = k / w;
    assert(0 <= q <= k) by (nonlinear_arith)
        requires
            0 <= k,
            0 < w,
            q == k / w,
    ;
    assert(0 <= q % h <= q && q % h < h) by (nonlinear_arith)
        requires
            0 <= q,
            0 < h,
    ;
    assert(0 <= k % w <= k && k % w < w) by (nonlinear_arith)
        requires
            0 <= k,
            0 < w,
    ;
}

/// The positions of a prompt of `len` tokens.
pub fn prompt_positions(len: usize, a: usize, b: usize, h: usize, w: usize, advance: usize) -> (p:
    MropeIds)
    requires
        a <= b <= len,
        a < b ==> h > 0 && w > 0 && h * w <= usize::MAX,
        len + advance <= i64::MAX,
    ensures
        p.covers(len as nat),
        forall|i: int|
            0 <= i < len ==> #[trigger] p.at(i) == position_at(
                i,
                a as int,
                b as int,
                h as int,
                w as int,
                advance as int,
            ),
{
    let mut temporal: Vec<i64> = Vec::new();
    let mut height: Vec<i64> = Vec::new();
    let mut width: Vec<i64> = Vec::new();
    let mut i: usize = 0;
    while i < len
        invariant
            i <= len,
            a <= b <= len,
            a < b ==> h > 0 && w > 0 && h * w <= usize::MAX,
            len + advance <= i64::MAX,
            temporal.len() == i,
            height.len() == i,
            width.len() == i,
            forall|k: int|
                0 <= k < i ==> (
                    #[trigger] temporal[k] as int,
                    height[k] as int,
                    width[k] as int,
                ) == position_at(k, a as int, b as int, h as int, w as int, advance as int),
        decreases len - i,
    {
        if i < a {
            temporal.push(i as i64);
            height.push(i as i64);
            width.push(i as i64);
        } else if i < b {
            let k: usize = i - a;
            proof {
                lemma_grid_bounds(k as int, h as int, w as int);
            }
            let frame: usize = h * w;
            temporal.push((a + k / frame) as i64);
            height.push((a + (k / w) % h) as i64);
            width.push((a + k % w) as i64);
        } else {
            let p: i64 = a as i64 + advance as i64 + (i - b) as i64;
            temporal.push(p);
            height.push(p);
            width.push(p);
        }
        i = i + 1;
    }
    let p = MropeIds { temporal, height, width };
    proof {
        assert forall|k: int| 0 <= k < len implies #[trigger] p.at(k) == position_at(
            k,
            a as int,
            b as int,
            h as int,
            w as int,
            advance as int,
        ) by {
            assert(p.temporal[k] as int == p.at(k).0);
        }
    }
    p
}

/// The positions of `len` text tokens from `start` on.
pub fn text_positions(start: i64, len: usize) -> (p: MropeIds)
    requires
        len <= i64::MAX,
        start + len <= i64::MAX,
    ensures
        p.covers(len as nat),
        forall|i: int| 0 <= i < len ==> #[trigger] p.at(i) == (start + i, start + i, start + i),
{
    let mut temporal: Vec<i64> = Vec::new();
    let mut height: Vec<i64> = Vec::new();
    let mut width: Vec<i64> = Vec::new();
    let mut i: usize = 0;
    while i < len
        invariant
            i <= len <= i64::MAX,
            start + len <= i64::MAX,
            temporal.len() == i,
            height.len() == i,
            width.len() == i,
            forall|k: int|
                0 <= k < i ==> (
                    #[trigger] temporal[k] as int,
                    height[k] as int,
                    width[k] as int,
                ) == (start + k, start + k, start + k),
        decreases len - i,
    {
        let v: i64 = start + i as i64;
        temporal.push(v);
        height.push(v);
        width.push(v);
        i = i + 1;
    }
    let p = MropeIds { temporal, height, width };
    proof {
        assert forall|k: int| 0 <= k < len implies #[trigger] p.at(k) == (
            start + k,
            start + k,
            start + k,
        ) by {
            assert(p.temporal[k] as int == p.at(k).0);
        }
    }
    p
}

/// The greatest position of a prompt.
pub open spec fn max_position(len: int, a: int, b: int, t: int, h: int, w: int, advance: int) -> int {
    let image = a + max3(t, h, w) - 1;
    let text = a + advance + (len - b) - 1;
    if b < len && text > image {
        text
    } else {
        image
    }
}

/// No token of a prompt with an image of `t` frames lies behind its greatest
/// position.
pub proof fn law_max_position_bounds_all(
    i: int,
    len: int,
    a: int,
    b: int,
    t: int,
    h: int,
    w: int,
    advance: int,
)
    requires
        0 <= i < len,
        0 <= a < b <= len,
        0 < t,
        0 < h,
        0 < w,
        b - a == t * (h * w),
        advance >= 0,
    ensures
        ({
            let p = position_at(i, a, b, h, w, advance);
            let m = max_position(len, a, b, t, h, w, advance);
            p.0 <= m && p.1 <= m && p.2 <= m
        }),
{
    if a <= i < b {
        let k = i - a;
        lemma_grid_bounds(k, h, w);
        let hw = h * w;
        assert(k / hw < t) by (nonlinear_arith)
            requires
                0 <= k < t * hw,
                0 < hw,
        ;
    }
}

/// Some token of a prompt with an image of `t` frames has the greatest position.
pub proof fn law_max_position_is_reached(
    len: int,
    a: int,
    b: int,
    t: int,
    h: int,
    w: int,
    advance: int,
)
    requires
        0 <= a < b <= len,
        0 < t,
        0 < h,
        0 < w,
        b - a == t * (h * w),
        advance >= 0,
    ensures
        exists|i: int|
            0 <= i < len && ({
                let p = #[trigger] position_at(i, a, b, h, w, advance);
                let m = max_position(len, a, b, t, h, w, advance);
                p.0 == m || p.1 == m || p.2 == m
            }),
{
    let m = max_position(len, a, b, t, h, w, advance);
    assert(h * w > 0) by (nonlinear_arith)
        requires
            h > 0,
            w > 0,
    ;
    assert(h * w <= t * (h * w)) by (nonlinear_arith)
        requires
            h * w > 0,
            t > 0,
    ;
    if b < len && a + advance + (len - b) - 1 > a + max3(t, h, w) - 1 {
        assert(position_at(len - 1, a, b, h, w, advance).0 == m);
    } else if t >= h && t >= w {
        let k = (t - 1) * (h * w);
        assert(0 <= k < t * (h * w)) by (nonlinear_arith)
            requires
                k == (t - 1) * (h * w),
                h * w > 0,
                t > 0,
        ;
        vstd::arithmetic::div_mod::lemma_fundamental_div_mod_converse(k, h * w, t - 1, 0);
        assert(position_at(a + k, a, b, h, w, advance).0 == m);
    } else if h >= w {
        let k = (h - 1) * w;
        assert(0 <= k < h * w) by (nonlinear_arith)
            requires
                k == (h - 1) * w,
                h > 0,
                w > 0,
        ;
        vstd::arithmetic::div_mod::lemma_fundamental_div_mod_converse(k, w, h - 1, 0);
        vstd::arithmetic::div_mod::lemma_small_mod((h - 1) as nat, h as nat);
        assert(position_at(a + k, a, b, h, w, advance).1 == m);
    } else {
        let k = w - 1;
        assert(w <= h * w) by (nonlinear_arith)
            requires
                h > 0,
                w > 0,
        ;
        vstd::arithmetic::div_mod::lemma_small_mod((w - 1) as nat, w as nat);
        assert(position_at(a + k, a, b, h, w, advance).2 == m);
    }
}

/// A cell of a grid, counted frame by frame and row by row, has its own coordinates.
pub proof fn lemma_grid_place(t: int, y: int, x: int, frames: int, h: int, w: int)
    requires
        0 <= t < frames,
        0 <= y < h,
        0 <= x < w,
    ensures
        ({
            let k = (t * h + y) * w + x;
            &&& 0 <= k < frames * h * w
            &&& k / (h * w) == t
            &&& (k / w) % h == y
            &&& k % w == x
        }),
{
    let row = t * h + y;
    let k = row * w + x;
    assert(0 <= row && row + 1 <= frames * h) by (nonlinear_arith)
        requires
            row == t * h + y,
            0 <= t,
            t + 1 <= frames,
            0 <= y < h,
    ;
    let rows = frames * h;
    assert(0 <= k && k < rows * w) by (nonlinear_arith)
        requires
            k == row * w + x,
            0 <= row,
            row + 1 <= rows,
            0 <= x < w,
    ;
    vstd::arithmetic::div_mod::lemma_fundamental_div_mod_converse(k, w, row, x);
    vstd::arithmetic::div_mod::lemma_fundamental_div_mod_converse(row, h, t, y);
    let rest = y * w + x;
    assert(k == t * (h * w) + rest && 0 <= rest && rest < h * w) by (nonlinear_arith)
        requires
            k == (t * h + y) * w + x,
            rest == y * w + x,
            0 <= y,
            y + 1 <= h,
            0 <= x < w,
    ;
    assert(0 < h * w) by (nonlinear_arith)
        requires
            0 < h,
            0 < w,
    ;
    vstd::arithmetic::div_mod::lemma_fundamental_div_mod_converse(k, h * w, t, rest);
}

} // verus!
