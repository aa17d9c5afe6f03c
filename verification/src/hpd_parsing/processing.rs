//! Tiling: which grid of square tiles an image is cut into.
use super::config::HpdParsingConfig;
use crate::double::{self, Double};
use crate::error::{Error, ErrorView};
use crate::image::{self, Filter, RgbBytes};
use vstd::arithmetic::power2;
use vstd::prelude::*;

verus! {

/// A grid of `r.0` columns and `r.1` rows with between `min` and `max` tiles.
pub open spec fn is_grid(r: (usize, usize), min: usize, max: usize) -> bool {
    &&& r.0 >= 1
    &&& r.1 >= 1
    &&& min <= r.0 * r.1 <= max
}

/// Grids with fewer tiles come first, then those with fewer columns.
pub open spec fn grid_before(a: (usize, usize), b: (usize, usize)) -> bool {
    a.0 * a.1 < b.0 * b.1 || (a.0 * a.1 == b.0 * b.1 && a.0 < b.0)
}

/// `ratios` are all grids with at least `min` and at most `max` tiles, each once,
/// ordered by their number of tiles and then by their columns.
pub open spec fn are_ratios(ratios: Seq<(usize, usize)>, min: usize, max: usize) -> bool {
    &&& forall|i: int| 0 <= i < ratios.len() ==> is_grid(#[trigger] ratios[i], min, max)
    &&& forall|i: int, j: int|
        0 <= i < j < ratios.len() ==> grid_before(#[trigger] ratios[i], #[trigger] ratios[j])
    &&& forall|r: (usize, usize)| is_grid(r, min, max) ==> #[trigger] ratios.contains(r)
}

/// Lists the grids with at least `min_blocks` and at most `max_blocks` tiles.
pub fn target_ratios(min_blocks: usize, max_blocks: usize) -> (ratios: Vec<(usize, usize)>)
    requires
        max_blocks < usize::MAX,
    ensures
        are_ratios(ratios@, min_blocks, max_blocks),
{
    let mut ratios: Vec<(usize, usize)> = Vec::new();
    let mut blocks: usize = if min_blocks == 0 {
        1
    } else {
        min_blocks
    };
    proof {
        assert forall|r: (usize, usize)|
            is_grid(r, min_blocks, max_blocks) && r.0 * r.1
                < blocks implies #[trigger] ratios@.contains(r) by {
            assert(r.0 * r.1 >= 1) by (nonlinear_arith)
                requires
                    r.0 >= 1,
                    r.1 >= 1,
            ;
        }
    }
    while blocks <= max_blocks
        invariant
            max_blocks < usize::MAX,
            blocks >= 1,
            blocks >= min_blocks,
            blocks <= max_blocks + 1 || ratios@.len() == 0 && max_blocks < min_blocks,
            min_blocks <= 1 || blocks >= min_blocks,
            forall|i: int|
                0 <= i < ratios.len() ==> is_grid(#[trigger] ratios[i], min_blocks, max_blocks)
                    && ratios[i].0 * ratios[i].1 < blocks,
            forall|i: int, j: int|
                0 <= i < j < ratios.len() ==> grid_before(
                    #[trigger] ratios[i],
                    #[trigger] ratios[j],
                ),
            forall|r: (usize, usize)|
                is_grid(r, min_blocks, max_blocks) && r.0 * r.1 < blocks
                    ==> #[trigger] ratios@.contains(r),
        decreases max_blocks + 1 - blocks,
    {
        let mut cols: usize = 1;
        while cols <= blocks
            invariant
                1 <= blocks <= max_blocks < usize::MAX,
                blocks >= min_blocks,
                1 <= cols <= blocks + 1,
                forall|i: int|
                    0 <= i < ratios.len() ==> is_grid(#[trigger] ratios[i], min_blocks, max_blocks)
                        && (ratios[i].0 * ratios[i].1 < blocks || (ratios[i].0 * ratios[i].1
                        == blocks && ratios[i].0 < cols)),
                forall|i: int, j: int|
                    0 <= i < j < ratios.len() ==> grid_before(
                        #[trigger] ratios[i],
                        #[trigger] ratios[j],
                    ),
                forall|r: (usize, usize)|
                    is_grid(r, min_blocks, max_blocks) && (r.0 * r.1 < blocks || (r.0 * r.1
                        == blocks && r.0 < cols)) ==> #[trigger] ratios@.contains(r),
            decreases blocks + 1 - cols,
        {
            let ghost before = ratios@;
            let rows: usize = blocks / cols;
            if blocks % cols == 0 {
                proof {
                    assert(cols * rows == blocks && rows >= 1) by (nonlinear_arith)
                        requires
                            1 <= cols <= blocks,
                            blocks % cols == 0,
                            rows == blocks / cols,
                    ;
                }
                ratios.push((cols, rows));
                proof {
                    assert forall|r: (usize, usize)|
                        is_grid(r, min_blocks, max_blocks) && (r.0 * r.1 < blocks || (r.0 * r.1
                            == blocks && r.0 < cols + 1)) implies #[trigger] ratios@.contains(
                        r,
                    ) by {
                        if r.0 * r.1 == blocks && r.0 == cols {
                            assert(r.1 == rows) by (nonlinear_arith)
                                requires
                                    cols * rows == blocks,
                                    cols * r.1 == blocks,
                                    cols >= 1,
                            ;
                            assert(ratios@.last() == r);
                            assert(ratios@[ratios@.len() - 1] == r);
                        } else {
                            assert(before.contains(r));
                            let i = choose|i: int| 0 <= i < before.len() && before[i] == r;
                            assert(ratios@[i] == r);
                        }
                    }
                }
            } else {
                proof {
                    assert forall|r: (usize, usize)|
                        is_grid(r, min_blocks, max_blocks) && (r.0 * r.1 < blocks || (r.0 * r.1
                            == blocks && r.0 < cols + 1)) implies #[trigger] ratios@.contains(
                        r,
                    ) by {
                        if r.0 * r.1 == blocks && r.0 == cols {
                            assert(blocks % cols == 0) by (nonlinear_arith)
                                requires
                                    cols * r.1 == blocks,
                                    cols >= 1,
                            ;
                        }
                    }
                }
            }
            cols = cols + 1;
        }
        proof {
            assert forall|r: (usize, usize)|
                is_grid(r, min_blocks, max_blocks) && r.0 * r.1 < blocks
                    + 1 implies #[trigger] ratios@.contains(r) by {
                assert(r.0 <= r.0 * r.1) by (nonlinear_arith)
                    requires
                        r.1 >= 1,
                        r.0 >= 0,
                ;
            }
        }
        blocks = blocks + 1;
    }
    proof {
        assert forall|r: (usize, usize)|
            is_grid(r, min_blocks, max_blocks) implies #[trigger] ratios@.contains(r) by {
            assert(r.0 * r.1 < blocks);
        }
    }
    ratios
}

/// Fractions are held as multiples of 2 to the power of minus this.
pub const FRACTION_BITS: u32 = 116;

/// The double 0.2 as such a multiple.
pub const ASPECT_TOLERANCE: u128 = 16615349947311449333634791938981888;

/// A grid with the distances of its area and its aspect from those of the image,
/// in double precision.
pub struct Candidate {
    pub ratio: (usize, usize),
    pub area: nat,
    pub aspect: nat,
}

/// `n / d` in double precision, as a multiple of 2 to the power of -[`FRACTION_BITS`].
pub open spec fn fraction(n: nat, d: nat) -> nat {
    double::nearest(double::nearest(n, 1) * power2::pow2(116), double::nearest(d, 1))
}

/// What stands for an infinite fraction: the first power of two that a double cannot
/// hold.
pub open spec fn infinite() -> nat {
    0x10_0000_0000_0000 * power2::pow2(1088)
}

/// What stands for a fraction that is not a number, which is beyond every number.
pub open spec fn no_number() -> nat {
    0x10_0000_0000_0000 * power2::pow2(1089)
}

/// The distance of a grid's aspect from that of the image.
pub open spec fn aspect_distance(aspect: nat, ratio: (usize, usize)) -> nat {
    if ratio.1 > 0 {
        double::nearest(double::distance(aspect, fraction(ratio.0 as nat, ratio.1 as nat)), 1)
    } else if ratio.0 > 0 {
        infinite()
    } else {
        no_number()
    }
}

/// The score of one grid, each step rounded to double precision.
pub open spec fn scored(width: u32, height: u32, image_size: u32, ratio: (usize, usize)) -> Candidate {
    let area = double::nearest(width as nat * height as nat, 1);
    let square = double::nearest(image_size as nat * image_size as nat, 1);
    let blocks = double::nearest(ratio.0 as nat * ratio.1 as nat, 1);
    let target = double::nearest(square * blocks, 1);
    let aspect = fraction(width as nat, height as nat);
    Candidate {
        ratio,
        area: double::nearest(double::distance(area, target), 1),
        aspect: aspect_distance(aspect, ratio),
    }
}

/// All grids with their scores.
pub open spec fn scores(
    width: u32,
    height: u32,
    image_size: u32,
    ratios: Seq<(usize, usize)>,
) -> Seq<Candidate> {
    ratios.map_values(|r: (usize, usize)| scored(width, height, image_size, r))
}

/// The grids with nearly the aspect of the image; all of them if there is none.
pub open spec fn candidates(all: Seq<Candidate>) -> Seq<Candidate> {
    let close = close_ones(all);
    if close.len() == 0 {
        all
    } else {
        close
    }
}

/// The grids whose aspect is within the tolerance, in order.
pub open spec fn close_ones(all: Seq<Candidate>) -> Seq<Candidate>
    decreases all.len(),
{
    if all.len() == 0 {
        Seq::empty()
    } else if all.last().aspect <= ASPECT_TOLERANCE {
        close_ones(all.drop_last()).push(all.last())
    } else {
        close_ones(all.drop_last())
    }
}

/// The first candidate with the least area distance.
pub open spec fn is_first_least_area(c: Seq<Candidate>, i: int) -> bool {
    &&& 0 <= i < c.len()
    &&& forall|j: int| 0 <= j < c.len() ==> c[i].area <= (#[trigger] c[j]).area
    &&& forall|j: int| 0 <= j < i ==> c[i].area < (#[trigger] c[j]).area
}

/// The first candidate with the least aspect distance.
pub open spec fn is_first_least_aspect(c: Seq<Candidate>, i: int) -> bool {
    &&& 0 <= i < c.len()
    &&& forall|j: int| 0 <= j < c.len() ==> c[i].aspect <= (#[trigger] c[j]).aspect
    &&& forall|j: int| 0 <= j < i ==> c[i].aspect < (#[trigger] c[j]).aspect
}

/// The first `n` candidates in the order of their area distance; of equal ones
/// the earlier comes first.
pub open spec fn nearest_areas(c: Seq<Candidate>, n: nat) -> Seq<Candidate>
    decreases n,
{
    if n == 0 || c.len() == 0 {
        Seq::empty()
    } else {
        let i = choose|i: int| is_first_least_area(c, i);
        seq![c[i]] + nearest_areas(c.remove(i), (n - 1) as nat)
    }
}

/// The grid for an image: among the three candidates nearest in area, the first
/// one nearest in aspect.
pub open spec fn is_closest(c: Seq<Candidate>, ratio: (usize, usize)) -> bool {
    let three = nearest_areas(c, 3);
    if c.len() == 0 {
        ratio == (1usize, 1usize)
    } else {
        exists|i: int| is_first_least_aspect(three, i) && ratio == (#[trigger] three[i]).ratio
    }
}

/// A candidate that is computed.
#[derive(Debug, Clone, Copy)]
pub struct Scored {
    pub ratio: (usize, usize),
    pub area: Double,
    pub aspect: Double,
}

impl View for Scored {
    type V = Candidate;

    open spec fn view(&self) -> Candidate {
        Candidate { ratio: self.ratio, area: self.area.value(), aspect: self.aspect.value() }
    }
}

impl Scored {
    /// The distances are doubles.
    pub open spec fn wf(self) -> bool {
        self.area.wf() && self.aspect.wf()
    }
}

/// The candidates of a list.
pub open spec fn candidate_views(list: Seq<Scored>) -> Seq<Candidate> {
    list.map_values(|c: Scored| c@)
}

/// All candidates of a list hold doubles.
pub open spec fn all_wf(list: Seq<Scored>) -> bool {
    forall|i: int| 0 <= i < list.len() ==> (#[trigger] list[i]).wf()
}

/// Computes [`fraction`].
fn quotient(n: usize, d: usize) -> (r: Double)
    requires
        d > 0,
    ensures
        r.wf(),
        r.value() == fraction(n as nat, d as nat),
        r.e <= 244,
{
    let num: u128 = double::round_ratio(n as u128, 1);
    let den: u128 = double::round_ratio(d as u128, 1);
    Double::rounded(num, den, FRACTION_BITS)
}

/// Computes [`aspect_distance`].
fn aspect_gap(aspect: &Double, ratio: (usize, usize)) -> (r: Double)
    requires
        aspect.wf(),
        aspect.e <= 4000,
    ensures
        r.wf(),
        r.value() == aspect_distance(aspect.value(), ratio),
{
    if ratio.1 > 0 {
        aspect.distance_to(&quotient(ratio.0, ratio.1))
    } else if ratio.0 > 0 {
        Double { m: 0x10_0000_0000_0000, e: 1088 }
    } else {
        Double { m: 0x10_0000_0000_0000, e: 1089 }
    }
}

/// Scores one grid.
fn score(width: u32, height: u32, image_size: u32, ratio: (usize, usize)) -> (c: Scored)
    requires
        height > 0,
        ratio.0 * ratio.1 <= usize::MAX,
    ensures
        c.wf(),
        c@ == scored(width, height, image_size, ratio),
{
    proof {
        assert(width * height <= 0xffff_ffff * 0xffff_ffff) by (nonlinear_arith)
            requires
                width <= 0xffff_ffff,
                height <= 0xffff_ffff,
        ;
        assert(image_size * image_size <= 0xffff_ffff * 0xffff_ffff) by (nonlinear_arith)
            requires
                image_size <= 0xffff_ffff,
        ;
    }
    let area: Double = Double::whole(width as u128 * height as u128);
    let square: Double = Double::whole(image_size as u128 * image_size as u128);
    let blocks: Double = Double::whole((ratio.0 * ratio.1) as u128);
    let target: Double = square.times(&blocks);
    let aspect: Double = quotient(width as usize, height as usize);
    Scored { ratio, area: area.distance_to(&target), aspect: aspect_gap(&aspect, ratio) }
}

/// Whether the aspect of a grid is within the tolerance.
fn is_close(c: &Scored) -> (r: bool)
    requires
        c.wf(),
    ensures
        r == (c@.aspect <= ASPECT_TOLERANCE),
{
    let tolerance: Double = Double { m: 0x19_9999_9999_999a, e: 61 };
    proof {
        power2::lemma2_to64_rest();
        assert(tolerance.value() == ASPECT_TOLERANCE) by (nonlinear_arith)
            requires
                tolerance.value() == 0x19_9999_9999_999a * power2::pow2(61),
                power2::pow2(61) == 0x2000000000000000,
                ASPECT_TOLERANCE == 16615349947311449333634791938981888u128,
        ;
    }
    !tolerance.less(&c.aspect)
}

/// There is exactly one first candidate with the least area distance.
proof fn lemma_first_least_area_unique(c: Seq<Candidate>, i: int, j: int)
    requires
        is_first_least_area(c, i),
        is_first_least_area(c, j),
    ensures
        i == j,
{
    if i < j {
        assert(c[j].area < c[i].area);
    } else if j < i {
        assert(c[i].area < c[j].area);
    }
}

/// Takes the first candidate with the least area distance out of the list.
fn take_least_area(c: &mut Vec<Scored>) -> (best: Scored)
    requires
        old(c).len() > 0,
        all_wf(old(c)@),
    ensures
        ({
            let before = candidate_views(old(c)@);
            let i = choose|i: int| is_first_least_area(before, i);
            &&& is_first_least_area(before, i)
            &&& best@ == before[i]
            &&& candidate_views(final(c)@) == before.remove(i)
        }),
        best.wf(),
        all_wf(final(c)@),
        final(c).len() + 1 == old(c).len(),
{
    let mut at: usize = 0;
    let mut i: usize = 1;
    while i < c.len()
        invariant
            at < i <= c.len(),
            c@ == old(c)@,
            all_wf(c@),
            forall|j: int| 0 <= j < i ==> c[at as int]@.area <= (#[trigger] c[j])@.area,
            forall|j: int| 0 <= j < at ==> c[at as int]@.area < (#[trigger] c[j])@.area,
        decreases c.len() - i,
    {
        if c[i].area.less(&c[at].area) {
            at = i;
        }
        i = i + 1;
    }
    let ghost before = candidate_views(c@);
    proof {
        assert forall|j: int| 0 <= j < before.len() implies before[at as int].area <= (
        #[trigger] before[j]).area by {
            assert(c[at as int]@.area <= c[j]@.area);
        }
        assert forall|j: int| 0 <= j < at implies before[at as int].area < (
        #[trigger] before[j]).area by {
            assert(c[at as int]@.area < c[j]@.area);
        }
        assert(is_first_least_area(before, at as int));
        let k = choose|k: int| is_first_least_area(before, k);
        lemma_first_least_area_unique(before, at as int, k);
    }
    let best: Scored = c.remove(at);
    proof {
        assert(candidate_views(c@) =~= before.remove(at as int));
    }
    best
}

/// Adds a candidate to a list.
fn push_scored(list: &mut Vec<Scored>, c: Scored)
    requires
        all_wf(old(list)@),
        c.wf(),
    ensures
        all_wf(final(list)@),
        candidate_views(final(list)@) == candidate_views(old(list)@).push(c@),
        final(list).len() == old(list).len() + 1,
{
    list.push(c);
    proof {
        assert(candidate_views(list@) =~= candidate_views(old(list)@).push(c@));
    }
}

/// Chooses the grid for an image of the given size from `ratios`.
pub fn closest_ratio(width: u32, height: u32, image_size: u32, ratios: &Vec<(usize, usize)>) -> (r: (
    usize,
    usize,
))
    requires
        height > 0,
        forall|i: int|
            0 <= i < ratios.len() ==> (#[trigger] ratios[i]).0 * ratios[i].1 <= usize::MAX,
    ensures
        is_closest(candidates(scores(width, height, image_size, ratios@)), r),
{
    let ghost all = scores(width, height, image_size, ratios@);
    let mut every: Vec<Scored> = Vec::new();
    let mut close: Vec<Scored> = Vec::new();
    let mut i: usize = 0;
    proof {
        assert(candidate_views(every@) =~= all.take(0));
        assert(candidate_views(close@) =~= Seq::<Candidate>::empty());
    }
    while i < ratios.len()
        invariant
            i <= ratios.len(),
            height > 0,
            forall|i: int|
                0 <= i < ratios.len() ==> (#[trigger] ratios[i]).0 * ratios[i].1 <= usize::MAX,
            all == scores(width, height, image_size, ratios@),
            all_wf(every@),
            all_wf(close@),
            candidate_views(every@) == all.take(i as int),
            candidate_views(close@) == close_ones(all.take(i as int)),
        decreases ratios.len() - i,
    {
        let c = score(width, height, image_size, ratios[i]);
        proof {
            assert(all[i as int] == c@);
            assert(all.take(i + 1).drop_last() =~= all.take(i as int));
            assert(all.take(i + 1) =~= all.take(i as int).push(c@));
        }
        push_scored(&mut every, c);
        if is_close(&c) {
            push_scored(&mut close, c);
        }
        i = i + 1;
    }
    proof {
        assert(all.take(i as int) =~= all);
        assert(candidate_views(close@).len() == close@.len());
    }
    if close.len() == 0 {
        choose_candidate(every)
    } else {
        choose_candidate(close)
    }
}

/// The candidates nearest in area, three at most.
fn nearest_three(c: Vec<Scored>) -> (three: Vec<Scored>)
    requires
        all_wf(c@),
    ensures
        candidate_views(three@) == nearest_areas(candidate_views(c@), 3),
        all_wf(three@),
        c.len() > 0 ==> three.len() > 0,
{
    let ghost c0 = candidate_views(c@);
    let mut pool = c;
    let mut three: Vec<Scored> = Vec::new();
    proof {
        assert(candidate_views(three@) + nearest_areas(c0, 3) =~= nearest_areas(c0, 3));
    }
    while three.len() < 3 && pool.len() > 0
        invariant
            three.len() <= 3,
            all_wf(pool@),
            all_wf(three@),
            candidate_views(three@) + nearest_areas(
                candidate_views(pool@),
                (3 - three.len()) as nat,
            ) == nearest_areas(c0, 3),
            three.len() + pool.len() == c0.len(),
        decreases pool.len(),
    {
        let ghost taken = candidate_views(three@);
        let ghost p0 = candidate_views(pool@);
        let ghost n = (3 - three.len()) as nat;
        let best = take_least_area(&mut pool);
        push_scored(&mut three, best);
        proof {
            let rest = nearest_areas(candidate_views(pool@), (3 - three.len()) as nat);
            assert(nearest_areas(p0, n) == seq![best@] + rest);
            assert(taken + (seq![best@] + rest) =~= candidate_views(three@) + rest);
        }
    }
    proof {
        let rest = nearest_areas(candidate_views(pool@), (3 - three.len()) as nat);
        assert(rest =~= Seq::<Candidate>::empty());
        assert(candidate_views(three@) + Seq::<Candidate>::empty() =~= candidate_views(three@));
    }
    three
}

/// Chooses among the candidates.
fn choose_candidate(c: Vec<Scored>) -> (r: (usize, usize))
    requires
        all_wf(c@),
    ensures
        is_closest(candidate_views(c@), r),
{
    if c.len() == 0 {
        return (1, 1);
    }
    let three = nearest_three(c);
    let mut at: usize = 0;
    let mut i: usize = 1;
    while i < three.len()
        invariant
            at < i <= three.len(),
            all_wf(three@),
            forall|j: int| 0 <= j < i ==> three[at as int]@.aspect <= (#[trigger] three[j])@.aspect,
            forall|j: int| 0 <= j < at ==> three[at as int]@.aspect < (#[trigger] three[j])@.aspect,
        decreases three.len() - i,
    {
        if three[i].aspect.less(&three[at].aspect) {
            at = i;
        }
        i = i + 1;
    }
    proof {
        let v = candidate_views(three@);
        assert forall|j: int| 0 <= j < v.len() implies v[at as int].aspect <= (
        #[trigger] v[j]).aspect by {
            assert(three[at as int]@.aspect <= three[j]@.aspect);
        }
        assert forall|j: int| 0 <= j < at implies v[at as int].aspect < (
        #[trigger] v[j]).aspect by {
            assert(three[at as int]@.aspect < three[j]@.aspect);
        }
        assert(is_first_least_aspect(v, at as int));
        assert(v[at as int].ratio == three[at as int].ratio);
    }
    three[at].ratio
}

/// `tile` is the square of an image, `width` pixels wide, that a grid with `cols`
/// columns numbers `k`.
pub open spec fn is_tile(
    tile: RgbBytes,
    pixels: Seq<u8>,
    width: int,
    size: u32,
    cols: int,
    k: int,
) -> bool {
    &&& tile.wf()
    &&& tile.width == size
    &&& tile.height == size
    &&& forall|i: int|
        0 <= i < size ==> #[trigger] tile.row(i) == image::row_of(
            pixels,
            width,
            (k / cols) * size + i,
        ).subrange(3 * ((k % cols) * size), 3 * ((k % cols) * size + size))
}

/// Cuts an image into its grid of square tiles, row by row.
pub fn cut_tiles(image: &RgbBytes, size: u32, cols: u32, rows: u32) -> (tiles: Vec<RgbBytes>)
    requires
        image.wf(),
        cols > 0,
        size > 0,
        image.width == size * cols,
        image.height == size * rows,
        cols * rows <= usize::MAX,
    ensures
        tiles.len() == cols * rows,
        forall|k: int|
            0 <= k < tiles.len() ==> is_tile(
                #[trigger] tiles[k],
                image.pixels@,
                image.width as int,
                size,
                cols as int,
                k,
            ),
{
    let count: usize = cols as usize * rows as usize;
    let mut tiles: Vec<RgbBytes> = Vec::new();
    let mut k: usize = 0;
    while k < count
        invariant
            image.wf(),
            cols > 0,
            size > 0,
            image.width == size * cols,
            image.height == size * rows,
            count == cols * rows,
            k <= count,
            tiles.len() == k,
            forall|j: int|
                0 <= j < k ==> is_tile(
                    #[trigger] tiles[j],
                    image.pixels@,
                    image.width as int,
                    size,
                    cols as int,
                    j,
                ),
        decreases count - k,
    {
        let row: usize = k / cols as usize;
        let col: usize = k % cols as usize;
        proof {
            assert(row < rows) by (nonlinear_arith)
                requires
                    row == k / cols as usize,
                    k < cols * rows,
                    cols > 0,
            ;
            assert(col * size + size <= size * cols) by (nonlinear_arith)
                requires
                    col + 1 <= cols,
            ;
            assert(row * size + size <= size * rows) by (nonlinear_arith)
                requires
                    row + 1 <= rows,
            ;
            assert(col * size >= 0 && row * size >= 0) by (nonlinear_arith);
        }
        let tile = image::crop(image, col as u32 * size, row as u32 * size, size, size);
        proof {
            assert(k as int / cols as int == row);
            assert(k as int % cols as int == col);
            assert(is_tile(
                tile,
                image.pixels@,
                image.width as int,
                size,
                cols as int,
                k as int,
            ));
        }
        tiles.push(tile);
        k = k + 1;
    }
    tiles
}

/// `tiles` are the tiles of an image that is resampled to a grid of `cols` columns and
/// `rows` rows, and its thumbnail where one is asked for and there are several tiles.
pub open spec fn are_tiles(
    tiles: Seq<RgbBytes>,
    image: RgbBytes,
    size: u32,
    cols: u32,
    rows: u32,
    use_thumbnail: bool,
) -> bool {
    &&& tiles.len() == cols * rows + if use_thumbnail && cols * rows != 1 {
        1int
    } else {
        0
    }
    &&& exists|pixels: Seq<u8>|
        {
            &&& #[trigger] image::resamplings(
                image.pixels@,
                image.width,
                image.height,
                (size * cols) as u32,
                (size * rows) as u32,
                Filter::CatmullRom,
            ).contains(pixels)
            &&& image.width == size * cols && image.height == size * rows ==> pixels
                == image.pixels@
            &&& forall|k: int|
                0 <= k < cols * rows ==> is_tile(
                    #[trigger] tiles[k],
                    pixels,
                    (size * cols) as int,
                    size,
                    cols as int,
                    k,
                )
        }
    &&& use_thumbnail && cols * rows != 1 ==> image::is_resampled(
        tiles.last(),
        image,
        size,
        size,
        Filter::CatmullRom,
    )
}

/// Resamples an image to a grid and cuts it into tiles.
pub fn tile_images(
    image: &RgbBytes,
    size: u32,
    cols: u32,
    rows: u32,
    use_thumbnail: bool,
) -> (tiles: Vec<RgbBytes>)
    requires
        image.wf(),
        cols > 0,
        rows > 0,
        size > 0,
        size * cols <= u32::MAX,
        size * rows <= u32::MAX,
        cols * rows < usize::MAX,
        image::resizable(image.width, image.height, (size * cols) as u32, (size * rows) as u32),
        use_thumbnail ==> image::resizable(image.width, image.height, size, size),
    ensures
        are_tiles(tiles@, *image, size, cols, rows, use_thumbnail),
{
    let resized = image::resample(image, size * cols, size * rows, Filter::CatmullRom);
    let mut tiles = cut_tiles(&resized, size, cols, rows);
    proof {
        assert(cols * rows >= 1) by (nonlinear_arith)
            requires
                cols >= 1,
                rows >= 1,
        ;
    }
    let ghost cut = tiles@;
    if use_thumbnail && tiles.len() != 1 {
        tiles.push(image::resample(image, size, size, Filter::CatmullRom));
    }
    proof {
        assert(image::resamplings(
            image.pixels@,
            image.width,
            image.height,
            (size * cols) as u32,
            (size * rows) as u32,
            Filter::CatmullRom,
        ).contains(resized.pixels@));
        assert forall|k: int| 0 <= k < cols * rows implies is_tile(
            #[trigger] tiles@[k],
            resized.pixels@,
            (size * cols) as int,
            size,
            cols as int,
            k,
        ) by {
            assert(tiles@[k] == cut[k]);
        }
    }
    tiles
}

/// The largest grid that is considered: one place more than configured where a
/// thumbnail is added.
pub open spec fn most_blocks(max_dynamic_patch: usize, use_thumbnail: bool) -> int {
    if use_thumbnail && max_dynamic_patch != 1 {
        max_dynamic_patch + 1
    } else {
        max_dynamic_patch as int
    }
}

/// The largest grid that is considered.
pub fn max_grid_blocks(max_dynamic_patch: usize, use_thumbnail: bool) -> (r: usize)
    requires
        max_dynamic_patch < usize::MAX,
    ensures
        r == most_blocks(max_dynamic_patch, use_thumbnail),
{
    if use_thumbnail && max_dynamic_patch != 1 {
        max_dynamic_patch + 1
    } else {
        max_dynamic_patch
    }
}

/// Candidates within the tolerance are among all.
proof fn lemma_close_ones(all: Seq<Candidate>, i: int)
    requires
        0 <= i < close_ones(all).len(),
    ensures
        all.contains(close_ones(all)[i]),
    decreases all.len(),
{
    let before = close_ones(all.drop_last());
    if all.last().aspect <= ASPECT_TOLERANCE && i == before.len() {
        assert(all[all.len() - 1] == close_ones(all)[i]);
    } else {
        lemma_close_ones(all.drop_last(), i);
        let k = choose|k: int|
            0 <= k < all.drop_last().len() && all.drop_last()[k] == close_ones(all.drop_last())[i];
        assert(all[k] == close_ones(all)[i]);
    }
}

/// Candidates near in area are among all.
proof fn lemma_nearest_areas(c: Seq<Candidate>, n: nat, i: int)
    requires
        0 <= i < nearest_areas(c, n).len(),
        c.len() > 0 ==> exists|k: int| is_first_least_area(c, k),
    ensures
        c.contains(nearest_areas(c, n)[i]),
    decreases n,
{
    let at = choose|k: int| is_first_least_area(c, k);
    let rest = c.remove(at);
    if i == 0 {
        assert(c[at] == nearest_areas(c, n)[i]);
    } else {
        lemma_least_area_exists(rest);
        lemma_nearest_areas(rest, (n - 1) as nat, i - 1);
        let k = choose|k: int|
            0 <= k < rest.len() && rest[k] == nearest_areas(rest, (n - 1) as nat)[i - 1];
        if k < at {
            assert(c[k] == rest[k]);
        } else {
            assert(c[k + 1] == rest[k]);
        }
    }
}

/// Among several candidates one has the least area distance first.
proof fn lemma_least_area_exists(c: Seq<Candidate>)
    ensures
        c.len() > 0 ==> exists|k: int| is_first_least_area(c, k),
    decreases c.len(),
{
    if c.len() == 1 {
        assert(is_first_least_area(c, 0));
    } else if c.len() > 1 {
        let before = c.drop_last();
        lemma_least_area_exists(before);
        let k = choose|k: int| is_first_least_area(before, k);
        assert forall|j: int| 0 <= j < before.len() implies before[j] == #[trigger] c[j] by {}
        if c.last().area < c[k].area {
            assert forall|j: int| 0 <= j < c.len() - 1 implies c.last().area < (#[trigger] c[j]).area by {
                assert(before[k].area <= before[j].area);
            }
            assert(is_first_least_area(c, c.len() - 1));
        } else {
            assert forall|j: int| 0 <= j < c.len() implies c[k].area <= (#[trigger] c[j]).area by {
                if j < before.len() {
                    assert(before[k].area <= before[j].area);
                }
            }
            assert forall|j: int| 0 <= j < k implies c[k].area < (#[trigger] c[j]).area by {
                assert(before[k].area < before[j].area);
            }
            assert(is_first_least_area(c, k));
        }
    }
}

/// The grid that is chosen for an image is one of those that are offered, if there
/// are any.
pub proof fn law_chosen_grid_is_offered(
    width: u32,
    height: u32,
    image_size: u32,
    ratios: Seq<(usize, usize)>,
    r: (usize, usize),
)
    requires
        is_closest(candidates(scores(width, height, image_size, ratios)), r),
    ensures
        ratios.len() > 0 ==> ratios.contains(r),
        ratios.len() == 0 ==> r == (1usize, 1usize),
{
    let all = scores(width, height, image_size, ratios);
    let c = candidates(all);
    if ratios.len() > 0 {
        let three = nearest_areas(c, 3);
        let i = choose|i: int| is_first_least_aspect(three, i) && r == (#[trigger] three[i]).ratio;
        lemma_least_area_exists(c);
        lemma_nearest_areas(c, 3, i);
        let k = choose|k: int| 0 <= k < c.len() && c[k] == three[i];
        if close_ones(all).len() > 0 {
            lemma_close_ones(all, k);
        }
        let m = choose|m: int| 0 <= m < all.len() && all[m] == c[k];
        assert(all.contains(c[k]));
        assert(ratios[m] == r);
    }
}

/// What is nearer in area than one of the nearest is among the nearest.
proof fn lemma_nearer_is_among_nearest(c: Seq<Candidate>, n: nat, t: int, k: int)
    requires
        0 <= t < nearest_areas(c, n).len(),
        0 <= k < c.len(),
        c[k].area < nearest_areas(c, n)[t].area,
    ensures
        nearest_areas(c, n).contains(c[k]),
    decreases n,
{
    lemma_least_area_exists(c);
    let at = choose|i: int| is_first_least_area(c, i);
    let rest = c.remove(at);
    let near = nearest_areas(c, n);
    if k == at {
        assert(near[0] == c[k]);
    } else {
        assert(t > 0);
        let at_rest = if k < at {
            k
        } else {
            k - 1
        };
        assert(rest[at_rest] == c[k]);
        let nearest_rest = nearest_areas(rest, (n - 1) as nat);
        assert(near[t] == nearest_rest[t - 1]);
        lemma_nearer_is_among_nearest(rest, (n - 1) as nat, t - 1, at_rest);
        let i = choose|i: int| 0 <= i < nearest_rest.len() && nearest_rest[i] == c[k];
        assert(near[i + 1] == c[k]);
    }
}

/// No candidate is nearer than candidate `i` in both area and aspect.
pub open spec fn is_undominated(c: Seq<Candidate>, i: int) -> bool {
    &&& 0 <= i < c.len()
    &&& forall|j: int|
        0 <= j < c.len() ==> !((#[trigger] c[j]).area < c[i].area && c[j].aspect < c[i].aspect)
}

/// The grid that is chosen is a candidate that no other candidate surpasses in both
/// area and aspect.
pub proof fn law_chosen_grid_is_undominated(
    width: u32,
    height: u32,
    image_size: u32,
    ratios: Seq<(usize, usize)>,
    r: (usize, usize),
)
    requires
        ratios.len() > 0,
        is_closest(candidates(scores(width, height, image_size, ratios)), r),
    ensures
        exists|i: int|
            #[trigger] is_undominated(candidates(scores(width, height, image_size, ratios)), i)
                && candidates(scores(width, height, image_size, ratios))[i].ratio == r,
{
    let c = candidates(scores(width, height, image_size, ratios));
    let three = nearest_areas(c, 3);
    let t = choose|t: int| is_first_least_aspect(three, t) && r == (#[trigger] three[t]).ratio;
    lemma_least_area_exists(c);
    lemma_nearest_areas(c, 3, t);
    let i = choose|i: int| 0 <= i < c.len() && c[i] == three[t];
    assert forall|j: int| 0 <= j < c.len() implies !((#[trigger] c[j]).area < c[i].area
        && c[j].aspect < c[i].aspect) by {
        if c[j].area < c[i].area {
            lemma_nearer_is_among_nearest(c, 3, t, j);
            let k = choose|k: int| 0 <= k < three.len() && three[k] == c[j];
            assert(three[t].aspect <= three[k].aspect);
        }
    }
    assert(is_undominated(c, i));
}

/// The tiles of a page, and how each of them is cut into patches.
#[derive(Debug, Clone)]
pub struct HpdImageInputs {
    pub tiles: Vec<RgbBytes>,
    pub num_tiles: usize,
    /// The side of a tile, in patches.
    pub grid: usize,
    /// The number of values of a patch.
    pub patch_dim: usize,
}

/// The tiles that a page is cut into at most; there is always one.
pub open spec fn most_tiles(cfg: HpdParsingConfig) -> int {
    let blocks = most_blocks(cfg.max_dynamic_patch, cfg.use_thumbnail);
    if blocks < 1 {
        1
    } else {
        blocks
    }
}

/// A page, a tile and their patches are not too large.
pub open spec fn page_fits(image: RgbBytes, cfg: HpdParsingConfig) -> bool {
    let size = cfg.force_image_size as int;
    let blocks = most_tiles(cfg);
    let vision = cfg.vision_config;
    &&& image.width <= image::LONGEST_SIDE
    &&& image.height <= image::LONGEST_SIDE
    &&& 0 < size
    &&& vision.patch_size > 0
    &&& size * blocks <= image::LONGEST_SIDE
    &&& image.width * (size * blocks) * 16 <= isize::MAX
    &&& (size * size) * blocks * 3 <= isize::MAX
    &&& vision.num_channels * vision.patch_size <= usize::MAX
    &&& vision.num_channels * vision.patch_size * vision.patch_size <= usize::MAX
}

/// Whether a page, a tile and their patches are not too large.
pub fn can_preprocess(image: &RgbBytes, cfg: &HpdParsingConfig) -> (r: bool)
    ensures
        r == page_fits(*image, *cfg),
{
    let vision = &cfg.vision_config;
    let longest: usize = image::LONGEST_SIDE as usize;
    let size: usize = cfg.force_image_size;
    if image.width > image::LONGEST_SIDE || image.height > image::LONGEST_SIDE {
        return false;
    }
    if size == 0 || vision.patch_size == 0 {
        return false;
    }
    let ghost most = most_tiles(*cfg);
    proof {
        assert(size * most >= most && size * most >= size) by (nonlinear_arith)
            requires
                size >= 1,
                most >= 1,
        ;
    }
    if size > longest || cfg.max_dynamic_patch > longest {
        return false;
    }
    let grid: usize = max_grid_blocks(cfg.max_dynamic_patch, cfg.use_thumbnail);
    let blocks: u64 = if grid < 1 {
        1
    } else {
        grid as u64
    };
    let limit: u128 = isize::MAX as u128;
    proof {
        assert(size * blocks <= 0x40_0000 * 0x40_0001) by (nonlinear_arith)
            requires
                size <= 0x40_0000,
                blocks <= 0x40_0001,
        ;
    }
    let side: u64 = size as u64 * blocks;
    if side > image::LONGEST_SIDE as u64 {
        return false;
    }
    proof {
        assert(image.width * side <= 0x40_0000 * 0x40_0000 && size * side <= 0x40_0000
            * 0x40_0000) by (nonlinear_arith)
            requires
                image.width <= 0x40_0000,
                size <= 0x40_0000,
                side <= 0x40_0000,
        ;
        assert(image.width * side >= 0 && size * side >= 0) by (nonlinear_arith);
        assert(size * side == (size * size) * blocks) by (nonlinear_arith)
            requires
                side == size * blocks,
        ;
    }
    if image.width as u128 * side as u128 * 16 > limit || size as u128 * side as u128 * 3 > limit {
        return false;
    }
    match vision.num_channels.checked_mul(vision.patch_size) {
        Some(row) => row.checked_mul(vision.patch_size).is_some(),
        None => false,
    }
}

/// `tiles` are those of a page for which `grid` was chosen from `ratios`.
pub open spec fn are_page_tiles(
    tiles: Seq<RgbBytes>,
    image: RgbBytes,
    cfg: HpdParsingConfig,
    ratios: Seq<(usize, usize)>,
    grid: (usize, usize),
) -> bool {
    let size = cfg.force_image_size as u32;
    let blocks = most_blocks(cfg.max_dynamic_patch, cfg.use_thumbnail) as usize;
    &&& are_ratios(ratios, cfg.min_dynamic_patch, blocks)
    &&& is_closest(candidates(scores(image.width, image.height, size, ratios)), grid)
    &&& are_tiles(tiles, image, size, grid.0 as u32, grid.1 as u32, cfg.use_thumbnail)
}

/// `inputs` are the tiles of a page and their measures.
pub open spec fn are_inputs(
    inputs: HpdImageInputs,
    image: RgbBytes,
    cfg: HpdParsingConfig,
) -> bool {
    let vision = cfg.vision_config;
    &&& exists|ratios: Seq<(usize, usize)>, grid: (usize, usize)| #[trigger]
        are_page_tiles(inputs.tiles@, image, cfg, ratios, grid)
    &&& inputs.num_tiles == inputs.tiles@.len()
    &&& inputs.grid == cfg.grid()
    &&& inputs.patch_dim == vision.num_channels * vision.patch_size * vision.patch_size
}

/// Cuts a page into tiles: the grid comes from its size, and a thumbnail follows
/// several tiles where the configuration asks for it.
pub fn preprocess_image(image: &RgbBytes, cfg: &HpdParsingConfig) -> (r: Result<
    HpdImageInputs,
    Error,
>)
    requires
        image.wf(),
        image.width > 0 && image.height > 0 ==> page_fits(*image, *cfg),
    ensures
        match r {
            Err(e) => {
                &&& image.width == 0 || image.height == 0
                &&& e@ == ErrorView::InvalidInput("HPD-Parsing cannot process an empty image"@)
            },
            Ok(inputs) => image.width > 0 && image.height > 0 && are_inputs(inputs, *image, *cfg),
        },
{
    if image.width == 0 || image.height == 0 {
        return Err(Error::invalid_input("HPD-Parsing cannot process an empty image"));
    }
    let ghost most = most_tiles(*cfg);
    proof {
        let side = cfg.force_image_size as int;
        assert(most <= side * most && side <= side * most) by (nonlinear_arith)
            requires
                side >= 1,
                most >= 1,
        ;
    }
    let size: u32 = cfg.force_image_size as u32;
    let max_blocks: usize = max_grid_blocks(cfg.max_dynamic_patch, cfg.use_thumbnail);
    let ratios = target_ratios(cfg.min_dynamic_patch, max_blocks);
    proof {
        assert forall|i: int| 0 <= i < ratios.len() implies (#[trigger] ratios[i]).0
            * ratios[i].1 <= usize::MAX by {
            assert(is_grid(ratios[i], cfg.min_dynamic_patch, max_blocks));
        }
    }
    let (cols, rows): (usize, usize) = closest_ratio(image.width, image.height, size, &ratios);
    proof {
        law_chosen_grid_is_offered(image.width, image.height, size, ratios@, (cols, rows));
        if ratios.len() > 0 {
            let i = choose|i: int| 0 <= i < ratios@.len() && ratios@[i] == (cols, rows);
            assert(is_grid(ratios[i], cfg.min_dynamic_patch, max_blocks));
            assert(cols * rows <= max_blocks);
        } else {
            assert(cols * rows == 1);
        }
        lemma_sides(cols as int, rows as int);
        lemma_page_fits(image.width as int, size as int, cols as int, rows as int, most);
    }
    let tiles = tile_images(image, size, cols as u32, rows as u32, cfg.use_thumbnail);
    let vision = &cfg.vision_config;
    let grid: usize = cfg.force_image_size / vision.patch_size;
    let patch_dim: usize = vision.num_channels * vision.patch_size * vision.patch_size;
    let num_tiles: usize = tiles.len();
    let inputs = HpdImageInputs { tiles, num_tiles, grid, patch_dim };
    proof {
        assert(are_page_tiles(inputs.tiles@, *image, *cfg, ratios@, (cols, rows)));
        assert(are_inputs(inputs, *image, *cfg));
    }
    Ok(inputs)
}

/// The sides of a grid are no longer than it has tiles.
proof fn lemma_sides(cols: int, rows: int)
    requires
        cols >= 1,
        rows >= 1,
    ensures
        cols <= cols * rows,
        rows <= cols * rows,
{
    assert(cols <= cols * rows && rows <= cols * rows) by (nonlinear_arith)
        requires
            cols >= 1,
            rows >= 1,
    ;
}

/// A grid of no more than `blocks` tiles is no larger than that many tiles.
proof fn lemma_page_fits(width: int, size: int, cols: int, rows: int, blocks: int)
    requires
        width >= 0,
        size > 0,
        1 <= cols,
        1 <= rows,
        cols * rows <= blocks,
    ensures
        size * cols <= size * blocks,
        size * rows <= size * blocks,
        size <= size * blocks,
        width * (size * rows) * 16 <= width * (size * blocks) * 16,
        width * size * 16 <= width * (size * blocks) * 16,
        (size * cols) * (size * rows) * 3 <= (size * size) * blocks * 3,
        size * size * 3 <= (size * size) * blocks * 3,
{
    lemma_sides(cols, rows);
    assert(size * cols <= size * blocks && size * rows <= size * blocks && size <= size * blocks)
        by (nonlinear_arith)
        requires
            size > 0,
            1 <= cols <= blocks,
            1 <= rows <= blocks,
    ;
    assert(width * (size * rows) <= width * (size * blocks) && width * size <= width * (size
        * blocks)) by (nonlinear_arith)
        requires
            width >= 0,
            0 <= size * rows <= size * blocks,
            0 <= size <= size * blocks,
    ;
    assert((size * cols) * (size * rows) == (size * size) * (cols * rows)) by (nonlinear_arith);
    assert((size * size) * (cols * rows) <= (size * size) * blocks && size * size <= (size * size)
        * blocks) by (nonlinear_arith)
        requires
            cols * rows <= blocks,
            1 <= blocks,
            size > 0,
    ;
}

/// Every grid of at least one row and one column whose tiles are between `min` and
/// `max` is listed, once, and no other; grids with fewer tiles come first, and of those
/// with as many the ones with fewer columns.
pub proof fn law_all_grids_are_listed(
    ratios: Seq<(usize, usize)>,
    min: usize,
    max: usize,
    cols: usize,
    rows: usize,
    i: int,
    j: int,
)
    requires
        are_ratios(ratios, min, max),
        0 <= i < j < ratios.len(),
    ensures
        ratios.contains((cols, rows)) <==> cols > 0 && rows > 0 && min <= cols * rows <= max,
        ratios[i].0 * ratios[i].1 <= ratios[j].0 * ratios[j].1,
        ratios[i].0 * ratios[i].1 == ratios[j].0 * ratios[j].1 ==> ratios[i].0 < ratios[j].0,
{
    if ratios.contains((cols, rows)) {
        let k = ratios.index_of((cols, rows));
        assert(is_grid(ratios[k], min, max));
    }
    assert(is_grid((cols, rows), min, max) ==> ratios.contains((cols, rows)));
    assert(grid_before(ratios[i], ratios[j]));
}

/// A thumbnail makes room for one tile more, except where a page may have one only.
pub proof fn law_thumbnail_adds_a_place(max: usize)
    ensures
        most_blocks(max, false) == max,
        max != 1 ==> most_blocks(max, true) == most_blocks(max, false) + 1,
        most_blocks(1, true) == 1,
{
}

/// Candidate `i` is nearer in area than candidate `j`, or as near and earlier.
pub open spec fn is_nearer(c: Seq<Candidate>, i: int, j: int) -> bool {
    c[i].area < c[j].area || c[i].area == c[j].area && i < j
}

/// `picks` are the `n` candidates nearest in area, the nearest first; all of them if
/// there are no more.
pub open spec fn are_picks(c: Seq<Candidate>, picks: Seq<int>, n: nat) -> bool {
    &&& picks.len() == n || picks.len() == c.len() && c.len() < n
    &&& forall|t: int| 0 <= t < picks.len() ==> 0 <= #[trigger] picks[t] < c.len()
    &&& forall|s: int, t: int|
        0 <= s < t < picks.len() ==> is_nearer(c, #[trigger] picks[s], #[trigger] picks[t])
    &&& forall|k: int, t: int|
        0 <= k < c.len() && 0 <= t < picks.len() && !picks.contains(k) ==> #[trigger] is_nearer(
            c,
            picks[t],
            k,
        )
}

/// The nearest candidates by their places.
proof fn lemma_picks(c: Seq<Candidate>, n: nat) -> (picks: Seq<int>)
    ensures
        are_picks(c, picks, n),
        picks.len() == nearest_areas(c, n).len(),
        forall|t: int| 0 <= t < picks.len() ==> nearest_areas(c, n)[t] == c[#[trigger] picks[t]],
    decreases n,
{
    if n == 0 || c.len() == 0 {
        Seq::empty()
    } else {
        lemma_least_area_exists(c);
        let at = choose|i: int| is_first_least_area(c, i);
        let rest = c.remove(at);
        let sub = lemma_picks(rest, (n - 1) as nat);
        let moved = Seq::new(
            sub.len(),
            |t: int|
                if sub[t] < at {
                    sub[t]
                } else {
                    sub[t] + 1
                },
        );
        let picks = seq![at] + moved;
        assert forall|k: int| 0 <= k < c.len() && k != at implies is_nearer(c, at, k) by {
            assert(c[at].area <= c[k].area);
            if k < at {
                assert(c[at].area < c[k].area);
            }
        }
        assert forall|t: int| 0 <= t < picks.len() implies 0 <= #[trigger] picks[t] < c.len() by {
            if t > 0 {
                assert(0 <= sub[t - 1] < rest.len());
            }
        }
        assert forall|t: int| 0 <= t < picks.len() implies nearest_areas(c, n)[t]
            == c[#[trigger] picks[t]] by {
            if t > 0 {
                assert(nearest_areas(rest, (n - 1) as nat)[t - 1] == rest[sub[t - 1]]);
            }
        }
        assert forall|s: int, t: int| 0 <= s < t < picks.len() implies is_nearer(
            c,
            #[trigger] picks[s],
            #[trigger] picks[t],
        ) by {
            if s > 0 {
                assert(is_nearer(rest, sub[s - 1], sub[t - 1]));
            } else {
                assert(picks[t] != at) by {
                    assert(0 <= sub[t - 1] < rest.len());
                }
            }
        }
        assert forall|k: int, t: int|
            0 <= k < c.len() && 0 <= t < picks.len() && !picks.contains(k) implies #[trigger] is_nearer(
            c,
            picks[t],
            k,
        ) by {
            assert(picks[0] == at);
            assert(k != at);
            if t > 0 {
                let before = if k < at {
                    k
                } else {
                    k - 1
                };
                if sub.contains(before) {
                    let u = sub.index_of(before);
                    assert(picks[u + 1] == k);
                }
                assert(is_nearer(rest, sub[t - 1], before));
            }
        }
        picks
    }
}

/// The grid that is chosen is one of the three candidates nearest in area, and the
/// first of these that is nearest in aspect.
pub proof fn law_three_nearest_areas_compete_by_aspect(c: Seq<Candidate>, ratio: (usize, usize)) -> (r:
    (Seq<int>, int))
    requires
        c.len() > 0,
        is_closest(c, ratio),
    ensures
        are_picks(c, r.0, 3),
        0 <= r.1 < r.0.len(),
        ratio == c[r.0[r.1]].ratio,
        forall|t: int|
            0 <= t < r.0.len() ==> c[r.0[r.1]].aspect <= c[#[trigger] r.0[t]].aspect,
        forall|t: int| 0 <= t < r.1 ==> c[r.0[r.1]].aspect < c[#[trigger] r.0[t]].aspect,
{
    let three = nearest_areas(c, 3);
    let picks = lemma_picks(c, 3);
    let t = choose|t: int| is_first_least_aspect(three, t) && ratio == (#[trigger] three[t]).ratio;
    assert(three[t] == c[picks[t]]);
    assert forall|s: int| 0 <= s < picks.len() implies c[picks[t]].aspect <= c[#[trigger] picks[s]].aspect by {
        assert(three[s] == c[picks[s]]);
    }
    assert forall|s: int| 0 <= s < t implies c[picks[t]].aspect < c[#[trigger] picks[s]].aspect by {
        assert(three[s] == c[picks[s]]);
    }
    (picks, t)
}

/// Grids whose aspect is no further than a fifth from that of the image are preferred,
/// in their order: others are considered only if there is none.
pub proof fn law_close_aspects_are_preferred(
    front: Seq<Candidate>,
    back: Seq<Candidate>,
    one: Candidate,
    k: int,
)
    ensures
        close_ones(front + back) == close_ones(front) + close_ones(back),
        one.aspect <= ASPECT_TOLERANCE ==> close_ones(seq![one]) == seq![one],
        one.aspect > ASPECT_TOLERANCE ==> close_ones(seq![one]).len() == 0,
        close_ones(front).len() > 0 ==> candidates(front) == close_ones(front),
        close_ones(front).len() == 0 ==> candidates(front) == front,
        0 <= k < front.len() && front[k].aspect <= ASPECT_TOLERANCE ==> candidates(front).contains(
            front[k],
        ),
        double::distance(5 * ASPECT_TOLERANCE as nat, power2::pow2(116)) < power2::pow2(64),
    decreases back.len(), front.len(),
{
    let none: Seq<Candidate> = Seq::empty();
    assert(seq![one].drop_last() =~= none);
    assert(close_ones(none) =~= none);
    assert(none.push(one) =~= seq![one]);
    if back.len() == 0 {
        assert(front + back =~= front);
        assert(close_ones(front) + close_ones(back) =~= close_ones(front));
    } else {
        law_close_aspects_are_preferred(front, back.drop_last(), one, k);
        assert((front + back).drop_last() =~= front + back.drop_last());
        assert((front + back).last() == back.last());
        assert(close_ones(front + back) =~= close_ones(front) + close_ones(back));
    }
    if 0 <= k < front.len() && front[k].aspect <= ASPECT_TOLERANCE {
        lemma_close_one_is_kept(front, k);
    }
    lemma_fraction_unit();
}

/// The power of two that fractions are multiples of.
proof fn lemma_fraction_unit()
    ensures
        power2::pow2(64) == 0x1_0000_0000_0000_0000,
        power2::pow2(116) == 0x1_0000_0000_0000_0000 * 0x10_0000_0000_0000,
{
    power2::lemma2_to64();
    power2::lemma_pow2_adds(32, 20);
    power2::lemma_pow2_adds(64, 52);
    assert(power2::pow2(52) == 0x10_0000_0000_0000);
}

/// A candidate within the tolerance is among those that are close.
proof fn lemma_close_one_is_kept(all: Seq<Candidate>, k: int)
    requires
        0 <= k < all.len(),
        all[k].aspect <= ASPECT_TOLERANCE,
    ensures
        close_ones(all).contains(all[k]),
    decreases all.len(),
{
    let front = all.drop_last();
    if k == all.len() - 1 {
        assert(close_ones(all)[close_ones(front).len() as int] == all[k]);
    } else {
        lemma_close_one_is_kept(front, k);
        let i = close_ones(front).index_of(all[k]);
        assert(close_ones(all)[i] == all[k]);
    }
}

/// A grid is scored by how far the area of its tiles is from that of the image, and its
/// aspect from that of the image. Where the areas have no more than 53 bits the
/// distance of the areas is exact.
pub proof fn law_area_distance_is_exact(
    width: u32,
    height: u32,
    image_size: u32,
    ratio: (usize, usize),
)
    requires
        width * height < 0x20_0000_0000_0000,
        image_size * image_size < 0x20_0000_0000_0000,
        ratio.0 * ratio.1 < 0x20_0000_0000_0000,
        (image_size * image_size) * (ratio.0 * ratio.1) < 0x20_0000_0000_0000,
    ensures
        ({
            let s = scored(width, height, image_size, ratio);
            let area = width * height;
            let tiles = (image_size * image_size) * (ratio.0 * ratio.1);
            &&& s.ratio == ratio
            &&& area >= tiles ==> s.area == area - tiles
            &&& area <= tiles ==> s.area == tiles - area
        }),
{
    let area = width as nat * height as nat;
    let square = image_size as nat * image_size as nat;
    let blocks = ratio.0 as nat * ratio.1 as nat;
    assert(square * blocks >= 0);
    double::law_small_numbers_are_doubles(area);
    double::law_small_numbers_are_doubles(square);
    double::law_small_numbers_are_doubles(blocks);
    double::law_small_numbers_are_doubles(square * blocks);
    double::law_small_numbers_are_doubles(double::distance(area, square * blocks));
}

/// The fraction of two numbers of 53 bits is within one part in 2 to the power of 53 of
/// what it stands for.
pub proof fn law_fraction_is_nearly_exact(n: nat, d: nat)
    requires
        0 < n < 0x20_0000_0000_0000,
        0 < d < 0x20_0000_0000_0000,
    ensures
        double::distance(fraction(n, d) * d, n * power2::pow2(116)) * 0x20_0000_0000_0000 <= n
            * power2::pow2(116),
{
    double::law_small_numbers_are_doubles(n);
    double::law_small_numbers_are_doubles(d);
    let top = n * power2::pow2(116);
    let x = double::law_rounding_is_to_the_nearest(top, d);
    let unit = power2::pow2(x);
    let gap = double::distance(fraction(n, d) * d, top);
    assert(2 * gap <= d * unit);
    let q = top / d;
    vstd::arithmetic::div_mod::lemma_fundamental_div_mod(top as int, d as int);
    assert(d * q <= top) by (nonlinear_arith)
        requires
            top == d * q + top % d,
            d > 0,
    ;
    if x == 0 {
        power2::lemma_pow2(0);
        vstd::arithmetic::power::lemma_pow0(2);
        assert(unit == 1);
        lemma_fraction_unit();
        assert(top >= power2::pow2(116)) by (nonlinear_arith)
            requires
                top == n * power2::pow2(116),
                n >= 1,
        ;
        assert(2 * gap <= d);
        assert(gap * 0x20_0000_0000_0000 <= top) by (nonlinear_arith)
            requires
                2 * gap <= d,
                d < 0x20_0000_0000_0000,
                top >= 0x1_0000_0000_0000_0000 * 0x10_0000_0000_0000,
        ;
    } else {
        assert(2 * q >= unit * 0x20_0000_0000_0000);
        assert(gap * 0x20_0000_0000_0000 <= top) by (nonlinear_arith)
            requires
                2 * gap <= d * unit,
                2 * q >= unit * 0x20_0000_0000_0000,
                d * q <= top,
                d > 0,
        ;
    }
}

/// The distance of aspects is that of the fractions of the grid and of the image; where
/// they are equal it is nothing.
pub proof fn law_equal_aspects_have_no_distance(n: nat, d: nat, ratio: (usize, usize))
    requires
        ratio.1 > 0,
        fraction(n, d) == fraction(ratio.0 as nat, ratio.1 as nat),
    ensures
        aspect_distance(fraction(n, d), ratio) == 0,
{
    double::law_small_numbers_are_doubles(0);
}

/// The tile in row `r` and column `c` of a grid holds the pixels of that square of the
/// image.
pub proof fn law_tile_holds_its_square(
    tile: RgbBytes,
    pixels: Seq<u8>,
    size: u32,
    cols: int,
    rows: int,
    r: int,
    c: int,
    y: int,
    x: int,
    channel: int,
)
    requires
        0 <= r < rows,
        0 <= c < cols,
        0 <= y < size,
        0 <= x < size,
        0 <= channel < 3,
        pixels.len() == (size * rows) * (3 * (size * cols)),
        is_tile(tile, pixels, size * cols, size, cols, r * cols + c),
    ensures
        tile.width == size,
        tile.height == size,
        tile.pixels@[(y * size + x) * 3 + channel] == pixels[((r * size + y) * (size * cols) + (c
            * size + x)) * 3 + channel],
{
    let k = r * cols + c;
    vstd::arithmetic::div_mod::lemma_fundamental_div_mod_converse(k, cols, r, c);
    let width = size * cols;
    let line = 3 * width;
    let top = r * size + y;
    let left = c * size;
    assert(0 <= top && top < size * rows) by (nonlinear_arith)
        requires
            top == r * size + y,
            0 <= r,
            r + 1 <= rows,
            0 <= y < size,
    ;
    assert(0 <= left && left + size <= width) by (nonlinear_arith)
        requires
            left == c * size,
            width == size * cols,
            0 <= c,
            c + 1 <= cols,
            0 < size,
    ;
    image::lemma_row_bounds(top, size * rows, line);
    let row = image::row_of(pixels, width, top);
    assert(row.len() == line);
    image::law_rows_follow_each_other(tile, x, y, channel);
    assert(tile.row(y) == row.subrange(3 * left, 3 * (left + size)));
    assert(tile.row(y)[3 * x + channel] == row[3 * left + (3 * x + channel)]);
    assert(row[3 * left + (3 * x + channel)] == pixels[top * line + (3 * left + (3 * x
        + channel))]);
    assert(top * line + (3 * left + (3 * x + channel)) == (top * width + (left + x)) * 3 + channel)
        by (nonlinear_arith)
        requires
            line == 3 * width,
    ;
}

/// A page has a tile for each place of its grid and, if there are several and it is
/// asked for, a thumbnail of the whole page behind them.
pub proof fn law_thumbnail_follows_several_tiles(
    tiles: Seq<RgbBytes>,
    image: RgbBytes,
    size: u32,
    cols: u32,
    rows: u32,
    use_thumbnail: bool,
)
    requires
        are_tiles(tiles, image, size, cols, rows, use_thumbnail),
        cols > 0,
        rows > 0,
    ensures
        !use_thumbnail || cols == 1 && rows == 1 ==> tiles.len() == cols * rows,
        use_thumbnail && (cols > 1 || rows > 1) ==> {
            &&& tiles.len() == cols * rows + 1
            &&& tiles.last().width == size
            &&& tiles.last().height == size
            &&& image::resamplings(
                image.pixels@,
                image.width,
                image.height,
                size,
                size,
                Filter::CatmullRom,
            ).contains(tiles.last().pixels@)
        },
{
    if cols > 1 || rows > 1 {
        assert(cols * rows > 1) by (nonlinear_arith)
            requires
                cols > 0,
                rows > 0,
                cols > 1 || rows > 1,
        ;
    } else {
        assert(cols * rows == 1) by (nonlinear_arith)
            requires
                cols == 1,
                rows == 1,
        ;
    }
}

/// The inputs of a page tell how many tiles there are, how many patches are along the
/// side of one, and how many values a patch has.
pub proof fn law_inputs_tell_the_measures_of_a_page(
    inputs: HpdImageInputs,
    image: RgbBytes,
    cfg: HpdParsingConfig,
    side: int,
)
    requires
        are_inputs(inputs, image, cfg),
        cfg.vision_config.patch_size > 0,
        cfg.force_image_size == side * cfg.vision_config.patch_size,
    ensures
        inputs.num_tiles == inputs.tiles@.len(),
        inputs.grid == side,
        inputs.patch_dim == cfg.vision_config.num_channels * (cfg.vision_config.patch_size
            * cfg.vision_config.patch_size),
{
    let p = cfg.vision_config.patch_size as int;
    vstd::arithmetic::div_mod::lemma_fundamental_div_mod_converse(
        cfg.force_image_size as int,
        p,
        side,
        0,
    );
    assert(cfg.vision_config.num_channels * p * p == cfg.vision_config.num_channels * (p * p))
        by (nonlinear_arith);
}

/// A page is cut into one tile at least, and into no more than its grids have.
pub proof fn law_page_has_a_tile_at_least(cfg: HpdParsingConfig)
    ensures
        most_tiles(cfg) >= 1,
        most_tiles(cfg) >= most_blocks(cfg.max_dynamic_patch, cfg.use_thumbnail),
        most_tiles(cfg) == 1 || most_tiles(cfg) == most_blocks(
            cfg.max_dynamic_patch,
            cfg.use_thumbnail,
        ),
{
}

/// A page is cut into the grid that is chosen for it: one of those with an allowed
/// number of tiles, with a tile for each place, and a thumbnail behind several tiles
/// where it is asked for.
pub proof fn law_page_is_cut_into_its_grid(inputs: HpdImageInputs, image: RgbBytes, cfg: HpdParsingConfig) -> (r:
    (Seq<(usize, usize)>, (usize, usize)))
    requires
        are_inputs(inputs, image, cfg),
        0 < cfg.min_dynamic_patch <= cfg.max_dynamic_patch < u32::MAX,
    ensures
        are_ratios(
            r.0,
            cfg.min_dynamic_patch,
            most_blocks(cfg.max_dynamic_patch, cfg.use_thumbnail) as usize,
        ),
        is_closest(
            candidates(scores(image.width, image.height, cfg.force_image_size as u32, r.0)),
            r.1,
        ),
        r.1.0 > 0,
        r.1.1 > 0,
        r.0.len() > 0 ==> cfg.min_dynamic_patch <= r.1.0 * r.1.1 <= most_blocks(
            cfg.max_dynamic_patch,
            cfg.use_thumbnail,
        ),
        inputs.num_tiles == r.1.0 * r.1.1 + if cfg.use_thumbnail && r.1.0 * r.1.1 > 1 {
            1int
        } else {
            0
        },
{
    let (ratios, grid) = choose|ratios: Seq<(usize, usize)>, grid: (usize, usize)| #[trigger]
        are_page_tiles(inputs.tiles@, image, cfg, ratios, grid);
    let size = cfg.force_image_size as u32;
    law_chosen_grid_is_offered(image.width, image.height, size, ratios, grid);
    if ratios.len() > 0 {
        let k = ratios.index_of(grid);
        assert(is_grid(
            ratios[k],
            cfg.min_dynamic_patch,
            most_blocks(cfg.max_dynamic_patch, cfg.use_thumbnail) as usize,
        ));
    }
    let blocks = grid.0 * grid.1;
    assert(grid.0 <= blocks && grid.1 <= blocks && blocks >= 1) by (nonlinear_arith)
        requires
            blocks == grid.0 * grid.1,
            grid.0 >= 1,
            grid.1 >= 1,
    ;
    (ratios, grid)
}

/// A grid without rows is no candidate for any aspect: it is as far away as can be, and
/// one without rows and columns further still.
pub proof fn law_grid_without_rows_is_far_away(aspect: nat, cols: usize)
    requires
        cols > 0,
    ensures
        aspect_distance(aspect, (cols, 0usize)) == power2::pow2(52) * power2::pow2(1088),
        aspect_distance(aspect, (0usize, 0usize)) > aspect_distance(aspect, (cols, 0usize)),
{
    power2::lemma2_to64();
    power2::lemma_pow2_adds(32, 20);
    power2::lemma_pow2_unfold(1089);
    power2::lemma_pow2_pos(1088);
    assert(power2::pow2(52) == 0x10_0000_0000_0000);
    let far = power2::pow2(1088);
    assert(0x10_0000_0000_0000 * (2 * far) > 0x10_0000_0000_0000 * far) by (nonlinear_arith)
        requires
            far > 0,
    ;
}

} // verus!
