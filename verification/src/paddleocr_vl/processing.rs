//! Patches of images and answers that are tables.
use crate::error::{self, Error, ErrorView, Message};
use crate::image::RgbBytes;
use crate::numbers;
use crate::text;
use vstd::arithmetic::div_mod;
use vstd::prelude::*;

verus! {

/// What is made of a table's answer: `html` where it holds table tokens or a table,
/// else the trimmed answer.
pub open spec fn table_output(input: Seq<char>, looks_like_tokens: bool, html: Seq<char>) -> Seq<
    char,
> {
    let trimmed = text::trimmed(input);
    if !looks_like_tokens && text::find(trimmed, "<table"@) is None {
        trimmed
    } else {
        html
    }
}

/// Decides what is made of a table's answer. The caller tells whether its trimmed
/// form looks like table tokens, and what it is as HTML.
pub fn postprocess_table_output(input: &str, looks_like_tokens: bool, html: &str) -> (r: String)
    ensures
        r@ == table_output(input@, looks_like_tokens, html@),
{
    let trimmed = text::trim(input);
    let chars = text::char_vec(trimmed.as_str());
    let tag = text::char_vec("<table");
    let n: usize = chars.len();
    proof {
        assert(chars@.subrange(0, n as int) =~= trimmed@);
    }
    if !looks_like_tokens && text::find_from(&chars, 0, n, &tag).is_none() {
        return trimmed;
    }
    html.to_owned()
}

/// Checks that a request holds images.
pub fn validate_count(images: usize) -> (r: Result<(), Error>)
    ensures
        error::verdict(
            if images == 0 {
                Some(ErrorView::InvalidInput("PaddleOCR-VL: no images provided"@))
            } else {
                None
            },
            r,
        ),
{
    if images == 0 {
        return Err(Error::invalid_input("PaddleOCR-VL: no images provided"));
    }
    Ok(())
}

/// The grid of patches of a resized image.
pub fn patch_grid(height: u32, width: u32, patch_size: u32) -> (r: Result<
    (usize, usize, usize),
    Error,
>)
    requires
        patch_size > 0,
    ensures
        error::tells(
            r,
            if height % patch_size != 0 || width % patch_size != 0 {
                Err(
                    ErrorView::Config(
                        "PaddleOCR-VL preprocess produced non-divisible dims: "@ + text::dec(
                            height as nat,
                        ) + "x"@ + text::dec(width as nat) + " not divisible by patch_size="@
                            + text::dec(patch_size as nat),
                    ),
                )
            } else {
                Ok((1usize, (height / patch_size) as usize, (width / patch_size) as usize))
            },
        ),
{
    if height % patch_size != 0 || width % patch_size != 0 {
        return Err(
            Message::new("PaddleOCR-VL preprocess produced non-divisible dims: ").num(
                height as u64,
            ).text("x").num(width as u64).text(" not divisible by patch_size=").num(
                patch_size as u64,
            ).config(),
        );
    }
    Ok((1, (height / patch_size) as usize, (width / patch_size) as usize))
}

/// The place in an image of `width` pixels of value `k` of patch `i`: patches row by
/// row, and in a patch red, green and blue one after the other, each row by row.
pub open spec fn source(i: int, k: int, width: int, patch: int) -> int {
    let cols = width / patch;
    let channel = k / (patch * patch);
    let dy = (k % (patch * patch)) / patch;
    let dx = (k % (patch * patch)) % patch;
    ((i / cols) * patch + dy) * (width * 3) + ((i % cols) * patch + dx) * 3 + channel
}

/// Where the value of a channel of a pixel goes: its patch and its place in it.
pub open spec fn target(y: int, x: int, channel: int, width: int, patch: int) -> (int, int) {
    (
        (y / patch) * (width / patch) + x / patch,
        channel * (patch * patch) + (y % patch) * patch + x % patch,
    )
}

/// Every value of a patch comes from a pixel of the image.
proof fn lemma_source(i: int, k: int, height: int, width: int, patch: int)
    requires
        patch > 0,
        width > 0,
        height % patch == 0,
        width % patch == 0,
        0 <= i < (height / patch) * (width / patch),
        0 <= k < 3 * (patch * patch),
    ensures
        ({
            let cols = width / patch;
            let y = (i / cols) * patch + (k % (patch * patch)) / patch;
            let x = (i % cols) * patch + (k % (patch * patch)) % patch;
            let channel = k / (patch * patch);
            &&& cols > 0
            &&& 0 <= y < height
            &&& 0 <= x < width
            &&& 0 <= channel < 3
            &&& 0 <= y * (width * 3)
            &&& 0 <= source(i, k, width, patch) < height * (3 * width)
        }),
{
    let rows = height / patch;
    let cols = width / patch;
    let pp = patch * patch;
    assert(pp > 0) by (nonlinear_arith)
        requires
            patch > 0,
            pp == patch * patch,
    ;
    div_mod::lemma_fundamental_div_mod(height, patch);
    div_mod::lemma_fundamental_div_mod(width, patch);
    assert(cols > 0) by (nonlinear_arith)
        requires
            width == patch * cols,
            width > 0,
            patch > 0,
    ;
    numbers::lemma_quotient(i, rows, cols);
    numbers::lemma_quotient(k, 3, pp);
    numbers::lemma_quotient(k % pp, patch, patch);
    let dy = (k % pp) / patch;
    let dx = (k % pp) % patch;
    let y = (i / cols) * patch + dy;
    let x = (i % cols) * patch + dx;
    assert(0 <= y < height) by (nonlinear_arith)
        requires
            y == (i / cols) * patch + dy,
            0 <= i / cols <= rows - 1,
            0 <= dy < patch,
            height == patch * rows,
    ;
    assert(0 <= x < width) by (nonlinear_arith)
        requires
            x == (i % cols) * patch + dx,
            0 <= i % cols <= cols - 1,
            0 <= dx < patch,
            width == patch * cols,
    ;
    let channel = k / pp;
    assert(0 <= y * (width * 3)) by (nonlinear_arith)
        requires
            y >= 0,
            width > 0,
    ;
    assert(y * (width * 3) + x * 3 + channel < height * (3 * width)) by (nonlinear_arith)
        requires
            0 <= y <= height - 1,
            0 <= x <= width - 1,
            0 <= channel < 3,
            width > 0,
    ;
}

/// No value of the image stands in the patches twice: the place of a patch's value
/// tells the patch and the place in it.
pub proof fn law_patches_repeat_no_value(i: int, k: int, height: int, width: int, patch: int)
    requires
        patch > 0,
        width > 0,
        height % patch == 0,
        width % patch == 0,
        0 <= i < (height / patch) * (width / patch),
        0 <= k < 3 * (patch * patch),
    ensures
        ({
            let at = source(i, k, width, patch);
            let y = at / (width * 3);
            let x = (at % (width * 3)) / 3;
            target(y, x, at % 3, width, patch) == (i, k)
        }),
{
    lemma_source(i, k, height, width, patch);
    let rows = height / patch;
    let cols = width / patch;
    let pp = patch * patch;
    assert(pp > 0) by (nonlinear_arith)
        requires
            patch > 0,
            pp == patch * patch,
    ;
    numbers::lemma_quotient(i, rows, cols);
    numbers::lemma_quotient(k, 3, pp);
    numbers::lemma_quotient(k % pp, patch, patch);
    let dy = (k % pp) / patch;
    let dx = (k % pp) % patch;
    let y = (i / cols) * patch + dy;
    let x = (i % cols) * patch + dx;
    let channel = k / pp;
    let at = source(i, k, width, patch);
    numbers::lemma_parts(y, x * 3 + channel, width * 3);
    numbers::lemma_parts(x, channel, 3);
    assert(at % 3 == channel) by {
        assert(at == (y * width + x) * 3 + channel) by (nonlinear_arith)
            requires
                at == y * (width * 3) + x * 3 + channel,
        ;
        numbers::lemma_parts(y * width + x, channel, 3);
    }
    numbers::lemma_parts(i / cols, dy, patch);
    numbers::lemma_parts(i % cols, dx, patch);
}

/// No value of the image is left out of the patches.
pub proof fn law_patches_miss_no_value(
    y: int,
    x: int,
    channel: int,
    height: int,
    width: int,
    patch: int,
)
    requires
        patch > 0,
        height % patch == 0,
        width % patch == 0,
        0 <= y < height,
        0 <= x < width,
        0 <= channel < 3,
    ensures
        ({
            let (i, k) = target(y, x, channel, width, patch);
            &&& 0 <= i < (height / patch) * (width / patch)
            &&& 0 <= k < 3 * (patch * patch)
            &&& source(i, k, width, patch) == y * (width * 3) + x * 3 + channel
        }),
{
    let rows = height / patch;
    let cols = width / patch;
    let pp = patch * patch;
    div_mod::lemma_fundamental_div_mod(height, patch);
    div_mod::lemma_fundamental_div_mod(width, patch);
    assert(height == rows * patch) by (nonlinear_arith)
        requires
            height == patch * rows,
    ;
    assert(width == cols * patch) by (nonlinear_arith)
        requires
            width == patch * cols,
    ;
    numbers::lemma_quotient(y, rows, patch);
    numbers::lemma_quotient(x, cols, patch);
    let (i, k) = target(y, x, channel, width, patch);
    let inner = (y % patch) * patch + x % patch;
    assert(0 <= inner < pp) by (nonlinear_arith)
        requires
            inner == (y % patch) * patch + x % patch,
            0 <= y % patch <= patch - 1,
            0 <= x % patch < patch,
            pp == patch * patch,
    ;
    assert(0 <= i < rows * cols) by (nonlinear_arith)
        requires
            i == (y / patch) * cols + x / patch,
            0 <= y / patch <= rows - 1,
            0 <= x / patch < cols,
    ;
    assert(0 <= k < 3 * pp) by (nonlinear_arith)
        requires
            k == channel * pp + inner,
            0 <= channel <= 2,
            0 <= inner < pp,
    ;
    numbers::lemma_parts(channel, inner, pp);
    numbers::lemma_parts(y % patch, x % patch, patch);
    numbers::lemma_parts(y / patch, x / patch, cols);
}

/// The values of one patch, in the order that the vision tower reads them.
pub fn patch_bytes(image: &RgbBytes, patch_size: usize, i: usize) -> (bytes: Vec<u8>)
    requires
        image.wf(),
        patch_size > 0,
        image.width > 0,
        image.height as int % patch_size as int == 0,
        image.width as int % patch_size as int == 0,
        i < (image.height as int / patch_size as int) * (image.width as int / patch_size as int),
        3 * (patch_size * patch_size) <= usize::MAX,
    ensures
        bytes.len() == 3 * (patch_size * patch_size),
        forall|k: int|
            0 <= k < bytes.len() ==> #[trigger] bytes[k] == image.pixels[source(
                i as int,
                k,
                image.width as int,
                patch_size as int,
            )],
{
    let ghost h = image.height as int;
    let ghost w = image.width as int;
    let ghost p = patch_size as int;
    let ghost total = image.pixels.len();
    proof {
        assert(p * p > 0) by (nonlinear_arith)
            requires
                p > 0,
        ;
        lemma_source(i as int, 0, h, w, p);
        assert(3 * w <= h * (3 * w)) by (nonlinear_arith)
            requires
                h >= 1,
                w >= 0,
        ;
    }
    let area: usize = patch_size * patch_size;
    let cols: usize = image.width as usize / patch_size;
    let stride: usize = image.width as usize * 3;
    let mut bytes: Vec<u8> = Vec::new();
    let mut k: usize = 0;
    while k < 3 * area
        invariant
            image.wf(),
            h == image.height,
            w == image.width,
            p == patch_size,
            p > 0,
            w > 0,
            h % p == 0,
            w % p == 0,
            area == p * p,
            area > 0,
            3 * area <= usize::MAX,
            cols == w / p,
            stride == w * 3,
            total == h * (3 * w),
            i < (h / p) * (w / p),
            k <= 3 * area,
            bytes.len() == k,
            forall|j: int|
                0 <= j < k ==> #[trigger] bytes[j] == image.pixels[source(i as int, j, w, p)],
        decreases 3 * area - k,
    {
        proof {
            lemma_source(i as int, k as int, h, w, p);
            let y = (i as int / (w / p)) * p + (k as int % (p * p)) / p;
            let x = (i as int % (w / p)) * p + (k as int % (p * p)) % p;
            assert((i as int / (w / p)) * p >= 0) by (nonlinear_arith)
                requires
                    i as int / (w / p) >= 0,
                    p > 0,
            ;
            assert((i as int % (w / p)) * p >= 0) by (nonlinear_arith)
                requires
                    i as int % (w / p) >= 0,
                    p > 0,
            ;
        }
        let channel: usize = k / area;
        let dy: usize = (k % area) / patch_size;
        let dx: usize = (k % area) % patch_size;
        let y: usize = (i / cols) * patch_size + dy;
        let x: usize = (i % cols) * patch_size + dx;
        bytes.push(image.pixels[y * stride + x * 3 + channel]);
        k = k + 1;
    }
    bytes
}

/// Value (`dy`, `dx`) of a channel of the patch in row `py` and column `px` is that of
/// the pixel `dy` rows and `dx` columns behind the patch's corner.
pub proof fn law_patch_holds_its_pixels(
    py: int,
    px: int,
    channel: int,
    dy: int,
    dx: int,
    cols: int,
    patch: int,
)
    requires
        patch > 0,
        0 <= py,
        0 <= px < cols,
        0 <= channel < 3,
        0 <= dy < patch,
        0 <= dx < patch,
    ensures
        source(
            py * cols + px,
            channel * (patch * patch) + (dy * patch + dx),
            cols * patch,
            patch,
        ) == ((py * patch + dy) * (cols * patch) + (px * patch + dx)) * 3 + channel,
{
    let inner = dy * patch + dx;
    assert(0 <= inner && inner < patch * patch) by (nonlinear_arith)
        requires
            inner == dy * patch + dx,
            0 <= dy,
            dy + 1 <= patch,
            0 <= dx < patch,
    ;
    vstd::arithmetic::div_mod::lemma_fundamental_div_mod_converse(
        channel * (patch * patch) + inner,
        patch * patch,
        channel,
        inner,
    );
    vstd::arithmetic::div_mod::lemma_fundamental_div_mod_converse(inner, patch, dy, dx);
    vstd::arithmetic::div_mod::lemma_fundamental_div_mod_converse(py * cols + px, cols, py, px);
    vstd::arithmetic::div_mod::lemma_fundamental_div_mod_converse(cols * patch, patch, cols, 0);
    let y = py * patch + dy;
    let x = px * patch + dx;
    let width = cols * patch;
    assert(y * (width * 3) + x * 3 + channel == (y * width + x) * 3 + channel)
        by (nonlinear_arith);
}

/// The answer of a table that holds table tokens, or a table anywhere in it, is told
/// as HTML; every other answer loses the white space around it and nothing else.
pub proof fn law_tables_are_told_as_html(input: Seq<char>, tokens: bool, html: Seq<char>, j: int)
    ensures
        tokens || text::occurs_at(input, "<table"@, j) ==> table_output(input, tokens, html) == html,
        !tokens && (forall|k: int| !#[trigger] text::occurs_at(input, "<table"@, k))
            ==> table_output(input, tokens, html) == text::trimmed(input),
{
    reveal_strlit("<table");
    let pat = "<table"@;
    let s = text::trimmed(input);
    let (front, back) = text::law_trimmed_text_stands_between_white_space(input);
    text::law_found_is_the_first_occurrence(s, pat);
    if text::occurs_at(input, pat, j) {
        let found = input.subrange(j, j + 6);
        assert(found[0] == input[j] && found[5] == input[j + 5]);
        assert(!text::is_white_space('<') && !text::is_white_space('e'));
        if j < front.len() {
            assert(front[j] == input[j]);
        }
        if j + 5 >= front.len() + s.len() {
            assert(back[j + 5 - front.len() - s.len()] == input[j + 5]);
        }
        assert(s.subrange(j - front.len(), j - front.len() + 6) =~= found);
        assert(text::occurs_at(s, pat, j - front.len()));
    }
    if forall|k: int| !#[trigger] text::occurs_at(input, pat, k) {
        assert forall|k: int| !#[trigger] text::occurs_at(s, pat, k) by {
            if text::occurs_at(s, pat, k) {
                assert(input.subrange(k + front.len(), k + front.len() + 6) =~= s.subrange(
                    k,
                    k + 6,
                ));
                assert(text::occurs_at(input, pat, k + front.len()));
            }
        }
    }
}

} // verus!
