//! What is made of the text that the model writes.
use crate::recognition::RecognitionTask;
use crate::text;
use vstd::arithmetic::div_mod;
use vstd::prelude::*;

verus! {

/// A block that stands for a picture of the page.
pub open spec fn is_image_block(block: Seq<char>) -> bool {
    text::starts_with(text::trimmed(block), "<img src=\"images/bbox_"@)
}

/// The blocks that stand for no picture, in their order.
pub open spec fn text_blocks(blocks: Seq<Seq<char>>) -> Seq<Seq<char>>
    decreases blocks.len(),
{
    if blocks.len() == 0 {
        Seq::empty()
    } else if is_image_block(blocks[0]) {
        text_blocks(blocks.skip(1))
    } else {
        seq![blocks[0]] + text_blocks(blocks.skip(1))
    }
}

/// A page without its blocks for pictures; an empty line parts blocks.
pub open spec fn without_image_blocks(page: Seq<char>) -> Seq<char> {
    text::join(text_blocks(text::split(page, "\n\n"@)), "\n\n"@)
}

/// Removes the blocks for pictures from a page.
pub fn filter_visual_image_tags(text: &str) -> (r: String)
    ensures
        r@ == without_image_blocks(text@),
{
    let chars = text::char_vec(text);
    let sep = text::char_vec("\n\n");
    let tag = text::char_vec("<img src=\"images/bbox_");
    let n: usize = chars.len();
    let ghost all = text_blocks(text::split(text@, "\n\n"@));
    let ghost mut kept: Seq<Seq<char>> = Seq::empty();
    let mut out = String::new();
    let mut first: bool = true;
    let mut from: usize = 0;
    let mut open: bool = true;
    proof {
        reveal_strlit("\n\n");
        assert(chars@.subrange(0, n as int) =~= text@);
        assert(kept + all =~= all);
    }
    while open
        invariant
            chars@ == text@,
            n == chars.len(),
            sep@ == "\n\n"@,
            sep@.len() == 2,
            tag@ == "<img src=\"images/bbox_"@,
            from <= n,
            first == (kept.len() == 0),
            out@ == text::join(kept, "\n\n"@),
            all == text_blocks(text::split(text@, "\n\n"@)),
            open ==> kept + text_blocks(
                text::split(chars@.subrange(from as int, n as int), "\n\n"@),
            ) == all,
            !open ==> kept == all,
        decreases n - from + if open {
            1int
        } else {
            0
        },
    {
        let ghost rest = chars@.subrange(from as int, n as int);
        let found: Option<usize> = text::find_from(&chars, from, n, &sep);
        let to: usize = match found {
            Some(i) => i,
            None => n,
        };
        let ghost block = chars@.subrange(from as int, to as int);
        let (a, b): (usize, usize) = text::trim_bounds(&chars, from, to);
        let picture: bool = text::matches_at(&chars, a, b, &tag);
        proof {
            let parts = text::split(rest, "\n\n"@);
            assert(parts[0] == block && parts.skip(1) == match found {
                Some(i) => text::split(chars@.subrange(i + 2, n as int), "\n\n"@),
                None => Seq::empty(),
            }) by {
                match found {
                    Some(i) => {
                        assert(rest.take(i - from) =~= block);
                        assert(rest.skip(i - from + 2) =~= chars@.subrange(i + 2, n as int));
                        assert(parts.skip(1) =~= text::split(
                            chars@.subrange(i + 2, n as int),
                            "\n\n"@,
                        ));
                    },
                    None => {
                        assert(rest =~= block);
                        assert(parts.skip(1) =~= Seq::empty());
                    },
                }
            }
            assert(picture == is_image_block(block));
            if !picture {
                let more = kept.push(block);
                assert(more.drop_last() =~= kept);
                assert(kept + (seq![block] + text_blocks(parts.skip(1))) =~= more + text_blocks(
                    parts.skip(1),
                ));
            }
        }
        if !picture {
            if !first {
                out.append("\n\n");
            }
            text::push_range(&mut out, &chars, from, to);
            first = false;
            proof {
                let more = kept.push(block);
                assert(more.drop_last() =~= kept);
                assert(out@ =~= text::join(more, "\n\n"@));
                kept = more;
            }
        }
        match found {
            Some(i) => {
                from = i + 2;
            },
            None => {
                open = false;
                proof {
                    assert(kept + text_blocks(Seq::empty()) =~= kept);
                }
            },
        }
    }
    out
}

/// An empty line begins at `i`.
spec fn pair_at(s: Seq<char>, i: int) -> bool {
    0 <= i && i + 1 < s.len() && s[i] == '\n' && s[i + 1] == '\n'
}

/// What is found is the first empty line.
proof fn lemma_find_pair(s: Seq<char>)
    ensures
        match text::find(s, "\n\n"@) {
            Some(i) => pair_at(s, i as int) && forall|j: int| 0 <= j < i ==> !pair_at(s, j),
            None => forall|j: int| !pair_at(s, j),
        },
    decreases s.len(),
{
    reveal_strlit("\n\n");
    let pat = "\n\n"@;
    assert(text::starts_with(s, pat) == pair_at(s, 0)) by {
        if s.len() >= 2 {
            assert(s.take(2)[0] == s[0] && s.take(2)[1] == s[1]);
            if pair_at(s, 0) {
                assert(s.take(2) =~= pat);
            }
        }
    }
    if !text::starts_with(s, pat) && s.len() > 0 {
        lemma_find_pair(s.skip(1));
        assert forall|j: int| #[trigger] pair_at(s, j) implies j > 0 && pair_at(s.skip(1), j - 1) by {
            assert(j != 0);
        }
        assert forall|j: int| #[trigger] pair_at(s.skip(1), j) implies pair_at(s, j + 1) by {}
        match text::find(s.skip(1), pat) {
            Some(i) => {
                assert(pair_at(s, i as int + 1));
                assert forall|j: int| 0 <= j < i + 1 implies !pair_at(s, j) by {
                    if pair_at(s, j) {
                        assert(pair_at(s.skip(1), j - 1));
                    }
                }
            },
            None => {},
        }
    }
}

/// A text that does not end in a line break.
spec fn ends_unbroken(s: Seq<char>) -> bool {
    s.len() > 0 ==> s.last() != '\n'
}

/// Blocks that a page can be cut into: none holds an empty line, and only the last
/// may end in a line break.
spec fn tidy(parts: Seq<Seq<char>>) -> bool {
    &&& forall|k: int, j: int| 0 <= k < parts.len() ==> !#[trigger] pair_at(parts[k], j)
    &&& forall|k: int| 0 <= k < parts.len() - 1 ==> ends_unbroken(#[trigger] parts[k])
}

/// Cutting a page gives such blocks.
proof fn lemma_split_is_tidy(s: Seq<char>)
    ensures
        text::split(s, "\n\n"@).len() > 0,
        tidy(text::split(s, "\n\n"@)),
    decreases s.len(),
{
    reveal_strlit("\n\n");
    lemma_find_pair(s);
    text::lemma_find_bounds(s, "\n\n"@);
    let parts = text::split(s, "\n\n"@);
    match text::find(s, "\n\n"@) {
        Some(i) => {
            let rest = s.skip(i as int + 2);
            lemma_split_is_tidy(rest);
            let head = s.take(i as int);
            let more = text::split(rest, "\n\n"@);
            assert(parts == seq![head] + more);
            assert forall|k: int, j: int| 0 <= k < parts.len() implies !#[trigger] pair_at(
                parts[k],
                j,
            ) by {
                if k == 0 {
                    if pair_at(head, j) {
                        assert(pair_at(s, j));
                    }
                } else {
                    assert(parts[k] == more[k - 1]);
                    assert(!pair_at(more[k - 1], j));
                }
            }
            assert forall|k: int| 0 <= k < parts.len() - 1 implies ends_unbroken(
                #[trigger] parts[k],
            ) by {
                if k == 0 {
                    if i > 0 && s[i - 1] == '\n' {
                        assert(pair_at(s, i - 1));
                    }
                } else {
                    assert(parts[k] == more[k - 1]);
                }
            }
        },
        None => {},
    }
}

/// Dropping the first block keeps blocks tidy.
proof fn lemma_tidy_rest(parts: Seq<Seq<char>>)
    requires
        tidy(parts),
        parts.len() > 0,
    ensures
        tidy(parts.skip(1)),
{
    let rest = parts.skip(1);
    assert forall|k: int, j: int| 0 <= k < rest.len() implies !#[trigger] pair_at(rest[k], j) by {
        assert(!pair_at(parts[k + 1], j));
    }
    assert forall|k: int| 0 <= k < rest.len() - 1 implies ends_unbroken(#[trigger] rest[k]) by {
        assert(rest[k] == parts[k + 1]);
    }
}

/// Dropping pictures keeps blocks tidy and leaves no picture.
proof fn lemma_text_blocks(parts: Seq<Seq<char>>)
    requires
        tidy(parts),
    ensures
        tidy(text_blocks(parts)),
        text_blocks(parts).len() <= parts.len(),
        forall|k: int|
            0 <= k < text_blocks(parts).len() ==> !is_image_block(#[trigger] text_blocks(parts)[k]),
    decreases parts.len(),
{
    if parts.len() > 0 {
        lemma_tidy_rest(parts);
        lemma_text_blocks(parts.skip(1));
        let rest = text_blocks(parts.skip(1));
        let kept = text_blocks(parts);
        if !is_image_block(parts[0]) {
            assert(kept == seq![parts[0]] + rest);
            assert forall|k: int, j: int| 0 <= k < kept.len() implies !#[trigger] pair_at(
                kept[k],
                j,
            ) by {
                if k == 0 {
                    assert(!pair_at(parts[0], j));
                } else {
                    assert(!pair_at(rest[k - 1], j));
                }
            }
            assert forall|k: int| 0 <= k < kept.len() - 1 implies ends_unbroken(
                #[trigger] kept[k],
            ) by {
                if k == 0 {
                    assert(parts.len() > 1);
                } else {
                    assert(kept[k] == rest[k - 1]);
                }
            }
            assert forall|k: int| 0 <= k < kept.len() implies !is_image_block(
                #[trigger] kept[k],
            ) by {
                if k > 0 {
                    assert(kept[k] == rest[k - 1]);
                }
            }
        }
    }
}

/// Joining from the front.
proof fn lemma_join_front(parts: Seq<Seq<char>>, sep: Seq<char>)
    requires
        parts.len() >= 2,
    ensures
        text::join(parts, sep) == parts[0] + sep + text::join(parts.skip(1), sep),
    decreases parts.len(),
{
    let front = parts.drop_last();
    if parts.len() == 2 {
        assert(front.len() == 1 && front[0] == parts[0]);
        assert(parts.skip(1).len() == 1 && parts.skip(1)[0] == parts[1]);
        assert(text::join(front, sep) == parts[0]);
    } else {
        lemma_join_front(front, sep);
        assert(front.skip(1) =~= parts.skip(1).drop_last());
        assert(parts.skip(1).last() == parts.last());
        let inner = text::join(front.skip(1), sep);
        assert((parts[0] + sep + inner) + sep + parts.last() =~= parts[0] + sep + (inner + sep
            + parts.last()));
    }
}

/// The first empty line of a page is the one behind a block without any.
proof fn lemma_first_break(head: Seq<char>, rest: Seq<char>)
    requires
        forall|j: int| !pair_at(head, j),
        ends_unbroken(head),
    ensures
        text::find(head + "\n\n"@ + rest, "\n\n"@) == Some(head.len()),
{
    reveal_strlit("\n\n");
    let page = head + "\n\n"@ + rest;
    let at = head.len() as int;
    lemma_find_pair(page);
    assert(pair_at(page, at));
    assert forall|j: int| 0 <= j < at implies !pair_at(page, j) by {
        if j + 1 < at {
            assert(!pair_at(head, j));
            assert(page[j] == head[j] && page[j + 1] == head[j + 1]);
        } else {
            assert(page[j] == head.last());
        }
    }
}

/// Tidy blocks come back when the page that they make up is cut.
proof fn lemma_split_join(parts: Seq<Seq<char>>)
    requires
        tidy(parts),
        parts.len() > 0,
    ensures
        text::split(text::join(parts, "\n\n"@), "\n\n"@) == parts,
    decreases parts.len(),
{
    let sep = "\n\n"@;
    assert(sep.len() == 2) by {
        reveal_strlit("\n\n");
    }
    let page = text::join(parts, sep);
    if parts.len() == 1 {
        lemma_find_pair(page);
        if text::find(page, sep) is Some {
            assert(!pair_at(parts[0], text::find(page, sep)->Some_0 as int));
        }
        assert(text::split(page, sep) =~= parts);
    } else {
        let head = parts[0];
        let rest = text::join(parts.skip(1), sep);
        lemma_join_front(parts, sep);
        lemma_tidy_rest(parts);
        lemma_split_join(parts.skip(1));
        assert forall|j: int| !pair_at(head, j) by {
            assert(!pair_at(parts[0], j));
        }
        lemma_first_break(head, rest);
        let at = head.len() as int;
        assert(page.take(at) =~= head);
        assert(page.skip(at + 2) =~= rest);
        assert(text::split(page, sep) == seq![head] + text::split(rest, sep));
        assert(seq![head] + parts.skip(1) =~= parts);
    }
}

/// No block of a filtered page stands for a picture.
pub proof fn law_no_image_block_remains(page: Seq<char>)
    ensures
        ({
            let blocks = text::split(without_image_blocks(page), "\n\n"@);
            forall|k: int| 0 <= k < blocks.len() ==> !is_image_block(#[trigger] blocks[k])
        }),
{
    let parts = text::split(page, "\n\n"@);
    lemma_split_is_tidy(page);
    lemma_text_blocks(parts);
    if text_blocks(parts).len() > 0 {
        lemma_split_join(text_blocks(parts));
    } else {
        reveal_strlit("\n\n");
        reveal_strlit("<img src=\"images/bbox_");
        let none = Seq::<char>::empty();
        assert(without_image_blocks(page) =~= none);
        lemma_find_pair(none);
        if text::find(none, "\n\n"@) is Some {
            assert(pair_at(none, text::find(none, "\n\n"@)->Some_0 as int));
        }
        assert(text::split(none, "\n\n"@) =~= seq![none]);
        assert(text::trimmed(none).len() == 0);
    }
}

/// Filtering a filtered page changes nothing.
pub proof fn law_filtering_twice_is_filtering_once(page: Seq<char>)
    ensures
        without_image_blocks(without_image_blocks(page)) == without_image_blocks(page),
{
    let parts = text::split(page, "\n\n"@);
    let kept = text_blocks(parts);
    lemma_split_is_tidy(page);
    lemma_text_blocks(parts);
    law_no_image_block_remains(page);
    let again = text::split(without_image_blocks(page), "\n\n"@);
    lemma_all_kept(again);
    if kept.len() > 0 {
        lemma_split_join(kept);
    } else {
        reveal_strlit("\n\n");
        let none = Seq::<char>::empty();
        assert(without_image_blocks(page) =~= none);
        lemma_find_pair(none);
        if text::find(none, "\n\n"@) is Some {
            assert(pair_at(none, text::find(none, "\n\n"@)->Some_0 as int));
        }
        assert(again =~= seq![none]);
    }
}

/// Where no block is a picture, all are kept.
proof fn lemma_all_kept(blocks: Seq<Seq<char>>)
    requires
        forall|k: int| 0 <= k < blocks.len() ==> !is_image_block(#[trigger] blocks[k]),
    ensures
        text_blocks(blocks) == blocks,
    decreases blocks.len(),
{
    if blocks.len() > 0 {
        let rest = blocks.skip(1);
        assert forall|k: int| 0 <= k < rest.len() implies !is_image_block(#[trigger] rest[k]) by {
            assert(rest[k] == blocks[k + 1]);
        }
        lemma_all_kept(rest);
        assert(seq![blocks[0]] + rest =~= blocks);
    }
}

/// How many of the last characters of `s[..end]` are the same as those `unit`
/// before them.
pub open spec fn matching_tail(s: Seq<char>, unit: int, end: int) -> int
    decreases end,
{
    if 0 < unit < end <= s.len() && s[end - 1] == s[end - 1 - unit] {
        1 + matching_tail(s, unit, end - 1)
    } else {
        0
    }
}

/// The length of the longest end of `s` that repeats itself every `unit`
/// characters.
pub open spec fn periodic_tail(s: Seq<char>, unit: int) -> int {
    matching_tail(s, unit, s.len() as int) + unit
}

/// The end of `s` repeats `unit` characters often enough to be taken for a
/// runaway answer.
pub open spec fn runs_away(s: Seq<char>, unit: int) -> bool {
    &&& periodic_tail(s, unit) / unit >= 5
    &&& periodic_tail(s, unit) >= 100
}

/// `s` with one repetition left of its end, and the broken one behind it.
pub open spec fn cut_repeats(s: Seq<char>, unit: int) -> Seq<char> {
    let total = periodic_tail(s, unit);
    s.take(s.len() - total + unit) + s.skip(s.len() - total % unit)
}

/// The shortest repetition, from `unit` on, with which `s` runs away.
pub open spec fn shortest_repeat(s: Seq<char>, unit: int) -> Option<int>
    decreases 201 - unit,
{
    if unit > 200 {
        None
    } else if runs_away(s, unit) {
        Some(unit)
    } else {
        shortest_repeat(s, unit + 1)
    }
}

/// A page without the repetitions at its end. Only long pages are cleaned.
pub open spec fn without_repeats(s: Seq<char>) -> Seq<char> {
    if s.len() < 8_000 {
        s
    } else {
        match shortest_repeat(s, 1) {
            Some(unit) => cut_repeats(s, unit),
            None => s,
        }
    }
}

/// A repetition fits into the text that it ends.
proof fn lemma_tail_bounds(s: Seq<char>, unit: int, end: int)
    requires
        0 < unit,
        0 <= end <= s.len(),
    ensures
        0 <= matching_tail(s, unit, end),
        unit <= end ==> matching_tail(s, unit, end) + unit <= end,
        unit > end ==> matching_tail(s, unit, end) == 0,
    decreases end,
{
    if unit < end && s[end - 1] == s[end - 1 - unit] {
        lemma_tail_bounds(s, unit, end - 1);
    }
}

/// Cuts the repetitions at the end of a page.
pub fn clean_truncated_repeats(text: &str) -> (r: String)
    ensures
        r@ == without_repeats(text@),
{
    let chars = text::char_vec(text);
    let n: usize = chars.len();
    if n < 8_000 {
        proof {
            assert(chars@.subrange(0, n as int) =~= text@);
        }
        return text::string_of(&chars, 0, n);
    }
    let mut unit: usize = 1;
    while unit <= 200
        invariant
            chars@ == text@,
            n == chars.len(),
            n >= 8_000,
            1 <= unit <= 201,
            shortest_repeat(text@, 1) == shortest_repeat(text@, unit as int),
        decreases 201 - unit,
    {
        let mut matched: usize = 0;
        let mut end: usize = n;
        while end > unit && chars[end - 1] == chars[end - 1 - unit]
            invariant
                chars@ == text@,
                n == chars.len(),
                0 < unit,
                end <= n,
                unit <= end,
                matched == n - end,
                matching_tail(text@, unit as int, n as int) == matched + matching_tail(
                    text@,
                    unit as int,
                    end as int,
                ),
            decreases end,
        {
            matched = matched + 1;
            end = end - 1;
        }
        proof {
            lemma_tail_bounds(text@, unit as int, n as int);
            assert(matching_tail(text@, unit as int, end as int) == 0);
        }
        let total: usize = matched + unit;
        let times: usize = total / unit;
        let tail: usize = total % unit;
        if times >= 5 && total >= 100 {
            let prefix_end: usize = n - total + unit;
            let mut out = text::string_of(&chars, 0, prefix_end);
            text::push_range(&mut out, &chars, n - tail, n);
            proof {
                assert(shortest_repeat(text@, unit as int) == Some(unit as int));
                assert(out@ =~= cut_repeats(text@, unit as int));
            }
            return out;
        }
        unit = unit + 1;
    }
    proof {
        assert(chars@.subrange(0, n as int) =~= text@);
    }
    text::string_of(&chars, 0, n)
}

/// The last `total` characters repeat every `unit`.
pub open spec fn repeats_every(s: Seq<char>, unit: int, total: int) -> bool {
    forall|i: int| s.len() - total + unit <= i < s.len() ==> s[i] == #[trigger] s[i - unit]
}

/// The counted tail repeats, and no longer one does.
proof fn lemma_tail_repeats(s: Seq<char>, unit: int, end: int)
    requires
        0 < unit <= end <= s.len(),
    ensures
        forall|i: int|
            end - matching_tail(s, unit, end) <= i < end ==> s[i] == #[trigger] s[i - unit],
        ({
            let stop = end - matching_tail(s, unit, end);
            stop > unit ==> s[stop - 1] != s[stop - 1 - unit]
        }),
    decreases end,
{
    if unit < end && s[end - 1] == s[end - 1 - unit] {
        lemma_tail_repeats(s, unit, end - 1);
    }
}

/// The tail that is counted is the longest one that repeats.
pub proof fn law_tail_is_the_longest_repetition(s: Seq<char>, unit: int, total: int)
    requires
        0 < unit <= s.len(),
        unit <= total <= s.len(),
    ensures
        unit <= periodic_tail(s, unit) <= s.len(),
        repeats_every(s, unit, total) <==> total <= periodic_tail(s, unit),
{
    lemma_tail_bounds(s, unit, s.len() as int);
    lemma_tail_repeats(s, unit, s.len() as int);
    let longest = periodic_tail(s, unit);
    if total <= longest {
        assert(repeats_every(s, unit, total));
    } else {
        let stop = s.len() - matching_tail(s, unit, s.len() as int);
        assert(s.len() - total + unit <= stop - 1);
        assert(s[stop - 1] != s[stop - 1 - unit]);
    }
}

/// A place of a repeating tail looks like the one `times` units before it.
proof fn lemma_repeats_far(s: Seq<char>, unit: int, total: int, i: int, times: nat)
    requires
        0 < unit <= total <= s.len(),
        repeats_every(s, unit, total),
        i < s.len(),
        i - times * unit >= s.len() - total,
    ensures
        s[i] == s[i - times * unit],
    decreases times,
{
    if times > 0 {
        assert(times * unit == (times - 1) * unit + unit) by (nonlinear_arith);
        assert((times - 1) * unit >= 0) by (nonlinear_arith)
            requires
                times > 0,
                unit > 0,
        ;
        assert(s[i] == s[i - unit]);
        lemma_repeats_far(s, unit, total, i - unit, (times - 1) as nat);
    } else {
        assert(0 * unit == 0) by (nonlinear_arith);
    }
}

/// Cutting repetitions removes whole ones: what is left is a beginning of the page
/// that still ends in one repetition and the broken one behind it.
pub proof fn law_cleaning_keeps_a_beginning(s: Seq<char>, unit: int)
    requires
        0 < unit < s.len(),
        runs_away(s, unit),
    ensures
        ({
            let total = periodic_tail(s, unit);
            let left = cut_repeats(s, unit);
            &&& left.len() == s.len() - (total / unit - 1) * unit
            &&& left == s.take(left.len() as int)
        }),
{
    let n = s.len() as int;
    let total = periodic_tail(s, unit);
    let times = total / unit;
    let tail = total % unit;
    lemma_tail_bounds(s, unit, n);
    law_tail_is_the_longest_repetition(s, unit, total);
    div_mod::lemma_fundamental_div_mod(total, unit);
    assert(unit * times == times * unit) by (nonlinear_arith);
    assert((times - 1) * unit == times * unit - unit) by (nonlinear_arith);
    let left = cut_repeats(s, unit);
    let head = n - total + unit;
    assert(left.len() == head + tail);
    assert(repeats_every(s, unit, total));
    assert forall|i: int| 0 <= i < left.len() implies left[i] == s[i] by {
        if i >= head {
            let from = n - tail + (i - head);
            assert(from - (times - 1) * unit == i);
            lemma_repeats_far(s, unit, total, from, (times - 1) as nat);
        }
    }
    assert(left =~= s.take(left.len() as int));
}

/// A cleaned page is a beginning of the page.
pub proof fn law_cleaned_page_is_a_beginning(s: Seq<char>)
    ensures
        without_repeats(s).len() <= s.len(),
        without_repeats(s) == s.take(without_repeats(s).len() as int),
        s.len() < 8_000 ==> without_repeats(s) == s,
{
    assert(s.take(s.len() as int) =~= s);
    if s.len() >= 8_000 {
        lemma_shortest(s, 1);
        if let Some(unit) = shortest_repeat(s, 1) {
            law_cleaning_keeps_a_beginning(s, unit);
            let times = periodic_tail(s, unit) / unit;
            assert((times - 1) * unit >= 0) by (nonlinear_arith)
                requires
                    times >= 5,
                    unit > 0,
            ;
        }
    }
}

/// The repetition that is found is short and runs away.
proof fn lemma_shortest(s: Seq<char>, from: int)
    requires
        1 <= from,
    ensures
        shortest_repeat(s, from) matches Some(unit) ==> from <= unit <= 200 && runs_away(s, unit)
            && forall|u: int| from <= u < unit ==> !runs_away(s, u),
        shortest_repeat(s, from) is None ==> forall|u: int| from <= u <= 200 ==> !runs_away(s, u),
    decreases 201 - from,
{
    if from <= 200 && !runs_away(s, from) {
        lemma_shortest(s, from + 1);
    }
}

/// What is handed out for a page.
pub open spec fn finished(page: Seq<char>, keep_image_tags: bool) -> Seq<char> {
    without_repeats(
        if keep_image_tags {
            page
        } else {
            without_image_blocks(page)
        },
    )
}

/// Finishes a page: pictures are dropped unless they are to be kept, and
/// repetitions at its end are cut.
pub fn postprocess_text(text: &str, keep_image_tags: bool) -> (r: String)
    ensures
        r@ == finished(text@, keep_image_tags),
{
    if keep_image_tags {
        clean_truncated_repeats(text)
    } else {
        let filtered = filter_visual_image_tags(text);
        clean_truncated_repeats(filtered.as_str())
    }
}

/// Finishes a region; a chart may be a picture.
pub fn postprocess_recognition_text(text: &str, task: RecognitionTask) -> (r: String)
    ensures
        r@ == finished(text@, task == RecognitionTask::Chart),
{
    postprocess_text(text, task == RecognitionTask::Chart)
}

/// A block stands for a picture if and only if the picture's tag stands in it behind
/// nothing but white space.
pub proof fn law_picture_begins_with_its_tag(block: Seq<char>)
    ensures
        is_image_block(block) <==> exists|i: int| #[trigger] begins_at(block, i),
{
    let tag = "<img src=\"images/bbox_"@;
    reveal_strlit("<img src=\"images/bbox_");
    let (before, after) = text::law_trimmed_text_stands_between_white_space(block);
    let inner = text::trimmed(block);
    let n = before.len() as int;
    if is_image_block(block) {
        assert(inner.take(tag.len() as int) == tag);
        assert(block.subrange(n, n + tag.len()) =~= inner.take(tag.len() as int));
        assert forall|j: int| 0 <= j < n implies text::is_white_space(#[trigger] block[j]) by {
            assert(block[j] == before[j]);
        }
        assert(begins_at(block, n));
    }
    if exists|i: int| #[trigger] begins_at(block, i) {
        let i = choose|i: int| #[trigger] begins_at(block, i);
        let found = block.subrange(i, i + tag.len());
        assert(text::occurs_at(block, tag, i));
        assert(found == tag);
        assert(tag[0] == '<');
        assert(block[i] == found[0]);
        assert(!text::is_white_space(block[i]));
        let last = i + tag.len() - 1;
        assert(tag[tag.len() - 1] == '_');
        assert(block[last] == found[tag.len() - 1]);
        assert(!text::is_white_space(block[last]));
        if i < n {
            assert(block[i] == before[i]);
        } else if i > n {
            assert(text::is_white_space(block[n]));
            if inner.len() > 0 {
                assert(block[n] == inner[0]);
            } else {
                assert(block[i] == after[i - n]);
            }
        }
        if last >= n + inner.len() {
            assert(block[last] == after[last - n - inner.len()]);
        }
        assert(inner.take(tag.len() as int) =~= block.subrange(n, n + tag.len()));
    }
}

/// The tag of a picture stands in a block at place `i`, behind white space alone.
pub open spec fn begins_at(block: Seq<char>, i: int) -> bool {
    &&& text::occurs_at(block, "<img src=\"images/bbox_"@, i)
    &&& forall|j: int| 0 <= j < i ==> text::is_white_space(#[trigger] block[j])
}

/// `places` are the places of all blocks that stand for no picture, in order.
pub open spec fn are_text_places(blocks: Seq<Seq<char>>, places: Seq<int>) -> bool {
    &&& forall|k: int|
        0 <= k < places.len() ==> 0 <= #[trigger] places[k] < blocks.len() && !is_image_block(
            blocks[places[k]],
        )
    &&& forall|j: int, k: int| 0 <= j < k < places.len() ==> places[j] < places[k]
    &&& forall|i: int|
        0 <= i < blocks.len() && !is_image_block(#[trigger] blocks[i]) ==> places.contains(i)
}

/// The kept blocks are those at the places of the text, one for one.
proof fn lemma_kept_places(blocks: Seq<Seq<char>>, places: Seq<int>)
    requires
        are_text_places(blocks, places),
    ensures
        text_blocks(blocks) == places.map_values(|i: int| blocks[i]),
    decreases blocks.len(),
{
    let kept = places.map_values(|i: int| blocks[i]);
    if blocks.len() == 0 {
        if places.len() > 0 {
            assert(0 <= places[0] < blocks.len());
        }
        assert(kept =~= text_blocks(blocks));
    } else {
        let rest = blocks.skip(1);
        let picture = is_image_block(blocks[0]);
        if !picture {
            assert(places.contains(0));
            let k = choose|k: int| 0 <= k < places.len() && places[k] == 0;
            if k > 0 {
                assert(places[0] < places[k]);
                assert(0 <= places[0]);
            }
            assert(places[0] == 0);
        }
        let from: int = if picture {
            0
        } else {
            1
        };
        let later = places.skip(from).map_values(|i: int| i - 1);
        assert forall|k: int| 0 <= k < later.len() implies 0 <= #[trigger] later[k] < rest.len()
            && !is_image_block(rest[later[k]]) by {
            let p = places[k + from];
            assert(later[k] == p - 1);
            assert(!is_image_block(blocks[p]));
            if p == 0 {
                assert(!picture);
                assert(places[0] < places[k + from]);
            }
            assert(rest[p - 1] == blocks[p]);
        }
        assert forall|j: int, k: int| 0 <= j < k < later.len() implies later[j] < later[k] by {
            assert(places[j + from] < places[k + from]);
        }
        assert forall|i: int|
            0 <= i < rest.len() && !is_image_block(#[trigger] rest[i]) implies later.contains(i) by {
            assert(rest[i] == blocks[i + 1]);
            assert(places.contains(i + 1));
            let k = choose|k: int| 0 <= k < places.len() && places[k] == i + 1;
            assert(later[k - from] == i);
        }
        lemma_kept_places(rest, later);
        let more = later.map_values(|i: int| rest[i]);
        assert forall|k: int| 0 <= k < more.len() implies more[k] == kept[k + from] by {
            assert(later[k] == places[k + from] - 1);
            assert(0 <= later[k] < rest.len());
        }
        if picture {
            assert(more =~= kept);
        } else {
            assert(seq![blocks[0]] + more =~= kept);
        }
    }
}

/// Filtering keeps every block of a page that stands for no picture, and no other: the
/// blocks of the filtered page are those blocks, in their order and as often as they
/// occur. A page of pictures alone becomes empty.
pub proof fn law_filtering_keeps_every_text_block(page: Seq<char>, places: Seq<int>)
    requires
        are_text_places(text::split(page, "\n\n"@), places),
    ensures
        ({
            let blocks = text::split(page, "\n\n"@);
            let filtered = without_image_blocks(page);
            let left = text::split(filtered, "\n\n"@);
            if places.len() == 0 {
                filtered == Seq::<char>::empty()
            } else {
                &&& left.len() == places.len()
                &&& forall|k: int| 0 <= k < places.len() ==> #[trigger] left[k] == blocks[places[k]]
            }
        }),
{
    let blocks = text::split(page, "\n\n"@);
    lemma_kept_places(blocks, places);
    lemma_split_is_tidy(page);
    lemma_text_blocks(blocks);
    let kept = text_blocks(blocks);
    if places.len() > 0 {
        lemma_split_join(kept);
        assert forall|k: int| 0 <= k < places.len() implies #[trigger] kept[k] == blocks[places[k]] by {}
    } else {
        assert(kept =~= Seq::empty());
    }
}

/// A page that holds no picture's tag is not changed by filtering.
pub proof fn law_page_without_pictures_is_kept(page: Seq<char>)
    requires
        forall|i: int| !#[trigger] text::occurs_at(page, "<img src=\"images/bbox_"@, i),
    ensures
        without_image_blocks(page) == page,
{
    let tag = "<img src=\"images/bbox_"@;
    let sep = "\n\n"@;
    reveal_strlit("\n\n");
    let blocks = text::split(page, sep);
    text::law_split_parts_make_up_the_text(page, sep);
    assert forall|k: int| 0 <= k < blocks.len() implies !is_image_block(#[trigger] blocks[k]) by {
        law_picture_begins_with_its_tag(blocks[k]);
        if is_image_block(blocks[k]) {
            let i = choose|i: int| #[trigger] begins_at(blocks[k], i);
            lemma_part_stands_in_whole(blocks, sep, k);
            let at = choose|at: int| #[trigger] text::occurs_at(page, blocks[k], at);
            let whole = page.subrange(at, at + blocks[k].len());
            assert(page.subrange(at + i, at + i + tag.len()) =~= whole.subrange(i, i + tag.len()));
            assert(text::occurs_at(page, tag, at + i));
        }
    }
    lemma_all_kept(blocks);
}

/// `part` stands somewhere in `whole`.
spec fn stands_in(whole: Seq<char>, part: Seq<char>) -> bool {
    exists|at: int| #[trigger] text::occurs_at(whole, part, at)
}

/// Every part stands in what the parts make up.
proof fn lemma_part_stands_in_whole(parts: Seq<Seq<char>>, sep: Seq<char>, k: int)
    requires
        0 <= k < parts.len(),
    ensures
        stands_in(text::join(parts, sep), parts[k]),
    decreases parts.len(),
{
    let whole = text::join(parts, sep);
    let part = parts[k];
    if parts.len() == 1 {
        assert(whole.subrange(0, whole.len() as int) =~= part);
        assert(text::occurs_at(whole, part, 0));
    } else {
        let front = parts.drop_last();
        let before = text::join(front, sep);
        if k < front.len() {
            lemma_part_stands_in_whole(front, sep, k);
            let at = choose|at: int| #[trigger] text::occurs_at(before, part, at);
            assert(whole.subrange(at, at + part.len()) =~= before.subrange(at, at + part.len()));
            assert(text::occurs_at(whole, part, at));
        } else {
            let at = (before.len() + sep.len()) as int;
            assert(whole.subrange(at, at + part.len()) =~= part);
            assert(text::occurs_at(whole, part, at));
        }
    }
}

/// The last `t` characters of `s` repeat themselves every `u` characters, often enough
/// for a runaway answer: five times and more, and a hundred characters and more.
pub open spec fn is_runaway(s: Seq<char>, u: int, t: int) -> bool {
    &&& 1 <= u <= 200
    &&& 100 <= t <= s.len()
    &&& 5 * u <= t
    &&& forall|i: int| s.len() - t + u <= i < s.len() ==> s[i] == #[trigger] s[i - u]
}

/// A repetition runs away with some tail if and only if it does with its longest one.
proof fn lemma_runaway(s: Seq<char>, u: int, t: int)
    requires
        is_runaway(s, u, t),
    ensures
        runs_away(s, u),
        t <= periodic_tail(s, u) <= s.len(),
{
    law_tail_is_the_longest_repetition(s, u, t);
    assert(repeats_every(s, u, t));
    let longest = periodic_tail(s, u);
    assert(longest / u >= 5) by (nonlinear_arith)
        requires
            longest >= 5 * u,
            u > 0,
    ;
}

/// A repetition that runs away has such a tail: its longest one.
proof fn lemma_runs_away(s: Seq<char>, u: int)
    requires
        1 <= u <= 200,
        s.len() >= 200,
        runs_away(s, u),
    ensures
        is_runaway(s, u, periodic_tail(s, u)),
{
    let t = periodic_tail(s, u);
    law_tail_is_the_longest_repetition(s, u, u);
    law_tail_is_the_longest_repetition(s, u, t);
    assert(repeats_every(s, u, t));
    assert(5 * u <= t) by (nonlinear_arith)
        requires
            t / u >= 5,
            u > 0,
    ;
}

/// A long page that ends in a runaway answer is cut: with the shortest repetition `p` and
/// its longest tail `t`, all of its copies but one are dropped from the end.
pub proof fn law_runaway_answer_is_cut(s: Seq<char>, p: int, t: int)
    requires
        s.len() >= 8_000,
        is_runaway(s, p, t),
        forall|u: int, v: int| u < p ==> !#[trigger] is_runaway(s, u, v),
        forall|v: int| v > t ==> !#[trigger] is_runaway(s, p, v),
    ensures
        without_repeats(s) == s.take(s.len() - (t / p - 1) * p),
        without_repeats(s).len() < s.len(),
{
    lemma_shortest(s, 1);
    lemma_runaway(s, p, t);
    let unit = shortest_repeat(s, 1)->0;
    assert(unit <= p);
    if unit < p {
        lemma_runs_away(s, unit);
        assert(is_runaway(s, unit, periodic_tail(s, unit)));
    }
    lemma_runs_away(s, p);
    let longest = periodic_tail(s, p);
    if longest > t {
        assert(is_runaway(s, p, longest));
    }
    law_cleaning_keeps_a_beginning(s, p);
    assert((t / p - 1) * p > 0) by (nonlinear_arith)
        requires
            t / p >= 5,
            p > 0,
    ;
}

/// Whatever the repetition, a long page that ends in a runaway answer becomes shorter.
pub proof fn law_every_runaway_answer_is_cut(s: Seq<char>, u: int, t: int)
    requires
        s.len() >= 8_000,
        is_runaway(s, u, t),
    ensures
        without_repeats(s).len() < s.len(),
{
    lemma_shortest(s, 1);
    lemma_runaway(s, u, t);
    let unit = shortest_repeat(s, 1)->0;
    lemma_runs_away(s, unit);
    law_cleaning_keeps_a_beginning(s, unit);
    let total = periodic_tail(s, unit);
    assert((total / unit - 1) * unit > 0) by (nonlinear_arith)
        requires
            total / unit >= 5,
            unit > 0,
    ;
}

/// A page that is short or ends in no runaway answer stays as it is.
pub proof fn law_other_pages_are_not_cut(s: Seq<char>)
    requires
        s.len() < 8_000 || forall|u: int, t: int| !#[trigger] is_runaway(s, u, t),
    ensures
        without_repeats(s) == s,
{
    if s.len() >= 8_000 {
        lemma_shortest(s, 1);
        if let Some(unit) = shortest_repeat(s, 1) {
            lemma_runs_away(s, unit);
            assert(is_runaway(s, unit, periodic_tail(s, unit)));
        }
    }
}

/// A page is finished by dropping its pictures, unless they are to be kept, and then
/// cutting what runs away at its end.
pub proof fn law_finishing_filters_before_it_cuts(page: Seq<char>)
    ensures
        finished(page, true) == without_repeats(page),
        finished(page, false) == without_repeats(without_image_blocks(page)),
{
}

} // verus!
