//! Configuration of a checkpoint.
use crate::error::{self, Error, ErrorView, Message};
use crate::mineru::config::MinerUVisionConfig;
use crate::sdar::SdarConfig;
use crate::text;
use vstd::prelude::*;

verus! {

/// The whole model.
#[derive(Debug, Clone)]
pub struct MinerUDiffusionConfig {
    pub text_config: SdarConfig,
    pub vision_config: MinerUVisionConfig,
    pub image_token_id: u32,
    pub video_token_id: u32,
    pub vision_start_token_id: u32,
    pub vision_end_token_id: u32,
    /// Stands for each token that is not decoded yet.
    pub mask_token_id: u32,
    /// The kind of projector, with its merge factor.
    pub vision_projector_type: String,
}

impl MinerUDiffusionConfig {
    /// How many patches along each side the projector merges: the factor in its
    /// kind, else that of the vision tower.
    pub fn projector_merge_size(&self) -> (r: Result<usize, Error>)
        ensures
            error::tells(
                r,
                merge_size(
                    self.vision_projector_type@,
                    self.vision_config.spatial_merge_size,
                ),
            ),
    {
        parse_merge_size(
            self.vision_projector_type.as_str(),
            self.vision_config.spatial_merge_size,
        )
    }
}

/// `s` without any `pat` at its beginning.
pub open spec fn without_prefixes(s: Seq<char>, pat: Seq<char>) -> Seq<char>
    decreases s.len(),
{
    if pat.len() > 0 && text::starts_with(s, pat) {
        without_prefixes(s.skip(pat.len() as int), pat)
    } else {
        s
    }
}

/// `s` without any `c` at its end.
pub open spec fn without_last(s: Seq<char>, c: char) -> Seq<char>
    decreases s.len(),
{
    if s.len() > 0 && s.last() == c {
        without_last(s.drop_last(), c)
    } else {
        s
    }
}

/// A decimal digit.
pub open spec fn is_digit(c: char) -> bool {
    '0' <= c && c <= '9'
}

/// How many digits a text begins with.
pub open spec fn digits_ahead(s: Seq<char>) -> nat
    decreases s.len(),
{
    if s.len() > 0 && is_digit(s[0]) {
        1 + digits_ahead(s.skip(1))
    } else {
        0
    }
}

/// The number that digits write.
pub open spec fn number(digits: Seq<char>) -> nat
    decreases digits.len(),
{
    if digits.len() == 0 {
        0
    } else {
        number(digits.drop_last()) * 10 + (digits.last() as nat - '0' as nat) as nat
    }
}

/// The digits of a projector's kind.
pub open spec fn factor_digits(projector_type: Seq<char>) -> Seq<char> {
    let core = without_last(
        without_prefixes(
            without_prefixes(text::trimmed(projector_type), "patch_merger"@),
            "pm"@,
        ),
        'x',
    );
    core.take(digits_ahead(core) as int)
}

/// The merge factor of a projector's kind.
pub open spec fn merge_size(projector_type: Seq<char>, fallback: usize) -> Result<
    usize,
    ErrorView,
> {
    let digits = factor_digits(projector_type);
    if digits.len() == 0 {
        Ok(fallback)
    } else if number(digits) > usize::MAX {
        Err(
            ErrorView::Config(
                "MinerU-Diffusion: unsupported vision_projector_type '"@ + projector_type + "'"@,
            ),
        )
    } else {
        Ok(number(digits) as usize)
    }
}

/// Skips all `pat` at the beginning of `chars[from..to]`.
fn skip_prefixes(chars: &Vec<char>, from: usize, to: usize, pat: &Vec<char>) -> (a: usize)
    requires
        from <= to <= chars.len(),
        pat.len() > 0,
    ensures
        from <= a <= to,
        chars@.subrange(a as int, to as int) == without_prefixes(
            chars@.subrange(from as int, to as int),
            pat@,
        ),
{
    let mut a: usize = from;
    while text::matches_at(chars, a, to, pat)
        invariant
            from <= a <= to <= chars.len(),
            pat.len() > 0,
            without_prefixes(chars@.subrange(a as int, to as int), pat@) == without_prefixes(
                chars@.subrange(from as int, to as int),
                pat@,
            ),
        decreases to - a,
    {
        proof {
            let rest = chars@.subrange(a as int, to as int);
            assert(rest.skip(pat@.len() as int) =~= chars@.subrange(a + pat@.len(), to as int));
        }
        a = a + pat.len();
    }
    a
}

/// Longer numbers are not smaller.
proof fn lemma_number_grows(digits: Seq<char>, n: int)
    requires
        0 <= n <= digits.len(),
    ensures
        number(digits.take(n)) <= number(digits),
    decreases digits.len() - n,
{
    if n < digits.len() {
        lemma_number_grows(digits, n + 1);
        assert(digits.take(n + 1).drop_last() =~= digits.take(n));
    } else {
        assert(digits.take(n) =~= digits);
    }
}

/// The value of a digit.
fn digit_value(c: char) -> (d: usize)
    requires
        is_digit(c),
    ensures
        d == c as nat - '0' as nat,
        d < 10,
{
    (c as u32 - '0' as u32) as usize
}

/// The merge factor of a projector's kind, or `fallback` where it names none.
pub fn parse_merge_size(projector_type: &str, fallback: usize) -> (r: Result<usize, Error>)
    ensures
        error::tells(r, merge_size(projector_type@, fallback)),
{
    let chars = text::char_vec(projector_type);
    let n: usize = chars.len();
    let long = text::char_vec("patch_merger");
    let short = text::char_vec("pm");
    proof {
        reveal_strlit("patch_merger");
        reveal_strlit("pm");
        assert(chars@.subrange(0, n as int) =~= projector_type@);
    }
    let (a, b): (usize, usize) = text::trim_bounds(&chars, 0, n);
    let c: usize = skip_prefixes(&chars, a, b, &long);
    let d: usize = skip_prefixes(&chars, c, b, &short);
    let mut e: usize = b;
    let ghost inner = chars@.subrange(d as int, b as int);
    while e > d && chars[e - 1] == 'x'
        invariant
            d <= e <= b <= chars.len(),
            without_last(chars@.subrange(d as int, e as int), 'x') == without_last(inner, 'x'),
        decreases e - d,
    {
        proof {
            assert(chars@.subrange(d as int, e as int).drop_last() =~= chars@.subrange(
                d as int,
                e - 1,
            ));
        }
        e = e - 1;
    }
    let ghost core = chars@.subrange(d as int, e as int);
    proof {
        assert(core == without_last(inner, 'x'));
    }
    let mut f: usize = d;
    while f < e && '0' <= chars[f] && chars[f] <= '9'
        invariant
            d <= f <= e <= chars.len(),
            core == chars@.subrange(d as int, e as int),
            forall|i: int| d <= i < f ==> is_digit(#[trigger] chars@[i]),
            digits_ahead(core) == (f - d) + digits_ahead(chars@.subrange(f as int, e as int)),
        decreases e - f,
    {
        proof {
            assert(chars@.subrange(f as int, e as int).skip(1) =~= chars@.subrange(
                f + 1,
                e as int,
            ));
        }
        f = f + 1;
    }
    let ghost digits = factor_digits(projector_type@);
    proof {
        assert(digits_ahead(core) == f - d);
        assert(digits =~= chars@.subrange(d as int, f as int));
    }
    if f == d {
        return Ok(fallback);
    }
    let mut value: usize = 0;
    let mut i: usize = d;
    proof {
        assert(digits.take(0) =~= Seq::empty());
    }
    while i < f
        invariant
            d <= i <= f <= chars.len(),
            digits == chars@.subrange(d as int, f as int),
            digits == factor_digits(projector_type@),
            digits.len() > 0,
            forall|j: int| d <= j < f ==> is_digit(#[trigger] chars@[j]),
            value == number(digits.take(i - d)),
        decreases f - i,
    {
        let digit: usize = digit_value(chars[i]);
        proof {
            assert(digits.take(i - d + 1).drop_last() =~= digits.take(i - d));
            assert(digits.take(i - d + 1).last() == chars@[i as int]);
            lemma_number_grows(digits, i - d + 1);
        }
        let next: Option<usize> = match value.checked_mul(10) {
            Some(v) => v.checked_add(digit),
            None => None,
        };
        match next {
            Some(v) => {
                value = v;
            },
            None => return Err(
                Message::new("MinerU-Diffusion: unsupported vision_projector_type '").text(
                    projector_type,
                ).text("'").config(),
            ),
        }
        i = i + 1;
    }
    proof {
        assert(digits.take(f - d) =~= digits);
    }
    Ok(value)
}

/// A projector's kind that names a factor gives that factor: behind `patch_merger` or
/// `pm`, or on its own, with or without an `x` behind it.
pub proof fn law_kind_names_its_factor(n: nat, fallback: usize)
    requires
        n <= usize::MAX,
    ensures
        merge_size("patch_merger"@ + text::dec(n) + "x"@, fallback) == Ok::<usize, ErrorView>(
            n as usize,
        ),
        merge_size("patch_merger"@ + text::dec(n), fallback) == Ok::<usize, ErrorView>(n as usize),
        merge_size("pm"@ + text::dec(n) + "x"@, fallback) == Ok::<usize, ErrorView>(n as usize),
        merge_size("pm"@ + text::dec(n), fallback) == Ok::<usize, ErrorView>(n as usize),
        merge_size(text::dec(n), fallback) == Ok::<usize, ErrorView>(n as usize),
{
    let digits = text::dec(n);
    let none: Seq<char> = Seq::empty();
    text::law_decimal_reads_back(n);
    reveal_strlit("patch_merger");
    reveal_strlit("pm");
    reveal_strlit("x");
    lemma_number_reads(digits);
    lemma_factor(none, digits, none, n, fallback);
    lemma_factor("patch_merger"@, digits, none, n, fallback);
    lemma_factor("patch_merger"@, digits, "x"@, n, fallback);
    lemma_factor("pm"@, digits, none, n, fallback);
    lemma_factor("pm"@, digits, "x"@, n, fallback);
    assert(none + digits + none =~= digits);
    assert("patch_merger"@ + digits + none =~= "patch_merger"@ + digits);
    assert("pm"@ + digits + none =~= "pm"@ + digits);
}

/// A projector's kind without a digit names no factor.
pub proof fn law_kind_without_digits_names_none(kind: Seq<char>, fallback: usize)
    requires
        forall|i: int| 0 <= i < kind.len() ==> !('0' <= #[trigger] kind[i] <= '9'),
    ensures
        merge_size(kind, fallback) == Ok::<usize, ErrorView>(fallback),
{
    let (front, back) = text::law_trimmed_text_stands_between_white_space(kind);
    let s = text::trimmed(kind);
    assert forall|i: int| 0 <= i < s.len() implies !is_digit(#[trigger] s[i]) by {
        assert(s[i] == kind[front.len() + i]);
    }
    let a = lemma_prefixes_leave_an_end(s, "patch_merger"@);
    let s1 = without_prefixes(s, "patch_merger"@);
    let b = lemma_prefixes_leave_an_end(s1, "pm"@);
    let s2 = without_prefixes(s1, "pm"@);
    lemma_last_leaves_a_beginning(s2, 'x');
    let core = without_last(s2, 'x');
    if core.len() > 0 {
        assert(core[0] == s2[0]);
        assert(s2[0] == s1[b]);
        assert(s1[b] == s[a + b]);
    }
}

/// Cutting beginnings leaves an end.
proof fn lemma_prefixes_leave_an_end(s: Seq<char>, pat: Seq<char>) -> (from: int)
    ensures
        0 <= from <= s.len(),
        without_prefixes(s, pat) == s.skip(from),
    decreases s.len(),
{
    if pat.len() > 0 && text::starts_with(s, pat) {
        let rest = s.skip(pat.len() as int);
        let from = lemma_prefixes_leave_an_end(rest, pat);
        assert(rest.skip(from) =~= s.skip(pat.len() + from));
        pat.len() + from
    } else {
        assert(s.skip(0) =~= s);
        0
    }
}

/// Cutting characters off the end leaves a beginning.
proof fn lemma_last_leaves_a_beginning(s: Seq<char>, c: char)
    ensures
        without_last(s, c).len() <= s.len(),
        without_last(s, c) == s.take(without_last(s, c).len() as int),
    decreases s.len(),
{
    if s.len() > 0 && s.last() == c {
        lemma_last_leaves_a_beginning(s.drop_last(), c);
        assert(s.drop_last().take(without_last(s, c).len() as int) =~= s.take(
            without_last(s, c).len() as int,
        ));
    } else {
        assert(s.take(s.len() as int) =~= s);
    }
}

/// Digits write the number that they read as.
proof fn lemma_number_reads(digits: Seq<char>)
    requires
        forall|i: int| 0 <= i < digits.len() ==> '0' <= #[trigger] digits[i] <= '9',
    ensures
        number(digits) == text::number_of(digits),
        digits_ahead(digits) == digits.len(),
    decreases digits.len(),
{
    if digits.len() > 0 {
        let front = digits.drop_last();
        assert forall|i: int| 0 <= i < front.len() implies '0' <= #[trigger] front[i] <= '9' by {
            assert(front[i] == digits[i]);
        }
        lemma_number_reads(front);
        assert(digits[digits.len() - 1] == digits.last());
        lemma_all_digits(digits);
    }
}

/// A text of digits begins with all of them.
proof fn lemma_all_digits(digits: Seq<char>)
    requires
        forall|i: int| 0 <= i < digits.len() ==> '0' <= #[trigger] digits[i] <= '9',
    ensures
        digits_ahead(digits) == digits.len(),
    decreases digits.len(),
{
    if digits.len() > 0 {
        let rest = digits.skip(1);
        assert forall|i: int| 0 <= i < rest.len() implies '0' <= #[trigger] rest[i] <= '9' by {
            assert(rest[i] == digits[i + 1]);
        }
        lemma_all_digits(rest);
    }
}

/// The factor of a kind that is made of a beginning, digits and an end.
proof fn lemma_factor(head: Seq<char>, digits: Seq<char>, tail: Seq<char>, n: nat, fallback: usize)
    requires
        head.len() == 0 || head == "patch_merger"@ || head == "pm"@,
        tail.len() == 0 || tail == "x"@,
        digits.len() > 0,
        forall|i: int| 0 <= i < digits.len() ==> '0' <= #[trigger] digits[i] <= '9',
        number(digits) == n,
        digits_ahead(digits) == digits.len(),
        n <= usize::MAX,
    ensures
        merge_size(head + digits + tail, fallback) == Ok::<usize, ErrorView>(n as usize),
{
    reveal_strlit("patch_merger");
    reveal_strlit("pm");
    reveal_strlit("x");
    let none: Seq<char> = Seq::empty();
    let kind = head + digits + tail;
    let body = digits + tail;
    assert(digits[0] == body[0]);
    assert(!text::is_white_space(kind[0])) by {
        if head.len() == 0 {
            assert(kind[0] == digits[0]);
        } else {
            assert(kind[0] == head[0]);
        }
    }
    assert(!text::is_white_space(kind.last())) by {
        if tail.len() == 0 {
            assert(kind.last() == digits[digits.len() - 1]);
        } else {
            assert(kind.last() == tail[0]);
        }
    }
    text::law_trimming_removes_the_margin(none, kind, none);
    assert(none + kind + none =~= kind);
    let merger = "patch_merger"@;
    let pm = "pm"@;
    assert forall|pat: Seq<char>| pat.len() > 0 && pat[0] == 'p' implies !#[trigger] text::starts_with(
        body,
        pat,
    ) by {
        if text::starts_with(body, pat) {
            assert(body.take(pat.len() as int)[0] == body[0]);
        }
    }
    assert(without_prefixes(body, merger) == body);
    assert(without_prefixes(body, pm) == body);
    if head == merger {
        assert(kind.take(12) =~= merger);
        assert(kind.skip(12) =~= body);
        assert(without_prefixes(kind, merger) == body);
    } else if head == pm {
        assert(!text::starts_with(kind, merger)) by {
            if text::starts_with(kind, merger) {
                assert(kind.take(12)[1] == kind[1]);
                assert(kind[1] == pm[1]);
            }
        }
        assert(kind.take(2) =~= pm);
        assert(kind.skip(2) =~= body);
        assert(without_prefixes(kind, merger) == kind);
        assert(without_prefixes(kind, pm) == body);
    } else {
        assert(kind =~= body);
    }
    assert(digits[digits.len() - 1] == digits.last());
    assert(without_last(digits, 'x') == digits);
    if tail.len() == 0 {
        assert(body =~= digits);
    } else {
        assert(body.drop_last() =~= digits);
        assert(body.last() == 'x');
    }
    assert(without_last(body, 'x') == digits);
    assert(digits.take(digits.len() as int) =~= digits);
    assert(factor_digits(kind) == digits);
}

/// A factor that no length can hold is a fault of the configuration.
pub proof fn law_fault_is_of_the_configuration(kind: Seq<char>, fallback: usize)
    ensures
        merge_size(kind, fallback) matches Err(e) ==> e is Config,
{
}

} // verus!
