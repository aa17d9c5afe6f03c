//! Strings as sequences of characters: searching, trimming, splitting and
//! rendering numbers.
use vstd::prelude::*;

verus! {

/// `String::push` appends one character at the end.
pub assume_specification[ String::push ](s: &mut String, ch: char)
    ensures
        final(s)@ == old(s)@.push(ch),
;

/// The characters that Unicode calls white space.
pub open spec fn is_white_space(c: char) -> bool {
    let u = c as u32;
    ||| 9 <= u <= 13
    ||| u == 0x20
    ||| u == 0x85
    ||| u == 0xa0
    ||| u == 0x1680
    ||| 0x2000 <= u <= 0x200a
    ||| u == 0x2028
    ||| u == 0x2029
    ||| u == 0x202f
    ||| u == 0x205f
    ||| u == 0x3000
}

/// Decides [`is_white_space`].
pub fn white_space(c: char) -> (r: bool)
    ensures
        r == is_white_space(c),
{
    let u = c as u32;
    (9 <= u && u <= 13) || u == 0x20 || u == 0x85 || u == 0xa0 || u == 0x1680 || (0x2000 <= u && u
        <= 0x200a) || u == 0x2028 || u == 0x2029 || u == 0x202f || u == 0x205f || u == 0x3000
}

/// `s` without its leading white space.
pub open spec fn trim_start(s: Seq<char>) -> Seq<char>
    decreases s.len(),
{
    if s.len() > 0 && is_white_space(s[0]) {
        trim_start(s.skip(1))
    } else {
        s
    }
}

/// `s` without its trailing white space.
pub open spec fn trim_end(s: Seq<char>) -> Seq<char>
    decreases s.len(),
{
    if s.len() > 0 && is_white_space(s.last()) {
        trim_end(s.drop_last())
    } else {
        s
    }
}

/// `s` without white space at either end.
pub open spec fn trimmed(s: Seq<char>) -> Seq<char> {
    trim_end(trim_start(s))
}

/// Whether `s` begins with `pat`.
pub open spec fn starts_with(s: Seq<char>, pat: Seq<char>) -> bool {
    pat.len() <= s.len() && s.take(pat.len() as int) == pat
}

/// Whether `s` ends with `pat`.
pub open spec fn ends_with(s: Seq<char>, pat: Seq<char>) -> bool {
    pat.len() <= s.len() && s.skip(s.len() - pat.len()) == pat
}

/// `s` without `pat` at its beginning, if it is there.
pub open spec fn without_prefix(s: Seq<char>, pat: Seq<char>) -> Seq<char> {
    if starts_with(s, pat) {
        s.skip(pat.len() as int)
    } else {
        s
    }
}

/// `s` without `pat` at its end, if it is there.
pub open spec fn without_suffix(s: Seq<char>, pat: Seq<char>) -> Seq<char> {
    if ends_with(s, pat) {
        s.take(s.len() - pat.len())
    } else {
        s
    }
}

/// The place of the first occurrence of `pat` in `s`.
pub open spec fn find(s: Seq<char>, pat: Seq<char>) -> Option<nat>
    decreases s.len(),
{
    if starts_with(s, pat) {
        Some(0)
    } else if s.len() == 0 {
        None
    } else {
        match find(s.skip(1), pat) {
            Some(i) => Some(i + 1),
            None => None,
        }
    }
}

/// `s` with every occurrence of a non-empty `pat`, taken from the left without
/// overlap, replaced by `by`.
pub open spec fn replace_all(s: Seq<char>, pat: Seq<char>, by: Seq<char>) -> Seq<char>
    decreases s.len(),
{
    if s.len() == 0 {
        s
    } else if pat.len() > 0 && starts_with(s, pat) {
        by + replace_all(s.skip(pat.len() as int), pat, by)
    } else {
        seq![s[0]] + replace_all(s.skip(1), pat, by)
    }
}

/// `s` cut at the occurrences of a non-empty `sep`, taken from the left without
/// overlap.
pub open spec fn split(s: Seq<char>, sep: Seq<char>) -> Seq<Seq<char>>
    decreases s.len(),
    when sep.len() > 0
{
    match find(s, sep) {
        Some(i) => if i + sep.len() <= s.len() {
            seq![s.take(i as int)] + split(s.skip((i + sep.len()) as int), sep)
        } else {
            seq![s]
        },
        None => seq![s],
    }
}

/// `parts` one after the other with `sep` between neighbours.
pub open spec fn join(parts: Seq<Seq<char>>, sep: Seq<char>) -> Seq<char>
    decreases parts.len(),
{
    if parts.len() == 0 {
        Seq::empty()
    } else if parts.len() == 1 {
        parts[0]
    } else {
        join(parts.drop_last(), sep) + sep + parts.last()
    }
}

/// `unit` written `n` times.
pub open spec fn repeated(unit: Seq<char>, n: nat) -> Seq<char>
    decreases n,
{
    if n == 0 {
        Seq::empty()
    } else {
        repeated(unit, (n - 1) as nat) + unit
    }
}

/// The decimal digit `d`.
pub open spec fn digit(d: nat) -> char {
    if d == 0 {
        '0'
    } else if d == 1 {
        '1'
    } else if d == 2 {
        '2'
    } else if d == 3 {
        '3'
    } else if d == 4 {
        '4'
    } else if d == 5 {
        '5'
    } else if d == 6 {
        '6'
    } else if d == 7 {
        '7'
    } else if d == 8 {
        '8'
    } else {
        '9'
    }
}

/// `n` in decimal.
pub open spec fn dec(n: nat) -> Seq<char>
    decreases n,
{
    if n < 10 {
        seq![digit(n)]
    } else {
        dec(n / 10).push(digit(n % 10))
    }
}

/// The characters of `s`.
pub fn char_vec(s: &str) -> (v: Vec<char>)
    ensures
        v@ == s@,
{
    let mut v: Vec<char> = Vec::new();
    for c in it: s.chars()
        invariant
            it.seq() == s@,
            v@ == s@.take(it.index()),
    {
        v.push(c);
    }
    v
}

/// Appends `chars[from..to]` to `out`.
pub fn push_range(out: &mut String, chars: &Vec<char>, from: usize, to: usize)
    requires
        from <= to <= chars.len(),
    ensures
        final(out)@ == old(out)@ + chars@.subrange(from as int, to as int),
{
    let mut i: usize = from;
    while i < to
        invariant
            from <= i <= to <= chars.len(),
            out@ == old(out)@ + chars@.subrange(from as int, i as int),
        decreases to - i,
    {
        out.push(chars[i]);
        i = i + 1;
    }
}

/// `chars[from..to]` as a string.
pub fn string_of(chars: &Vec<char>, from: usize, to: usize) -> (s: String)
    requires
        from <= to <= chars.len(),
    ensures
        s@ == chars@.subrange(from as int, to as int),
{
    let mut s = String::new();
    push_range(&mut s, chars, from, to);
    s
}

/// The white space at both ends of `chars` lies outside `r.0..r.1`.
pub fn trim_bounds(chars: &Vec<char>, from: usize, to: usize) -> (r: (usize, usize))
    requires
        from <= to <= chars.len(),
    ensures
        from <= r.0 <= r.1 <= to,
        chars@.subrange(r.0 as int, r.1 as int) == trimmed(chars@.subrange(from as int, to as int)),
{
    let ghost s = chars@.subrange(from as int, to as int);
    let mut i: usize = from;
    while i < to && white_space(chars[i])
        invariant
            from <= i <= to <= chars.len(),
            trim_start(s) == trim_start(chars@.subrange(i as int, to as int)),
        decreases to - i,
    {
        proof {
            let rest = chars@.subrange(i as int, to as int);
            assert(rest.skip(1) == chars@.subrange(i + 1, to as int));
        }
        i = i + 1;
    }
    proof {
        assert(trim_start(s) == chars@.subrange(i as int, to as int));
    }
    let mut j: usize = to;
    while j > i && white_space(chars[j - 1])
        invariant
            from <= i <= j <= to <= chars.len(),
            trimmed(s) == trim_end(chars@.subrange(i as int, j as int)),
        decreases j,
    {
        proof {
            let rest = chars@.subrange(i as int, j as int);
            assert(rest.drop_last() == chars@.subrange(i as int, j - 1));
        }
        j = j - 1;
    }
    (i, j)
}

/// `s` without white space at either end.
pub fn trim(s: &str) -> (r: String)
    ensures
        r@ == trimmed(s@),
{
    let chars = char_vec(s);
    let n: usize = chars.len();
    let (i, j) = trim_bounds(&chars, 0, n);
    proof {
        assert(chars@.subrange(0, n as int) == s@);
    }
    string_of(&chars, i, j)
}

/// Whether `pat` stands in `chars` at `at`.
pub fn matches_at(chars: &Vec<char>, at: usize, to: usize, pat: &Vec<char>) -> (r: bool)
    requires
        at <= to <= chars.len(),
    ensures
        r == starts_with(chars@.subrange(at as int, to as int), pat@),
{
    let ghost s = chars@.subrange(at as int, to as int);
    if pat.len() > to - at {
        return false;
    }
    let mut k: usize = 0;
    while k < pat.len()
        invariant
            k <= pat.len() <= to - at,
            at <= to <= chars.len(),
            s == chars@.subrange(at as int, to as int),
            forall|m: int| 0 <= m < k ==> s[m] == pat[m],
        decreases pat.len() - k,
    {
        if chars[at + k] != pat[k] {
            proof {
                assert(s.take(pat@.len() as int)[k as int] != pat@[k as int]);
            }
            return false;
        }
        k = k + 1;
    }
    proof {
        assert(s.take(pat@.len() as int) == pat@);
    }
    true
}

/// Whether `s` begins with `pat`.
pub fn has_prefix(s: &str, pat: &str) -> (r: bool)
    ensures
        r == starts_with(s@, pat@),
{
    let chars = char_vec(s);
    let pat = char_vec(pat);
    proof {
        assert(chars@.subrange(0, chars@.len() as int) == s@);
    }
    matches_at(&chars, 0, chars.len(), &pat)
}

/// Whether two strings hold the same characters.
pub fn same(a: &str, b: &str) -> (r: bool)
    ensures
        r == (a@ == b@),
{
    a.to_owned() == b.to_owned()
}

/// The place of the first occurrence of `pat` in `chars[from..to]`, counted from
/// the start of `chars`.
pub fn find_from(chars: &Vec<char>, from: usize, to: usize, pat: &Vec<char>) -> (r: Option<usize>)
    requires
        from <= to <= chars.len(),
    ensures
        match (r, find(chars@.subrange(from as int, to as int), pat@)) {
            (Some(i), Some(k)) => i == from + k && i + pat.len() <= to,
            (None, None) => true,
            _ => false,
        },
{
    let ghost s = chars@.subrange(from as int, to as int);
    let mut i: usize = from;
    loop
        invariant
            from <= i <= to <= chars.len(),
            s == chars@.subrange(from as int, to as int),
            match find(chars@.subrange(i as int, to as int), pat@) {
                Some(k) => find(s, pat@) == Some((k + i - from) as nat),
                None => find(s, pat@) is None,
            },
        decreases to - i,
    {
        if matches_at(chars, i, to, pat) {
            return Some(i);
        }
        if i == to {
            return None;
        }
        proof {
            let rest = chars@.subrange(i as int, to as int);
            assert(rest.skip(1) == chars@.subrange(i + 1, to as int));
        }
        i = i + 1;
    }
}

/// An occurrence that was found lies inside the text.
pub proof fn lemma_find_bounds(s: Seq<char>, pat: Seq<char>)
    ensures
        find(s, pat) matches Some(i) ==> {
            &&& i + pat.len() <= s.len()
            &&& s.subrange(i as int, (i + pat.len()) as int) == pat
        },
    decreases s.len(),
{
    if starts_with(s, pat) {
        assert(s.subrange(0, pat.len() as int) == s.take(pat.len() as int));
    } else if s.len() > 0 {
        lemma_find_bounds(s.skip(1), pat);
        if let Some(i) = find(s.skip(1), pat) {
            assert(s.subrange(i as int + 1, i as int + 1 + pat.len()) == s.skip(1).subrange(
                i as int,
                i as int + pat.len(),
            ));
        }
    }
}

/// Appends `s` with every occurrence of `pat` replaced by `by`.
pub fn replace(s: &str, pat: &str, by: &str) -> (r: String)
    ensures
        r@ == replace_all(s@, pat@, by@),
{
    let chars = char_vec(s);
    let pat_chars = char_vec(pat);
    let n: usize = chars.len();
    let mut out = String::new();
    let mut i: usize = 0;
    proof {
        assert(s@.skip(0) == s@);
        assert(out@ + replace_all(s@, pat@, by@) == replace_all(s@, pat@, by@));
    }
    while i < n
        invariant
            i <= n == chars.len(),
            chars@ == s@,
            pat_chars@ == pat@,
            out@ + replace_all(s@.skip(i as int), pat@, by@) == replace_all(s@, pat@, by@),
        decreases n - i,
    {
        let ghost rest = s@.skip(i as int);
        proof {
            assert(rest == chars@.subrange(i as int, n as int));
        }
        if pat_chars.len() > 0 && matches_at(&chars, i, n, &pat_chars) {
            proof {
                assert(rest.skip(pat@.len() as int) == s@.skip(i + pat@.len()));
                assert(out@ + by@ + replace_all(s@.skip(i + pat@.len()), pat@, by@) == out@ + (by@
                    + replace_all(s@.skip(i + pat@.len()), pat@, by@)));
            }
            out.append(by);
            i = i + pat_chars.len();
        } else {
            proof {
                assert(rest.skip(1) == s@.skip(i + 1));
                assert(out@.push(rest[0]) + replace_all(s@.skip(i + 1), pat@, by@) == out@ + (
                seq![rest[0]] + replace_all(s@.skip(i + 1), pat@, by@)));
            }
            out.push(chars[i]);
            i = i + 1;
        }
    }
    proof {
        assert(s@.skip(n as int) == Seq::<char>::empty());
    }
    out
}

/// Appends `unit` `n` times.
pub fn push_repeated(out: &mut String, unit: &str, n: usize)
    ensures
        final(out)@ == old(out)@ + repeated(unit@, n as nat),
{
    let mut i: usize = 0;
    proof {
        assert(out@ + repeated(unit@, 0) == out@);
    }
    while i < n
        invariant
            i <= n,
            out@ == old(out)@ + repeated(unit@, i as nat),
        decreases n - i,
    {
        out.append(unit);
        i = i + 1;
        proof {
            assert(old(out)@ + repeated(unit@, (i - 1) as nat) + unit@ == old(out)@ + repeated(
                unit@,
                i as nat,
            ));
        }
    }
}

/// The decimal digit `d`.
pub fn digit_char(d: u64) -> (c: char)
    requires
        d < 10,
    ensures
        c == digit(d as nat),
{
    match d {
        0 => '0',
        1 => '1',
        2 => '2',
        3 => '3',
        4 => '4',
        5 => '5',
        6 => '6',
        7 => '7',
        8 => '8',
        _ => '9',
    }
}

/// Appends `n` in decimal.
pub fn push_dec(out: &mut String, n: u64)
    ensures
        final(out)@ == old(out)@ + dec(n as nat),
    decreases n,
{
    if n >= 10 {
        push_dec(out, n / 10);
    }
    out.push(digit_char(n % 10));
}

/// Appends a length in decimal.
pub fn push_usize(out: &mut String, n: usize)
    ensures
        final(out)@ == old(out)@ + dec(n as nat),
{
    push_dec(out, n as u64)
}

/// The numbers of a list with `, ` between neighbours.
pub open spec fn dec_items(list: Seq<usize>) -> Seq<char>
    decreases list.len(),
{
    if list.len() == 0 {
        Seq::empty()
    } else if list.len() == 1 {
        dec(list[0] as nat)
    } else {
        dec_items(list.drop_last()) + ", "@ + dec(list.last() as nat)
    }
}

/// A list of numbers in brackets.
pub open spec fn dec_list(list: Seq<usize>) -> Seq<char> {
    "["@ + dec_items(list) + "]"@
}

/// Three numbers in decimal, in round brackets.
pub open spec fn dec_triple(t: (usize, usize, usize)) -> Seq<char> {
    "("@ + dec(t.0 as nat) + ", "@ + dec(t.1 as nat) + ", "@ + dec(t.2 as nat) + ")"@
}

/// Appends a list of numbers in brackets.
pub fn push_list(out: &mut String, list: &Vec<usize>)
    ensures
        final(out)@ == old(out)@ + dec_list(list@),
{
    let ghost start = out@;
    out.append("[");
    let mut i: usize = 0;
    proof {
        assert(list@.take(0) =~= Seq::<usize>::empty());
        assert(out@ =~= start + ("["@ + dec_items(list@.take(0))));
    }
    while i < list.len()
        invariant
            i <= list.len(),
            out@ == start + ("["@ + dec_items(list@.take(i as int))),
        decreases list.len() - i,
    {
        proof {
            assert(list@.take(i + 1).drop_last() =~= list@.take(i as int));
        }
        if i > 0 {
            out.append(", ");
        }
        push_usize(out, list[i]);
        i = i + 1;
        proof {
            assert(out@ =~= start + ("["@ + dec_items(list@.take(i as int))));
        }
    }
    proof {
        assert(list@.take(i as int) =~= list@);
    }
    out.append("]");
    proof {
        assert(out@ =~= start + dec_list(list@));
    }
}

/// The text that `{:?}` gives for a string.
pub uninterp spec fn debug_quoted(s: Seq<char>) -> Seq<char>;

/// `format!` with `{:?}`: the string in double quotes, its special characters
/// escaped. Only that it depends on the characters alone is claimed.
#[verifier::external_body]
pub(crate) fn quote(s: &str) -> (r: String)
    ensures
        r@ == debug_quoted(s@),
{
    format!("{:?}", s)
}

/// `pat` stands in `s` at place `i`.
pub open spec fn occurs_at(s: Seq<char>, pat: Seq<char>, i: int) -> bool {
    0 <= i && i + pat.len() <= s.len() && s.subrange(i, i + pat.len()) == pat
}

/// A text of white space alone.
pub open spec fn all_white(s: Seq<char>) -> bool {
    forall|i: int| 0 <= i < s.len() ==> is_white_space(#[trigger] s[i])
}

/// A text that neither begins nor ends in white space.
pub open spec fn has_no_margin(s: Seq<char>) -> bool {
    s.len() > 0 ==> !is_white_space(s[0]) && !is_white_space(s.last())
}

/// White space is what Unicode counts as such: 25 characters.
pub proof fn law_white_space_is_that_of_unicode(c: char)
    ensures
        is_white_space(c) <==> seq![
            '\u{9}', '\u{a}', '\u{b}', '\u{c}', '\u{d}', ' ', '\u{85}', '\u{a0}', '\u{1680}',
            '\u{2000}', '\u{2001}', '\u{2002}', '\u{2003}', '\u{2004}', '\u{2005}', '\u{2006}',
            '\u{2007}', '\u{2008}', '\u{2009}', '\u{200a}', '\u{2028}', '\u{2029}', '\u{202f}',
            '\u{205f}', '\u{3000}',
        ].contains(c),
{
    let all = seq![
        '\u{9}', '\u{a}', '\u{b}', '\u{c}', '\u{d}', ' ', '\u{85}', '\u{a0}', '\u{1680}',
        '\u{2000}', '\u{2001}', '\u{2002}', '\u{2003}', '\u{2004}', '\u{2005}', '\u{2006}',
        '\u{2007}', '\u{2008}', '\u{2009}', '\u{200a}', '\u{2028}', '\u{2029}', '\u{202f}',
        '\u{205f}', '\u{3000}',
    ];
    if is_white_space(c) {
        let u = c as u32 as int;
        let i: int = if u <= 13 {
            u - 9
        } else if u == 0x20 {
            5
        } else if u == 0x85 {
            6
        } else if u == 0xa0 {
            7
        } else if u == 0x1680 {
            8
        } else if u <= 0x200a {
            u - 0x2000 + 9
        } else if u == 0x2028 {
            20
        } else if u == 0x2029 {
            21
        } else if u == 0x202f {
            22
        } else if u == 0x205f {
            23
        } else {
            24
        };
        assert(all[i] as u32 == c as u32);
        assert(all[i] == c);
    }
    if all.contains(c) {
        let i = choose|i: int| 0 <= i < all.len() && all[i] == c;
        assert(is_white_space(all[i]));
    }
}

/// Leading white space is cut up to the first other character.
proof fn lemma_trim_start(before: Seq<char>, rest: Seq<char>)
    requires
        all_white(before),
        rest.len() > 0 ==> !is_white_space(rest[0]),
    ensures
        trim_start(before + rest) == rest,
    decreases before.len(),
{
    if before.len() > 0 {
        assert((before + rest)[0] == before[0]);
        assert((before + rest).skip(1) =~= before.skip(1) + rest);
        assert(all_white(before.skip(1))) by {
            assert forall|i: int| 0 <= i < before.len() - 1 implies is_white_space(
                #[trigger] before.skip(1)[i],
            ) by {
                assert(before.skip(1)[i] == before[i + 1]);
            }
        }
        lemma_trim_start(before.skip(1), rest);
    } else {
        assert(before + rest =~= rest);
    }
}

/// Trailing white space is cut down to the last other character.
proof fn lemma_trim_end(rest: Seq<char>, after: Seq<char>)
    requires
        all_white(after),
        rest.len() > 0 ==> !is_white_space(rest.last()),
    ensures
        trim_end(rest + after) == rest,
    decreases after.len(),
{
    if after.len() > 0 {
        assert((rest + after).last() == after.last());
        assert((rest + after).drop_last() =~= rest + after.drop_last());
        lemma_trim_end(rest, after.drop_last());
    } else {
        assert(rest + after =~= rest);
    }
}

/// Trimming removes the white space around a text, and nothing else.
pub proof fn law_trimming_removes_the_margin(before: Seq<char>, s: Seq<char>, after: Seq<char>)
    requires
        all_white(before),
        all_white(after),
        has_no_margin(s),
    ensures
        trimmed(before + s + after) == s,
{
    if s.len() > 0 {
        assert(before + s + after =~= before + (s + after));
        lemma_trim_start(before, s + after);
        lemma_trim_end(s, after);
    } else {
        let none = Seq::<char>::empty();
        let white = before + after;
        assert(before + s + after =~= white + none);
        assert(all_white(white));
        lemma_trim_start(white, none);
        assert(s =~= none);
    }
}

/// Every text is some white space, a text without margin, and some white space: what
/// trimming leaves has no margin and stands in the text between white space.
pub proof fn law_trimmed_text_stands_between_white_space(s: Seq<char>) -> (r: (Seq<char>, Seq<char>))
    ensures
        has_no_margin(trimmed(s)),
        all_white(r.0),
        all_white(r.1),
        s == r.0 + trimmed(s) + r.1,
    decreases s.len(),
{
    if s.len() > 0 && is_white_space(s[0]) {
        let (a, b) = law_trimmed_text_stands_between_white_space(s.skip(1));
        let before = seq![s[0]] + a;
        assert(s =~= seq![s[0]] + s.skip(1));
        assert(s =~= before + trimmed(s) + b);
        (before, b)
    } else if s.len() > 0 && is_white_space(s.last()) {
        let front = s.drop_last();
        if front.len() > 0 {
            assert(front[0] == s[0]);
        }
        let (a, b) = law_trimmed_text_stands_between_white_space(front);
        assert(trimmed(s) == trimmed(front));
        let after = b.push(s.last());
        assert(s =~= front.push(s.last()));
        assert(s =~= a + trimmed(s) + after);
        (a, after)
    } else {
        let none = Seq::<char>::empty();
        assert(s =~= none + s + none);
        (none, none)
    }
}

/// Beginning and ending with a text is holding it at the first and at the last place.
pub proof fn law_ends_are_occurrences(s: Seq<char>, pat: Seq<char>)
    ensures
        starts_with(s, pat) <==> occurs_at(s, pat, 0),
        ends_with(s, pat) <==> occurs_at(s, pat, s.len() - pat.len()),
        forall|rest: Seq<char>| #[trigger] starts_with(pat + rest, pat),
        forall|front: Seq<char>| #[trigger] ends_with(front + pat, pat),
{
    if pat.len() <= s.len() {
        assert(s.take(pat.len() as int) =~= s.subrange(0, pat.len() as int));
        assert(s.skip(s.len() - pat.len()) =~= s.subrange(s.len() - pat.len(), s.len() as int));
    }
    assert forall|rest: Seq<char>| #[trigger] starts_with(pat + rest, pat) by {
        assert((pat + rest).take(pat.len() as int) =~= pat);
    }
    assert forall|front: Seq<char>| #[trigger] ends_with(front + pat, pat) by {
        let whole = front + pat;
        assert(whole.skip(whole.len() - pat.len()) =~= pat);
    }
}

/// Cutting off a beginning or an ending gives back what it was put before or behind.
pub proof fn law_cut_ends_leave_the_rest(s: Seq<char>, pat: Seq<char>)
    ensures
        without_prefix(pat + s, pat) == s,
        without_suffix(s + pat, pat) == s,
        !occurs_at(s, pat, 0) ==> without_prefix(s, pat) == s,
        !occurs_at(s, pat, s.len() - pat.len()) ==> without_suffix(s, pat) == s,
{
    law_ends_are_occurrences(s, pat);
    assert((pat + s).take(pat.len() as int) =~= pat);
    assert((pat + s).skip(pat.len() as int) =~= s);
    assert((s + pat).skip(s.len() as int) =~= pat);
    assert((s + pat).take(s.len() as int) =~= s);
}

/// An occurrence one place further on.
proof fn lemma_occurs_shifted(s: Seq<char>, pat: Seq<char>, i: int)
    requires
        s.len() > 0,
        i >= 0,
    ensures
        occurs_at(s.skip(1), pat, i) == occurs_at(s, pat, i + 1),
{
    if i + 1 + pat.len() <= s.len() {
        assert(s.skip(1).subrange(i, i + pat.len()) =~= s.subrange(i + 1, i + 1 + pat.len()));
    }
}

/// What is found is the first occurrence.
pub proof fn law_found_is_the_first_occurrence(s: Seq<char>, pat: Seq<char>)
    ensures
        match find(s, pat) {
            Some(i) => occurs_at(s, pat, i as int) && forall|j: int|
                0 <= j < i ==> !#[trigger] occurs_at(s, pat, j),
            None => forall|j: int| !#[trigger] occurs_at(s, pat, j),
        },
    decreases s.len(),
{
    law_ends_are_occurrences(s, pat);
    if !starts_with(s, pat) {
        if s.len() == 0 {
            assert forall|j: int| !#[trigger] occurs_at(s, pat, j) by {}
        } else {
            law_found_is_the_first_occurrence(s.skip(1), pat);
            assert forall|j: int| j >= 1 implies #[trigger] occurs_at(s, pat, j) == occurs_at(
                s.skip(1),
                pat,
                j - 1,
            ) by {
                lemma_occurs_shifted(s, pat, j - 1);
            }
            match find(s.skip(1), pat) {
                Some(i) => {
                    assert(occurs_at(s, pat, i as int + 1));
                    assert forall|j: int| 0 <= j < i + 1 implies !#[trigger] occurs_at(
                        s,
                        pat,
                        j,
                    ) by {
                        if j >= 1 {
                            assert(!occurs_at(s.skip(1), pat, j - 1));
                        }
                    }
                },
                None => {
                    assert forall|j: int| !#[trigger] occurs_at(s, pat, j) by {
                        if j >= 1 {
                            assert(!occurs_at(s.skip(1), pat, j - 1));
                        }
                    }
                },
            }
        }
    }
}

/// Joining puts the separator between neighbours and nowhere else.
pub proof fn law_joining_appends(parts: Seq<Seq<char>>, last: Seq<char>, sep: Seq<char>)
    ensures
        join(Seq::empty(), sep) == Seq::<char>::empty(),
        join(seq![last], sep) == last,
        parts.len() > 0 ==> join(parts.push(last), sep) == join(parts, sep) + sep + last,
{
    assert(parts.push(last).drop_last() =~= parts);
}

/// Joining from the front.
pub proof fn law_joining_prepends(head: Seq<char>, parts: Seq<Seq<char>>, sep: Seq<char>)
    requires
        parts.len() > 0,
    ensures
        join(seq![head] + parts, sep) == head + sep + join(parts, sep),
    decreases parts.len(),
{
    let all = seq![head] + parts;
    let front = parts.drop_last();
    assert(all.last() == parts.last());
    if parts.len() == 1 {
        assert(all.drop_last() =~= seq![head]);
        assert(join(seq![head], sep) == head);
        assert(join(parts, sep) == parts[0]);
    } else {
        assert(all.drop_last() =~= seq![head] + front);
        law_joining_prepends(head, front, sep);
        assert((head + sep + join(front, sep)) + sep + parts.last() =~= head + sep + (join(
            front,
            sep,
        ) + sep + parts.last()));
    }
}

/// Cutting a text at a separator and joining the parts gives the text back. No part
/// holds the separator, and each is cut off at its first occurrence.
pub proof fn law_split_parts_make_up_the_text(s: Seq<char>, sep: Seq<char>)
    requires
        sep.len() > 0,
    ensures
        ({
            let parts = split(s, sep);
            &&& parts.len() > 0
            &&& join(parts, sep) == s
            &&& forall|k: int, j: int|
                0 <= k < parts.len() ==> !#[trigger] occurs_at(parts[k], sep, j)
            &&& forall|k: int, j: int|
                0 <= k < parts.len() - 1 && j < parts[k].len() ==> !#[trigger] occurs_at(
                    parts[k] + sep,
                    sep,
                    j,
                )
        }),
    decreases s.len(),
{
    let parts = split(s, sep);
    law_found_is_the_first_occurrence(s, sep);
    match find(s, sep) {
        Some(i) => {
            let i = i as int;
            let head = s.take(i);
            let rest = s.skip(i + sep.len());
            let more = split(rest, sep);
            assert(parts == seq![head] + more);
            law_split_parts_make_up_the_text(rest, sep);
            law_joining_prepends(head, more, sep);
            assert(head + sep + rest =~= s);
            assert forall|k: int, j: int| 0 <= k < parts.len() implies !#[trigger] occurs_at(
                parts[k],
                sep,
                j,
            ) by {
                if k == 0 {
                    if occurs_at(head, sep, j) {
                        assert(head.subrange(j, j + sep.len()) =~= s.subrange(j, j + sep.len()));
                        assert(occurs_at(s, sep, j));
                    }
                } else {
                    assert(parts[k] == more[k - 1]);
                    assert(!occurs_at(more[k - 1], sep, j));
                }
            }
            assert forall|k: int, j: int|
                0 <= k < parts.len() - 1 && j < parts[k].len() implies !#[trigger] occurs_at(
                parts[k] + sep,
                sep,
                j,
            ) by {
                if k == 0 {
                    if occurs_at(head + sep, sep, j) {
                        assert((head + sep).subrange(j, j + sep.len()) =~= s.subrange(
                            j,
                            j + sep.len(),
                        ));
                        assert(occurs_at(s, sep, j));
                    }
                } else {
                    assert(parts[k] == more[k - 1]);
                    assert(!occurs_at(more[k - 1] + sep, sep, j));
                }
            }
        },
        None => {
            assert(parts =~= seq![s]);
            assert forall|k: int, j: int| 0 <= k < parts.len() implies !#[trigger] occurs_at(
                parts[k],
                sep,
                j,
            ) by {
                assert(!occurs_at(s, sep, j));
            }
        },
    }
}

/// What stands before a first occurrence is kept, the occurrence is replaced, and the
/// rest is treated in the same way.
pub proof fn law_replacing_goes_from_the_left(
    before: Seq<char>,
    pat: Seq<char>,
    after: Seq<char>,
    by: Seq<char>,
)
    requires
        pat.len() > 0,
        forall|j: int| 0 <= j < before.len() ==> !#[trigger] occurs_at(before + pat + after, pat, j),
    ensures
        replace_all(before + pat + after, pat, by) == before + by + replace_all(after, pat, by),
    decreases before.len(),
{
    let s = before + pat + after;
    law_ends_are_occurrences(s, pat);
    if before.len() == 0 {
        assert(s =~= pat + after);
        assert(s.skip(pat.len() as int) =~= after);
        assert(starts_with(pat + after, pat));
        assert(before + by + replace_all(after, pat, by) =~= by + replace_all(after, pat, by));
    } else {
        assert(!occurs_at(s, pat, 0));
        let rest = before.skip(1);
        assert(s.skip(1) =~= rest + pat + after);
        assert forall|j: int| 0 <= j < rest.len() implies !#[trigger] occurs_at(
            rest + pat + after,
            pat,
            j,
        ) by {
            lemma_occurs_shifted(s, pat, j);
            assert(!occurs_at(s, pat, j + 1));
        }
        law_replacing_goes_from_the_left(rest, pat, after, by);
        assert(seq![s[0]] + (rest + by + replace_all(after, pat, by)) =~= before + by
            + replace_all(after, pat, by));
    }
}

/// A text without the pattern stays as it is.
pub proof fn law_nothing_to_replace(s: Seq<char>, pat: Seq<char>, by: Seq<char>)
    requires
        forall|j: int| !#[trigger] occurs_at(s, pat, j),
    ensures
        replace_all(s, pat, by) == s,
    decreases s.len(),
{
    law_ends_are_occurrences(s, pat);
    if s.len() > 0 {
        assert(!occurs_at(s, pat, 0));
        assert forall|j: int| !#[trigger] occurs_at(s.skip(1), pat, j) by {
            if j >= 0 {
                lemma_occurs_shifted(s, pat, j);
                assert(!occurs_at(s, pat, j + 1));
            }
        }
        law_nothing_to_replace(s.skip(1), pat, by);
        assert(seq![s[0]] + s.skip(1) =~= s);
    }
}

/// A text that is written `n` times is `n` times as long and comes again every time.
pub proof fn law_repeated_text_comes_again(unit: Seq<char>, n: nat)
    ensures
        repeated(unit, n).len() == n * unit.len(),
        forall|k: int, i: int|
            #![trigger repeated(unit, n)[k * unit.len() + i]]
            0 <= k < n && 0 <= i < unit.len() ==> repeated(unit, n)[k * unit.len() + i] == unit[i],
    decreases n,
{
    let m = unit.len() as int;
    if n == 0 {
        assert(0 * m == 0) by (nonlinear_arith);
    } else {
        let before = repeated(unit, (n - 1) as nat);
        law_repeated_text_comes_again(unit, (n - 1) as nat);
        assert((n - 1) * m + m == n * m) by (nonlinear_arith);
        assert forall|k: int, i: int|
            #![trigger repeated(unit, n)[k * unit.len() + i]]
            0 <= k < n && 0 <= i < unit.len() implies repeated(unit, n)[k * unit.len() + i]
            == unit[i] by {
            if k < n - 1 {
                assert(k * m + m <= (n - 1) * m) by (nonlinear_arith)
                    requires
                        k + 1 <= n - 1,
                        m >= 0,
                ;
                assert(k * m >= 0) by (nonlinear_arith)
                    requires
                        k >= 0,
                        m >= 0,
                ;
                assert(before[k * unit.len() + i] == unit[i]);
            } else {
                assert(k == n - 1);
            }
        }
    }
}

/// The number that a text of decimal digits stands for.
pub open spec fn number_of(s: Seq<char>) -> int
    decreases s.len(),
{
    if s.len() == 0 {
        0
    } else {
        10 * number_of(s.drop_last()) + (s.last() as u32 - '0' as u32)
    }
}

/// A number in decimal is made of digits, begins with no zero unless it is zero, and
/// reads back as that number.
pub proof fn law_decimal_reads_back(n: nat)
    ensures
        dec(n).len() > 0,
        forall|i: int| 0 <= i < dec(n).len() ==> '0' <= #[trigger] dec(n)[i] <= '9',
        dec(n)[0] == '0' ==> n == 0 && dec(n).len() == 1,
        number_of(dec(n)) == n,
    decreases n,
{
    if n < 10 {
        assert(dec(n).drop_last() =~= Seq::<char>::empty());
        assert(number_of(Seq::empty()) == 0);
        assert(digit(n) as u32 == '0' as u32 + n);
    } else {
        law_decimal_reads_back(n / 10);
        assert(dec(n).drop_last() =~= dec(n / 10));
        assert(digit(n % 10) as u32 == '0' as u32 + n % 10);
    }
}

/// Numbers of a list are written in their order, with a comma and a blank between
/// neighbours, in square brackets; three numbers in round ones.
pub proof fn law_lists_are_written_with_commas(list: Seq<usize>, n: usize, a: usize, b: usize, c: usize)
    ensures
        dec_list(Seq::empty()) == "[]"@,
        dec_list(seq![n]) == "["@ + dec(n as nat) + "]"@,
        list.len() > 0 ==> dec_items(list.push(n)) == dec_items(list) + ", "@ + dec(n as nat),
        dec_list(list) == "["@ + dec_items(list) + "]"@,
        dec_triple((a, b, c)) == "("@ + dec_items(seq![a, b, c]) + ")"@,
{
    reveal_strlit("[]");
    reveal_strlit("[");
    reveal_strlit("]");
    let none: Seq<usize> = Seq::empty();
    assert(dec_items(none) =~= Seq::<char>::empty());
    assert(dec_list(none) =~= "[]"@);
    assert(dec_items(seq![n]) == dec(n as nat));
    assert(list.push(n).drop_last() =~= list);
    let two = seq![a, b];
    assert(seq![a, b, c].drop_last() =~= two);
    assert(two.drop_last() =~= seq![a]);
    assert(dec_items(seq![a]) == dec(a as nat));
    assert(dec_items(two) == dec(a as nat) + ", "@ + dec(b as nat));
    assert(dec_items(seq![a, b, c]) == dec_items(two) + ", "@ + dec(c as nat));
    assert(dec_triple((a, b, c)) =~= "("@ + dec_items(seq![a, b, c]) + ")"@);
}

} // verus!
