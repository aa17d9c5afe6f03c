//! Tasks and what is made of their answers.
use crate::recognition::{BackendCapabilities, RecognitionTask};
use crate::text;
use vstd::prelude::*;

verus! {

/// What is asked of an image.
#[derive(Debug, Clone, Copy, PartialEq, Eq, Structural)]
pub enum NaviDcTask {
    /// The text of an image.
    Text,
    /// A table in OTSL.
    Table,
    /// A formula as LaTeX.
    Formula,
    /// A code snippet.
    Code,
    /// The layout of a page.
    Layout,
    /// The layout of a distorted page, outlined by many points.
    LayoutDistorted,
    /// The table behind a figure, in OTSL.
    ScientificFigure,
}

impl NaviDcTask {
    /// The instruction for a task.
    pub open spec fn spec_prompt(self) -> Seq<char> {
        match self {
            NaviDcTask::Text => "Please output the text content from the image."@,
            NaviDcTask::Table => "This is the image of a table. Please output the table in OTSL format."@,
            NaviDcTask::Formula => "Please write out the expression of the formula in the image using LaTeX format."@,
            NaviDcTask::Code => "The image contains a code snippet, please output the parsing result."@,
            NaviDcTask::Layout => "Analyze the image layout."@,
            NaviDcTask::LayoutDistorted => "\nMulti-point Layout Segmentation Analysis."@,
            NaviDcTask::ScientificFigure => "This is a scientific figure. Please extract the table implied by this figure."@,
        }
    }

    /// The instruction for a task.
    pub fn prompt(self) -> (s: &'static str)
        ensures
            s@ == self.spec_prompt(),
    {
        match self {
            NaviDcTask::Text => "Please output the text content from the image.",
            NaviDcTask::Table => "This is the image of a table. Please output the table in OTSL format.",
            NaviDcTask::Formula => "Please write out the expression of the formula in the image using LaTeX format.",
            NaviDcTask::Code => "The image contains a code snippet, please output the parsing result.",
            NaviDcTask::Layout => "Analyze the image layout.",
            NaviDcTask::LayoutDistorted => "\nMulti-point Layout Segmentation Analysis.",
            NaviDcTask::ScientificFigure => "This is a scientific figure. Please extract the table implied by this figure.",
        }
    }

    /// The side of the square that a page is resized to, where a task wants one.
    pub fn resize_square(self) -> (side: Option<u32>)
        ensures
            side == if self == NaviDcTask::Layout || self == NaviDcTask::LayoutDistorted {
                Some(1036u32)
            } else {
                None
            },
    {
        match self {
            NaviDcTask::Layout => Some(1036),
            NaviDcTask::LayoutDistorted => Some(1036),
            _ => None,
        }
    }

    /// Whether the answer is OTSL.
    pub fn outputs_otsl(self) -> (r: bool)
        ensures
            r == (self == NaviDcTask::Table || self == NaviDcTask::ScientificFigure),
    {
        self == NaviDcTask::Table || self == NaviDcTask::ScientificFigure
    }

    /// What is made of an answer: a formula is put between dollar signs, other text
    /// is trimmed.
    pub fn postprocess(self, text: &str) -> (r: String)
        ensures
            r@ == if self == NaviDcTask::Formula {
                formula(text@)
            } else {
                text::trimmed(text@)
            },
    {
        match self {
            NaviDcTask::Formula => postprocess_formula(text),
            _ => text::trim(text),
        }
    }
}

/// A formula without the brackets of a display and without white space around it.
pub open spec fn unwrapped(s: Seq<char>) -> Seq<char> {
    text::trimmed(
        text::without_suffix(text::without_prefix(text::trimmed(s), "\\["@), "\\]"@),
    )
}

/// A formula between dollar signs; one that has them keeps its own.
pub open spec fn formula(s: Seq<char>) -> Seq<char> {
    let u = unwrapped(s);
    if u.len() > 0 && u[0] == '$' && u.last() == '$' {
        u
    } else {
        "$$"@ + u + "$$"@
    }
}

/// Puts a formula between dollar signs.
pub fn postprocess_formula(text: &str) -> (r: String)
    ensures
        r@ == formula(text@),
{
    let chars = text::char_vec(text);
    let n: usize = chars.len();
    let (mut a, mut b): (usize, usize) = text::trim_bounds(&chars, 0, n);
    let ghost trimmed = chars@.subrange(a as int, b as int);
    proof {
        assert(chars@.subrange(0, n as int) =~= text@);
        reveal_strlit("\\[");
        reveal_strlit("\\]");
        assert(text::starts_with(trimmed, "\\["@) == (trimmed.len() >= 2 && trimmed[0] == '\\'
            && trimmed[1] == '[')) by {
            if trimmed.len() >= 2 {
                assert(trimmed.take(2)[0] == trimmed[0] && trimmed.take(2)[1] == trimmed[1]);
                if trimmed[0] == '\\' && trimmed[1] == '[' {
                    assert(trimmed.take(2) =~= "\\["@);
                }
            }
        }
    }
    if b - a >= 2 && chars[a] == '\\' && chars[a + 1] == '[' {
        a = a + 2;
    }
    let ghost opened = chars@.subrange(a as int, b as int);
    proof {
        assert(opened =~= text::without_prefix(trimmed, "\\["@));
        let m = opened.len() as int;
        assert(text::ends_with(opened, "\\]"@) == (m >= 2 && opened[m - 2] == '\\' && opened[m
            - 1] == ']')) by {
            if m >= 2 {
                assert(opened.skip(m - 2)[0] == opened[m - 2] && opened.skip(m - 2)[1]
                    == opened[m - 1]);
                if opened[m - 2] == '\\' && opened[m - 1] == ']' {
                    assert(opened.skip(m - 2) =~= "\\]"@);
                }
            }
        }
    }
    if b - a >= 2 && chars[b - 2] == '\\' && chars[b - 1] == ']' {
        b = b - 2;
    }
    proof {
        assert(chars@.subrange(a as int, b as int) =~= text::without_suffix(opened, "\\]"@));
    }
    let (c, d): (usize, usize) = text::trim_bounds(&chars, a, b);
    let ghost u = chars@.subrange(c as int, d as int);
    if c < d && chars[c] == '$' && chars[d - 1] == '$' {
        proof {
            assert(u[0] == '$' && u.last() == '$');
        }
        return text::string_of(&chars, c, d);
    }
    let mut out = "$$".to_owned();
    text::push_range(&mut out, &chars, c, d);
    out.append("$$");
    out
}

/// White space is not cut from a text that neither begins nor ends in it.
proof fn lemma_trimmed_same(s: Seq<char>)
    requires
        s.len() > 0,
        !text::is_white_space(s[0]),
        !text::is_white_space(s.last()),
    ensures
        text::trimmed(s) == s,
{
}

/// A formula stands between dollar signs, whatever it was.
pub proof fn law_formula_is_between_dollars(s: Seq<char>)
    ensures
        formula(s).len() > 0,
        formula(s)[0] == '$',
        formula(s).last() == '$',
{
    reveal_strlit("$$");
}

/// A formula that has been finished stays as it is.
pub proof fn law_finished_formula_is_settled(s: Seq<char>)
    ensures
        formula(formula(s)) == formula(s),
{
    reveal_strlit("\\[");
    reveal_strlit("\\]");
    let f = formula(s);
    law_formula_is_between_dollars(s);
    lemma_trimmed_same(f);
    assert(!text::starts_with(f, "\\["@)) by {
        if f.len() >= 2 {
            assert(f.take(2)[0] == f[0]);
        }
    }
    assert(!text::ends_with(f, "\\]"@)) by {
        if f.len() >= 2 {
            assert(f.skip(f.len() - 2)[1] == f.last());
        }
    }
}

/// A formula without white space at its ends and without the brackets of a display.
pub open spec fn is_bare(u: Seq<char>) -> bool {
    &&& text::has_no_margin(u)
    &&& !text::occurs_at(u, "\\["@, 0)
    &&& !text::occurs_at(u, "\\]"@, u.len() - 2)
}

/// A formula that has its dollar signs.
pub open spec fn has_dollars(u: Seq<char>) -> bool {
    u.len() > 0 && u[0] == '$' && u.last() == '$'
}

/// A formula with white space around it.
proof fn lemma_unwrapped_bare(u: Seq<char>, before: Seq<char>, after: Seq<char>)
    requires
        is_bare(u),
        text::all_white(before),
        text::all_white(after),
    ensures
        unwrapped(before + u + after) == u,
{
    let none = Seq::<char>::empty();
    reveal_strlit("\\[");
    reveal_strlit("\\]");
    text::law_trimming_removes_the_margin(before, u, after);
    text::law_cut_ends_leave_the_rest(u, "\\["@);
    text::law_cut_ends_leave_the_rest(u, "\\]"@);
    text::law_trimming_removes_the_margin(none, u, none);
    assert(none + u + none =~= u);
}

/// A formula between both brackets.
proof fn lemma_unwrapped_both(u: Seq<char>, before: Seq<char>, after: Seq<char>, a: Seq<char>, b: Seq<char>)
    requires
        is_bare(u),
        text::all_white(before),
        text::all_white(after),
        text::all_white(a),
        text::all_white(b),
    ensures
        unwrapped(before + ("\\["@ + a + u + b + "\\]"@) + after) == u,
{
    let open = "\\["@;
    let shut = "\\]"@;
    let inside = a + u + b;
    let both = open + a + u + b + shut;
    assert(both.len() > 0 && both[0] == '\\' && both.last() == ']') by {
        reveal_strlit("\\[");
        reveal_strlit("\\]");
        assert(both[0] == open[0]);
        assert(both.last() == shut[1]);
    }
    text::law_trimming_removes_the_margin(before, both, after);
    assert(both =~= open + (inside + shut));
    text::law_cut_ends_leave_the_rest(inside + shut, open);
    text::law_cut_ends_leave_the_rest(inside, shut);
    text::law_trimming_removes_the_margin(a, u, b);
}

/// A formula behind the opening bracket alone.
proof fn lemma_unwrapped_opened(u: Seq<char>, before: Seq<char>, after: Seq<char>, a: Seq<char>)
    requires
        is_bare(u),
        u.len() > 0,
        text::all_white(before),
        text::all_white(after),
        text::all_white(a),
    ensures
        unwrapped(before + ("\\["@ + a + u) + after) == u,
{
    let open = "\\["@;
    let shut = "\\]"@;
    let none = Seq::<char>::empty();
    let rest = a + u;
    let opened = open + a + u;
    assert(opened[0] == '\\' && opened.last() == u.last()) by {
        reveal_strlit("\\[");
        assert(opened[0] == open[0]);
    }
    text::law_trimming_removes_the_margin(before, opened, after);
    assert(opened =~= open + rest);
    text::law_cut_ends_leave_the_rest(rest, open);
    assert(!text::occurs_at(rest, shut, rest.len() - shut.len())) by {
        reveal_strlit("\\]");
        if text::occurs_at(rest, shut, rest.len() - 2) {
            let found = rest.subrange(rest.len() - 2, rest.len() as int);
            assert(found == shut);
            assert(found[0] == rest[rest.len() - 2]);
            if u.len() >= 2 {
                assert(u.subrange(u.len() - 2, u.len() as int) =~= found);
                assert(text::occurs_at(u, shut, u.len() - 2));
            } else {
                assert(rest[rest.len() - 2] == a[a.len() - 1]);
                assert(text::is_white_space(a[a.len() - 1]));
                assert(shut[0] == '\\');
            }
        }
    }
    text::law_cut_ends_leave_the_rest(rest, shut);
    text::law_trimming_removes_the_margin(a, u, none);
    assert(a + u + none =~= rest);
}

/// A formula before the closing bracket alone.
proof fn lemma_unwrapped_closed(u: Seq<char>, before: Seq<char>, after: Seq<char>, b: Seq<char>)
    requires
        is_bare(u),
        u.len() > 0,
        text::all_white(before),
        text::all_white(after),
        text::all_white(b),
    ensures
        unwrapped(before + (u + b + "\\]"@) + after) == u,
{
    let open = "\\["@;
    let shut = "\\]"@;
    let none = Seq::<char>::empty();
    let front = u + b;
    let closed = u + b + shut;
    assert(closed[0] == u[0] && closed.last() == ']') by {
        reveal_strlit("\\]");
        assert(closed.last() == shut[1]);
    }
    text::law_trimming_removes_the_margin(before, closed, after);
    assert(closed =~= front + shut);
    assert(!text::occurs_at(closed, open, 0)) by {
        reveal_strlit("\\[");
        reveal_strlit("\\]");
        if text::occurs_at(closed, open, 0) {
            let found = closed.subrange(0, 2);
            assert(found == open);
            assert(found[1] == closed[1]);
            assert(open[1] == '[');
            if u.len() >= 2 {
                assert(u.subrange(0, 2) =~= found);
                assert(text::occurs_at(u, open, 0));
            } else if b.len() > 0 {
                assert(closed[1] == b[0]);
                assert(text::is_white_space(b[0]));
            } else {
                assert(closed[1] == shut[0]);
                assert(shut[0] == '\\');
            }
        }
    }
    text::law_cut_ends_leave_the_rest(closed, open);
    text::law_cut_ends_leave_the_rest(front, shut);
    text::law_trimming_removes_the_margin(none, u, b);
    assert(none + u + b =~= front);
}

/// What is unwrapped is the formula itself, whatever stands around it: white space, the
/// brackets of a display on either side, and white space inside of these.
pub proof fn law_unwrapping_loses_nothing(
    u: Seq<char>,
    before: Seq<char>,
    after: Seq<char>,
    inner_before: Seq<char>,
    inner_after: Seq<char>,
)
    requires
        is_bare(u),
        text::all_white(before),
        text::all_white(after),
        text::all_white(inner_before),
        text::all_white(inner_after),
    ensures
        unwrapped(before + u + after) == u,
        unwrapped(before + ("\\["@ + inner_before + u + inner_after + "\\]"@) + after) == u,
        u.len() > 0 ==> unwrapped(before + ("\\["@ + inner_before + u) + after) == u,
        u.len() > 0 ==> unwrapped(before + (u + inner_after + "\\]"@) + after) == u,
{
    lemma_unwrapped_bare(u, before, after);
    lemma_unwrapped_both(u, before, after, inner_before, inner_after);
    if u.len() > 0 {
        lemma_unwrapped_opened(u, before, after, inner_before);
        lemma_unwrapped_closed(u, before, after, inner_after);
    }
}

/// A formula is put between dollar signs as a whole: nothing of it is lost, whatever
/// white space and display brackets stand around it.
pub proof fn law_formula_is_kept_whole(
    u: Seq<char>,
    before: Seq<char>,
    after: Seq<char>,
    inner_before: Seq<char>,
    inner_after: Seq<char>,
)
    requires
        is_bare(u),
        !has_dollars(u),
        text::all_white(before),
        text::all_white(after),
        text::all_white(inner_before),
        text::all_white(inner_after),
    ensures
        formula(before + u + after) == "$$"@ + u + "$$"@,
        formula(before + ("\\["@ + inner_before + u + inner_after + "\\]"@) + after) == "$$"@ + u
            + "$$"@,
        u.len() > 0 ==> formula(before + ("\\["@ + inner_before + u) + after) == "$$"@ + u + "$$"@,
        u.len() > 0 ==> formula(before + (u + inner_after + "\\]"@) + after) == "$$"@ + u + "$$"@,
{
    law_unwrapping_loses_nothing(u, before, after, inner_before, inner_after);
}

/// A formula that has its dollar signs keeps them and gets no more; only what stands
/// around it goes.
pub proof fn law_formula_keeps_its_dollars(
    u: Seq<char>,
    before: Seq<char>,
    after: Seq<char>,
    inner_before: Seq<char>,
    inner_after: Seq<char>,
)
    requires
        has_dollars(u),
        text::all_white(before),
        text::all_white(after),
        text::all_white(inner_before),
        text::all_white(inner_after),
    ensures
        formula(before + u + after) == u,
        formula(before + ("\\["@ + inner_before + u + inner_after + "\\]"@) + after) == u,
{
    reveal_strlit("\\[");
    reveal_strlit("\\]");
    assert(is_bare(u)) by {
        if text::occurs_at(u, "\\["@, 0) {
            assert(u.subrange(0, 2)[0] == u[0]);
        }
        if text::occurs_at(u, "\\]"@, u.len() - 2) {
            assert(u.subrange(u.len() - 2, u.len() as int)[1] == u.last());
        }
    }
    law_unwrapping_loses_nothing(u, before, after, inner_before, inner_after);
}

/// The instruction for a recognition task.
pub fn prompt(task: RecognitionTask) -> (s: &'static str)
    ensures
        s@ == match task {
            RecognitionTask::Ocr => NaviDcTask::Text.spec_prompt(),
            RecognitionTask::Chart => NaviDcTask::Text.spec_prompt(),
            RecognitionTask::Table => NaviDcTask::Table.spec_prompt(),
            RecognitionTask::Formula => NaviDcTask::Formula.spec_prompt(),
        },
{
    match task {
        RecognitionTask::Ocr => NaviDcTask::Text.prompt(),
        RecognitionTask::Chart => NaviDcTask::Text.prompt(),
        RecognitionTask::Table => NaviDcTask::Table.prompt(),
        RecognitionTask::Formula => NaviDcTask::Formula.prompt(),
    }
}

/// What is made of a region's answer once its repetitions have been cut.
pub fn postprocess(task: RecognitionTask, raw: &str) -> (r: String)
    ensures
        r@ == if task == RecognitionTask::Formula {
            formula(raw@)
        } else {
            text::trimmed(raw@)
        },
{
    match task {
        RecognitionTask::Formula => postprocess_formula(raw),
        _ => text::trim(raw),
    }
}

/// What callers have to know of the answers, where nothing else is `usual`.
pub fn capabilities(usual: BackendCapabilities) -> (c: BackendCapabilities)
    ensures
        c == (BackendCapabilities {
            table_output_is_otsl: true,
            ..usual
        }),
{
    BackendCapabilities { table_output_is_otsl: true, ..usual }
}

impl NaviDcTask {
    /// Each task has its instruction.
    pub proof fn law_task_has_its_instruction(self)
        ensures
            self is Text ==> self.spec_prompt() == "Please output the text content from the image."@,
            self is Table ==> self.spec_prompt()
                == "This is the image of a table. Please output the table in OTSL format."@,
            self is Formula ==> self.spec_prompt()
                == "Please write out the expression of the formula in the image using LaTeX format."@,
            self is Code ==> self.spec_prompt()
                == "The image contains a code snippet, please output the parsing result."@,
            self is Layout ==> self.spec_prompt() == "Analyze the image layout."@,
            self is LayoutDistorted ==> self.spec_prompt()
                == "\nMulti-point Layout Segmentation Analysis."@,
            self is ScientificFigure ==> self.spec_prompt()
                == "This is a scientific figure. Please extract the table implied by this figure."@,
    {
    }
}

} // verus!
