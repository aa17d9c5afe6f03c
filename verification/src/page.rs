//! Pages that are parsed region by region.
use crate::error::{self, Error, ErrorView, Message};
use crate::text;
use vstd::prelude::*;

verus! {

/// Something that went wrong with a page without stopping it.
#[derive(Debug)]
pub struct ParseDiagnostic {
    pub block_index: Option<usize>,
    pub stage: String,
    pub message: String,
}

/// What a diagnostic says.
pub struct DiagnosticView {
    pub block_index: Option<usize>,
    pub stage: Seq<char>,
    pub message: Seq<char>,
}

impl View for ParseDiagnostic {
    type V = DiagnosticView;

    open spec fn view(&self) -> DiagnosticView {
        DiagnosticView {
            block_index: self.block_index,
            stage: self.stage@,
            message: self.message@,
        }
    }
}

/// What a list of diagnostics says.
pub open spec fn views(list: Seq<ParseDiagnostic>) -> Seq<DiagnosticView> {
    list.map_values(|d: ParseDiagnostic| d@)
}

/// Adds a diagnostic to a list.
fn report(diagnostics: &mut Vec<ParseDiagnostic>, d: ParseDiagnostic)
    ensures
        views(final(diagnostics)@) == views(old(diagnostics)@).push(d@),
{
    diagnostics.push(d);
    proof {
        assert(views(diagnostics@) =~= views(old(diagnostics)@).push(d@));
    }
}

/// The size of a batch: at least one region.
pub open spec fn batch_size(configured: usize) -> int {
    if configured == 0 {
        1
    } else {
        configured as int
    }
}

/// The diagnostic for a batch that is tried again.
pub open spec fn batch_diagnostic(message: Seq<char>) -> DiagnosticView {
    DiagnosticView { block_index: None, stage: "batch"@, message }
}

/// What a region becomes.
#[derive(Debug)]
pub enum BlockContent {
    /// Table tokens that are still to be written as HTML.
    Table(String),
    /// Finished text.
    Text(String),
}

/// Settles a region whose answer, with its repetitions cut, is `answer`. A table is
/// handed on as it is, other text is trimmed; an error is reported.
pub fn settle_block(
    block_index: usize,
    block_type: &str,
    answer: Result<String, String>,
    diagnostics: &mut Vec<ParseDiagnostic>,
) -> (content: Option<BlockContent>)
    ensures
        match answer {
            Ok(s) => {
                &&& views(final(diagnostics)@) == views(old(diagnostics)@)
                &&& if block_type@ == "table"@ {
                    content matches Some(BlockContent::Table(t)) && t@ == s@
                } else {
                    content matches Some(BlockContent::Text(t)) && t@ == text::trimmed(s@)
                }
            },
            Err(m) => {
                &&& content is None
                &&& views(final(diagnostics)@) == views(old(diagnostics)@).push(
                    DiagnosticView {
                        block_index: Some(block_index),
                        stage: "recognition"@,
                        message: m@,
                    },
                )
            },
        },
{
    match answer {
        Ok(s) => {
            if text::same(block_type, "table") {
                Some(BlockContent::Table(s))
            } else {
                Some(BlockContent::Text(text::trim(s.as_str())))
            }
        },
        Err(message) => {
            report(
                diagnostics,
                ParseDiagnostic {
                    block_index: Some(block_index),
                    stage: "recognition".to_owned(),
                    message,
                },
            );
            None
        },
    }
}

/// What a region's content says.
pub enum ContentView {
    Table(Seq<char>),
    Text(Seq<char>),
}

impl View for BlockContent {
    type V = ContentView;

    open spec fn view(&self) -> ContentView {
        match *self {
            BlockContent::Table(s) => ContentView::Table(s@),
            BlockContent::Text(s) => ContentView::Text(s@),
        }
    }
}

/// A region of a page that is read on its own.
#[derive(Debug)]
pub struct Region {
    /// The place of the region among the blocks of the page.
    pub block_index: usize,
    pub block_type: String,
}

/// What came back for the regions that were asked for.
#[derive(Debug)]
pub enum PageReply {
    /// The answers with their repetitions cut, or how errors in reading them are shown.
    Answers(Vec<Result<String, String>>),
    /// How an error of the request as a whole is shown.
    Failed(String),
}

/// The contents of the settled regions.
pub open spec fn content_views(list: Seq<Option<BlockContent>>) -> Seq<Option<ContentView>> {
    list.map_values(
        |c: Option<BlockContent>|
            match c {
                Some(c) => Some(c@),
                None => None,
            },
    )
}

/// What the answers say.
pub open spec fn answer_views(list: Seq<Result<String, String>>) -> Seq<
    Result<Seq<char>, Seq<char>>,
> {
    list.map_values(
        |a: Result<String, String>|
            match a {
                Ok(s) => Ok(s@),
                Err(m) => Err(m@),
            },
    )
}

/// How far a page is: the batch that begins at `start` is asked for, as a whole or,
/// once that has failed, one region after the other.
pub struct RunView {
    pub start: int,
    pub retrying: bool,
    /// What became of the regions before the one that is asked for.
    pub contents: Seq<Option<ContentView>>,
    pub diagnostics: Seq<DiagnosticView>,
}

/// What becomes of a region.
pub open spec fn settled(block_type: Seq<char>, answer: Result<Seq<char>, Seq<char>>) -> Option<
    ContentView,
> {
    match answer {
        Ok(s) => if block_type == "table"@ {
            Some(ContentView::Table(s))
        } else {
            Some(ContentView::Text(text::trimmed(s)))
        },
        Err(m) => None,
    }
}

/// The problem of a request for one region to which `n` answers came.
pub open spec fn count_problem(n: nat) -> Option<ErrorView> {
    if n == 1 {
        None
    } else {
        Some(
            ErrorView::InvalidInput(
                "MinerU returned "@ + text::dec(n) + " results for one block"@,
            ),
        )
    }
}

/// Checks that one answer came to a request for one region.
pub fn check_single(n: usize) -> (r: Result<(), Error>)
    ensures
        error::verdict(count_problem(n as nat), r),
{
    if n == 1 {
        Ok(())
    } else {
        Err(
            Message::new("MinerU returned ").num(n as u64).text(
                " results for one block",
            ).invalid_input(),
        )
    }
}

/// The page after its next region has been answered.
pub open spec fn settle_next(
    run: RunView,
    regions: Seq<Region>,
    answer: Result<Seq<char>, Seq<char>>,
) -> RunView {
    let region = regions[run.contents.len() as int];
    RunView {
        contents: run.contents.push(settled(region.block_type@, answer)),
        diagnostics: match answer {
            Ok(s) => run.diagnostics,
            Err(m) => run.diagnostics.push(
                DiagnosticView {
                    block_index: Some(region.block_index),
                    stage: "recognition"@,
                    message: m,
                },
            ),
        },
        ..run
    }
}

/// The page after the next regions have been answered.
pub open spec fn settle_all(
    run: RunView,
    regions: Seq<Region>,
    answers: Seq<Result<Seq<char>, Seq<char>>>,
) -> RunView
    decreases answers.len(),
{
    if answers.len() == 0 {
        run
    } else {
        settle_next(settle_all(run, regions, answers.drop_last()), regions, answers.last())
    }
}

/// The page when the regions before `end` are settled: the next batch begins.
pub open spec fn begin_next(run: RunView, end: int) -> RunView {
    if run.contents.len() == end {
        RunView { start: end, retrying: false, ..run }
    } else {
        run
    }
}

/// The page when its batch is tried again, region by region.
pub open spec fn retry_each(run: RunView, message: Seq<char>) -> RunView {
    RunView { retrying: true, diagnostics: run.diagnostics.push(batch_diagnostic(message)), ..run }
}

/// The end of the batch that begins at `start`.
pub open spec fn batch_end(start: int, batch: int, n: int) -> int {
    if start + batch <= n {
        start + batch
    } else {
        n
    }
}

/// The page after a reply for what was asked for.
pub open spec fn after_reply(
    run: RunView,
    regions: Seq<Region>,
    batch: int,
    reply: PageReply,
) -> RunView {
    let end = batch_end(run.start, batch, regions.len() as int);
    let expected = if run.retrying {
        1
    } else {
        end - run.start
    };
    match reply {
        PageReply::Answers(answers) => if answers@.len() == expected {
            begin_next(settle_all(run, regions, answer_views(answers@)), end)
        } else {
            retry_each(
                run,
                "MinerU returned "@ + text::dec(answers@.len()) + " results for "@ + text::dec(
                    expected as nat,
                ) + " blocks; retried individually"@,
            )
        },
        PageReply::Failed(m) => if run.retrying || expected == 1 {
            begin_next(settle_next(run, regions, Err(m@)), end)
        } else {
            retry_each(run, m@ + "; retried individually"@)
        },
    }
}

/// The blocks whose reading was reported to have failed, in order.
pub open spec fn reported(diagnostics: Seq<DiagnosticView>) -> Seq<usize>
    decreases diagnostics.len(),
{
    if diagnostics.len() == 0 {
        Seq::empty()
    } else {
        match diagnostics.last().block_index {
            Some(i) => reported(diagnostics.drop_last()).push(i),
            None => reported(diagnostics.drop_last()),
        }
    }
}

/// The blocks of the settled regions without content, in order.
pub open spec fn missing(contents: Seq<Option<ContentView>>, regions: Seq<Region>) -> Seq<usize>
    decreases contents.len(),
{
    if contents.len() == 0 {
        Seq::empty()
    } else {
        let before = missing(contents.drop_last(), regions);
        match contents.last() {
            Some(c) => before,
            None => before.push(regions[contents.len() - 1].block_index),
        }
    }
}

/// A page that is read batch by batch.
#[derive(Debug)]
pub struct PageRun {
    pub regions: Vec<Region>,
    pub batch: usize,
    pub start: usize,
    pub retrying: bool,
    pub contents: Vec<Option<BlockContent>>,
    pub diagnostics: Vec<ParseDiagnostic>,
}

impl View for PageRun {
    type V = RunView;

    open spec fn view(&self) -> RunView {
        RunView {
            start: self.start as int,
            retrying: self.retrying,
            contents: content_views(self.contents@),
            diagnostics: views(self.diagnostics@),
        }
    }
}

impl PageRun {
    /// The end of the present batch.
    pub open spec fn spec_end(self) -> int {
        batch_end(self.start as int, self.batch as int, self.regions@.len() as int)
    }

    /// The regions are settled in their order, and those that have no content are
    /// the ones that were reported.
    pub open spec fn wf(self) -> bool {
        &&& self.batch >= 1
        &&& self.start <= self.contents@.len() <= self.spec_end()
        &&& self.start <= self.regions@.len()
        &&& !self.retrying ==> self.contents@.len() == self.start
        &&& self.retrying ==> self.contents@.len() < self.spec_end()
        &&& reported(self@.diagnostics) == missing(self@.contents, self.regions@)
    }

    /// All regions are settled.
    pub open spec fn spec_done(self) -> bool {
        self.contents@.len() == self.regions@.len()
    }

    /// How many replies are still needed at most.
    pub open spec fn replies_left(self) -> int {
        2 * (self.regions@.len() - self.contents@.len()) + if self.retrying {
            0int
        } else {
            1
        }
    }

    /// A page of which nothing is read.
    pub fn new(regions: Vec<Region>, region_batch_size: usize) -> (run: PageRun)
        ensures
            run.wf(),
            run.regions@ == regions@,
            run.batch == batch_size(region_batch_size),
            run.batch == if region_batch_size == 0 {
                1
            } else {
                region_batch_size
            },
            run@ == (RunView {
                start: 0,
                retrying: false,
                contents: Seq::empty(),
                diagnostics: Seq::empty(),
            }),
    {
        let batch: usize = if region_batch_size == 0 {
            1
        } else {
            region_batch_size
        };
        let run = PageRun {
            regions,
            batch,
            start: 0,
            retrying: false,
            contents: Vec::new(),
            diagnostics: Vec::new(),
        };
        proof {
            assert(run@.contents =~= Seq::empty());
            assert(run@.diagnostics =~= Seq::empty());
        }
        run
    }

    /// The end of the present batch.
    fn end(&self) -> (end: usize)
        requires
            self.start <= self.regions@.len(),
        ensures
            end == self.spec_end(),
    {
        if self.batch <= self.regions.len() - self.start {
            self.start + self.batch
        } else {
            self.regions.len()
        }
    }

    /// The regions that are to be read next, or nothing when all are settled.
    pub fn asked(&self) -> (r: Option<(usize, usize)>)
        requires
            self.wf(),
        ensures
            match r {
                None => self.spec_done(),
                Some((a, b)) => {
                    &&& !self.spec_done()
                    &&& a == self.contents@.len()
                    &&& a < b <= self.regions@.len()
                    &&& b == if self.retrying {
                        a + 1
                    } else {
                        self.spec_end()
                    }
                },
            },
    {
        let settled: usize = self.contents.len();
        if settled == self.regions.len() {
            None
        } else if self.retrying {
            Some((settled, settled + 1))
        } else {
            Some((settled, self.end()))
        }
    }

    /// Settles the next region.
    fn settle(&mut self, answer: Result<String, String>)
        requires
            old(self).contents@.len() < old(self).regions@.len(),
            reported(old(self)@.diagnostics) == missing(
                old(self)@.contents,
                old(self).regions@,
            ),
        ensures
            final(self)@ == settle_next(
                old(self)@,
                old(self).regions@,
                match answer {
                    Ok(s) => Ok(s@),
                    Err(m) => Err(m@),
                },
            ),
            final(self).regions@ == old(self).regions@,
            final(self).batch == old(self).batch,
            final(self).contents@.len() == old(self).contents@.len() + 1,
            reported(final(self)@.diagnostics) == missing(
                final(self)@.contents,
                final(self).regions@,
            ),
    {
        let at: usize = self.contents.len();
        let ghost before = self@;
        let block_index: usize = self.regions[at].block_index;
        let content = settle_block(
            block_index,
            self.regions[at].block_type.as_str(),
            answer,
            &mut self.diagnostics,
        );
        let ghost said = content_views(seq![content])[0];
        self.contents.push(content);
        proof {
            assert(self@.contents =~= before.contents.push(said));
            assert(self@.contents.drop_last() =~= before.contents);
            if answer is Err {
                assert(self@.diagnostics.drop_last() =~= before.diagnostics);
            }
        }
    }

    /// Settles the next regions.
    fn settle_answers(&mut self, answers: Vec<Result<String, String>>)
        requires
            old(self).contents@.len() + answers@.len() <= old(self).regions@.len(),
            reported(old(self)@.diagnostics) == missing(
                old(self)@.contents,
                old(self).regions@,
            ),
        ensures
            final(self)@ == settle_all(old(self)@, old(self).regions@, answer_views(answers@)),
            final(self).regions@ == old(self).regions@,
            final(self).batch == old(self).batch,
            final(self).start == old(self).start,
            final(self).retrying == old(self).retrying,
            final(self).contents@.len() == old(self).contents@.len() + answers@.len(),
            reported(final(self)@.diagnostics) == missing(
                final(self)@.contents,
                final(self).regions@,
            ),
    {
        let ghost all = answer_views(answers@);
        let ghost given = answers@;
        let ghost mut i: int = 0;
        let mut rest = answers;
        proof {
            assert(given.skip(0) =~= given);
            assert(all.take(0) =~= Seq::empty());
        }
        while rest.len() > 0
            invariant
                0 <= i <= given.len(),
                rest@ == given.skip(i),
                all == answer_views(given),
                old(self).contents@.len() + given.len() <= old(self).regions@.len(),
                self@ == settle_all(old(self)@, old(self).regions@, all.take(i)),
                self.regions@ == old(self).regions@,
                self.batch == old(self).batch,
                self.start == old(self).start,
                self.retrying == old(self).retrying,
                self.contents@.len() == old(self).contents@.len() + i,
                reported(self@.diagnostics) == missing(self@.contents, self.regions@),
            decreases rest.len(),
        {
            let ghost before = self@;
            let answer = rest.remove(0);
            proof {
                assert(answer == given[i]);
                assert(given.skip(i).remove(0) =~= given.skip(i + 1));
                assert(all.take(i + 1).drop_last() =~= all.take(i));
                assert(all.take(i + 1).last() == all[i]);
            }
            self.settle(answer);
            proof {
                assert(self@ == settle_next(before, old(self).regions@, all[i]));
                i = i + 1;
            }
        }
        proof {
            assert(all.take(i) =~= all);
        }
    }

    /// Goes on to the next batch where the present one is settled.
    fn advance(&mut self, end: usize)
        requires
            old(self).start <= old(self).regions@.len(),
            old(self).batch >= 1,
            old(self).start <= old(self).contents@.len() <= end <= old(self).regions@.len(),
            end == old(self).spec_end(),
            old(self).retrying || old(self).contents@.len() == end,
            reported(old(self)@.diagnostics) == missing(
                old(self)@.contents,
                old(self).regions@,
            ),
        ensures
            final(self)@ == begin_next(old(self)@, end as int),
            final(self).wf(),
            final(self).regions@ == old(self).regions@,
            final(self).batch == old(self).batch,
            final(self).contents@ == old(self).contents@,
    {
        if self.contents.len() == end {
            self.start = end;
            self.retrying = false;
        }
    }

    /// Tries the regions of the present batch one by one.
    fn retry(&mut self, message: String)
        requires
            old(self).wf(),
            !old(self).retrying,
            !old(self).spec_done(),
        ensures
            final(self)@ == retry_each(old(self)@, message@),
            final(self).wf(),
            final(self).regions@ == old(self).regions@,
            final(self).batch == old(self).batch,
            final(self).contents@ == old(self).contents@,
            final(self).retrying,
    {
        let ghost before = self@;
        report(
            &mut self.diagnostics,
            ParseDiagnostic { block_index: None, stage: "batch".to_owned(), message },
        );
        self.retrying = true;
        proof {
            assert(self@.diagnostics.drop_last() =~= before.diagnostics);
        }
    }

    /// Takes the reply for the regions that were asked for. Where one region was asked
    /// for again, any other number of answers than one is an error of that request: see
    /// [`check_single`].
    pub fn take(&mut self, reply: PageReply)
        requires
            old(self).wf(),
            !old(self).spec_done(),
            old(self).retrying ==> (reply matches PageReply::Answers(answers) ==> answers@.len()
                == 1),
        ensures
            final(self).wf(),
            final(self).regions@ == old(self).regions@,
            final(self).batch == old(self).batch,
            final(self)@ == after_reply(
                old(self)@,
                old(self).regions@,
                old(self).batch as int,
                reply,
            ),
            final(self).replies_left() < old(self).replies_left(),
    {
        let end: usize = self.end();
        let expected: usize = if self.retrying {
            1
        } else {
            end - self.start
        };
        match reply {
            PageReply::Answers(answers) => {
                let n: usize = answers.len();
                if n == expected {
                    self.settle_answers(answers);
                    self.advance(end);
                } else {
                    self.retry(
                        Message::new("MinerU returned ").num(n as u64).text(" results for ").num(
                            expected as u64,
                        ).text(" blocks; retried individually").finish(),
                    );
                }
            },
            PageReply::Failed(m) => {
                if self.retrying || expected == 1 {
                    self.settle(Err(m));
                    self.advance(end);
                } else {
                    self.retry(
                        Message::new(m.as_str()).text("; retried individually").finish(),
                    );
                }
            },
        }
    }
}

/// The failed blocks of a page are those without content.
proof fn lemma_missing(contents: Seq<Option<ContentView>>, regions: Seq<Region>, block: usize)
    ensures
        missing(contents, regions).contains(block) <==> exists|i: int|
            0 <= i < contents.len() && (#[trigger] contents[i]) is None && regions[i].block_index
                == block,
    decreases contents.len(),
{
    if contents.len() > 0 {
        let before = contents.drop_last();
        let last = contents.len() - 1;
        lemma_missing(before, regions, block);
        if missing(before, regions).contains(block) {
            let i = choose|i: int|
                0 <= i < before.len() && (#[trigger] before[i]) is None && regions[i].block_index
                    == block;
            assert(contents[i] is None);
            let k = choose|k: int|
                0 <= k < missing(before, regions).len() && missing(before, regions)[k] == block;
            assert(missing(contents, regions)[k] == block);
        } else if contents[last] is None {
            if regions[last].block_index == block {
                assert(missing(contents, regions).last() == block);
            }
            if missing(contents, regions).contains(block) {
                let k = choose|k: int|
                    0 <= k < missing(contents, regions).len() && missing(contents, regions)[k]
                        == block;
                if k < missing(before, regions).len() {
                    assert(missing(before, regions)[k] == block);
                }
            }
        }
        assert forall|i: int|
            0 <= i < contents.len() && (#[trigger] contents[i]) is None && regions[i].block_index
                == block && i < last implies missing(before, regions).contains(block) by {
            assert(before[i] is None);
        }
    }
}

/// The reported blocks are those that some diagnostic names.
proof fn lemma_reported(diagnostics: Seq<DiagnosticView>, block: usize)
    ensures
        reported(diagnostics).contains(block) <==> exists|d: int|
            0 <= d < diagnostics.len() && (#[trigger] diagnostics[d]).block_index == Some(block),
    decreases diagnostics.len(),
{
    if diagnostics.len() > 0 {
        let before = diagnostics.drop_last();
        let last = diagnostics.len() - 1;
        lemma_reported(before, block);
        if reported(before).contains(block) {
            let d = choose|d: int|
                0 <= d < before.len() && (#[trigger] before[d]).block_index == Some(block);
            assert(diagnostics[d].block_index == Some(block));
            let k = choose|k: int| 0 <= k < reported(before).len() && reported(before)[k] == block;
            assert(reported(diagnostics)[k] == block);
        } else {
            if diagnostics[last].block_index == Some(block) {
                assert(reported(diagnostics).last() == block);
            }
            if reported(diagnostics).contains(block) {
                let k = choose|k: int|
                    0 <= k < reported(diagnostics).len() && reported(diagnostics)[k] == block;
                if k < reported(before).len() {
                    assert(reported(before)[k] == block);
                }
            }
        }
        assert forall|d: int|
            0 <= d < diagnostics.len() && (#[trigger] diagnostics[d]).block_index == Some(block)
                && d < last implies reported(before).contains(block) by {
            assert(before[d].block_index == Some(block));
        }
    }
}

/// No region of a page is lost: when all are settled, each has content, or its block
/// is named by a diagnostic, and not both.
pub proof fn law_every_region_is_settled(run: PageRun, i: int)
    requires
        run.wf(),
        run.spec_done(),
        0 <= i < run.regions@.len(),
        forall|a: int, b: int|
            0 <= a < b < run.regions@.len() ==> (#[trigger] run.regions@[a]).block_index != (
            #[trigger] run.regions@[b]).block_index,
    ensures
        run.contents@[i] is None <==> exists|d: int|
            0 <= d < run.diagnostics@.len() && (#[trigger] run.diagnostics@[d]).block_index
                == Some(run.regions@[i].block_index),
{
    let block = run.regions@[i].block_index;
    let contents = run@.contents;
    let diagnostics = run@.diagnostics;
    lemma_missing(contents, run.regions@, block);
    lemma_reported(diagnostics, block);
    assert(contents[i] is None <==> run.contents@[i] is None);
    if missing(contents, run.regions@).contains(block) {
        let k = choose|k: int|
            0 <= k < contents.len() && (#[trigger] contents[k]) is None
                && run.regions@[k].block_index == block;
        if k < i {
            assert(run.regions@[k].block_index != run.regions@[i].block_index);
        }
        if i < k {
            assert(run.regions@[i].block_index != run.regions@[k].block_index);
        }
        let d = choose|d: int|
            0 <= d < diagnostics.len() && (#[trigger] diagnostics[d]).block_index == Some(block);
        assert(run.diagnostics@[d].block_index == Some(block));
    }
    if exists|d: int|
        0 <= d < run.diagnostics@.len() && (#[trigger] run.diagnostics@[d]).block_index == Some(
            block,
        ) {
        let d = choose|d: int|
            0 <= d < run.diagnostics@.len() && (#[trigger] run.diagnostics@[d]).block_index
                == Some(block);
        assert(diagnostics[d].block_index == Some(block));
    }
}

/// How many regions a page asks for next: one where a failed batch is tried again, else a
/// batch, or as many as are left.
pub open spec fn asked_for(run: PageRun) -> int {
    if run.retrying {
        1
    } else if run.batch <= run.regions@.len() - run.start {
        run.batch as int
    } else {
        run.regions@.len() - run.start
    }
}

/// Two contents say the same.
pub open spec fn same_content(a: Option<BlockContent>, b: Option<BlockContent>) -> bool {
    match (a, b) {
        (Some(BlockContent::Table(s)), Some(BlockContent::Table(t))) => s@ == t@,
        (Some(BlockContent::Text(s)), Some(BlockContent::Text(t))) => s@ == t@,
        (None, None) => true,
        _ => false,
    }
}

/// `content` is what an answer becomes for a region: a table is kept as it is, other
/// text loses the white space around it, and an error leaves nothing.
pub open spec fn is_content_for(
    content: Option<BlockContent>,
    region: Region,
    answer: Result<String, String>,
) -> bool {
    match answer {
        Ok(s) => if region.block_type@ == "table"@ {
            content matches Some(BlockContent::Table(t)) && t@ == s@
        } else {
            content matches Some(BlockContent::Text(t)) && t@ == text::trimmed(s@)
        },
        Err(m) => content is None,
    }
}

/// `d` reports that a region could not be read.
pub open spec fn reports_region(d: ParseDiagnostic, region: Region, message: Seq<char>) -> bool {
    &&& d.block_index == Some(region.block_index)
    &&& d.stage@ == "recognition"@
    &&& d.message@ == message
}

/// How many of the answers are errors.
pub open spec fn errors_in(answers: Seq<Result<String, String>>) -> nat
    decreases answers.len(),
{
    if answers.len() == 0 {
        0
    } else {
        errors_in(answers.drop_last()) + if answers.last() is Err {
            1nat
        } else {
            0nat
        }
    }
}

/// A reply to a page: what `take` makes of it.
pub open spec fn is_after(before: PageRun, after: PageRun, reply: PageReply) -> bool {
    &&& before.wf()
    &&& before.contents@.len() < before.regions@.len()
    &&& after.wf()
    &&& after.regions@ == before.regions@
    &&& after.batch == before.batch
    &&& after@ == after_reply(before@, before.regions@, before.batch as int, reply)
}

/// What settling a list of answers leaves.
proof fn lemma_settle_all(run: RunView, regions: Seq<Region>, answers: Seq<Result<String, String>>)
    requires
        run.contents.len() + answers.len() <= regions.len(),
    ensures
        ({
            let done = settle_all(run, regions, answer_views(answers));
            let n = run.contents.len() as int;
            &&& done.start == run.start
            &&& done.retrying == run.retrying
            &&& done.contents.len() == n + answers.len()
            &&& done.contents.take(n) == run.contents
            &&& done.diagnostics.len() == run.diagnostics.len() + errors_in(answers)
            &&& done.diagnostics.take(run.diagnostics.len() as int) == run.diagnostics
            &&& forall|k: int|
                0 <= k < answers.len() ==> {
                    let region = regions[n + k];
                    match #[trigger] answers[k] {
                        Ok(s) => done.contents[n + k] == Some(
                            if region.block_type@ == "table"@ {
                                ContentView::Table(s@)
                            } else {
                                ContentView::Text(text::trimmed(s@))
                            },
                        ),
                        Err(m) => {
                            let d = done.diagnostics[(run.diagnostics.len() + errors_in(
                                answers.take(k),
                            )) as int];
                            &&& done.contents[n + k] is None
                            &&& errors_in(answers.take(k)) < errors_in(answers)
                            &&& d.block_index == Some(region.block_index)
                            &&& d.stage == "recognition"@
                            &&& d.message == m@
                        },
                    }
                }
        }),
    decreases answers.len(),
{
    let views = answer_views(answers);
    let n = run.contents.len() as int;
    let reports = run.diagnostics.len() as int;
    if answers.len() == 0 {
        assert(run.contents.take(n) =~= run.contents);
        assert(run.diagnostics.take(reports) =~= run.diagnostics);
    } else {
        let front = answers.drop_last();
        let last = answers.len() - 1;
        lemma_settle_all(run, regions, front);
        assert(views.drop_last() =~= answer_views(front));
        assert(views.last() == answer_views(answers)[last]);
        let before = settle_all(run, regions, answer_views(front));
        let done = settle_all(run, regions, views);
        assert(done == settle_next(before, regions, views.last()));
        assert(done.contents.take(n) =~= before.contents.take(n));
        assert(done.diagnostics.take(reports) =~= before.diagnostics.take(reports));
        assert(answers.take(last) =~= front);
        assert forall|k: int| 0 <= k < answers.len() implies {
            let region = regions[n + k];
            match #[trigger] answers[k] {
                Ok(s) => done.contents[n + k] == Some(
                    if region.block_type@ == "table"@ {
                        ContentView::Table(s@)
                    } else {
                        ContentView::Text(text::trimmed(s@))
                    },
                ),
                Err(m) => {
                    let d = done.diagnostics[reports + errors_in(answers.take(k))];
                    &&& done.contents[n + k] is None
                    &&& errors_in(answers.take(k)) < errors_in(answers)
                    &&& d.block_index == Some(region.block_index)
                    &&& d.stage == "recognition"@
                    &&& d.message == m@
                },
            }
        } by {
            if k < last {
                assert(front[k] == answers[k]);
                assert(front.take(k) =~= answers.take(k));
                assert(done.contents[n + k] == before.contents[n + k]);
            }
        }
    }
}

/// Each answer of a reply goes to its own region: answer `k` settles the region that
/// stands `k` places behind those that are settled already, and these stay as they are.
/// Every error is reported once, under the block of its region, in the order of the
/// answers.
pub proof fn law_answers_go_to_their_regions(
    before: PageRun,
    after: PageRun,
    answers: Vec<Result<String, String>>,
)
    requires
        is_after(before, after, PageReply::Answers(answers)),
        answers@.len() == asked_for(before),
    ensures
        ({
            let n = before.contents@.len() as int;
            let reports = before.diagnostics@.len() as int;
            &&& after.contents@.len() == n + answers@.len()
            &&& forall|i: int|
                0 <= i < n ==> same_content(#[trigger] after.contents@[i], before.contents@[i])
            &&& forall|k: int|
                0 <= k < answers@.len() ==> is_content_for(
                    after.contents@[n + k],
                    before.regions@[n + k],
                    #[trigger] answers@[k],
                )
            &&& after.diagnostics@.len() == reports + errors_in(answers@)
            &&& forall|d: int|
                0 <= d < reports ==> (#[trigger] after.diagnostics@[d])@ == before.diagnostics@[d]@
            &&& forall|k: int|
                0 <= k < answers@.len() ==> ((#[trigger] answers@[k]) matches Err(m)
                    ==> reports_region(
                    after.diagnostics@[reports + errors_in(answers@.take(k))],
                    before.regions@[n + k],
                    m@,
                ))
        }),
{
    let n = before.contents@.len() as int;
    let reports = before.diagnostics@.len() as int;
    let run = before@;
    let done = settle_all(run, before.regions@, answer_views(answers@));
    assert(run.contents.len() == n && run.diagnostics.len() == reports);
    lemma_settle_all(run, before.regions@, answers@);
    assert(after@.contents == done.contents);
    assert(after@.diagnostics == done.diagnostics);
    assert forall|i: int| 0 <= i < n implies same_content(
        #[trigger] after.contents@[i],
        before.contents@[i],
    ) by {
        assert(after@.contents[i] == done.contents.take(n)[i]);
        assert(run.contents[i] == content_views(before.contents@)[i]);
    }
    assert forall|k: int| 0 <= k < answers@.len() implies is_content_for(
        after.contents@[n + k],
        before.regions@[n + k],
        #[trigger] answers@[k],
    ) by {
        assert(after@.contents[n + k] == done.contents[n + k]);
    }
    assert forall|d: int| 0 <= d < reports implies (#[trigger] after.diagnostics@[d])@
        == before.diagnostics@[d]@ by {
        assert(after@.diagnostics[d] == done.diagnostics.take(reports)[d]);
        assert(run.diagnostics[d] == before.diagnostics@[d]@);
    }
    assert forall|k: int| 0 <= k < answers@.len() implies ((#[trigger] answers@[k]) matches Err(m)
        ==> reports_region(
        after.diagnostics@[reports + errors_in(answers@.take(k))],
        before.regions@[n + k],
        m@,
    )) by {
        if answers@[k] is Err {
            let d = reports + errors_in(answers@.take(k));
            assert(after@.diagnostics[d] == after.diagnostics@[d]@);
        }
    }
}

/// Once a batch has been answered the next one is asked for as a whole; while a failed
/// batch is tried again, its regions are asked for one by one to its end.
pub proof fn law_page_goes_on_behind_its_answers(
    before: PageRun,
    after: PageRun,
    answers: Vec<Result<String, String>>,
)
    requires
        is_after(before, after, PageReply::Answers(answers)),
        answers@.len() == asked_for(before),
    ensures
        ({
            let end = if before.batch <= before.regions@.len() - before.start {
                before.start + before.batch
            } else {
                before.regions@.len() as int
            };
            let settled = before.contents@.len() + answers@.len();
            if settled == end {
                !after.retrying && after.start == end
            } else {
                before.retrying && after.retrying && after.start == before.start
            }
        }),
{
    lemma_settle_all(before@, before.regions@, answers@);
    assert(before@.contents.len() == before.contents@.len());
}

/// A batch that comes back with another number of answers is tried again region by
/// region: nothing is settled, and one diagnostic tells the two numbers.
pub proof fn law_miscounted_batch_is_tried_again(
    before: PageRun,
    after: PageRun,
    answers: Vec<Result<String, String>>,
)
    requires
        is_after(before, after, PageReply::Answers(answers)),
        !before.retrying,
        answers@.len() != asked_for(before),
    ensures
        after.retrying,
        after.start == before.start,
        after.contents@.len() == before.contents@.len(),
        forall|i: int|
            0 <= i < before.contents@.len() ==> same_content(
                #[trigger] after.contents@[i],
                before.contents@[i],
            ),
        is_noted(
            before,
            after,
            "MinerU returned "@ + text::dec(answers@.len()) + " results for "@ + text::dec(
                asked_for(before) as nat,
            ) + " blocks; retried individually"@,
        ),
{
    assert(after@.diagnostics.drop_last() =~= before@.diagnostics);
    lemma_untouched(before, after);
}

/// `after` has one diagnostic more than `before`, about a batch.
pub open spec fn is_noted(before: PageRun, after: PageRun, message: Seq<char>) -> bool {
    let last = after.diagnostics@.last();
    &&& after.diagnostics@.len() == before.diagnostics@.len() + 1
    &&& forall|d: int|
        0 <= d < before.diagnostics@.len() ==> (#[trigger] after.diagnostics@[d])@
            == before.diagnostics@[d]@
    &&& last.block_index is None
    &&& last.stage@ == "batch"@
    &&& last.message@ == message
}

/// Pages with the same contents and diagnostics beneath their views.
proof fn lemma_untouched(before: PageRun, after: PageRun)
    requires
        after@.contents == before@.contents,
        after@.diagnostics.len() == before@.diagnostics.len() + 1,
        after@.diagnostics.drop_last() == before@.diagnostics,
    ensures
        after.contents@.len() == before.contents@.len(),
        forall|i: int|
            0 <= i < before.contents@.len() ==> same_content(
                #[trigger] after.contents@[i],
                before.contents@[i],
            ),
        after.diagnostics@.len() == before.diagnostics@.len() + 1,
        forall|d: int|
            0 <= d < before.diagnostics@.len() ==> (#[trigger] after.diagnostics@[d])@
                == before.diagnostics@[d]@,
        after.diagnostics@.last()@ == after@.diagnostics.last(),
{
    assert(after@.contents.len() == after.contents@.len());
    assert(before@.contents.len() == before.contents@.len());
    assert forall|i: int| 0 <= i < before.contents@.len() implies same_content(
        #[trigger] after.contents@[i],
        before.contents@[i],
    ) by {
        assert(after@.contents[i] == before@.contents[i]);
    }
    assert forall|d: int| 0 <= d < before.diagnostics@.len() implies (
    #[trigger] after.diagnostics@[d])@ == before.diagnostics@[d]@ by {
        assert(after@.diagnostics.drop_last()[d] == before@.diagnostics[d]);
    }
}

/// A request that fails as a whole costs a lone region its content, which is reported;
/// several regions are tried again one by one, and nothing is settled.
pub proof fn law_failed_request_is_reported_or_tried_again(
    before: PageRun,
    after: PageRun,
    message: String,
)
    requires
        is_after(before, after, PageReply::Failed(message)),
    ensures
        ({
            let n = before.contents@.len() as int;
            &&& forall|i: int|
                0 <= i < n ==> same_content(#[trigger] after.contents@[i], before.contents@[i])
            &&& if asked_for(before) == 1 {
                &&& after.contents@.len() == n + 1
                &&& after.contents@[n] is None
                &&& after.diagnostics@.len() == before.diagnostics@.len() + 1
                &&& reports_region(after.diagnostics@.last(), before.regions@[n], message@)
            } else {
                &&& after.contents@.len() == n
                &&& after.retrying
                &&& after.start == before.start
                &&& is_noted(before, after, message@ + "; retried individually"@)
            }
        }),
{
    let n = before.contents@.len() as int;
    let end = before.spec_end();
    assert(before@.contents.len() == n);
    if asked_for(before) == 1 {
        let done = settle_next(before@, before.regions@, Err(message@));
        assert(after@.contents == done.contents);
        assert(after@.diagnostics == done.diagnostics);
        assert(after@.contents.len() == after.contents@.len());
        assert forall|i: int| 0 <= i < n implies same_content(
            #[trigger] after.contents@[i],
            before.contents@[i],
        ) by {
            assert(after@.contents[i] == before@.contents[i]);
        }
        assert(after@.contents[n] is None);
        assert(after.diagnostics@.last()@ == after@.diagnostics.last());
    } else {
        assert(after@.diagnostics.drop_last() =~= before@.diagnostics);
        lemma_untouched(before, after);
    }
}

/// A request for one region has to get one answer; any other number is a fault of the
/// request.
pub proof fn law_one_region_gets_one_answer(n: nat)
    ensures
        count_problem(n) is None <==> n == 1,
        count_problem(n) matches Some(e) ==> e is InvalidInput,
{
}

/// A page asks for a whole batch behind what is settled, or for what is left of it where
/// that is less; a batch holds one region at least.
pub proof fn law_batch_ends_within_the_page(run: PageRun, configured: usize)
    requires
        run.wf(),
    ensures
        batch_size(configured) >= 1,
        configured > 0 ==> batch_size(configured) == configured,
        run.start <= run.spec_end() <= run.regions@.len(),
        run.spec_end() == run.start + run.batch || run.spec_end() == run.regions@.len()
            && run.spec_end() < run.start + run.batch,
        !run.retrying ==> run.spec_end() == run.contents@.len() + asked_for(run),
{
}

} // verus!
