use crate::block::{Block, BlockView};
use crate::queue::Task;
use std::sync::Arc;
use vstd::arithmetic::power2::{lemma2_to64_rest, lemma_pow2_strictly_increases, pow2};
use vstd::prelude::*;

verus! {

/// The number of sub-ranges that a search is cut into, whatever the range and
/// the number of workers.
pub const CHUNKS: u64 = 2345;

/// The width of every sub-range but the last when `[start, end)` is cut into
/// `chunks` sub-ranges.
pub open spec fn chunk_width(start: u64, end: u64, chunks: u64) -> int {
    (end - start) / (chunks as int)
}

/// Where sub-range `i` begins.
pub open spec fn chunk_min(start: u64, end: u64, chunks: u64, i: int) -> int {
    start + i * chunk_width(start, end, chunks)
}

/// Where sub-range `i` ends: where the next begins, and the last at `end`,
/// so that it takes what the division left over.
pub open spec fn chunk_max(start: u64, end: u64, chunks: u64, i: int) -> int {
    if i + 1 == chunks {
        end as int
    } else {
        chunk_min(start, end, chunks, i + 1)
    }
}

/// The sub-ranges lie inside the range, in order, each beginning where the one
/// before it ends, the first at `start` and the last ending at `end`.
pub proof fn lemma_chunks_partition(start: u64, end: u64, chunks: u64, i: int)
    requires
        start <= end,
        0 <= i < chunks,
    ensures
        start <= chunk_min(start, end, chunks, i) <= chunk_max(start, end, chunks, i) <= end,
        chunk_min(start, end, chunks, 0) == start,
        chunk_max(start, end, chunks, chunks - 1) == end,
        i + 1 < chunks ==> chunk_max(start, end, chunks, i) == chunk_min(start, end, chunks, i + 1),
{
    let width = chunk_width(start, end, chunks);
    let span = end - start;
    let n = chunks as int;
    assert(0 <= width && width * n <= span) by (nonlinear_arith)
        requires
            width == span / n,
            n > 0,
            span >= 0,
    ;
    assert(0 <= i * width && i * width <= (i + 1) * width && (i + 1) * width <= n * width)
        by (nonlinear_arith)
        requires
            0 <= i < n,
            0 <= width,
    ;
    assert(n * width == width * n) by (nonlinear_arith);
    assert(0 * width == 0) by (nonlinear_arith);
}

/// Every candidate of the range lies in one of the sub-ranges.
pub proof fn lemma_chunks_cover(start: u64, end: u64, chunks: u64, p: u64)
    requires
        start <= p < end,
        chunks >= 1,
    ensures
        exists|i: int|
            0 <= i < chunks && #[trigger] chunk_min(start, end, chunks, i) <= p < chunk_max(
                start,
                end,
                chunks,
                i,
            ),
{
    let width = chunk_width(start, end, chunks);
    let last = chunks - 1;
    lemma_chunks_partition(start, end, chunks, last);
    if width == 0 || chunk_min(start, end, chunks, last) <= p {
        assert(chunk_min(start, end, chunks, last) <= p) by (nonlinear_arith)
            requires
                width == 0 || chunk_min(start, end, chunks, last) <= p,
                chunk_min(start, end, chunks, last) == start + last * width,
                start <= p,
        ;
        assert(chunk_min(start, end, chunks, last) <= p < chunk_max(start, end, chunks, last));
    } else {
        let offset = p - start;
        let k = offset / width;
        assert(0 <= k && k * width <= offset < (k + 1) * width) by (nonlinear_arith)
            requires
                k == offset / width,
                width > 0,
                offset >= 0,
        ;
        assert(k < last) by (nonlinear_arith)
            requires
                k * width <= offset,
                offset < last * width,
                width > 0,
        ;
        assert(chunk_min(start, end, chunks, k) <= p < chunk_max(start, end, chunks, k));
    }
}

/// Where no sub-range holds an accepted candidate, the range holds none: a
/// search whose tasks all come back empty has tried everything.
pub proof fn lemma_barren_chunks_barren_range(block: BlockView, start: u64, end: u64, chunks: u64)
    requires
        start <= end,
        chunks >= 1,
        forall|i: int|
            0 <= i < chunks ==> block.rejects_all(
                #[trigger] chunk_min(start, end, chunks, i) as u64,
                chunk_max(start, end, chunks, i) as u64,
            ),
    ensures
        block.rejects_all(start, end),
{
    assert forall|q: u64| start <= q < end implies !#[trigger] block.accepts(q) by {
        lemma_chunks_cover(start, end, chunks, q);
        let i = choose|i: int|
            0 <= i < chunks && #[trigger] chunk_min(start, end, chunks, i) <= q < chunk_max(
                start,
                end,
                chunks,
                i,
            );
        lemma_chunks_partition(start, end, chunks, i);
        assert(block.rejects_all(
            chunk_min(start, end, chunks, i) as u64,
            chunk_max(start, end, chunks, i) as u64,
        ));
    }
}

/// One unit of a search: a block and the sub-range `[min_range, max_range)`
/// of candidate proofs to try on it.
pub struct MiningTask {
    block: Arc<Block>,
    min_range: u64,
    max_range: u64,
}

/// A task as plain values.
pub struct MiningTaskView {
    /// The block that is searched for.
    pub block: BlockView,
    /// The first candidate.
    pub min_range: u64,
    /// The end of the candidates, itself not tried.
    pub max_range: u64,
}

impl View for MiningTask {
    type V = MiningTaskView;

    closed spec fn view(&self) -> MiningTaskView {
        MiningTaskView {
            block: self.block@,
            min_range: self.min_range,
            max_range: self.max_range,
        }
    }
}

impl MiningTask {
    /// A task that tries the candidates of `[min_range, max_range)` on `block`.
    pub fn new(block: Arc<Block>, min_range: u64, max_range: u64) -> (task: MiningTask)
        ensures
            task@ == (MiningTaskView { block: block@, min_range, max_range }),
    {
        MiningTask { block, min_range, max_range }
    }

    /// The first candidate.
    pub fn min_range(&self) -> (min: u64)
        ensures
            min == self@.min_range,
    {
        self.min_range
    }

    /// The end of the candidates.
    pub fn max_range(&self) -> (max: u64)
        ensures
            max == self@.max_range,
    {
        self.max_range
    }
}

impl Task for MiningTask {
    type Output = u64;

    /// Yields the least accepted candidate of the task's sub-range, or
    /// nothing where the sub-range has none.
    fn run(&self) -> (found: Option<u64>)
        ensures
            self@.block.first_accepted(self@.min_range, self@.max_range, found),
    {
        self.block.search(self.min_range, self.max_range)
    }
}

/// Calls `Arc::clone`. Trusted: the new handle points at the same block.
#[verifier::external_body]
fn share(block: &Arc<Block>) -> (shared: Arc<Block>)
    ensures
        shared@ == block@,
{
    Arc::clone(block)
}

/// The end of the range that a search of the given difficulty covers: eight
/// times the `2^difficulty` trials that a proof is expected to take, or the
/// largest 64-bit number where that does not fit.
pub open spec fn search_bound(difficulty: u8) -> int {
    if 8 * pow2(difficulty as nat) <= u64::MAX {
        (8 * pow2(difficulty as nat)) as int
    } else {
        u64::MAX as int
    }
}

/// Computes the end of the range that a search of the given difficulty covers.
pub fn search_bound_of(difficulty: u8) -> (bound: u64)
    ensures
        bound == search_bound(difficulty),
{
    if difficulty <= 60 {
        proof {
            lemma2_to64_rest();
            if difficulty < 60 {
                lemma_pow2_strictly_increases(difficulty as nat, 60);
            }
            assert(8 * pow2(difficulty as nat) <= u64::MAX);
            vstd::bits::lemma_u64_shl_is_mul(8u64, difficulty as u64);
        }
        8u64 << (difficulty as u64)
    } else {
        proof {
            lemma2_to64_rest();
            lemma_pow2_strictly_increases(61, difficulty as nat + 1);
            if difficulty > 61 {
                lemma_pow2_strictly_increases(61, difficulty as nat);
            }
            assert(8 * pow2(difficulty as nat) > u64::MAX);
        }
        u64::MAX
    }
}

impl Block {
    /// Cuts `[start, end)` into `chunks` sub-ranges and makes one task for
    /// each, in order, all on one shared copy of the block.
    pub fn search_tasks(&self, start: u64, end: u64, chunks: u64) -> (tasks: Vec<MiningTask>)
        requires
            start <= end,
            chunks <= usize::MAX,
        ensures
            tasks@.len() == chunks,
            forall|i: int|
                0 <= i < chunks ==> (#[trigger] tasks@[i])@ == (MiningTaskView {
                    block: self@,
                    min_range: chunk_min(start, end, chunks, i) as u64,
                    max_range: chunk_max(start, end, chunks, i) as u64,
                }),
    {
        let mut tasks: Vec<MiningTask> = Vec::new();
        if chunks == 0 {
            return tasks;
        }
        let shared = Arc::new(self.snapshot());
        let width: u64 = (end - start) / chunks;
        let mut min: u64 = start;
        let mut i: u64 = 0;
        while i < chunks
            invariant
                start <= end,
                0 < chunks <= usize::MAX,
                i <= chunks,
                shared@ == self@,
                width == chunk_width(start, end, chunks),
                tasks@.len() == i,
                start <= min <= end,
                i < chunks ==> min == chunk_min(start, end, chunks, i as int),
                forall|j: int|
                    0 <= j < i ==> (#[trigger] tasks@[j])@ == (MiningTaskView {
                        block: self@,
                        min_range: chunk_min(start, end, chunks, j) as u64,
                        max_range: chunk_max(start, end, chunks, j) as u64,
                    }),
            decreases chunks - i,
        {
            proof {
                lemma_chunks_partition(start, end, chunks, i as int);
                assert((i + 1) * width == i * width + width) by (nonlinear_arith);
            }
            let max: u64 = if i + 1 == chunks {
                end
            } else {
                min + width
            };
            tasks.push(MiningTask::new(share(&shared), min, max));
            min = max;
            i += 1;
        }
        tasks
    }

    /// The range and the number of sub-ranges of a search for this block's
    /// proof: `[0, search_bound)` in `CHUNKS` sub-ranges.
    pub fn search_plan(&self) -> (plan: (u64, u64, u64))
        ensures
            plan == (0u64, search_bound(self@.difficulty) as u64, CHUNKS),
    {
        (0, search_bound_of(self.difficulty()), CHUNKS)
    }
}

/// What a search knows after a task has reported.
#[derive(Debug, Clone, Copy, PartialEq, Eq, Structural)]
pub enum Verdict {
    /// The report holds a proof that was checked again and is accepted: stop
    /// the workers and take it.
    Found(u64),
    /// Tasks are still out: wait for the next report.
    Pending,
    /// Every task has reported and none brought an accepted proof.
    Exhausted,
}

/// The count of a search's reports as plain values.
pub struct CollectorView {
    /// The number of tasks that were handed out.
    pub chunks: u64,
    /// The number of tasks that have reported, never above `chunks`.
    pub reported: u64,
}

impl CollectorView {
    /// Whether the count is one that a collector can hold: no more reports
    /// than tasks.
    pub open spec fn wf(self) -> bool {
        self.reported <= self.chunks
    }

    /// Whether every task has reported.
    pub open spec fn complete(self) -> bool {
        self.reported >= self.chunks
    }

    /// The number of tasks that have not reported yet.
    pub open spec fn outstanding(self) -> u64 {
        if self.reported <= self.chunks {
            (self.chunks - self.reported) as u64
        } else {
            0
        }
    }

    /// The count after one more report.
    pub open spec fn after_report(self) -> CollectorView {
        if self.reported < self.chunks {
            CollectorView { reported: (self.reported + 1) as u64, ..self }
        } else {
            self
        }
    }

    /// The verdict on a report that arrives in this state, for a search on
    /// `block`: a candidate counts only if the block accepts it, and the
    /// search is exhausted when the last task reports without one.
    pub open spec fn verdict_on(self, block: BlockView, report: Option<u64>) -> Verdict {
        match report {
            Some(p) if block.accepts(p) => Verdict::Found(p),
            _ => if self.after_report().complete() {
                Verdict::Exhausted
            } else {
                Verdict::Pending
            },
        }
    }
}

impl CollectorView {
    /// How the search stands after `reports` have arrived in this order: it
    /// stops at the first report that is not followed by waiting.
    pub open spec fn verdict_after(self, block: BlockView, reports: Seq<Option<u64>>) -> Verdict
        decreases reports.len(),
    {
        if reports.len() == 0 {
            if self.complete() {
                Verdict::Exhausted
            } else {
                Verdict::Pending
            }
        } else {
            match self.verdict_on(block, reports[0]) {
                Verdict::Pending => self.after_report().verdict_after(block, reports.drop_first()),
                verdict => verdict,
            }
        }
    }
}

/// In whatever order the reports arrive, and so with however many workers, a
/// proof that the search takes is one of the reported candidates and is
/// accepted by the block.
pub proof fn lemma_found_proof_is_accepted(
    state: CollectorView,
    block: BlockView,
    reports: Seq<Option<u64>>,
)
    ensures
        state.verdict_after(block, reports) matches Verdict::Found(p) ==> block.accepts(p)
            && reports.contains(Some(p)),
    decreases reports.len(),
{
    if reports.len() > 0 {
        match state.verdict_on(block, reports[0]) {
            Verdict::Pending => {
                let rest = reports.drop_first();
                lemma_found_proof_is_accepted(state.after_report(), block, rest);
                if let Verdict::Found(p) = state.verdict_after(block, reports) {
                    let k = choose|k: int| 0 <= k < rest.len() && rest[k] == Some(p);
                    assert(reports[k + 1] == Some(p));
                }
            },
            Verdict::Found(p) => {
                assert(reports[0] == Some(p));
            },
            Verdict::Exhausted => {},
        }
    }
}

/// The search waits for no more reports than tasks are out: once as many
/// reports have arrived, it has found a proof or is exhausted. And it is
/// exhausted only when every task has reported.
pub proof fn lemma_search_ends_with_last_report(
    state: CollectorView,
    block: BlockView,
    reports: Seq<Option<u64>>,
)
    requires
        state.wf(),
    ensures
        state.reported + reports.len() >= state.chunks ==> state.verdict_after(block, reports)
            != Verdict::Pending,
        state.verdict_after(block, reports) == Verdict::Exhausted ==> state.reported
            + reports.len() >= state.chunks,
    decreases reports.len(),
{
    if reports.len() > 0 {
        lemma_search_ends_with_last_report(state.after_report(), block, reports.drop_first());
    }
}

/// Counts the reports of a search's tasks and judges each as it arrives. A
/// task that found nothing reports nothing, so the count is of tasks, not of
/// candidates.
#[derive(Debug)]
pub struct Collector {
    chunks: u64,
    reported: u64,
}

impl View for Collector {
    type V = CollectorView;

    closed spec fn view(&self) -> CollectorView {
        CollectorView { chunks: self.chunks, reported: self.reported }
    }
}

impl Collector {
    /// A collector for `chunks` tasks, none of which has reported.
    pub fn new(chunks: u64) -> (collector: Collector)
        ensures
            collector@ == (CollectorView { chunks, reported: 0 }),
            collector@.wf(),
    {
        Collector { chunks, reported: 0 }
    }

    /// The number of tasks that have not reported yet.
    pub fn outstanding(&self) -> (n: u64)
        ensures
            n == self@.outstanding(),
    {
        if self.reported <= self.chunks {
            self.chunks - self.reported
        } else {
            0
        }
    }

    /// Takes the report of one task, the proof it found or nothing, and says
    /// how the search stands. A proof is checked against the block again
    /// before it is taken.
    pub fn observe(&mut self, block: &Block, report: Option<u64>) -> (verdict: Verdict)
        ensures
            final(self)@ == old(self)@.after_report(),
            old(self)@.wf() ==> final(self)@.wf(),
            verdict == old(self)@.verdict_on(block@, report),
            verdict matches Verdict::Found(p) ==> report == Some(p) && block@.accepts(p),
    {
        if self.reported < self.chunks {
            self.reported = self.reported + 1;
        }
        let accepted = match report {
            Some(p) => block.is_valid_for_proof(p),
            None => false,
        };
        match report {
            Some(p) if accepted => Verdict::Found(p),
            _ => if self.reported >= self.chunks {
                Verdict::Exhausted
            } else {
                Verdict::Pending
            },
        }
    }
}

} // verus!
