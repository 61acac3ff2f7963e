//! Synchronisation of the newest blocks into the index: which block to look
//! up or save next, what is counted as saved or skipped, and what is
//! recorded in the synchronisation log at the end.
//!
//! The driver performs each [`SyncAction`] (a node query, an index lookup,
//! an index write, a log update) and hands the outcome back as a
//! [`SyncEvent`]; [`BlockSync::step`] decides what comes next.

use vstd::prelude::*;

verus! {

/// The outcome of one synchronisation run: the hashes of the blocks that
/// were saved and of those that were already indexed, their counts, and
/// the error that ended the run early, if any.
pub struct SyncResult {
    pub saved: usize,
    pub saved_blocks: Vec<String>,
    pub skipped: usize,
    pub skipped_blocks: Vec<String>,
    pub error: Option<String>,
}

impl SyncResult {
    /// The result of a run that has not processed any block.
    pub fn empty() -> (r: SyncResult)
        ensures
            r.saved == 0,
            r.skipped == 0,
            r.saved_blocks@.len() == 0,
            r.skipped_blocks@.len() == 0,
            r.error is None,
    {
        SyncResult {
            saved: 0,
            saved_blocks: Vec::new(),
            skipped: 0,
            skipped_blocks: Vec::new(),
            error: None,
        }
    }
}

/// Where a run stands.
#[derive(Debug, Clone, Copy, PartialEq, Eq, Structural)]
pub enum SyncPhase {
    /// Waiting for the newest blocks from the node.
    Fetching,
    /// Waiting for the index lookup of block `i`.
    Checking(usize),
    /// Waiting for the index write of block `i`.
    Saving(usize),
    /// Done; the log has been told the outcome.
    Finished,
}

/// What the driver reports back.
pub enum SyncEvent {
    /// The node listed these blocks (by hash), in processing order.
    BlocksFetched(Vec<String>),
    /// The node could not list the blocks.
    FetchFailed(String),
    /// The index already holds the block looked up.
    Found,
    /// The index does not hold the block looked up.
    NotFound,
    /// The lookup failed.
    LookupFailed(String),
    /// The block was written to the index.
    Saved,
    /// The write failed.
    SaveFailed(String),
}

/// What the driver is to do next.
#[derive(Debug, Clone, Copy, PartialEq, Eq, Structural)]
pub enum SyncAction {
    /// Ask the node for the newest blocks.
    FetchBlocks,
    /// Look block `i` up in the index.
    LookUp(usize),
    /// Write block `i` to the index.
    Save(usize),
    /// Record the run's result as completed.
    RecordSuccess,
    /// Record the run as failed with its error.
    RecordFailure,
    /// Nothing: the event did not fit the run's state and was ignored.
    Nothing,
}

/// A synchronisation run in progress. `outcomes[i]` tells whether block `i`
/// was saved (rather than found already indexed).
pub struct BlockSync {
    pub phase: SyncPhase,
    pub hashes: Vec<String>,
    pub result: SyncResult,
    pub outcomes: Ghost<Seq<bool>>,
}

/// The state of a run as mathematical values.
pub struct SyncView {
    pub phase: SyncPhase,
    pub hashes: Seq<Seq<char>>,
    pub saved: int,
    pub saved_blocks: Seq<Seq<char>>,
    pub skipped: int,
    pub skipped_blocks: Seq<Seq<char>>,
    pub error: Option<Seq<char>>,
    pub outcomes: Seq<bool>,
}

/// The characters of each string.
pub open spec fn texts(v: Seq<String>) -> Seq<Seq<char>> {
    v.map_values(|s: String| s@)
}

/// The characters of an optional string.
pub open spec fn opt_text(o: Option<String>) -> Option<Seq<char>> {
    match o {
        Some(s) => Some(s@),
        None => None,
    }
}

impl View for BlockSync {
    type V = SyncView;

    open spec fn view(&self) -> SyncView {
        SyncView {
            phase: self.phase,
            hashes: texts(self.hashes@),
            saved: self.result.saved as int,
            saved_blocks: texts(self.result.saved_blocks@),
            skipped: self.result.skipped as int,
            skipped_blocks: texts(self.result.skipped_blocks@),
            error: opt_text(self.result.error),
            outcomes: self.outcomes@,
        }
    }
}

/// The hashes among `hs` whose outcome is `want`, in order.
pub open spec fn select(hs: Seq<Seq<char>>, outcomes: Seq<bool>, want: bool) -> Seq<Seq<char>>
    decreases outcomes.len(),
{
    if outcomes.len() == 0 || hs.len() == 0 {
        Seq::empty()
    } else {
        let prev = select(hs.drop_last(), outcomes.drop_last(), want);
        if outcomes.last() == want {
            prev.push(hs.last())
        } else {
            prev
        }
    }
}

/// How many blocks a run has dealt with.
pub open spec fn processed(v: SyncView) -> int {
    match v.phase {
        SyncPhase::Fetching => 0,
        SyncPhase::Checking(i) => i as int,
        SyncPhase::Saving(i) => i as int,
        SyncPhase::Finished => v.outcomes.len() as int,
    }
}

/// The consistency of a run: the processed blocks are split, in order,
/// between the saved and the skipped ones, the counts are the lengths of
/// the lists, and nothing has happened before the blocks are known.
pub open spec fn sync_wf(v: SyncView) -> bool {
    &&& v.outcomes.len() == processed(v)
    &&& processed(v) <= v.hashes.len() <= usize::MAX
    &&& (v.phase matches SyncPhase::Checking(i) ==> i < v.hashes.len())
    &&& (v.phase matches SyncPhase::Saving(i) ==> i < v.hashes.len())
    &&& v.saved == v.saved_blocks.len()
    &&& v.skipped == v.skipped_blocks.len()
    &&& v.saved_blocks == select(v.hashes.take(processed(v)), v.outcomes, true)
    &&& v.skipped_blocks == select(v.hashes.take(processed(v)), v.outcomes, false)
    &&& (v.phase == SyncPhase::Fetching ==> v.hashes.len() == 0 && v.error is None)
    &&& (v.phase != SyncPhase::Finished ==> v.error is None)
}

/// Block `i` has been dealt with (saved when `was_new`): the next block, or
/// the end of the run.
pub open spec fn advanced(v: SyncView, i: usize, was_new: bool) -> SyncView {
    let h = v.hashes[i as int];
    let v2 = if was_new {
        SyncView {
            saved: v.saved + 1,
            saved_blocks: v.saved_blocks.push(h),
            outcomes: v.outcomes.push(true),
            ..v
        }
    } else {
        SyncView {
            skipped: v.skipped + 1,
            skipped_blocks: v.skipped_blocks.push(h),
            outcomes: v.outcomes.push(false),
            ..v
        }
    };
    if i + 1 < v.hashes.len() {
        SyncView { phase: SyncPhase::Checking((i + 1) as usize), ..v2 }
    } else {
        SyncView { phase: SyncPhase::Finished, ..v2 }
    }
}

/// The run ends with an error.
pub open spec fn failed(v: SyncView, msg: Seq<char>) -> SyncView {
    SyncView { phase: SyncPhase::Finished, error: Some(msg), ..v }
}

/// The state after an event.
pub open spec fn sync_next(v: SyncView, e: SyncEvent) -> SyncView {
    match v.phase {
        SyncPhase::Fetching => match e {
            SyncEvent::BlocksFetched(hs) => if hs@.len() == 0 {
                SyncView { phase: SyncPhase::Finished, hashes: texts(hs@), ..v }
            } else {
                SyncView { phase: SyncPhase::Checking(0), hashes: texts(hs@), ..v }
            },
            SyncEvent::FetchFailed(msg) => failed(v, msg@),
            _ => v,
        },
        SyncPhase::Checking(i) => match e {
            SyncEvent::Found => advanced(v, i, false),
            SyncEvent::NotFound => SyncView { phase: SyncPhase::Saving(i), ..v },
            SyncEvent::LookupFailed(msg) => failed(v, msg@),
            _ => v,
        },
        SyncPhase::Saving(i) => match e {
            SyncEvent::Saved => advanced(v, i, true),
            SyncEvent::SaveFailed(msg) => failed(v, msg@),
            _ => v,
        },
        SyncPhase::Finished => v,
    }
}

/// The action that follows a state: the next lookup or write, or the log
/// update that ends the run.
pub open spec fn action_after(before: SyncView, after: SyncView) -> SyncAction {
    if before == after {
        SyncAction::Nothing
    } else {
        match after.phase {
            SyncPhase::Fetching => SyncAction::FetchBlocks,
            SyncPhase::Checking(i) => SyncAction::LookUp(i),
            SyncPhase::Saving(i) => SyncAction::Save(i),
            SyncPhase::Finished => if after.error is Some {
                SyncAction::RecordFailure
            } else {
                SyncAction::RecordSuccess
            },
        }
    }
}

proof fn lemma_select_push(hs: Seq<Seq<char>>, outcomes: Seq<bool>, h: Seq<char>, b: bool, want: bool)
    requires
        hs.len() == outcomes.len(),
    ensures
        select(hs.push(h), outcomes.push(b), want) == if b == want {
            select(hs, outcomes, want).push(h)
        } else {
            select(hs, outcomes, want)
        },
{
    assert(hs.push(h).drop_last() =~= hs);
    assert(outcomes.push(b).drop_last() =~= outcomes);
}

/// The processed blocks are exactly split between the saved and the
/// skipped ones: the counts add up to the number processed.
pub proof fn lemma_select_splits(hs: Seq<Seq<char>>, outcomes: Seq<bool>)
    requires
        hs.len() == outcomes.len(),
    ensures
        select(hs, outcomes, true).len() + select(hs, outcomes, false).len() == hs.len(),
    decreases outcomes.len(),
{
    if outcomes.len() > 0 {
        lemma_select_splits(hs.drop_last(), outcomes.drop_last());
    }
}

impl BlockSync {
    /// A new run, which first asks the node for the blocks.
    pub fn start() -> (r: (BlockSync, SyncAction))
        ensures
            sync_wf(r.0@),
            r.0@.phase == SyncPhase::Fetching,
            r.0@.saved_blocks.len() == 0,
            r.0@.skipped_blocks.len() == 0,
            r.1 == SyncAction::FetchBlocks,
    {
        let s = BlockSync {
            phase: SyncPhase::Fetching,
            hashes: Vec::new(),
            result: SyncResult::empty(),
            outcomes: Ghost(Seq::empty()),
        };
        assert(s@.hashes =~= Seq::<Seq<char>>::empty());
        assert(s@.saved_blocks =~= Seq::<Seq<char>>::empty());
        assert(s@.skipped_blocks =~= Seq::<Seq<char>>::empty());
        (s, SyncAction::FetchBlocks)
    }

    fn advance(&mut self, i: usize, was_new: bool)
        requires
            sync_wf(old(self)@),
            old(self)@.phase == SyncPhase::Checking(i) || old(self)@.phase == SyncPhase::Saving(i),
        ensures
            final(self)@ == advanced(old(self)@, i, was_new),
    {
        proof {
            lemma_sync_counts(self@);
            assert(self@.hashes.len() == self.hashes@.len());
        }
        let h = self.hashes[i].clone();
        let ghost prev = self.outcomes@;
        if was_new {
            self.result.saved = self.result.saved + 1;
            self.result.saved_blocks.push(h);
            self.outcomes = Ghost(prev.push(true));
        } else {
            self.result.skipped = self.result.skipped + 1;
            self.result.skipped_blocks.push(h);
            self.outcomes = Ghost(prev.push(false));
        }
        assert(texts(self.result.saved_blocks@) =~= advanced(old(self)@, i, was_new).saved_blocks);
        assert(texts(self.result.skipped_blocks@) =~= advanced(old(self)@, i, was_new).skipped_blocks);
        if i + 1 < self.hashes.len() {
            self.phase = SyncPhase::Checking(i + 1);
        } else {
            self.phase = SyncPhase::Finished;
        }
    }

    /// Takes the driver's report and says what to do next (see
    /// [`sync_next`], [`action_after`]); the run stays consistent.
    pub fn step(&mut self, e: SyncEvent) -> (a: SyncAction)
        requires
            sync_wf(old(self)@),
        ensures
            final(self)@ == sync_next(old(self)@, e),
            a == action_after(old(self)@, final(self)@),
            sync_wf(final(self)@),
    {
        let ghost before = self@;
        match self.phase {
            SyncPhase::Fetching => match e {
                SyncEvent::BlocksFetched(hs) => {
                    let ghost hv = hs@;
                    let empty = hs.len() == 0;
                    self.hashes = hs;
                    if empty {
                        self.phase = SyncPhase::Finished;
                    } else {
                        self.phase = SyncPhase::Checking(0);
                    }
                    proof {
                        let v = self@;
                        assert(v.hashes.take(0) =~= Seq::<Seq<char>>::empty());
                        assert(v != before);
                        if !empty {
                            assert(v.hashes.len() > 0);
                        }
                    }
                    if empty {
                        SyncAction::RecordSuccess
                    } else {
                        SyncAction::LookUp(0)
                    }
                },
                SyncEvent::FetchFailed(msg) => {
                    self.result.error = Some(msg);
                    self.phase = SyncPhase::Finished;
                    SyncAction::RecordFailure
                },
                _ => SyncAction::Nothing,
            },
            SyncPhase::Checking(i) => match e {
                SyncEvent::Found => {
                    self.advance(i, false);
                    proof {
                        self.lemma_advanced_wf(before, i, false);
                    }
                    proof {
                        assert(self@.hashes.len() == self.hashes@.len());
                    }
                    if i + 1 < self.hashes.len() {
                        SyncAction::LookUp(i + 1)
                    } else {
                        SyncAction::RecordSuccess
                    }
                },
                SyncEvent::NotFound => {
                    self.phase = SyncPhase::Saving(i);
                    SyncAction::Save(i)
                },
                SyncEvent::LookupFailed(msg) => {
                    self.result.error = Some(msg);
                    self.phase = SyncPhase::Finished;
                    SyncAction::RecordFailure
                },
                _ => SyncAction::Nothing,
            },
            SyncPhase::Saving(i) => match e {
                SyncEvent::Saved => {
                    self.advance(i, true);
                    proof {
                        self.lemma_advanced_wf(before, i, true);
                    }
                    proof {
                        assert(self@.hashes.len() == self.hashes@.len());
                    }
                    if i + 1 < self.hashes.len() {
                        SyncAction::LookUp(i + 1)
                    } else {
                        SyncAction::RecordSuccess
                    }
                },
                SyncEvent::SaveFailed(msg) => {
                    self.result.error = Some(msg);
                    self.phase = SyncPhase::Finished;
                    SyncAction::RecordFailure
                },
                _ => SyncAction::Nothing,
            },
            SyncPhase::Finished => SyncAction::Nothing,
        }
    }

    proof fn lemma_advanced_wf(&self, before: SyncView, i: usize, was_new: bool)
        requires
            sync_wf(before),
            before.phase == SyncPhase::Checking(i) || before.phase == SyncPhase::Saving(i),
            self@ == advanced(before, i, was_new),
        ensures
            sync_wf(self@),
            self@ != before,
    {
        let v = self@;
        assert(before.hashes.take(i as int).push(before.hashes[i as int]) =~= v.hashes.take(
            i + 1,
        ));
        lemma_select_push(before.hashes.take(i as int), before.outcomes, before.hashes[i as int], was_new, true);
        lemma_select_push(before.hashes.take(i as int), before.outcomes, before.hashes[i as int], was_new, false);
        assert(v.outcomes.len() != before.outcomes.len());
    }
}

/// Whatever happens, a run stays consistent, and once finished it stays
/// finished; it ends with an error exactly when the node, a lookup or a
/// write failed.
pub proof fn lemma_sync_step_laws(v: SyncView, e: SyncEvent)
    requires
        sync_wf(v),
        e matches SyncEvent::BlocksFetched(hs) ==> hs@.len() <= usize::MAX,
    ensures
        sync_wf(sync_next(v, e)),
        v.phase == SyncPhase::Finished ==> sync_next(v, e) == v,
        sync_next(v, e).error is Some && v.error is None ==> (match e {
            SyncEvent::FetchFailed(_) => true,
            SyncEvent::LookupFailed(_) => true,
            SyncEvent::SaveFailed(_) => true,
            _ => false,
        }),
{
    match v.phase {
        SyncPhase::Checking(i) => {
            match e {
                SyncEvent::Found => {
                    lemma_advanced_view_wf(v, i, false);
                },
                _ => {},
            }
        },
        SyncPhase::Saving(i) => {
            match e {
                SyncEvent::Saved => {
                    lemma_advanced_view_wf(v, i, true);
                },
                _ => {},
            }
        },
        SyncPhase::Fetching => {
            match e {
                SyncEvent::BlocksFetched(hs) => {
                    assert(texts(hs@).take(0) =~= Seq::<Seq<char>>::empty());
                },
                _ => {},
            }
        },
        _ => {},
    }
}

proof fn lemma_advanced_view_wf(v: SyncView, i: usize, was_new: bool)
    requires
        sync_wf(v),
        v.phase == SyncPhase::Checking(i) || v.phase == SyncPhase::Saving(i),
    ensures
        sync_wf(advanced(v, i, was_new)),
{
    assert(v.hashes.take(i as int).push(v.hashes[i as int]) =~= v.hashes.take(i + 1));
    lemma_select_push(v.hashes.take(i as int), v.outcomes, v.hashes[i as int], was_new, true);
    lemma_select_push(v.hashes.take(i as int), v.outcomes, v.hashes[i as int], was_new, false);
}

/// In a consistent run, the saved and skipped counts add up to the number
/// of blocks dealt with, and never exceed the number of blocks.
pub proof fn lemma_sync_counts(v: SyncView)
    requires
        sync_wf(v),
    ensures
        v.saved + v.skipped == processed(v),
        v.saved + v.skipped <= v.hashes.len(),
{
    lemma_select_splits(v.hashes.take(processed(v)), v.outcomes);
}

} // verus!
