//! When the view starts background parses and what it does with their
//! results. The whole-document parse runs one job at a time, and a result
//! that no longer matches the document is rebased or re-scheduled rather
//! than published stale. Whole-span parses of long joinable blocks run one
//! job per block, at most `MAX_JOINED_PARSE_JOBS` at once across documents.

use vstd::prelude::*;
use std::ops::Range;

verus! {

/// Most whole-span block parses that run at once.
pub const MAX_JOINED_PARSE_JOBS: usize = 2;

/// `range` holds nothing.
pub open spec fn empty_range(range: Range<usize>) -> bool {
    !(range.start < range.end)
}

/// The part of the view's state that governs the whole-document parse:
/// whether a job is running, and the revision and caret disclosure the
/// last background heights were prepared for.
pub struct DocumentParseState {
    pub job_running: bool,
    pub last_background_disclosure: Option<(u64, Range<usize>)>,
}

/// Whether a whole-document parse should start.
pub enum ParseStart {
    /// Nothing calls for one.
    Skip,
    /// One is called for but a job is already running; its completion
    /// schedules again.
    Busy,
    /// A job starts now.
    Start,
}

/// A non-empty disclosure that the last background heights were not
/// prepared for at this revision calls for fresh heights.
pub open spec fn disclosure_refresh(
    revision: u64,
    disclosure: Option<Range<usize>>,
    last: Option<(u64, Range<usize>)>,
) -> bool {
    disclosure matches Some(d) && !empty_range(d) && last != Some((revision, d))
}

/// An empty disclosure after heights prepared for a non-empty one at this
/// revision calls for fresh heights too.
pub open spec fn disclosure_collapse(
    revision: u64,
    disclosure: Option<Range<usize>>,
    last: Option<(u64, Range<usize>)>,
) -> bool {
    &&& disclosure matches Some(d) && empty_range(d)
    &&& last matches Some(l) && l.0 == revision && !empty_range(l.1)
}

/// How a finished whole-document parse is used.
pub enum ParseCompletion {
    /// The snapshot is for another document or line height: drop it and
    /// schedule again.
    Reschedule,
    /// Publish the index and install the prepared heights as they are.
    Install,
    /// Publish the index; the selection changed while the job ran, so update
    /// the caret's block now and take another snapshot.
    RetrySnapshot,
    /// Publish the index; the caret moved between two empty disclosures, so
    /// only the caret's block is updated.
    BoundedUpdate,
    /// Publish the index and recompute heights for the current disclosure.
    Resync,
}

/// The case split of a finished whole-document parse.
pub open spec fn completion_of(
    same_document: bool,
    line_height_matches: bool,
    revision_current: bool,
    snapshot_disclosure: Option<Range<usize>>,
    current_disclosure: Option<Range<usize>>,
    block_granularity: bool,
    heights_len_matches: bool,
) -> ParseCompletion {
    if !same_document || !line_height_matches {
        ParseCompletion::Reschedule
    } else if revision_current && current_disclosure == snapshot_disclosure && block_granularity
        && heights_len_matches {
        ParseCompletion::Install
    } else if current_disclosure != snapshot_disclosure && ((current_disclosure matches Some(d)
        && !empty_range(d)) || (snapshot_disclosure matches Some(d) && !empty_range(d))) {
        ParseCompletion::RetrySnapshot
    } else if current_disclosure != snapshot_disclosure {
        ParseCompletion::BoundedUpdate
    } else {
        ParseCompletion::Resync
    }
}

fn range_is_empty(range: &Range<usize>) -> (r: bool)
    ensures
        r == empty_range(*range),
{
    !(range.start < range.end)
}

fn same_range(a: &Range<usize>, b: &Range<usize>) -> (r: bool)
    ensures
        r == (*a == *b),
{
    a.start == b.start && a.end == b.end
}

fn same_disclosure(a: &Option<Range<usize>>, b: &Option<Range<usize>>) -> (r: bool)
    ensures
        r == (*a == *b),
{
    match (a, b) {
        (Some(a), Some(b)) => same_range(a, b),
        (None, None) => true,
        _ => false,
    }
}

impl DocumentParseState {
    /// No job running and no background heights yet.
    pub fn new() -> (r: Self)
        ensures
            !r.job_running,
            r.last_background_disclosure is None,
    {
        DocumentParseState { job_running: false, last_background_disclosure: None }
    }

    /// Decides whether a whole-document parse starts, at document
    /// `revision` with the caret's current `disclosure`. A start is called
    /// for when the index needs a formal parse, or the disclosure needs
    /// fresh background heights; it happens only when no job is running,
    /// and then the job is marked running and the disclosure remembered.
    pub fn start(
        &mut self,
        needs_formal_parse: bool,
        revision: u64,
        disclosure: Option<Range<usize>>,
    ) -> (r: ParseStart)
        ensures
            ({
                let called_for = needs_formal_parse || disclosure_refresh(
                    revision,
                    disclosure,
                    old(self).last_background_disclosure,
                ) || disclosure_collapse(revision, disclosure, old(self).last_background_disclosure);
                &&& !called_for ==> r is Skip
                &&& called_for && old(self).job_running ==> r is Busy
                &&& called_for && !old(self).job_running ==> r is Start
            }),
            r is Start ==> !old(self).job_running,
            !(r is Start) ==> *final(self) == *old(self),
            r is Start ==> final(self).job_running && final(self).last_background_disclosure == (
            match disclosure {
                Some(d) => Some((revision, d)),
                None => old(self).last_background_disclosure,
            }),
    {
        let refresh = match &disclosure {
            Some(d) => !range_is_empty(d) && match &self.last_background_disclosure {
                Some((last_revision, last)) => !(*last_revision == revision && same_range(last, d)),
                None => true,
            },
            None => false,
        };
        let collapse = match &disclosure {
            Some(d) => range_is_empty(d) && match &self.last_background_disclosure {
                Some((last_revision, last)) => *last_revision == revision && !range_is_empty(last),
                None => false,
            },
            None => false,
        };
        if !needs_formal_parse && !refresh && !collapse {
            return ParseStart::Skip;
        }
        if self.job_running {
            return ParseStart::Busy;
        }
        self.job_running = true;
        if let Some(d) = disclosure {
            self.last_background_disclosure = Some((revision, d));
        }
        ParseStart::Start
    }

    /// Before the expensive part of a job: it goes on only while the view
    /// still shows the same document, at the same revision and line height;
    /// otherwise the job ends here (and is scheduled again).
    pub fn proceed(
        &mut self,
        same_document: bool,
        revision_current: bool,
        line_height_matches: bool,
    ) -> (r: bool)
        ensures
            r == (same_document && revision_current && line_height_matches),
            r ==> *final(self) == *old(self),
            !r ==> !final(self).job_running && final(self).last_background_disclosure == old(
                self,
            ).last_background_disclosure,
    {
        if same_document && revision_current && line_height_matches {
            true
        } else {
            self.job_running = false;
            false
        }
    }

    /// A job's result is back: the job is no longer running, and the result
    /// is used as `completion_of` says. Installed heights remember the
    /// revision and disclosure they were prepared for.
    pub fn complete(
        &mut self,
        revision: u64,
        same_document: bool,
        line_height_matches: bool,
        revision_current: bool,
        snapshot_disclosure: Option<Range<usize>>,
        current_disclosure: Option<Range<usize>>,
        block_granularity: bool,
        heights_len_matches: bool,
    ) -> (r: ParseCompletion)
        ensures
            r == completion_of(
                same_document,
                line_height_matches,
                revision_current,
                snapshot_disclosure,
                current_disclosure,
                block_granularity,
                heights_len_matches,
            ),
            !final(self).job_running,
            final(self).last_background_disclosure == if r is Install {
                match snapshot_disclosure {
                    Some(d) => Some((revision, d)),
                    None => old(self).last_background_disclosure,
                }
            } else {
                old(self).last_background_disclosure
            },
    {
        self.job_running = false;
        let r = document_parse_completion(
            same_document,
            line_height_matches,
            revision_current,
            &snapshot_disclosure,
            &current_disclosure,
            block_granularity,
            heights_len_matches,
        );
        if let ParseCompletion::Install = r {
            if let Some(d) = snapshot_disclosure {
                self.last_background_disclosure = Some((revision, d));
            }
        }
        r
    }
}

/// How a finished whole-document parse is used.
pub fn document_parse_completion(
    same_document: bool,
    line_height_matches: bool,
    revision_current: bool,
    snapshot_disclosure: &Option<Range<usize>>,
    current_disclosure: &Option<Range<usize>>,
    block_granularity: bool,
    heights_len_matches: bool,
) -> (r: ParseCompletion)
    ensures
        r == completion_of(
            same_document,
            line_height_matches,
            revision_current,
            *snapshot_disclosure,
            *current_disclosure,
            block_granularity,
            heights_len_matches,
        ),
{
    if !same_document || !line_height_matches {
        return ParseCompletion::Reschedule;
    }
    let same = same_disclosure(snapshot_disclosure, current_disclosure);
    if revision_current && same && block_granularity && heights_len_matches {
        return ParseCompletion::Install;
    }
    let current_open = match current_disclosure {
        Some(d) => !range_is_empty(d),
        None => false,
    };
    let snapshot_open = match snapshot_disclosure {
        Some(d) => !range_is_empty(d),
        None => false,
    };
    if !same && (current_open || snapshot_open) {
        ParseCompletion::RetrySnapshot
    } else if !same {
        ParseCompletion::BoundedUpdate
    } else {
        ParseCompletion::Resync
    }
}

/// A block the viewport shows, as the joined-parse scheduler sees it.
#[derive(Clone, Copy, Debug, PartialEq, Eq, Structural)]
pub struct JoinCandidate {
    /// Its kind joins lines into one span (a paragraph, a quote, ...).
    pub joinable: bool,
    /// Its source lines could be found.
    pub has_span: bool,
    /// It is short enough to parse synchronously.
    pub fits_sync_budget: bool,
    /// A job for it is already running.
    pub job_running: bool,
    /// A parse of it at the current revision and range is cached.
    pub cache_current: bool,
}

/// A block needs a background whole-span parse.
pub open spec fn needs_joined_parse(c: JoinCandidate) -> bool {
    c.joinable && c.has_span && !c.fits_sync_budget && !c.job_running && !c.cache_current
}

/// Indices of the candidates from `i` on that get a job, with `free` slots
/// left: each candidate in order that needs one, until the slots run out.
pub open spec fn chosen_jobs(c: Seq<JoinCandidate>, i: int, free: int) -> Seq<int>
    decreases c.len() - i,
{
    if i >= c.len() || free <= 0 || i < 0 {
        Seq::empty()
    } else if needs_joined_parse(c[i]) {
        seq![i] + chosen_jobs(c, i + 1, free - 1)
    } else {
        chosen_jobs(c, i + 1, free)
    }
}

/// Which of the visible blocks get a whole-span parse job now, with
/// `running` jobs already charged.
pub fn joined_parse_jobs_to_start(running: usize, candidates: &Vec<JoinCandidate>) -> (r: Vec<
    usize,
>)
    requires
        running <= MAX_JOINED_PARSE_JOBS,
    ensures
        r@.map_values(|i: usize| i as int) == chosen_jobs(
            candidates@,
            0,
            MAX_JOINED_PARSE_JOBS - running,
        ),
{
    let mut r: Vec<usize> = Vec::new();
    let mut started: usize = 0;
    let mut i: usize = 0;
    while i < candidates.len()
        invariant
            i <= candidates.len(),
            running + started <= MAX_JOINED_PARSE_JOBS,
            r@.map_values(|k: usize| k as int) + chosen_jobs(
                candidates@,
                i as int,
                MAX_JOINED_PARSE_JOBS - running - started,
            ) == chosen_jobs(candidates@, 0, MAX_JOINED_PARSE_JOBS - running),
        ensures
            i <= candidates.len(),
            running + started <= MAX_JOINED_PARSE_JOBS,
            i == candidates.len() || running + started == MAX_JOINED_PARSE_JOBS,
            r@.map_values(|k: usize| k as int) + chosen_jobs(
                candidates@,
                i as int,
                MAX_JOINED_PARSE_JOBS - running - started,
            ) == chosen_jobs(candidates@, 0, MAX_JOINED_PARSE_JOBS - running),
        decreases candidates.len() - i,
    {
        if running + started >= MAX_JOINED_PARSE_JOBS {
            break;
        }
        let c = candidates[i];
        if c.joinable && c.has_span && !c.fits_sync_budget && !c.job_running && !c.cache_current {
            let ghost before = r@;
            r.push(i);
            proof {
                assert(r@.map_values(|k: usize| k as int) =~= before.map_values(|k: usize| k as int)
                    + seq![i as int]);
                assert(seq![i as int] + chosen_jobs(
                    candidates@,
                    i + 1,
                    MAX_JOINED_PARSE_JOBS - running - started - 1,
                ) =~= chosen_jobs(candidates@, i as int, MAX_JOINED_PARSE_JOBS - running - started));
            }
            started = started + 1;
        }
        i = i + 1;
    }
    proof {
        let rest = chosen_jobs(
            candidates@,
            i as int,
            MAX_JOINED_PARSE_JOBS - running - started,
        );
        assert(rest =~= Seq::<int>::empty());
        assert(r@.map_values(|k: usize| k as int) + rest =~= r@.map_values(|k: usize| k as int));
    }
    r
}

/// The jobs chosen never exceed the free slots, come in increasing order,
/// and each is for a block that needs one.
pub proof fn law_joined_jobs_are_bounded(c: Seq<JoinCandidate>, i: int, free: int)
    requires
        0 <= i,
    ensures
        chosen_jobs(c, i, free).len() <= if free > 0 {
            free
        } else {
            0
        },
        forall|k: int|
            0 <= k < chosen_jobs(c, i, free).len() ==> i <= #[trigger] chosen_jobs(c, i, free)[k]
                < c.len() && needs_joined_parse(c[chosen_jobs(c, i, free)[k]]),
        forall|k: int, m: int|
            0 <= k < m < chosen_jobs(c, i, free).len() ==> #[trigger] chosen_jobs(c, i, free)[k]
                < #[trigger] chosen_jobs(c, i, free)[m],
    decreases c.len() - i,
{
    if i < c.len() && free > 0 {
        law_joined_jobs_are_bounded(c, i + 1, free - 1);
        law_joined_jobs_are_bounded(c, i + 1, free);
        if needs_joined_parse(c[i]) {
            let rest = chosen_jobs(c, i + 1, free - 1);
            assert(chosen_jobs(c, i, free) == seq![i] + rest);
            assert forall|k: int, m: int|
                0 <= k < m < chosen_jobs(c, i, free).len() implies #[trigger] chosen_jobs(
                c,
                i,
                free,
            )[k] < #[trigger] chosen_jobs(c, i, free)[m] by {
                if k > 0 {
                    assert(chosen_jobs(c, i, free)[k] == rest[k - 1]);
                }
                assert(chosen_jobs(c, i, free)[m] == rest[m - 1]);
            }
            assert forall|k: int| 0 <= k < chosen_jobs(c, i, free).len() implies i
                <= #[trigger] chosen_jobs(c, i, free)[k] < c.len() && needs_joined_parse(
                c[chosen_jobs(c, i, free)[k]],
            ) by {
                if k > 0 {
                    assert(chosen_jobs(c, i, free)[k] == rest[k - 1]);
                }
            }
        }
    }
}

/// What becomes of a finished whole-span parse.
pub enum JoinedParseOutcome {
    /// The job was for another document or has been replaced: leave the
    /// current job record alone.
    Stale,
    /// The job is done, but the document or the block changed: drop the
    /// result.
    Dropped,
    /// Cache the result for the block.
    Cache,
}

/// A finished whole-span parse: its slot is always released; its result is
/// cached only when the view still shows its document, the job record is
/// still this job, the revision is unchanged and the current index still
/// has the same block at the same range.
pub fn joined_parse_outcome(
    same_document: bool,
    job_matches: bool,
    revision_current: bool,
    block_matches: bool,
) -> (r: JoinedParseOutcome)
    ensures
        !(same_document && job_matches) ==> r is Stale,
        same_document && job_matches && !(revision_current && block_matches) ==> r is Dropped,
        same_document && job_matches && revision_current && block_matches ==> r is Cache,
{
    if !same_document || !job_matches {
        JoinedParseOutcome::Stale
    } else if !revision_current || !block_matches {
        JoinedParseOutcome::Dropped
    } else {
        JoinedParseOutcome::Cache
    }
}

/// Whether a finished whole-span parse is cached.
pub fn accept_joined_parse(
    same_document: bool,
    job_matches: bool,
    revision_current: bool,
    block_matches: bool,
) -> (r: bool)
    ensures
        r == (same_document && job_matches && revision_current && block_matches),
{
    match joined_parse_outcome(same_document, job_matches, revision_current, block_matches) {
        JoinedParseOutcome::Cache => true,
        _ => false,
    }
}

/// A finished parse of the still-shown document at the right line height
/// that is not installed retries in a fresh snapshot whenever the caret's
/// disclosure changed while it ran and either the new or the old disclosure
/// is a non-empty range; when both are carets that merely moved, only the
/// caret's block is updated; when nothing changed, heights are resynced.
pub proof fn law_changed_selection_retries_the_snapshot(
    revision_current: bool,
    snapshot_disclosure: Option<Range<usize>>,
    current_disclosure: Option<Range<usize>>,
    block_granularity: bool,
    heights_len_matches: bool,
)
    ensures
        ({
            let r = completion_of(
                true,
                true,
                revision_current,
                snapshot_disclosure,
                current_disclosure,
                block_granularity,
                heights_len_matches,
            );
            let open_now = current_disclosure matches Some(d) && d.start < d.end;
            let open_before = snapshot_disclosure matches Some(d) && d.start < d.end;
            &&& current_disclosure != snapshot_disclosure && (open_now || open_before)
                ==> r is RetrySnapshot
            &&& current_disclosure != snapshot_disclosure && !open_now && !open_before
                ==> r is BoundedUpdate
            &&& current_disclosure == snapshot_disclosure && revision_current && block_granularity
                && heights_len_matches ==> r is Install
            &&& current_disclosure == snapshot_disclosure && !(revision_current
                && block_granularity && heights_len_matches) ==> r is Resync
        }),
        forall|same_document: bool, line_height_matches: bool|
            !(same_document && line_height_matches) ==> #[trigger] completion_of(
                same_document,
                line_height_matches,
                revision_current,
                snapshot_disclosure,
                current_disclosure,
                block_granularity,
                heights_len_matches,
            ) is Reschedule,
{
}

/// No job is chosen for a block that has one running, whose parse is cached,
/// that fits the synchronous budget, that does not join lines or whose
/// lines were not found; and while slots remain, no block that needs a job
/// is passed over.
pub proof fn law_joined_jobs_skip_blocks_that_do_not_need_one(
    c: Seq<JoinCandidate>,
    i: int,
    free: int,
)
    requires
        0 <= i,
    ensures
        forall|k: int|
            0 <= k < chosen_jobs(c, i, free).len() ==> {
                let b = c[#[trigger] chosen_jobs(c, i, free)[k]];
                &&& !b.job_running
                &&& !b.cache_current
                &&& !b.fits_sync_budget
                &&& b.joinable
                &&& b.has_span
            },
        chosen_jobs(c, i, free).len() < free ==> forall|j: int|
            i <= j < c.len() && c[j].joinable && c[j].has_span && !c[j].fits_sync_budget
                && !c[j].job_running && !c[j].cache_current ==> chosen_jobs(c, i, free).contains(j),
    decreases c.len() - i,
{
    law_joined_jobs_are_bounded(c, i, free);
    if i < c.len() && free > 0 {
        law_joined_jobs_skip_blocks_that_do_not_need_one(c, i + 1, free - 1);
        law_joined_jobs_skip_blocks_that_do_not_need_one(c, i + 1, free);
        let all = chosen_jobs(c, i, free);
        if needs_joined_parse(c[i]) {
            let rest = chosen_jobs(c, i + 1, free - 1);
            assert(all == seq![i] + rest);
            if all.len() < free {
                assert(rest.len() < free - 1);
                assert forall|j: int|
                    i <= j < c.len() && c[j].joinable && c[j].has_span && !c[j].fits_sync_budget
                        && !c[j].job_running && !c[j].cache_current implies all.contains(j) by {
                    if j == i {
                        assert(all[0] == i);
                    } else {
                        assert(rest.contains(j));
                        let k = choose|k: int| 0 <= k < rest.len() && rest[k] == j;
                        assert(all[k + 1] == rest[k]);
                    }
                }
            }
        } else {
            let rest = chosen_jobs(c, i + 1, free);
            assert(all == rest);
            if all.len() < free {
                assert forall|j: int|
                    i <= j < c.len() && c[j].joinable && c[j].has_span && !c[j].fits_sync_budget
                        && !c[j].job_running && !c[j].cache_current implies all.contains(j) by {
                    if j == i {
                        assert(needs_joined_parse(c[i]));
                    } else {
                        assert(rest.contains(j));
                    }
                }
            }
        }
    }
}

/// Fresh heights are called for by a non-empty disclosure unless the last
/// background heights were prepared for exactly it at this revision, and by
/// an empty one right after a non-empty one at this revision; nothing else
/// about the disclosure calls for them.
pub proof fn law_disclosures_that_call_for_heights(
    revision: u64,
    d: Range<usize>,
    last: Option<(u64, Range<usize>)>,
)
    ensures
        !disclosure_refresh(revision, None, last) && !disclosure_collapse(revision, None, last),
        disclosure_refresh(revision, Some(d), last) <==> (d.start < d.end && last != Some(
            (revision, d),
        )),
        disclosure_collapse(revision, Some(d), last) <==> (d.end <= d.start && (last matches Some(
            l,
        ) && l.0 == revision && l.1.start < l.1.end)),
{
}

} // verus!
