//! The decisions of a job between probe and assembly: what the probe changes
//! in the job state, which ranges are planned, which are fetched, and what
//! the outcomes of the fetches make of the range map.
//!
//! The range map is a list of ranges in which no id occurs twice; a range
//! that is put under an id that is already there takes the place of the old
//! one.

use vstd::prelude::*;
use crate::planner::{create_pieces, is_fresh, is_plan, new_piece, spans_of, Span};
use crate::types::{DownloadError, DownloaderState, Piece, ProbeResult, SegmentState};

verus! {

/// The position of the first range with the id `id`, or the number of
/// ranges if there is none.
pub open spec fn id_index(pieces: Seq<Piece>, id: Seq<char>) -> int
    decreases pieces.len(),
{
    if pieces.len() == 0 {
        0
    } else if pieces[0].id@ == id {
        0
    } else {
        1 + id_index(pieces.drop_first(), id)
    }
}

/// What `id_index` gives is the first range with the id.
pub proof fn lemma_id_index(pieces: Seq<Piece>, id: Seq<char>)
    ensures
        0 <= id_index(pieces, id) <= pieces.len(),
        id_index(pieces, id) < pieces.len() ==> pieces[id_index(pieces, id)].id@ == id,
        forall|k: int| 0 <= k < id_index(pieces, id) ==> (#[trigger] pieces[k]).id@ != id,
    decreases pieces.len(),
{
    if pieces.len() > 0 && pieces[0].id@ != id {
        let rest = pieces.drop_first();
        lemma_id_index(rest, id);
        assert forall|k: int| 0 <= k < id_index(pieces, id) implies (#[trigger] pieces[k]).id@
            != id by {
            if k > 0 {
                assert(rest[k - 1] == pieces[k]);
            }
        }
    }
}

/// Whether no id occurs twice among the ranges.
pub open spec fn ids_distinct(pieces: Seq<Piece>) -> bool {
    forall|i: int, j: int|
        0 <= i < pieces.len() && 0 <= j < pieces.len() && i != j ==> (#[trigger] pieces[i]).id@
            != (#[trigger] pieces[j]).id@
}

/// The map after `piece` has been put into it: in the place of the range
/// with the same id, or at the end where there was none.
pub open spec fn put(pieces: Seq<Piece>, piece: Piece) -> Seq<Piece> {
    let at = id_index(pieces, piece.id@);
    if at < pieces.len() {
        pieces.update(at, piece)
    } else {
        pieces.push(piece)
    }
}

/// The map after each of `more` has been put into it, in order.
pub open spec fn put_all(pieces: Seq<Piece>, more: Seq<Piece>) -> Seq<Piece>
    decreases more.len(),
{
    if more.len() == 0 {
        pieces
    } else {
        put(put_all(pieces, more.drop_last()), more.last())
    }
}

fn find_id(map: &Vec<Piece>, id: &String) -> (at: usize)
    ensures
        at == id_index(map@, id@),
        at <= map.len(),
{
    let mut i: usize = 0;
    proof {
        lemma_id_index(map@, id@);
    }
    while i < map.len()
        invariant
            i <= map.len(),
            forall|k: int| 0 <= k < i ==> (#[trigger] map[k]).id@ != id@,
            0 <= id_index(map@, id@) <= map.len(),
            id_index(map@, id@) < map.len() ==> map[id_index(map@, id@)].id@ == id@,
            forall|k: int| 0 <= k < id_index(map@, id@) ==> (#[trigger] map[k]).id@ != id@,
        decreases map.len() - i,
    {
        if map[i].id == *id {
            return i;
        }
        i = i + 1;
    }
    i
}

/// Putting a range into a map without doubles leaves it without doubles.
pub proof fn lemma_put_keeps_distinct(pieces: Seq<Piece>, piece: Piece)
    requires
        ids_distinct(pieces),
    ensures
        ids_distinct(put(pieces, piece)),
{
    lemma_id_index(pieces, piece.id@);
    let at = id_index(pieces, piece.id@);
    let after = put(pieces, piece);
    assert forall|i: int, j: int|
        0 <= i < after.len() && 0 <= j < after.len() && i != j implies (#[trigger] after[i]).id@
        != (#[trigger] after[j]).id@ by {
        if at < pieces.len() {
            assert(after[i].id@ == pieces[i].id@);
            assert(after[j].id@ == pieces[j].id@);
        } else {
            if i < pieces.len() {
                assert(after[i] == pieces[i]);
            }
            if j < pieces.len() {
                assert(after[j] == pieces[j]);
            }
        }
    }
}

/// Puts `piece` into the map, in the place of the range with the same id
/// if there is one.
pub fn put_piece(map: &mut Vec<Piece>, piece: Piece)
    ensures
        final(map)@ == put(old(map)@, piece),
        ids_distinct(old(map)@) ==> ids_distinct(final(map)@),
{
    proof {
        if ids_distinct(map@) {
            lemma_put_keeps_distinct(map@, piece);
        }
    }
    let at = find_id(map, &piece.id);
    if at < map.len() {
        map.set(at, piece);
    } else {
        map.push(piece);
    }
}

/// Replaces the whole map with the ranges of a new plan.
pub fn store_pieces(map: &mut Vec<Piece>, pieces: Vec<Piece>)
    ensures
        final(map)@ == put_all(Seq::empty(), pieces@),
        ids_distinct(final(map)@),
{
    map.clear();
    let mut i: usize = 0;
    while i < pieces.len()
        invariant
            i <= pieces.len(),
            map@ == put_all(Seq::empty(), pieces@.take(i as int)),
            ids_distinct(map@),
        decreases pieces.len() - i,
    {
        put_piece(map, pieces[i].clone());
        i = i + 1;
        assert(pieces@.take(i as int).drop_last() =~= pieces@.take(i - 1));
    }
    assert(pieces@.take(pieces.len() as int) =~= pieces@);
}

/// A plan whose ids are all different is stored as it is: the map holds
/// every range of the plan, in the order of the plan.
pub proof fn law_distinct_plan_is_stored_whole(pieces: Seq<Piece>)
    requires
        ids_distinct(pieces),
    ensures
        put_all(Seq::empty(), pieces) == pieces,
    decreases pieces.len(),
{
    if pieces.len() > 0 {
        let rest = pieces.drop_last();
        law_distinct_plan_is_stored_whole(rest);
        lemma_id_index(rest, pieces.last().id@);
        let at = id_index(rest, pieces.last().id@);
        if at < rest.len() {
            assert(rest[at] == pieces[at]);
            assert(pieces[at].id@ != pieces[pieces.len() - 1].id@);
        }
        assert(rest.push(pieces.last()) =~= pieces);
    } else {
        assert(pieces =~= Seq::empty());
    }
}

/// The ranges that have not been started, in their order.
pub open spec fn not_started(pieces: Seq<Piece>) -> Seq<Piece>
    decreases pieces.len(),
{
    if pieces.len() == 0 {
        Seq::empty()
    } else if pieces.last().state == SegmentState::NotStarted {
        not_started(pieces.drop_last()).push(pieces.last())
    } else {
        not_started(pieces.drop_last())
    }
}

/// The ranges that a download launches: those that have not been started.
pub fn pending_pieces(map: &Vec<Piece>) -> (pending: Vec<Piece>)
    ensures
        pending@ == not_started(map@),
{
    let mut pending: Vec<Piece> = Vec::new();
    let mut i: usize = 0;
    while i < map.len()
        invariant
            i <= map.len(),
            pending@ == not_started(map@.take(i as int)),
        decreases map.len() - i,
    {
        assert(map@.take(i + 1).drop_last() =~= map@.take(i as int));
        match map[i].state {
            SegmentState::NotStarted => {
                pending.push(map[i].clone());
            },
            _ => {},
        }
        i = i + 1;
    }
    assert(map@.take(map.len() as int) =~= map@);
    pending
}

/// The total that the progress events of a range announce: its length,
/// where that is known.
pub fn progress_total(piece: &Piece) -> (total: Option<u64>)
    ensures
        total == if piece.bounded() {
            Some(piece.length as u64)
        } else {
            None::<u64>
        },
{
    if piece.length > 0 {
        Some(piece.length as u64)
    } else {
        None
    }
}

/// The job state after the probe: the size, the address after redirects
/// and what the origin told about the resource are taken over, and nothing
/// else changes. A size that no `i64` holds counts as unknown.
pub open spec fn after_probe(state: DownloaderState, probe: ProbeResult) -> DownloaderState {
    DownloaderState {
        file_size: match probe.resource_size {
            Some(size) => if size <= i64::MAX {
                size as i64
            } else {
                -1i64
            },
            None => -1i64,
        },
        url: probe.final_uri,
        last_modified: probe.last_modified,
        resumable: probe.resumable,
        attachment_name: probe.attachment_name,
        content_type: probe.content_type,
        ..state
    }
}

/// Commits what the probe learned to the job state.
pub fn apply_probe(state: &mut DownloaderState, probe: ProbeResult)
    ensures
        *final(state) == after_probe(*old(state), probe),
{
    state.file_size = match probe.resource_size {
        Some(size) => if size <= i64::MAX as u64 {
            size as i64
        } else {
            -1
        },
        None => -1,
    };
    state.url = probe.final_uri;
    state.last_modified = probe.last_modified;
    state.resumable = probe.resumable;
    state.attachment_name = probe.attachment_name;
    state.content_type = probe.content_type;
}

/// Whether the ranges of a resource are planned by halving: the origin
/// serves ranges and told a size that an `i64` holds.
pub open spec fn splits(resumable: bool, resource_size: Option<u64>) -> bool {
    resumable && resource_size is Some && resource_size->0 <= i64::MAX
}

/// Plans the ranges of a job from what the probe learned. A resource whose
/// origin serves ranges and whose size is known is split for `connections`
/// connections; any other is fetched as one range of unknown length.
pub fn plan_for_probe(resumable: bool, resource_size: Option<u64>, connections: usize) -> (pieces:
    Vec<Piece>)
    ensures
        forall|i: int| 0 <= i < pieces.len() ==> is_fresh(#[trigger] pieces[i]),
        splits(resumable, resource_size) ==> is_plan(
            spans_of(pieces@),
            resource_size->0 as int,
            connections as int,
        ),
        !splits(resumable, resource_size) ==> spans_of(pieces@) == seq![
            Span { offset: 0, length: -1i64 },
        ],
{
    if resumable {
        if let Some(size) = resource_size {
            return create_pieces(size, connections);
        }
    }
    let mut pieces: Vec<Piece> = Vec::new();
    pieces.push(new_piece(Span { offset: 0, length: -1 }));
    assert(spans_of(pieces@) =~= seq![Span { offset: 0, length: -1i64 }]);
    pieces
}

/// How the fetch of one range ended, as the job sees it.
#[derive(Debug)]
pub enum TaskOutcome {
    /// The fetch succeeded and hands back the range.
    Done(Piece),
    /// The fetch of the range `id` failed with `error`.
    Failed { id: String, error: DownloadError },
    /// The task that fetched the range `id` did not run to its end.
    Aborted { id: String, reason: String },
}

/// The error that an outcome stands for, if it is a failure.
pub open spec fn outcome_error(outcome: TaskOutcome) -> Option<DownloadError> {
    match outcome {
        TaskOutcome::Done(piece) => None,
        TaskOutcome::Failed { id, error } => Some(error),
        TaskOutcome::Aborted { id, reason } => Some(DownloadError::PieceFailed(reason)),
    }
}

/// The error of the first failure among the outcomes that is no
/// cancellation.
pub open spec fn first_serious(outcomes: Seq<TaskOutcome>) -> Option<DownloadError>
    decreases outcomes.len(),
{
    if outcomes.len() == 0 {
        None
    } else {
        match first_serious(outcomes.drop_last()) {
            Some(error) => Some(error),
            None => match outcome_error(outcomes.last()) {
                Some(error) => if error is Cancelled {
                    None
                } else {
                    Some(error)
                },
                None => None,
            },
        }
    }
}

/// Whether at least one of the outcomes is a failure.
pub open spec fn failed_somewhere(outcomes: Seq<TaskOutcome>) -> bool
    decreases outcomes.len(),
{
    outcomes.len() > 0 && (failed_somewhere(outcomes.drop_last()) || outcome_error(
        outcomes.last(),
    ) is Some)
}

/// The error of a download with these outcomes: that of the first failure
/// that is no cancellation; `Cancelled` where every failure is a
/// cancellation; and none where nothing failed.
pub open spec fn first_error(outcomes: Seq<TaskOutcome>) -> Option<DownloadError> {
    match first_serious(outcomes) {
        Some(error) => Some(error),
        None => if failed_somewhere(outcomes) {
            Some(DownloadError::Cancelled)
        } else {
            None
        },
    }
}

/// The map with the range `id`, if it holds one, marked as failed.
pub open spec fn marked_failed(pieces: Seq<Piece>, id: Seq<char>) -> Seq<Piece> {
    let at = id_index(pieces, id);
    if at < pieces.len() {
        pieces.update(at, Piece { state: SegmentState::Failed, ..pieces[at] })
    } else {
        pieces
    }
}

/// The map after one outcome: a range that was fetched takes the place of
/// its earlier self, and a range whose fetch failed is marked as failed.
pub open spec fn settle(pieces: Seq<Piece>, outcome: TaskOutcome) -> Seq<Piece> {
    match outcome {
        TaskOutcome::Done(piece) => put(pieces, piece),
        TaskOutcome::Failed { id, error } => marked_failed(pieces, id@),
        TaskOutcome::Aborted { id, reason } => marked_failed(pieces, id@),
    }
}

/// The map after all the outcomes, taken in order.
pub open spec fn settled(pieces: Seq<Piece>, outcomes: Seq<TaskOutcome>) -> Seq<Piece>
    decreases outcomes.len(),
{
    if outcomes.len() == 0 {
        pieces
    } else {
        settle(settled(pieces, outcomes.drop_last()), outcomes.last())
    }
}

proof fn lemma_mark_keeps_distinct(pieces: Seq<Piece>, id: Seq<char>)
    requires
        ids_distinct(pieces),
    ensures
        ids_distinct(marked_failed(pieces, id)),
{
    lemma_id_index(pieces, id);
    let after = marked_failed(pieces, id);
    assert forall|i: int, j: int|
        0 <= i < after.len() && 0 <= j < after.len() && i != j implies (#[trigger] after[i]).id@
        != (#[trigger] after[j]).id@ by {
        assert(after[i].id@ == pieces[i].id@);
        assert(after[j].id@ == pieces[j].id@);
    }
}

fn mark_failed(map: &mut Vec<Piece>, id: &String)
    ensures
        final(map)@ == marked_failed(old(map)@, id@),
        ids_distinct(old(map)@) ==> ids_distinct(final(map)@),
{
    proof {
        if ids_distinct(map@) {
            lemma_mark_keeps_distinct(map@, id@);
        }
    }
    let at = find_id(map, id);
    if at < map.len() {
        let mut piece = map[at].clone();
        piece.state = SegmentState::Failed;
        map.set(at, piece);
    }
}

/// Takes the outcomes of the fetches into the map, in the order given, and
/// says how the download went: the first failure that is no cancellation
/// is its error, a download in which nothing but cancellations failed is
/// `Cancelled`, and every outcome is taken in whatever came before it.
pub fn reconcile(map: &mut Vec<Piece>, outcomes: &Vec<TaskOutcome>) -> (result: Result<
    (),
    DownloadError,
>)
    ensures
        final(map)@ == settled(old(map)@, outcomes@),
        result == match first_error(outcomes@) {
            Some(error) => Err::<(), DownloadError>(error),
            None => Ok(()),
        },
        ids_distinct(old(map)@) ==> ids_distinct(final(map)@),
{
    let mut serious: Option<DownloadError> = None;
    let mut failed = false;
    let mut i: usize = 0;
    while i < outcomes.len()
        invariant
            i <= outcomes.len(),
            map@ == settled(old(map)@, outcomes@.take(i as int)),
            serious == first_serious(outcomes@.take(i as int)),
            failed == failed_somewhere(outcomes@.take(i as int)),
            ids_distinct(old(map)@) ==> ids_distinct(map@),
        decreases outcomes.len() - i,
    {
        assert(outcomes@.take(i + 1).drop_last() =~= outcomes@.take(i as int));
        assert(outcomes@.take(i + 1).last() == outcomes@[i as int]);
        match &outcomes[i] {
            TaskOutcome::Done(piece) => {
                put_piece(map, piece.clone());
            },
            TaskOutcome::Failed { id, error } => {
                mark_failed(map, id);
                failed = true;
                if serious.is_none() {
                    match error {
                        DownloadError::Cancelled => {},
                        _ => {
                            serious = Some(error.clone());
                        },
                    }
                }
            },
            TaskOutcome::Aborted { id, reason } => {
                mark_failed(map, id);
                failed = true;
                if serious.is_none() {
                    serious = Some(DownloadError::PieceFailed(reason.clone()));
                }
            },
        }
        i = i + 1;
    }
    assert(outcomes@.take(outcomes.len() as int) =~= outcomes@);
    match serious {
        Some(error) => Err(error),
        None => if failed {
            Err(DownloadError::Cancelled)
        } else {
            Ok(())
        },
    }
}

proof fn lemma_settled_successes(pieces: Seq<Piece>, outcomes: Seq<TaskOutcome>)
    requires
        ids_distinct(pieces),
        forall|k: int|
            0 <= k < outcomes.len() ==> (#[trigger] outcomes[k]) is Done && id_index(
                pieces,
                outcomes[k]->Done_0.id@,
            ) < pieces.len(),
    ensures
        settled(pieces, outcomes).len() == pieces.len(),
        ids_distinct(settled(pieces, outcomes)),
        forall|i: int|
            0 <= i < pieces.len() ==> (#[trigger] settled(pieces, outcomes)[i]).id@
                == pieces[i].id@,
        forall|i: int|
            0 <= i < pieces.len() ==> {
                ||| (#[trigger] settled(pieces, outcomes)[i]) == pieces[i] && forall|k: int|
                    0 <= k < outcomes.len() ==> (#[trigger] outcomes[k])->Done_0.id@
                        != pieces[i].id@
                ||| exists|k: int|
                    0 <= k < outcomes.len() && (#[trigger] outcomes[k])->Done_0 == settled(
                        pieces,
                        outcomes,
                    )[i]
            },
    decreases outcomes.len(),
{
    if outcomes.len() > 0 {
        let earlier = outcomes.drop_last();
        assert forall|k: int| 0 <= k < earlier.len() implies (#[trigger] earlier[k]) is Done
            && id_index(pieces, earlier[k]->Done_0.id@) < pieces.len() by {
            assert(earlier[k] == outcomes[k]);
        }
        lemma_settled_successes(pieces, earlier);
        let before = settled(pieces, earlier);
        let last = outcomes[outcomes.len() - 1];
        let piece = last->Done_0;
        let after = settled(pieces, outcomes);
        assert(after == put(before, piece));
        lemma_id_index(pieces, piece.id@);
        let at = id_index(pieces, piece.id@);
        lemma_id_index(before, piece.id@);
        assert(before[at].id@ == piece.id@);
        assert(id_index(before, piece.id@) == at) by {
            let found = id_index(before, piece.id@);
            if found > at {
                assert(before[at].id@ != piece.id@);
            }
            if found < at {
                assert(before[found].id@ != before[at].id@);
            }
        }
        assert(after == before.update(at, piece));
        lemma_put_keeps_distinct(before, piece);
        assert forall|i: int| 0 <= i < pieces.len() implies {
            ||| (#[trigger] after[i]) == pieces[i] && forall|k: int|
                0 <= k < outcomes.len() ==> (#[trigger] outcomes[k])->Done_0.id@
                    != pieces[i].id@
            ||| exists|k: int|
                0 <= k < outcomes.len() && (#[trigger] outcomes[k])->Done_0 == after[i]
        } by {
            if i == at {
                assert(outcomes[outcomes.len() - 1]->Done_0 == after[i]);
            } else {
                assert(after[i] == before[i]);
                assert(pieces[i].id@ != pieces[at].id@);
                if before[i] == pieces[i] && forall|k: int|
                    0 <= k < earlier.len() ==> (#[trigger] earlier[k])->Done_0.id@
                        != pieces[i].id@ {
                    assert forall|k: int| 0 <= k < outcomes.len() implies (
                    #[trigger] outcomes[k])->Done_0.id@ != pieces[i].id@ by {
                        if k < earlier.len() {
                            assert(earlier[k] == outcomes[k]);
                        }
                    }
                } else {
                    let k = choose|k: int|
                        0 <= k < earlier.len() && (#[trigger] earlier[k])->Done_0 == before[i];
                    assert(earlier[k] == outcomes[k]);
                    assert(outcomes[k]->Done_0 == after[i]);
                }
            }
        }
    }
}

proof fn lemma_no_error_means_all_done(outcomes: Seq<TaskOutcome>)
    requires
        !failed_somewhere(outcomes),
    ensures
        forall|k: int| 0 <= k < outcomes.len() ==> (#[trigger] outcomes[k]) is Done,
    decreases outcomes.len(),
{
    if outcomes.len() > 0 {
        let earlier = outcomes.drop_last();
        lemma_no_error_means_all_done(earlier);
        assert forall|k: int| 0 <= k < outcomes.len() implies (#[trigger] outcomes[k]) is Done by {
            if k < earlier.len() {
                assert(earlier[k] == outcomes[k]);
            }
        }
    }
}

/// A range as a successful fetch hands it back: finished, and holding
/// exactly its length where that is known.
pub open spec fn is_complete(piece: Piece) -> bool {
    piece.state == SegmentState::Finished && (piece.bounded() ==> piece.downloaded
        == piece.length)
}

/// After a download without error every range is finished and whole. Let
/// the map hold ranges that are complete or not started, no id twice, and
/// let every range that was not started have an outcome. If no outcome is a
/// failure, and each success hands back a range of the map as a fetch
/// hands it back, then the map holds the same ids in the same places, each
/// range in it is finished and holds exactly its length where that is
/// known, and each range that was fetched is the one that its fetch handed
/// back.
pub proof fn law_successful_download_finishes_every_range(
    pieces: Seq<Piece>,
    outcomes: Seq<TaskOutcome>,
)
    requires
        ids_distinct(pieces),
        first_error(outcomes) is None,
        forall|i: int|
            0 <= i < pieces.len() ==> (#[trigger] pieces[i]).state == SegmentState::NotStarted
                || is_complete(pieces[i]),
        forall|k: int|
            0 <= k < outcomes.len() && (#[trigger] outcomes[k]) is Done ==> is_complete(
                outcomes[k]->Done_0,
            ) && id_index(pieces, outcomes[k]->Done_0.id@) < pieces.len(),
        forall|i: int|
            0 <= i < pieces.len() && (#[trigger] pieces[i]).state == SegmentState::NotStarted
                ==> exists|k: int|
                0 <= k < outcomes.len() && (#[trigger] outcomes[k])->Done_0.id@ == pieces[i].id@,
    ensures
        settled(pieces, outcomes).len() == pieces.len(),
        forall|i: int|
            0 <= i < pieces.len() ==> {
                &&& (#[trigger] settled(pieces, outcomes)[i]).id@ == pieces[i].id@
                &&& is_complete(settled(pieces, outcomes)[i])
                &&& settled(pieces, outcomes)[i] == pieces[i] || exists|k: int|
                    0 <= k < outcomes.len() && (#[trigger] outcomes[k])->Done_0 == settled(
                        pieces,
                        outcomes,
                    )[i]
            },
{
    lemma_no_error_means_all_done(outcomes);
    lemma_settled_successes(pieces, outcomes);
    let after = settled(pieces, outcomes);
    assert forall|i: int| 0 <= i < pieces.len() implies {
        &&& (#[trigger] after[i]).id@ == pieces[i].id@
        &&& is_complete(after[i])
        &&& after[i] == pieces[i] || exists|k: int|
            0 <= k < outcomes.len() && (#[trigger] outcomes[k])->Done_0 == after[i]
    } by {
        if after[i] == pieces[i] && forall|k: int|
            0 <= k < outcomes.len() ==> (#[trigger] outcomes[k])->Done_0.id@ != pieces[i].id@ {
            if pieces[i].state == SegmentState::NotStarted {
                let k = choose|k: int|
                    0 <= k < outcomes.len() && (#[trigger] outcomes[k])->Done_0.id@
                        == pieces[i].id@;
                assert(outcomes[k]->Done_0.id@ != pieces[i].id@);
            }
        } else {
            let k = choose|k: int|
                0 <= k < outcomes.len() && (#[trigger] outcomes[k])->Done_0 == after[i];
            assert(outcomes[k] is Done);
        }
    }
}

proof fn lemma_first_serious(outcomes: Seq<TaskOutcome>)
    ensures
        match first_serious(outcomes) {
            Some(error) => !(error is Cancelled) && exists|k: int|
                0 <= k < outcomes.len() && outcome_error(#[trigger] outcomes[k]) == Some(error)
                    && forall|j: int|
                    0 <= j < k ==> outcome_error(#[trigger] outcomes[j]) is None || outcome_error(
                        outcomes[j],
                    )->0 is Cancelled,
            None => forall|k: int|
                0 <= k < outcomes.len() ==> outcome_error(#[trigger] outcomes[k]) is None
                    || outcome_error(outcomes[k])->0 is Cancelled,
        },
    decreases outcomes.len(),
{
    if outcomes.len() > 0 {
        let earlier = outcomes.drop_last();
        lemma_first_serious(earlier);
        let last = outcomes.len() - 1;
        match first_serious(earlier) {
            Some(error) => {
                let k = choose|k: int|
                    0 <= k < earlier.len() && outcome_error(#[trigger] earlier[k]) == Some(error)
                        && forall|j: int|
                        0 <= j < k ==> outcome_error(#[trigger] earlier[j]) is None
                            || outcome_error(earlier[j])->0 is Cancelled;
                assert(earlier[k] == outcomes[k]);
                assert forall|j: int| 0 <= j < k implies outcome_error(#[trigger] outcomes[j])
                    is None || outcome_error(outcomes[j])->0 is Cancelled by {
                    assert(earlier[j] == outcomes[j]);
                }
            },
            None => {
                assert forall|j: int| 0 <= j < last implies outcome_error(#[trigger] outcomes[j])
                    is None || outcome_error(outcomes[j])->0 is Cancelled by {
                    assert(earlier[j] == outcomes[j]);
                }
                if first_serious(outcomes) is Some {
                    assert(outcome_error(outcomes[last]) == first_serious(outcomes));
                }
            },
        }
    }
}

/// A cancellation never hides another failure. The error of a download is
/// that of the first outcome that failed otherwise than by cancellation,
/// wherever cancellations stand among the outcomes; it is `Cancelled` only
/// where some outcome failed and every failure is a cancellation.
pub proof fn law_first_error_that_is_no_cancellation(outcomes: Seq<TaskOutcome>)
    ensures
        first_error(outcomes) is Some ==> failed_somewhere(outcomes),
        first_error(outcomes) == Some(DownloadError::Cancelled) <==> failed_somewhere(outcomes)
            && forall|k: int|
            0 <= k < outcomes.len() ==> outcome_error(#[trigger] outcomes[k]) is None
                || outcome_error(outcomes[k])->0 is Cancelled,
        first_error(outcomes) is Some && !(first_error(outcomes)->0 is Cancelled) ==> exists|
            k: int,
        |
            0 <= k < outcomes.len() && outcome_error(#[trigger] outcomes[k]) == first_error(
                outcomes,
            ) && forall|j: int|
                0 <= j < k ==> outcome_error(#[trigger] outcomes[j]) is None || outcome_error(
                    outcomes[j],
                )->0 is Cancelled,
{
    lemma_first_serious(outcomes);
    lemma_failed_somewhere(outcomes);
}

proof fn lemma_failed_somewhere(outcomes: Seq<TaskOutcome>)
    ensures
        failed_somewhere(outcomes) <==> exists|k: int|
            0 <= k < outcomes.len() && outcome_error(#[trigger] outcomes[k]) is Some,
    decreases outcomes.len(),
{
    if outcomes.len() > 0 {
        let earlier = outcomes.drop_last();
        lemma_failed_somewhere(earlier);
        let last = outcomes.len() - 1;
        if failed_somewhere(earlier) {
            let k = choose|k: int|
                0 <= k < earlier.len() && outcome_error(#[trigger] earlier[k]) is Some;
            assert(earlier[k] == outcomes[k]);
        } else if outcome_error(outcomes[last]) is Some {
        } else {
            assert forall|k: int| 0 <= k < outcomes.len() implies outcome_error(
                #[trigger] outcomes[k],
            ) is None by {
                if k < last {
                    assert(earlier[k] == outcomes[k]);
                }
            }
        }
    }
}

/// The id of the range that an outcome speaks of.
pub open spec fn outcome_id(outcome: TaskOutcome) -> Seq<char> {
    match outcome {
        TaskOutcome::Done(piece) => piece.id@,
        TaskOutcome::Failed { id, error } => id@,
        TaskOutcome::Aborted { id, reason } => id@,
    }
}

proof fn lemma_settled_failures(pieces: Seq<Piece>, outcomes: Seq<TaskOutcome>)
    requires
        ids_distinct(pieces),
        forall|k: int| 0 <= k < outcomes.len() ==> !((#[trigger] outcomes[k]) is Done),
    ensures
        settled(pieces, outcomes).len() == pieces.len(),
        forall|i: int|
            0 <= i < pieces.len() ==> {
                let after = #[trigger] settled(pieces, outcomes)[i];
                &&& after.id@ == pieces[i].id@
                &&& after == pieces[i] || after == (Piece {
                    state: SegmentState::Failed,
                    ..pieces[i]
                })
                &&& (exists|k: int|
                    0 <= k < outcomes.len() && outcome_id(#[trigger] outcomes[k]) == pieces[i].id@)
                    ==> after.state == SegmentState::Failed
            },
    decreases outcomes.len(),
{
    if outcomes.len() > 0 {
        let earlier = outcomes.drop_last();
        assert forall|k: int| 0 <= k < earlier.len() implies !((#[trigger] earlier[k]) is Done) by {
            assert(earlier[k] == outcomes[k]);
        }
        lemma_settled_failures(pieces, earlier);
        let before = settled(pieces, earlier);
        let last = outcomes[outcomes.len() - 1];
        let id = outcome_id(last);
        let after = settled(pieces, outcomes);
        assert(after == marked_failed(before, id));
        lemma_id_index(before, id);
        let at = id_index(before, id);
        assert forall|i: int| 0 <= i < pieces.len() implies {
            let now = #[trigger] after[i];
            &&& now.id@ == pieces[i].id@
            &&& now == pieces[i] || now == (Piece { state: SegmentState::Failed, ..pieces[i] })
            &&& (exists|k: int|
                0 <= k < outcomes.len() && outcome_id(#[trigger] outcomes[k]) == pieces[i].id@)
                ==> now.state == SegmentState::Failed
        } by {
            assert(before[i].id@ == pieces[i].id@);
            if exists|k: int|
                0 <= k < outcomes.len() && outcome_id(#[trigger] outcomes[k]) == pieces[i].id@ {
                let k = choose|k: int|
                    0 <= k < outcomes.len() && outcome_id(#[trigger] outcomes[k])
                        == pieces[i].id@;
                if k < earlier.len() {
                    assert(earlier[k] == outcomes[k]);
                    assert(before[i].state == SegmentState::Failed);
                } else {
                    assert(id == pieces[i].id@);
                    if at != i {
                        if at < i {
                            assert(before[at].id@ == id);
                            assert(pieces[at].id@ == before[at].id@);
                            assert(pieces[at].id@ != pieces[i].id@);
                        } else {
                            assert(before[i].id@ != id);
                        }
                    }
                }
            }
        }
    }
}

/// A stopped download is cancelled, and nothing of it is assembled. When
/// every fetch of a download ends with `Cancelled`, the download fails with
/// `Cancelled`; every range that a fetch was started for is `Failed` in the
/// map and none is made `Finished`; and as the download ends at the phase
/// that failed, the assembly is not attempted.
pub proof fn law_stopped_download_is_cancelled(pieces: Seq<Piece>, outcomes: Seq<TaskOutcome>)
    requires
        ids_distinct(pieces),
        outcomes.len() > 0,
        forall|k: int|
            0 <= k < outcomes.len() ==> outcome_error(#[trigger] outcomes[k]) == Some(
                DownloadError::Cancelled,
            ),
    ensures
        first_error(outcomes) == Some(DownloadError::Cancelled),
        settled(pieces, outcomes).len() == pieces.len(),
        forall|i: int|
            0 <= i < pieces.len() ==> {
                let after = #[trigger] settled(pieces, outcomes)[i];
                &&& after.id@ == pieces[i].id@
                &&& after.state == SegmentState::Finished ==> pieces[i].state
                    == SegmentState::Finished
                &&& (exists|k: int|
                    0 <= k < outcomes.len() && outcome_id(#[trigger] outcomes[k]) == pieces[i].id@)
                    ==> after.state == SegmentState::Failed
            },
{
    assert forall|k: int| 0 <= k < outcomes.len() implies !((#[trigger] outcomes[k]) is Done) by {
        assert(outcome_error(outcomes[k]) is Some);
    }
    lemma_settled_failures(pieces, outcomes);
    law_first_error_that_is_no_cancellation(outcomes);
    assert(outcome_error(outcomes[0]) is Some);
    lemma_failed_somewhere(outcomes);
}

} // verus!
