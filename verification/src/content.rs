//! What a fetch puts on disk.
//!
//! The range fetcher decides; its caller sends the requests and writes the
//! file. This module says what the scratch file holds when the caller does
//! as it is told and the origin serves the ranges that it is asked for, and
//! proves that the file then holds the bytes of the resource, each one
//! once, whatever retries and resumptions the fetch goes through.

use vstd::prelude::*;
use crate::assembly::{in_order, is_offset_order, law_assembly_order_is_contiguous};
use crate::fetch::{
    lemma_next_keeps_wf, lemma_run_keeps_wf, outcome, FetchAction, FetchEvent, FetchModel,
    FetchPhase,
};
use crate::planner::{contiguous_from_zero, is_plan, span_of, spans_of, Span};
use crate::types::Piece;

verus! {

/// One step of a fetch as its caller lives it: what happened and, where a
/// chunk came, the bytes of the chunk.
pub struct Step {
    pub event: FetchEvent,
    pub chunk: Seq<u8>,
}

/// What lies outside the machine: the scratch file, the chunk at hand, and
/// the position in the resource of the next byte that the origin sends.
pub struct Disk {
    pub file: Seq<u8>,
    pub chunk: Seq<u8>,
    pub cursor: int,
}

/// The events of the steps, in their order.
pub open spec fn events_of(steps: Seq<Step>) -> Seq<FetchEvent> {
    steps.map_values(|s: Step| s.event)
}

/// What one step does outside the machine. An answer to a request for a
/// range begins at the first byte that was asked for. Opening truncates the
/// file unless the machine said to append. A chunk moves the origin on by
/// its length. A write appends the first bytes of the chunk at hand, as
/// many as the machine said.
pub open spec fn disk_next(model: FetchModel, disk: Disk, step: Step) -> Disk {
    match (model.phase, step.event) {
        (FetchPhase::Sending, FetchEvent::Responded { status }) => match model.action() {
            FetchAction::Send { range: Some(span) } => Disk { cursor: span.first as int, ..disk },
            _ => Disk { cursor: 0, ..disk },
        },
        (FetchPhase::Opening, FetchEvent::Opened) => match model.action() {
            FetchAction::Open { append: false } => Disk { file: Seq::empty(), ..disk },
            _ => disk,
        },
        (FetchPhase::Reading, FetchEvent::Chunk { len, cancelled }) => Disk {
            chunk: step.chunk,
            cursor: disk.cursor + step.chunk.len(),
            ..disk
        },
        (FetchPhase::Writing, FetchEvent::Written) => Disk {
            file: disk.file + disk.chunk.take(model.take as int),
            ..disk
        },
        _ => disk,
    }
}

/// What lies outside the machine after a whole sequence of steps.
pub open spec fn disk_after(model: FetchModel, disk: Disk, steps: Seq<Step>) -> Disk
    decreases steps.len(),
{
    if steps.len() == 0 {
        disk
    } else {
        disk_next(
            model.run(events_of(steps.drop_last())),
            disk_after(model, disk, steps.drop_last()),
            steps.last(),
        )
    }
}

/// Whether the chunk of `step`, arriving when the origin stands at
/// `cursor`, is what an origin that holds `resource` sends next: the event
/// tells its length, and its bytes are those of the resource from `cursor`
/// on.
pub open spec fn honest_chunk(resource: Seq<u8>, cursor: int, step: Step) -> bool {
    step.event is Chunk ==> {
        &&& step.event->Chunk_len == step.chunk.len()
        &&& 0 <= cursor
        &&& cursor + step.chunk.len() <= resource.len()
        &&& step.chunk == resource.subrange(cursor, cursor + step.chunk.len())
    }
}

/// Whether every chunk that arrives while the machine reads is what the
/// origin sends next.
pub open spec fn origin_is_honest(
    resource: Seq<u8>,
    model: FetchModel,
    disk: Disk,
    steps: Seq<Step>,
) -> bool {
    forall|i: int|
        0 <= i < steps.len() && model.run(events_of(steps.take(i))).phase == FetchPhase::Reading
            ==> honest_chunk(
            resource,
            disk_after(model, disk, steps.take(i)).cursor,
            #[trigger] steps[i],
        )
}

/// The bytes of the resource that a range holds once `downloaded` of them
/// are on disk.
pub open spec fn held(resource: Seq<u8>, piece: Piece) -> Seq<u8> {
    resource.subrange(piece.offset as int, piece.offset + piece.downloaded)
}

spec fn in_step(resource: Seq<u8>, model: FetchModel, disk: Disk) -> bool {
    &&& model.piece.offset + model.piece.length <= resource.len()
    &&& disk.file == held(resource, model.piece)
    &&& model.phase == FetchPhase::Opening || model.phase == FetchPhase::Reading ==> disk.cursor
        == model.piece.offset + model.piece.downloaded
    &&& model.phase == FetchPhase::Writing ==> {
        &&& disk.cursor == model.piece.offset + model.piece.downloaded + disk.chunk.len()
        &&& disk.cursor <= resource.len()
        &&& model.take <= disk.chunk.len()
        &&& model.take == disk.chunk.len() || model.take == model.remaining - model.written
        &&& disk.chunk == resource.subrange(
            model.piece.offset + model.piece.downloaded,
            disk.cursor,
        )
    }
    &&& model.phase == FetchPhase::Notifying ==> {
        ||| disk.cursor == model.piece.offset + model.piece.downloaded
        ||| model.written == model.remaining
    }
}

proof fn lemma_step_keeps_file(resource: Seq<u8>, model: FetchModel, disk: Disk, step: Step)
    requires
        model.wf(),
        model.piece.bounded(),
        in_step(resource, model, disk),
        model.phase == FetchPhase::Reading ==> honest_chunk(resource, disk.cursor, step),
    ensures
        in_step(resource, model.next(step.event), disk_next(model, disk, step)),
{
    lemma_next_keeps_wf(model, step.event);
    let after = model.next(step.event);
    let out = disk_next(model, disk, step);
    let from = model.piece.offset + model.piece.downloaded;
    if model.phase == FetchPhase::Writing && step.event is Written {
        let take = model.take as int;
        assert(disk.chunk.take(take) =~= resource.subrange(from, from + take));
        assert(out.file =~= resource.subrange(model.piece.offset as int, from + take));
    }
    if model.phase == FetchPhase::Opening && step.event is Opened {
        if model.piece.downloaded == 0 {
            assert(held(resource, model.piece) =~= Seq::<u8>::empty());
        }
    }
    if model.phase == FetchPhase::Reading && step.event is Chunk {
        assert(out.chunk == resource.subrange(from, out.cursor));
    }
}

proof fn lemma_events_of_prefix(steps: Seq<Step>)
    requires
        steps.len() > 0,
    ensures
        events_of(steps).drop_last() == events_of(steps.drop_last()),
        events_of(steps).last() == steps.last().event,
{
    assert(events_of(steps).drop_last() =~= events_of(steps.drop_last()));
}

proof fn lemma_steps_keep_file(resource: Seq<u8>, model: FetchModel, disk: Disk, steps: Seq<Step>)
    requires
        model.wf(),
        model.piece.bounded(),
        in_step(resource, model, disk),
        origin_is_honest(resource, model, disk, steps),
    ensures
        in_step(resource, model.run(events_of(steps)), disk_after(model, disk, steps)),
    decreases steps.len(),
{
    if steps.len() > 0 {
        let earlier = steps.drop_last();
        assert(origin_is_honest(resource, model, disk, earlier)) by {
            assert forall|i: int|
                0 <= i < earlier.len() && model.run(events_of(earlier.take(i))).phase
                    == FetchPhase::Reading implies honest_chunk(
                resource,
                disk_after(model, disk, earlier.take(i)).cursor,
                #[trigger] earlier[i],
            ) by {
                assert(earlier.take(i) =~= steps.take(i));
                assert(earlier[i] == steps[i]);
            }
        }
        lemma_steps_keep_file(resource, model, disk, earlier);
        lemma_events_of_prefix(steps);
        lemma_run_keeps_wf(model, events_of(earlier));
        let last = steps.len() - 1;
        assert(steps.take(last) =~= earlier);
        assert(steps[last] == steps.last());
        lemma_step_keeps_file(
            resource,
            model.run(events_of(earlier)),
            disk_after(model, disk, earlier),
            steps.last(),
        );
    }
}

/// The scratch file holds the bytes of its range. Take a range of known
/// length that lies within the resource, and a scratch file that holds the
/// bytes of the resource that the range counts as downloaded: none, for a
/// fresh range. Let the origin serve the ranges that it is asked for.
/// Then, after any steps of the fetch, with whatever failures, retries and
/// cancellation, the file holds exactly the bytes of the resource from the
/// offset of the range up to what the range counts as downloaded: no byte
/// twice, none missing, none from elsewhere.
pub proof fn law_scratch_file_holds_the_range(
    resource: Seq<u8>,
    piece: Piece,
    disk: Disk,
    steps: Seq<Step>,
)
    requires
        piece.wf(),
        piece.bounded(),
        piece.offset + piece.length <= resource.len(),
        disk.file == held(resource, piece),
        origin_is_honest(resource, FetchModel::initial(piece), disk, steps),
    ensures
        disk_after(FetchModel::initial(piece), disk, steps).file == held(
            resource,
            FetchModel::initial(piece).run(events_of(steps)).piece,
        ),
        FetchModel::initial(piece).run(events_of(steps)).piece.downloaded == piece.length
            ==> disk_after(FetchModel::initial(piece), disk, steps).file == resource.subrange(
            piece.offset as int,
            piece.offset + piece.length,
        ),
{
    let start = FetchModel::initial(piece);
    assert(held(resource, start.piece) == held(resource, piece));
    lemma_steps_keep_file(resource, start, disk, steps);
    lemma_run_keeps_wf(start, events_of(steps));
}

/// The files put together, one after the other.
pub open spec fn concatenated(files: Seq<Seq<u8>>) -> Seq<u8>
    decreases files.len(),
{
    if files.len() == 0 {
        Seq::empty()
    } else {
        concatenated(files.drop_last()) + files.last()
    }
}

/// The bytes of the resource that a range covers.
pub open spec fn range_bytes(resource: Seq<u8>, piece: Piece) -> Seq<u8> {
    resource.subrange(piece.offset as int, piece.offset + piece.length)
}

/// The complete scratch files of the ranges, in the order of the ranges.
pub open spec fn complete_files(resource: Seq<u8>, pieces: Seq<Piece>) -> Seq<Seq<u8>> {
    pieces.map_values(|p: Piece| range_bytes(resource, p))
}

proof fn lemma_prefix_is_assembled(resource: Seq<u8>, sorted: Seq<Piece>, k: int)
    requires
        contiguous_from_zero(spans_of(sorted)),
        0 <= k <= sorted.len(),
        forall|i: int|
            0 <= i < sorted.len() ==> 0 <= (#[trigger] sorted[i]).length && 0
                <= sorted[i].offset && sorted[i].offset + sorted[i].length <= resource.len(),
    ensures
        concatenated(complete_files(resource, sorted).take(k)) == resource.subrange(
            0,
            if k == 0 {
                0
            } else {
                sorted[k - 1].offset + sorted[k - 1].length
            },
        ),
    decreases k,
{
    let files = complete_files(resource, sorted);
    if k == 0 {
        assert(files.take(0) =~= Seq::<Seq<u8>>::empty());
        assert(resource.subrange(0, 0) =~= Seq::<u8>::empty());
    } else {
        lemma_prefix_is_assembled(resource, sorted, k - 1);
        assert(files.take(k).drop_last() =~= files.take(k - 1));
        assert(files.take(k).last() == range_bytes(resource, sorted[k - 1]));
        let spans = spans_of(sorted);
        assert(spans[k - 1] == span_of(sorted[k - 1]));
        let start = sorted[k - 1].offset as int;
        let end = sorted[k - 1].offset + sorted[k - 1].length;
        if k == 1 {
            assert(spans[0].offset == 0);
            assert(start == 0);
        } else {
            assert(spans[k - 2] == span_of(sorted[k - 2]));
            assert(spans[k - 2 + 1].offset == spans[k - 2].end());
            assert(start == sorted[k - 2].offset + sorted[k - 2].length);
        }
        assert(sorted[k - 1].length >= 0 && sorted[k - 1].offset >= 0 && end <= resource.len());
        assert(resource.subrange(0, start) + resource.subrange(start, end) =~= resource.subrange(
            0,
            end,
        ));
    }
}

/// What is assembled is the resource. When each range of a plan for the
/// whole resource has a scratch file that holds the bytes of its range, the
/// scratch files, put together in the order of the offsets, are the
/// resource, byte for byte.
pub proof fn law_assembled_file_is_the_resource(
    resource: Seq<u8>,
    pieces: Seq<Piece>,
    order: Seq<usize>,
    limit: int,
)
    requires
        is_plan(spans_of(pieces), resource.len() as int, limit),
        is_offset_order(pieces, order),
        in_order(pieces, order).to_multiset() == pieces.to_multiset(),
    ensures
        concatenated(complete_files(resource, in_order(pieces, order))) == resource,
{
    let sorted = in_order(pieces, order);
    let size = resource.len() as int;
    law_assembly_order_is_contiguous(pieces, order, size, limit);
    assert forall|i: int| 0 <= i < sorted.len() implies 0 <= (#[trigger] sorted[i]).length && 0
        <= sorted[i].offset && sorted[i].offset + sorted[i].length <= resource.len() by {
        let at = order[i] as int;
        assert(sorted[i] == pieces[at]);
        assert(spans_of(pieces)[at] == span_of(pieces[at]));
        assert(0 <= spans_of(pieces)[at].length && 0 <= spans_of(pieces)[at].offset && spans_of(
            pieces,
        )[at].end() <= size);
    }
    lemma_prefix_is_assembled(resource, sorted, sorted.len() as int);
    let files = complete_files(resource, sorted);
    assert(files.take(sorted.len() as int) =~= files);
    let last = sorted.len() - 1;
    assert(spans_of(sorted).last() == span_of(sorted[last]));
    assert(resource.subrange(0, size) =~= resource);
}

/// Whether `step`, arriving when the origin stands at `cursor`, is what an
/// origin does that sends the whole of `resource`: a chunk is not empty and
/// holds the bytes from `cursor` on, and the body ends only where the
/// resource does.
pub open spec fn honest_body(resource: Seq<u8>, cursor: int, step: Step) -> bool {
    &&& honest_chunk(resource, cursor, step)
    &&& step.event is Chunk ==> step.chunk.len() > 0
    &&& step.event is BodyEnded ==> cursor == resource.len()
}

/// Whether the origin sends the whole resource to everything that the
/// machine reads.
pub open spec fn origin_sends_whole(
    resource: Seq<u8>,
    model: FetchModel,
    disk: Disk,
    steps: Seq<Step>,
) -> bool {
    forall|i: int|
        0 <= i < steps.len() && model.run(events_of(steps.take(i))).phase == FetchPhase::Reading
            ==> honest_body(
            resource,
            disk_after(model, disk, steps.take(i)).cursor,
            #[trigger] steps[i],
        )
}

spec fn in_whole(resource: Seq<u8>, model: FetchModel, disk: Disk) -> bool {
    let piece = model.piece;
    let so_far = resource.subrange(0, piece.downloaded as int);
    &&& !piece.bounded()
    &&& piece.offset == 0
    &&& resource.len() <= i64::MAX
    &&& piece.downloaded <= resource.len()
    &&& model.phase == FetchPhase::Polling || model.phase == FetchPhase::Sending || model.phase
        == FetchPhase::Opening ==> piece.downloaded == 0
    &&& model.phase == FetchPhase::Opening ==> disk.cursor == 0
    &&& model.phase == FetchPhase::Reading ==> disk.file == so_far && disk.cursor
        == piece.downloaded
    &&& model.phase == FetchPhase::Writing ==> {
        &&& disk.file == so_far
        &&& disk.cursor == piece.downloaded + disk.chunk.len()
        &&& disk.cursor <= resource.len()
        &&& model.take == disk.chunk.len()
        &&& disk.chunk == resource.subrange(piece.downloaded as int, disk.cursor)
    }
    &&& model.phase == FetchPhase::Notifying ==> disk.file == so_far && disk.cursor
        == piece.downloaded
    &&& model.phase == FetchPhase::FlushingFinal || (model.phase == FetchPhase::Done
        && model.failure is None) ==> disk.file == resource && piece.downloaded == resource.len()
}

proof fn lemma_step_keeps_whole(resource: Seq<u8>, model: FetchModel, disk: Disk, step: Step)
    requires
        model.wf(),
        in_whole(resource, model, disk),
        model.phase == FetchPhase::Reading ==> honest_body(resource, disk.cursor, step),
        model.next(step.event).retries == 0,
    ensures
        in_whole(resource, model.next(step.event), disk_next(model, disk, step)),
{
    lemma_next_keeps_wf(model, step.event);
    let out = disk_next(model, disk, step);
    let from = model.piece.downloaded as int;
    if model.phase == FetchPhase::Writing && step.event is Written {
        let take = model.take as int;
        assert(disk.chunk.take(take) =~= resource.subrange(from, from + take));
        assert(out.file =~= resource.subrange(0, from + take));
    }
    if model.phase == FetchPhase::Opening && step.event is Opened {
        assert(resource.subrange(0, 0) =~= Seq::<u8>::empty());
    }
    if model.phase == FetchPhase::Reading && step.event is BodyEnded {
        assert(resource.subrange(0, resource.len() as int) =~= resource);
    }
}

proof fn lemma_steps_keep_whole(resource: Seq<u8>, model: FetchModel, disk: Disk, steps: Seq<Step>)
    requires
        model.wf(),
        in_whole(resource, model, disk),
        origin_sends_whole(resource, model, disk, steps),
        model.run(events_of(steps)).retries == 0,
    ensures
        in_whole(resource, model.run(events_of(steps)), disk_after(model, disk, steps)),
    decreases steps.len(),
{
    if steps.len() > 0 {
        let earlier = steps.drop_last();
        assert(origin_sends_whole(resource, model, disk, earlier)) by {
            assert forall|i: int|
                0 <= i < earlier.len() && model.run(events_of(earlier.take(i))).phase
                    == FetchPhase::Reading implies honest_body(
                resource,
                disk_after(model, disk, earlier.take(i)).cursor,
                #[trigger] earlier[i],
            ) by {
                assert(earlier.take(i) =~= steps.take(i));
                assert(earlier[i] == steps[i]);
            }
        }
        lemma_events_of_prefix(steps);
        lemma_run_keeps_wf(model, events_of(earlier));
        lemma_next_keeps_wf(model.run(events_of(earlier)), steps.last().event);
        lemma_steps_keep_whole(resource, model, disk, earlier);
        let last = steps.len() - 1;
        assert(steps.take(last) =~= earlier);
        assert(steps[last] == steps.last());
        lemma_step_keeps_whole(
            resource,
            model.run(events_of(earlier)),
            disk_after(model, disk, earlier),
            steps.last(),
        );
    }
}

/// An origin without ranges is fetched whole. Take the one range of unknown
/// length that is planned where the origin serves no ranges, not yet
/// started, and an origin that answers the request, which carries no
/// `Range`, with the whole resource. If the fetch succeeds at the first
/// attempt, the scratch file is the resource, byte for byte and once, and
/// the range counts as many bytes as the resource has.
pub proof fn law_whole_body_is_the_scratch_file(
    resource: Seq<u8>,
    piece: Piece,
    disk: Disk,
    steps: Seq<Step>,
)
    requires
        piece.wf(),
        !piece.bounded(),
        piece.offset == 0,
        piece.downloaded == 0,
        resource.len() <= i64::MAX,
        origin_sends_whole(resource, FetchModel::initial(piece), disk, steps),
        FetchModel::initial(piece).run(events_of(steps)).retries == 0,
        outcome(FetchModel::initial(piece).run(events_of(steps))) is Ok,
    ensures
        FetchModel::initial(piece).next(FetchEvent::CancelPolled { cancelled: false }).action()
            == (FetchAction::Send { range: None }),
        disk_after(FetchModel::initial(piece), disk, steps).file == resource,
        outcome(FetchModel::initial(piece).run(events_of(steps)))->Ok_0.downloaded
            == resource.len(),
{
    lemma_steps_keep_whole(resource, FetchModel::initial(piece), disk, steps);
}

} // verus!
