//! What the assembly of a job has to do: in which order the scratch files
//! are put together, and under which name the result is written.
//!
//! The scratch files are concatenated in the order of the offsets of their
//! ranges. The output goes to the path that was configured, else to the
//! file name that the origin proposed, else to a default name; a path
//! without an extension gets one from the proposed name or from the media
//! type.

use vstd::prelude::*;
use vstd::string::StringExecFns;
use crate::mime::{ext_from_mime, mime_extension, mime_key_of};
use crate::paths::{extension, extension_of};
use crate::planner::{
    contiguous_from_zero, is_plan, law_sorted_plan_is_contiguous, lemma_sum_rearranged, lengths,
    sorted_by_offset, span_of, spans_of, sum,
};
use crate::text::{
    append, chars_of, string_of, text_of, texts_of, to_lowercase, unicode_lowercase,
};
use crate::types::{DownloadError, DownloaderState, Piece, SegmentState};

verus! {

/// The name under which a job without any other name is written.
pub open spec fn default_output() -> Seq<char> {
    "download.bin"@
}

/// The extension that a media type stands for, if there is a type and the
/// engine knows it.
pub open spec fn extension_of_type(content_type: Option<Seq<char>>) -> Option<Seq<char>> {
    match content_type {
        Some(t) => mime_extension(mime_key_of(t)),
        None => None,
    }
}

/// The extension that a path without one is given: that of the proposed
/// file name if it has one, else that of the media type.
pub open spec fn derived_extension(
    attachment_name: Option<Seq<char>>,
    content_type: Option<Seq<char>>,
) -> Option<Seq<char>> {
    match attachment_name {
        Some(name) => match extension_of(name) {
            Some(e) => Some(e),
            None => extension_of_type(content_type),
        },
        None => extension_of_type(content_type),
    }
}

/// The path with an extension made sure of: a path that has one stays as
/// it is, and so does one for which none can be derived; any other gets a
/// full stop and the derived extension in lower case.
pub open spec fn with_extension(
    path: Seq<char>,
    attachment_name: Option<Seq<char>>,
    content_type: Option<Seq<char>>,
) -> Seq<char> {
    if extension_of(path) is Some {
        path
    } else {
        match derived_extension(attachment_name, content_type) {
            Some(e) => if e.len() > 0 {
                path.push('.') + unicode_lowercase(e)
            } else {
                path
            },
            None => path,
        }
    }
}

/// Gives `path` an extension if it has none and one can be derived.
pub fn ensure_extension(path: String, attachment_name: Option<&str>, content_type: Option<&str>) -> (
    out: String
)
    ensures
        out@ == with_extension(
            path@,
            match attachment_name {
                Some(n) => Some(n@),
                None => None,
            },
            match content_type {
                Some(t) => Some(t@),
                None => None,
            },
        ),
{
    let chars = chars_of(path.as_str());
    if extension(&chars).is_some() {
        return path;
    }
    let from_name: Option<String> = match attachment_name {
        Some(name) => match extension(&chars_of(name)) {
            Some(e) => Some(string_of(&e)),
            None => None,
        },
        None => None,
    };
    let ext: Option<String> = match from_name {
        Some(e) => Some(e),
        None => ext_from_mime(content_type),
    };
    match ext {
        Some(e) => {
            if e.as_str().unicode_len() > 0 {
                let low = to_lowercase(e.as_str());
                let mut out = chars;
                out.push('.');
                append(&mut out, &chars_of(low.as_str()));
                string_of(&out)
            } else {
                path
            }
        },
        None => path,
    }
}

/// Whether the range at `i` comes before the range at `j` when the scratch
/// files are put together: by offset, and by place in the map where the
/// offsets are the same.
pub open spec fn comes_before(pieces: Seq<Piece>, i: int, j: int) -> bool {
    pieces[i].offset < pieces[j].offset || (pieces[i].offset == pieces[j].offset && i < j)
}

/// Whether `order` lists the places of all the ranges in the order in
/// which they are put together.
pub open spec fn is_offset_order(pieces: Seq<Piece>, order: Seq<usize>) -> bool {
    &&& order.len() == pieces.len()
    &&& forall|a: int| 0 <= a < order.len() ==> (#[trigger] order[a]) < pieces.len()
    &&& forall|a: int, b: int|
        0 <= a < b < order.len() ==> comes_before(
            pieces,
            (#[trigger] order[a]) as int,
            (#[trigger] order[b]) as int,
        )
}

/// The ranges in the order that `order` lists.
pub open spec fn in_order(pieces: Seq<Piece>, order: Seq<usize>) -> Seq<Piece> {
    Seq::new(order.len(), |a: int| pieces[order[a] as int])
}

/// Lists the places of the ranges in the order of their offsets.
pub fn offset_order(pieces: &Vec<Piece>) -> (order: Vec<usize>)
    ensures
        is_offset_order(pieces@, order@),
        in_order(pieces@, order@).to_multiset() == pieces@.to_multiset(),
{
    broadcast use vstd::seq_lib::group_to_multiset_ensures;

    let mut order: Vec<usize> = Vec::new();
    let mut i: usize = 0;
    assert(in_order(pieces@, order@) =~= pieces@.take(0));
    while i < pieces.len()
        invariant
            i <= pieces.len(),
            order.len() == i,
            forall|a: int| 0 <= a < order.len() ==> (#[trigger] order[a]) < i,
            forall|a: int, b: int|
                0 <= a < b < order.len() ==> comes_before(
                    pieces@,
                    (#[trigger] order[a]) as int,
                    (#[trigger] order[b]) as int,
                ),
            in_order(pieces@, order@).to_multiset() == pieces@.take(i as int).to_multiset(),
        decreases pieces.len() - i,
    {
        let mut at: usize = 0;
        while at < order.len() && pieces[order[at]].offset <= pieces[i].offset
            invariant
                at <= order.len(),
                order.len() == i,
                i < pieces.len(),
                forall|a: int| 0 <= a < order.len() ==> (#[trigger] order[a]) < i,
                forall|a: int|
                    0 <= a < at ==> pieces[(#[trigger] order[a]) as int].offset
                        <= pieces[i as int].offset,
            decreases order.len() - at,
        {
            at = at + 1;
        }
        let ghost before = order@;
        order.insert(at, i);
        proof {
            assert forall|a: int, b: int| 0 <= a < b < order.len() implies comes_before(
                pieces@,
                (#[trigger] order[a]) as int,
                (#[trigger] order[b]) as int,
            ) by {
                let old_a = if a < at {
                    a
                } else {
                    a - 1
                };
                let old_b = if b < at {
                    b
                } else {
                    b - 1
                };
                if a != at && b != at {
                    assert(order[a] == before[old_a]);
                    assert(order[b] == before[old_b]);
                    assert(comes_before(pieces@, before[old_a] as int, before[old_b] as int));
                } else if a == at {
                    assert(order[b] == before[b - 1]);
                    if b - 1 > at {
                        assert(comes_before(pieces@, before[at as int] as int, before[b - 1] as int));
                    }
                } else {
                    assert(order[a] == before[a]);
                    assert(before[a] < i);
                }
            }
            assert(in_order(pieces@, order@) =~= in_order(pieces@, before).insert(
                at as int,
                pieces@[i as int],
            ));
            assert(pieces@.take(i + 1) =~= pieces@.take(i as int).push(pieces@[i as int]));
            vstd::seq_lib::to_multiset_insert(
                in_order(pieces@, before),
                at as int,
                pieces@[i as int],
            );
            vstd::seq_lib::to_multiset_build(pieces@.take(i as int), pieces@[i as int]);
        }
        i = i + 1;
    }
    assert(pieces@.take(pieces.len() as int) =~= pieces@);
    order
}

/// The ranges of a plan, taken in the order in which their scratch files
/// are put together, follow one another without gap or overlap from
/// position zero to the end of the resource: what is assembled has the
/// size of the resource and holds every byte position once.
pub proof fn law_assembly_order_is_contiguous(
    pieces: Seq<Piece>,
    order: Seq<usize>,
    size: int,
    limit: int,
)
    requires
        is_plan(spans_of(pieces), size, limit),
        is_offset_order(pieces, order),
        in_order(pieces, order).to_multiset() == pieces.to_multiset(),
    ensures
        contiguous_from_zero(spans_of(in_order(pieces, order))),
        spans_of(in_order(pieces, order)).last().end() == size,
{
    let sorted = in_order(pieces, order);
    assert(sorted_by_offset(spans_of(sorted)));
    lemma_spans_rearranged(sorted, pieces);
    law_sorted_plan_is_contiguous(spans_of(pieces), spans_of(sorted), size, limit);
}

/// The bytes that each range has on disk, in the order of the ranges.
pub open spec fn downloaded_of(pieces: Seq<Piece>) -> Seq<int> {
    pieces.map_values(|p: Piece| p.downloaded as int)
}

/// What is assembled has the size of the resource. When every range of a
/// plan holds as many bytes as it is long, the scratch files, in whatever
/// order they are put together, add up to the size of the resource.
pub proof fn law_assembled_size_is_resource_size(
    pieces: Seq<Piece>,
    order: Seq<usize>,
    size: int,
    limit: int,
)
    requires
        is_plan(spans_of(pieces), size, limit),
        is_offset_order(pieces, order),
        in_order(pieces, order).to_multiset() == pieces.to_multiset(),
        forall|i: int| 0 <= i < pieces.len() ==> (#[trigger] pieces[i]).downloaded == pieces[i].length,
    ensures
        sum(downloaded_of(in_order(pieces, order))) == size,
{
    let sorted = in_order(pieces, order);
    lemma_spans_rearranged(sorted, pieces);
    lemma_sum_rearranged(spans_of(sorted), spans_of(pieces));
    assert(downloaded_of(sorted) =~= lengths(spans_of(sorted))) by {
        assert forall|a: int| 0 <= a < sorted.len() implies downloaded_of(sorted)[a] == lengths(
            spans_of(sorted),
        )[a] by {
            assert(sorted[a] == pieces[order[a] as int]);
        }
    }
}

proof fn lemma_spans_rearranged(a: Seq<Piece>, b: Seq<Piece>)
    requires
        a.to_multiset() == b.to_multiset(),
    ensures
        spans_of(a).to_multiset() == spans_of(b).to_multiset(),
    decreases a.len(),
{
    broadcast use vstd::seq_lib::group_to_multiset_ensures;

    a.to_multiset_ensures();
    b.to_multiset_ensures();
    if a.len() == 0 {
        assert(b.len() == 0);
        assert(spans_of(a) =~= spans_of(b));
    } else {
        let x = a.last();
        assert(a.contains(x));
        assert(b.to_multiset().count(x) > 0);
        assert(b.contains(x));
        let j = choose|j: int| 0 <= j < b.len() && b[j] == x;
        let rest_a = a.remove(a.len() - 1);
        let rest_b = b.remove(j);
        assert(rest_a.to_multiset() =~= rest_b.to_multiset());
        lemma_spans_rearranged(rest_a, rest_b);
        assert(spans_of(rest_a) =~= spans_of(a).remove(a.len() - 1));
        assert(spans_of(rest_b) =~= spans_of(b).remove(j));
        spans_of(a).to_multiset_ensures();
        spans_of(b).to_multiset_ensures();
        assert(spans_of(a)[a.len() - 1] == span_of(x));
        assert(spans_of(b)[j] == span_of(x));
        assert(spans_of(a).to_multiset() =~= spans_of(rest_a).to_multiset().insert(span_of(x)));
        assert(spans_of(b).to_multiset() =~= spans_of(rest_b).to_multiset().insert(span_of(x)));
    }
}

/// What the assembly has to do.
#[derive(Debug)]
pub struct AssemblyPlan {
    /// The ids of the ranges, in the order in which their scratch files are
    /// put together.
    pub piece_ids: Vec<String>,
    /// The scratch directory that holds the files.
    pub temp_dir: String,
    /// The path that the result is written to.
    pub output_file: String,
}

/// The position of the first range that is not finished, or the number of
/// ranges if all are.
pub open spec fn unfinished_index(pieces: Seq<Piece>) -> int
    decreases pieces.len(),
{
    if pieces.len() == 0 {
        0
    } else if pieces[0].state != SegmentState::Finished {
        0
    } else {
        1 + unfinished_index(pieces.drop_first())
    }
}

/// What `unfinished_index` gives is the first range that is not finished.
pub proof fn lemma_unfinished_index(pieces: Seq<Piece>)
    ensures
        0 <= unfinished_index(pieces) <= pieces.len(),
        unfinished_index(pieces) < pieces.len() ==> pieces[unfinished_index(pieces)].state
            != SegmentState::Finished,
        forall|k: int|
            0 <= k < unfinished_index(pieces) ==> (#[trigger] pieces[k]).state
                == SegmentState::Finished,
    decreases pieces.len(),
{
    if pieces.len() > 0 && pieces[0].state == SegmentState::Finished {
        let rest = pieces.drop_first();
        lemma_unfinished_index(rest);
        assert forall|k: int| 0 <= k < unfinished_index(pieces) implies (
        #[trigger] pieces[k]).state == SegmentState::Finished by {
            if k > 0 {
                assert(rest[k - 1] == pieces[k]);
            }
        }
    }
}

/// The name of a state as it is written in messages.
pub open spec fn state_name(state: SegmentState) -> Seq<char> {
    match state {
        SegmentState::NotStarted => "NotStarted"@,
        SegmentState::Finished => "Finished"@,
        SegmentState::Downloading => "Downloading"@,
        SegmentState::Failed => "Failed"@,
    }
}

/// The message about a range that should be finished and is not.
pub open spec fn unfinished_text(piece: Piece) -> Seq<char> {
    "piece "@ + piece.id@ + " is in state "@ + state_name(piece.state) + ", expected Finished"@
}

/// The path that the job names for its output, before an extension is made
/// sure of: the configured path, else the proposed name, else the default.
pub open spec fn output_choice(state: DownloaderState) -> Seq<char> {
    match state.output_path {
        Some(path) => path@,
        None => match state.attachment_name {
            Some(name) => name@,
            None => default_output(),
        },
    }
}

/// The ids of the ranges, in their order.
pub open spec fn ids_of(pieces: Seq<Piece>) -> Seq<Seq<char>> {
    pieces.map_values(|p: Piece| p.id@)
}

/// Whether `plan` is the assembly of the ranges `pieces` for the job
/// `state`.
pub open spec fn is_assembly(pieces: Seq<Piece>, state: DownloaderState, plan: AssemblyPlan) -> bool {
    &&& plan.temp_dir@ == state.temp_dir@
    &&& plan.output_file@ == with_extension(
        output_choice(state),
        text_of(state.attachment_name),
        text_of(state.content_type),
    )
    &&& exists|order: Seq<usize>|
        {
            &&& is_offset_order(pieces, order)
            &&& in_order(pieces, order).to_multiset() == pieces.to_multiset()
            &&& texts_of(plan.piece_ids@) == #[trigger] ids_of(in_order(pieces, order))
        }
}

fn state_text(state: SegmentState) -> (text: String)
    ensures
        text@ == state_name(state),
{
    match state {
        SegmentState::NotStarted => String::from_str("NotStarted"),
        SegmentState::Finished => String::from_str("Finished"),
        SegmentState::Downloading => String::from_str("Downloading"),
        SegmentState::Failed => String::from_str("Failed"),
    }
}

fn as_text(value: &Option<String>) -> (text: Option<&str>)
    ensures
        match text {
            Some(t) => *value is Some && t@ == value->0@,
            None => *value is None,
        },
{
    match value {
        Some(s) => Some(s.as_str()),
        None => None,
    }
}

/// Plans the assembly of a job. Every range must be finished: the first
/// one that is not makes the plan fail with a message that names it.
pub fn assembly_plan(map: &Vec<Piece>, state: &DownloaderState) -> (result: Result<
    AssemblyPlan,
    DownloadError,
>)
    ensures
        match result {
            Ok(plan) => unfinished_index(map@) == map.len() && is_assembly(map@, *state, plan),
            Err(error) => unfinished_index(map@) < map.len() && error is PieceFailed
                && error->PieceFailed_0@ == unfinished_text(map[unfinished_index(map@)]),
        },
{
    let mut i: usize = 0;
    proof {
        lemma_unfinished_index(map@);
    }
    while i < map.len()
        invariant
            i <= map.len(),
            i <= unfinished_index(map@) <= map.len(),
            unfinished_index(map@) < map.len() ==> map[unfinished_index(map@)].state
                != SegmentState::Finished,
            forall|k: int|
                0 <= k < unfinished_index(map@) ==> (#[trigger] map[k]).state
                    == SegmentState::Finished,
        decreases map.len() - i,
    {
        match map[i].state {
            SegmentState::Finished => {},
            _ => {
                let text = String::from_str("piece ").concat(map[i].id.as_str()).concat(
                    " is in state ",
                ).concat(state_text(map[i].state).as_str()).concat(", expected Finished");
                return Err(DownloadError::PieceFailed(text));
            },
        }
        i = i + 1;
    }
    let order = offset_order(map);
    let mut piece_ids: Vec<String> = Vec::new();
    let mut a: usize = 0;
    while a < order.len()
        invariant
            a <= order.len(),
            is_offset_order(map@, order@),
            texts_of(piece_ids@) == ids_of(in_order(map@, order@)).take(a as int),
        decreases order.len() - a,
    {
        let ghost earlier = piece_ids@;
        let id = map[order[a]].id.clone();
        piece_ids.push(id);
        a = a + 1;
        assert(texts_of(piece_ids@) =~= texts_of(earlier).push(id@));
        assert(ids_of(in_order(map@, order@))[a - 1] == map@[order@[a - 1] as int].id@);
        assert(ids_of(in_order(map@, order@)).take(a as int) =~= ids_of(
            in_order(map@, order@),
        ).take(a - 1).push(id@));
    }
    assert(ids_of(in_order(map@, order@)).take(order.len() as int) =~= ids_of(
        in_order(map@, order@),
    ));
    let base: String = match &state.output_path {
        Some(path) => path.clone(),
        None => match &state.attachment_name {
            Some(name) => name.clone(),
            None => String::from_str("download.bin"),
        },
    };
    let output_file = ensure_extension(
        base,
        as_text(&state.attachment_name),
        as_text(&state.content_type),
    );
    let plan = AssemblyPlan { piece_ids, temp_dir: state.temp_dir.clone(), output_file };
    assert(is_assembly(map@, *state, plan));
    Ok(plan)
}

} // verus!
