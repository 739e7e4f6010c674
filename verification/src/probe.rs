//! What a probe learns from the answer of the origin.
//!
//! The probe asks for the first byte alone. An origin that serves ranges
//! answers with partial content and tells the whole size after the slash
//! of `Content-Range`; where that is missing or no number, the size is
//! taken from `Content-Length`.

use vstd::prelude::*;
use crate::disposition::{extract_filename, filename_of};
use crate::planner::{is_plan, lengths, sum, Span};
use crate::strategy::splits;
use crate::text::{after_last, chars_of, parse_u64, parsed_u64, take_after_last, text_of};
use crate::types::ProbeResult;

verus! {

/// The status with which an origin sends part of a resource.
pub const PARTIAL_CONTENT: u16 = 206;

/// The status with which an origin sends a whole resource.
pub const OK: u16 = 200;

/// The size that the answer tells: the number after the last slash of
/// `Content-Range` if there is one, else the content length.
pub open spec fn told_size(content_range: Option<Seq<char>>, content_length: Option<u64>) -> Option<
    u64,
> {
    match content_range {
        Some(range) => match parsed_u64(after_last(range, '/')) {
            Some(total) => Some(total),
            None => content_length,
        },
        None => content_length,
    }
}

/// The file name that the answer proposes.
pub open spec fn told_name(content_disposition: Option<Seq<char>>) -> Option<Seq<char>> {
    match content_disposition {
        Some(d) => filename_of(d),
        None => None,
    }
}

/// Reads the size of the resource from the answer to a probe.
pub fn resource_size(content_range: Option<&str>, content_length: Option<u64>) -> (size: Option<
    u64,
>)
    ensures
        size == told_size(
            match content_range {
                Some(r) => Some(r@),
                None => None,
            },
            content_length,
        ),
{
    match content_range {
        Some(range) => match parse_u64(&take_after_last(&chars_of(range), '/')) {
            Some(total) => Some(total),
            None => content_length,
        },
        None => content_length,
    }
}

/// Makes the result of a probe from the answer of the origin: its status,
/// the address that answered, and the headers that matter.
pub fn interpret_probe(
    status: u16,
    final_uri: String,
    content_range: Option<&str>,
    content_length: Option<u64>,
    content_disposition: Option<&str>,
    content_type: Option<String>,
    last_modified: Option<String>,
) -> (probe: ProbeResult)
    ensures
        probe.resumable == (status == PARTIAL_CONTENT),
        probe.resource_size == told_size(
            match content_range {
                Some(r) => Some(r@),
                None => None,
            },
            content_length,
        ),
        probe.final_uri == final_uri,
        text_of(probe.attachment_name) == told_name(
            match content_disposition {
                Some(d) => Some(d@),
                None => None,
            },
        ),
        probe.content_type == content_type,
        probe.last_modified == last_modified,
{
    ProbeResult {
        resumable: status == PARTIAL_CONTENT,
        resource_size: resource_size(content_range, content_length),
        final_uri,
        attachment_name: match content_disposition {
            Some(d) => extract_filename(d),
            None => None,
        },
        content_type,
        last_modified,
    }
}

/// A probe of an origin that serves ranges learns the size, and the plan
/// covers it. When the origin answers with partial content and a
/// `Content-Range` that ends in the total, the probe tells that total, the
/// resource is split, and the lengths of the planned ranges add up to the
/// total.
pub proof fn law_resumable_probe_is_planned_whole(
    content_range: Seq<char>,
    content_length: Option<u64>,
    total: u64,
    spans: Seq<Span>,
    limit: int,
)
    requires
        parsed_u64(after_last(content_range, '/')) == Some(total),
        total <= i64::MAX,
        splits(true, told_size(Some(content_range), content_length)) ==> is_plan(
            spans,
            told_size(Some(content_range), content_length)->0 as int,
            limit,
        ),
    ensures
        told_size(Some(content_range), content_length) == Some(total),
        splits(true, told_size(Some(content_range), content_length)),
        sum(lengths(spans)) == total,
{
}

/// An origin that answers the probe with the whole resource gets one
/// range. Whatever size the answer tells, a probe that is not answered
/// with partial content finds the origin not resumable, and the plan is
/// the one range of unknown length from the start of the resource: the
/// number of connections makes no difference, and the output cannot hold
/// the resource more than once.
pub proof fn law_origin_without_ranges_gets_one_range(
    status: u16,
    size: Option<u64>,
    spans: Seq<Span>,
)
    requires
        status != PARTIAL_CONTENT,
        !splits(status == PARTIAL_CONTENT, size) ==> spans == seq![
            Span { offset: 0, length: -1i64 },
        ],
    ensures
        !splits(status == PARTIAL_CONTENT, size),
        spans.len() == 1,
        spans[0].offset == 0,
        spans[0].length <= 0,
{
}

} // verus!
