use std::collections::HashMap;

use rdm_core::fetch::{FetchAction, FetchEvent, RangeFetch};
use rdm_core::job::MultipartDownloadStrategy;
use rdm_core::probe::interpret_probe;
use rdm_core::progress::{ChannelMessage, Notice, ProgressNotifier};
use rdm_core::strategy::{progress_total, TaskOutcome};
use rdm_core::types::{DownloadError, Piece, ProgressEvent, SegmentState};

/// How the simulated origin answers.
#[derive(Clone, Copy, PartialEq)]
enum Origin {
    /// Serves the range that was asked for.
    Ranges,
    /// Sends the whole body whatever was asked for.
    WholeBody,
    /// Cannot be reached.
    Unreachable,
    /// Answers every request for a range with an error page.
    NotFound,
}

struct World {
    body: Vec<u8>,
    origin: Origin,
    chunk: usize,
    files: HashMap<String, Vec<u8>>,
    events: Vec<ProgressEvent>,
    /// The cancel handle trips once this many chunks have been read.
    cancel_after: Option<usize>,
    chunks_read: usize,
    /// The stream breaks once, after this many chunks of a response.
    break_after: Option<usize>,
    requests: usize,
}

fn body_of(size: usize) -> Vec<u8> {
    (0..size).map(|i| (i % 251) as u8).collect()
}

fn world(size: usize, origin: Origin) -> World {
    World {
        body: body_of(size),
        origin,
        chunk: 16 * 1024,
        files: HashMap::new(),
        events: Vec::new(),
        cancel_after: None,
        chunks_read: 0,
        break_after: None,
        requests: 0,
    }
}

impl World {
    fn cancelled(&self) -> bool {
        matches!(self.cancel_after, Some(n) if self.chunks_read >= n)
    }

    fn fetch(&mut self, piece: Piece) -> Result<Piece, DownloadError> {
        let id = piece.id.clone();
        let total = progress_total(&piece);
        let mut fetch = RangeFetch::new(piece)?;
        let mut response: Vec<u8> = Vec::new();
        let mut at = 0usize;
        let mut current: Vec<u8> = Vec::new();
        let mut in_response = 0usize;
        loop {
            let event = match fetch.action() {
                FetchAction::PollCancel => FetchEvent::CancelPolled { cancelled: self.cancelled() },
                FetchAction::Send { range } => {
                    self.requests += 1;
                    if self.origin == Origin::Unreachable {
                        FetchEvent::SendFailed
                    } else {
                        response = match (self.origin, range) {
                            (Origin::Ranges, Some(span)) => {
                                let first = (span.first as usize).min(self.body.len());
                                let end = ((span.last + 1).max(0) as usize).min(self.body.len());
                                if first < end { self.body[first..end].to_vec() } else { Vec::new() }
                            }
                            _ => self.body.clone(),
                        };
                        at = 0;
                        in_response = 0;
                        FetchEvent::Responded {
                            status: match (self.origin, range) {
                                (Origin::NotFound, _) => 404,
                                (Origin::Ranges, Some(_)) => 206,
                                _ => 200,
                            },
                        }
                    }
                }
                FetchAction::Open { append } => {
                    let file = self.files.entry(id.clone()).or_default();
                    if !append {
                        file.clear();
                    }
                    FetchEvent::Opened
                }
                FetchAction::ReadChunk => {
                    if self.break_after == Some(in_response) {
                        self.break_after = None;
                        FetchEvent::ChunkFailed { cancelled: self.cancelled() }
                    } else if at >= response.len() {
                        FetchEvent::BodyEnded
                    } else {
                        let end = (at + self.chunk).min(response.len());
                        current = response[at..end].to_vec();
                        at = end;
                        in_response += 1;
                        self.chunks_read += 1;
                        FetchEvent::Chunk { len: current.len() as u64, cancelled: self.cancelled() }
                    }
                }
                FetchAction::Write { len } => {
                    assert!(len as usize <= current.len());
                    self.files.get_mut(&id).unwrap().extend_from_slice(&current[..len as usize]);
                    FetchEvent::Written
                }
                FetchAction::Notify { delta } => {
                    self.events.push(ProgressEvent {
                        segment_id: id.clone(),
                        bytes_delta: delta,
                        total_bytes: total,
                    });
                    FetchEvent::Notified
                }
                FetchAction::Flush => FetchEvent::Flushed,
                FetchAction::Sleep { millis } => {
                    assert!(millis == 200 || millis == 400);
                    FetchEvent::Woke
                }
                FetchAction::Done => break,
            };
            fetch = fetch.step(event);
        }
        fetch.finish()
    }

    fn probe(&self) -> rdm_core::types::ProbeResult {
        match self.origin {
            Origin::Ranges => interpret_probe(
                206,
                "http://origin/file".to_string(),
                Some(&format!("bytes 0-0/{}", self.body.len())),
                Some(1),
                None,
                Some("application/octet-stream".to_string()),
                None,
            ),
            _ => interpret_probe(
                200,
                "http://origin/file".to_string(),
                None,
                Some(self.body.len() as u64),
                None,
                Some("application/octet-stream".to_string()),
                None,
            ),
        }
    }

    /// Runs the three phases of a job, and hands back the assembled bytes.
    fn download(
        &mut self,
        job: &mut MultipartDownloadStrategy,
    ) -> Result<Vec<u8>, DownloadError> {
        let probe = self.probe();
        job.preprocess(probe);
        let mut outcomes = Vec::new();
        for piece in job.pending() {
            let id = piece.id.clone();
            outcomes.push(match self.fetch(piece) {
                Ok(done) => TaskOutcome::Done(done),
                Err(error) => TaskOutcome::Failed { id, error },
            });
        }
        job.settle(&outcomes)?;
        let plan = job.postprocess()?;
        let mut out = Vec::new();
        for id in &plan.piece_ids {
            out.extend_from_slice(&self.files[id]);
        }
        Ok(out)
    }
}

fn job(connections: usize) -> MultipartDownloadStrategy {
    MultipartDownloadStrategy::builder("http://origin/file".to_string(), "out.bin".to_string(), "/tmp")
        .with_connection_size(connections)
        .build()
}

#[test]
fn happy_path_with_a_range_aware_origin() {
    let mut w = world(1_048_576, Origin::Ranges);
    let mut j = job(8);
    let out = w.download(&mut j).unwrap();
    assert_eq!(j.segments.len(), 4);
    assert_eq!(j.segments.iter().map(|p| p.length).sum::<i64>(), 1_048_576);
    assert!(j.segments.iter().all(|p| p.state == SegmentState::Finished && p.downloaded == p.length));
    assert_eq!(out.len(), 1_048_576);
    assert_eq!(out, w.body);
    for p in &j.segments {
        let file = &w.files[&p.id];
        assert_eq!(file.len() as i64, p.length);
        assert_eq!(file[..], w.body[p.offset as usize..(p.offset + p.length) as usize]);
    }
}

#[test]
fn eight_ranges_of_an_eight_mebibyte_body() {
    let mut w = world(8 * 1_048_576, Origin::Ranges);
    w.chunk = 100_000;
    let mut j = job(8);
    let out = w.download(&mut j).unwrap();
    assert_eq!(j.segments.len(), 8);
    assert_eq!(j.segments.iter().map(|p| p.length).sum::<i64>(), 8 * 1_048_576);
    assert_eq!(out, w.body);
}

#[test]
fn an_origin_without_ranges() {
    let mut w = world(65_536, Origin::WholeBody);
    let mut j = job(8);
    let out = w.download(&mut j).unwrap();
    assert_eq!(j.segments.len(), 1);
    assert_eq!(j.segments[0].length, -1);
    assert_eq!(j.segments[0].downloaded, 65_536);
    assert_eq!(out, w.body);
}

#[test]
fn stop_in_mid_flight() {
    let mut w = world(1_048_576, Origin::Ranges);
    w.cancel_after = Some(3);
    let mut j = job(4);
    let result = w.download(&mut j);
    assert!(matches!(result, Err(DownloadError::Cancelled)));
    assert!(j.segments.iter().any(|p| p.state == SegmentState::Failed));
    assert!(j.postprocess().is_err());
    assert!(w.requests <= 4);
}

#[test]
fn an_origin_that_cannot_be_reached() {
    let mut w = world(0, Origin::Unreachable);
    let mut j = job(8);
    j.preprocess(interpret_probe(206, "u".to_string(), Some("bytes 0-0/1048576"), None, None, None, None));
    assert_eq!(j.segments.len(), 4);
    let mut outcomes = Vec::new();
    for piece in j.pending() {
        let id = piece.id.clone();
        let result = w.fetch(piece);
        assert!(matches!(result, Err(DownloadError::MaxRetryExceeded)));
        outcomes.push(TaskOutcome::Failed { id, error: result.unwrap_err() });
    }
    assert_eq!(w.requests, 12);
    let result = j.settle(&outcomes);
    let error = result.unwrap_err();
    assert!(matches!(error, DownloadError::MaxRetryExceeded));
    assert!(j.segments.iter().all(|p| p.state == SegmentState::Failed));
    let notifier = ProgressNotifier::new();
    match notifier.on_message(ChannelMessage::Failure(error.message())).1 {
        Notice::Error(text) => assert_eq!(text, "max retry exceeded"),
        other => panic!("{other:?}"),
    }
}

#[test]
fn progress_deltas_add_up_to_the_body() {
    let mut w = world(131_072, Origin::Ranges);
    let mut j = job(8);
    let out = w.download(&mut j).unwrap();
    assert_eq!(out.len(), 131_072);
    assert!(!w.events.is_empty());
    let mut notifier = ProgressNotifier::new();
    let mut sum = 0u64;
    let mut last = 0u64;
    for e in w.events.drain(..) {
        sum += e.bytes_delta;
        assert!(notifier.can_take(&ChannelMessage::Event(e.clone())));
        let (after, notice) = notifier.on_message(ChannelMessage::Event(e));
        notifier = after;
        match notice {
            Notice::Progress(snap) => last = snap.total_bytes_downloaded,
            other => panic!("{other:?}"),
        }
    }
    assert_eq!(sum, 131_072);
    assert_eq!(last, 131_072);
    match notifier.on_message(ChannelMessage::Closed).1 {
        Notice::Complete(snap) => {
            assert!(snap.done);
            assert_eq!(snap.total_bytes_downloaded, 131_072);
        }
        other => panic!("{other:?}"),
    }
}

#[test]
fn an_origin_that_answers_every_request_with_the_whole_body() {
    let mut w = world(1_048_576, Origin::WholeBody);
    let mut j = job(4);
    let out = w.download(&mut j).unwrap();
    assert_eq!(j.segments.len(), 1);
    assert_eq!(out.len(), 1_048_576);
    assert_eq!(out, w.body);
}

#[test]
fn whole_bodies_for_planned_ranges_do_not_inflate_the_file() {
    let mut w = world(1_048_576, Origin::WholeBody);
    let mut j = job(4);
    j.preprocess(interpret_probe(206, "u".to_string(), Some("bytes 0-0/1048576"), None, None, None, None));
    assert_eq!(j.segments.len(), 4);
    let mut outcomes = Vec::new();
    for piece in j.pending() {
        outcomes.push(TaskOutcome::Done(w.fetch(piece).unwrap()));
    }
    j.settle(&outcomes).unwrap();
    let plan = j.postprocess().unwrap();
    let size: usize = plan.piece_ids.iter().map(|id| w.files[id].len()).sum();
    assert_eq!(size, 1_048_576);
    for p in &j.segments {
        assert_eq!(w.files[&p.id].len() as i64, p.length);
        assert_eq!(p.downloaded, p.length);
    }
}

#[test]
fn a_stream_that_breaks_once_is_resumed_without_loss() {
    let mut w = world(1_048_576, Origin::Ranges);
    w.break_after = Some(2);
    let mut j = job(4);
    let out = w.download(&mut j).unwrap();
    assert_eq!(out, w.body);
    assert_eq!(w.requests, 5);
}

#[test]
fn a_cancelled_range_resumes_to_its_full_length() {
    let mut w = world(1_048_576, Origin::Ranges);
    w.cancel_after = Some(5);
    let piece = Piece::new("only".to_string(), 1000, 500_000);
    assert!(matches!(w.fetch(piece), Err(DownloadError::Cancelled)));
    let on_disk = w.files["only"].len() as i64;
    assert!(on_disk > 0 && on_disk < 500_000);
    w.cancel_after = None;
    let mut again = Piece::new("only".to_string(), 1000, 500_000);
    again.downloaded = on_disk;
    let done = w.fetch(again).unwrap();
    assert_eq!(done.downloaded, 500_000);
    assert_eq!(w.files["only"].len(), 500_000);
    assert_eq!(w.files["only"][..], w.body[1000..501_000]);
}

#[test]
fn an_error_page_is_not_taken_for_the_range() {
    let mut w = world(4096, Origin::NotFound);
    let piece = Piece::new("p".to_string(), 0, 4096);
    assert!(matches!(w.fetch(piece), Err(DownloadError::MaxRetryExceeded)));
    assert_eq!(w.requests, 3);
    assert!(w.files.get("p").map(|f| f.is_empty()).unwrap_or(true));
    assert!(w.events.is_empty());
}
