//! The progress ledger: what the aggregator knows of each range and of the
//! job as a whole, kept up to date event by event.
//!
//! The ledger counts bytes. Speeds and remaining times are derived from
//! its counts and a clock by whoever shows them.

use vstd::prelude::*;
use crate::planner::{lemma_sum_push, lemma_sum_update, sum};
use crate::types::ProgressEvent;

verus! {

/// What is known of the progress of one range.
#[derive(Debug, Clone)]
pub struct SegmentProgress {
    pub segment_id: String,
    pub bytes_downloaded: u64,
    /// The length of the range, or zero while it is not known.
    pub total_bytes: u64,
}

/// The ranges that have been heard of, in the order of their first events.
#[derive(Debug)]
pub struct ProgressLedger {
    segments: Vec<SegmentProgress>,
}

impl View for ProgressLedger {
    type V = Seq<SegmentProgress>;

    closed spec fn view(&self) -> Seq<SegmentProgress> {
        self.segments@
    }
}

/// The position of the range `id` in the ledger, or the number of ranges if
/// it has not been heard of.
pub open spec fn segment_index(segments: Seq<SegmentProgress>, id: Seq<char>) -> int
    decreases segments.len(),
{
    if segments.len() == 0 {
        0
    } else if segments[0].segment_id@ == id {
        0
    } else {
        1 + segment_index(segments.drop_first(), id)
    }
}

/// What `segment_index` gives is the first range of the id.
pub proof fn lemma_segment_index(segments: Seq<SegmentProgress>, id: Seq<char>)
    ensures
        0 <= segment_index(segments, id) <= segments.len(),
        segment_index(segments, id) < segments.len() ==> segments[segment_index(
            segments,
            id,
        )].segment_id@ == id,
        forall|k: int|
            0 <= k < segment_index(segments, id) ==> (#[trigger] segments[k]).segment_id@ != id,
    decreases segments.len(),
{
    if segments.len() > 0 && segments[0].segment_id@ != id {
        let rest = segments.drop_first();
        lemma_segment_index(rest, id);
        assert forall|k: int| 0 <= k < segment_index(segments, id) implies (
        #[trigger] segments[k]).segment_id@ != id by {
            if k > 0 {
                assert(rest[k - 1] == segments[k]);
            }
        }
    }
}

/// The bytes downloaded of each range, in the order of the ledger.
pub open spec fn downloaded_counts(segments: Seq<SegmentProgress>) -> Seq<int> {
    segments.map_values(|s: SegmentProgress| s.bytes_downloaded as int)
}

/// The length of each range, in the order of the ledger.
pub open spec fn total_counts(segments: Seq<SegmentProgress>) -> Seq<int> {
    segments.map_values(|s: SegmentProgress| s.total_bytes as int)
}

/// Whether no range stands twice in the ledger.
pub open spec fn segments_distinct(segments: Seq<SegmentProgress>) -> bool {
    forall|i: int, j: int|
        0 <= i < segments.len() && 0 <= j < segments.len() && i != j ==> (
        #[trigger] segments[i]).segment_id@ != (#[trigger] segments[j]).segment_id@
}

/// The length that an event makes known: the one that it carries, if the
/// ledger does not know the length of its range yet.
pub open spec fn total_gain(segments: Seq<SegmentProgress>, event: ProgressEvent) -> int {
    let at = segment_index(segments, event.segment_id@);
    if (at == segments.len() || segments[at].total_bytes == 0) && event.total_bytes is Some {
        event.total_bytes->0 as int
    } else {
        0
    }
}

/// Whether the counts of the ledger can take `event` in: both sums must
/// stay within 64 bits.
pub open spec fn fits(segments: Seq<SegmentProgress>, event: ProgressEvent) -> bool {
    &&& sum(downloaded_counts(segments)) + event.bytes_delta <= u64::MAX
    &&& sum(total_counts(segments)) + total_gain(segments, event) <= u64::MAX
}

/// The ledger after `event`. A range that is heard of for the first time
/// is added at the end. The bytes of the event are added to those of its
/// range, and the length of the range is set if it was not known and the
/// event carries it.
pub open spec fn recorded(segments: Seq<SegmentProgress>, event: ProgressEvent) -> Seq<
    SegmentProgress,
> {
    let at = segment_index(segments, event.segment_id@);
    if at < segments.len() {
        segments.update(
            at,
            SegmentProgress {
                segment_id: segments[at].segment_id,
                bytes_downloaded: (segments[at].bytes_downloaded + event.bytes_delta) as u64,
                total_bytes: (segments[at].total_bytes + total_gain(segments, event)) as u64,
            },
        )
    } else {
        segments.push(
            SegmentProgress {
                segment_id: event.segment_id,
                bytes_downloaded: event.bytes_delta,
                total_bytes: total_gain(segments, event) as u64,
            },
        )
    }
}

/// The ledger after a whole sequence of events.
pub open spec fn recorded_all(segments: Seq<SegmentProgress>, events: Seq<ProgressEvent>) -> Seq<
    SegmentProgress,
>
    decreases events.len(),
{
    if events.len() == 0 {
        segments
    } else {
        recorded(recorded_all(segments, events.drop_last()), events.last())
    }
}

/// The sum of the bytes that the events announce.
pub open spec fn deltas(events: Seq<ProgressEvent>) -> int
    decreases events.len(),
{
    if events.len() == 0 {
        0
    } else {
        deltas(events.drop_last()) + events.last().bytes_delta
    }
}

/// The invariant of the ledger: no range twice, and sums that fit.
pub open spec fn ledger_wf(segments: Seq<SegmentProgress>) -> bool {
    &&& segments_distinct(segments)
    &&& sum(downloaded_counts(segments)) <= u64::MAX
    &&& sum(total_counts(segments)) <= u64::MAX
}

proof fn lemma_counts_bounded(counts: Seq<int>, i: int)
    requires
        forall|k: int| 0 <= k < counts.len() ==> #[trigger] counts[k] >= 0,
        0 <= i <= counts.len(),
    ensures
        0 <= sum(counts.take(i)) <= sum(counts),
        i < counts.len() ==> sum(counts.take(i)) + counts[i] <= sum(counts),
    decreases counts.len() - i,
{
    if i == counts.len() {
        assert(counts.take(i) =~= counts);
        lemma_sum_nonnegative(counts);
    } else {
        lemma_counts_bounded(counts, i + 1);
        assert(counts.take(i + 1).drop_last() =~= counts.take(i));
        assert(counts.take(i + 1).last() == counts[i]);
        lemma_sum_nonnegative(counts.take(i));
    }
}

proof fn lemma_sum_nonnegative(counts: Seq<int>)
    requires
        forall|k: int| 0 <= k < counts.len() ==> #[trigger] counts[k] >= 0,
    ensures
        sum(counts) >= 0,
    decreases counts.len(),
{
    if counts.len() > 0 {
        lemma_sum_nonnegative(counts.drop_last());
        assert(counts[counts.len() - 1] >= 0);
    }
}

/// Taking an event in keeps the invariant of the ledger and adds exactly
/// what the event announces.
pub proof fn lemma_recorded(segments: Seq<SegmentProgress>, event: ProgressEvent)
    requires
        ledger_wf(segments),
        fits(segments, event),
    ensures
        ledger_wf(recorded(segments, event)),
        sum(downloaded_counts(recorded(segments, event))) == sum(downloaded_counts(segments))
            + event.bytes_delta,
        sum(total_counts(recorded(segments, event))) == sum(total_counts(segments)) + total_gain(
            segments,
            event,
        ),
{
    lemma_segment_index(segments, event.segment_id@);
    let at = segment_index(segments, event.segment_id@);
    let after = recorded(segments, event);
    let down = downloaded_counts(segments);
    let tot = total_counts(segments);
    if at < segments.len() {
        lemma_counts_bounded(down, at);
        lemma_counts_bounded(tot, at);
        lemma_counts_bounded(down, 0);
        lemma_counts_bounded(tot, 0);
        assert(down[at] <= sum(down));
        assert(tot[at] <= sum(tot));
        assert(downloaded_counts(after) =~= down.update(at, down[at] + event.bytes_delta));
        assert(total_counts(after) =~= tot.update(at, tot[at] + total_gain(segments, event)));
        lemma_sum_update(down, at, down[at] + event.bytes_delta);
        lemma_sum_update(tot, at, tot[at] + total_gain(segments, event));
        assert forall|i: int, j: int|
            0 <= i < after.len() && 0 <= j < after.len() && i != j implies (
        #[trigger] after[i]).segment_id@ != (#[trigger] after[j]).segment_id@ by {
            assert(after[i].segment_id@ == segments[i].segment_id@);
            assert(after[j].segment_id@ == segments[j].segment_id@);
        }
    } else {
        assert(downloaded_counts(after) =~= down.push(event.bytes_delta as int));
        assert(total_counts(after) =~= tot.push(total_gain(segments, event)));
        lemma_sum_push(down, event.bytes_delta as int);
        lemma_sum_push(tot, total_gain(segments, event));
        assert forall|i: int, j: int|
            0 <= i < after.len() && 0 <= j < after.len() && i != j implies (
        #[trigger] after[i]).segment_id@ != (#[trigger] after[j]).segment_id@ by {
            if i < segments.len() {
                assert(after[i] == segments[i]);
            }
            if j < segments.len() {
                assert(after[j] == segments[j]);
            }
        }
    }
}

impl ProgressLedger {
    #[verifier::type_invariant]
    spec fn inv(self) -> bool {
        ledger_wf(self.segments@)
    }

    /// A ledger that has heard of no range.
    pub fn new() -> (ledger: ProgressLedger)
        ensures
            ledger@ == Seq::<SegmentProgress>::empty(),
    {
        let ledger = ProgressLedger { segments: Vec::new() };
        assert(downloaded_counts(ledger.segments@) =~= Seq::<int>::empty());
        assert(total_counts(ledger.segments@) =~= Seq::<int>::empty());
        ledger
    }

    /// The ranges of the ledger, in the order of their first events.
    pub fn segments(&self) -> (segments: &Vec<SegmentProgress>)
        ensures
            segments@ == self@,
            ledger_wf(self@),
    {
        proof {
            use_type_invariant(self);
        }
        &self.segments
    }

    fn find(&self, id: &String) -> (at: usize)
        ensures
            at == segment_index(self.segments@, id@),
            at <= self.segments.len(),
    {
        let mut i: usize = 0;
        proof {
            lemma_segment_index(self.segments@, id@);
        }
        while i < self.segments.len()
            invariant
                i <= self.segments.len(),
                i <= segment_index(self.segments@, id@) <= self.segments.len(),
                segment_index(self.segments@, id@) < self.segments.len() ==> self.segments[segment_index(
                    self.segments@,
                    id@,
                )].segment_id@ == id@,
                forall|k: int|
                    0 <= k < segment_index(self.segments@, id@) ==> (
                    #[trigger] self.segments[k]).segment_id@ != id@,
            decreases self.segments.len() - i,
        {
            if self.segments[i].segment_id == *id {
                return i;
            }
            i = i + 1;
        }
        i
    }

    /// The bytes downloaded of all ranges together.
    pub fn total_downloaded(&self) -> (bytes: u64)
        ensures
            bytes == sum(downloaded_counts(self@)),
    {
        proof {
            use_type_invariant(self);
        }
        let mut bytes: u64 = 0;
        let mut i: usize = 0;
        let ghost counts = downloaded_counts(self.segments@);
        assert(counts.take(0) =~= Seq::<int>::empty());
        while i < self.segments.len()
            invariant
                i <= self.segments.len(),
                counts == downloaded_counts(self.segments@),
                bytes == sum(counts.take(i as int)),
                sum(counts) <= u64::MAX,
            decreases self.segments.len() - i,
        {
            proof {
                lemma_counts_bounded(counts, i as int);
                assert(counts.take(i + 1).drop_last() =~= counts.take(i as int));
                assert(counts.take(i + 1).last() == counts[i as int]);
            }
            bytes = bytes + self.segments[i].bytes_downloaded;
            i = i + 1;
        }
        assert(counts.take(self.segments.len() as int) =~= counts);
        bytes
    }

    /// The lengths of all ranges together, as far as they are known.
    pub fn total_bytes(&self) -> (bytes: u64)
        ensures
            bytes == sum(total_counts(self@)),
    {
        proof {
            use_type_invariant(self);
        }
        let mut bytes: u64 = 0;
        let mut i: usize = 0;
        let ghost counts = total_counts(self.segments@);
        assert(counts.take(0) =~= Seq::<int>::empty());
        while i < self.segments.len()
            invariant
                i <= self.segments.len(),
                counts == total_counts(self.segments@),
                bytes == sum(counts.take(i as int)),
                sum(counts) <= u64::MAX,
            decreases self.segments.len() - i,
        {
            proof {
                lemma_counts_bounded(counts, i as int);
                assert(counts.take(i + 1).drop_last() =~= counts.take(i as int));
                assert(counts.take(i + 1).last() == counts[i as int]);
            }
            bytes = bytes + self.segments[i].total_bytes;
            i = i + 1;
        }
        assert(counts.take(self.segments.len() as int) =~= counts);
        bytes
    }

    /// Whether the counts of the ledger can take `event` in.
    pub fn can_record(&self, event: &ProgressEvent) -> (yes: bool)
        ensures
            yes == fits(self@, *event),
    {
        let at = self.find(&event.segment_id);
        let gain: u64 = if at == self.segments.len() || self.segments[at].total_bytes == 0 {
            match event.total_bytes {
                Some(total) => total,
                None => 0,
            }
        } else {
            0
        };
        let downloaded = self.total_downloaded();
        let total = self.total_bytes();
        event.bytes_delta <= u64::MAX - downloaded && gain <= u64::MAX - total
    }

    /// Takes one event in.
    pub fn record(self, event: ProgressEvent) -> (after: ProgressLedger)
        requires
            fits(self@, event),
        ensures
            after@ == recorded(self@, event),
    {
        proof {
            use_type_invariant(&self);
            lemma_recorded(self.segments@, event);
            lemma_segment_index(self.segments@, event.segment_id@);
            let at = segment_index(self.segments@, event.segment_id@);
            if at < self.segments.len() {
                lemma_counts_bounded(downloaded_counts(self.segments@), at);
                lemma_counts_bounded(total_counts(self.segments@), at);
                lemma_counts_bounded(downloaded_counts(self.segments@), 0);
                lemma_counts_bounded(total_counts(self.segments@), 0);
            }
        }
        let at = self.find(&event.segment_id);
        let mut segments = self.segments;
        if at < segments.len() {
            let known = &segments[at];
            let gain: u64 = if known.total_bytes == 0 {
                match event.total_bytes {
                    Some(total) => total,
                    None => 0,
                }
            } else {
                0
            };
            let entry = SegmentProgress {
                segment_id: known.segment_id.clone(),
                bytes_downloaded: known.bytes_downloaded + event.bytes_delta,
                total_bytes: known.total_bytes + gain,
            };
            segments.set(at, entry);
        } else {
            let gain: u64 = match event.total_bytes {
                Some(total) => total,
                None => 0,
            };
            segments.push(
                SegmentProgress {
                    segment_id: event.segment_id,
                    bytes_downloaded: event.bytes_delta,
                    total_bytes: gain,
                },
            );
        }
        ProgressLedger { segments }
    }
}

/// Whether every event of the sequence can be taken in, one after the
/// other.
pub open spec fn all_fit(segments: Seq<SegmentProgress>, events: Seq<ProgressEvent>) -> bool
    decreases events.len(),
{
    if events.len() == 0 {
        true
    } else {
        all_fit(segments, events.drop_last()) && fits(
            recorded_all(segments, events.drop_last()),
            events.last(),
        )
    }
}

/// The ledger adds up. After any sequence of events the bytes downloaded
/// of all ranges together are exactly the sum of what the events
/// announced: no event is counted twice and none is lost.
pub proof fn law_ledger_adds_up(events: Seq<ProgressEvent>)
    requires
        all_fit(Seq::empty(), events),
    ensures
        ledger_wf(recorded_all(Seq::empty(), events)),
        sum(downloaded_counts(recorded_all(Seq::empty(), events))) == deltas(events),
    decreases events.len(),
{
    if events.len() == 0 {
        assert(downloaded_counts(Seq::<SegmentProgress>::empty()) =~= Seq::<int>::empty());
        assert(total_counts(Seq::<SegmentProgress>::empty()) =~= Seq::<int>::empty());
    } else {
        law_ledger_adds_up(events.drop_last());
        lemma_recorded(recorded_all(Seq::empty(), events.drop_last()), events.last());
    }
}

/// The ledger keeps what it has learned. Taking an event in leaves every
/// range in its place, adds no bytes to any other range than that of the
/// event, never lowers a count, and never changes a length that is known.
pub proof fn law_ledger_keeps_what_it_knows(segments: Seq<SegmentProgress>, event: ProgressEvent)
    requires
        ledger_wf(segments),
        fits(segments, event),
    ensures
        recorded(segments, event).len() >= segments.len(),
        forall|i: int|
            0 <= i < segments.len() ==> {
                let before = #[trigger] segments[i];
                let after = recorded(segments, event)[i];
                &&& after.segment_id@ == before.segment_id@
                &&& after.bytes_downloaded >= before.bytes_downloaded
                &&& before.segment_id@ != event.segment_id@ ==> after.bytes_downloaded
                    == before.bytes_downloaded
                &&& before.total_bytes != 0 ==> after.total_bytes == before.total_bytes
            },
{
    lemma_segment_index(segments, event.segment_id@);
    let at = segment_index(segments, event.segment_id@);
    if at < segments.len() {
        lemma_counts_bounded(downloaded_counts(segments), at);
        lemma_counts_bounded(total_counts(segments), at);
        lemma_counts_bounded(downloaded_counts(segments), 0);
        lemma_counts_bounded(total_counts(segments), 0);
        assert(downloaded_counts(segments)[at] == segments[at].bytes_downloaded);
        assert(total_counts(segments)[at] == segments[at].total_bytes);
    }
}

/// What is left of `total` bytes once `downloaded` of them are there;
/// nothing, if fewer were expected than came.
pub open spec fn remaining_of(total: u64, downloaded: u64) -> u64 {
    if total > downloaded {
        (total - downloaded) as u64
    } else {
        0
    }
}

/// The counts of one range in a snapshot.
#[derive(Debug, Clone)]
pub struct SegmentCounts {
    pub segment_id: String,
    pub bytes_downloaded: u64,
    pub total_bytes: u64,
    pub remaining: u64,
}

/// The counts of a snapshot: those of each range, and those of the job.
#[derive(Debug, Clone)]
pub struct ProgressCounts {
    pub segments: Vec<SegmentCounts>,
    pub total_bytes_downloaded: u64,
    pub total_bytes: u64,
    pub remaining: u64,
    pub done: bool,
}

/// Whether `counts` are the counts of the range `segment`.
pub open spec fn counts_of(segment: SegmentProgress, counts: SegmentCounts) -> bool {
    &&& counts.segment_id@ == segment.segment_id@
    &&& counts.bytes_downloaded == segment.bytes_downloaded
    &&& counts.total_bytes == segment.total_bytes
    &&& counts.remaining == remaining_of(segment.total_bytes, segment.bytes_downloaded)
}

/// Whether `counts` is the snapshot of the ledger `segments`.
pub open spec fn is_snapshot(segments: Seq<SegmentProgress>, done: bool, counts: ProgressCounts) -> bool {
    &&& counts.segments.len() == segments.len()
    &&& forall|i: int|
        0 <= i < segments.len() ==> counts_of(segments[i], #[trigger] counts.segments[i])
    &&& counts.total_bytes_downloaded == sum(downloaded_counts(segments))
    &&& counts.total_bytes == sum(total_counts(segments))
    &&& counts.remaining == remaining_of(counts.total_bytes, counts.total_bytes_downloaded)
    &&& counts.done == done
}

impl ProgressLedger {
    /// A fresh snapshot of the counts.
    pub fn snapshot(&self, done: bool) -> (counts: ProgressCounts)
        ensures
            is_snapshot(self@, done, counts),
    {
        let mut segments: Vec<SegmentCounts> = Vec::new();
        let mut i: usize = 0;
        while i < self.segments.len()
            invariant
                i <= self.segments.len(),
                segments.len() == i,
                forall|k: int|
                    0 <= k < i ==> counts_of(self.segments[k], #[trigger] segments[k]),
            decreases self.segments.len() - i,
        {
            let segment = &self.segments[i];
            segments.push(
                SegmentCounts {
                    segment_id: segment.segment_id.clone(),
                    bytes_downloaded: segment.bytes_downloaded,
                    total_bytes: segment.total_bytes,
                    remaining: segment.total_bytes.saturating_sub(segment.bytes_downloaded),
                },
            );
            i = i + 1;
        }
        let total_bytes_downloaded = self.total_downloaded();
        let total_bytes = self.total_bytes();
        ProgressCounts {
            segments,
            total_bytes_downloaded,
            total_bytes,
            remaining: total_bytes.saturating_sub(total_bytes_downloaded),
            done,
        }
    }
}

/// Where the aggregator stands.
#[derive(Debug, Clone, Copy, PartialEq, Eq, Structural)]
pub enum NotifierPhase {
    /// Events are taken in.
    Running,
    /// An error came: nothing is taken in any more.
    Failed,
    /// The channel was closed without an error.
    Completed,
}

/// What comes out of the progress channel.
#[derive(Debug)]
pub enum ChannelMessage {
    /// News from a fetcher.
    Event(ProgressEvent),
    /// The download failed, with this text.
    Failure(String),
    /// Every sender is gone.
    Closed,
}

/// What the aggregator tells every observer, in the order in which they
/// were registered.
#[derive(Debug)]
pub enum Notice {
    /// `on_progress` with this snapshot.
    Progress(ProgressCounts),
    /// `on_error` with this text.
    Error(String),
    /// `on_complete` with this snapshot.
    Complete(ProgressCounts),
    /// No call.
    Nothing,
}

/// The kind of call that a message leads to.
#[derive(Debug, Clone, Copy, PartialEq, Eq, Structural)]
pub enum NoticeKind {
    Progress,
    Error,
    Complete,
    Nothing,
}

/// The kind of call that `message` leads to in phase `phase`.
pub open spec fn notice_kind(phase: NotifierPhase, message: ChannelMessage) -> NoticeKind {
    match (phase, message) {
        (NotifierPhase::Running, ChannelMessage::Event(event)) => NoticeKind::Progress,
        (NotifierPhase::Running, ChannelMessage::Failure(text)) => NoticeKind::Error,
        (NotifierPhase::Running, ChannelMessage::Closed) => NoticeKind::Complete,
        _ => NoticeKind::Nothing,
    }
}

/// The phase after `message`.
pub open spec fn next_phase(phase: NotifierPhase, message: ChannelMessage) -> NotifierPhase {
    match (phase, message) {
        (NotifierPhase::Running, ChannelMessage::Failure(text)) => NotifierPhase::Failed,
        (NotifierPhase::Running, ChannelMessage::Closed) => NotifierPhase::Completed,
        _ => phase,
    }
}

/// The ledger after `message`.
pub open spec fn next_segments(
    phase: NotifierPhase,
    segments: Seq<SegmentProgress>,
    message: ChannelMessage,
) -> Seq<SegmentProgress> {
    match (phase, message) {
        (NotifierPhase::Running, ChannelMessage::Event(event)) => recorded(segments, event),
        _ => segments,
    }
}

/// The phase after a sequence of messages, from the start.
pub open spec fn phase_after(messages: Seq<ChannelMessage>) -> NotifierPhase
    decreases messages.len(),
{
    if messages.len() == 0 {
        NotifierPhase::Running
    } else {
        next_phase(phase_after(messages.drop_last()), messages.last())
    }
}

/// The kind of call that the message at `i` leads to.
pub open spec fn kind_at(messages: Seq<ChannelMessage>, i: int) -> NoticeKind {
    notice_kind(phase_after(messages.take(i)), messages[i])
}

/// The aggregator: the ledger, and whether it still takes events in.
#[derive(Debug)]
pub struct ProgressNotifier {
    pub ledger: ProgressLedger,
    pub phase: NotifierPhase,
}

impl ProgressNotifier {
    /// An aggregator that has seen nothing yet.
    pub fn new() -> (notifier: ProgressNotifier)
        ensures
            notifier.phase == NotifierPhase::Running,
            notifier.ledger@ == Seq::<SegmentProgress>::empty(),
    {
        ProgressNotifier { ledger: ProgressLedger::new(), phase: NotifierPhase::Running }
    }

    /// Whether `message` can be taken in: an event must fit the counts.
    pub open spec fn takes(self, message: ChannelMessage) -> bool {
        self.phase == NotifierPhase::Running && message is Event ==> fits(
            self.ledger@,
            message->Event_0,
        )
    }

    /// Whether `message` can be taken in.
    pub fn can_take(&self, message: &ChannelMessage) -> (yes: bool)
        ensures
            yes == self.takes(*message),
    {
        match self.phase {
            NotifierPhase::Running => match message {
                ChannelMessage::Event(event) => self.ledger.can_record(event),
                _ => true,
            },
            _ => true,
        }
    }

    /// Takes one message from the channel in and says what the observers
    /// are to be told.
    pub fn on_message(self, message: ChannelMessage) -> (after: (ProgressNotifier, Notice))
        requires
            self.takes(message),
        ensures
            after.0.phase == next_phase(self.phase, message),
            after.0.ledger@ == next_segments(self.phase, self.ledger@, message),
            match after.1 {
                Notice::Progress(counts) => notice_kind(self.phase, message)
                    == NoticeKind::Progress && is_snapshot(after.0.ledger@, false, counts),
                Notice::Error(text) => notice_kind(self.phase, message) == NoticeKind::Error
                    && message == ChannelMessage::Failure(text),
                Notice::Complete(counts) => notice_kind(self.phase, message)
                    == NoticeKind::Complete && is_snapshot(after.0.ledger@, true, counts),
                Notice::Nothing => notice_kind(self.phase, message) == NoticeKind::Nothing,
            },
    {
        match self.phase {
            NotifierPhase::Running => match message {
                ChannelMessage::Event(event) => {
                    let ledger = self.ledger.record(event);
                    let counts = ledger.snapshot(false);
                    (
                        ProgressNotifier { ledger, phase: NotifierPhase::Running },
                        Notice::Progress(counts),
                    )
                },
                ChannelMessage::Failure(text) => (
                    ProgressNotifier { ledger: self.ledger, phase: NotifierPhase::Failed },
                    Notice::Error(text),
                ),
                ChannelMessage::Closed => {
                    let counts = self.ledger.snapshot(true);
                    (
                        ProgressNotifier { ledger: self.ledger, phase: NotifierPhase::Completed },
                        Notice::Complete(counts),
                    )
                },
            },
            _ => (self, Notice::Nothing),
        }
    }
}

proof fn lemma_phase_stays_ended(messages: Seq<ChannelMessage>, i: int)
    requires
        0 <= i <= messages.len(),
        phase_after(messages.take(i)) != NotifierPhase::Running,
    ensures
        phase_after(messages) != NotifierPhase::Running,
    decreases messages.len() - i,
{
    if i == messages.len() {
        assert(messages.take(i) =~= messages);
    } else {
        assert(messages.take(i + 1).drop_last() =~= messages.take(i));
        lemma_phase_stays_ended(messages, i + 1);
    }
}

/// The end comes once. When a message has led to `on_error` or to
/// `on_complete`, no later message leads to any call: the observers hear
/// of the end of a job exactly once, and nothing after it.
pub proof fn law_nothing_follows_the_end(messages: Seq<ChannelMessage>, i: int, j: int)
    requires
        0 <= i < j < messages.len(),
        kind_at(messages, i) == NoticeKind::Error || kind_at(messages, i) == NoticeKind::Complete,
    ensures
        kind_at(messages, j) == NoticeKind::Nothing,
{
    let upto = messages.take(j);
    assert(upto.take(i + 1) =~= messages.take(i + 1));
    assert(messages.take(i + 1).drop_last() =~= messages.take(i));
    assert(messages.take(i + 1).last() == messages[i]);
    assert(phase_after(messages.take(i + 1)) != NotifierPhase::Running);
    lemma_phase_stays_ended(upto, i + 1);
}

proof fn lemma_events_keep_running(messages: Seq<ChannelMessage>, upto: int)
    requires
        0 <= upto <= messages.len(),
        forall|k: int| 0 <= k < upto ==> (#[trigger] messages[k]) is Event,
    ensures
        phase_after(messages.take(upto)) == NotifierPhase::Running,
    decreases upto,
{
    if upto > 0 {
        lemma_events_keep_running(messages, upto - 1);
        assert(messages.take(upto).drop_last() =~= messages.take(upto - 1));
        assert(messages.take(upto).last() == messages[upto - 1]);
    }
}

/// A failed download is heard of as an error, once. When the channel
/// carries events, then the text of a failure, and then whatever else,
/// down to its closing, every event leads to `on_progress`, the failure to
/// `on_error`, and nothing after it to any call: `on_complete` is never
/// called.
pub proof fn law_failure_is_heard_once(messages: Seq<ChannelMessage>, at: int)
    requires
        0 <= at < messages.len(),
        messages[at] is Failure,
        forall|k: int| 0 <= k < at ==> (#[trigger] messages[k]) is Event,
    ensures
        kind_at(messages, at) == NoticeKind::Error,
        forall|k: int| 0 <= k < at ==> #[trigger] kind_at(messages, k) == NoticeKind::Progress,
        forall|j: int| at < j < messages.len() ==> #[trigger] kind_at(messages, j)
            == NoticeKind::Nothing,
{
    lemma_events_keep_running(messages, at);
    assert forall|k: int| 0 <= k < at implies #[trigger] kind_at(messages, k)
        == NoticeKind::Progress by {
        lemma_events_keep_running(messages, k);
        assert(messages[k] is Event);
    }
    assert forall|j: int| at < j < messages.len() implies #[trigger] kind_at(messages, j)
        == NoticeKind::Nothing by {
        law_nothing_follows_the_end(messages, at, j);
    }
}

/// A download that ends well is heard of as complete, once. When the
/// channel carries events and is then closed, every event leads to
/// `on_progress`, the closing to `on_complete`, and nothing after it to any
/// call: `on_error` is never called.
pub proof fn law_success_is_heard_once(messages: Seq<ChannelMessage>, at: int)
    requires
        0 <= at < messages.len(),
        messages[at] is Closed,
        forall|k: int| 0 <= k < at ==> (#[trigger] messages[k]) is Event,
    ensures
        kind_at(messages, at) == NoticeKind::Complete,
        forall|k: int| 0 <= k < at ==> #[trigger] kind_at(messages, k) == NoticeKind::Progress,
        forall|j: int| at < j < messages.len() ==> #[trigger] kind_at(messages, j)
            == NoticeKind::Nothing,
{
    lemma_events_keep_running(messages, at);
    assert forall|k: int| 0 <= k < at implies #[trigger] kind_at(messages, k)
        == NoticeKind::Progress by {
        lemma_events_keep_running(messages, k);
        assert(messages[k] is Event);
    }
    assert forall|j: int| at < j < messages.len() implies #[trigger] kind_at(messages, j)
        == NoticeKind::Nothing by {
        law_nothing_follows_the_end(messages, at, j);
    }
}

} // verus!
