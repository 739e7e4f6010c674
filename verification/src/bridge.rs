//! The rules of the bridge to the browser: what is known of the media that
//! the browser saw, which of the headers that it captured are replayed, and
//! how a download that it asked for is told about.

use vstd::prelude::*;
use vstd::string::StringExecFns;
use std::collections::hash_map::DefaultHasher;
use std::hash::{BuildHasher, BuildHasherDefault};
use crate::sanitizer::{last_segment, last_segment_of};
use crate::headers::{
    entry_texts, lemma_with_header_texts, names_distinct, with_optional_pair, with_pairs,
    NamedValues,
};
use crate::job::{lemma_with_headers_all_texts, MultipartDownloadStrategy};
use crate::text::{
    append, chars_of, find_last_char, last_position_of, render_u64, same_text, signed_decimal,
    slice_of, string_of, text_of, texts_of, to_lowercase, unicode_lowercase,
};
use crate::types::HeaderEntry;

verus! {

/// How a download that the bridge started stands.
#[derive(Debug, Clone, Copy, PartialEq, Eq, Structural)]
pub enum DownloadStatus {
    Running,
    Complete,
    Failed,
    Cancelled,
}

impl DownloadStatus {
    /// The name of the status as it is told to clients.
    pub open spec fn name_text(self) -> Seq<char> {
        match self {
            DownloadStatus::Running => "running"@,
            DownloadStatus::Complete => "complete"@,
            DownloadStatus::Failed => "failed"@,
            DownloadStatus::Cancelled => "cancelled"@,
        }
    }

    /// The name of the status as it is told to clients.
    pub fn name(self) -> (name: String)
        ensures
            name@ == self.name_text(),
    {
        match self {
            DownloadStatus::Running => String::from_str("running"),
            DownloadStatus::Complete => String::from_str("complete"),
            DownloadStatus::Failed => String::from_str("failed"),
            DownloadStatus::Cancelled => String::from_str("cancelled"),
        }
    }

    /// The status of a download that has ended by itself.
    pub fn ended(succeeded: bool) -> (status: DownloadStatus)
        ensures
            status == if succeeded {
                DownloadStatus::Complete
            } else {
                DownloadStatus::Failed
            },
    {
        if succeeded {
            DownloadStatus::Complete
        } else {
            DownloadStatus::Failed
        }
    }
}

/// One value in the list that a captured header may hold: a text, or
/// anything else, kept as it was written.
#[derive(Debug, Clone)]
pub enum JsonItem {
    Text(String),
    Other(String),
}

/// The value of a captured header: a text, a list, or anything else, kept
/// as it was written.
#[derive(Debug, Clone)]
pub enum JsonValue {
    Text(String),
    List(Vec<JsonItem>),
    Other(String),
}

/// A header as the browser captured it.
#[derive(Debug, Clone)]
pub struct CapturedHeader {
    pub name: String,
    pub value: JsonValue,
}

/// Whether a header, named in lower case, is never replayed: the headers
/// of the connection itself, those that the engine sets by its own rules,
/// and those that speak of a body.
pub open spec fn is_blocked_key(key: Seq<char>) -> bool {
    key == "host"@ || key == "connection"@ || key == "keep-alive"@ || key == "transfer-encoding"@
        || key == "te"@ || key == "trailer"@ || key == "upgrade"@ || key
        == "proxy-authorization"@ || key == "proxy-authenticate"@ || key == "proxy-connection"@
        || key == "cookie"@ || key == "accept-encoding"@ || key == "range"@ || key
        == "content-length"@ || key == "content-type"@
}

/// Whether a header, named in lower case, is never replayed.
pub fn blocked_key(key: &str) -> (yes: bool)
    ensures
        yes == is_blocked_key(key@),
{
    same_text(key, "host") || same_text(key, "connection") || same_text(key, "keep-alive")
        || same_text(key, "transfer-encoding") || same_text(key, "te") || same_text(
        key,
        "trailer",
    ) || same_text(key, "upgrade") || same_text(key, "proxy-authorization") || same_text(
        key,
        "proxy-authenticate",
    ) || same_text(key, "proxy-connection") || same_text(key, "cookie") || same_text(
        key,
        "accept-encoding",
    ) || same_text(key, "range") || same_text(key, "content-length") || same_text(
        key,
        "content-type",
    )
}

/// Whether a header is never replayed, whatever the case of its name.
pub fn is_blocked(name: &str) -> (yes: bool)
    ensures
        yes == is_blocked_key(unicode_lowercase(name@)),
{
    let key = to_lowercase(name);
    blocked_key(key.as_str())
}

/// The texts among the items of a list, in their order.
pub open spec fn item_texts(items: Seq<JsonItem>) -> Seq<Seq<char>>
    decreases items.len(),
{
    if items.len() == 0 {
        Seq::empty()
    } else {
        match items.last() {
            JsonItem::Text(t) => item_texts(items.drop_last()).push(t@),
            JsonItem::Other(raw) => item_texts(items.drop_last()),
        }
    }
}

/// The values that a captured value stands for: its text, or the texts in
/// its list.
pub open spec fn value_texts(value: JsonValue) -> Seq<Seq<char>> {
    match value {
        JsonValue::Text(t) => seq![t@],
        JsonValue::List(items) => item_texts(items@),
        JsonValue::Other(raw) => Seq::empty(),
    }
}

/// The captured headers that are replayed: every one that is not blocked
/// and stands for at least one text, with those texts as its values.
pub open spec fn replayed(headers: Seq<CapturedHeader>) -> Seq<(Seq<char>, Seq<Seq<char>>)>
    decreases headers.len(),
{
    if headers.len() == 0 {
        Seq::empty()
    } else {
        let last = headers.last();
        if is_blocked_key(unicode_lowercase(last.name@)) || value_texts(last.value).len() == 0 {
            replayed(headers.drop_last())
        } else {
            replayed(headers.drop_last()).push((last.name@, value_texts(last.value)))
        }
    }
}

fn texts_in(value: &JsonValue) -> (values: Vec<String>)
    ensures
        texts_of(values@) == value_texts(*value),
{
    let mut values: Vec<String> = Vec::new();
    match value {
        JsonValue::Text(t) => {
            values.push(t.clone());
            assert(texts_of(values@) =~= seq![t@]);
        },
        JsonValue::List(items) => {
            let mut i: usize = 0;
            assert(texts_of(values@) =~= item_texts(items@.take(0)));
            while i < items.len()
                invariant
                    i <= items.len(),
                    texts_of(values@) == item_texts(items@.take(i as int)),
                decreases items.len() - i,
            {
                assert(items@.take(i + 1).drop_last() =~= items@.take(i as int));
                assert(items@.take(i + 1).last() == items@[i as int]);
                let ghost before = values@;
                match &items[i] {
                    JsonItem::Text(t) => {
                        values.push(t.clone());
                        assert(texts_of(values@) =~= texts_of(before).push(t@));
                    },
                    JsonItem::Other(raw) => {},
                }
                i = i + 1;
            }
            assert(items@.take(items.len() as int) =~= items@);
        },
        JsonValue::Other(raw) => {
            assert(texts_of(values@) =~= Seq::<Seq<char>>::empty());
        },
    }
    values
}

/// Picks the captured headers that are replayed to the origin.
pub fn json_headers_to_vec(headers: &Vec<CapturedHeader>) -> (entries: Vec<HeaderEntry>)
    ensures
        entry_texts(entries@) == replayed(headers@),
{
    let mut entries: Vec<HeaderEntry> = Vec::new();
    let mut i: usize = 0;
    assert(entry_texts(entries@) =~= replayed(headers@.take(0)));
    while i < headers.len()
        invariant
            i <= headers.len(),
            entry_texts(entries@) == replayed(headers@.take(i as int)),
        decreases headers.len() - i,
    {
        assert(headers@.take(i + 1).drop_last() =~= headers@.take(i as int));
        assert(headers@.take(i + 1).last() == headers@[i as int]);
        let header = &headers[i];
        if !is_blocked(header.name.as_str()) {
            let values = texts_in(&header.value);
            if values.len() > 0 {
                let ghost before = entries@;
                let entry = HeaderEntry { name: header.name.clone(), values };
                entries.push(entry);
                assert(entry_texts(entries@) =~= entry_texts(before).push(
                    (header.name@, value_texts(header.value)),
                ));
            }
        }
        i = i + 1;
    }
    assert(headers@.take(headers.len() as int) =~= headers@);
    entries
}

/// The position of the first captured header called `name`, or the number
/// of headers if there is none.
pub open spec fn captured_index(headers: Seq<CapturedHeader>, name: Seq<char>) -> int
    decreases headers.len(),
{
    if headers.len() == 0 {
        0
    } else if headers[0].name@ == name {
        0
    } else {
        1 + captured_index(headers.drop_first(), name)
    }
}

proof fn lemma_captured_index(headers: Seq<CapturedHeader>, name: Seq<char>)
    ensures
        0 <= captured_index(headers, name) <= headers.len(),
        captured_index(headers, name) < headers.len() ==> headers[captured_index(
            headers,
            name,
        )].name@ == name,
        forall|k: int|
            0 <= k < captured_index(headers, name) ==> (#[trigger] headers[k]).name@ != name,
    decreases headers.len(),
{
    if headers.len() > 0 && headers[0].name@ != name {
        let rest = headers.drop_first();
        lemma_captured_index(rest, name);
        assert forall|k: int| 0 <= k < captured_index(headers, name) implies (
        #[trigger] headers[k]).name@ != name by {
            if k > 0 {
                assert(rest[k - 1] == headers[k]);
            }
        }
    }
}

/// The first item of the list under `name`, if the headers hold that name
/// with a list whose first item is a text.
pub open spec fn first_text_under(headers: Seq<CapturedHeader>, name: Seq<char>) -> Option<
    Seq<char>,
> {
    let at = captured_index(headers, name);
    if at < headers.len() {
        match headers[at].value {
            JsonValue::List(items) => if items@.len() > 0 {
                match items@[0] {
                    JsonItem::Text(t) => Some(t@),
                    JsonItem::Other(raw) => None,
                }
            } else {
                None
            },
            _ => None,
        }
    } else {
        None
    }
}

/// Whether the headers hold the name `name`.
pub open spec fn holds_name(headers: Seq<CapturedHeader>, name: Seq<char>) -> bool {
    captured_index(headers, name) < headers.len()
}

/// The first text of a header that is looked up under its usual name and,
/// where that is missing, under its name in lower case.
pub open spec fn header_text(headers: Seq<CapturedHeader>, usual: Seq<char>, lower: Seq<char>) -> Option<
    Seq<char>,
> {
    if holds_name(headers, usual) {
        first_text_under(headers, usual)
    } else {
        first_text_under(headers, lower)
    }
}

fn find_captured(headers: &Vec<CapturedHeader>, name: &str) -> (at: usize)
    ensures
        at == captured_index(headers@, name@),
        at <= headers.len(),
{
    let mut i: usize = 0;
    proof {
        lemma_captured_index(headers@, name@);
    }
    while i < headers.len()
        invariant
            i <= headers.len(),
            i <= captured_index(headers@, name@) <= headers.len(),
            captured_index(headers@, name@) < headers.len() ==> headers[captured_index(
                headers@,
                name@,
            )].name@ == name@,
            forall|k: int|
                0 <= k < captured_index(headers@, name@) ==> (#[trigger] headers[k]).name@
                    != name@,
        decreases headers.len() - i,
    {
        if same_text(headers[i].name.as_str(), name) {
            return i;
        }
        i = i + 1;
    }
    i
}

fn first_text_at(headers: &Vec<CapturedHeader>, name: &str) -> (text: Option<String>)
    ensures
        text_of(text) == first_text_under(headers@, name@),
{
    let at = find_captured(headers, name);
    if at < headers.len() {
        match &headers[at].value {
            JsonValue::List(items) => {
                if items.len() > 0 {
                    match &items[0] {
                        JsonItem::Text(t) => Some(t.clone()),
                        JsonItem::Other(raw) => None,
                    }
                } else {
                    None
                }
            },
            _ => None,
        }
    } else {
        None
    }
}

/// Reads the first text of a captured header, by its usual name or by its
/// name in lower case.
pub fn captured_text(headers: &Vec<CapturedHeader>, usual: &str, lower: &str) -> (text: Option<
    String,
>)
    ensures
        text_of(text) == header_text(headers@, usual@, lower@),
{
    if find_captured(headers, usual) < headers.len() {
        first_text_at(headers, usual)
    } else {
        first_text_at(headers, lower)
    }
}

/// The title under which media is listed: the title of the tab, unless
/// there is none or it is empty, and then the address.
pub fn media_title(file: Option<&str>, url: &str) -> (title: String)
    ensures
        title@ == match file {
            Some(f) => if f@.len() > 0 {
                f@
            } else {
                url@
            },
            None => url@,
        },
{
    match file {
        Some(f) => {
            if f.unicode_len() > 0 {
                String::from_str(f)
            } else {
                String::from_str(url)
            }
        },
        None => String::from_str(url),
    }
}

/// The part of `s` before its last `c`, or all of `s` if it holds none.
pub open spec fn before_last(s: Seq<char>, c: char) -> Seq<char> {
    match last_position_of(s, c) {
        Some(i) => s.take(i),
        None => s,
    }
}

/// The directory above the directory `crate_dir`.
pub fn workspace_root(crate_dir: &str) -> (root: String)
    ensures
        root@ == before_last(crate_dir@, '/'),
{
    let chars = chars_of(crate_dir);
    match find_last_char(&chars, '/') {
        Some(i) => {
            assert(chars@.subrange(0, i as int) =~= chars@.take(i as int));
            string_of(&slice_of(&chars, 0, i))
        },
        None => String::from_str(crate_dir),
    }
}

/// A place in a source file as text: the path, a colon, the line.
pub open spec fn place(abs_path: Seq<char>, line: u32) -> Seq<char> {
    abs_path.push(':') + signed_decimal(line as int)
}

/// A link that a terminal makes clickable: the place as the address of a
/// file between the marks that open a link, the place as the text to
/// show, and the marks that close the link.
pub open spec fn terminal_link(abs_path: Seq<char>, line: u32) -> Seq<char> {
    "\x1b]8;;file://"@ + place(abs_path, line) + "\x07"@ + place(abs_path, line)
        + "\x1b]8;;\x07"@
}

/// Writes a terminal link to a line of a source file.
pub fn osc8_link(abs_path: &str, line: u32) -> (link: String)
    ensures
        link@ == terminal_link(abs_path@, line),
{
    let mut place = chars_of(abs_path);
    place.push(':');
    append(&mut place, &render_u64(line as u64));
    let mut link = chars_of("\x1b]8;;file://");
    append(&mut link, &place);
    append(&mut link, &chars_of("\x07"));
    append(&mut link, &place);
    append(&mut link, &chars_of("\x1b]8;;\x07"));
    string_of(&link)
}

/// The file name that an address proposes: the last part between slashes
/// that is not empty, or `download`.
pub fn filename_from_url(url: &str) -> (name: String)
    ensures
        name@ == match last_segment(url@) {
            Some(segment) => segment,
            None => "download"@,
        },
{
    let chars = chars_of(url);
    match last_segment_of(&chars) {
        Some(segment) => string_of(&segment),
        None => String::from_str("download"),
    }
}

/// The number that the default hasher of the standard library gives a
/// text.
pub uninterp spec fn hashed(text: Seq<char>) -> u64;

/// `std::hash::BuildHasher::hash_one` of the default hasher of the
/// standard library, made with fixed keys: the hash of the text as `str`
/// hashes. The result depends on the text alone.
#[verifier::external_body]
pub(crate) fn default_hash(text: &str) -> (hash: u64)
    ensures
        hash == hashed(text@),
{
    BuildHasherDefault::<DefaultHasher>::default().hash_one(text)
}

/// The character of a hexadecimal digit, in lower case.
pub open spec fn hex_char(d: int) -> char {
    if d < 10 {
        (48 + d) as char
    } else {
        (87 + d) as char
    }
}

/// The last `count` hexadecimal digits of a number, leading zeros
/// included.
pub open spec fn hex_digits(n: int, count: nat) -> Seq<char>
    decreases count,
{
    if count == 0 {
        Seq::empty()
    } else {
        hex_digits(n / 16, (count - 1) as nat).push(hex_char(n % 16))
    }
}

fn render_hex16(n: u64) -> (digits: Vec<char>)
    ensures
        digits@ == hex_digits(n as int, 16),
{
    let mut digits: Vec<char> = Vec::new();
    let mut rest: u64 = n;
    let mut done: usize = 0;
    assert(hex_digits(rest as int, 16) + digits@ =~= hex_digits(n as int, 16));
    while done < 16
        invariant
            done <= 16,
            hex_digits(n as int, 16) == hex_digits(rest as int, (16 - done) as nat) + digits@,
        decreases 16 - done,
    {
        let d: u8 = (rest % 16) as u8;
        let c: char = if d < 10 {
            (48u8 + d) as char
        } else {
            (87u8 + d) as char
        };
        let ghost before = digits@;
        digits.insert(0, c);
        assert(hex_digits(rest as int, (16 - done) as nat) == hex_digits(
            rest as int / 16,
            (16 - done - 1) as nat,
        ).push(c));
        assert(hex_digits(rest as int / 16, (16 - done - 1) as nat).push(c) + before
            =~= hex_digits(rest as int / 16, (16 - done - 1) as nat) + digits@);
        rest = rest / 16;
        done = done + 1;
    }
    assert(hex_digits(rest as int, 0) + digits@ =~= digits@);
    digits
}

/// A stable id for the media at an address: the hash of the address in
/// sixteen hexadecimal digits.
pub fn uuid_from_url(url: &str) -> (id: String)
    ensures
        id@ == hex_digits(hashed(url@) as int, 16),
{
    string_of(&render_hex16(default_hash(url)))
}

/// Writes a number in sixteen hexadecimal digits.
pub fn hex16(n: u64) -> (text: String)
    ensures
        text@ == hex_digits(n as int, 16),
{
    string_of(&render_hex16(n))
}

/// Media that the browser saw, with all that a download of it needs.
#[derive(Debug, Clone)]
pub struct VideoListItem {
    pub id: String,
    /// The title, as a rule that of the tab.
    pub text: String,
    /// The media type.
    pub info: String,
    pub tab_id: String,
    pub url: String,
    pub cookie: String,
    pub request_headers: Vec<CapturedHeader>,
    pub response_headers: Vec<CapturedHeader>,
    pub method: Option<String>,
    pub user_agent: Option<String>,
    pub tab_url: Option<String>,
    pub referer: Option<String>,
}

/// The position of the first item with the id `id`, or the number of items
/// if there is none.
pub open spec fn video_index(videos: Seq<VideoListItem>, id: Seq<char>) -> int
    decreases videos.len(),
{
    if videos.len() == 0 {
        0
    } else if videos[0].id@ == id {
        0
    } else {
        1 + video_index(videos.drop_first(), id)
    }
}

/// What `video_index` gives is the first item with the id.
pub proof fn lemma_video_index(videos: Seq<VideoListItem>, id: Seq<char>)
    ensures
        0 <= video_index(videos, id) <= videos.len(),
        video_index(videos, id) < videos.len() ==> videos[video_index(videos, id)].id@ == id,
        forall|k: int| 0 <= k < video_index(videos, id) ==> (#[trigger] videos[k]).id@ != id,
    decreases videos.len(),
{
    if videos.len() > 0 && videos[0].id@ != id {
        let rest = videos.drop_first();
        lemma_video_index(rest, id);
        assert forall|k: int| 0 <= k < video_index(videos, id) implies (#[trigger] videos[k]).id@
            != id by {
            if k > 0 {
                assert(rest[k - 1] == videos[k]);
            }
        }
    }
}

/// Whether no id occurs twice among the items.
pub open spec fn videos_distinct(videos: Seq<VideoListItem>) -> bool {
    forall|i: int, j: int|
        0 <= i < videos.len() && 0 <= j < videos.len() && i != j ==> (#[trigger] videos[i]).id@
            != (#[trigger] videos[j]).id@
}

/// The list after `item` has been added: in the place of the item with the
/// same id, or at the end.
pub open spec fn with_video(videos: Seq<VideoListItem>, item: VideoListItem) -> Seq<VideoListItem> {
    let at = video_index(videos, item.id@);
    if at < videos.len() {
        videos.update(at, item)
    } else {
        videos.push(item)
    }
}

/// The list without the item `id`.
pub open spec fn without_video(videos: Seq<VideoListItem>, id: Seq<char>) -> Seq<VideoListItem> {
    let at = video_index(videos, id);
    if at < videos.len() {
        videos.remove(at)
    } else {
        videos
    }
}

/// The list with the title `title` given to every item of the tab `tab`.
pub open spec fn retitled(videos: Seq<VideoListItem>, tab: Seq<char>, title: String) -> Seq<
    VideoListItem,
> {
    videos.map_values(
        |v: VideoListItem|
            if v.tab_id@ == tab {
                VideoListItem { text: title, ..v }
            } else {
                v
            },
    )
}

/// The message about an id that the tracker does not hold.
pub open spec fn not_found_text(id: Seq<char>) -> Seq<char> {
    "VideoTracker::trigger_download: video id "@ + id + " not found"@
}

/// The media that the browser saw, one item for each id.
#[derive(Debug)]
pub struct VideoTracker {
    pub videos: Vec<VideoListItem>,
}

impl VideoTracker {
    /// The invariant of the tracker: no id twice.
    pub open spec fn wf(self) -> bool {
        videos_distinct(self.videos@)
    }

    /// A tracker that holds nothing.
    pub fn new() -> (tracker: VideoTracker)
        ensures
            tracker.wf(),
            tracker.videos@ == Seq::<VideoListItem>::empty(),
    {
        VideoTracker { videos: Vec::new() }
    }

    fn find(&self, id: &str) -> (at: usize)
        ensures
            at == video_index(self.videos@, id@),
            at <= self.videos.len(),
    {
        let mut i: usize = 0;
        proof {
            lemma_video_index(self.videos@, id@);
        }
        while i < self.videos.len()
            invariant
                i <= self.videos.len(),
                i <= video_index(self.videos@, id@) <= self.videos.len(),
                video_index(self.videos@, id@) < self.videos.len() ==> self.videos[video_index(
                    self.videos@,
                    id@,
                )].id@ == id@,
                forall|k: int|
                    0 <= k < video_index(self.videos@, id@) ==> (#[trigger] self.videos[k]).id@
                        != id@,
            decreases self.videos.len() - i,
        {
            if same_text(self.videos[i].id.as_str(), id) {
                return i;
            }
            i = i + 1;
        }
        i
    }

    /// Adds an item, in the place of the one with the same id if there is
    /// one.
    pub fn add_or_update(&mut self, item: VideoListItem)
        ensures
            final(self).videos@ == with_video(old(self).videos@, item),
            old(self).wf() ==> final(self).wf(),
    {
        proof {
            lemma_video_index(self.videos@, item.id@);
            let after = with_video(self.videos@, item);
            if videos_distinct(self.videos@) {
                assert forall|i: int, j: int|
                    0 <= i < after.len() && 0 <= j < after.len() && i != j implies (
                #[trigger] after[i]).id@ != (#[trigger] after[j]).id@ by {
                    if video_index(self.videos@, item.id@) < self.videos.len() {
                        assert(after[i].id@ == self.videos@[i].id@);
                        assert(after[j].id@ == self.videos@[j].id@);
                    } else {
                        if i < self.videos.len() {
                            assert(after[i] == self.videos@[i]);
                        }
                        if j < self.videos.len() {
                            assert(after[j] == self.videos@[j]);
                        }
                    }
                }
            }
        }
        let at = self.find(item.id.as_str());
        if at < self.videos.len() {
            self.videos.set(at, item);
        } else {
            self.videos.push(item);
        }
    }

    /// Says whether a download of the item `id` can be started.
    pub fn trigger_download(&self, id: &str) -> (result: Result<String, String>)
        ensures
            match result {
                Ok(text) => video_index(self.videos@, id@) < self.videos.len() && text@
                    == "triggered Download"@,
                Err(text) => video_index(self.videos@, id@) == self.videos.len() && text@
                    == not_found_text(id@),
            },
    {
        if self.find(id) < self.videos.len() {
            Ok(String::from_str("triggered Download"))
        } else {
            Err(
                String::from_str("VideoTracker::trigger_download: video id ").concat(id).concat(
                    " not found",
                ),
            )
        }
    }

    /// The item `id`, or the message that there is none.
    pub fn get_video(&self, id: &str) -> (result: Result<&VideoListItem, String>)
        ensures
            match result {
                Ok(item) => video_index(self.videos@, id@) < self.videos.len() && *item
                    == self.videos[video_index(self.videos@, id@)],
                Err(text) => video_index(self.videos@, id@) == self.videos.len() && text@
                    == not_found_text(id@),
            },
    {
        let at = self.find(id);
        if at < self.videos.len() {
            Ok(&self.videos[at])
        } else {
            Err(
                String::from_str("VideoTracker::trigger_download: video id ").concat(id).concat(
                    " not found",
                ),
            )
        }
    }

    /// Forgets every item.
    pub fn clear(&mut self)
        ensures
            final(self).wf(),
            final(self).videos@ == Seq::<VideoListItem>::empty(),
    {
        self.videos.clear();
    }

    /// The items that the tracker holds.
    pub fn get_list(&self) -> (list: &Vec<VideoListItem>)
        ensures
            *list == self.videos,
    {
        &self.videos
    }

    /// Takes the item `id` out, if the tracker holds it.
    pub fn remove(&mut self, id: &str) -> (removed: Option<VideoListItem>)
        ensures
            final(self).videos@ == without_video(old(self).videos@, id@),
            old(self).wf() ==> final(self).wf(),
            match removed {
                Some(item) => video_index(old(self).videos@, id@) < old(self).videos.len()
                    && item == old(self).videos[video_index(old(self).videos@, id@)],
                None => video_index(old(self).videos@, id@) == old(self).videos.len(),
            },
    {
        let at = self.find(id);
        if at < self.videos.len() {
            proof {
                let before = self.videos@;
                let after = before.remove(at as int);
                if videos_distinct(before) {
                    assert forall|i: int, j: int|
                        0 <= i < after.len() && 0 <= j < after.len() && i != j implies (
                    #[trigger] after[i]).id@ != (#[trigger] after[j]).id@ by {
                        let a = if i < at {
                            i
                        } else {
                            i + 1
                        };
                        let b = if j < at {
                            j
                        } else {
                            j + 1
                        };
                        assert(after[i] == before[a]);
                        assert(after[j] == before[b]);
                    }
                }
            }
            Some(self.videos.remove(at))
        } else {
            None
        }
    }

    /// Gives the title `new_title` to every item of the tab `tab_url`.
    pub fn update_title_for_tab(&mut self, tab_url: &str, new_title: &str)
        ensures
            exists|title: String|
                title@ == new_title@ && final(self).videos@ == #[trigger] retitled(
                    old(self).videos@,
                    tab_url@,
                    title,
                ),
            old(self).wf() ==> final(self).wf(),
    {
        let title = String::from_str(new_title);
        let mut i: usize = 0;
        while i < self.videos.len()
            invariant
                i <= self.videos.len(),
                self.videos.len() == old(self).videos.len(),
                title@ == new_title@,
                forall|k: int|
                    0 <= k < i ==> (#[trigger] self.videos[k]) == retitled(
                        old(self).videos@,
                        tab_url@,
                        title,
                    )[k],
                forall|k: int|
                    i <= k < self.videos.len() ==> (#[trigger] self.videos[k]) == old(
                        self,
                    ).videos[k],
            decreases self.videos.len() - i,
        {
            if same_text(self.videos[i].tab_id.as_str(), tab_url) {
                let mut item = self.videos.remove(i);
                item.text = title.clone();
                self.videos.insert(i, item);
            }
            i = i + 1;
        }
        assert(self.videos@ =~= retitled(old(self).videos@, tab_url@, title));
        proof {
            let before = old(self).videos@;
            let after = self.videos@;
            if videos_distinct(before) {
                assert forall|i: int, j: int|
                    0 <= i < after.len() && 0 <= j < after.len() && i != j implies (
                #[trigger] after[i]).id@ != (#[trigger] after[j]).id@ by {
                    assert(after[i].id@ == before[i].id@);
                    assert(after[j].id@ == before[j].id@);
                }
            }
        }
    }
}

/// The file extensions whose downloads are taken over.
pub open spec fn default_file_exts() -> Seq<Seq<char>> {
    seq!["zip"@, "exe"@, "msi"@, "iso"@, "dmg"@, "pkg"@, "deb"@, "rpm"@, "tar"@, "gz"@, "bz2"@, "7z"@, "rar"@, "pdf"@, "mp4"@, "mkv"@, "avi"@, "mov"@, "wmv"@, "mp3"@, "flac"@, "ogg"@, "wav"@]
}

/// The hosts that are never intercepted.
pub open spec fn default_blocked_hosts() -> Seq<Seq<char>> {
    Seq::empty()
}

/// The extensions in an address that mark streaming media.
pub open spec fn default_request_file_exts() -> Seq<Seq<char>> {
    seq!["mp4"@, "m3u8"@, "m4s"@, "ts"@, "webm"@, "m4v"@, "mpd"@]
}

/// The beginnings of the media types that count as media.
pub open spec fn default_media_types() -> Seq<Seq<char>> {
    seq!["audio/"@, "video/"@]
}

/// The parts of an address whose tab titles are watched.
pub open spec fn default_tabs_watcher() -> Seq<Seq<char>> {
    seq![".youtube."@, "/watch?v="@, "vimeo.com"@, "dailymotion.com"@]
}

/// The parts of an address that are always captured.
pub open spec fn default_matching_hosts() -> Seq<Seq<char>> {
    seq!["googlevideo.com"@, "videoplayback"@]
}

/// What every answer of the bridge tells the browser: the settings, and
/// the media that were seen.
#[derive(Debug, Clone)]
pub struct SyncConfig {
    pub enabled: bool,
    pub file_exts: Vec<String>,
    pub blocked_hosts: Vec<String>,
    pub request_file_exts: Vec<String>,
    pub media_types: Vec<String>,
    pub tabs_watcher: Vec<String>,
    pub matching_hosts: Vec<String>,
    pub video_list: Vec<VideoListItem>,
}

impl SyncConfig {
    /// The default settings, with the given media.
    pub fn default_with_videos(videos: Vec<VideoListItem>) -> (config: SyncConfig)
        ensures
            config.enabled,
            texts_of(config.file_exts@) == default_file_exts(),
            texts_of(config.blocked_hosts@) == default_blocked_hosts(),
            texts_of(config.request_file_exts@) == default_request_file_exts(),
            texts_of(config.media_types@) == default_media_types(),
            texts_of(config.tabs_watcher@) == default_tabs_watcher(),
            texts_of(config.matching_hosts@) == default_matching_hosts(),
            config.video_list == videos,
    {
        let mut file_exts: Vec<String> = Vec::new();
        file_exts.push(String::from_str("zip"));
        file_exts.push(String::from_str("exe"));
        file_exts.push(String::from_str("msi"));
        file_exts.push(String::from_str("iso"));
        file_exts.push(String::from_str("dmg"));
        file_exts.push(String::from_str("pkg"));
        file_exts.push(String::from_str("deb"));
        file_exts.push(String::from_str("rpm"));
        file_exts.push(String::from_str("tar"));
        file_exts.push(String::from_str("gz"));
        file_exts.push(String::from_str("bz2"));
        file_exts.push(String::from_str("7z"));
        file_exts.push(String::from_str("rar"));
        file_exts.push(String::from_str("pdf"));
        file_exts.push(String::from_str("mp4"));
        file_exts.push(String::from_str("mkv"));
        file_exts.push(String::from_str("avi"));
        file_exts.push(String::from_str("mov"));
        file_exts.push(String::from_str("wmv"));
        file_exts.push(String::from_str("mp3"));
        file_exts.push(String::from_str("flac"));
        file_exts.push(String::from_str("ogg"));
        file_exts.push(String::from_str("wav"));
        assert(texts_of(file_exts@) =~= default_file_exts());
        let mut blocked_hosts: Vec<String> = Vec::new();
        assert(texts_of(blocked_hosts@) =~= default_blocked_hosts());
        let mut request_file_exts: Vec<String> = Vec::new();
        request_file_exts.push(String::from_str("mp4"));
        request_file_exts.push(String::from_str("m3u8"));
        request_file_exts.push(String::from_str("m4s"));
        request_file_exts.push(String::from_str("ts"));
        request_file_exts.push(String::from_str("webm"));
        request_file_exts.push(String::from_str("m4v"));
        request_file_exts.push(String::from_str("mpd"));
        assert(texts_of(request_file_exts@) =~= default_request_file_exts());
        let mut media_types: Vec<String> = Vec::new();
        media_types.push(String::from_str("audio/"));
        media_types.push(String::from_str("video/"));
        assert(texts_of(media_types@) =~= default_media_types());
        let mut tabs_watcher: Vec<String> = Vec::new();
        tabs_watcher.push(String::from_str(".youtube."));
        tabs_watcher.push(String::from_str("/watch?v="));
        tabs_watcher.push(String::from_str("vimeo.com"));
        tabs_watcher.push(String::from_str("dailymotion.com"));
        assert(texts_of(tabs_watcher@) =~= default_tabs_watcher());
        let mut matching_hosts: Vec<String> = Vec::new();
        matching_hosts.push(String::from_str("googlevideo.com"));
        matching_hosts.push(String::from_str("videoplayback"));
        assert(texts_of(matching_hosts@) =~= default_matching_hosts());
        SyncConfig {
            enabled: true,
            file_exts,
            blocked_hosts,
            request_file_exts,
            media_types,
            tabs_watcher,
            matching_hosts,
            video_list: videos,
        }
    }
}

/// The text of an optional text, or the empty text.
pub open spec fn text_or_empty(value: Option<Seq<char>>) -> Seq<char> {
    match value {
        Some(t) => t,
        None => Seq::empty(),
    }
}

/// What the browser tells of media that it saw.
#[derive(Debug, Clone)]
pub struct MediaReport {
    pub url: String,
    /// The title of the tab.
    pub file: Option<String>,
    pub request_headers: Vec<CapturedHeader>,
    pub response_headers: Vec<CapturedHeader>,
    pub cookie: String,
    pub method: Option<String>,
    pub user_agent: Option<String>,
    pub tab_url: Option<String>,
    pub tab_id: Option<String>,
}

/// Whether `item` is the entry that the tracker keeps for the media that
/// `report` tells of: its id is the hash of the address, its title that of
/// the tab or else the address, its media type and its referer are read
/// from the captured headers, and the rest is taken over.
pub open spec fn is_media_item(report: MediaReport, item: VideoListItem) -> bool {
    &&& item.id@ == hex_digits(hashed(report.url@) as int, 16)
    &&& item.text@ == match report.file {
        Some(f) => if f@.len() > 0 {
            f@
        } else {
            report.url@
        },
        None => report.url@,
    }
    &&& item.info@ == text_or_empty(
        header_text(report.response_headers@, "Content-Type"@, "content-type"@),
    )
    &&& item.tab_id@ == text_or_empty(text_of(report.tab_id))
    &&& item.url == report.url
    &&& item.cookie == report.cookie
    &&& item.request_headers == report.request_headers
    &&& item.response_headers == report.response_headers
    &&& item.method == report.method
    &&& item.user_agent == report.user_agent
    &&& item.tab_url == report.tab_url
    &&& text_of(item.referer) == header_text(report.request_headers@, "Referer"@, "referer"@)
}

/// Makes the entry that the tracker keeps for reported media.
pub fn media_item(report: MediaReport) -> (item: VideoListItem)
    ensures
        is_media_item(report, item),
{
    let id = uuid_from_url(report.url.as_str());
    let text = match &report.file {
        Some(f) => media_title(Some(f.as_str()), report.url.as_str()),
        None => media_title(None, report.url.as_str()),
    };
    let info = match captured_text(&report.response_headers, "Content-Type", "content-type") {
        Some(t) => t,
        None => String::new(),
    };
    let referer = captured_text(&report.request_headers, "Referer", "referer");
    let tab_id = match report.tab_id {
        Some(t) => t,
        None => String::new(),
    };
    VideoListItem {
        id,
        text,
        info,
        tab_id,
        url: report.url,
        cookie: report.cookie,
        request_headers: report.request_headers,
        response_headers: report.response_headers,
        method: report.method,
        user_agent: report.user_agent,
        tab_url: report.tab_url,
        referer,
    }
}

/// The headers of the job that replays the request of `item`: the captured
/// headers that are replayed, then the user agent and the referer of the
/// browser, each in the place of a replayed header of its name.
pub open spec fn job_headers(item: VideoListItem) -> Seq<NamedValues> {
    with_optional_pair(
        with_optional_pair(
            with_pairs(Seq::empty(), replayed(item.request_headers@)),
            "User-Agent"@,
            text_of(item.user_agent),
        ),
        "Referer"@,
        text_of(item.referer),
    )
}

/// Configures the job that downloads the media of `item` to `output_path`
/// over at most `connections` connections, with its scratch directory
/// under `temp_root`. The cookies of the item are sent if it has any.
pub fn download_job(item: &VideoListItem, output_path: String, temp_root: &str, connections: usize) -> (job:
    MultipartDownloadStrategy)
    ensures
        job.state.url == item.url,
        job.state.output_path == Some(output_path),
        job.connections == connections,
        job.state.cookies == if item.cookie@.len() > 0 {
            Some(item.cookie)
        } else {
            None::<String>
        },
        entry_texts(job.state.headers@) == job_headers(*item),
        names_distinct(job.state.headers@),
        job.segments@ == Seq::<crate::types::Piece>::empty(),
{
    let replay = json_headers_to_vec(&item.request_headers);
    let ghost replay_entries = replay@;
    let builder = MultipartDownloadStrategy::builder(item.url.clone(), output_path, temp_root);
    let builder = builder.with_headers(replay).with_connection_size(connections);
    proof {
        lemma_with_headers_all_texts(Seq::empty(), replay_entries);
        assert(entry_texts(Seq::<HeaderEntry>::empty()) =~= Seq::<NamedValues>::empty());
    }
    let builder = if item.cookie.as_str().unicode_len() > 0 {
        builder.with_cookies(item.cookie.clone())
    } else {
        builder
    };
    let ghost plain = builder.strategy.state.headers@;
    let builder = match &item.user_agent {
        Some(agent) => {
            let next = builder.add_header("User-Agent", agent.as_str());
            proof {
                let pick = choose|name: String, values: Vec<String>|
                    {
                        &&& name@ == "User-Agent"@
                        &&& values@.len() == 1
                        &&& values@[0]@ == agent@
                        &&& next.strategy.state.headers@ == #[trigger] crate::headers::with_header(
                            plain,
                            name,
                            values,
                        )
                    };
                lemma_with_header_texts(plain, pick.0, pick.1);
                assert(texts_of(pick.1@) =~= seq![agent@]);
            }
            next
        },
        None => builder,
    };
    let ghost agented = builder.strategy.state.headers@;
    let builder = match &item.referer {
        Some(referer) => {
            let next = builder.add_header("Referer", referer.as_str());
            proof {
                let pick = choose|name: String, values: Vec<String>|
                    {
                        &&& name@ == "Referer"@
                        &&& values@.len() == 1
                        &&& values@[0]@ == referer@
                        &&& next.strategy.state.headers@ == #[trigger] crate::headers::with_header(
                            agented,
                            name,
                            values,
                        )
                    };
                lemma_with_header_texts(agented, pick.0, pick.1);
                assert(texts_of(pick.1@) =~= seq![referer@]);
            }
            next
        },
        None => builder,
    };
    builder.build()
}

} // verus!
