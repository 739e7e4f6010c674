//! The rules of the desktop window: the name that it proposes for a file,
//! how it shows a remaining time, how it reads its arguments, and how it
//! takes the events that the bridge streams apart.

use vstd::prelude::*;
use vstd::string::StringExecFns;
use crate::disposition::starts_with;
use crate::sanitizer::{last_segment, last_segment_of};
use crate::text::{
    after_last, append, before_first, chars_of, decimal, find, find_char, find_last_char,
    is_alphanumeric, last_position_of, position, position_of, render_u64, same_text, slice_of,
    string_of, strip, stripped, take_after_last, take_before_first, text_of, unicode_alphanumeric,
    Strip,
};

verus! {

/// Whether `s` holds `part` somewhere.
pub open spec fn holds(s: Seq<char>, part: Seq<char>) -> bool {
    position(s, part) is Some
}

/// The extension that the window proposes for a media type: that of the
/// first of the formats it knows whose name the type holds.
pub open spec fn mime_ext(mime: Seq<char>) -> Option<Seq<char>> {
    if holds(mime, "mp4"@) {
        Some("mp4"@)
    } else if holds(mime, "webm"@) {
        Some("webm"@)
    } else if holds(mime, "mkv"@) {
        Some("mkv"@)
    } else if holds(mime, "avi"@) {
        Some("avi"@)
    } else if holds(mime, "mov"@) {
        Some("mov"@)
    } else if holds(mime, "mp3"@) {
        Some("mp3"@)
    } else if holds(mime, "ogg"@) {
        Some("ogg"@)
    } else if holds(mime, "flac"@) {
        Some("flac"@)
    } else if holds(mime, "wav"@) {
        Some("wav"@)
    } else if holds(mime, "m4v"@) {
        Some("m4v"@)
    } else {
        None
    }
}

fn has(s: &Vec<char>, part: &str) -> (yes: bool)
    ensures
        yes == holds(s@, part@),
{
    find(s, &chars_of(part)).is_some()
}

/// The extension that the window proposes for a media type.
pub fn ext_from_mime(mime: &str) -> (ext: Option<String>)
    ensures
        text_of(ext) == mime_ext(mime@),
{
    let m = chars_of(mime);
    if has(&m, "mp4") {
        Some(String::from_str("mp4"))
    } else if has(&m, "webm") {
        Some(String::from_str("webm"))
    } else if has(&m, "mkv") {
        Some(String::from_str("mkv"))
    } else if has(&m, "avi") {
        Some(String::from_str("avi"))
    } else if has(&m, "mov") {
        Some(String::from_str("mov"))
    } else if has(&m, "mp3") {
        Some(String::from_str("mp3"))
    } else if has(&m, "ogg") {
        Some(String::from_str("ogg"))
    } else if has(&m, "flac") {
        Some(String::from_str("flac"))
    } else if has(&m, "wav") {
        Some(String::from_str("wav"))
    } else if has(&m, "m4v") {
        Some(String::from_str("m4v"))
    } else {
        None
    }
}

/// Whether the window knows a format by the extension `ext`.
pub open spec fn is_known_ext(ext: Seq<char>) -> bool {
    ext == "mp4"@ || ext == "webm"@ || ext == "mkv"@ || ext == "avi"@ || ext == "mov"@ || ext
        == "mp3"@ || ext == "ogg"@ || ext == "flac"@ || ext == "wav"@ || ext == "m4v"@ || ext
        == "m3u8"@
}

/// The extension that the window reads from an address: what follows the
/// last full stop of the last part of the path, if the window knows it.
pub open spec fn address_ext(url: Seq<char>) -> Option<Seq<char>> {
    let last = after_last(before_first(url, '?'), '/');
    match last_position_of(last, '.') {
        Some(dot) => if is_known_ext(last.skip(dot + 1)) {
            Some(last.skip(dot + 1))
        } else {
            None
        },
        None => None,
    }
}

fn known_ext(ext: &str) -> (yes: bool)
    ensures
        yes == is_known_ext(ext@),
{
    same_text(ext, "mp4") || same_text(ext, "webm") || same_text(ext, "mkv") || same_text(
        ext,
        "avi",
    ) || same_text(ext, "mov") || same_text(ext, "mp3") || same_text(ext, "ogg") || same_text(
        ext,
        "flac",
    ) || same_text(ext, "wav") || same_text(ext, "m4v") || same_text(ext, "m3u8")
}

/// The extension that the window reads from an address.
pub fn ext_from_url(url: &str) -> (ext: Option<String>)
    ensures
        text_of(ext) == address_ext(url@),
{
    let last = take_after_last(&take_before_first(&chars_of(url), '?'), '/');
    match find_last_char(&last, '.') {
        Some(dot) => {
            let tail = slice_of(&last, dot + 1, last.len());
            assert(tail@ =~= last@.skip(dot + 1));
            let ext = string_of(&tail);
            if known_ext(ext.as_str()) {
                Some(ext)
            } else {
                None
            }
        },
        None => None,
    }
}

/// Whether a character of a title is kept in a file name: letters, numbers,
/// the hyphen, the underscore and the space.
pub open spec fn is_title_char(c: char) -> bool {
    unicode_alphanumeric(c) || c == '-' || c == '_' || c == ' '
}

/// A title with an underscore in the place of every character that is not
/// kept.
pub open spec fn plain_title(title: Seq<char>) -> Seq<char> {
    title.map_values(
        |c: char|
            if is_title_char(c) {
                c
            } else {
                '_'
            },
    )
}

/// The name without extension that the window proposes: the title made
/// plain and stripped of white space, or, without a title, the last part
/// of the address.
pub open spec fn proposed_base(title: Seq<char>, url: Seq<char>) -> Seq<char> {
    if title.len() > 0 {
        stripped(plain_title(title), Strip::Whitespace)
    } else {
        match last_segment(url) {
            Some(segment) => segment,
            None => "download"@,
        }
    }
}

/// The extension that the window proposes: that of the media type, else
/// that of the address, else `mp4`.
pub open spec fn proposed_ext(url: Seq<char>, mime: Seq<char>) -> Seq<char> {
    match mime_ext(mime) {
        Some(ext) => ext,
        None => match address_ext(url) {
            Some(ext) => ext,
            None => "mp4"@,
        },
    }
}

/// Whether `s` ends with `suffix`.
pub open spec fn ends_with(s: Seq<char>, suffix: Seq<char>) -> bool {
    suffix.len() <= s.len() && s.skip(s.len() - suffix.len()) == suffix
}

/// The file name that the window proposes: the base, with the extension
/// after a full stop unless the base ends with just that.
pub open spec fn proposed_name(title: Seq<char>, url: Seq<char>, mime: Seq<char>) -> Seq<char> {
    let base = proposed_base(title, url);
    let dotted = seq!['.'] + proposed_ext(url, mime);
    if ends_with(base, dotted) {
        base
    } else {
        base + dotted
    }
}

fn closes_with(s: &Vec<char>, suffix: &Vec<char>) -> (yes: bool)
    ensures
        yes == ends_with(s@, suffix@),
{
    if suffix.len() > s.len() {
        return false;
    }
    let tail = slice_of(s, s.len() - suffix.len(), s.len());
    assert(tail@ =~= s@.skip(s.len() - suffix.len()));
    let left = string_of(&tail);
    let right = string_of(suffix);
    left == right
}

/// Proposes a file name for media, from its title, its address and its
/// media type.
pub fn derive_filename(title: &str, url: &str, mime: &str) -> (name: String)
    ensures
        name@ == proposed_name(title@, url@, mime@),
{
    let title_chars = chars_of(title);
    let base: Vec<char> = if title_chars.len() > 0 {
        let mut plain: Vec<char> = Vec::new();
        let mut i: usize = 0;
        while i < title_chars.len()
            invariant
                i <= title_chars.len(),
                plain@ == plain_title(title_chars@.take(i as int)),
            decreases title_chars.len() - i,
        {
            let c = title_chars[i];
            let kept = if is_alphanumeric(c) || c == '-' || c == '_' || c == ' ' {
                c
            } else {
                '_'
            };
            plain.push(kept);
            i = i + 1;
            assert(plain_title(title_chars@.take(i as int)) =~= plain_title(
                title_chars@.take(i - 1),
            ).push(kept));
        }
        assert(title_chars@.take(title_chars.len() as int) =~= title_chars@);
        strip(&plain, Strip::Whitespace)
    } else {
        match last_segment_of(&chars_of(url)) {
            Some(segment) => segment,
            None => chars_of("download"),
        }
    };
    let ext: String = match ext_from_mime(mime) {
        Some(e) => e,
        None => match ext_from_url(url) {
            Some(e) => e,
            None => String::from_str("mp4"),
        },
    };
    let mut dotted: Vec<char> = Vec::new();
    dotted.push('.');
    append(&mut dotted, &chars_of(ext.as_str()));
    assert(dotted@ =~= seq!['.'] + ext@);
    if closes_with(&base, &dotted) {
        string_of(&base)
    } else {
        let mut name = base;
        append(&mut name, &dotted);
        string_of(&name)
    }
}

/// A remaining time of so many seconds as it is shown: hours and minutes
/// from an hour on, minutes and seconds from a minute on, else seconds.
pub open spec fn eta_text(secs: u64) -> Seq<char> {
    if secs >= 3600 {
        decimal((secs / 3600) as nat) + "h "@ + decimal((secs % 3600 / 60) as nat) + "m"@
    } else if secs >= 60 {
        decimal((secs / 60) as nat) + "m "@ + decimal((secs % 60) as nat) + "s"@
    } else {
        decimal(secs as nat) + "s"@
    }
}

/// Writes a remaining time of whole seconds.
pub fn format_eta(secs: u64) -> (text: String)
    ensures
        text@ == eta_text(secs),
{
    let mut out: Vec<char> = Vec::new();
    if secs >= 3600 {
        append(&mut out, &render_u64(secs / 3600));
        append(&mut out, &chars_of("h "));
        append(&mut out, &render_u64(secs % 3600 / 60));
        append(&mut out, &chars_of("m"));
        assert(out@ =~= eta_text(secs));
    } else if secs >= 60 {
        append(&mut out, &render_u64(secs / 60));
        append(&mut out, &chars_of("m "));
        append(&mut out, &render_u64(secs % 60));
        append(&mut out, &chars_of("s"));
        assert(out@ =~= eta_text(secs));
    } else {
        append(&mut out, &render_u64(secs));
        append(&mut out, &chars_of("s"));
        assert(out@ =~= eta_text(secs));
    }
    string_of(&out)
}

/// The flag that comes before the description of the media.
pub open spec fn video_flag() -> Seq<char> {
    "--video-json"@
}

/// The position, after the name of the program, of the first argument that
/// is the flag, or the number of arguments if none is.
pub open spec fn flag_index(args: Seq<String>, from: int) -> int
    decreases args.len() - from,
{
    if from < 0 || from >= args.len() {
        args.len() as int
    } else if args[from]@ == video_flag() {
        from
    } else {
        flag_index(args, from + 1)
    }
}

/// What the arguments of the window give: the description that follows the
/// flag, or the reason why there is none.
pub open spec fn video_arg(args: Seq<String>) -> Result<Seq<char>, Seq<char>> {
    let at = flag_index(args, 1);
    if at >= args.len() {
        Err("Usage: rdm_ui --video-json '<json>'"@)
    } else if at + 1 >= args.len() {
        Err("--video-json requires a value"@)
    } else {
        Ok(args[at + 1]@)
    }
}

/// Reads the description of the media from the arguments of the window.
pub fn video_json_arg(args: &Vec<String>) -> (found: Result<String, String>)
    ensures
        match found {
            Ok(json) => video_arg(args@) == Ok::<Seq<char>, Seq<char>>(json@),
            Err(reason) => video_arg(args@) == Err::<Seq<char>, Seq<char>>(reason@),
        },
{
    let mut i: usize = 1;
    while i < args.len()
        invariant
            1 <= i,
            flag_index(args@, 1) == flag_index(args@, i as int),
        decreases args.len() - i,
    {
        if same_text(args[i].as_str(), "--video-json") {
            if i + 1 < args.len() {
                return Ok(args[i + 1].clone());
            } else {
                return Err(String::from_str("--video-json requires a value"));
            }
        }
        i = i + 1;
    }
    Err(String::from_str("Usage: rdm_ui --video-json '<json>'"))
}

/// The first line of a buffer of streamed text, without the white space
/// around it, and what is left of the buffer after the line; none while
/// the buffer holds no end of line.
pub open spec fn first_line(buffer: Seq<char>) -> Option<(Seq<char>, Seq<char>)> {
    match position_of(buffer, '\n') {
        Some(at) => Some((stripped(buffer.take(at), Strip::Whitespace), buffer.skip(at + 1))),
        None => None,
    }
}

/// Takes the first line off a buffer of streamed text.
pub fn take_line(buffer: &str) -> (taken: Option<(String, String)>)
    ensures
        match taken {
            Some(pair) => first_line(buffer@) == Some((pair.0@, pair.1@)),
            None => first_line(buffer@) is None,
        },
{
    let chars = chars_of(buffer);
    match find_char(&chars, '\n') {
        Some(at) => {
            let head = slice_of(&chars, 0, at);
            assert(head@ =~= chars@.take(at as int));
            let rest = slice_of(&chars, at + 1, chars.len());
            assert(rest@ =~= chars@.skip(at + 1));
            Some((string_of(&strip(&head, Strip::Whitespace)), string_of(&rest)))
        },
        None => None,
    }
}

/// The data that a line of an event stream carries: what follows `data:`,
/// without the white space around it.
pub open spec fn data_of(line: Seq<char>) -> Option<Seq<char>> {
    if starts_with(line, "data:"@) {
        Some(stripped(line.skip(5), Strip::Whitespace))
    } else {
        None
    }
}

/// Reads the data that a line of an event stream carries.
pub fn data_payload(line: &str) -> (data: Option<String>)
    ensures
        text_of(data) == data_of(line@),
{
    let chars = chars_of(line);
    let key = chars_of("data:");
    proof {
        reveal_strlit("data:");
    }
    if key.len() <= chars.len() {
        let head = slice_of(&chars, 0, key.len());
        assert(head@ =~= chars@.take(key.len() as int));
        if string_of(&head) == string_of(&key) {
            let rest = slice_of(&chars, 5, chars.len());
            assert(rest@ =~= chars@.skip(5));
            return Some(string_of(&strip(&rest, Strip::Whitespace)));
        }
    }
    None
}

} // verus!
