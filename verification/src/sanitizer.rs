//! Safe names for downloaded files.
//!
//! A suggested name, which may be empty, hold path separators or be plain
//! garbage, is turned into a file name that is safe on every common file
//! system: only its final component counts, unsafe characters become
//! underscores, and the extension is kept, or derived from the media type
//! or from the address where the name has none.

use vstd::prelude::*;
use vstd::string::StringExecFns;
use crate::mime::{content_type_extension, ext_from_content_type, mime_key_of};
use crate::paths::{
    dot_split, extension, extension_of, file_name, file_name_of, split_at_dot, stem_of,
};
use crate::text::{
    after_last, append, before_first, chars_of, decimal, find_last_char, is_alphanumeric,
    last_position_of, render_u64, slice_of, string_of, strip, stripped, take_after_last,
    take_before_first, text_of, to_lowercase, unicode_alphanumeric, unicode_lowercase, Strip,
};

verus! {

/// No stem is longer than this many bytes of UTF-8.
pub const MAX_STEM_BYTES: usize = 180;

/// No extension is longer than this many characters.
pub const MAX_EXT_CHARS: usize = 10;

/// Whether a character may stand in a file name: letters, numbers, and a
/// few signs. The space is not among them.
pub open spec fn is_safe(c: char) -> bool {
    unicode_alphanumeric(c) || c == '-' || c == '_' || c == '.' || c == '(' || c == ')' || c
        == '[' || c == ']' || c == '+' || c == ',' || c == '@' || c == '~'
}

/// Whether a character may stand in a file name.
pub fn is_safe_char(c: char) -> (yes: bool)
    ensures
        yes == is_safe(c),
{
    is_alphanumeric(c) || c == '-' || c == '_' || c == '.' || c == '(' || c == ')' || c == '['
        || c == ']' || c == '+' || c == ',' || c == '@' || c == '~'
}

/// `s` with an underscore in the place of every unsafe character.
pub open spec fn made_safe(s: Seq<char>) -> Seq<char> {
    s.map_values(
        |c: char|
            if is_safe(c) {
                c
            } else {
                '_'
            },
    )
}

/// `s` with every run of underscores made a single one.
pub open spec fn collapsed(s: Seq<char>) -> Seq<char>
    decreases s.len(),
{
    if s.len() == 0 {
        Seq::empty()
    } else if s.last() == '_' && s.len() >= 2 && s[s.len() - 2] == '_' {
        collapsed(s.drop_last())
    } else {
        collapsed(s.drop_last()).push(s.last())
    }
}

/// The number of bytes that a character takes in UTF-8.
pub open spec fn utf8_width(c: char) -> int {
    if (c as u32) < 0x80 {
        1
    } else if (c as u32) < 0x800 {
        2
    } else if (c as u32) < 0x10000 {
        3
    } else {
        4
    }
}

/// The longest beginning of `s` that takes no more than `budget` bytes in
/// UTF-8.
pub open spec fn truncated(s: Seq<char>, budget: int) -> Seq<char>
    decreases s.len(),
{
    if s.len() == 0 || utf8_width(s[0]) > budget {
        Seq::empty()
    } else {
        seq![s[0]] + truncated(s.drop_first(), budget - utf8_width(s[0]))
    }
}

/// The letters and numbers of `s`, in their order.
pub open spec fn alphanumerics(s: Seq<char>) -> Seq<char>
    decreases s.len(),
{
    if s.len() == 0 {
        Seq::empty()
    } else if unicode_alphanumeric(s.last()) {
        alphanumerics(s.drop_last()).push(s.last())
    } else {
        alphanumerics(s.drop_last())
    }
}

/// The first `n` characters of `s`, or all of it if it has fewer.
pub open spec fn first_chars(s: Seq<char>, n: int) -> Seq<char> {
    if s.len() > n {
        s.take(n)
    } else {
        s
    }
}

/// An extension made safe: its letters and numbers, ten of them at most,
/// in lower case.
pub open spec fn sanitised_ext(ext: Seq<char>) -> Seq<char> {
    unicode_lowercase(first_chars(alphanumerics(ext), MAX_EXT_CHARS as int))
}

/// A name split into stem and extension, as its final component is split
/// at the last full stop; a name without a final component is all stem.
pub open spec fn stem_and_ext(name: Seq<char>) -> (Seq<char>, Seq<char>) {
    (
        match stem_of(name) {
            Some(stem) => stem,
            None => name,
        },
        match extension_of(name) {
            Some(ext) => ext,
            None => Seq::empty(),
        },
    )
}

/// The last part of `s` between slashes that is not empty.
pub open spec fn last_segment(s: Seq<char>) -> Option<Seq<char>>
    decreases s.len(),
{
    let segment = after_last(s, '/');
    if segment.len() > 0 {
        Some(segment)
    } else {
        match last_position_of(s, '/') {
            Some(i) => if 0 <= i < s.len() {
                last_segment(s.take(i))
            } else {
                None
            },
            None => None,
        }
    }
}

/// An address without its query and its fragment.
pub open spec fn url_path(url: Seq<char>) -> Seq<char> {
    before_first(before_first(url, '?'), '#')
}

/// The name under which a file is saved when nothing names it.
pub open spec fn fallback_name() -> Seq<char> {
    "download"@
}

/// The file name that an address proposes: the last part of its path that
/// is not empty, or the fallback name.
pub open spec fn url_file_name(url: Seq<char>) -> Seq<char> {
    match last_segment(url_path(url)) {
        Some(segment) => segment,
        None => fallback_name(),
    }
}

/// The extension that an address proposes: that of the last part of its
/// path, made safe, unless nothing is left of it.
pub open spec fn url_ext(url: Seq<char>) -> Option<Seq<char>> {
    match last_segment(url_path(url)) {
        Some(segment) => match extension_of(segment) {
            Some(ext) => if sanitised_ext(ext).len() > 0 {
                Some(sanitised_ext(ext))
            } else {
                None
            },
            None => None,
        },
        None => None,
    }
}

/// A stem made safe: unsafe characters replaced, runs of underscores
/// collapsed, underscores and full stops stripped from both ends, the
/// fallback name if nothing is left, and no longer than the limit.
pub open spec fn clean_stem(stem: Seq<char>) -> Seq<char> {
    let bare = stripped(collapsed(made_safe(stem)), Strip::UnderscoresAndDots);
    truncated(
        if bare.len() == 0 {
            fallback_name()
        } else {
            bare
        },
        MAX_STEM_BYTES as int,
    )
}

/// The extension that a name without one is given: that of the media type,
/// else that of the address, else none.
pub open spec fn fallback_ext(url: Seq<char>, content_type: Option<Seq<char>>) -> Seq<char> {
    let by_type = match content_type {
        Some(t) => content_type_extension(mime_key_of(t)),
        None => None,
    };
    match by_type {
        Some(ext) => ext,
        None => match url_ext(url) {
            Some(ext) => ext,
            None => Seq::empty(),
        },
    }
}

/// The safe file name for a suggestion, an address and a media type.
pub open spec fn sanitised_name(
    suggested: Seq<char>,
    url: Seq<char>,
    content_type: Option<Seq<char>>,
) -> Seq<char> {
    let given = if stripped(suggested, Strip::Whitespace).len() > 0 {
        suggested
    } else {
        url_file_name(url)
    };
    let raw = match file_name_of(given) {
        Some(name) => name,
        None => given,
    };
    let stem = clean_stem(stem_and_ext(raw).0);
    let own = sanitised_ext(stem_and_ext(raw).1);
    let ext = if own.len() == 0 {
        fallback_ext(url, content_type)
    } else {
        own
    };
    if ext.len() == 0 {
        stem
    } else {
        stem.push('.') + ext
    }
}

/// The name that is tried when `name` is taken: the number goes between
/// the stem and the extension.
pub open spec fn numbered(name: Seq<char>, n: u32) -> Seq<char> {
    let stem = stem_and_ext(name).0;
    let ext = stem_and_ext(name).1;
    if ext.len() == 0 {
        stem.push('_') + decimal(n as nat)
    } else {
        stem.push('_') + decimal(n as nat) + seq!['.'] + ext
    }
}

fn stem_ext_chars(name: &Vec<char>) -> (parts: (Vec<char>, Vec<char>))
    ensures
        parts.0@ == stem_and_ext(name@).0,
        parts.1@ == stem_and_ext(name@).1,
{
    match file_name(name) {
        Some(last) => {
            let (stem, ext) = split_at_dot(&last);
            match ext {
                Some(e) => (stem, e),
                None => (stem, Vec::new()),
            }
        },
        None => {
            assert(name@.subrange(0, name.len() as int) =~= name@);
            (slice_of(name, 0, name.len()), Vec::new())
        },
    }
}

/// Splits a file name into stem and extension.
pub fn split_stem_ext(name: &str) -> (parts: (String, String))
    ensures
        parts.0@ == stem_and_ext(name@).0,
        parts.1@ == stem_and_ext(name@).1,
{
    let (stem, ext) = stem_ext_chars(&chars_of(name));
    (string_of(&stem), string_of(&ext))
}

/// Makes every run of underscores a single one.
pub fn collapse_runs(s: &str) -> (out: String)
    ensures
        out@ == collapsed(s@),
{
    string_of(&collapse(&chars_of(s)))
}

fn collapse(chars: &Vec<char>) -> (out: Vec<char>)
    ensures
        out@ == collapsed(chars@),
{
    let mut out: Vec<char> = Vec::new();
    let mut i: usize = 0;
    while i < chars.len()
        invariant
            i <= chars.len(),
            out@ == collapsed(chars@.take(i as int)),
        decreases chars.len() - i,
    {
        assert(chars@.take(i + 1).drop_last() =~= chars@.take(i as int));
        assert(chars@.take(i + 1).last() == chars@[i as int]);
        if !(chars[i] == '_' && i >= 1 && chars[i - 1] == '_') {
            out.push(chars[i]);
        } else {
            assert(chars@.take(i + 1)[i - 1] == chars@[i - 1]);
        }
        i = i + 1;
    }
    assert(chars@.take(chars.len() as int) =~= chars@);
    out
}

fn make_safe(chars: &Vec<char>) -> (out: Vec<char>)
    ensures
        out@ == made_safe(chars@),
{
    let mut out: Vec<char> = Vec::new();
    let mut i: usize = 0;
    while i < chars.len()
        invariant
            i <= chars.len(),
            out@ == made_safe(chars@.take(i as int)),
        decreases chars.len() - i,
    {
        let c = if is_safe_char(chars[i]) {
            chars[i]
        } else {
            '_'
        };
        out.push(c);
        i = i + 1;
        assert(made_safe(chars@.take(i as int)) =~= made_safe(chars@.take(i - 1)).push(c));
    }
    assert(chars@.take(chars.len() as int) =~= chars@);
    out
}

fn width(c: char) -> (bytes: usize)
    ensures
        bytes == utf8_width(c),
{
    let u: u32 = c as u32;
    if u < 0x80 {
        1
    } else if u < 0x800 {
        2
    } else if u < 0x10000 {
        3
    } else {
        4
    }
}

fn truncate(chars: &Vec<char>, max_bytes: usize) -> (out: Vec<char>)
    ensures
        out@ == truncated(chars@, max_bytes as int),
{
    let mut out: Vec<char> = Vec::new();
    let mut left: usize = max_bytes;
    let mut i: usize = 0;
    assert(chars@.skip(0) =~= chars@);
    assert(out@ + truncated(chars@, max_bytes as int) =~= truncated(chars@, max_bytes as int));
    while i < chars.len() && width(chars[i]) <= left
        invariant
            i <= chars.len(),
            truncated(chars@, max_bytes as int) == out@ + truncated(
                chars@.skip(i as int),
                left as int,
            ),
        decreases chars.len() - i,
    {
        let ghost before = out@;
        let ghost rest = chars@.skip(i as int);
        assert(rest.drop_first() =~= chars@.skip(i + 1));
        assert(rest[0] == chars@[i as int]);
        out.push(chars[i]);
        assert(before + (seq![rest[0]] + truncated(
            rest.drop_first(),
            left - utf8_width(rest[0]),
        )) =~= out@ + truncated(chars@.skip(i + 1), left - utf8_width(rest[0])));
        left = left - width(chars[i]);
        i = i + 1;
    }
    proof {
        let rest = chars@.skip(i as int);
        if i < chars.len() {
            assert(rest[0] == chars@[i as int]);
        }
        assert(truncated(rest, left as int) =~= Seq::empty());
        assert(out@ + Seq::<char>::empty() =~= out@);
    }
    out
}

/// Cuts `s` down to at most `max_bytes` bytes of UTF-8, between two
/// characters.
pub fn truncate_to_bytes(s: &str, max_bytes: usize) -> (out: String)
    ensures
        out@ == truncated(s@, max_bytes as int),
{
    string_of(&truncate(&chars_of(s), max_bytes))
}

fn sanitise_ext_chars(ext: &Vec<char>) -> (out: Vec<char>)
    ensures
        out@ == sanitised_ext(ext@),
{
    let mut kept: Vec<char> = Vec::new();
    let mut i: usize = 0;
    while i < ext.len()
        invariant
            i <= ext.len(),
            kept@ == alphanumerics(ext@.take(i as int)),
        decreases ext.len() - i,
    {
        assert(ext@.take(i + 1).drop_last() =~= ext@.take(i as int));
        assert(ext@.take(i + 1).last() == ext@[i as int]);
        if is_alphanumeric(ext[i]) {
            kept.push(ext[i]);
        }
        i = i + 1;
    }
    assert(ext@.take(ext.len() as int) =~= ext@);
    let first = if kept.len() > MAX_EXT_CHARS {
        assert(kept@.subrange(0, MAX_EXT_CHARS as int) =~= kept@.take(MAX_EXT_CHARS as int));
        slice_of(&kept, 0, MAX_EXT_CHARS)
    } else {
        kept
    };
    chars_of(to_lowercase(string_of(&first).as_str()).as_str())
}

/// Makes an extension safe.
pub fn sanitise_ext(ext: &str) -> (out: String)
    ensures
        out@ == sanitised_ext(ext@),
{
    string_of(&sanitise_ext_chars(&chars_of(ext)))
}

/// Finds the last part between slashes that is not empty.
pub fn last_segment_of(chars: &Vec<char>) -> (segment: Option<Vec<char>>)
    ensures
        match segment {
            Some(s) => last_segment(chars@) == Some(s@),
            None => last_segment(chars@) is None,
        },
    decreases chars.len(),
{
    let segment = take_after_last(chars, '/');
    if segment.len() > 0 {
        Some(segment)
    } else {
        match find_last_char(chars, '/') {
            Some(i) => {
                let shorter = slice_of(chars, 0, i);
                assert(chars@.subrange(0, i as int) =~= chars@.take(i as int));
                last_segment_of(&shorter)
            },
            None => None,
        }
    }
}

fn path_of_url(url: &Vec<char>) -> (path: Vec<char>)
    ensures
        path@ == url_path(url@),
{
    take_before_first(&take_before_first(url, '?'), '#')
}

/// The file name that an address proposes.
pub fn filename_from_url(url: &str) -> (name: String)
    ensures
        name@ == url_file_name(url@),
{
    match last_segment_of(&path_of_url(&chars_of(url))) {
        Some(segment) => string_of(&segment),
        None => String::from_str("download"),
    }
}

fn ext_from_url_chars(url: &Vec<char>) -> (ext: Option<Vec<char>>)
    ensures
        match ext {
            Some(e) => url_ext(url@) == Some(e@),
            None => url_ext(url@) is None,
        },
{
    match last_segment_of(&path_of_url(url)) {
        Some(segment) => match extension(&segment) {
            Some(raw) => {
                let ext = sanitise_ext_chars(&raw);
                if ext.len() > 0 {
                    Some(ext)
                } else {
                    None
                }
            },
            None => None,
        },
        None => None,
    }
}

/// The extension that an address proposes.
pub fn ext_from_url(url: &str) -> (ext: Option<String>)
    ensures
        text_of(ext) == url_ext(url@),
{
    match ext_from_url_chars(&chars_of(url)) {
        Some(e) => Some(string_of(&e)),
        None => None,
    }
}

/// Makes a safe file name from a suggestion, falling back on the address
/// for the name and on the media type and the address for the extension.
pub fn sanitise_filename(suggested: &str, url: &str, content_type: Option<&str>) -> (name: String)
    ensures
        name@ == sanitised_name(
            suggested@,
            url@,
            match content_type {
                Some(t) => Some(t@),
                None => None,
            },
        ),
{
    let url_chars = chars_of(url);
    let suggestion = chars_of(suggested);
    let given: Vec<char> = if strip(&suggestion, Strip::Whitespace).len() > 0 {
        suggestion
    } else {
        chars_of(filename_from_url(url).as_str())
    };
    let raw: Vec<char> = match file_name(&given) {
        Some(name) => name,
        None => given,
    };
    let (stem, ext) = stem_ext_chars(&raw);
    let bare = strip(&collapse(&make_safe(&stem)), Strip::UnderscoresAndDots);
    let named: Vec<char> = if bare.len() == 0 {
        chars_of("download")
    } else {
        bare
    };
    let stem = truncate(&named, MAX_STEM_BYTES);
    let own = sanitise_ext_chars(&ext);
    let ext: Vec<char> = if own.len() == 0 {
        match ext_from_content_type(content_type) {
            Some(e) => chars_of(e.as_str()),
            None => match ext_from_url_chars(&url_chars) {
                Some(e) => e,
                None => Vec::new(),
            },
        }
    } else {
        own
    };
    if ext.len() == 0 {
        string_of(&stem)
    } else {
        let mut name = stem;
        name.push('.');
        append(&mut name, &ext);
        string_of(&name)
    }
}

/// The name that is tried when `name` is taken.
pub fn numbered_name(name: &str, n: u32) -> (out: String)
    ensures
        out@ == numbered(name@, n),
{
    let (stem, ext) = stem_ext_chars(&chars_of(name));
    let mut out = stem;
    out.push('_');
    append(&mut out, &render_u64(n as u64));
    if ext.len() > 0 {
        out.push('.');
        assert(out@ =~= stem_and_ext(name@).0.push('_') + decimal(n as nat) + seq!['.']);
        append(&mut out, &ext);
    }
    string_of(&out)
}

/// The last number that is tried in a name.
pub const LAST_NUMBER: u32 = 9999;

/// The name that is tried at the given attempt to find one that is free:
/// the name itself at the first attempt, the name with the number of the
/// attempt from the second to the last numbered one, and none before the
/// first or after the last.
pub open spec fn candidate(name: Seq<char>, attempt: u32) -> Option<Seq<char>> {
    if attempt == 1 {
        Some(name)
    } else if 2 <= attempt <= LAST_NUMBER {
        Some(numbered(name, attempt))
    } else {
        None
    }
}

/// Names the candidate of an attempt to find a free name.
pub fn candidate_name(name: &str, attempt: u32) -> (tried: Option<String>)
    ensures
        text_of(tried) == candidate(name@, attempt),
{
    if attempt == 1 {
        Some(String::from_str(name))
    } else if 2 <= attempt && attempt <= LAST_NUMBER {
        Some(numbered_name(name, attempt))
    } else {
        None
    }
}

} // verus!
