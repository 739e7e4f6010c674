//! The file name in a `Content-Disposition` header.
//!
//! The header may name the file twice: in the plain form `filename=`, with
//! or without quotes, and in the extended form `filename*=UTF-8''`, whose
//! value is percent-encoded. The extended form is preferred. The keys are
//! recognised in any mix of upper and lower case.

use vstd::prelude::*;
use vstd::utf8::{decode_utf8, valid_utf8};
use crate::text::{
    append, before_first, chars_of, find, fold, folded, position, slice_of, string_of, strip,
    stripped, take_before_first, text_of, Strip,
};

verus! {

/// The value of a hexadecimal digit, or none for any other character.
pub open spec fn hex_value(c: char) -> Option<int> {
    if '0' <= c && c <= '9' {
        Some(c as int - 48)
    } else if 'a' <= c && c <= 'f' {
        Some(c as int - 87)
    } else if 'A' <= c && c <= 'F' {
        Some(c as int - 55)
    } else {
        None
    }
}

/// The byte that two characters after a percent sign stand for, if both
/// are hexadecimal digits.
pub open spec fn hex_byte(first: char, second: char) -> Option<u8> {
    match (hex_value(first), hex_value(second)) {
        (Some(high), Some(low)) => Some((16 * high + low) as u8),
        _ => None,
    }
}

/// The text that bytes give when every sequence among them that is no
/// well-formed UTF-8 is replaced by the replacement character, and the
/// rest is decoded.
pub uninterp spec fn lossy_text(bytes: Seq<u8>) -> Seq<char>;

/// The text that a run of decoded bytes gives: what they encode in UTF-8,
/// with the replacement character in the place of every sequence that
/// encodes nothing.
pub open spec fn flushed(pending: Seq<u8>) -> Seq<char> {
    if pending.len() == 0 {
        Seq::empty()
    } else if valid_utf8(pending) {
        decode_utf8(pending)
    } else {
        lossy_text(pending)
    }
}

/// The decoding of `s` from position `i` on, with the bytes `pending`
/// decoded just before it. A percent sign with two hexadecimal digits gives
/// a byte; one that is not followed by such a pair stands for itself, and so
/// do the one or two characters after it.
pub open spec fn decoded_from(s: Seq<char>, i: int, pending: Seq<u8>) -> Seq<char>
    decreases s.len() - i,
{
    if i < 0 || i >= s.len() {
        flushed(pending)
    } else if s[i] == '%' {
        if i + 2 < s.len() && hex_byte(s[i + 1], s[i + 2]) is Some {
            decoded_from(s, i + 3, pending.push(hex_byte(s[i + 1], s[i + 2])->0))
        } else {
            let end = if i + 3 <= s.len() {
                i + 3
            } else {
                s.len() as int
            };
            flushed(pending) + s.subrange(i, end) + decoded_from(s, end, Seq::empty())
        }
    } else {
        flushed(pending).push(s[i]) + decoded_from(s, i + 1, Seq::empty())
    }
}

/// The percent-decoding of `s`.
pub open spec fn percent_decoded(s: Seq<char>) -> Seq<char> {
    decoded_from(s, 0, Seq::empty())
}

/// `String::from_utf8_lossy`, made a `String`: the text of the bytes, with
/// U+FFFD in the place of every invalid sequence. The result depends on the
/// bytes alone; of bytes that are well-formed UTF-8 it is the text that
/// they encode.
#[verifier::external_body]
pub(crate) fn utf8_lossy(bytes: &Vec<u8>) -> (text: String)
    ensures
        text@ == lossy_text(bytes@),
        valid_utf8(bytes@) ==> text@ == decode_utf8(bytes@),
{
    String::from_utf8_lossy(bytes).into_owned()
}

fn hex_digit(c: char) -> (value: Option<u8>)
    ensures
        match value {
            Some(v) => hex_value(c) == Some(v as int),
            None => hex_value(c) is None,
        },
{
    if c >= '0' && c <= '9' {
        Some(c as u8 - 48)
    } else if c >= 'a' && c <= 'f' {
        Some(c as u8 - 87)
    } else if c >= 'A' && c <= 'F' {
        Some(c as u8 - 55)
    } else {
        None
    }
}

fn hex_pair(first: char, second: char) -> (byte: Option<u8>)
    ensures
        byte == hex_byte(first, second),
{
    match hex_digit(first) {
        Some(high) => match hex_digit(second) {
            Some(low) => Some(16 * high + low),
            None => None,
        },
        None => None,
    }
}

fn flush_pending(pending: &mut Vec<u8>, out: &mut Vec<char>)
    ensures
        final(out)@ == old(out)@ + flushed(old(pending)@),
        final(pending)@ == Seq::<u8>::empty(),
{
    if pending.len() == 0 {
        assert(out@ + Seq::<char>::empty() =~= out@);
        return ;
    }
    let text = utf8_lossy(pending);
    append(out, &chars_of(text.as_str()));
    pending.clear();
}

/// Well-formed bytes are kept as they are. A run of decoded bytes that is
/// well-formed UTF-8 gives exactly the text that it encodes: nothing is
/// replaced where nothing is invalid.
pub proof fn law_well_formed_bytes_are_kept(pending: Seq<u8>)
    requires
        valid_utf8(pending),
    ensures
        flushed(pending) == decode_utf8(pending),
{
    if pending.len() == 0 {
        assert(decode_utf8(pending) =~= Seq::<char>::empty());
    }
}

/// Decodes a percent-encoded text.
pub fn percent_decode(s: &str) -> (out: String)
    ensures
        out@ == percent_decoded(s@),
{
    let chars = chars_of(s);
    let mut out: Vec<char> = Vec::new();
    let mut pending: Vec<u8> = Vec::new();
    let mut i: usize = 0;
    assert(out@ + decoded_from(chars@, 0, pending@) =~= percent_decoded(chars@));
    while i < chars.len()
        invariant
            i <= chars.len(),
            percent_decoded(chars@) == out@ + decoded_from(chars@, i as int, pending@),
        decreases chars.len() - i,
    {
        let c = chars[i];
        let ghost before = out@;
        let ghost bytes = pending@;
        if c == '%' {
            let pair: Option<u8> = if chars.len() - i >= 3 {
                hex_pair(chars[i + 1], chars[i + 2])
            } else {
                None
            };
            match pair {
                Some(byte) => {
                    pending.push(byte);
                    i = i + 3;
                },
                None => {
                    flush_pending(&mut pending, &mut out);
                    let end: usize = if chars.len() - i >= 3 {
                        i + 3
                    } else {
                        chars.len()
                    };
                    append(&mut out, &slice_of(&chars, i, end));
                    assert(before + (flushed(bytes) + chars@.subrange(i as int, end as int)
                        + decoded_from(chars@, end as int, Seq::empty())) =~= before + flushed(
                        bytes,
                    ) + chars@.subrange(i as int, end as int) + decoded_from(
                        chars@,
                        end as int,
                        Seq::empty(),
                    ));
                    i = end;
                },
            }
        } else {
            flush_pending(&mut pending, &mut out);
            out.push(c);
            assert(before + (flushed(bytes).push(c) + decoded_from(
                chars@,
                i + 1,
                Seq::empty(),
            )) =~= (before + flushed(bytes)).push(c) + decoded_from(chars@, i + 1, Seq::empty()));
            i = i + 1;
        }
    }
    let ghost before = out@;
    let ghost bytes = pending@;
    flush_pending(&mut pending, &mut out);
    string_of(&out)
}

/// The key of the extended form.
pub open spec fn star_key() -> Seq<char> {
    "filename*="@
}

/// The key of the plain form.
pub open spec fn plain_key() -> Seq<char> {
    "filename="@
}

/// The text that follows the first occurrence of `key` in the header, up
/// to the next semicolon. The key is found in any mix of upper and lower
/// case.
pub open spec fn value_after(disposition: Seq<char>, key: Seq<char>) -> Option<Seq<char>> {
    match position(folded(disposition), key) {
        Some(i) => Some(before_first(disposition.skip(i + key.len()), ';')),
        None => None,
    }
}

/// Whether `s` begins with `prefix`.
pub open spec fn starts_with(s: Seq<char>, prefix: Seq<char>) -> bool {
    prefix.len() <= s.len() && s.take(prefix.len() as int) == prefix
}

/// The file name that the extended form gives: the value without the white
/// space around it must begin with the charset `UTF-8`, written in capitals
/// or in small letters, and two apostrophes; what follows is decoded.
pub open spec fn star_name(disposition: Seq<char>) -> Option<Seq<char>> {
    match value_after(disposition, star_key()) {
        Some(value) => {
            let rest = stripped(value, Strip::Whitespace);
            if starts_with(rest, "UTF-8''"@) || starts_with(rest, "utf-8''"@) {
                Some(percent_decoded(rest.skip(7)))
            } else {
                None
            }
        },
        None => None,
    }
}

/// The file name that the plain form gives: the value without the white
/// space and the quotes around it, unless nothing is left of it.
pub open spec fn plain_name(disposition: Seq<char>) -> Option<Seq<char>> {
    match value_after(disposition, plain_key()) {
        Some(value) => {
            let raw = stripped(stripped(value, Strip::Whitespace), Strip::Quotes);
            if raw.len() == 0 {
                None
            } else {
                Some(raw)
            }
        },
        None => None,
    }
}

/// The file name that a `Content-Disposition` header proposes: that of the
/// extended form if it gives one, else that of the plain form.
pub open spec fn filename_of(disposition: Seq<char>) -> Option<Seq<char>> {
    match star_name(disposition) {
        Some(name) => Some(name),
        None => plain_name(disposition),
    }
}

fn value_following(disposition: &Vec<char>, key: &str) -> (value: Option<Vec<char>>)
    ensures
        match value {
            Some(v) => value_after(disposition@, key@) == Some(v@),
            None => value_after(disposition@, key@) is None,
        },
{
    let low = fold(disposition);
    let key_chars = chars_of(key);
    match find(&low, &key_chars) {
        Some(i) => {
            let rest = slice_of(disposition, i + key_chars.len(), disposition.len());
            assert(rest@ =~= disposition@.skip(i + key_chars.len()));
            Some(take_before_first(&rest, ';'))
        },
        None => None,
    }
}

fn begins_with(s: &Vec<char>, prefix: &str) -> (yes: bool)
    ensures
        yes == starts_with(s@, prefix@),
{
    let p = chars_of(prefix);
    if p.len() > s.len() {
        return false;
    }
    let head = slice_of(s, 0, p.len());
    assert(head@ =~= s@.take(p.len() as int));
    let left = string_of(&head);
    let right = string_of(&p);
    left == right
}

/// The file name that the extended form of the header gives.
pub fn extract_filename_star(disposition: &str) -> (name: Option<String>)
    ensures
        text_of(name) == star_name(disposition@),
{
    let chars = chars_of(disposition);
    proof {
        reveal_strlit("UTF-8''");
        reveal_strlit("utf-8''");
    }
    match value_following(&chars, "filename*=") {
        Some(value) => {
            let rest = strip(&value, Strip::Whitespace);
            if begins_with(&rest, "UTF-8''") || begins_with(&rest, "utf-8''") {
                let encoded = slice_of(&rest, 7, rest.len());
                assert(encoded@ =~= rest@.skip(7));
                Some(percent_decode(string_of(&encoded).as_str()))
            } else {
                None
            }
        },
        None => None,
    }
}

/// The file name that the plain form of the header gives.
pub fn extract_filename_plain(disposition: &str) -> (name: Option<String>)
    ensures
        text_of(name) == plain_name(disposition@),
{
    let chars = chars_of(disposition);
    match value_following(&chars, "filename=") {
        Some(value) => {
            let raw = strip(&strip(&value, Strip::Whitespace), Strip::Quotes);
            if raw.len() == 0 {
                None
            } else {
                Some(string_of(&raw))
            }
        },
        None => None,
    }
}

/// Extracts the file name from a `Content-Disposition` header.
pub fn extract_filename(disposition: &str) -> (name: Option<String>)
    ensures
        text_of(name) == filename_of(disposition@),
{
    match extract_filename_star(disposition) {
        Some(name) => Some(name),
        None => extract_filename_plain(disposition),
    }
}

/// The extended form is preferred: a header from which the extended form
/// gives a name proposes that name, whatever its plain form says.
pub proof fn law_extended_form_is_preferred(disposition: Seq<char>)
    requires
        star_name(disposition) is Some,
    ensures
        filename_of(disposition) == star_name(disposition),
{
}

} // verus!
