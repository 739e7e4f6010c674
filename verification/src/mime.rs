//! From media types to file extensions.
//!
//! A media type is looked up by its essence: the part before the first
//! semicolon, without the white space around it, in lower case.

use vstd::prelude::*;
use vstd::string::StringExecFns;
use crate::text::{
    before_first, chars_of, same_text, string_of, strip, stripped, take_before_first, text_of,
    to_lowercase, unicode_lowercase, Strip,
};

verus! {

/// The essence of a media type as it is looked up.
pub open spec fn mime_key_of(content_type: Seq<char>) -> Seq<char> {
    unicode_lowercase(stripped(before_first(content_type, ';'), Strip::Whitespace))
}

/// Brings a media type into the form in which it is looked up.
pub fn mime_key(content_type: &str) -> (key: String)
    ensures
        key@ == mime_key_of(content_type@),
{
    let essence = strip(&take_before_first(&chars_of(content_type), ';'), Strip::Whitespace);
    to_lowercase(string_of(&essence).as_str())
}

/// The extension that the engine gives a file of the media type `key`,
/// which is in lower case: the table of the audio, video, archive and
/// installer types that it knows.
pub open spec fn mime_extension(key: Seq<char>) -> Option<Seq<char>> {
    if key == "video/mp4"@ || key == "video/x-m4v"@ {
        Some("mp4"@)
    } else if key == "video/x-matroska"@ {
        Some("mkv"@)
    } else if key == "video/webm"@ {
        Some("webm"@)
    } else if key == "video/x-msvideo"@ {
        Some("avi"@)
    } else if key == "video/quicktime"@ {
        Some("mov"@)
    } else if key == "video/x-ms-wmv"@ {
        Some("wmv"@)
    } else if key == "video/3gpp"@ {
        Some("3gp"@)
    } else if key == "video/x-flv"@ {
        Some("flv"@)
    } else if key == "video/mpeg"@ {
        Some("mpg"@)
    } else if key == "audio/mpeg"@ {
        Some("mp3"@)
    } else if key == "audio/flac"@ {
        Some("flac"@)
    } else if key == "audio/ogg"@ {
        Some("ogg"@)
    } else if key == "audio/wav"@ || key == "audio/x-wav"@ {
        Some("wav"@)
    } else if key == "audio/aac"@ {
        Some("aac"@)
    } else if key == "audio/x-m4a"@ || key == "audio/mp4"@ {
        Some("m4a"@)
    } else if key == "audio/opus"@ {
        Some("opus"@)
    } else if key == "application/zip"@ {
        Some("zip"@)
    } else if key == "application/x-tar"@ {
        Some("tar"@)
    } else if key == "application/gzip"@ || key == "application/x-gzip"@ {
        Some("gz"@)
    } else if key == "application/x-bzip2"@ {
        Some("bz2"@)
    } else if key == "application/x-7z-compressed"@ {
        Some("7z"@)
    } else if key == "application/x-rar-compressed"@ || key == "application/vnd.rar"@ {
        Some("rar"@)
    } else if key == "application/pdf"@ {
        Some("pdf"@)
    } else if key == "application/x-msdownload"@ {
        Some("exe"@)
    } else if key == "application/x-ms-installer"@ || key == "application/x-msi"@ {
        Some("msi"@)
    } else if key == "application/vnd.debian.binary-package"@ {
        Some("deb"@)
    } else if key == "application/x-rpm"@ {
        Some("rpm"@)
    } else if key == "application/x-apple-diskimage"@ {
        Some("dmg"@)
    } else {
        None
    }
}

/// Looks up the extension for a media type that is already in the form of
/// a key.
pub fn extension_for_mime(key: &str) -> (ext: Option<String>)
    ensures
        text_of(ext) == mime_extension(key@),
{
    if same_text(key, "video/mp4") || same_text(key, "video/x-m4v") {
        Some(String::from_str("mp4"))
    } else if same_text(key, "video/x-matroska") {
        Some(String::from_str("mkv"))
    } else if same_text(key, "video/webm") {
        Some(String::from_str("webm"))
    } else if same_text(key, "video/x-msvideo") {
        Some(String::from_str("avi"))
    } else if same_text(key, "video/quicktime") {
        Some(String::from_str("mov"))
    } else if same_text(key, "video/x-ms-wmv") {
        Some(String::from_str("wmv"))
    } else if same_text(key, "video/3gpp") {
        Some(String::from_str("3gp"))
    } else if same_text(key, "video/x-flv") {
        Some(String::from_str("flv"))
    } else if same_text(key, "video/mpeg") {
        Some(String::from_str("mpg"))
    } else if same_text(key, "audio/mpeg") {
        Some(String::from_str("mp3"))
    } else if same_text(key, "audio/flac") {
        Some(String::from_str("flac"))
    } else if same_text(key, "audio/ogg") {
        Some(String::from_str("ogg"))
    } else if same_text(key, "audio/wav") || same_text(key, "audio/x-wav") {
        Some(String::from_str("wav"))
    } else if same_text(key, "audio/aac") {
        Some(String::from_str("aac"))
    } else if same_text(key, "audio/x-m4a") || same_text(key, "audio/mp4") {
        Some(String::from_str("m4a"))
    } else if same_text(key, "audio/opus") {
        Some(String::from_str("opus"))
    } else if same_text(key, "application/zip") {
        Some(String::from_str("zip"))
    } else if same_text(key, "application/x-tar") {
        Some(String::from_str("tar"))
    } else if same_text(key, "application/gzip") || same_text(key, "application/x-gzip") {
        Some(String::from_str("gz"))
    } else if same_text(key, "application/x-bzip2") {
        Some(String::from_str("bz2"))
    } else if same_text(key, "application/x-7z-compressed") {
        Some(String::from_str("7z"))
    } else if same_text(key, "application/x-rar-compressed") || same_text(key, "application/vnd.rar") {
        Some(String::from_str("rar"))
    } else if same_text(key, "application/pdf") {
        Some(String::from_str("pdf"))
    } else if same_text(key, "application/x-msdownload") {
        Some(String::from_str("exe"))
    } else if same_text(key, "application/x-ms-installer") || same_text(key, "application/x-msi") {
        Some(String::from_str("msi"))
    } else if same_text(key, "application/vnd.debian.binary-package") {
        Some(String::from_str("deb"))
    } else if same_text(key, "application/x-rpm") {
        Some(String::from_str("rpm"))
    } else if same_text(key, "application/x-apple-diskimage") {
        Some(String::from_str("dmg"))
    } else {
        None
    }
}

/// The extension for a media type, if there is a type and the engine knows
/// it.
pub fn ext_from_mime(content_type: Option<&str>) -> (ext: Option<String>)
    ensures
        text_of(ext) == match content_type {
            Some(t) => mime_extension(mime_key_of(t@)),
            None => None,
        },
{
    match content_type {
        Some(t) => {
            let key = mime_key(t);
            extension_for_mime(key.as_str())
        },
        None => None,
    }
}

/// The extension that a saved file of the media type `key` gets: the wider
/// table, which also knows documents and images, and leaves programs
/// without an extension.
pub open spec fn content_type_extension(key: Seq<char>) -> Option<Seq<char>> {
    if key == "video/mp4"@ || key == "video/x-m4v"@ {
        Some("mp4"@)
    } else if key == "video/x-matroska"@ {
        Some("mkv"@)
    } else if key == "video/webm"@ {
        Some("webm"@)
    } else if key == "video/x-msvideo"@ {
        Some("avi"@)
    } else if key == "video/quicktime"@ {
        Some("mov"@)
    } else if key == "video/x-ms-wmv"@ {
        Some("wmv"@)
    } else if key == "video/3gpp"@ {
        Some("3gp"@)
    } else if key == "video/x-flv"@ {
        Some("flv"@)
    } else if key == "video/mpeg"@ {
        Some("mpg"@)
    } else if key == "audio/mpeg"@ {
        Some("mp3"@)
    } else if key == "audio/flac"@ {
        Some("flac"@)
    } else if key == "audio/ogg"@ {
        Some("ogg"@)
    } else if key == "audio/wav"@ || key == "audio/x-wav"@ {
        Some("wav"@)
    } else if key == "audio/aac"@ {
        Some("aac"@)
    } else if key == "audio/x-m4a"@ || key == "audio/mp4"@ {
        Some("m4a"@)
    } else if key == "audio/opus"@ {
        Some("opus"@)
    } else if key == "application/zip"@ {
        Some("zip"@)
    } else if key == "application/x-tar"@ {
        Some("tar"@)
    } else if key == "application/gzip"@ || key == "application/x-gzip"@ {
        Some("gz"@)
    } else if key == "application/x-bzip2"@ {
        Some("bz2"@)
    } else if key == "application/x-7z-compressed"@ {
        Some("7z"@)
    } else if key == "application/x-rar-compressed"@ || key == "application/vnd.rar"@ {
        Some("rar"@)
    } else if key == "application/x-xz"@ {
        Some("xz"@)
    } else if key == "application/x-ms-installer"@ || key == "application/x-msi"@ {
        Some("msi"@)
    } else if key == "application/vnd.debian.binary-package"@ {
        Some("deb"@)
    } else if key == "application/x-rpm"@ {
        Some("rpm"@)
    } else if key == "application/x-apple-diskimage"@ {
        Some("dmg"@)
    } else if key == "application/x-newton-compatible-pkg"@ {
        Some("pkg"@)
    } else if key == "application/pdf"@ {
        Some("pdf"@)
    } else if key == "application/msword"@ {
        Some("doc"@)
    } else if key == "application/vnd.openxmlformats-officedocument.wordprocessingml.document"@ {
        Some("docx"@)
    } else if key == "application/vnd.ms-excel"@ {
        Some("xls"@)
    } else if key == "application/vnd.openxmlformats-officedocument.spreadsheetml.sheet"@ {
        Some("xlsx"@)
    } else if key == "application/vnd.ms-powerpoint"@ {
        Some("ppt"@)
    } else if key == "application/vnd.openxmlformats-officedocument.presentationml.presentation"@ {
        Some("pptx"@)
    } else if key == "image/jpeg"@ {
        Some("jpg"@)
    } else if key == "image/png"@ {
        Some("png"@)
    } else if key == "image/gif"@ {
        Some("gif"@)
    } else if key == "image/webp"@ {
        Some("webp"@)
    } else if key == "image/svg+xml"@ {
        Some("svg"@)
    } else {
        None
    }
}

/// Looks up the extension of a saved file for a media type that is already
/// in the form of a key.
pub fn extension_for_content_type(key: &str) -> (ext: Option<String>)
    ensures
        text_of(ext) == content_type_extension(key@),
{
    if same_text(key, "video/mp4") || same_text(key, "video/x-m4v") {
        Some(String::from_str("mp4"))
    } else if same_text(key, "video/x-matroska") {
        Some(String::from_str("mkv"))
    } else if same_text(key, "video/webm") {
        Some(String::from_str("webm"))
    } else if same_text(key, "video/x-msvideo") {
        Some(String::from_str("avi"))
    } else if same_text(key, "video/quicktime") {
        Some(String::from_str("mov"))
    } else if same_text(key, "video/x-ms-wmv") {
        Some(String::from_str("wmv"))
    } else if same_text(key, "video/3gpp") {
        Some(String::from_str("3gp"))
    } else if same_text(key, "video/x-flv") {
        Some(String::from_str("flv"))
    } else if same_text(key, "video/mpeg") {
        Some(String::from_str("mpg"))
    } else if same_text(key, "audio/mpeg") {
        Some(String::from_str("mp3"))
    } else if same_text(key, "audio/flac") {
        Some(String::from_str("flac"))
    } else if same_text(key, "audio/ogg") {
        Some(String::from_str("ogg"))
    } else if same_text(key, "audio/wav") || same_text(key, "audio/x-wav") {
        Some(String::from_str("wav"))
    } else if same_text(key, "audio/aac") {
        Some(String::from_str("aac"))
    } else if same_text(key, "audio/x-m4a") || same_text(key, "audio/mp4") {
        Some(String::from_str("m4a"))
    } else if same_text(key, "audio/opus") {
        Some(String::from_str("opus"))
    } else if same_text(key, "application/zip") {
        Some(String::from_str("zip"))
    } else if same_text(key, "application/x-tar") {
        Some(String::from_str("tar"))
    } else if same_text(key, "application/gzip") || same_text(key, "application/x-gzip") {
        Some(String::from_str("gz"))
    } else if same_text(key, "application/x-bzip2") {
        Some(String::from_str("bz2"))
    } else if same_text(key, "application/x-7z-compressed") {
        Some(String::from_str("7z"))
    } else if same_text(key, "application/x-rar-compressed") || same_text(key, "application/vnd.rar") {
        Some(String::from_str("rar"))
    } else if same_text(key, "application/x-xz") {
        Some(String::from_str("xz"))
    } else if same_text(key, "application/x-ms-installer") || same_text(key, "application/x-msi") {
        Some(String::from_str("msi"))
    } else if same_text(key, "application/vnd.debian.binary-package") {
        Some(String::from_str("deb"))
    } else if same_text(key, "application/x-rpm") {
        Some(String::from_str("rpm"))
    } else if same_text(key, "application/x-apple-diskimage") {
        Some(String::from_str("dmg"))
    } else if same_text(key, "application/x-newton-compatible-pkg") {
        Some(String::from_str("pkg"))
    } else if same_text(key, "application/pdf") {
        Some(String::from_str("pdf"))
    } else if same_text(key, "application/msword") {
        Some(String::from_str("doc"))
    } else if same_text(key, "application/vnd.openxmlformats-officedocument.wordprocessingml.document") {
        Some(String::from_str("docx"))
    } else if same_text(key, "application/vnd.ms-excel") {
        Some(String::from_str("xls"))
    } else if same_text(key, "application/vnd.openxmlformats-officedocument.spreadsheetml.sheet") {
        Some(String::from_str("xlsx"))
    } else if same_text(key, "application/vnd.ms-powerpoint") {
        Some(String::from_str("ppt"))
    } else if same_text(key, "application/vnd.openxmlformats-officedocument.presentationml.presentation") {
        Some(String::from_str("pptx"))
    } else if same_text(key, "image/jpeg") {
        Some(String::from_str("jpg"))
    } else if same_text(key, "image/png") {
        Some(String::from_str("png"))
    } else if same_text(key, "image/gif") {
        Some(String::from_str("gif"))
    } else if same_text(key, "image/webp") {
        Some(String::from_str("webp"))
    } else if same_text(key, "image/svg+xml") {
        Some(String::from_str("svg"))
    } else {
        None
    }
}

/// The extension of a saved file for a media type, if there is a type and
/// the table knows it.
pub fn ext_from_content_type(content_type: Option<&str>) -> (ext: Option<String>)
    ensures
        text_of(ext) == match content_type {
            Some(t) => content_type_extension(mime_key_of(t@)),
            None => None,
        },
{
    match content_type {
        Some(t) => {
            let key = mime_key(t);
            extension_for_content_type(key.as_str())
        },
        None => None,
    }
}

} // verus!
