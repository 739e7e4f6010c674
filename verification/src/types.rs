//! Wire types shared by every component of the engine.

use vstd::prelude::*;
use vstd::string::StringExecFns;

verus! {

/// Where a byte range stands in its life.
#[derive(Debug, Clone, Copy, PartialEq, Eq, Structural)]
pub enum SegmentState {
    NotStarted,
    Finished,
    Downloading,
    Failed,
}

/// Which stream of a resource a range belongs to.
#[derive(Debug, Clone, Copy, PartialEq, Eq, Structural)]
pub enum StreamType {
    Primary,
    Secondary,
}

/// One contiguous byte interval of the resource, fetched by one task.
///
/// A `length` that is zero or negative means that the length is not known:
/// the range then takes whatever the origin sends.
#[derive(Debug)]
pub struct Piece {
    pub id: String,
    pub offset: i64,
    pub length: i64,
    pub downloaded: i64,
    pub state: SegmentState,
    pub stream_type: StreamType,
}

impl Piece {
    /// Whether the range has a known length.
    pub open spec fn bounded(self) -> bool {
        self.length > 0
    }

    /// The invariant of a range: it starts at a non-negative position, has
    /// committed a non-negative number of bytes, never more than its length
    /// where that is known, and its last byte has a position that fits.
    pub open spec fn wf(self) -> bool {
        &&& 0 <= self.offset
        &&& 0 <= self.downloaded
        &&& self.bounded() ==> self.downloaded <= self.length
        &&& self.bounded() ==> self.offset + self.length <= i64::MAX
    }

    /// A range that has not been started: nothing downloaded yet.
    pub fn new(id: String, offset: i64, length: i64) -> (piece: Piece)
        ensures
            piece.id == id,
            piece.offset == offset,
            piece.length == length,
            piece.downloaded == 0,
            piece.state == SegmentState::NotStarted,
            piece.stream_type == StreamType::Primary,
    {
        Piece {
            id,
            offset,
            length,
            downloaded: 0,
            state: SegmentState::NotStarted,
            stream_type: StreamType::Primary,
        }
    }
}

impl Clone for Piece {
    fn clone(&self) -> (copy: Piece)
        ensures
            copy == *self,
    {
        Piece {
            id: self.id.clone(),
            offset: self.offset,
            length: self.length,
            downloaded: self.downloaded,
            state: self.state,
            stream_type: self.stream_type,
        }
    }
}

/// Why a download, or one range of it, did not succeed.
///
/// `Network` and `Disk` carry the text of the underlying cause.
#[derive(Debug)]
pub enum DownloadError {
    Network(String),
    Disk(String),
    InvalidState,
    MaxRetryExceeded,
    NonResumable,
    Cancelled,
    PieceFailed(String),
}

impl Clone for DownloadError {
    fn clone(&self) -> (copy: DownloadError)
        ensures
            copy == *self,
    {
        match self {
            DownloadError::Network(cause) => DownloadError::Network(cause.clone()),
            DownloadError::Disk(cause) => DownloadError::Disk(cause.clone()),
            DownloadError::InvalidState => DownloadError::InvalidState,
            DownloadError::MaxRetryExceeded => DownloadError::MaxRetryExceeded,
            DownloadError::NonResumable => DownloadError::NonResumable,
            DownloadError::Cancelled => DownloadError::Cancelled,
            DownloadError::PieceFailed(cause) => DownloadError::PieceFailed(cause.clone()),
        }
    }
}

impl DownloadError {
    /// The text that `message` gives for an error.
    pub open spec fn message_text(self) -> Seq<char> {
        match self {
            DownloadError::Network(cause) => "network error: "@ + cause@,
            DownloadError::Disk(cause) => "disk error: "@ + cause@,
            DownloadError::InvalidState => "invalid state"@,
            DownloadError::MaxRetryExceeded => "max retry exceeded"@,
            DownloadError::NonResumable => "non-resumable"@,
            DownloadError::Cancelled => "cancelled"@,
            DownloadError::PieceFailed(cause) => "piece failed: "@ + cause@,
        }
    }

    /// The error as a line of text, as it is shown to observers.
    pub fn message(&self) -> (text: String)
        ensures
            text@ == self.message_text(),
    {
        match self {
            DownloadError::Network(cause) => String::from_str("network error: ").concat(
                cause.as_str(),
            ),
            DownloadError::Disk(cause) => String::from_str("disk error: ").concat(cause.as_str()),
            DownloadError::InvalidState => String::from_str("invalid state"),
            DownloadError::MaxRetryExceeded => String::from_str("max retry exceeded"),
            DownloadError::NonResumable => String::from_str("non-resumable"),
            DownloadError::Cancelled => String::from_str("cancelled"),
            DownloadError::PieceFailed(cause) => String::from_str("piece failed: ").concat(
                cause.as_str(),
            ),
        }
    }
}

/// What the probe learned about the resource.
#[derive(Debug, Clone)]
pub struct ProbeResult {
    /// Whether the origin answers range requests with partial content.
    pub resumable: bool,
    /// The size of the resource in bytes, if the origin told it.
    pub resource_size: Option<u64>,
    /// The address after redirects.
    pub final_uri: String,
    /// The file name that the origin proposes.
    pub attachment_name: Option<String>,
    pub content_type: Option<String>,
    pub last_modified: Option<String>,
}

/// Credentials for Basic authentication.
#[derive(Debug, Clone)]
pub struct AuthenticationInfo {
    pub username: String,
    pub password: String,
}

/// A proxy to send the requests through.
#[derive(Debug, Clone)]
pub struct ProxyInfo {
    pub host: String,
    pub port: u16,
    pub username: Option<String>,
    pub password: Option<String>,
}

/// One header name with the values that are sent under it.
#[derive(Debug, Clone)]
pub struct HeaderEntry {
    pub name: String,
    pub values: Vec<String>,
}

/// What every request of a job carries. It does not change while the job
/// runs.
#[derive(Debug, Clone)]
pub struct HeaderData {
    /// The extra headers, each name once.
    pub headers: Vec<HeaderEntry>,
    pub cookies: Option<String>,
    pub url: String,
    pub authentication: Option<AuthenticationInfo>,
    pub proxy: Option<ProxyInfo>,
}

/// The state of one job.
#[derive(Debug, Clone)]
pub struct DownloaderState {
    pub id: String,
    pub url: String,
    pub output_path: Option<String>,
    /// The scratch directory of the job.
    pub temp_dir: String,
    /// The size of the resource in bytes, or a negative number while it is
    /// not known.
    pub file_size: i64,
    pub headers: Vec<HeaderEntry>,
    pub cookies: Option<String>,
    pub authentication: Option<AuthenticationInfo>,
    pub proxy: Option<ProxyInfo>,
    pub convert_to_mp3: bool,
    pub last_modified: Option<String>,
    pub resumable: bool,
    pub attachment_name: Option<String>,
    pub content_type: Option<String>,
}

/// News from a fetcher: so many more bytes of a range are on disk.
#[derive(Debug, Clone)]
pub struct ProgressEvent {
    pub segment_id: String,
    /// Bytes written since the last event for this range.
    pub bytes_delta: u64,
    /// The length of the range, where it is known.
    pub total_bytes: Option<u64>,
}

} // verus!
