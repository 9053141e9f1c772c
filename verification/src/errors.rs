//! The error type shared by all modules.

use vstd::prelude::*;
use vstd::string::StringExecFns;

verus! {

/// What can go wrong inside the library.
#[derive(Debug)]
pub enum Error {
    /// A value could not be encoded or decoded in the fixed binary layout.
    Bincode,
    /// A snapshot message carries no metadata.
    MissMetadata,
    /// A protobuf payload could not be encoded or decoded.
    Protbuf,
    /// A stored checksum differs from the checksum of the bytes it covers.
    CrcMissMatch,
    /// A segment boundary marker contradicts the snapshot the log was opened at.
    SnapMissMatch,
    /// A required path is absent.
    MissFilePath(Vec<u8>),
    /// Peer context bytes are not valid UTF-8.
    Utf8,
    /// A file cannot take what is written to it.
    Io,
    /// The name of a log segment is not two sixteen-digit numbers.
    BadSegmentName(Vec<u8>),
    /// No log segment starts at or before the index asked for.
    NoSegment,
    /// The sequence numbers of the log segments leave a gap.
    SeqGap,
    /// A remote procedure of this name does not exist.
    UnknownMethod(Vec<u8>),
}

/// The text that `String::from_utf8_lossy` makes of bytes.
pub uninterp spec fn spec_lossy_text(b: Seq<u8>) -> Seq<char>;

/// Calls `String::from_utf8_lossy`, which turns bytes into text and puts a
/// replacement character where they are not UTF-8. The text is a function
/// of the bytes alone.
#[verifier::external_body]
fn lossy_text(path: &Vec<u8>) -> (text: String)
    ensures
        text@ == spec_lossy_text(path@),
{
    String::from_utf8_lossy(path).into_owned()
}

/// The text of `path` between `before` and `after`.
fn with_path(before: &str, path: &Vec<u8>, after: &str) -> (text: String)
    ensures
        text@ == before@ + spec_lossy_text(path@) + after@,
{
    let mut text = before.to_string();
    let name = lossy_text(path);
    text.append(name.as_str());
    text.append(after);
    text
}

impl Error {
    /// The message of the error, for a log or a terminal.
    pub open spec fn spec_message(&self) -> Seq<char> {
        match *self {
            Error::Bincode => "bincode error"@,
            Error::MissMetadata => "miss metadata in snapshot message"@,
            Error::Protbuf => "protobuf error"@,
            Error::CrcMissMatch => "crc miss match"@,
            Error::SnapMissMatch => "snapshot miss match"@,
            Error::MissFilePath(p) => "file path "@ + spec_lossy_text(p@) + " not found"@,
            Error::Utf8 => "invalid utf-8"@,
            Error::Io => "io error"@,
            Error::BadSegmentName(p) => "invalid format of file name "@ + spec_lossy_text(p@)
                + ""@,
            Error::NoSegment => "no wal file starts at or before the index"@,
            Error::SeqGap => "unexpect seq number"@,
            Error::UnknownMethod(p) => "unknown method "@ + spec_lossy_text(p@) + ""@,
        }
    }

    /// The message of the error, for a log or a terminal.
    pub fn message(&self) -> (text: String)
        ensures
            text@ == self.spec_message(),
    {
        match self {
            Error::Bincode => "bincode error".to_string(),
            Error::MissMetadata => "miss metadata in snapshot message".to_string(),
            Error::Protbuf => "protobuf error".to_string(),
            Error::CrcMissMatch => "crc miss match".to_string(),
            Error::SnapMissMatch => "snapshot miss match".to_string(),
            Error::MissFilePath(p) => with_path("file path ", p, " not found"),
            Error::Utf8 => "invalid utf-8".to_string(),
            Error::Io => "io error".to_string(),
            Error::BadSegmentName(p) => with_path("invalid format of file name ", p, ""),
            Error::NoSegment => "no wal file starts at or before the index".to_string(),
            Error::SeqGap => "unexpect seq number".to_string(),
            Error::UnknownMethod(p) => with_path("unknown method ", p, ""),
        }
    }
}

} // verus!
