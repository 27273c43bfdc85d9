//! What a session log holds, one entry per line, and how it can fail.
use crate::compaction::CompactKind;
use crate::message::Message;
use crate::prompt::ContextTransition;
use crate::text;
use vstd::prelude::*;
use vstd::string::*;

verus! {

/// One entry of a session log.
#[derive(Debug, Clone, PartialEq, Eq)]
pub enum SessionEntry {
    Meta { schema_version: u32 },
    Message(Message),
    /// The mark of a compaction in older logs.
    CompactBoundary { kind: CompactKind },
    /// A compaction, with the transcript that it left.
    CompactCheckpoint { kind: CompactKind, messages: Vec<Message> },
    ContextTransition { transition: Box<ContextTransition> },
    EncryptedReasoningRedacted,
    FileHistorySnapshot(FileSnapshot),
    /// An entry of a kind that is not known.
    Unknown,
}

/// A file as it was at some point of a session.
#[derive(Debug, Clone, PartialEq, Eq)]
pub struct FileSnapshot {
    pub path: String,
    pub content: String,
}

/// Why a session could not be written or read.
#[derive(Debug, Clone, PartialEq, Eq)]
pub enum SessionError {
    Io(String),
    Serde(String),
    /// A line in the middle of the log that cannot be read, and where it starts.
    Corrupt { offset: u64, detail: String },
}

impl SessionError {
    pub open spec fn text(self) -> Seq<char> {
        match self {
            SessionError::Io(detail) => "io: "@ + detail@,
            SessionError::Serde(detail) => "serde: "@ + detail@,
            SessionError::Corrupt { offset, detail } => "corrupt session line at offset "@
                + text::decimal(offset as nat) + ": "@ + detail@,
        }
    }

    /// The error in words.
    pub fn message(&self) -> (message: String)
        ensures
            message@ == self.text(),
    {
        match self {
            SessionError::Io(detail) => text::joined("io: ", detail.as_str(), "", ""),
            SessionError::Serde(detail) => text::joined("serde: ", detail.as_str(), "", ""),
            SessionError::Corrupt { offset, detail } => {
                let number = text::decimal_of(*offset as u128);
                text::joined(
                    "corrupt session line at offset ",
                    number.as_str(),
                    ": ",
                    detail.as_str(),
                )
            },
        }
    }
}

} // verus!
