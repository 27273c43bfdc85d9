//! What a provider offers beside sampling: remote compaction, memories, images, search, uploads
//! and realtime sessions. The requests and answers stand here; the calls stay outside.
pub mod compact;
pub mod files;
pub mod images;
pub mod realtime;
pub mod search;

use crate::provider::AuthError;
use crate::text;
use vstd::prelude::*;
use vstd::string::*;

verus! {

#[derive(Debug, Clone, Copy, PartialEq, Eq, Structural)]
pub enum AuxiliaryOperation {
    RemoteCompact,
    Memories,
    ImageGeneration,
    ImageEdit,
    Search,
    FileUpload,
    RealtimeCall,
    RealtimeWebSocket,
}

impl AuxiliaryOperation {
    pub open spec fn word(self) -> &'static str {
        match self {
            AuxiliaryOperation::RemoteCompact => "remote_compact",
            AuxiliaryOperation::Memories => "memories",
            AuxiliaryOperation::ImageGeneration => "image_generation",
            AuxiliaryOperation::ImageEdit => "image_edit",
            AuxiliaryOperation::Search => "search",
            AuxiliaryOperation::FileUpload => "file_upload",
            AuxiliaryOperation::RealtimeCall => "realtime_call",
            AuxiliaryOperation::RealtimeWebSocket => "realtime_websocket",
        }
    }

    /// The operation as a word.
    pub fn name(self) -> (word: &'static str)
        ensures
            word == self.word(),
    {
        match self {
            AuxiliaryOperation::RemoteCompact => "remote_compact",
            AuxiliaryOperation::Memories => "memories",
            AuxiliaryOperation::ImageGeneration => "image_generation",
            AuxiliaryOperation::ImageEdit => "image_edit",
            AuxiliaryOperation::Search => "search",
            AuxiliaryOperation::FileUpload => "file_upload",
            AuxiliaryOperation::RealtimeCall => "realtime_call",
            AuxiliaryOperation::RealtimeWebSocket => "realtime_websocket",
        }
    }
}

#[derive(Debug, Clone, Copy, PartialEq, Eq, Structural)]
pub enum AuxiliaryPhase {
    Validate,
    Request,
    Decode,
    BlobUpload,
    Finalize,
    Connect,
    Write,
    Read,
    Close,
}

impl AuxiliaryPhase {
    pub open spec fn word(self) -> &'static str {
        match self {
            AuxiliaryPhase::Validate => "validate",
            AuxiliaryPhase::Request => "request",
            AuxiliaryPhase::Decode => "decode",
            AuxiliaryPhase::BlobUpload => "blob_upload",
            AuxiliaryPhase::Finalize => "finalize",
            AuxiliaryPhase::Connect => "connect",
            AuxiliaryPhase::Write => "write",
            AuxiliaryPhase::Read => "read",
            AuxiliaryPhase::Close => "close",
        }
    }

    /// The phase as a word.
    pub fn name(self) -> (word: &'static str)
        ensures
            word == self.word(),
    {
        match self {
            AuxiliaryPhase::Validate => "validate",
            AuxiliaryPhase::Request => "request",
            AuxiliaryPhase::Decode => "decode",
            AuxiliaryPhase::BlobUpload => "blob_upload",
            AuxiliaryPhase::Finalize => "finalize",
            AuxiliaryPhase::Connect => "connect",
            AuxiliaryPhase::Write => "write",
            AuxiliaryPhase::Read => "read",
            AuxiliaryPhase::Close => "close",
        }
    }
}

/// Why an operation failed.
#[allow(inconsistent_fields)]
#[derive(Debug, Clone, PartialEq, Eq)]
pub enum AuxiliaryError {
    Unsupported { operation: AuxiliaryOperation },
    InvalidInput {
        operation: AuxiliaryOperation,
        phase: AuxiliaryPhase,
        field: &'static str,
        reason: String,
    },
    Timeout { operation: AuxiliaryOperation, phase: AuxiliaryPhase },
    Cancelled { operation: AuxiliaryOperation, phase: AuxiliaryPhase },
    Transport { operation: AuxiliaryOperation, phase: AuxiliaryPhase, kind: &'static str },
    BlobUploadTransport { kind: &'static str, azure_client_request_id: String },
    Auth { operation: AuxiliaryOperation, phase: AuxiliaryPhase, error: AuthError },
    Http {
        operation: AuxiliaryOperation,
        phase: AuxiliaryPhase,
        status: u16,
        request_id: Option<String>,
        azure_client_request_id: Option<String>,
        azure_request_id: Option<String>,
        azure_error_code: Option<String>,
    },
    Decode { operation: AuxiliaryOperation, phase: AuxiliaryPhase, reason: String },
    FileTooLarge { file_name: String, size_bytes: u64, limit_bytes: u64 },
    FileSizeMismatch { declared_bytes: u64, actual_bytes: u64 },
    UploadNotReady { file_id: String },
    UploadFailed { file_id: String, reason: String },
}

/// Where an operation stood when it failed.
pub open spec fn place(operation: AuxiliaryOperation, phase: AuxiliaryPhase) -> Seq<char> {
    operation.word()@ + " "@ + phase.word()@ + ": "@
}

fn place_of(operation: AuxiliaryOperation, phase: AuxiliaryPhase) -> (words: String)
    ensures
        words@ == place(operation, phase),
{
    text::joined(operation.name(), " ", phase.name(), ": ")
}

impl AuxiliaryError {
    pub open spec fn text(self) -> Seq<char> {
        match self {
            AuxiliaryError::Unsupported { operation } => operation.word()@
                + ": provider capability is unsupported"@,
            AuxiliaryError::InvalidInput { operation, phase, field, reason } => place(
                operation,
                phase,
            ) + "invalid field `"@ + field@ + "`: "@ + reason@,
            AuxiliaryError::Timeout { operation, phase } => place(operation, phase)
                + "operation timed out"@,
            AuxiliaryError::Cancelled { operation, phase } => place(operation, phase)
                + "operation cancelled"@,
            AuxiliaryError::Transport { operation, phase, kind } => place(operation, phase)
                + "transport failed ("@ + kind@ + ")"@,
            AuxiliaryError::BlobUploadTransport { kind, azure_client_request_id: id } => {
                "file_upload blob_upload: transport failed ("@ + kind@
                    + ", azure_client_request_id="@ + id@ + ")"@
            },
            AuxiliaryError::Auth { operation, phase, error } => place(operation, phase)
                + "authentication failed ("@ + error.word()@ + ")"@,
            AuxiliaryError::Http { operation, phase, status, .. } => place(operation, phase)
                + "HTTP "@ + text::decimal(status as nat),
            AuxiliaryError::Decode { operation, phase, reason } => place(operation, phase)
                + "malformed provider payload ("@ + reason@ + ")"@,
            AuxiliaryError::FileTooLarge { file_name, size_bytes, limit_bytes } => {
                "file_upload validate: file `"@ + file_name@ + "` is "@ + text::decimal(
                    size_bytes as nat,
                ) + " bytes, limit is "@ + text::decimal(limit_bytes as nat)
            },
            AuxiliaryError::FileSizeMismatch { declared_bytes, actual_bytes } => {
                "file_upload validate: declared size "@ + text::decimal(declared_bytes as nat)
                    + " differs from "@ + text::decimal(actual_bytes as nat)
            },
            AuxiliaryError::UploadNotReady { file_id } => "file_upload finalize: upload `"@
                + file_id@ + "` is not ready"@,
            AuxiliaryError::UploadFailed { file_id, reason } => "file_upload finalize: upload `"@
                + file_id@ + "` failed ("@ + reason@ + ")"@,
        }
    }

    /// The error in words.
    pub fn message(&self) -> (message: String)
        ensures
            message@ == self.text(),
    {
        match self {
            AuxiliaryError::Unsupported { operation } => text::joined(
                operation.name(),
                ": provider capability is unsupported",
                "",
                "",
            ),
            AuxiliaryError::InvalidInput { operation, phase, field, reason } => {
                let mut message = place_of(*operation, *phase);
                message.append("invalid field `");
                message.append(field);
                message.append("`: ");
                message.append(reason.as_str());
                message
            },
            AuxiliaryError::Timeout { operation, phase } => {
                let mut message = place_of(*operation, *phase);
                message.append("operation timed out");
                message
            },
            AuxiliaryError::Cancelled { operation, phase } => {
                let mut message = place_of(*operation, *phase);
                message.append("operation cancelled");
                message
            },
            AuxiliaryError::Transport { operation, phase, kind } => {
                let mut message = place_of(*operation, *phase);
                message.append("transport failed (");
                message.append(kind);
                message.append(")");
                message
            },
            AuxiliaryError::BlobUploadTransport { kind, azure_client_request_id: id } => {
                let mut message = text::joined(
                    "file_upload blob_upload: transport failed (",
                    kind,
                    ", azure_client_request_id=",
                    id.as_str(),
                );
                message.append(")");
                message
            },
            AuxiliaryError::Auth { operation, phase, error } => {
                let mut message = place_of(*operation, *phase);
                message.append("authentication failed (");
                message.append(error.name());
                message.append(")");
                message
            },
            AuxiliaryError::Http { operation, phase, status, .. } => {
                let mut message = place_of(*operation, *phase);
                message.append("HTTP ");
                message.append(text::decimal_of(*status as u128).as_str());
                message
            },
            AuxiliaryError::Decode { operation, phase, reason } => {
                let mut message = place_of(*operation, *phase);
                message.append("malformed provider payload (");
                message.append(reason.as_str());
                message.append(")");
                message
            },
            AuxiliaryError::FileTooLarge { file_name, size_bytes, limit_bytes } => {
                let size = text::decimal_of(*size_bytes as u128);
                let limit = text::decimal_of(*limit_bytes as u128);
                let mut message = text::joined(
                    "file_upload validate: file `",
                    file_name.as_str(),
                    "` is ",
                    size.as_str(),
                );
                message.append(" bytes, limit is ");
                message.append(limit.as_str());
                message
            },
            AuxiliaryError::FileSizeMismatch { declared_bytes, actual_bytes } => {
                let declared = text::decimal_of(*declared_bytes as u128);
                let actual = text::decimal_of(*actual_bytes as u128);
                text::joined(
                    "file_upload validate: declared size ",
                    declared.as_str(),
                    " differs from ",
                    actual.as_str(),
                )
            },
            AuxiliaryError::UploadNotReady { file_id } => text::joined(
                "file_upload finalize: upload `",
                file_id.as_str(),
                "` is not ready",
                "",
            ),
            AuxiliaryError::UploadFailed { file_id, reason } => {
                let mut message = text::joined(
                    "file_upload finalize: upload `",
                    file_id.as_str(),
                    "` failed (",
                    reason.as_str(),
                );
                message.append(")");
                message
            },
        }
    }

    /// An input that was refused before anything was sent.
    pub fn invalid(operation: AuxiliaryOperation, field: &'static str, reason: &str) -> (error:
        AuxiliaryError)
        ensures
            error matches AuxiliaryError::InvalidInput {
                operation: o,
                phase: AuxiliaryPhase::Validate,
                field: f,
                reason: r,
            } && o == operation && f == field && r@ == reason@,
    {
        AuxiliaryError::InvalidInput {
            operation,
            phase: AuxiliaryPhase::Validate,
            field,
            reason: reason.to_owned(),
        }
    }

    /// An answer that could not be read.
    pub fn decode(operation: AuxiliaryOperation, reason: &str) -> (error: AuxiliaryError)
        ensures
            error matches AuxiliaryError::Decode {
                operation: o,
                phase: AuxiliaryPhase::Decode,
                reason: r,
            } && o == operation && r@ == reason@,
    {
        AuxiliaryError::Decode {
            operation,
            phase: AuxiliaryPhase::Decode,
            reason: reason.to_owned(),
        }
    }
}

} // verus!
