//! Realtime sessions: their forms, what is sent and what comes back.
use crate::json::Json;
use crate::text;
use vstd::prelude::*;
use vstd::string::*;

verus! {

#[derive(Debug, Clone, Copy, PartialEq, Eq, Structural)]
pub enum RealtimeWire {
    V1,
    FramelessBidi,
    RealtimeV2,
}

#[derive(Debug, Clone, Copy, PartialEq, Eq, Structural)]
pub enum RealtimeOutputModality {
    Text,
    Audio,
}

#[derive(Debug, Clone, Copy, PartialEq, Eq, Structural)]
pub enum RealtimeContextAppendChannel {
    Speakable,
    Commentary,
}

#[derive(Debug, Clone, Copy, PartialEq, Eq, Structural)]
pub enum RealtimeConversationRole {
    User,
    Assistant,
    Developer,
}

#[derive(Debug, Clone, PartialEq, Eq)]
pub struct RealtimeConversationText {
    pub role: RealtimeConversationRole,
    pub text: String,
}

#[derive(Debug, Clone, Copy, PartialEq, Eq, Structural)]
pub enum RealtimeVoice {
    Alloy,
    Arbor,
    Ash,
    Ballad,
    Breeze,
    Cedar,
    Coral,
    Cove,
    Echo,
    Ember,
    Juniper,
    Maple,
    Marin,
    Sage,
    Shimmer,
    Sol,
    Spruce,
    Vale,
    Verse,
}

#[derive(Debug, Clone, PartialEq, Eq)]
pub struct RealtimeV1SessionConfig {
    pub instructions: String,
    pub model: Option<String>,
    pub session_id: Option<String>,
    pub voice: RealtimeVoice,
}

#[derive(Debug, Clone, PartialEq, Eq)]
pub struct RealtimeFramelessSessionConfig {
    pub instructions: String,
    pub initial_items: Vec<RealtimeConversationText>,
    pub delegation_ack_filler: Option<bool>,
    pub model: Option<String>,
    pub session_id: Option<String>,
    pub voice: RealtimeVoice,
}

#[derive(Debug, Clone, PartialEq, Eq)]
pub struct RealtimeV2ConversationalSessionConfig {
    pub instructions: String,
    pub model: Option<String>,
    pub session_id: Option<String>,
    pub output_modality: RealtimeOutputModality,
    pub voice: RealtimeVoice,
}

#[derive(Debug, Clone, PartialEq, Eq)]
pub struct RealtimeV2TranscriptionSessionConfig {
    pub model: Option<String>,
    pub session_id: Option<String>,
}

#[derive(Debug, Clone, PartialEq, Eq)]
pub enum RealtimeV2SessionConfig {
    Conversational(RealtimeV2ConversationalSessionConfig),
    Transcription(RealtimeV2TranscriptionSessionConfig),
}

#[derive(Debug, Clone, PartialEq, Eq)]
pub enum RealtimeSessionConfig {
    V1(RealtimeV1SessionConfig),
    FramelessBidi(RealtimeFramelessSessionConfig),
    RealtimeV2(RealtimeV2SessionConfig),
}

/// The wire that a form of session speaks.
pub open spec fn config_wire(config: RealtimeSessionConfig) -> RealtimeWire {
    match config {
        RealtimeSessionConfig::V1(_) => RealtimeWire::V1,
        RealtimeSessionConfig::FramelessBidi(_) => RealtimeWire::FramelessBidi,
        RealtimeSessionConfig::RealtimeV2(_) => RealtimeWire::RealtimeV2,
    }
}

impl RealtimeSessionConfig {
    /// The model that the session asks for.
    pub open spec fn wanted_model(self) -> Option<String> {
        match self {
            RealtimeSessionConfig::V1(config) => config.model,
            RealtimeSessionConfig::FramelessBidi(config) => config.model,
            RealtimeSessionConfig::RealtimeV2(RealtimeV2SessionConfig::Conversational(config)) => {
                config.model
            },
            RealtimeSessionConfig::RealtimeV2(RealtimeV2SessionConfig::Transcription(config)) => {
                config.model
            },
        }
    }

    /// The session that is joined.
    pub open spec fn wanted_session(self) -> Option<String> {
        match self {
            RealtimeSessionConfig::V1(config) => config.session_id,
            RealtimeSessionConfig::FramelessBidi(config) => config.session_id,
            RealtimeSessionConfig::RealtimeV2(RealtimeV2SessionConfig::Conversational(config)) => {
                config.session_id
            },
            RealtimeSessionConfig::RealtimeV2(RealtimeV2SessionConfig::Transcription(config)) => {
                config.session_id
            },
        }
    }

    pub fn wire(&self) -> (wire: RealtimeWire)
        ensures
            wire == config_wire(*self),
    {
        match self {
            RealtimeSessionConfig::V1(_) => RealtimeWire::V1,
            RealtimeSessionConfig::FramelessBidi(_) => RealtimeWire::FramelessBidi,
            RealtimeSessionConfig::RealtimeV2(_) => RealtimeWire::RealtimeV2,
        }
    }

    pub fn model(&self) -> (model: Option<&str>)
        ensures
            shown(model) == text::opt_text(self.wanted_model()),
    {
        match self {
            RealtimeSessionConfig::V1(config) => as_shown(&config.model),
            RealtimeSessionConfig::FramelessBidi(config) => as_shown(&config.model),
            RealtimeSessionConfig::RealtimeV2(RealtimeV2SessionConfig::Conversational(config)) => {
                as_shown(&config.model)
            },
            RealtimeSessionConfig::RealtimeV2(RealtimeV2SessionConfig::Transcription(config)) => {
                as_shown(&config.model)
            },
        }
    }

    pub fn session_id(&self) -> (session: Option<&str>)
        ensures
            shown(session) == text::opt_text(self.wanted_session()),
    {
        match self {
            RealtimeSessionConfig::V1(config) => as_shown(&config.session_id),
            RealtimeSessionConfig::FramelessBidi(config) => as_shown(&config.session_id),
            RealtimeSessionConfig::RealtimeV2(RealtimeV2SessionConfig::Conversational(config)) => {
                as_shown(&config.session_id)
            },
            RealtimeSessionConfig::RealtimeV2(RealtimeV2SessionConfig::Transcription(config)) => {
                as_shown(&config.session_id)
            },
        }
    }
}

pub open spec fn shown(value: Option<&str>) -> Option<Seq<char>> {
    match value {
        Some(text) => Some(text@),
        None => None,
    }
}

fn as_shown(value: &Option<String>) -> (borrowed: Option<&str>)
    ensures
        shown(borrowed) == text::opt_text(*value),
{
    match value {
        Some(text) => Some(text.as_str()),
        None => None,
    }
}

#[derive(Debug, Clone, PartialEq, Eq)]
pub enum RealtimeCallSessionConfig {
    V1(RealtimeV1SessionConfig),
    FramelessBidi(RealtimeFramelessSessionConfig),
}

impl RealtimeCallSessionConfig {
    pub fn wire(&self) -> (wire: RealtimeWire)
        ensures
            wire == (match self {
                RealtimeCallSessionConfig::V1(_) => RealtimeWire::V1,
                RealtimeCallSessionConfig::FramelessBidi(_) => RealtimeWire::FramelessBidi,
            }),
    {
        match self {
            RealtimeCallSessionConfig::V1(_) => RealtimeWire::V1,
            RealtimeCallSessionConfig::FramelessBidi(_) => RealtimeWire::FramelessBidi,
        }
    }
}

#[derive(Debug, Clone, PartialEq, Eq)]
pub struct RealtimeCallRequest {
    pub sdp: String,
    pub session: RealtimeCallSessionConfig,
}

#[derive(Debug, Clone, PartialEq, Eq)]
pub struct RealtimeCallResponse {
    pub sdp: String,
    pub call_id: String,
}

/// A frame of sound; it cannot be printed.
#[derive(Clone, PartialEq, Eq)]
pub struct RealtimeAudioFrame {
    pub data: String,
    pub sample_rate: u32,
    pub num_channels: u16,
    pub samples_per_channel: Option<u32>,
    pub item_id: Option<String>,
}

#[allow(inconsistent_fields)]
#[derive(Clone, PartialEq, Eq)]
pub enum RealtimeEvent {
    SessionUpdated {
        realtime_session_id: Option<String>,
        instructions: Option<String>,
    },
    InputTranscriptDelta(String),
    InputTranscriptDone(String),
    OutputTranscriptDelta(String),
    OutputTranscriptDone(String),
    AudioOut(RealtimeAudioFrame),
    ResponseCreated {
        response_id: Option<String>,
    },
    ResponseDone {
        response_id: Option<String>,
    },
    ResponseCancelled {
        response_id: Option<String>,
    },
    InputAudioSpeechStarted {
        item_id: Option<String>,
    },
    ConversationItemAdded(Json),
    ConversationItemDone {
        item_id: String,
    },
    HandoffRequested {
        handoff_id: String,
        item_id: String,
        input_transcript: String,
    },
    NoopRequested {
        call_id: String,
        item_id: String,
    },
    Error(String),
}

} // verus!
