//! Metadata seen around one model response.
use crate::provider_extension::ProviderExtension;
use vstd::prelude::*;
use vstd::string::*;

verus! {

#[derive(Debug, Clone, PartialEq, Eq, Default)]
pub struct SafetyMetadata {
    pub use_cases: Vec<String>,
    pub reasons: Vec<String>,
    pub retry_model: Option<String>,
}

impl SafetyMetadata {
    pub open spec fn empty(self) -> bool {
        self.use_cases@.len() == 0 && self.reasons@.len() == 0 && self.retry_model is None
    }

    pub fn is_empty(&self) -> (yes: bool)
        ensures
            yes == self.empty(),
    {
        self.use_cases.len() == 0 && self.reasons.len() == 0 && self.retry_model.is_none()
    }
}

#[derive(Debug, Clone, PartialEq, Eq, Default)]
pub struct ReasoningMetadata {
    pub server_included: Option<bool>,
    pub item_id: Option<String>,
    pub status: Option<String>,
}

impl ReasoningMetadata {
    pub open spec fn empty(self) -> bool {
        self.server_included is None && self.item_id is None && self.status is None
    }

    pub fn is_empty(&self) -> (yes: bool)
        ensures
            yes == self.empty(),
    {
        self.server_included.is_none() && self.item_id.is_none() && self.status.is_none()
    }
}

/// What a provider tells around a response. Every part is optional.
#[derive(Debug, Clone, PartialEq, Eq)]
pub struct ResponseMetadata {
    pub response_id: Option<String>,
    pub model: Option<String>,
    pub service_tier: Option<String>,
    pub request_id: Option<String>,
    pub turn_state: Option<String>,
    pub models_etag: Option<String>,
    pub safety: SafetyMetadata,
    pub verifications: Vec<String>,
    pub moderation: Option<ProviderExtension>,
    pub reasoning: ReasoningMetadata,
}

impl ResponseMetadata {
    pub open spec fn empty(self) -> bool {
        &&& self.response_id is None
        &&& self.model is None
        &&& self.service_tier is None
        &&& self.request_id is None
        &&& self.turn_state is None
        &&& self.models_etag is None
        &&& self.safety.empty()
        &&& self.verifications@.len() == 0
        &&& self.moderation is None
        &&& self.reasoning.empty()
    }

    /// Whether nothing was told.
    pub fn is_empty(&self) -> (yes: bool)
        ensures
            yes == self.empty(),
    {
        self.response_id.is_none() && self.model.is_none() && self.service_tier.is_none()
            && self.request_id.is_none() && self.turn_state.is_none()
            && self.models_etag.is_none() && self.safety.is_empty() && self.verifications.len() == 0
            && self.moderation.is_none() && self.reasoning.is_empty()
    }
}

impl Default for ResponseMetadata {
    fn default() -> (metadata: Self)
        ensures
            metadata.empty(),
    {
        ResponseMetadata {
            response_id: None,
            model: None,
            service_tier: None,
            request_id: None,
            turn_state: None,
            models_etag: None,
            safety: SafetyMetadata { use_cases: Vec::new(), reasons: Vec::new(), retry_model: None },
            verifications: Vec::new(),
            moderation: None,
            reasoning: ReasoningMetadata { server_included: None, item_id: None, status: None },
        }
    }
}

/// Metadata says something as soon as one of its parts does.
pub proof fn law_metadata_with_a_part_is_told(metadata: ResponseMetadata)
    ensures
        metadata.response_id is Some || metadata.model is Some || metadata.service_tier is Some
            || metadata.request_id is Some || metadata.turn_state is Some || metadata.models_etag
            is Some || metadata.verifications@.len() > 0 || metadata.moderation is Some
            || metadata.safety.use_cases@.len() > 0 || metadata.safety.reasons@.len() > 0
            || metadata.safety.retry_model is Some || metadata.reasoning.server_included is Some
            || metadata.reasoning.item_id is Some || metadata.reasoning.status is Some
            <==> !metadata.empty(),
{
}

} // verus!
