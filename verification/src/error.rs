//! The errors of the core, as clients see them.
use crate::provider::{AuthError, ErrorClass, ProviderError, ProviderErrorCategory};
use crate::text;
use vstd::prelude::*;
use vstd::string::*;

verus! {

#[derive(Debug, Clone, Copy, PartialEq, Eq, Structural)]
pub enum ProviderFailureKind {
    Transport,
    Http,
    Decode,
    Stream,
    Credential,
    ContextLengthExceeded,
    Contract,
}

impl ProviderFailureKind {
    pub open spec fn word(self) -> &'static str {
        match self {
            ProviderFailureKind::Transport => "transport",
            ProviderFailureKind::Http => "http",
            ProviderFailureKind::Decode => "decode",
            ProviderFailureKind::Stream => "stream",
            ProviderFailureKind::Credential => "credential",
            ProviderFailureKind::ContextLengthExceeded => "contextlengthexceeded",
            ProviderFailureKind::Contract => "contract",
        }
    }

    /// The kind as a lower-case word.
    pub fn name(self) -> (word: &'static str)
        ensures
            word == self.word(),
    {
        match self {
            ProviderFailureKind::Transport => "transport",
            ProviderFailureKind::Http => "http",
            ProviderFailureKind::Decode => "decode",
            ProviderFailureKind::Stream => "stream",
            ProviderFailureKind::Credential => "credential",
            ProviderFailureKind::ContextLengthExceeded => "contextlengthexceeded",
            ProviderFailureKind::Contract => "contract",
        }
    }
}

/// A provider failure without any text of the provider in it.
#[derive(Debug, PartialEq, Eq)]
pub struct ProviderFailure {
    pub kind: ProviderFailureKind,
    pub status: Option<u16>,
    pub message: String,
    pub retry_after_ms: Option<u64>,
    pub class: Option<ErrorClass>,
    pub provider_category: Option<ProviderErrorCategory>,
    pub request_id: Option<String>,
    pub auth_request_id: Option<String>,
}

/// What a failure is.
pub struct FailureView {
    pub kind: ProviderFailureKind,
    pub status: Option<u16>,
    pub message: Seq<char>,
    pub retry_after_ms: Option<u64>,
    pub class: Option<ErrorClass>,
    pub provider_category: Option<ProviderErrorCategory>,
    pub request_id: Option<Seq<char>>,
    pub auth_request_id: Option<Seq<char>>,
}

impl View for ProviderFailure {
    type V = FailureView;

    open spec fn view(&self) -> FailureView {
        FailureView {
            kind: self.kind,
            status: self.status,
            message: self.message@,
            retry_after_ms: self.retry_after_ms,
            class: self.class,
            provider_category: self.provider_category,
            request_id: text::opt_text(self.request_id),
            auth_request_id: text::opt_text(self.auth_request_id),
        }
    }
}

/// A failure of this kind with this message and nothing more.
pub open spec fn bare_failure(kind: ProviderFailureKind, message: Seq<char>) -> FailureView {
    FailureView {
        kind,
        status: None,
        message,
        retry_after_ms: None,
        class: None,
        provider_category: None,
        request_id: None,
        auth_request_id: None,
    }
}

/// The failure that stands for an error. Of the provider's own words nothing passes, except the
/// name of what it does not support.
pub open spec fn failure_of(error: ProviderError) -> FailureView {
    match error {
        ProviderError::Transport(_) => bare_failure(
            ProviderFailureKind::Transport,
            "provider transport failed"@,
        ),
        ProviderError::Http { status, retry_after_ms, .. } => FailureView {
            status: Some(status),
            retry_after_ms,
            ..bare_failure(ProviderFailureKind::Http, "provider HTTP request failed"@)
        },
        ProviderError::Api {
            category,
            api_status,
            retry_after_ms,
            request_id,
            auth_request_id,
            ..
        } => FailureView {
            kind: if category == ProviderErrorCategory::ContextOverflow {
                ProviderFailureKind::ContextLengthExceeded
            } else {
                ProviderFailureKind::Http
            },
            status: api_status,
            message: "provider API request failed: "@ + category.word()@,
            retry_after_ms,
            class: None,
            provider_category: Some(category),
            request_id: text::opt_text(request_id),
            auth_request_id: text::opt_text(auth_request_id),
        },
        ProviderError::Decode(_) => bare_failure(
            ProviderFailureKind::Decode,
            "provider response decode failed"@,
        ),
        ProviderError::Stream(_) => bare_failure(
            ProviderFailureKind::Stream,
            "provider stream failed"@,
        ),
        ProviderError::Credential(_) => bare_failure(
            ProviderFailureKind::Credential,
            "credential recovery required"@,
        ),
        ProviderError::UnsupportedTool { .. } => FailureView {
            class: Some(ErrorClass::InvalidRequest),
            ..bare_failure(ProviderFailureKind::Contract, error.text())
        },
        ProviderError::UnsupportedCapability { .. } => FailureView {
            class: Some(ErrorClass::InvalidRequest),
            ..bare_failure(ProviderFailureKind::Contract, error.text())
        },
        ProviderError::ContextLengthExceeded => FailureView {
            status: Some(413),
            provider_category: Some(ProviderErrorCategory::ContextOverflow),
            ..bare_failure(
                ProviderFailureKind::ContextLengthExceeded,
                "context too long (PTL/413)"@,
            )
        },
    }
}

impl ProviderFailure {
    fn bare(kind: ProviderFailureKind, message: &str) -> (failure: ProviderFailure)
        ensures
            failure@ == bare_failure(kind, message@),
    {
        ProviderFailure {
            kind,
            status: None,
            message: message.to_owned(),
            retry_after_ms: None,
            class: None,
            provider_category: None,
            request_id: None,
            auth_request_id: None,
        }
    }

    /// A breach of the contract between the core and a provider.
    pub fn contract(message: &str) -> (failure: ProviderFailure)
        ensures
            failure@ == bare_failure(ProviderFailureKind::Contract, message@),
    {
        ProviderFailure::bare(ProviderFailureKind::Contract, message)
    }

    /// The failure that stands for an error.
    pub fn from(error: &ProviderError) -> (failure: ProviderFailure)
        ensures
            failure@ == failure_of(*error),
    {
        match error {
            ProviderError::Transport(_) => ProviderFailure::bare(
                ProviderFailureKind::Transport,
                "provider transport failed",
            ),
            ProviderError::Http { status, retry_after_ms, .. } => {
                let mut failure = ProviderFailure::bare(
                    ProviderFailureKind::Http,
                    "provider HTTP request failed",
                );
                failure.status = Some(*status);
                failure.retry_after_ms = *retry_after_ms;
                failure
            },
            ProviderError::Api {
                category,
                api_status,
                retry_after_ms,
                request_id,
                auth_request_id,
                ..
            } => {
                let message = text::joined(
                    "provider API request failed: ",
                    category.name(),
                    "",
                    "",
                );
                ProviderFailure {
                    kind: if *category == ProviderErrorCategory::ContextOverflow {
                        ProviderFailureKind::ContextLengthExceeded
                    } else {
                        ProviderFailureKind::Http
                    },
                    status: *api_status,
                    message,
                    retry_after_ms: *retry_after_ms,
                    class: None,
                    provider_category: Some(*category),
                    request_id: text::clone_opt(request_id),
                    auth_request_id: text::clone_opt(auth_request_id),
                }
            },
            ProviderError::Decode(_) => ProviderFailure::bare(
                ProviderFailureKind::Decode,
                "provider response decode failed",
            ),
            ProviderError::Stream(_) => ProviderFailure::bare(
                ProviderFailureKind::Stream,
                "provider stream failed",
            ),
            ProviderError::Credential(_) => ProviderFailure::bare(
                ProviderFailureKind::Credential,
                "credential recovery required",
            ),
            ProviderError::UnsupportedTool { .. } => {
                let message = error.message();
                let mut failure = ProviderFailure::contract(message.as_str());
                failure.class = Some(ErrorClass::InvalidRequest);
                failure
            },
            ProviderError::UnsupportedCapability { .. } => {
                let message = error.message();
                let mut failure = ProviderFailure::contract(message.as_str());
                failure.class = Some(ErrorClass::InvalidRequest);
                failure
            },
            ProviderError::ContextLengthExceeded => {
                let mut failure = ProviderFailure::bare(
                    ProviderFailureKind::ContextLengthExceeded,
                    "context too long (PTL/413)",
                );
                failure.status = Some(413);
                failure.provider_category = Some(ProviderErrorCategory::ContextOverflow);
                failure
            },
        }
    }

    /// The failure that stands for an error of a known class.
    pub fn classified(error: &ProviderError, class: ErrorClass) -> (failure: ProviderFailure)
        ensures
            failure@ == (FailureView { class: Some(class), ..failure_of(*error) }),
    {
        let mut failure = ProviderFailure::from(error);
        failure.class = Some(class);
        failure
    }

    pub open spec fn text(self) -> Seq<char> {
        match self.status {
            Some(status) => "http "@ + text::decimal(status as nat) + ": "@ + self.message@,
            None => self.kind.word()@ + ": "@ + self.message@,
        }
    }

    /// The failure in words.
    pub fn describe(&self) -> (line: String)
        ensures
            line@ == self.text(),
    {
        match self.status {
            Some(status) => {
                let number = text::decimal_of(status as u128);
                text::joined("http ", number.as_str(), ": ", self.message.as_str())
            },
            None => {
                let mut line = self.kind.name().to_owned();
                line.append(": ");
                line.append(self.message.as_str());
                line
            },
        }
    }
}

impl Clone for ProviderFailure {
    fn clone(&self) -> (copy: Self)
        ensures
            copy@ == self@,
    {
        ProviderFailure {
            kind: self.kind,
            status: self.status,
            message: self.message.clone(),
            retry_after_ms: self.retry_after_ms,
            class: self.class,
            provider_category: self.provider_category,
            request_id: text::clone_opt(&self.request_id),
            auth_request_id: text::clone_opt(&self.auth_request_id),
        }
    }
}

/// The error of a run.
#[derive(Debug, PartialEq, Eq)]
pub enum AgentError {
    Provider(ProviderFailure),
    Auth(AuthError),
    ContextUnrecoverable(String),
    CompactionCircuitBreaker(u32),
    Compaction(String),
    Session(String),
    InvalidRequest(String),
}

/// What the error of a run is.
pub enum AgentFault {
    Provider(FailureView),
    Auth(AuthError),
    ContextUnrecoverable(Seq<char>),
    CompactionCircuitBreaker(u32),
    Compaction(Seq<char>),
    Session(Seq<char>),
    InvalidRequest(Seq<char>),
}

impl View for AgentError {
    type V = AgentFault;

    open spec fn view(&self) -> AgentFault {
        match self {
            AgentError::Provider(failure) => AgentFault::Provider(failure@),
            AgentError::Auth(error) => AgentFault::Auth(*error),
            AgentError::ContextUnrecoverable(detail) => AgentFault::ContextUnrecoverable(detail@),
            AgentError::CompactionCircuitBreaker(count) => AgentFault::CompactionCircuitBreaker(
                *count,
            ),
            AgentError::Compaction(detail) => AgentFault::Compaction(detail@),
            AgentError::Session(detail) => AgentFault::Session(detail@),
            AgentError::InvalidRequest(detail) => AgentFault::InvalidRequest(detail@),
        }
    }
}

/// A breach of contract with this message.
pub open spec fn contract_fault(message: Seq<char>) -> AgentFault {
    AgentFault::Provider(bare_failure(ProviderFailureKind::Contract, message))
}

/// A breach of contract with this message.
pub fn contract_error(message: &str) -> (error: AgentError)
    ensures
        error@ == contract_fault(message@),
{
    AgentError::Provider(ProviderFailure::contract(message))
}

impl AgentError {
    /// The error of a run that an error of the provider ends.
    pub fn from(error: &ProviderError) -> (fault: AgentError)
        ensures
            fault@ == AgentFault::Provider(failure_of(*error)),
    {
        AgentError::Provider(ProviderFailure::from(error))
    }
}

impl AgentError {
    pub open spec fn text(self) -> Seq<char> {
        match self {
            AgentError::Provider(failure) => "provider: "@ + failure.text(),
            AgentError::Auth(error) => "auth: "@ + error.word()@,
            AgentError::ContextUnrecoverable(detail) => {
                "unrecoverable context (compaction failed): "@ + detail@
            },
            AgentError::CompactionCircuitBreaker(count) => "compaction: circuit breaker ("@
                + text::decimal(count as nat) + " consecutive failures)"@,
            AgentError::Compaction(detail) => "compaction: "@ + detail@,
            AgentError::Session(detail) => "session: "@ + detail@,
            AgentError::InvalidRequest(detail) => "invalid request: "@ + detail@,
        }
    }

    /// The error in words.
    pub fn message(&self) -> (message: String)
        ensures
            message@ == self.text(),
    {
        match self {
            AgentError::Provider(failure) => {
                let detail = failure.describe();
                text::joined("provider: ", detail.as_str(), "", "")
            },
            AgentError::Auth(error) => text::joined("auth: ", error.name(), "", ""),
            AgentError::ContextUnrecoverable(detail) => text::joined(
                "unrecoverable context (compaction failed): ",
                detail.as_str(),
                "",
                "",
            ),
            AgentError::CompactionCircuitBreaker(count) => {
                let number = text::decimal_of(*count as u128);
                text::joined(
                    "compaction: circuit breaker (",
                    number.as_str(),
                    " consecutive failures)",
                    "",
                )
            },
            AgentError::Compaction(detail) => text::joined("compaction: ", detail.as_str(), "", ""),
            AgentError::Session(detail) => text::joined("session: ", detail.as_str(), "", ""),
            AgentError::InvalidRequest(detail) => text::joined(
                "invalid request: ",
                detail.as_str(),
                "",
                "",
            ),
        }
    }
}

impl Clone for AgentError {
    fn clone(&self) -> (copy: Self)
        ensures
            copy@ == self@,
    {
        match self {
            AgentError::Provider(failure) => AgentError::Provider(failure.clone()),
            AgentError::Auth(error) => AgentError::Auth(*error),
            AgentError::ContextUnrecoverable(detail) => AgentError::ContextUnrecoverable(
                detail.clone(),
            ),
            AgentError::CompactionCircuitBreaker(count) => AgentError::CompactionCircuitBreaker(
                *count,
            ),
            AgentError::Compaction(detail) => AgentError::Compaction(detail.clone()),
            AgentError::Session(detail) => AgentError::Session(detail.clone()),
            AgentError::InvalidRequest(detail) => AgentError::InvalidRequest(detail.clone()),
        }
    }
}

/// The provider's own words never pass: two errors that differ in them alone lead to one failure.
pub proof fn law_provider_words_do_not_pass(first: String, second: String)
    ensures
        failure_of(ProviderError::Transport(first)) == failure_of(ProviderError::Transport(second)),
        failure_of(ProviderError::Decode(first)) == failure_of(ProviderError::Decode(second)),
        failure_of(ProviderError::Stream(first)) == failure_of(ProviderError::Stream(second)),
{
}

/// A failure keeps the facts of its error: the kind, the status, the delay that was asked for, the
/// category and the identifiers of the request.
pub proof fn law_failures_keep_their_facts(error: ProviderError)
    ensures
        ({
            let failure = failure_of(error);
            &&& error is Transport <==> failure.kind == ProviderFailureKind::Transport
            &&& error is Decode <==> failure.kind == ProviderFailureKind::Decode
            &&& error is Stream <==> failure.kind == ProviderFailureKind::Stream
            &&& error is Credential <==> failure.kind == ProviderFailureKind::Credential
            &&& error is UnsupportedTool || error is UnsupportedCapability <==> failure.kind
                == ProviderFailureKind::Contract
            &&& failure.kind == ProviderFailureKind::ContextLengthExceeded <==> (error
                is ContextLengthExceeded || (error matches ProviderError::Api { category, .. }
                && category == ProviderErrorCategory::ContextOverflow))
            &&& error matches ProviderError::Http { status, retry_after_ms, .. } ==> failure.status
                == Some(status) && failure.retry_after_ms == retry_after_ms
            &&& error matches ProviderError::Api {
                category,
                api_status,
                retry_after_ms,
                request_id,
                auth_request_id,
                ..
            } ==> failure.status == api_status && failure.retry_after_ms == retry_after_ms
                && failure.provider_category == Some(category) && failure.request_id
                == text::opt_text(request_id) && failure.auth_request_id == text::opt_text(
                auth_request_id,
            )
            &&& error is UnsupportedTool || error is UnsupportedCapability ==> failure.class
                == Some(ErrorClass::InvalidRequest)
            &&& error is ContextLengthExceeded ==> failure.status == Some(413u16)
                && failure.provider_category == Some(ProviderErrorCategory::ContextOverflow)
        }),
{
}

/// An error in words ends with its detail, behind where it comes from.
pub proof fn law_errors_tell_their_detail(error: AgentError)
    ensures
        error matches AgentError::Session(detail) ==> error.text() == "session: "@ + detail@,
        error matches AgentError::Compaction(detail) ==> error.text() == "compaction: "@ + detail@,
        error matches AgentError::InvalidRequest(detail) ==> error.text() == "invalid request: "@
            + detail@,
        error matches AgentError::ContextUnrecoverable(detail) ==> detail@.is_suffix_of(
            error.text(),
        ),
        error matches AgentError::Auth(cause) ==> cause.word()@.is_suffix_of(error.text()),
        error matches AgentError::Provider(failure) ==> failure.message@.is_suffix_of(error.text())
            && (failure.status matches Some(status) ==> ("provider: http "@ + text::decimal(
            status as nat,
        )).is_prefix_of(error.text())),
{
    let said = error.text();
    match error {
        AgentError::ContextUnrecoverable(detail) => {
            assert(said.subrange(said.len() - detail@.len(), said.len() as int) =~= detail@);
        },
        AgentError::Auth(cause) => {
            let word = cause.word()@;
            assert(said.subrange(said.len() - word.len(), said.len() as int) =~= word);
        },
        AgentError::Provider(failure) => {
            let words = failure.message@;
            assert(said.subrange(said.len() - words.len(), said.len() as int) =~= words);
            if failure.status is Some {
                reveal_strlit("provider: ");
                reveal_strlit("http ");
                reveal_strlit("provider: http ");
                assert("provider: "@ + "http "@ =~= "provider: http "@);
                let start = "provider: http "@ + text::decimal(failure.status->0 as nat);
                assert(said.take(start.len() as int) =~= start);
            }
        },
        _ => {},
    }
}

} // verus!
