//! The prompt of exactly one sampling, captured once and never changed. Under the ceiling of
//! what is not history, the instructions and the tools always stay; then the context of the
//! step, then what is only for this sampling, as far as there is room.
use crate::budget;
use crate::digest;
use crate::json;
use crate::json::{Json, JsonView};
use crate::message;
use crate::message::{Message, MessageView};
use crate::model::{ReasoningReplaySupport, ResolvedModelRuntime, RuntimeView};
use crate::request::{CanonicalRequest, ClientMetadata, RequestStreamOptions};
use crate::step::ContextFragmentKind;
use crate::text;
use crate::tokenizer;
use crate::tokenizer::TokenCounter;
use crate::tool_spec;
use crate::tools::StepToolPlan;
use vstd::prelude::*;
use vstd::string::*;

verus! {

/// Ceiling of the bytes of everything in a prompt that is not history.
pub const MAX_NON_HISTORY_CONTEXT_BYTES: usize = 65536;

/// Ceiling of the bytes of the note about a change of model.
pub const MAX_MODEL_SWITCH_BYTES: usize = 512;

/// A message and its wire form, a JSON object.
#[derive(Debug, PartialEq, Eq)]
pub struct EncodedMessage {
    pub message: Message,
    pub wire: String,
}

/// What such a message is.
pub struct EncodedView {
    pub message: MessageView,
    pub wire: Seq<char>,
}

impl View for EncodedMessage {
    type V = EncodedView;

    open spec fn view(&self) -> EncodedView {
        EncodedView { message: self.message@, wire: self.wire@ }
    }
}

pub open spec fn encoded_views(messages: Seq<EncodedMessage>) -> Seq<EncodedView> {
    messages.map_values(|message: EncodedMessage| message@)
}

pub open spec fn plain_messages(messages: Seq<EncodedView>) -> Seq<MessageView> {
    messages.map_values(|message: EncodedView| message.message)
}

pub open spec fn wires(messages: Seq<EncodedView>) -> Seq<Seq<char>> {
    messages.map_values(|message: EncodedView| message.wire)
}

// ---------------------------------------------------------------- wire forms

pub open spec fn quoted(content: Seq<char>) -> Seq<char> {
    json::rendered(JsonView::Text(content))
}

pub open spec fn opt_quoted(content: Option<Seq<char>>) -> Seq<char> {
    match content {
        Some(text) => quoted(text),
        None => "null"@,
    }
}

/// A JSON array of wire forms.
pub open spec fn array(items: Seq<Seq<char>>) -> Seq<char> {
    "["@ + text::join(items, ","@) + "]"@
}

/// One text member of a JSON object.
pub open spec fn member(name: Seq<char>, value: Seq<char>) -> Seq<char> {
    name + quoted(value)
}

fn quote(content: &str) -> (wire: String)
    ensures
        wire@ == quoted(content@),
{
    let document = Json::text(content);
    document.render()
}

fn quote_opt(content: &Option<String>) -> (wire: String)
    ensures
        wire@ == opt_quoted(text::opt_text(*content)),
{
    match content {
        Some(text) => quote(text.as_str()),
        None => "null".to_owned(),
    }
}

fn array_of(items: &Vec<String>) -> (wire: String)
    ensures
        wire@ == array(text::texts(items@)),
{
    let inner = text::join_of(items, ",");
    text::joined("[", inner.as_str(), "]", "")
}

fn member_of(name: &str, value: &str) -> (wire: String)
    ensures
        wire@ == member(name@, value@),
{
    let shown = quote(value);
    text::joined(name, shown.as_str(), "", "")
}

fn array_of_messages(messages: &Vec<EncodedMessage>) -> (wire: String)
    ensures
        wire@ == array(wires(encoded_views(messages@))),
{
    let mut items: Vec<String> = Vec::new();
    let mut i: usize = 0;
    let ghost all = wires(encoded_views(messages@));
    assert(text::texts(items@) =~= all.take(0));
    while i < messages.len()
        invariant
            i <= messages.len(),
            all == wires(encoded_views(messages@)),
            text::texts(items@) == all.take(i as int),
        decreases messages.len() - i,
    {
        let ghost before = items@;
        items.push(messages[i].wire.clone());
        proof {
            assert(all[i as int] == messages@[i as int].wire@);
            assert(text::texts(items@) =~= text::texts(before).push(all[i as int]));
            assert(all.take(i + 1) =~= all.take(i as int).push(all[i as int]));
        }
        i += 1;
    }
    assert(all.take(i as int) =~= all);
    array_of(&items)
}

// ---------------------------------------------------------------- baselines

/// The identity of everything in a prompt that stays from sampling to sampling.
#[derive(Debug, PartialEq, Eq)]
pub struct ContextBaseline {
    pub profile_fingerprint: String,
    pub model_slug: String,
    pub comp_hash: Option<String>,
    pub instructions_fingerprint: String,
    pub project_context_fingerprint: String,
    pub skills_fingerprint: String,
    pub tool_plan_fingerprint: String,
}

/// What a baseline is.
pub struct BaselineView {
    pub profile_fingerprint: Seq<char>,
    pub model_slug: Seq<char>,
    pub comp_hash: Option<Seq<char>>,
    pub instructions_fingerprint: Seq<char>,
    pub project_context_fingerprint: Seq<char>,
    pub skills_fingerprint: Seq<char>,
    pub tool_plan_fingerprint: Seq<char>,
}

impl View for ContextBaseline {
    type V = BaselineView;

    open spec fn view(&self) -> BaselineView {
        BaselineView {
            profile_fingerprint: self.profile_fingerprint@,
            model_slug: self.model_slug@,
            comp_hash: text::opt_text(self.comp_hash),
            instructions_fingerprint: self.instructions_fingerprint@,
            project_context_fingerprint: self.project_context_fingerprint@,
            skills_fingerprint: self.skills_fingerprint@,
            tool_plan_fingerprint: self.tool_plan_fingerprint@,
        }
    }
}

impl Clone for ContextBaseline {
    fn clone(&self) -> (copy: Self)
        ensures
            copy@ == self@,
    {
        ContextBaseline {
            profile_fingerprint: self.profile_fingerprint.clone(),
            model_slug: self.model_slug.clone(),
            comp_hash: text::clone_opt(&self.comp_hash),
            instructions_fingerprint: self.instructions_fingerprint.clone(),
            project_context_fingerprint: self.project_context_fingerprint.clone(),
            skills_fingerprint: self.skills_fingerprint.clone(),
            tool_plan_fingerprint: self.tool_plan_fingerprint.clone(),
        }
    }
}

/// Why a prompt cannot be captured, or a baseline not be used.
#[derive(Debug, Clone, PartialEq, Eq)]
pub enum PromptSnapshotError {
    StaticContextTooLarge { bytes: usize, max: usize },
    InvalidBaseline { detail: String },
}

/// What is wrong with a prompt.
pub enum PromptFault {
    StaticContextTooLarge { bytes: nat },
    InvalidBaseline { detail: Seq<char> },
}

impl PromptFault {
    /// The text of the error that reports the fault.
    pub open spec fn text(self) -> Seq<char> {
        match self {
            PromptFault::StaticContextTooLarge { bytes } => "fixed prompt context exceeds "@
                + text::decimal(MAX_NON_HISTORY_CONTEXT_BYTES as nat) + " bytes ("@
                + text::decimal(bytes) + ")"@,
            PromptFault::InvalidBaseline { detail } => "invalid context baseline: "@ + detail,
        }
    }
}

/// What a check gives where the fault is `fault`.
pub open spec fn reports(error: PromptSnapshotError, fault: PromptFault) -> bool {
    match (error, fault) {
        (
            PromptSnapshotError::StaticContextTooLarge { bytes, max },
            PromptFault::StaticContextTooLarge { bytes: size },
        ) => bytes == size && max == MAX_NON_HISTORY_CONTEXT_BYTES,
        (
            PromptSnapshotError::InvalidBaseline { detail },
            PromptFault::InvalidBaseline { detail: d },
        ) => detail@ == d,
        _ => false,
    }
}

pub open spec fn checked_as(
    checked: Result<(), PromptSnapshotError>,
    fault: Option<PromptFault>,
) -> bool {
    match fault {
        None => checked is Ok,
        Some(f) => checked matches Err(error) && reports(error, f),
    }
}

impl PromptSnapshotError {
    pub open spec fn text(self) -> Seq<char> {
        match self {
            PromptSnapshotError::StaticContextTooLarge { bytes, max } => {
                "fixed prompt context exceeds "@ + text::decimal(max as nat) + " bytes ("@
                    + text::decimal(bytes as nat) + ")"@
            },
            PromptSnapshotError::InvalidBaseline { detail } => "invalid context baseline: "@
                + detail@,
        }
    }

    /// The error in words.
    pub fn message(&self) -> (message: String)
        ensures
            message@ == self.text(),
    {
        match self {
            PromptSnapshotError::StaticContextTooLarge { bytes, max } => {
                let limit = text::decimal_of(*max as u128);
                let size = text::decimal_of(*bytes as u128);
                let mut message = text::joined(
                    "fixed prompt context exceeds ",
                    limit.as_str(),
                    " bytes (",
                    size.as_str(),
                );
                message.append(")");
                message
            },
            PromptSnapshotError::InvalidBaseline { detail } => text::joined(
                "invalid context baseline: ",
                detail.as_str(),
                "",
                "",
            ),
        }
    }
}

fn bad_baseline(name: &str, rest: &str) -> (error: Result<(), PromptSnapshotError>)
    ensures
        error matches Err(e) && reports(
            e,
            PromptFault::InvalidBaseline { detail: name@ + rest@ },
        ),
{
    Err(PromptSnapshotError::InvalidBaseline { detail: text::joined(name, rest, "", "") })
}

pub open spec fn bad_fingerprint(name: Seq<char>) -> Option<PromptFault> {
    Some(PromptFault::InvalidBaseline { detail: name + " is not a SHA-256 fingerprint"@ })
}

impl BaselineView {
    /// The first thing that is wrong with a baseline.
    pub open spec fn fault(self) -> Option<PromptFault> {
        if !text::is_sha256(self.profile_fingerprint) {
            bad_fingerprint("profile_fingerprint"@)
        } else if !text::is_sha256(self.instructions_fingerprint) {
            bad_fingerprint("instructions_fingerprint"@)
        } else if !text::is_sha256(self.project_context_fingerprint) {
            bad_fingerprint("project_context_fingerprint"@)
        } else if !text::is_sha256(self.skills_fingerprint) {
            bad_fingerprint("skills_fingerprint"@)
        } else if !text::is_sha256(self.tool_plan_fingerprint) {
            bad_fingerprint("tool_plan_fingerprint"@)
        } else if !(self.model_slug.len() > 0 && text::plain(self.model_slug, 256)) {
            Some(
                PromptFault::InvalidBaseline {
                    detail: "model_slug must contain 1 to 256 bytes and no controls"@,
                },
            )
        } else if !text::opt_plain(self.comp_hash, 256) {
            Some(
                PromptFault::InvalidBaseline {
                    detail: "comp_hash must contain 1 to 256 bytes and no controls"@,
                },
            )
        } else {
            None
        }
    }

    /// The members of the wire form.
    pub open spec fn members(self) -> Seq<Seq<char>> {
        seq![
            member("\"profile_fingerprint\":"@, self.profile_fingerprint),
            member("\"model_slug\":"@, self.model_slug),
        ] + (match self.comp_hash {
            Some(hash) => seq![member("\"comp_hash\":"@, hash)],
            None => seq![],
        }) + seq![
            member("\"instructions_fingerprint\":"@, self.instructions_fingerprint),
            member("\"project_context_fingerprint\":"@, self.project_context_fingerprint),
            member("\"skills_fingerprint\":"@, self.skills_fingerprint),
            member("\"tool_plan_fingerprint\":"@, self.tool_plan_fingerprint),
        ]
    }

    /// The wire form: a JSON object, without a hash that is not there.
    pub open spec fn wire(self) -> Seq<char> {
        "{"@ + text::join(self.members(), ","@) + "}"@
    }
}

impl ContextBaseline {
    /// Refuses the first thing that is wrong with a baseline.
    pub fn validate(&self) -> (checked: Result<(), PromptSnapshotError>)
        ensures
            checked_as(checked, self@.fault()),
    {
        if !text::is_sha256_text(self.profile_fingerprint.as_str()) {
            return bad_baseline("profile_fingerprint", " is not a SHA-256 fingerprint");
        }
        if !text::is_sha256_text(self.instructions_fingerprint.as_str()) {
            return bad_baseline("instructions_fingerprint", " is not a SHA-256 fingerprint");
        }
        if !text::is_sha256_text(self.project_context_fingerprint.as_str()) {
            return bad_baseline("project_context_fingerprint", " is not a SHA-256 fingerprint");
        }
        if !text::is_sha256_text(self.skills_fingerprint.as_str()) {
            return bad_baseline("skills_fingerprint", " is not a SHA-256 fingerprint");
        }
        if !text::is_sha256_text(self.tool_plan_fingerprint.as_str()) {
            return bad_baseline("tool_plan_fingerprint", " is not a SHA-256 fingerprint");
        }
        let size: usize = text::byte_len_of(self.model_slug.as_str());
        proof {
            text::lemma_byte_len_bounds(self.model_slug@);
        }
        if !(size > 0 && text::is_plain(self.model_slug.as_str(), 256)) {
            return Err(
                PromptSnapshotError::InvalidBaseline {
                    detail: "model_slug must contain 1 to 256 bytes and no controls".to_owned(),
                },
            );
        }
        if !text::is_opt_plain(&self.comp_hash, 256) {
            return Err(
                PromptSnapshotError::InvalidBaseline {
                    detail: "comp_hash must contain 1 to 256 bytes and no controls".to_owned(),
                },
            );
        }
        Ok(())
    }

    fn encode(&self) -> (wire: String)
        ensures
            wire@ == self@.wire(),
    {
        let mut members: Vec<String> = Vec::new();
        members.push(
            member_of("\"profile_fingerprint\":", self.profile_fingerprint.as_str()),
        );
        members.push(member_of("\"model_slug\":", self.model_slug.as_str()));
        match &self.comp_hash {
            Some(hash) => {
                members.push(member_of("\"comp_hash\":", hash.as_str()));
            },
            None => {},
        }
        members.push(
            member_of("\"instructions_fingerprint\":", self.instructions_fingerprint.as_str()),
        );
        members.push(
            member_of(
                "\"project_context_fingerprint\":",
                self.project_context_fingerprint.as_str(),
            ),
        );
        members.push(member_of("\"skills_fingerprint\":", self.skills_fingerprint.as_str()));
        members.push(
            member_of("\"tool_plan_fingerprint\":", self.tool_plan_fingerprint.as_str()),
        );
        assert(text::texts(members@) =~= self@.members());
        let inner = text::join_of(&members, ",");
        text::joined("{", inner.as_str(), "}", "")
    }

    fn same_as(&self, other: &ContextBaseline) -> (same: bool)
        ensures
            same == (self@ == other@),
    {
        text::same_text(self.profile_fingerprint.as_str(), other.profile_fingerprint.as_str())
            && text::same_text(self.model_slug.as_str(), other.model_slug.as_str()) && text::same_opt(
            &self.comp_hash,
            &other.comp_hash,
        ) && text::same_text(
            self.instructions_fingerprint.as_str(),
            other.instructions_fingerprint.as_str(),
        ) && text::same_text(
            self.project_context_fingerprint.as_str(),
            other.project_context_fingerprint.as_str(),
        ) && text::same_text(self.skills_fingerprint.as_str(), other.skills_fingerprint.as_str())
            && text::same_text(
            self.tool_plan_fingerprint.as_str(),
            other.tool_plan_fingerprint.as_str(),
        )
    }
}

// ---------------------------------------------------------------- transitions

/// Why the baseline moved.
#[derive(Debug, Clone, Copy, PartialEq, Eq, Structural)]
pub enum ContextTransitionCause {
    Initial,
    LegacyResume,
    ModelChanged,
    InstructionsChanged,
    ProjectContextChanged,
    SkillsChanged,
    ToolPlanChanged,
    Compaction,
    CompHashChanged,
    OverloadFallback,
}

/// All causes, in the order in which a transition lists them.
pub open spec fn causes_in_order() -> Seq<ContextTransitionCause> {
    seq![
        ContextTransitionCause::Initial,
        ContextTransitionCause::LegacyResume,
        ContextTransitionCause::ModelChanged,
        ContextTransitionCause::InstructionsChanged,
        ContextTransitionCause::ProjectContextChanged,
        ContextTransitionCause::SkillsChanged,
        ContextTransitionCause::ToolPlanChanged,
        ContextTransitionCause::Compaction,
        ContextTransitionCause::CompHashChanged,
        ContextTransitionCause::OverloadFallback,
    ]
}

/// A move from one baseline to another.
#[derive(Debug, Clone, PartialEq, Eq)]
pub struct ContextTransition {
    pub from: Option<ContextBaseline>,
    pub to: ContextBaseline,
    pub causes: Vec<ContextTransitionCause>,
}

/// What an optional baseline is.
pub open spec fn opt_baseline(baseline: Option<ContextBaseline>) -> Option<BaselineView> {
    match baseline {
        Some(value) => Some(value@),
        None => None,
    }
}

impl ContextTransition {
    pub open spec fn fault(self) -> Option<PromptFault> {
        if self.from is Some && self.from->0@.fault() is Some {
            self.from->0@.fault()
        } else if self.to@.fault() is Some {
            self.to@.fault()
        } else if self.causes@.len() == 0 {
            Some(PromptFault::InvalidBaseline { detail: "context transition has no cause"@ })
        } else {
            None
        }
    }

    /// Refuses the first thing that is wrong with a transition.
    pub fn validate(&self) -> (checked: Result<(), PromptSnapshotError>)
        ensures
            checked_as(checked, self.fault()),
    {
        match &self.from {
            Some(from) => {
                let checked = from.validate();
                if checked.is_err() {
                    return checked;
                }
            },
            None => {},
        }
        let checked = self.to.validate();
        if checked.is_err() {
            return checked;
        }
        if self.causes.len() == 0 {
            return Err(
                PromptSnapshotError::InvalidBaseline {
                    detail: "context transition has no cause".to_owned(),
                },
            );
        }
        Ok(())
    }
}

/// Whether the move between two baselines is due to this cause, or it was given as one.
pub open spec fn caused(
    previous: Option<BaselineView>,
    next: BaselineView,
    given: Seq<ContextTransitionCause>,
    cause: ContextTransitionCause,
) -> bool {
    given.contains(cause) || match cause {
        ContextTransitionCause::Initial => previous is None,
        ContextTransitionCause::ModelChanged => previous is Some
            && previous->0.profile_fingerprint != next.profile_fingerprint,
        ContextTransitionCause::InstructionsChanged => previous is Some
            && previous->0.instructions_fingerprint != next.instructions_fingerprint,
        ContextTransitionCause::ProjectContextChanged => previous is Some
            && previous->0.project_context_fingerprint != next.project_context_fingerprint,
        ContextTransitionCause::SkillsChanged => previous is Some
            && previous->0.skills_fingerprint != next.skills_fingerprint,
        ContextTransitionCause::ToolPlanChanged => previous is Some
            && previous->0.tool_plan_fingerprint != next.tool_plan_fingerprint,
        ContextTransitionCause::CompHashChanged => previous is Some && previous->0.comp_hash
            != next.comp_hash,
        _ => false,
    }
}

/// The causes of a move, each once and in order.
pub open spec fn causes_of(
    previous: Option<BaselineView>,
    next: BaselineView,
    given: Seq<ContextTransitionCause>,
) -> Seq<ContextTransitionCause> {
    causes_in_order().filter(
        |cause: ContextTransitionCause| caused(previous, next, given, cause),
    )
}

fn given_has(given: &Vec<ContextTransitionCause>, cause: ContextTransitionCause) -> (found: bool)
    ensures
        found == given@.contains(cause),
{
    let mut i: usize = 0;
    while i < given.len()
        invariant
            i <= given.len(),
            forall|k: int| 0 <= k < i ==> given@[k] != cause,
        decreases given.len() - i,
    {
        if given[i] == cause {
            return true;
        }
        i += 1;
    }
    false
}

fn is_caused(
    previous: Option<&ContextBaseline>,
    next: &ContextBaseline,
    given: &Vec<ContextTransitionCause>,
    cause: ContextTransitionCause,
) -> (yes: bool)
    ensures
        yes == caused(
            match previous {
                Some(baseline) => Some(baseline@),
                None => None,
            },
            next@,
            given@,
            cause,
        ),
{
    if given_has(given, cause) {
        return true;
    }
    match previous {
        None => cause == ContextTransitionCause::Initial,
        Some(before) => match cause {
            ContextTransitionCause::ModelChanged => !text::same_text(
                before.profile_fingerprint.as_str(),
                next.profile_fingerprint.as_str(),
            ),
            ContextTransitionCause::InstructionsChanged => !text::same_text(
                before.instructions_fingerprint.as_str(),
                next.instructions_fingerprint.as_str(),
            ),
            ContextTransitionCause::ProjectContextChanged => !text::same_text(
                before.project_context_fingerprint.as_str(),
                next.project_context_fingerprint.as_str(),
            ),
            ContextTransitionCause::SkillsChanged => !text::same_text(
                before.skills_fingerprint.as_str(),
                next.skills_fingerprint.as_str(),
            ),
            ContextTransitionCause::ToolPlanChanged => !text::same_text(
                before.tool_plan_fingerprint.as_str(),
                next.tool_plan_fingerprint.as_str(),
            ),
            ContextTransitionCause::CompHashChanged => !text::same_opt(
                &before.comp_hash,
                &next.comp_hash,
            ),
            _ => false,
        },
    }
}

fn ordered_causes() -> (causes: Vec<ContextTransitionCause>)
    ensures
        causes@ == causes_in_order(),
{
    let causes = vec![
        ContextTransitionCause::Initial,
        ContextTransitionCause::LegacyResume,
        ContextTransitionCause::ModelChanged,
        ContextTransitionCause::InstructionsChanged,
        ContextTransitionCause::ProjectContextChanged,
        ContextTransitionCause::SkillsChanged,
        ContextTransitionCause::ToolPlanChanged,
        ContextTransitionCause::Compaction,
        ContextTransitionCause::CompHashChanged,
        ContextTransitionCause::OverloadFallback,
    ];
    assert(causes@ =~= causes_in_order());
    causes
}

/// The move to a new baseline; `None` where nothing moved and no cause was given.
pub fn transition_between(
    previous: Option<&ContextBaseline>,
    next: &ContextBaseline,
    additional: Vec<ContextTransitionCause>,
) -> (transition: Option<ContextTransition>)
    ensures
        ({
            let before = match previous {
                Some(baseline) => Some(baseline@),
                None => None,
            };
            if before == Some(next@) && additional@.len() == 0 {
                transition is None
            } else {
                transition matches Some(moved) && opt_baseline(moved.from) == before && moved.to@
                    == next@ && moved.causes@ == causes_of(before, next@, additional@)
            }
        }),
{
    let unmoved = match previous {
        Some(before) => before.same_as(next),
        None => false,
    };
    if unmoved && additional.len() == 0 {
        return None;
    }
    let ghost before = match previous {
        Some(baseline) => Some(baseline@),
        None => None,
    };
    let ghost keep = |cause: ContextTransitionCause| caused(before, next@, additional@, cause);
    let all = ordered_causes();
    let mut causes: Vec<ContextTransitionCause> = Vec::new();
    let mut i: usize = 0;
    proof {
        reveal(Seq::filter);
        assert(all@.take(0) =~= seq![]);
        assert(causes@ =~= all@.take(0).filter(keep));
    }
    while i < all.len()
        invariant
            i <= all.len(),
            all@ == causes_in_order(),
            before == (match previous {
                Some(baseline) => Some(baseline@),
                None => None,
            }),
            keep == (|cause: ContextTransitionCause| caused(before, next@, additional@, cause)),
            causes@ == all@.take(i as int).filter(keep),
        decreases all.len() - i,
    {
        proof {
            reveal(Seq::filter);
            assert(all@.take(i + 1).drop_last() =~= all@.take(i as int));
            assert(all@.take(i + 1).last() == all@[i as int]);
        }
        if is_caused(previous, next, &additional, all[i]) {
            causes.push(all[i]);
        }
        i += 1;
    }
    assert(all@.take(i as int) =~= all@);
    Some(
        ContextTransition {
            from: match previous {
                Some(baseline) => Some(baseline.clone()),
                None => None,
            },
            to: next.clone(),
            causes,
        },
    )
}

/// A transition lists every cause that holds, and none that does not.
pub proof fn law_transitions_list_their_causes(
    previous: Option<BaselineView>,
    next: BaselineView,
    given: Seq<ContextTransitionCause>,
    cause: ContextTransitionCause,
)
    ensures
        causes_of(previous, next, given).contains(cause) <==> caused(previous, next, given, cause),
{
    let keep = |c: ContextTransitionCause| caused(previous, next, given, c);
    let all = causes_in_order();
    assert(all.contains(cause)) by {
        let k: int = match cause {
            ContextTransitionCause::Initial => 0,
            ContextTransitionCause::LegacyResume => 1,
            ContextTransitionCause::ModelChanged => 2,
            ContextTransitionCause::InstructionsChanged => 3,
            ContextTransitionCause::ProjectContextChanged => 4,
            ContextTransitionCause::SkillsChanged => 5,
            ContextTransitionCause::ToolPlanChanged => 6,
            ContextTransitionCause::Compaction => 7,
            ContextTransitionCause::CompHashChanged => 8,
            ContextTransitionCause::OverloadFallback => 9,
        };
        assert(all[k] == cause);
    }
    let listed = all.filter(keep);
    if keep(cause) {
        let k = choose|k: int| 0 <= k < all.len() && all[k] == cause;
        all.lemma_filter_contains(keep, k);
    }
    if listed.contains(cause) {
        let k = choose|k: int| 0 <= k < listed.len() && listed[k] == cause;
        all.lemma_filter_pred(keep, k);
    }
}

// ---------------------------------------------------------------- the note about a model change

/// The note about a change of model, cut between two characters.
pub open spec fn switch_note(previous: Seq<char>, next: Seq<char>) -> Seq<char> {
    text::fitting_prefix(
        "<model_switch from_profile=\""@ + previous + "\" to_profile=\""@ + next
            + "\">Use only the new model contract; do not replay prior encrypted reasoning.</model_switch>"@,
        MAX_MODEL_SWITCH_BYTES as nat,
    )
}

/// The profile that a note names: of the runtime, where there is one.
pub open spec fn profile_name(runtime: Option<ResolvedModelRuntime>) -> Seq<char> {
    match runtime {
        Some(resolved) => resolved.fingerprint@,
        None => "legacy"@,
    }
}

fn bounded_model_switch(previous: &ContextBaseline, runtime: &Option<ResolvedModelRuntime>) -> (note:
    String)
    ensures
        note@ == switch_note(previous.profile_fingerprint@, profile_name(*runtime)),
{
    let next = match runtime {
        Some(resolved) => resolved.fingerprint.as_str(),
        None => "legacy",
    };
    let mut note = text::joined(
        "<model_switch from_profile=\"",
        previous.profile_fingerprint.as_str(),
        "\" to_profile=\"",
        next,
    );
    note.append(
        "\">Use only the new model contract; do not replay prior encrypted reasoning.</model_switch>",
    );
    let chars = text::to_chars(note.as_str());
    let end: usize = text::fitting_prefix_len(&chars, MAX_MODEL_SWITCH_BYTES);
    assert(chars@.subrange(0, end as int) =~= chars@.take(end as int));
    text::from_chars(&chars, 0, end)
}

/// The wire form of a message of the user with one text.
pub open spec fn user_wire(content: Seq<char>) -> Seq<char> {
    "{\"role\":\"user\",\"content\":[{\"type\":\"text\",\"text\":"@ + quoted(content) + "}]}"@
}

fn switch_message(previous: &ContextBaseline, runtime: &Option<ResolvedModelRuntime>) -> (encoded:
    EncodedMessage)
    ensures
        encoded@ == switch_view(previous@, *runtime),
{
    let note = bounded_model_switch(previous, runtime);
    let shown = quote(note.as_str());
    let wire = text::joined(
        "{\"role\":\"user\",\"content\":[{\"type\":\"text\",\"text\":",
        shown.as_str(),
        "}]}",
        "",
    );
    EncodedMessage { message: Message::user(note.as_str()), wire }
}

/// The message that tells the model of a change from another one.
pub open spec fn switch_view(
    previous: BaselineView,
    runtime: Option<ResolvedModelRuntime>,
) -> EncodedView {
    let note = switch_note(previous.profile_fingerprint, profile_name(runtime));
    EncodedView { message: MessageView::user(note), wire: user_wire(note) }
}

// ---------------------------------------------------------------- what fits

/// One part of the context, and where it comes from.
pub struct FragmentView {
    pub encoded: EncodedView,
    pub kind: ContextFragmentKind,
}

/// The parts that fit under the ceiling, one after the other, what they take together with what
/// was in use before, and how many did not fit.
pub struct Fitting {
    pub kept: Seq<FragmentView>,
    pub used: nat,
    pub dropped: nat,
}

pub open spec fn fitting(parts: Seq<FragmentView>, used: nat) -> Fitting
    decreases parts.len(),
{
    if parts.len() == 0 {
        Fitting { kept: seq![], used, dropped: 0 }
    } else {
        let before = fitting(parts.drop_last(), used);
        let size = text::byte_len(parts.last().encoded.wire);
        if before.used + size <= MAX_NON_HISTORY_CONTEXT_BYTES {
            Fitting { kept: before.kept.push(parts.last()), used: before.used + size, ..before }
        } else {
            Fitting { dropped: before.dropped + 1, ..before }
        }
    }
}

/// What is told of parts that did not fit.
pub open spec fn omission(dropped: nat, label: Seq<char>) -> Seq<Seq<char>> {
    if dropped == 0 {
        seq![]
    } else {
        seq![
            text::decimal(dropped) + " "@ + label + " message(s) omitted at the "@ + text::decimal(
                MAX_NON_HISTORY_CONTEXT_BYTES as nat,
            ) + "-byte boundary"@,
        ]
    }
}

/// Parts that are paired with their kinds; without one kind for each they are all of the project.
pub open spec fn fragments(
    messages: Seq<EncodedView>,
    kinds: Seq<ContextFragmentKind>,
) -> Seq<FragmentView> {
    Seq::new(
        messages.len(),
        |i: int|
            FragmentView {
                encoded: messages[i],
                kind: if kinds.len() == messages.len() {
                    kinds[i]
                } else {
                    ContextFragmentKind::Project
                },
            },
    )
}

pub open spec fn encoded_of(parts: Seq<FragmentView>) -> Seq<EncodedView> {
    parts.map_values(|part: FragmentView| part.encoded)
}

/// The parts of one kind.
pub open spec fn of_kind(parts: Seq<FragmentView>, kind: ContextFragmentKind) -> Seq<EncodedView>
    decreases parts.len(),
{
    if parts.len() == 0 {
        seq![]
    } else {
        let before = of_kind(parts.drop_last(), kind);
        if parts.last().kind == kind {
            before.push(parts.last().encoded)
        } else {
            before
        }
    }
}

/// What was kept of a context: the messages, and their kinds beside them.
struct Kept {
    messages: Vec<EncodedMessage>,
    kinds: Vec<ContextFragmentKind>,
    used: usize,
    dropped: usize,
}

impl Kept {
    spec fn parts(self) -> Seq<FragmentView> {
        fragments(encoded_views(self.messages@), self.kinds@)
    }
}

fn clone_encoded(encoded: &EncodedMessage) -> (copy: EncodedMessage)
    ensures
        copy@ == encoded@,
{
    EncodedMessage { message: encoded.message.clone(), wire: encoded.wire.clone() }
}

fn retain(messages: &Vec<EncodedMessage>, kinds: &Vec<ContextFragmentKind>, used: usize) -> (kept:
    Kept)
    requires
        used <= MAX_NON_HISTORY_CONTEXT_BYTES,
    ensures
        ({
            let found = fitting(fragments(encoded_views(messages@), kinds@), used as nat);
            &&& kept.messages@.len() == kept.kinds@.len()
            &&& kept.parts() == found.kept
            &&& kept.used == found.used
            &&& kept.dropped == found.dropped
            &&& kept.used <= MAX_NON_HISTORY_CONTEXT_BYTES
        }),
{
    let ghost all = fragments(encoded_views(messages@), kinds@);
    let paired = kinds.len() == messages.len();
    let mut kept = Kept { messages: Vec::new(), kinds: Vec::new(), used, dropped: 0 };
    let mut i: usize = 0;
    assert(all.take(0) =~= seq![]);
    assert(kept.parts() =~= seq![]);
    while i < messages.len()
        invariant
            i <= messages.len(),
            all == fragments(encoded_views(messages@), kinds@),
            all.len() == messages@.len(),
            paired == (kinds@.len() == messages@.len()),
            kept.messages@.len() == kept.kinds@.len(),
            kept.parts() == fitting(all.take(i as int), used as nat).kept,
            kept.used == fitting(all.take(i as int), used as nat).used,
            kept.dropped == fitting(all.take(i as int), used as nat).dropped,
            kept.used <= MAX_NON_HISTORY_CONTEXT_BYTES,
            kept.dropped <= i,
        decreases messages.len() - i,
    {
        let ghost part = all[i as int];
        proof {
            assert(all.take(i + 1).drop_last() =~= all.take(i as int));
            assert(all.take(i + 1).last() == part);
            assert(part.encoded == messages@[i as int]@);
        }
        let size: usize = text::byte_len_of(messages[i].wire.as_str());
        if size <= MAX_NON_HISTORY_CONTEXT_BYTES - kept.used {
            let kind = if paired {
                kinds[i]
            } else {
                ContextFragmentKind::Project
            };
            let ghost before = kept.parts();
            let copy = clone_encoded(&messages[i]);
            kept.messages.push(copy);
            kept.kinds.push(kind);
            kept.used = kept.used + size;
            proof {
                assert(kept.parts() =~= before.push(part));
            }
        } else {
            kept.dropped = kept.dropped + 1;
        }
        i += 1;
    }
    assert(all.take(i as int) =~= all);
    kept
}

fn tell_omission(diagnostics: &mut Vec<String>, dropped: usize, label: &str)
    ensures
        text::texts(final(diagnostics)@) == text::texts(old(diagnostics)@) + omission(
            dropped as nat,
            label@,
        ),
{
    let ghost before = text::texts(diagnostics@);
    if dropped > 0 {
        let count = text::decimal_of(dropped as u128);
        let limit = text::decimal_of(MAX_NON_HISTORY_CONTEXT_BYTES as u128);
        let mut line = text::joined(count.as_str(), " ", label, " message(s) omitted at the ");
        line.append(limit.as_str());
        line.append("-byte boundary");
        diagnostics.push(line);
    }
    assert(text::texts(diagnostics@) =~= before + omission(dropped as nat, label@));
}

fn kind_array(
    messages: &Vec<EncodedMessage>,
    kinds: &Vec<ContextFragmentKind>,
    kind: ContextFragmentKind,
) -> (wire: String)
    requires
        messages@.len() == kinds@.len(),
    ensures
        wire@ == array(wires(of_kind(fragments(encoded_views(messages@), kinds@), kind))),
{
    let ghost all = fragments(encoded_views(messages@), kinds@);
    let mut items: Vec<String> = Vec::new();
    let mut i: usize = 0;
    assert(all.take(0) =~= seq![]);
    assert(text::texts(items@) =~= wires(of_kind(all.take(0), kind)));
    while i < messages.len()
        invariant
            i <= messages.len(),
            messages@.len() == kinds@.len(),
            all == fragments(encoded_views(messages@), kinds@),
            all.len() == messages@.len(),
            text::texts(items@) == wires(of_kind(all.take(i as int), kind)),
        decreases messages.len() - i,
    {
        proof {
            assert(all.take(i + 1).drop_last() =~= all.take(i as int));
            assert(all.take(i + 1).last() == all[i as int]);
            assert(all[i as int].encoded == messages@[i as int]@);
        }
        if kinds[i] == kind {
            let ghost before = items@;
            items.push(messages[i].wire.clone());
            proof {
                let found = of_kind(all.take(i as int), kind);
                assert(wires(found.push(all[i as int].encoded)) =~= wires(found).push(
                    messages@[i as int].wire@,
                ));
                assert(text::texts(items@) =~= text::texts(before).push(messages@[i as int].wire@));
            }
        }
        i += 1;
    }
    assert(all.take(i as int) =~= all);
    array_of(&items)
}

// ---------------------------------------------------------------- snapshots

/// The prompt of one sampling.
#[derive(Debug, Clone, PartialEq, Eq)]
pub struct PromptSnapshot {
    pub model: String,
    pub model_runtime: Option<ResolvedModelRuntime>,
    pub reasoning_effort: Option<String>,
    pub reasoning_replay: bool,
    pub system: Option<String>,
    pub context_messages: Vec<Message>,
    pub messages: Vec<Message>,
    pub ephemeral_messages: Vec<Message>,
    pub tool_plan: StepToolPlan,
    pub max_output_tokens: u32,
    pub baseline: ContextBaseline,
    pub stable_prefix_fingerprint: String,
    pub fingerprint: String,
    pub diagnostics: Vec<String>,
}

/// What a prompt is captured from.
pub struct PromptSource {
    pub model: Seq<char>,
    pub model_runtime: Option<ResolvedModelRuntime>,
    pub reasoning_effort: Option<Seq<char>>,
    pub system: Option<Seq<char>>,
    pub context: Seq<FragmentView>,
    pub messages: Seq<EncodedView>,
    /// What is only for this sampling, the note about a change of model first.
    pub ephemeral: Seq<EncodedView>,
    pub plan_wire: Seq<char>,
    pub plan_fingerprint: Seq<char>,
    pub max_output_tokens: u32,
    pub reasoning_replay: bool,
}

impl PromptSource {
    /// The bytes of the instructions and the tools, which always stay.
    pub open spec fn fixed_bytes(self) -> nat {
        text::byte_len(opt_quoted(self.system)) + text::byte_len(self.plan_wire)
    }

    pub open spec fn kept_context(self) -> Fitting {
        fitting(self.context, self.fixed_bytes())
    }

    pub open spec fn kept_ephemeral(self) -> Fitting {
        fitting(
            fragments(self.ephemeral, seq![]),
            self.kept_context().used,
        )
    }

    pub open spec fn baseline(self) -> BaselineView {
        let kept = self.kept_context().kept;
        BaselineView {
            profile_fingerprint: match self.model_runtime {
                Some(runtime) => runtime.fingerprint@,
                None => digest::text_digest(
                    array(seq![quoted(self.model), opt_quoted(self.reasoning_effort)]),
                ),
            },
            model_slug: self.model,
            comp_hash: match self.model_runtime {
                Some(runtime) => text::opt_text(runtime.comp_hash),
                None => None,
            },
            instructions_fingerprint: digest::text_digest(opt_quoted(self.system)),
            project_context_fingerprint: digest::text_digest(
                array(wires(of_kind(kept, ContextFragmentKind::Project))),
            ),
            skills_fingerprint: digest::text_digest(
                array(wires(of_kind(kept, ContextFragmentKind::Skill))),
            ),
            tool_plan_fingerprint: self.plan_fingerprint,
        }
    }

    /// The identity of everything that a later sampling shares with this one.
    pub open spec fn stable_prefix(self) -> Seq<char> {
        digest::text_digest(
            array(
                seq![
                    self.baseline().wire(),
                    opt_quoted(self.system),
                    array(wires(encoded_of(self.kept_context().kept))),
                    array(wires(self.messages)),
                    self.plan_wire,
                ],
            ),
        )
    }

    /// The identity of the whole prompt.
    pub open spec fn identity(self) -> Seq<char> {
        digest::text_digest(
            array(
                seq![
                    quoted(self.stable_prefix()),
                    array(wires(encoded_of(self.kept_ephemeral().kept))),
                    text::decimal(self.max_output_tokens as nat),
                    if self.reasoning_replay {
                        "true"@
                    } else {
                        "false"@
                    },
                ],
            ),
        )
    }

    pub open spec fn fault(self) -> Option<PromptFault> {
        if self.fixed_bytes() > MAX_NON_HISTORY_CONTEXT_BYTES {
            Some(
                PromptFault::StaticContextTooLarge {
                    bytes: if self.fixed_bytes() <= usize::MAX {
                        self.fixed_bytes()
                    } else {
                        usize::MAX as nat
                    },
                },
            )
        } else {
            self.baseline().fault()
        }
    }

    pub open spec fn diagnostics(self) -> Seq<Seq<char>> {
        omission(self.kept_context().dropped, "step context"@) + omission(
            self.kept_ephemeral().dropped,
            "ephemeral context"@,
        )
    }
}

/// What an optional runtime is.
pub open spec fn opt_runtime(runtime: Option<ResolvedModelRuntime>) -> Option<RuntimeView> {
    match runtime {
        Some(resolved) => Some(resolved@),
        None => None,
    }
}

impl PromptSnapshot {
    /// The snapshot holds what its source says.
    pub open spec fn captures(self, source: PromptSource) -> bool {
        &&& self.model@ == source.model
        &&& self.model_runtime == source.model_runtime
        &&& text::opt_text(self.reasoning_effort) == source.reasoning_effort
        &&& self.reasoning_replay == source.reasoning_replay
        &&& text::opt_text(self.system) == source.system
        &&& message::message_views(self.context_messages@) == plain_messages(
            encoded_of(source.kept_context().kept),
        )
        &&& message::message_views(self.messages@) == plain_messages(source.messages)
        &&& message::message_views(self.ephemeral_messages@) == plain_messages(
            encoded_of(source.kept_ephemeral().kept),
        )
        &&& self.max_output_tokens == source.max_output_tokens
        &&& self.baseline@ == source.baseline()
        &&& self.stable_prefix_fingerprint@ == source.stable_prefix()
        &&& self.fingerprint@ == source.identity()
        &&& text::texts(self.diagnostics@) == source.diagnostics()
    }

    /// Captures the prompt of one sampling. Instructions and tools that alone are too large are
    /// refused, and so is a baseline that cannot be one.
    pub fn capture(
        model: String,
        model_runtime: Option<ResolvedModelRuntime>,
        reasoning_effort: Option<String>,
        system: Option<String>,
        context_messages: Vec<EncodedMessage>,
        context_kinds: Vec<ContextFragmentKind>,
        messages: &Vec<EncodedMessage>,
        ephemeral_messages: Vec<EncodedMessage>,
        tool_plan: StepToolPlan,
        max_output_tokens: u32,
        reasoning_replay: bool,
        model_switch_from: Option<&ContextBaseline>,
    ) -> (captured: Result<PromptSnapshot, PromptSnapshotError>)
        ensures
            ({
                let source = PromptSource {
                    model: model@,
                    model_runtime,
                    reasoning_effort: text::opt_text(reasoning_effort),
                    system: text::opt_text(system),
                    context: fragments(encoded_views(context_messages@), context_kinds@),
                    messages: encoded_views(messages@),
                    ephemeral: (match model_switch_from {
                        Some(previous) => seq![switch_view(previous@, model_runtime)],
                        None => seq![],
                    }) + encoded_views(ephemeral_messages@),
                    plan_wire: tool_plan.wire@,
                    plan_fingerprint: tool_plan.fingerprint@,
                    max_output_tokens,
                    reasoning_replay,
                };
                match source.fault() {
                    Some(fault) => captured matches Err(error) && reports(error, fault),
                    None => captured matches Ok(snapshot) && snapshot.captures(source)
                        && snapshot.tool_plan == tool_plan,
                }
            }),
    {
        let ghost source = PromptSource {
            model: model@,
            model_runtime,
            reasoning_effort: text::opt_text(reasoning_effort),
            system: text::opt_text(system),
            context: fragments(encoded_views(context_messages@), context_kinds@),
            messages: encoded_views(messages@),
            ephemeral: (match model_switch_from {
                Some(previous) => seq![switch_view(previous@, model_runtime)],
                None => seq![],
            }) + encoded_views(ephemeral_messages@),
            plan_wire: tool_plan.wire@,
            plan_fingerprint: tool_plan.fingerprint@,
            max_output_tokens,
            reasoning_replay,
        };
        let mut ephemeral: Vec<EncodedMessage> = Vec::new();
        match model_switch_from {
            Some(previous) => {
                ephemeral.push(switch_message(previous, &model_runtime));
            },
            None => {},
        }
        let mut later = ephemeral_messages;
        ephemeral.append(&mut later);
        assert(encoded_views(ephemeral@) =~= source.ephemeral);

        let instructions = quote_opt(&system);
        let system_bytes: usize = text::byte_len_of(instructions.as_str());
        let tool_bytes: usize = text::byte_len_of(tool_plan.wire.as_str());
        let fixed_bytes: usize = system_bytes.saturating_add(tool_bytes);
        if fixed_bytes > MAX_NON_HISTORY_CONTEXT_BYTES {
            return Err(
                PromptSnapshotError::StaticContextTooLarge {
                    bytes: fixed_bytes,
                    max: MAX_NON_HISTORY_CONTEXT_BYTES,
                },
            );
        }
        let context = retain(&context_messages, &context_kinds, fixed_bytes);
        let no_kinds: Vec<ContextFragmentKind> = Vec::new();
        let kept_ephemeral = retain(&ephemeral, &no_kinds, context.used);
        proof {
            assert(no_kinds@ =~= seq![]);
            lemma_encoded_of_fragments(encoded_views(context.messages@), context.kinds@);
            lemma_encoded_of_fragments(
                encoded_views(kept_ephemeral.messages@),
                kept_ephemeral.kinds@,
            );
        }
        let mut diagnostics: Vec<String> = Vec::new();
        assert(text::texts(diagnostics@) =~= seq![]);
        tell_omission(&mut diagnostics, context.dropped, "step context");
        tell_omission(&mut diagnostics, kept_ephemeral.dropped, "ephemeral context");
        assert(text::texts(diagnostics@) =~= source.diagnostics());

        let profile_fingerprint = match &model_runtime {
            Some(runtime) => runtime.fingerprint.clone(),
            None => {
                let mut pair: Vec<String> = Vec::new();
                pair.push(quote(model.as_str()));
                pair.push(quote_opt(&reasoning_effort));
                assert(text::texts(pair@) =~= seq![
                    quoted(source.model),
                    opt_quoted(source.reasoning_effort),
                ]);
                let wire = array_of(&pair);
                digest::digest_of(wire.as_str())
            },
        };
        let project = kind_array(&context.messages, &context.kinds, ContextFragmentKind::Project);
        let skills = kind_array(&context.messages, &context.kinds, ContextFragmentKind::Skill);
        let baseline = ContextBaseline {
            profile_fingerprint,
            model_slug: model.clone(),
            comp_hash: match &model_runtime {
                Some(runtime) => text::clone_opt(&runtime.comp_hash),
                None => None,
            },
            instructions_fingerprint: digest::digest_of(instructions.as_str()),
            project_context_fingerprint: digest::digest_of(project.as_str()),
            skills_fingerprint: digest::digest_of(skills.as_str()),
            tool_plan_fingerprint: tool_plan.fingerprint.clone(),
        };
        assert(baseline@ == source.baseline());
        match baseline.validate() {
            Ok(()) => {},
            Err(error) => {
                return Err(error);
            },
        }
        let stable_prefix_fingerprint = {
            let mut parts: Vec<String> = Vec::new();
            parts.push(baseline.encode());
            parts.push(instructions);
            parts.push(array_of_messages(&context.messages));
            parts.push(array_of_messages(messages));
            parts.push(tool_plan.wire.clone());
            assert(text::texts(parts@) =~= seq![
                source.baseline().wire(),
                opt_quoted(source.system),
                array(wires(encoded_of(source.kept_context().kept))),
                array(wires(source.messages)),
                source.plan_wire,
            ]);
            let wire = array_of(&parts);
            digest::digest_of(wire.as_str())
        };
        let fingerprint = {
            let mut parts: Vec<String> = Vec::new();
            parts.push(quote(stable_prefix_fingerprint.as_str()));
            parts.push(array_of_messages(&kept_ephemeral.messages));
            parts.push(text::decimal_of(max_output_tokens as u128));
            let replay = if reasoning_replay {
                "true"
            } else {
                "false"
            };
            parts.push(replay.to_owned());
            assert(text::texts(parts@) =~= seq![
                quoted(source.stable_prefix()),
                array(wires(encoded_of(source.kept_ephemeral().kept))),
                text::decimal(max_output_tokens as nat),
                if reasoning_replay {
                    "true"@
                } else {
                    "false"@
                },
            ]);
            let wire = array_of(&parts);
            digest::digest_of(wire.as_str())
        };
        Ok(
            PromptSnapshot {
                model,
                model_runtime,
                reasoning_effort,
                reasoning_replay,
                system,
                context_messages: plain_of(&context.messages),
                messages: plain_of(messages),
                ephemeral_messages: plain_of(&kept_ephemeral.messages),
                tool_plan,
                max_output_tokens,
                baseline,
                stable_prefix_fingerprint,
                fingerprint,
                diagnostics,
            },
        )
    }

    /// The request that goes to the provider: context, history, and what is only for this
    /// sampling.
    pub fn request(&self) -> (request: CanonicalRequest)
        ensures
            request.model@ == self.model@,
            opt_runtime(request.model_runtime) == opt_runtime(self.model_runtime),
            text::opt_text(request.reasoning_effort) == text::opt_text(self.reasoning_effort),
            request.reasoning_replay == self.reasoning_replay,
            text::opt_text(request.system) == text::opt_text(self.system),
            request.is_basic(),
            message::message_views(request.messages@) == message::message_views(
                self.context_messages@,
            ) + message::message_views(self.messages@) + message::message_views(
                self.ephemeral_messages@,
            ),
            tool_spec::spec_views(request.tools@) == tool_spec::spec_views(self.tool_plan.specs@),
            request.max_output_tokens == self.max_output_tokens,
    {
        let mut messages: Vec<Message> = Vec::new();
        add_messages(&mut messages, &self.context_messages);
        add_messages(&mut messages, &self.messages);
        add_messages(&mut messages, &self.ephemeral_messages);
        assert(message::message_views(messages@) =~= message::message_views(self.context_messages@)
            + message::message_views(self.messages@) + message::message_views(
            self.ephemeral_messages@,
        ));
        CanonicalRequest {
            model: self.model.clone(),
            model_runtime: match &self.model_runtime {
                Some(runtime) => Some(runtime.clone()),
                None => None,
            },
            reasoning_effort: text::clone_opt(&self.reasoning_effort),
            reasoning_replay: self.reasoning_replay,
            system: text::clone_opt(&self.system),
            service_tier: None,
            output_schema: None,
            stream_options: RequestStreamOptions::default(),
            client_metadata: ClientMetadata::new(),
            cache_key: None,
            messages,
            tools: tool_spec::clone_specs(&self.tool_plan.specs),
            max_output_tokens: self.max_output_tokens,
        }
    }

    /// The tokens of everything in the prompt that is not history.
    pub fn static_input_tokens<C: TokenCounter>(&self, tokenizer: &C) -> (tokens: u32)
        ensures
            tokens == tokenizer::capped_u32(
                tokenizer::capped_u32(
                    budget::static_tokens(
                        text::opt_text(self.system),
                        message::message_views(self.context_messages@),
                        tool_spec::spec_views(self.tool_plan.specs@),
                        *tokenizer,
                    ),
                ) + tokenizer::capped_u32(
                    budget::transcript_tokens(
                        message::message_views(self.ephemeral_messages@),
                        *tokenizer,
                    ),
                ),
            ),
    {
        let fixed: u32 = budget::estimate_static_input(
            &self.system,
            self.context_messages.as_slice(),
            self.tool_plan.specs.as_slice(),
            tokenizer,
        );
        fixed.saturating_add(
            budget::estimate_input(self.ephemeral_messages.as_slice(), tokenizer),
        )
    }

    pub fn baseline(&self) -> (baseline: &ContextBaseline)
        ensures
            *baseline == self.baseline,
    {
        &self.baseline
    }

    pub fn stable_prefix_fingerprint(&self) -> (fingerprint: &str)
        ensures
            fingerprint@ == self.stable_prefix_fingerprint@,
    {
        self.stable_prefix_fingerprint.as_str()
    }

    pub fn fingerprint(&self) -> (fingerprint: &str)
        ensures
            fingerprint@ == self.fingerprint@,
    {
        self.fingerprint.as_str()
    }

    pub fn diagnostics(&self) -> (diagnostics: &Vec<String>)
        ensures
            *diagnostics == self.diagnostics,
    {
        &self.diagnostics
    }

    pub fn tool_plan(&self) -> (plan: &StepToolPlan)
        ensures
            *plan == self.tool_plan,
    {
        &self.tool_plan
    }

    pub fn reasoning_replay(&self) -> (enabled: bool)
        ensures
            enabled == self.reasoning_replay,
    {
        self.reasoning_replay
    }
}

proof fn lemma_encoded_of_fragments(messages: Seq<EncodedView>, kinds: Seq<ContextFragmentKind>)
    ensures
        encoded_of(fragments(messages, kinds)) == messages,
{
    assert(encoded_of(fragments(messages, kinds)) =~= messages);
}

fn plain_of(messages: &Vec<EncodedMessage>) -> (plain: Vec<Message>)
    ensures
        message::message_views(plain@) == plain_messages(encoded_views(messages@)),
{
    let mut plain: Vec<Message> = Vec::new();
    let mut i: usize = 0;
    while i < messages.len()
        invariant
            i <= messages.len(),
            plain@.len() == i,
            forall|k: int| 0 <= k < i ==> (#[trigger] plain@[k])@ == messages@[k].message@,
        decreases messages.len() - i,
    {
        plain.push(messages[i].message.clone());
        i += 1;
    }
    assert(message::message_views(plain@) =~= plain_messages(encoded_views(messages@)));
    plain
}

fn add_messages(list: &mut Vec<Message>, more: &Vec<Message>)
    ensures
        message::message_views(final(list)@) == message::message_views(old(list)@)
            + message::message_views(more@),
{
    let ghost before = message::message_views(list@);
    let ghost added = message::message_views(more@);
    let mut i: usize = 0;
    assert(before + added.take(0) =~= before);
    while i < more.len()
        invariant
            i <= more.len(),
            added == message::message_views(more@),
            message::message_views(list@) == before + added.take(i as int),
        decreases more.len() - i,
    {
        let ghost here = list@;
        let copy = more[i].clone();
        let ghost view = copy@;
        list.push(copy);
        proof {
            assert(added[i as int] == view);
            assert(message::message_views(list@) =~= message::message_views(here).push(view));
            assert(before + added.take(i + 1) =~= (before + added.take(i as int)).push(view));
        }
        i += 1;
    }
    assert(added.take(i as int) =~= added);
}

/// Whether reasoning is sent back to the model.
pub fn replay_enabled(runtime: Option<&ResolvedModelRuntime>) -> (enabled: bool)
    ensures
        enabled == (runtime is Some && runtime->0.reasoning_replay
            == ReasoningReplaySupport::Enabled),
{
    match runtime {
        Some(resolved) => resolved.reasoning_replay == ReasoningReplaySupport::Enabled,
        None => false,
    }
}

proof fn lemma_fitting_bound(parts: Seq<FragmentView>, used: nat)
    requires
        used <= MAX_NON_HISTORY_CONTEXT_BYTES,
    ensures
        used <= fitting(parts, used).used <= MAX_NON_HISTORY_CONTEXT_BYTES,
        fitting(parts, used).kept.len() + fitting(parts, used).dropped == parts.len(),
        fitting(parts, used).used == used + weight(fitting(parts, used).kept),
    decreases parts.len(),
{
    if parts.len() > 0 {
        lemma_fitting_bound(parts.drop_last(), used);
        let before = fitting(parts.drop_last(), used).kept;
        assert(before.push(parts.last()).drop_last() =~= before);
    }
}

/// The bytes of parts on the wire.
pub open spec fn weight(parts: Seq<FragmentView>) -> nat
    decreases parts.len(),
{
    if parts.len() == 0 {
        0
    } else {
        weight(parts.drop_last()) + text::byte_len(parts.last().encoded.wire)
    }
}

/// Everything in a captured prompt that is not history stays under the ceiling: the instructions,
/// the tools, the context and what is only for this sampling. Each part is kept whole or left
/// out.
pub proof fn law_prompts_are_bounded(source: PromptSource)
    requires
        source.fault() is None,
    ensures
        source.fixed_bytes() + weight(source.kept_context().kept) + weight(
            source.kept_ephemeral().kept,
        ) <= MAX_NON_HISTORY_CONTEXT_BYTES,
        source.kept_context().kept.len() + source.kept_context().dropped == source.context.len(),
{
    lemma_fitting_bound(source.context, source.fixed_bytes());
    lemma_fitting_bound(fragments(source.ephemeral, seq![]), source.kept_context().used);
}

/// Where there is room for all of the context, nothing is left out and nothing is told.
pub proof fn law_small_contexts_are_kept(parts: Seq<FragmentView>, used: nat)
    requires
        used + weight(parts) <= MAX_NON_HISTORY_CONTEXT_BYTES,
    ensures
        fitting(parts, used).kept == parts,
        fitting(parts, used).dropped == 0,
        fitting(parts, used).used == used + weight(parts),
    decreases parts.len(),
{
    if parts.len() > 0 {
        law_small_contexts_are_kept(parts.drop_last(), used);
        assert(parts.drop_last().push(parts.last()) =~= parts);
    } else {
        assert(fitting(parts, used).kept =~= parts);
    }
}

/// The stable prefix does not depend on what is only for one sampling, nor on its limits: two
/// prompts from one source but for those share it.
pub proof fn law_stable_prefix_is_shared(source: PromptSource, other: PromptSource)
    requires
        other == (PromptSource {
            ephemeral: other.ephemeral,
            max_output_tokens: other.max_output_tokens,
            reasoning_replay: other.reasoning_replay,
            ..source
        }),
    ensures
        source.stable_prefix() == other.stable_prefix(),
        source.baseline() == other.baseline(),
{
}

/// A part of the context is kept, behind those kept before it, exactly where it fits beside them
/// under the ceiling; else it is left out whole and counted.
pub proof fn law_parts_are_kept_where_they_fit(
    parts: Seq<FragmentView>,
    part: FragmentView,
    used: nat,
)
    requires
        used <= MAX_NON_HISTORY_CONTEXT_BYTES,
    ensures
        ({
            let before = fitting(parts, used);
            let after = fitting(parts.push(part), used);
            let fits = used + weight(before.kept) + text::byte_len(part.encoded.wire)
                <= MAX_NON_HISTORY_CONTEXT_BYTES;
            &&& fits ==> after.kept == before.kept.push(part) && after.dropped == before.dropped
            &&& !fits ==> after.kept == before.kept && after.dropped == before.dropped + 1
            &&& fitting(seq![], used).kept == Seq::<FragmentView>::empty()
            &&& fitting(seq![], used).dropped == 0
        }),
{
    assert(parts.push(part).drop_last() =~= parts);
    lemma_fitting_bound(parts, used);
}

/// Parts that do not fit are told of, and only then, with their number.
pub proof fn law_omissions_are_told(dropped: nat, label: Seq<char>)
    ensures
        dropped == 0 ==> omission(dropped, label).len() == 0,
        dropped > 0 ==> omission(dropped, label).len() == 1 && (text::decimal(dropped) + " "@
            + label).is_prefix_of(omission(dropped, label)[0]),
{
    if dropped > 0 {
        let start = text::decimal(dropped) + " "@ + label;
        assert(omission(dropped, label)[0].take(start.len() as int) =~= start);
    }
}

/// A move has a cause for each thing that changed: the model by its profile, the instructions, the
/// project, the skills, the tools and the compaction profile; the first has one of its own; and
/// what was given as a cause is one.
pub proof fn law_changes_are_causes(
    previous: Option<BaselineView>,
    next: BaselineView,
    given: Seq<ContextTransitionCause>,
)
    ensures
        ({
            let causes = causes_of(previous, next, given);
            let moved = |cause: ContextTransitionCause, differs: bool|
                causes.contains(cause) <==> differs || given.contains(cause);
            &&& moved(ContextTransitionCause::Initial, previous is None)
            &&& moved(ContextTransitionCause::LegacyResume, false)
            &&& moved(ContextTransitionCause::Compaction, false)
            &&& moved(ContextTransitionCause::OverloadFallback, false)
            &&& moved(
                ContextTransitionCause::ModelChanged,
                previous is Some && previous->0.profile_fingerprint != next.profile_fingerprint,
            )
            &&& moved(
                ContextTransitionCause::InstructionsChanged,
                previous is Some && previous->0.instructions_fingerprint
                    != next.instructions_fingerprint,
            )
            &&& moved(
                ContextTransitionCause::ProjectContextChanged,
                previous is Some && previous->0.project_context_fingerprint
                    != next.project_context_fingerprint,
            )
            &&& moved(
                ContextTransitionCause::SkillsChanged,
                previous is Some && previous->0.skills_fingerprint != next.skills_fingerprint,
            )
            &&& moved(
                ContextTransitionCause::ToolPlanChanged,
                previous is Some && previous->0.tool_plan_fingerprint
                    != next.tool_plan_fingerprint,
            )
            &&& moved(
                ContextTransitionCause::CompHashChanged,
                previous is Some && previous->0.comp_hash != next.comp_hash,
            )
        }),
{
    assert forall|cause: ContextTransitionCause|
        #[trigger] causes_of(previous, next, given).contains(cause) <==> caused(
            previous,
            next,
            given,
            cause,
        ) by {
        law_transitions_list_their_causes(previous, next, given, cause);
    }
}

/// Where nothing changed and nothing was given, there is no move.
pub proof fn law_nothing_moves_without_a_cause(baseline: BaselineView)
    ensures
        causes_of(Some(baseline), baseline, seq![]) == Seq::<ContextTransitionCause>::empty(),
{
    let causes = causes_of(Some(baseline), baseline, seq![]);
    if causes.len() > 0 {
        law_transitions_list_their_causes(Some(baseline), baseline, seq![], causes[0]);
        assert(causes.contains(causes[0]));
    }
    assert(causes =~= Seq::<ContextTransitionCause>::empty());
}

/// The place of a cause among all of them.
pub open spec fn rank(cause: ContextTransitionCause) -> int {
    match cause {
        ContextTransitionCause::Initial => 0,
        ContextTransitionCause::LegacyResume => 1,
        ContextTransitionCause::ModelChanged => 2,
        ContextTransitionCause::InstructionsChanged => 3,
        ContextTransitionCause::ProjectContextChanged => 4,
        ContextTransitionCause::SkillsChanged => 5,
        ContextTransitionCause::ToolPlanChanged => 6,
        ContextTransitionCause::Compaction => 7,
        ContextTransitionCause::CompHashChanged => 8,
        ContextTransitionCause::OverloadFallback => 9,
    }
}

proof fn lemma_filter_keeps_rank(
    causes: Seq<ContextTransitionCause>,
    keep: spec_fn(ContextTransitionCause) -> bool,
)
    requires
        forall|i: int, j: int|
            0 <= i < j < causes.len() ==> rank(#[trigger] causes[i]) < rank(#[trigger] causes[j]),
    ensures
        forall|i: int, j: int|
            0 <= i < j < causes.filter(keep).len() ==> rank(#[trigger] causes.filter(keep)[i])
                < rank(#[trigger] causes.filter(keep)[j]),
    decreases causes.len(),
{
    reveal(Seq::filter);
    if causes.len() > 0 {
        let front = causes.drop_last();
        assert forall|i: int, j: int| 0 <= i < j < front.len() implies rank(
            #[trigger] front[i],
        ) < rank(#[trigger] front[j]) by {
            assert(front[i] == causes[i] && front[j] == causes[j]);
        }
        lemma_filter_keeps_rank(front, keep);
        let kept = front.filter(keep);
        assert forall|i: int| 0 <= i < kept.len() implies rank(#[trigger] kept[i]) < rank(
            causes.last(),
        ) by {
            front.lemma_filter_contains_rev(keep, kept[i]);
            let k = choose|k: int| 0 <= k < front.len() && front[k] == kept[i];
            assert(rank(causes[k]) < rank(causes[causes.len() - 1]));
        }
    }
}

/// Causes are listed once each and in their order.
pub proof fn law_causes_are_listed_in_order(
    previous: Option<BaselineView>,
    next: BaselineView,
    given: Seq<ContextTransitionCause>,
    i: int,
    j: int,
)
    requires
        0 <= i < j < causes_of(previous, next, given).len(),
    ensures
        rank(causes_of(previous, next, given)[i]) < rank(causes_of(previous, next, given)[j]),
{
    let keep = |cause: ContextTransitionCause| caused(previous, next, given, cause);
    lemma_filter_keeps_rank(causes_in_order(), keep);
}

/// A baseline passes exactly with fingerprints that are ones, a slug and, where it has one, a hash
/// of the compaction profile, both short and without controls.
pub proof fn law_baselines_are_fingerprints(baseline: BaselineView)
    ensures
        baseline.fault() is None <==> text::is_sha256(baseline.profile_fingerprint)
            && text::is_sha256(baseline.instructions_fingerprint) && text::is_sha256(
            baseline.project_context_fingerprint,
        ) && text::is_sha256(baseline.skills_fingerprint) && text::is_sha256(
            baseline.tool_plan_fingerprint,
        ) && baseline.model_slug.len() > 0 && text::plain(baseline.model_slug, 256) && (
        baseline.comp_hash matches Some(hash) ==> text::opt_plain(Some(hash), 256)),
{
}

/// The parts of a kind are those of it, in order.
pub proof fn law_kinds_are_parted(
    parts: Seq<FragmentView>,
    part: FragmentView,
    kind: ContextFragmentKind,
)
    ensures
        part.kind == kind ==> of_kind(parts.push(part), kind) == of_kind(parts, kind).push(
            part.encoded,
        ),
        part.kind != kind ==> of_kind(parts.push(part), kind) == of_kind(parts, kind),
        of_kind(seq![], kind) == Seq::<EncodedView>::empty(),
{
    assert(parts.push(part).drop_last() =~= parts);
}

proof fn lemma_join_four(a: Seq<char>, b: Seq<char>, c: Seq<char>, d: Seq<char>)
    ensures
        text::join(seq![a, b, c, d], ","@) == a + ","@ + b + ","@ + c + ","@ + d,
{
    assert(seq![a, b, c, d].drop_last() =~= seq![a, b, c]);
    assert(seq![a, b, c].drop_last() =~= seq![a, b]);
    assert(seq![a, b].drop_last() =~= seq![a]);
    assert(text::join(seq![a], ","@) == a);
    assert(text::join(seq![a, b], ","@) == a + ","@ + b);
    assert(text::join(seq![a, b, c], ","@) == a + ","@ + b + ","@ + c);
}

proof fn lemma_join_five(a: Seq<char>, b: Seq<char>, c: Seq<char>, d: Seq<char>, e: Seq<char>)
    ensures
        text::join(seq![a, b, c, d, e], ","@) == a + ","@ + b + ","@ + c + ","@ + d + ","@ + e,
{
    assert(seq![a, b, c, d, e].drop_last() =~= seq![a, b, c, d]);
    lemma_join_four(a, b, c, d);
}

/// The identity of a prompt covers all of it: its stable prefix, what is only for this sampling,
/// the limit of the output and whether reasoning is replayed.
pub proof fn law_identities_cover_the_prompt(source: PromptSource)
    ensures
        source.identity() == digest::text_digest(
            "["@ + (json::rendered(JsonView::Text(source.stable_prefix())) + ","@ + ("["@
                + text::join(wires(encoded_of(source.kept_ephemeral().kept)), ","@) + "]"@)
                + ","@ + text::decimal(source.max_output_tokens as nat) + ","@ + (
            if source.reasoning_replay {
                "true"@
            } else {
                "false"@
            })) + "]"@,
        ),
{
    lemma_join_four(
        quoted(source.stable_prefix()),
        array(wires(encoded_of(source.kept_ephemeral().kept))),
        text::decimal(source.max_output_tokens as nat),
        if source.reasoning_replay {
            "true"@
        } else {
            "false"@
        },
    );
}

/// The stable prefix covers all that a later sampling shares: the baseline, the instructions, the
/// context that was kept, the whole history and the tools, in this order.
pub proof fn law_stable_prefixes_cover_what_is_shared(source: PromptSource)
    ensures
        source.stable_prefix() == digest::text_digest(
            "["@ + (source.baseline().wire() + ","@ + opt_quoted(source.system) + ","@ + ("["@
                + text::join(wires(encoded_of(source.kept_context().kept)), ","@) + "]"@) + ","@
                + ("["@ + text::join(wires(source.messages), ","@) + "]"@) + ","@
                + source.plan_wire) + "]"@,
        ),
{
    lemma_join_five(
        source.baseline().wire(),
        opt_quoted(source.system),
        array(wires(encoded_of(source.kept_context().kept))),
        array(wires(source.messages)),
        source.plan_wire,
    );
}

/// The baseline of a prompt: the profile and compaction profile of its model, the instructions, the
/// parts of the context by their kind as far as they were kept, and the tools.
pub proof fn law_baselines_tell_the_prompt(source: PromptSource)
    ensures
        ({
            let baseline = source.baseline();
            let kept = fitting(source.context, source.fixed_bytes()).kept;
            &&& baseline.model_slug == source.model
            &&& baseline.tool_plan_fingerprint == source.plan_fingerprint
            &&& source.system is None ==> baseline.instructions_fingerprint == digest::text_digest(
                "null"@,
            )
            &&& source.system matches Some(said) ==> baseline.instructions_fingerprint
                == digest::text_digest(json::rendered(JsonView::Text(said)))
            &&& source.model_runtime matches Some(runtime) ==> baseline.profile_fingerprint
                == runtime.fingerprint@ && baseline.comp_hash == text::opt_text(runtime.comp_hash)
            &&& source.model_runtime is None ==> baseline.comp_hash is None
            &&& baseline.project_context_fingerprint == digest::text_digest(
                "["@ + text::join(wires(of_kind(kept, ContextFragmentKind::Project)), ","@)
                    + "]"@,
            )
            &&& baseline.skills_fingerprint == digest::text_digest(
                "["@ + text::join(wires(of_kind(kept, ContextFragmentKind::Skill)), ","@) + "]"@,
            )
        }),
{
}

/// The instructions and the tools always stay, so a prompt is refused exactly when they alone are
/// too large, or when its baseline is none.
pub proof fn law_fixed_parts_must_fit(source: PromptSource)
    ensures
        source.fixed_bytes() == text::byte_len(
            match source.system {
                Some(said) => json::rendered(JsonView::Text(said)),
                None => "null"@,
            },
        ) + text::byte_len(source.plan_wire),
        source.fault() is None <==> source.fixed_bytes() <= MAX_NON_HISTORY_CONTEXT_BYTES
            && source.baseline().fault() is None,
        source.fixed_bytes() > MAX_NON_HISTORY_CONTEXT_BYTES ==> source.fault()->0
            is StaticContextTooLarge,
{
}

/// The note about a change of model names both profiles, cut between two characters where that is
/// too long for it.
pub proof fn law_switch_notes_name_both_profiles(previous: Seq<char>, next: Seq<char>)
    ensures
        ({
            let whole = "<model_switch from_profile=\""@ + previous + "\" to_profile=\""@ + next
                + "\">Use only the new model contract; do not replay prior encrypted reasoning.</model_switch>"@;
            let note = switch_note(previous, next);
            &&& note.is_prefix_of(whole)
            &&& text::byte_len(whole) <= MAX_MODEL_SWITCH_BYTES ==> note == whole
            &&& text::byte_len(note) <= MAX_MODEL_SWITCH_BYTES
            &&& text::byte_len(whole) > MAX_MODEL_SWITCH_BYTES ==> text::byte_len(
                whole.take(note.len() as int + 1),
            ) > MAX_MODEL_SWITCH_BYTES
        }),
{
    let whole = "<model_switch from_profile=\""@ + previous + "\" to_profile=\""@ + next
        + "\">Use only the new model contract; do not replay prior encrypted reasoning.</model_switch>"@;
    let n = text::lemma_fitting_prefix_longest(whole, MAX_MODEL_SWITCH_BYTES as nat);
}

/// A message of one text is sent as the text, quoted, in a message of the user.
pub proof fn law_notes_are_sent_as_they_read(
    previous: BaselineView,
    runtime: Option<ResolvedModelRuntime>,
)
    ensures
        ({
            let view = switch_view(previous, runtime);
            let note = switch_note(
                previous.profile_fingerprint,
                match runtime {
                    Some(resolved) => resolved.fingerprint@,
                    None => "legacy"@,
                },
            );
            &&& view.message.role == message::Role::User
            &&& view.message.content == seq![message::BlockView::Text { text: note }]
            &&& view.wire == "{\"role\":\"user\",\"content\":[{\"type\":\"text\",\"text\":"@
                + json::rendered(JsonView::Text(note)) + "}]}"@
        }),
{
}

/// The wire form of a baseline names all of its parts, the hash of the compaction profile where it
/// has one.
pub proof fn law_baseline_wires_name_every_part(baseline: BaselineView)
    ensures
        ({
            let members = baseline.members();
            let said = |name: Seq<char>, value: Seq<char>|
                members.contains(name + json::rendered(JsonView::Text(value)));
            &&& baseline.wire() == "{"@ + text::join(members, ","@) + "}"@
            &&& said("\"profile_fingerprint\":"@, baseline.profile_fingerprint)
            &&& said("\"model_slug\":"@, baseline.model_slug)
            &&& said("\"instructions_fingerprint\":"@, baseline.instructions_fingerprint)
            &&& said("\"project_context_fingerprint\":"@, baseline.project_context_fingerprint)
            &&& said("\"skills_fingerprint\":"@, baseline.skills_fingerprint)
            &&& said("\"tool_plan_fingerprint\":"@, baseline.tool_plan_fingerprint)
            &&& baseline.comp_hash matches Some(hash) ==> said("\"comp_hash\":"@, hash)
                && members.len() == 7
            &&& baseline.comp_hash is None ==> members.len() == 6
        }),
{
    let members = baseline.members();
    let k: int = if baseline.comp_hash is Some {
        3
    } else {
        2
    };
    assert(members[0] == member("\"profile_fingerprint\":"@, baseline.profile_fingerprint));
    assert(members[1] == member("\"model_slug\":"@, baseline.model_slug));
    if baseline.comp_hash is Some {
        assert(members[2] == member("\"comp_hash\":"@, baseline.comp_hash->0));
    }
    assert(members[k] == member("\"instructions_fingerprint\":"@, baseline.instructions_fingerprint));
    assert(members[k + 1] == member(
        "\"project_context_fingerprint\":"@,
        baseline.project_context_fingerprint,
    ));
    assert(members[k + 2] == member("\"skills_fingerprint\":"@, baseline.skills_fingerprint));
    assert(members[k + 3] == member("\"tool_plan_fingerprint\":"@, baseline.tool_plan_fingerprint));
}

/// A snapshot holds its prompt: the whole history, the parts of the context that fit, the limits
/// and both identities.
pub proof fn law_snapshots_hold_their_prompt(snapshot: PromptSnapshot, source: PromptSource, i: int)
    requires
        snapshot.captures(source),
    ensures
        snapshot.messages@.len() == source.messages.len(),
        0 <= i < source.messages.len() ==> snapshot.messages@[i]@ == source.messages[i].message,
        snapshot.context_messages@.len() == source.kept_context().kept.len(),
        0 <= i < source.kept_context().kept.len() ==> snapshot.context_messages@[i]@
            == source.kept_context().kept[i].encoded.message,
        snapshot.ephemeral_messages@.len() == source.kept_ephemeral().kept.len(),
        snapshot.model@ == source.model && snapshot.max_output_tokens == source.max_output_tokens
            && snapshot.reasoning_replay == source.reasoning_replay,
        text::opt_text(snapshot.system) == source.system,
        snapshot.fingerprint@ == source.identity() && snapshot.stable_prefix_fingerprint@
            == source.stable_prefix() && snapshot.baseline@ == source.baseline(),
        snapshot.diagnostics@.len() > 0 <==> source.kept_context().dropped > 0
            || source.kept_ephemeral().dropped > 0,
{
    let a = message::message_views(snapshot.messages@);
    let b = message::message_views(snapshot.context_messages@);
    let c = message::message_views(snapshot.ephemeral_messages@);
    assert(a.len() == snapshot.messages@.len());
    assert(b.len() == snapshot.context_messages@.len());
    assert(c.len() == snapshot.ephemeral_messages@.len());
    assert(text::texts(snapshot.diagnostics@).len() == snapshot.diagnostics@.len());
    if 0 <= i < source.messages.len() {
        assert(a[i] == snapshot.messages@[i]@);
    }
    if 0 <= i < source.kept_context().kept.len() {
        assert(b[i] == snapshot.context_messages@[i]@);
    }
}

/// A part of the context is of the kind that was given for it, where one was given for each; else
/// all of it is of the project.
pub proof fn law_parts_keep_their_kind(
    messages: Seq<EncodedView>,
    kinds: Seq<ContextFragmentKind>,
    i: int,
)
    requires
        0 <= i < messages.len(),
    ensures
        fragments(messages, kinds).len() == messages.len(),
        fragments(messages, kinds)[i].encoded == messages[i],
        kinds.len() == messages.len() ==> fragments(messages, kinds)[i].kind == kinds[i],
        kinds.len() != messages.len() ==> fragments(messages, kinds)[i].kind
            == ContextFragmentKind::Project,
        encoded_of(fragments(messages, kinds)) == messages,
{
    assert(encoded_of(fragments(messages, kinds)) =~= messages);
}

} // verus!
