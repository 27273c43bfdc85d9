//! Provider events that have no form of their own: bounded and sanitized.
use crate::json;
use crate::json::{Json, JsonMember, JsonNumber, JsonView};
use crate::redaction;
use crate::text;
use vstd::prelude::*;
use vstd::string::*;

verus! {

/// Largest payload, as the provider rendered it, that is let across the public boundary.
pub const MAX_PROVIDER_EXTENSION_BYTES: usize = 65536;

pub const MAX_PROVIDER_EXTENSION_TYPE_CHARS: usize = 128;

/// A bounded and sanitized provider event. Its fields are private, so that none is made but by
/// the functions below.
#[derive(Debug, PartialEq, Eq)]
pub struct ProviderExtension {
    event_type: String,
    payload: Json,
    original_bytes: u64,
    truncated: bool,
    redacted: bool,
}

/// What an extension is.
pub struct ExtensionView {
    pub event_type: Seq<char>,
    pub payload: JsonView,
    pub original_bytes: u64,
    pub truncated: bool,
    pub redacted: bool,
}

impl View for ProviderExtension {
    type V = ExtensionView;

    closed spec fn view(&self) -> ExtensionView {
        ExtensionView {
            event_type: self.event_type@,
            payload: self.payload@,
            original_bytes: self.original_bytes,
            truncated: self.truncated,
            redacted: self.redacted,
        }
    }
}

/// The first `max` characters of a text.
pub open spec fn clipped(s: Seq<char>, max: nat) -> Seq<char> {
    if s.len() <= max {
        s
    } else {
        s.take(max as int)
    }
}

/// The first `max` characters of a text.
pub fn clip(value: &str, max: usize) -> (short: String)
    ensures
        short@ == clipped(value@, max as nat),
{
    let chars = text::to_chars(value);
    let to: usize = if chars.len() <= max {
        chars.len()
    } else {
        max
    };
    let short = text::from_chars(&chars, 0, to);
    assert(short@ =~= clipped(value@, max as nat));
    short
}

/// What stands in place of a payload that is too large.
pub open spec fn omitted(original_bytes: u64) -> JsonView {
    JsonView::Object(
        seq![
            (
                "diagnostic"@,
                JsonView::Text(
                    "provider payload omitted after redaction because it exceeds the configured bound"@,
                ),
            ),
            ("original_bytes"@, JsonView::Number(JsonNumber::Unsigned(original_bytes))),
        ],
    )
}

/// The size of the rendered document in bytes.
pub open spec fn rendered_bytes(document: JsonView) -> nat {
    text::byte_len(json::rendered(document))
}

/// The extension made of an event: its type is clipped and scrubbed, its payload sanitized, and
/// omitted where the size that counts is over the bound.
pub open spec fn built(
    event_type: Seq<char>,
    payload: JsonView,
    already_redacted: bool,
    original_bytes: u64,
) -> ExtensionView {
    let kind = redaction::scrubbed(
        clipped(event_type, MAX_PROVIDER_EXTENSION_TYPE_CHARS as nat),
    );
    let truncated = original_bytes > MAX_PROVIDER_EXTENSION_BYTES;
    ExtensionView {
        event_type: kind.0,
        payload: if truncated {
            omitted(original_bytes)
        } else {
            redaction::clean_json(payload)
        },
        original_bytes,
        truncated,
        redacted: already_redacted || kind.1 || redaction::touches(payload),
    }
}

/// The extension restored from a stored one: the flags of the store can only add to what is
/// found again.
pub open spec fn restored(
    event_type: Seq<char>,
    payload: JsonView,
    original_bytes: u64,
    truncated: bool,
    redacted: bool,
) -> ExtensionView {
    let fresh = built(event_type, payload, false, rendered_bytes(payload) as u64);
    ExtensionView {
        event_type: fresh.event_type,
        payload: fresh.payload,
        original_bytes: if fresh.original_bytes >= original_bytes {
            fresh.original_bytes
        } else {
            original_bytes
        },
        truncated: fresh.truncated || truncated,
        redacted: fresh.redacted || redacted,
    }
}

fn rendered_size(document: &Json) -> (size: u64)
    ensures
        size == rendered_bytes(document@),
{
    let rendering = document.render();
    text::byte_len_of(rendering.as_str()) as u64
}

impl ProviderExtension {
    fn build(
        event_type: &str,
        payload: &Json,
        already_redacted: bool,
        original_bytes: u64,
    ) -> (extension: ProviderExtension)
        ensures
            extension@ == built(event_type@, payload@, already_redacted, original_bytes),
    {
        let short = clip(event_type, MAX_PROVIDER_EXTENSION_TYPE_CHARS);
        let (kind, type_redacted) = redaction::redact_string(short);
        let (clean, payload_redacted) = redaction::redact_json_value(payload);
        let redacted = already_redacted || type_redacted || payload_redacted;
        if original_bytes > MAX_PROVIDER_EXTENSION_BYTES as u64 {
            let diagnostic = JsonMember {
                name: "diagnostic".to_owned(),
                value: Json::text(
                    "provider payload omitted after redaction because it exceeds the configured bound",
                ),
            };
            let size = JsonMember {
                name: "original_bytes".to_owned(),
                value: Json::Number(JsonNumber::Unsigned(original_bytes)),
            };
            let ghost first = diagnostic;
            let ghost second = size;
            let members = vec![diagnostic, size];
            let payload = Json::Object(members);
            proof {
                assert(members@ =~= seq![first, second]);
                assert(members@[0] == first && members@[1] == second);
                assert(second.value@ == JsonView::Number(JsonNumber::Unsigned(original_bytes)));
                assert(payload@->Object_0 =~= omitted(original_bytes)->Object_0);
            }
            ProviderExtension {
                event_type: kind,
                payload,
                original_bytes,
                truncated: true,
                redacted,
            }
        } else {
            ProviderExtension {
                event_type: kind,
                payload: clean,
                original_bytes,
                truncated: false,
                redacted,
            }
        }
    }

    pub fn from_value(event_type: &str, payload: &Json) -> (extension: ProviderExtension)
        ensures
            rendered_bytes(payload@) <= u64::MAX,
            extension@ == built(event_type@, payload@, false, rendered_bytes(payload@) as u64),
    {
        ProviderExtension::from_value_with_redaction(event_type, payload, false)
    }

    /// Builds an extension after the caller has removed what is sensitive by contract.
    pub fn from_value_with_redaction(event_type: &str, payload: &Json, already_redacted: bool) -> (
    extension: ProviderExtension)
        ensures
            rendered_bytes(payload@) <= u64::MAX,
            extension@ == built(
                event_type@,
                payload@,
                already_redacted,
                rendered_bytes(payload@) as u64,
            ),
    {
        let size = rendered_size(payload);
        ProviderExtension::build(event_type, payload, already_redacted, size)
    }

    /// Builds an extension of a payload whose original was larger by what was removed.
    pub fn from_redacted_value(event_type: &str, payload: &Json, original_bytes: u64) -> (extension:
        ProviderExtension)
        ensures
            extension@ == built(event_type@, payload@, true, original_bytes),
    {
        ProviderExtension::build(event_type, payload, true, original_bytes)
    }

    /// Restores a stored extension. Nothing of the store is trusted: the payload is sanitized and
    /// bounded again.
    pub fn restore(
        event_type: &str,
        payload: &Json,
        original_bytes: u64,
        truncated: bool,
        redacted: bool,
    ) -> (extension: ProviderExtension)
        ensures
            rendered_bytes(payload@) <= u64::MAX,
            extension@ == restored(event_type@, payload@, original_bytes, truncated, redacted),
    {
        let mut extension = ProviderExtension::from_value(event_type, payload);
        if extension.original_bytes < original_bytes {
            extension.original_bytes = original_bytes;
        }
        extension.truncated = extension.truncated || truncated;
        extension.redacted = extension.redacted || redacted;
        extension
    }

    pub fn event_type(&self) -> (kind: &str)
        ensures
            kind@ == self@.event_type,
    {
        self.event_type.as_str()
    }

    pub fn payload(&self) -> (payload: &Json)
        ensures
            payload@ == self@.payload,
    {
        &self.payload
    }

    pub fn original_bytes(&self) -> (bytes: u64)
        ensures
            bytes == self@.original_bytes,
    {
        self.original_bytes
    }

    pub fn is_truncated(&self) -> (yes: bool)
        ensures
            yes == self@.truncated,
    {
        self.truncated
    }

    pub fn was_redacted(&self) -> (yes: bool)
        ensures
            yes == self@.redacted,
    {
        self.redacted
    }
}

impl Clone for ProviderExtension {
    fn clone(&self) -> (copy: Self)
        ensures
            copy@ == self@,
    {
        ProviderExtension {
            event_type: self.event_type.clone(),
            payload: self.payload.clone(),
            original_bytes: self.original_bytes,
            truncated: self.truncated,
            redacted: self.redacted,
        }
    }
}

/// The payload that an extension keeps is clean, whatever the provider or the store held, and an
/// extension that omits its payload says so.
pub proof fn law_extension_payload_is_clean(
    event_type: Seq<char>,
    payload: JsonView,
    already_redacted: bool,
    original_bytes: u64,
)
    ensures
        ({
            let extension = built(event_type, payload, already_redacted, original_bytes);
            &&& !extension.truncated ==> redaction::is_clean(extension.payload)
            &&& extension.truncated ==> extension.payload == omitted(original_bytes)
            &&& !redaction::scrubbed(extension.event_type).1
            &&& extension.event_type.len() <= MAX_PROVIDER_EXTENSION_TYPE_CHARS
        }),
{
    redaction::law_redacted_documents_are_clean(payload);
    redaction::lemma_replacements_are_kept();
    reveal_strlit("[REDACTED]");
    reveal_strlit("[REDACTED_SIGNED_URL]");
}

/// An event is kept whole unless it is too large: its payload as redaction leaves it, its size, and
/// whether anything was taken from it; of one that is too large the size alone.
pub proof fn law_extensions_tell_what_was_taken(
    event_type: Seq<char>,
    payload: JsonView,
    already_redacted: bool,
    original_bytes: u64,
)
    ensures
        ({
            let extension = built(event_type, payload, already_redacted, original_bytes);
            &&& extension.original_bytes == original_bytes
            &&& extension.truncated <==> original_bytes > MAX_PROVIDER_EXTENSION_BYTES
            &&& !extension.truncated ==> extension.payload == redaction::clean_json(payload)
            &&& extension.truncated ==> extension.payload.get("original_bytes"@) == Some(
                JsonView::Number(JsonNumber::Unsigned(original_bytes)),
            )
            &&& already_redacted ==> extension.redacted
            &&& redaction::touches(payload) ==> extension.redacted
            &&& !already_redacted && !redaction::touches(payload) && event_type.len()
                <= MAX_PROVIDER_EXTENSION_TYPE_CHARS && !redaction::scrubbed(event_type).1
                ==> !extension.redacted && extension.event_type == event_type
        }),
{
    reveal_strlit("diagnostic");
    reveal_strlit("original_bytes");
    assert("diagnostic"@.len() == 10 && "original_bytes"@.len() == 14);
    let members = omitted(original_bytes)->Object_0;
    assert(members.drop_first()[0] == members[1]);
    assert(json::lookup(members, "original_bytes"@) == json::lookup(
        members.drop_first(),
        "original_bytes"@,
    ));
}

/// What a store says can only add to what is found again: a size that was larger, a cut, a
/// replacement.
pub proof fn law_restored_extensions_admit_no_less(
    event_type: Seq<char>,
    payload: JsonView,
    original_bytes: u64,
    truncated: bool,
    redacted: bool,
)
    ensures
        ({
            let found = built(event_type, payload, false, rendered_bytes(payload) as u64);
            let extension = restored(event_type, payload, original_bytes, truncated, redacted);
            &&& extension.original_bytes >= original_bytes && extension.original_bytes
                >= found.original_bytes
            &&& extension.original_bytes == original_bytes || extension.original_bytes
                == found.original_bytes
            &&& extension.truncated <==> truncated || found.truncated
            &&& extension.redacted <==> redacted || found.redacted
            &&& extension.payload == found.payload && extension.event_type == found.event_type
        }),
{
}

/// A text is clipped to its first characters.
pub proof fn law_clipped_texts_are_starts(s: Seq<char>, max: nat)
    ensures
        clipped(s, max).is_prefix_of(s),
        clipped(s, max).len() <= max,
        s.len() <= max ==> clipped(s, max) == s,
        s.len() > max ==> clipped(s, max).len() == max,
{
}

} // verus!
