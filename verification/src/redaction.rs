//! The one policy for what provider-controlled text and JSON may cross the public boundary.
use crate::json;
use crate::json::{Json, JsonMember, JsonView};
use crate::text;
use vstd::prelude::*;
use vstd::string::*;

verus! {

pub const REDACTED: &'static str = "[REDACTED]";

pub const REDACTED_SIGNED_URL: &'static str = "[REDACTED_SIGNED_URL]";

/// A key in lower case with underscores in place of dashes.
pub open spec fn normal_key(key: Seq<char>) -> Seq<char> {
    text::ascii_lower(key).map_values(
        |c: char|
            if c == '-' {
                '_'
            } else {
                c
            },
    )
}

/// A name that by convention carries a credential, a secret or an account. Counters such as
/// `input_tokens` are none.
pub open spec fn sensitive(name: Seq<char>) -> bool {
    let key = normal_key(name);
    ||| key == "authorization"@
    ||| text::contains_text(key, "credential"@)
    ||| text::contains_text(key, "password"@)
    ||| text::contains_text(key, "secret"@)
    ||| key == "token"@
    ||| text::has_suffix(key, "_token"@)
    ||| text::contains_text(key, "access_token"@)
    ||| text::contains_text(key, "refresh_token"@)
    ||| text::contains_text(key, "id_token"@)
    ||| text::contains_text(key, "session_token"@)
    ||| key == "api_key"@
    ||| key == "apikey"@
    ||| text::has_suffix(key, "_api_key"@)
    ||| key == "cookie"@
    ||| text::has_suffix(key, "_cookie"@)
    ||| text::contains_text(key, "account_id"@)
}

fn normal_key_of(key: &str) -> (normal: String)
    ensures
        normal@ == normal_key(key@),
{
    let lower = text::lower_chars(key);
    let mut normal = String::new();
    let mut i: usize = 0;
    while i < lower.len()
        invariant
            i <= lower.len(),
            lower@ == text::ascii_lower(key@),
            normal@ == normal_key(key@).take(i as int),
        decreases lower.len() - i,
    {
        let c: char = if lower[i] == '-' {
            '_'
        } else {
            lower[i]
        };
        normal.push(c);
        i += 1;
        assert(normal@ =~= normal_key(key@).take(i as int));
    }
    assert(normal_key(key@).take(i as int) =~= normal_key(key@));
    normal
}

/// Whether a field name by convention carries a credential, a secret or an account.
pub fn is_sensitive_key(key: &str) -> (yes: bool)
    ensures
        yes == sensitive(key@),
{
    let normal = normal_key_of(key);
    let key = normal.as_str();
    let chars = text::to_chars(key);
    text::same_text(key, "authorization") || text::contains_chars(&chars, "credential")
        || text::contains_chars(&chars, "password") || text::contains_chars(&chars, "secret")
        || text::same_text(key, "token") || text::chars_end_with(&chars, "_token")
        || text::contains_chars(&chars, "access_token") || text::contains_chars(
        &chars,
        "refresh_token",
    ) || text::contains_chars(&chars, "id_token") || text::contains_chars(&chars, "session_token")
        || text::same_text(key, "api_key") || text::same_text(key, "apikey")
        || text::chars_end_with(&chars, "_api_key") || text::same_text(key, "cookie")
        || text::chars_end_with(&chars, "_cookie") || text::contains_chars(&chars, "account_id")
}

/// Whether a URL begins at this index of a lower-case text.
pub open spec fn begins_url(lower: Seq<char>, at: int) -> bool {
    text::found_at(lower, "http://"@, at) || text::found_at(lower, "https://"@, at)
}

/// Whether a URL has a query parameter of this name.
pub open spec fn has_parameter(url: Seq<char>, name: Seq<char>) -> bool {
    text::contains_text(url, seq!['?'] + name + seq!['=']) || text::contains_text(
        url,
        seq!['&'] + name + seq!['='],
    )
}

/// Whether a URL has one of the query parameters that sign it.
pub open spec fn signed(url: Seq<char>) -> bool {
    ||| has_parameter(url, "x-amz-signature"@)
    ||| has_parameter(url, "x-amz-credential"@)
    ||| has_parameter(url, "x-goog-signature"@)
    ||| has_parameter(url, "x-goog-credential"@)
    ||| has_parameter(url, "signature"@)
    ||| has_parameter(url, "sig"@)
    ||| has_parameter(url, "token"@)
    ||| has_parameter(url, "se"@)
}

/// A text that holds a URL with a signed query parameter, wherever the URL begins.
pub open spec fn signed_url(value: Seq<char>) -> bool {
    let lower = text::ascii_lower(value);
    exists|at: int| #[trigger]
        begins_url(lower, at) && signed(lower.subrange(at, lower.len() as int))
}

proof fn lemma_parameter_within(
    before: Seq<char>,
    url: Seq<char>,
    after: Seq<char>,
    name: Seq<char>,
)
    requires
        has_parameter(url, name),
    ensures
        has_parameter(before + url + after, name),
{
    let whole = before + url + after;
    let first = seq!['?'] + name + seq!['='];
    let next = seq!['&'] + name + seq!['='];
    let part = if text::contains_text(url, first) {
        first
    } else {
        next
    };
    let k = choose|k: int| text::found_at(url, part, k);
    let at = before.len() + k;
    assert(whole.subrange(at, at + part.len()) =~= url.subrange(k, k + part.len()));
    assert(text::found_at(whole, part, at));
}

/// What signs a URL signs it among other text.
proof fn lemma_signed_within(before: Seq<char>, url: Seq<char>, after: Seq<char>)
    requires
        signed(url),
    ensures
        signed(before + url + after),
{
    if has_parameter(url, "x-amz-signature"@) {
        lemma_parameter_within(before, url, after, "x-amz-signature"@);
    } else if has_parameter(url, "x-amz-credential"@) {
        lemma_parameter_within(before, url, after, "x-amz-credential"@);
    } else if has_parameter(url, "x-goog-signature"@) {
        lemma_parameter_within(before, url, after, "x-goog-signature"@);
    } else if has_parameter(url, "x-goog-credential"@) {
        lemma_parameter_within(before, url, after, "x-goog-credential"@);
    } else if has_parameter(url, "signature"@) {
        lemma_parameter_within(before, url, after, "signature"@);
    } else if has_parameter(url, "sig"@) {
        lemma_parameter_within(before, url, after, "sig"@);
    } else if has_parameter(url, "token"@) {
        lemma_parameter_within(before, url, after, "token"@);
    } else {
        lemma_parameter_within(before, url, after, "se"@);
    }
}

fn url_has_parameter(url: &Vec<char>, name: &str) -> (yes: bool)
    ensures
        yes == has_parameter(url@, name@),
{
    let mut first = String::new();
    first.push('?');
    first.append(name);
    first.push('=');
    let mut next = String::new();
    next.push('&');
    next.append(name);
    next.push('=');
    assert(first@ =~= seq!['?'] + name@ + seq!['=']);
    assert(next@ =~= seq!['&'] + name@ + seq!['=']);
    text::contains_chars(url, first.as_str()) || text::contains_chars(url, next.as_str())
}

/// Where the first URL of a lower-case text begins.
fn first_url(lower: &Vec<char>) -> (found: Option<usize>)
    ensures
        match found {
            Some(at) => begins_url(lower@, at as int) && forall|k: int|
                begins_url(lower@, k) ==> at <= k,
            None => forall|k: int| !begins_url(lower@, k),
        },
{
    let open = text::to_chars("http://");
    let secure = text::to_chars("https://");
    let first = text::find_part(lower, &open, 0);
    let second = text::find_part(lower, &secure, 0);
    match (first, second) {
        (Some(a), Some(b)) => Some(if a < b {
            a
        } else {
            b
        }),
        (Some(a), None) => Some(a),
        (None, other) => other,
    }
}

fn is_signed(url: &Vec<char>) -> (yes: bool)
    ensures
        yes == signed(url@),
{
    url_has_parameter(url, "x-amz-signature") || url_has_parameter(url, "x-amz-credential")
        || url_has_parameter(url, "x-goog-signature") || url_has_parameter(
        url,
        "x-goog-credential",
    ) || url_has_parameter(url, "signature") || url_has_parameter(url, "sig") || url_has_parameter(
        url,
        "token",
    ) || url_has_parameter(url, "se")
}

/// Whether a text holds a URL with a signed query parameter. Such a URL is a credential even
/// where its host is public.
pub fn looks_like_signed_url(value: &str) -> (yes: bool)
    ensures
        yes == signed_url(value@),
{
    let lower = text::lower_chars(value);
    match first_url(&lower) {
        Some(at) => {
            let rest = text::from_chars(&lower, at, lower.len());
            let url = text::to_chars(rest.as_str());
            let yes = is_signed(&url);
            proof {
                let whole = lower@;
                if signed_url(value@) {
                    let k = choose|k: int| #[trigger]
                        begins_url(whole, k) && signed(whole.subrange(k, whole.len() as int));
                    let between = whole.subrange(at as int, k);
                    let later = whole.subrange(k, whole.len() as int);
                    lemma_signed_within(between, later, seq![]);
                    assert(between + later + seq![] =~= url@);
                }
            }
            yes
        },
        None => false,
    }
}

/// A text in which a lower-case marker announces a credential.
pub open spec fn has_marker(lower: Seq<char>) -> bool {
    ||| text::contains_text(lower, "bearer "@)
    ||| text::contains_text(lower, "authorization:"@)
    ||| text::contains_text(lower, "access_token="@)
    ||| text::contains_text(lower, "refresh_token="@)
    ||| text::contains_text(lower, "id_token="@)
    ||| text::contains_text(lower, "session_token="@)
    ||| text::contains_text(lower, "api_key="@)
    ||| text::contains_text(lower, "apikey="@)
    ||| text::contains_text(lower, "account_id="@)
    ||| text::contains_text(lower, "chatgpt-account-id="@)
    ||| text::contains_text(lower, "credential="@)
    ||| text::contains_text(lower, "password="@)
    ||| text::contains_text(lower, "secret="@)
}

/// A text with the shape of a token.
pub open spec fn token_shape(value: Seq<char>) -> bool {
    let trimmed = text::trim(value);
    ||| text::has_prefix(trimmed, "sk-"@)
    ||| text::has_prefix(trimmed, "eyJ"@) && text::count_char(trimmed, '.') >= 2
}

/// A text that carries credential syntax.
pub open spec fn credential(value: Seq<char>) -> bool {
    has_marker(text::ascii_lower(value)) || token_shape(value)
}

/// What crosses the boundary in place of a text, and whether it was replaced.
pub open spec fn scrubbed(value: Seq<char>) -> (Seq<char>, bool) {
    if signed_url(value) {
        (REDACTED_SIGNED_URL@, true)
    } else if credential(value) {
        (REDACTED@, true)
    } else {
        (value, false)
    }
}

fn holds_marker(lower: &Vec<char>) -> (yes: bool)
    ensures
        yes == has_marker(lower@),
{
    text::contains_chars(lower, "bearer ") || text::contains_chars(lower, "authorization:")
        || text::contains_chars(lower, "access_token=") || text::contains_chars(
        lower,
        "refresh_token=",
    ) || text::contains_chars(lower, "id_token=") || text::contains_chars(lower, "session_token=")
        || text::contains_chars(lower, "api_key=") || text::contains_chars(lower, "apikey=")
        || text::contains_chars(lower, "account_id=") || text::contains_chars(
        lower,
        "chatgpt-account-id=",
    ) || text::contains_chars(lower, "credential=") || text::contains_chars(lower, "password=")
        || text::contains_chars(lower, "secret=")
}

/// Replaces a text that carries credential syntax as a whole: a part of it might keep a token of
/// an unknown form.
pub fn redact_string(value: String) -> (kept: (String, bool))
    ensures
        (kept.0@, kept.1) == scrubbed(value@),
{
    if looks_like_signed_url(value.as_str()) {
        return (REDACTED_SIGNED_URL.to_owned(), true);
    }
    let lower = text::lower_chars(value.as_str());
    let trimmed = text::trim_of(value.as_str());
    if holds_marker(&lower) || text::starts_with(trimmed.as_str(), "sk-") || (text::starts_with(
        trimmed.as_str(),
        "eyJ",
    ) && text::count_of(trimmed.as_str(), '.') >= 2) {
        return (REDACTED.to_owned(), true);
    }
    (value, false)
}

/// What crosses the boundary in place of a document.
pub open spec fn clean_json(document: JsonView) -> JsonView
    decreases document,
{
    match document {
        JsonView::Object(members) => JsonView::Object(
            Seq::new(
                members.len(),
                |i: int|
                    if 0 <= i < members.len() {
                        (
                            members[i].0,
                            if sensitive(members[i].0) {
                                JsonView::Text(REDACTED@)
                            } else {
                                clean_json(members[i].1)
                            },
                        )
                    } else {
                        (Seq::empty(), JsonView::Null)
                    },
            ),
        ),
        JsonView::Array(items) => JsonView::Array(
            Seq::new(
                items.len(),
                |i: int|
                    if 0 <= i < items.len() {
                        clean_json(items[i])
                    } else {
                        JsonView::Null
                    },
            ),
        ),
        JsonView::Text(value) => JsonView::Text(scrubbed(value).0),
        other => other,
    }
}

/// Whether anything of a document is replaced.
pub open spec fn touches(document: JsonView) -> bool
    decreases document,
{
    match document {
        JsonView::Object(members) => exists|i: int|
            0 <= i < members.len() && (sensitive((#[trigger] members[i]).0) || touches(
                members[i].1,
            )),
        JsonView::Array(items) => exists|i: int|
            0 <= i < items.len() && touches(#[trigger] items[i]),
        JsonView::Text(value) => scrubbed(value).1,
        _ => false,
    }
}

/// Sanitizes a document at every depth and tells whether anything was replaced.
pub fn redact_json_value(value: &Json) -> (kept: (Json, bool))
    ensures
        kept.0@ == clean_json(value@),
        kept.1 == touches(value@),
    decreases value,
{
    match value {
        Json::Object(members) => {
            let ghost view = value@->Object_0;
            let mut kept: Vec<JsonMember> = Vec::new();
            let mut redacted = false;
            let mut i: usize = 0;
            while i < members.len()
                invariant
                    i <= members.len(),
                    *value == Json::Object(*members),
                    view.len() == members@.len(),
                    forall|k: int|
                        0 <= k < members@.len() ==> #[trigger] view[k] == (
                            members@[k].name@,
                            members@[k].value@,
                        ),
                    kept.len() == i,
                    forall|k: int|
                        0 <= k < i ==> (#[trigger] kept@[k]).name@ == view[k].0 && kept@[k].value@
                            == if sensitive(view[k].0) {
                            JsonView::Text(REDACTED@)
                        } else {
                            clean_json(view[k].1)
                        },
                    redacted == exists|k: int|
                        0 <= k < i && (sensitive((#[trigger] view[k]).0) || touches(view[k].1)),
                decreases members.len() - i,
            {
                let member = &members[i];
                proof {
                    json::lemma_inside(*value, i as int);
                }
                assert(view[i as int] == (member.name@, member.value@));
                if is_sensitive_key(member.name.as_str()) {
                    redacted = true;
                    kept.push(JsonMember { name: member.name.clone(), value: Json::text(REDACTED) });
                } else {
                    let (inner, touched) = redact_json_value(&member.value);
                    redacted = redacted || touched;
                    kept.push(JsonMember { name: member.name.clone(), value: inner });
                }
                i += 1;
            }
            let document = Json::Object(kept);
            proof {
                assert(document@->Object_0 =~= clean_json(value@)->Object_0);
                let whole = value@;
                assert(whole->Object_0 == view);
                assert(redacted == touches(whole));
            }
            (document, redacted)
        },
        Json::Array(items) => {
            let ghost view = value@->Array_0;
            let mut kept: Vec<Json> = Vec::new();
            let mut redacted = false;
            let mut i: usize = 0;
            while i < items.len()
                invariant
                    i <= items.len(),
                    *value == Json::Array(*items),
                    view.len() == items@.len(),
                    forall|k: int| 0 <= k < items@.len() ==> #[trigger] view[k] == items@[k]@,
                    kept.len() == i,
                    forall|k: int| 0 <= k < i ==> (#[trigger] kept@[k])@ == clean_json(view[k]),
                    redacted == exists|k: int| 0 <= k < i && touches(#[trigger] view[k]),
                decreases items.len() - i,
            {
                proof {
                    json::lemma_inside(*value, i as int);
                }
                assert(view[i as int] == items@[i as int]@);
                let (inner, touched) = redact_json_value(&items[i]);
                redacted = redacted || touched;
                kept.push(inner);
                i += 1;
            }
            let document = Json::Array(kept);
            proof {
                assert(document@->Array_0 =~= clean_json(value@)->Array_0);
                let whole = value@;
                assert(whole->Array_0 == view);
                assert(redacted == touches(whole));
            }
            (document, redacted)
        },
        Json::Text(content) => {
            let (kept, redacted) = redact_string(content.clone());
            (Json::Text(kept), redacted)
        },
        Json::Null => (Json::Null, false),
        Json::Bool(b) => (Json::Bool(*b), false),
        Json::Number(n) => (Json::Number(n.clone()), false),
    }
}

// ---------------------------------------------------------------- error text

/// The index of the first character at or after `from` that ends a value, or the length.
pub open spec fn value_end(s: Seq<char>, from: int, stops: Seq<char>) -> int
    decreases s.len() - from,
{
    if from < 0 || from >= s.len() || text::is_space(s[from]) || stops.contains(s[from]) {
        from
    } else {
        value_end(s, from + 1, stops)
    }
}

/// The text with every value that follows `marker` replaced. `marker` is in lower case and is
/// looked for whatever the case of the text; in its place stands `label`, or the marker as it was
/// written where there is no label.
pub open spec fn without_values(
    s: Seq<char>,
    marker: Seq<char>,
    label: Option<Seq<char>>,
    stops: Seq<char>,
) -> Seq<char>
    decreases s.len(),
{
    match text::index_of(text::ascii_lower(s), marker, 0) {
        Some(at) => if 0 <= at && marker.len() > 0 && at + marker.len() <= s.len() && at
            + marker.len() <= value_end(s, at + marker.len(), stops) <= s.len() {
            s.subrange(0, at) + (match label {
                Some(name) => name,
                None => s.subrange(at, at + marker.len()),
            }) + REDACTED@ + without_values(
                s.subrange(value_end(s, at + marker.len(), stops), s.len() as int),
                marker,
                label,
                stops,
            )
        } else {
            s
        },
        None => s,
    }
}

/// Characters that end the token after `bearer`.
pub open spec fn bearer_stops() -> Seq<char> {
    seq!['"', '\'', ',', ';', '}', ']']
}

/// Characters that end the value of an assignment.
pub open spec fn assignment_stops() -> Seq<char> {
    seq!['&', '"', '\'', ',', ';']
}

pub open spec fn without_bearer(s: Seq<char>) -> Seq<char> {
    without_values(s, "bearer "@, Some("Bearer "@), bearer_stops())
}

pub open spec fn without_assignment(s: Seq<char>, key: Seq<char>) -> Seq<char> {
    without_values(s, text::ascii_lower(key).push('='), None, assignment_stops())
}

/// The names whose assigned values are removed from a text, in the order in which they are.
pub open spec fn assigned_names() -> Seq<Seq<char>> {
    seq![
        "access_token"@,
        "refresh_token"@,
        "id_token"@,
        "session_token"@,
        "authorization"@,
        "chatgpt-account-id"@,
        "chatgpt_account_id"@,
        "account_id"@,
        "api_key"@,
        "apikey"@,
        "x-api-key"@,
        "cookie"@,
        "set-cookie"@,
        "credential"@,
        "password"@,
        "secret"@,
    ]
}

/// The text without the assigned values of `names`, removed one name after the other.
pub open spec fn without_assignments(s: Seq<char>, names: Seq<Seq<char>>) -> Seq<char>
    decreases names.len(),
{
    if names.len() == 0 {
        s
    } else {
        without_assignment(without_assignments(s, names.drop_last()), names.last())
    }
}

/// What crosses the boundary in place of an error text.
pub open spec fn clean_text(s: Seq<char>) -> Seq<char> {
    if signed_url(s) {
        REDACTED_SIGNED_URL@
    } else {
        without_assignments(without_bearer(s), assigned_names())
    }
}

proof fn lemma_value_end(s: Seq<char>, from: int, stops: Seq<char>)
    requires
        0 <= from <= s.len(),
    ensures
        from <= value_end(s, from, stops) <= s.len(),
    decreases s.len() - from,
{
    if from < s.len() && !text::is_space(s[from]) && !stops.contains(s[from]) {
        lemma_value_end(s, from + 1, stops);
    }
}

fn find_value_end(chars: &Vec<char>, from: usize, stops: &Vec<char>) -> (end: usize)
    requires
        from <= chars.len(),
    ensures
        end == value_end(chars@, from as int, stops@),
        from <= end <= chars.len(),
{
    let mut i: usize = from;
    while i < chars.len()
        invariant
            from <= i <= chars.len(),
            value_end(chars@, from as int, stops@) == value_end(chars@, i as int, stops@),
        decreases chars.len() - i,
    {
        if text::is_space_char(chars[i]) || holds_char(stops, chars[i]) {
            return i;
        }
        i += 1;
    }
    i
}

fn holds_char(list: &Vec<char>, c: char) -> (found: bool)
    ensures
        found == list@.contains(c),
{
    let mut i: usize = 0;
    while i < list.len()
        invariant
            i <= list.len(),
            forall|k: int| 0 <= k < i ==> list@[k] != c,
        decreases list.len() - i,
    {
        if list[i] == c {
            return true;
        }
        i += 1;
    }
    false
}

/// The text with every value that follows `marker` replaced.
fn remove_values(input: &str, marker: &Vec<char>, label: Option<&str>, stops: &Vec<char>) -> (text:
    String)
    requires
        marker@.len() > 0,
    ensures
        text@ == without_values(
            input@,
            marker@,
            match label {
                Some(name) => Some(name@),
                None => None,
            },
            stops@,
        ),
{
    let ghost label_text = match label {
        Some(name) => Some(name@),
        None => None,
    };
    let mut out = String::new();
    let mut rest = text::to_chars(input);
    assert(out@ + without_values(rest@, marker@, label_text, stops@) =~= without_values(
        input@,
        marker@,
        label_text,
        stops@,
    ));
    loop
        invariant
            marker@.len() > 0,
            label_text == (match label {
                Some(name) => Some(name@),
                None => None,
            }),
            out@ + without_values(rest@, marker@, label_text, stops@) == without_values(
                input@,
                marker@,
                label_text,
                stops@,
            ),
        decreases rest.len(),
    {
        let whole = text::from_chars(&rest, 0, rest.len());
        assert(whole@ =~= rest@);
        let lower = text::lower_chars(whole.as_str());
        match text::find_text(&lower, marker, 0) {
            Some(at) => {
                proof {
                    text::lemma_index_of(lower@, marker@, 0);
                    lemma_value_end(rest@, at + marker@.len(), stops@);
                }
                let value_start: usize = at + marker.len();
                let end = find_value_end(&rest, value_start, stops);
                let ghost before = out@;
                let head = text::from_chars(&rest, 0, at);
                out.append(head.as_str());
                match label {
                    Some(name) => {
                        out.append(name);
                    },
                    None => {
                        let written = text::from_chars(&rest, at, value_start);
                        out.append(written.as_str());
                    },
                }
                out.append(REDACTED);
                let tail = text::from_chars(&rest, end, rest.len());
                let ghost replaced = (match label_text {
                    Some(name) => name,
                    None => rest@.subrange(at as int, at + marker@.len()),
                });
                proof {
                    assert(without_values(rest@, marker@, label_text, stops@) == rest@.subrange(
                        0,
                        at as int,
                    ) + replaced + REDACTED@ + without_values(
                        tail@,
                        marker@,
                        label_text,
                        stops@,
                    ));
                    assert(before + (rest@.subrange(0, at as int) + replaced + REDACTED@
                        + without_values(tail@, marker@, label_text, stops@)) =~= out@
                        + without_values(tail@, marker@, label_text, stops@));
                }
                rest = text::to_chars(tail.as_str());
            },
            None => {
                out.append(whole.as_str());
                return out;
            },
        }
    }
}

fn redact_bearer_tokens(input: &str) -> (text: String)
    ensures
        text@ == without_bearer(input@),
{
    let marker = text::to_chars("bearer ");
    proof {
        reveal_strlit("bearer ");
    }
    let stops: Vec<char> = vec!['"', '\'', ',', ';', '}', ']'];
    assert(stops@ =~= bearer_stops());
    remove_values(input, &marker, Some("Bearer "), &stops)
}

fn redact_assignment(input: &str, key: &str) -> (text: String)
    ensures
        text@ == without_assignment(input@, key@),
{
    let mut marker = text::lower_chars(key);
    marker.push('=');
    let stops: Vec<char> = vec!['&', '"', '\'', ',', ';'];
    assert(stops@ =~= assignment_stops());
    remove_values(input, &marker, None, &stops)
}

/// Sanitizes an error text and keeps what is not sensitive of it.
pub fn redact_text(input: &str) -> (text: String)
    ensures
        text@ == clean_text(input@),
{
    if looks_like_signed_url(input) {
        return REDACTED_SIGNED_URL.to_owned();
    }
    let names: Vec<&str> = vec![
        "access_token",
        "refresh_token",
        "id_token",
        "session_token",
        "authorization",
        "chatgpt-account-id",
        "chatgpt_account_id",
        "account_id",
        "api_key",
        "apikey",
        "x-api-key",
        "cookie",
        "set-cookie",
        "credential",
        "password",
        "secret",
    ];
    let ghost views = names@.map_values(|name: &str| name@);
    assert(views =~= assigned_names());
    let mut cleaned = redact_bearer_tokens(input);
    let mut i: usize = 0;
    while i < names.len()
        invariant
            i <= names.len(),
            views == names@.map_values(|name: &str| name@),
            cleaned@ == without_assignments(without_bearer(input@), views.take(i as int)),
        decreases names.len() - i,
    {
        cleaned = redact_assignment(cleaned.as_str(), names[i]);
        i += 1;
        proof {
            assert(views.take(i as int).drop_last() =~= views.take(i - 1));
            assert(views.take(i as int).last() == names@[i - 1]@);
        }
    }
    assert(views.take(i as int) =~= views);
    cleaned
}

// ---------------------------------------------------------------- laws

/// A document in which nothing is left to remove: no credential syntax at any depth, and every
/// member with a sensitive name holds the replacement.
pub open spec fn is_clean(document: JsonView) -> bool
    decreases document,
{
    match document {
        JsonView::Object(members) => forall|i: int|
            0 <= i < members.len() ==> if sensitive((#[trigger] members[i]).0) {
                members[i].1 == JsonView::Text(REDACTED@)
            } else {
                is_clean(members[i].1)
            },
        JsonView::Array(items) => forall|i: int|
            0 <= i < items.len() ==> is_clean(#[trigger] items[i]),
        JsonView::Text(value) => !signed_url(value) && !credential(value),
        _ => true,
    }
}

proof fn lemma_trim_end_first(s: Seq<char>)
    requires
        s.len() > 0,
        !text::is_space(s[0]),
    ensures
        text::trim_end(s).len() > 0,
        text::trim_end(s)[0] == s[0],
    decreases s.len(),
{
    if text::is_space(s.last()) {
        assert(s.len() > 1);
        lemma_trim_end_first(s.drop_last());
    }
}

proof fn lemma_no_char_no_text(s: Seq<char>, part: Seq<char>, j: int)
    requires
        0 <= j < part.len(),
        !s.contains(part[j]),
    ensures
        !text::contains_text(s, part),
{
    if text::contains_text(s, part) {
        text::lemma_contains_char(s, part, j);
    }
}

proof fn lemma_bracketed_is_kept(s: Seq<char>)
    requires
        s.len() > 0,
        s[0] == '[',
        forall|i: int| 0 <= i < s.len() ==> #[trigger] s[i] != ' ' && s[i] != ':' && s[i] != '=',
    ensures
        !signed_url(s),
        !credential(s),
{
    let low = text::ascii_lower(s);
    assert forall|i: int| 0 <= i < low.len() implies #[trigger] low[i] != ' ' && low[i] != ':'
        && low[i] != '=' by {
        assert(low[i] == text::lower(s[i]));
    }
    reveal_strlit("https://");
    reveal_strlit("http://");
    lemma_no_char_no_text(low, "https://"@, 5);
    lemma_no_char_no_text(low, "http://"@, 4);
    reveal_strlit("bearer ");
    reveal_strlit("authorization:");
    reveal_strlit("access_token=");
    reveal_strlit("refresh_token=");
    reveal_strlit("id_token=");
    reveal_strlit("session_token=");
    reveal_strlit("api_key=");
    reveal_strlit("apikey=");
    reveal_strlit("account_id=");
    reveal_strlit("chatgpt-account-id=");
    reveal_strlit("credential=");
    reveal_strlit("password=");
    reveal_strlit("secret=");
    lemma_no_char_no_text(low, "bearer "@, 6);
    lemma_no_char_no_text(low, "authorization:"@, 13);
    lemma_no_char_no_text(low, "access_token="@, 12);
    lemma_no_char_no_text(low, "refresh_token="@, 13);
    lemma_no_char_no_text(low, "id_token="@, 8);
    lemma_no_char_no_text(low, "session_token="@, 13);
    lemma_no_char_no_text(low, "api_key="@, 7);
    lemma_no_char_no_text(low, "apikey="@, 6);
    lemma_no_char_no_text(low, "account_id="@, 10);
    lemma_no_char_no_text(low, "chatgpt-account-id="@, 18);
    lemma_no_char_no_text(low, "credential="@, 10);
    lemma_no_char_no_text(low, "password="@, 8);
    lemma_no_char_no_text(low, "secret="@, 6);
    lemma_trim_end_first(s);
    let trimmed = text::trim(s);
    assert(trimmed[0] == '[');
    reveal_strlit("sk-");
    reveal_strlit("eyJ");
    if text::has_prefix(trimmed, "sk-"@) {
        assert(trimmed.subrange(0, 3)[0] == trimmed[0]);
    }
    if text::has_prefix(trimmed, "eyJ"@) {
        assert(trimmed.subrange(0, 3)[0] == trimmed[0]);
    }
}

/// The replacements are themselves nothing to remove.
pub proof fn lemma_replacements_are_kept()
    ensures
        scrubbed(REDACTED@) == (REDACTED@, false),
        scrubbed(REDACTED_SIGNED_URL@) == (REDACTED_SIGNED_URL@, false),
{
    reveal_strlit("[REDACTED]");
    reveal_strlit("[REDACTED_SIGNED_URL]");
    lemma_bracketed_is_kept(REDACTED@);
    lemma_bracketed_is_kept(REDACTED_SIGNED_URL@);
}

/// What crosses the boundary is clean, whatever the provider sent.
pub proof fn law_redacted_documents_are_clean(document: JsonView)
    ensures
        is_clean(clean_json(document)),
    decreases document,
{
    lemma_replacements_are_kept();
    match document {
        JsonView::Object(members) => {
            let kept = clean_json(document)->Object_0;
            assert forall|i: int| 0 <= i < kept.len() implies if sensitive((#[trigger] kept[i]).0) {
                kept[i].1 == JsonView::Text(REDACTED@)
            } else {
                is_clean(kept[i].1)
            } by {
                if !sensitive(kept[i].0) {
                    law_redacted_documents_are_clean(members[i].1);
                }
            }
        },
        JsonView::Array(items) => {
            let kept = clean_json(document)->Array_0;
            assert forall|i: int| 0 <= i < kept.len() implies is_clean(#[trigger] kept[i]) by {
                law_redacted_documents_are_clean(items[i]);
            }
        },
        _ => {},
    }
}

/// A clean document passes unchanged.
pub proof fn lemma_clean_documents_pass(document: JsonView)
    requires
        is_clean(document),
    ensures
        clean_json(document) == document,
    decreases document,
{
    match document {
        JsonView::Object(members) => {
            let kept = clean_json(document)->Object_0;
            assert forall|i: int| 0 <= i < kept.len() implies kept[i] == members[i] by {
                if !sensitive(members[i].0) {
                    lemma_clean_documents_pass(members[i].1);
                }
                assert(kept[i].1 == members[i].1);
                assert(kept[i].0 == members[i].0);
            }
            assert(kept =~= members);
        },
        JsonView::Array(items) => {
            let kept = clean_json(document)->Array_0;
            assert forall|i: int| 0 <= i < kept.len() implies kept[i] == items[i] by {
                lemma_clean_documents_pass(items[i]);
            }
            assert(kept =~= items);
        },
        _ => {},
    }
}

/// No text around a signed URL hides it.
pub proof fn law_signed_urls_are_found_anywhere(
    before: Seq<char>,
    value: Seq<char>,
    after: Seq<char>,
)
    requires
        signed_url(value),
    ensures
        signed_url(before + value + after),
        scrubbed(before + value + after) == (REDACTED_SIGNED_URL@, true),
        clean_text(before + value + after) == REDACTED_SIGNED_URL@,
{
    let low = text::ascii_lower(value);
    let whole = before + value + after;
    let wide = text::ascii_lower(whole);
    let k = choose|k: int| #[trigger]
        begins_url(low, k) && signed(low.subrange(k, low.len() as int));
    let at = before.len() + k;
    assert(wide =~= text::ascii_lower(before) + low + text::ascii_lower(after));
    let url = low.subrange(k, low.len() as int);
    lemma_signed_within(seq![], url, text::ascii_lower(after));
    assert(wide.subrange(at, wide.len() as int) =~= seq![] + url + text::ascii_lower(after));
    let scheme = if text::found_at(low, "http://"@, k) {
        "http://"@
    } else {
        "https://"@
    };
    assert(wide.subrange(at, at + scheme.len()) =~= low.subrange(k, k + scheme.len()));
    assert(begins_url(wide, at));
}

/// Sanitizing a second time changes nothing.
pub proof fn law_redaction_is_idempotent(document: JsonView)
    ensures
        clean_json(clean_json(document)) == clean_json(document),
{
    law_redacted_documents_are_clean(document);
    lemma_clean_documents_pass(clean_json(document));
}

/// A text crosses the boundary as it is, or is replaced as a whole: it is where it announces a
/// credential in any case of its letters, has the shape of a token, or holds a signed URL.
pub proof fn law_texts_with_credentials_are_replaced(value: Seq<char>)
    ensures
        ({
            let low = text::ascii_lower(value);
            let says = |part: Seq<char>|
                exists|at: int|
                    0 <= at && at + part.len() <= low.len() && #[trigger] low.subrange(
                        at,
                        at + part.len(),
                    ) == part;
            let trimmed = text::trim(value);
            let announced = {
                ||| says("bearer "@)
            ||| says("authorization:"@)
            ||| says("access_token="@)
            ||| says("refresh_token="@)
            ||| says("id_token="@)
            ||| says("session_token="@)
            ||| says("api_key="@)
            ||| says("apikey="@)
            ||| says("account_id="@)
            ||| says("chatgpt-account-id="@)
            ||| says("credential="@)
            ||| says("password="@)
            ||| says("secret="@)
            };
            let shaped = "sk-"@.is_prefix_of(trimmed) || "eyJ"@.is_prefix_of(trimmed)
                && text::count_char(trimmed, '.') >= 2;
            &&& signed_url(value) ==> scrubbed(value) == (REDACTED_SIGNED_URL@, true)
            &&& !signed_url(value) && (announced || shaped) ==> scrubbed(value) == (REDACTED@, true)
            &&& !signed_url(value) && !announced && !shaped ==> scrubbed(value) == (value, false)
        }),
{
    let low = text::ascii_lower(value);
    let trimmed = text::trim(value);
    assert forall|part: Seq<char>|
        #[trigger] text::contains_text(low, part) <==> exists|at: int|
            0 <= at && at + part.len() <= low.len() && #[trigger] low.subrange(
                at,
                at + part.len(),
            ) == part by {
        if exists|at: int|
            0 <= at && at + part.len() <= low.len() && #[trigger] low.subrange(
                at,
                at + part.len(),
            ) == part {
            let at = choose|at: int|
                0 <= at && at + part.len() <= low.len() && #[trigger] low.subrange(
                    at,
                    at + part.len(),
                ) == part;
            assert(text::found_at(low, part, at));
        }
        if text::contains_text(low, part) {
            let at = choose|at: int| text::found_at(low, part, at);
            assert(low.subrange(at, at + part.len()) == part);
        }
    }
    if "sk-"@.is_prefix_of(trimmed) {
        assert(trimmed.subrange(0, "sk-"@.len() as int) =~= "sk-"@);
    }
    if "eyJ"@.is_prefix_of(trimmed) {
        assert(trimmed.subrange(0, "eyJ"@.len() as int) =~= "eyJ"@);
    }
}

/// A URL is signed by one of the parameters that sign it, in its query, whatever the case.
pub proof fn law_signed_urls_have_a_signing_parameter(url: Seq<char>, name: Seq<char>, value: Seq<char>)
    requires
        "http://"@.is_prefix_of(text::ascii_lower(url)) || "https://"@.is_prefix_of(
            text::ascii_lower(url),
        ),
        text::ascii_lower(name) == "x-amz-signature"@ || text::ascii_lower(name)
            == "x-amz-credential"@ || text::ascii_lower(name) == "x-goog-signature"@
            || text::ascii_lower(name) == "x-goog-credential"@ || text::ascii_lower(name)
            == "signature"@ || text::ascii_lower(name) == "sig"@ || text::ascii_lower(name)
            == "token"@ || text::ascii_lower(name) == "se"@,
    ensures
        signed_url(url + seq!['?'] + name + seq!['='] + value),
        signed_url(url + seq!['&'] + name + seq!['='] + value),
{
    let low = text::ascii_lower(url);
    let scheme = if "http://"@.is_prefix_of(low) {
        "http://"@
    } else {
        "https://"@
    };
    assert(low.subrange(0, scheme.len() as int) =~= scheme);
    lemma_signed_query(url, '?', name, value, scheme);
    lemma_signed_query(url, '&', name, value, scheme);
}

proof fn lemma_signed_query(
    url: Seq<char>,
    mark: char,
    name: Seq<char>,
    value: Seq<char>,
    scheme: Seq<char>,
)
    requires
        mark == '?' || mark == '&',
        scheme == "http://"@ || scheme == "https://"@,
        scheme.len() <= url.len(),
        text::ascii_lower(url).subrange(0, scheme.len() as int) == scheme,
        text::ascii_lower(name) == "x-amz-signature"@ || text::ascii_lower(name)
            == "x-amz-credential"@ || text::ascii_lower(name) == "x-goog-signature"@
            || text::ascii_lower(name) == "x-goog-credential"@ || text::ascii_lower(name)
            == "signature"@ || text::ascii_lower(name) == "sig"@ || text::ascii_lower(name)
            == "token"@ || text::ascii_lower(name) == "se"@,
    ensures
        signed_url(url + seq![mark] + name + seq!['='] + value),
{
    let whole = url + seq![mark] + name + seq!['='] + value;
    let low = text::ascii_lower(whole);
    let key = text::ascii_lower(name);
    let part = seq![mark] + key + seq!['='];
    let at = url.len() as int;
    assert(low.subrange(0, scheme.len() as int) =~= scheme);
    assert(text::found_at(low, scheme, 0));
    assert(begins_url(low, 0));
    assert(low.subrange(0, low.len() as int) =~= low);
    assert(low.subrange(at, at + part.len()) =~= part);
    assert(text::found_at(low, part, at));
    assert(text::contains_text(low, part));
    assert(has_parameter(low, key));
    assert(signed(low));
}

/// A document keeps its shape: the same members under the same names in the same order, the same
/// items, the same numbers; a member with a sensitive name loses its whole value, a text what
/// redaction takes of it.
pub proof fn law_redaction_keeps_the_shape(document: JsonView, i: int)
    ensures
        match document {
            JsonView::Object(members) => clean_json(document) is Object && clean_json(
                document,
            )->Object_0.len() == members.len() && (0 <= i < members.len() ==> {
                let kept = clean_json(document)->Object_0[i];
                &&& kept.0 == members[i].0
                &&& sensitive(members[i].0) ==> kept.1 == JsonView::Text(REDACTED@)
                &&& !sensitive(members[i].0) ==> kept.1 == clean_json(members[i].1)
            }),
            JsonView::Array(items) => clean_json(document) is Array && clean_json(
                document,
            )->Array_0.len() == items.len() && (0 <= i < items.len() ==> clean_json(
                document,
            )->Array_0[i] == clean_json(items[i])),
            JsonView::Text(value) => clean_json(document) == JsonView::Text(scrubbed(value).0),
            _ => clean_json(document) == document,
        },
{
}

/// A document that redaction says it did not touch is unchanged.
pub proof fn law_untouched_documents_are_unchanged(document: JsonView)
    requires
        !touches(document),
    ensures
        clean_json(document) == document,
    decreases document,
{
    match document {
        JsonView::Object(members) => {
            let kept = clean_json(document)->Object_0;
            assert forall|i: int| 0 <= i < members.len() implies kept[i] == members[i] by {
                assert(!sensitive(members[i].0) && !touches(members[i].1));
                law_untouched_documents_are_unchanged(members[i].1);
            }
            assert(kept =~= members);
        },
        JsonView::Array(items) => {
            let kept = clean_json(document)->Array_0;
            assert forall|i: int| 0 <= i < items.len() implies kept[i] == items[i] by {
                assert(!touches(items[i]));
                law_untouched_documents_are_unchanged(items[i]);
            }
            assert(kept =~= items);
        },
        _ => {},
    }
}

/// Which names are sensitive, whatever their case and whether they are written with dashes or
/// underscores: those of authorization, credentials, passwords and secrets, tokens, keys, cookies
/// and accounts.
pub proof fn law_sensitive_names(name: Seq<char>, before: Seq<char>, after: Seq<char>)
    ensures
        sensitive(name) <==> sensitive(normal_key(name)),
        normal_key(name) == "authorization"@ || normal_key(name) == "token"@ || normal_key(name)
            == "api_key"@ || normal_key(name) == "apikey"@ || normal_key(name) == "cookie"@
            ==> sensitive(name),
        normal_key(name) == before + "credential"@ + after || normal_key(name) == before
            + "password"@ + after || normal_key(name) == before + "secret"@ + after
            || normal_key(name) == before + "access_token"@ + after || normal_key(name) == before
            + "refresh_token"@ + after || normal_key(name) == before + "id_token"@ + after
            || normal_key(name) == before + "session_token"@ + after || normal_key(name) == before
            + "account_id"@ + after ==> sensitive(name),
        normal_key(name) == before + "_token"@ || normal_key(name) == before + "_api_key"@
            || normal_key(name) == before + "_cookie"@ ==> sensitive(name),
{
    let key = normal_key(name);
    assert(normal_key(key) =~= key);
    lemma_holds_part(key, before, "credential"@, after);
    lemma_holds_part(key, before, "password"@, after);
    lemma_holds_part(key, before, "secret"@, after);
    lemma_holds_part(key, before, "access_token"@, after);
    lemma_holds_part(key, before, "refresh_token"@, after);
    lemma_holds_part(key, before, "id_token"@, after);
    lemma_holds_part(key, before, "session_token"@, after);
    lemma_holds_part(key, before, "account_id"@, after);
    lemma_holds_end(key, before, "_token"@);
    lemma_holds_end(key, before, "_api_key"@);
    lemma_holds_end(key, before, "_cookie"@);
}

proof fn lemma_holds_part(key: Seq<char>, before: Seq<char>, part: Seq<char>, after: Seq<char>)
    ensures
        key == before + part + after ==> text::contains_text(key, part),
{
    if key == before + part + after {
        let at = before.len() as int;
        assert(key.subrange(at, at + part.len()) =~= part);
        assert(text::found_at(key, part, at));
    }
}

proof fn lemma_holds_end(key: Seq<char>, before: Seq<char>, part: Seq<char>)
    ensures
        key == before + part ==> text::has_suffix(key, part),
{
    if key == before + part {
        assert(key.subrange(key.len() - part.len(), key.len() as int) =~= part);
    }
}

proof fn lemma_value_end_at(s: Seq<char>, from: int, end: int, stops: Seq<char>)
    requires
        0 <= from <= end <= s.len(),
        forall|i: int|
            from <= i < end ==> !text::is_space(#[trigger] s[i]) && !stops.contains(s[i]),
        end < s.len() ==> text::is_space(s[end]) || stops.contains(s[end]),
    ensures
        value_end(s, from, stops) == end,
    decreases end - from,
{
    if from < end {
        assert(!text::is_space(s[from]) && !stops.contains(s[from]));
        lemma_value_end_at(s, from + 1, end, stops);
    }
}

proof fn lemma_value_is_removed(
    before: Seq<char>,
    written: Seq<char>,
    value: Seq<char>,
    rest: Seq<char>,
    marker: Seq<char>,
    label: Option<Seq<char>>,
    stops: Seq<char>,
)
    requires
        marker.len() > 0,
        text::ascii_lower(written) == marker,
        text::index_of(text::ascii_lower(before + written + value + rest), marker, 0) == Some(
            before.len() as int,
        ),
        forall|i: int|
            0 <= i < value.len() ==> !text::is_space(#[trigger] value[i]) && !stops.contains(
                value[i],
            ),
        rest.len() > 0 ==> text::is_space(rest[0]) || stops.contains(rest[0]),
    ensures
        without_values(before + written + value + rest, marker, label, stops) == before + (
        match label {
            Some(name) => name,
            None => written,
        }) + REDACTED@ + without_values(rest, marker, label, stops),
{
    let s = before + written + value + rest;
    let at = before.len() as int;
    let from = at + written.len();
    let end = from + value.len();
    assert(written.len() == marker.len());
    assert forall|i: int| from <= i < end implies !text::is_space(#[trigger] s[i])
        && !stops.contains(s[i]) by {
        assert(s[i] == value[i - from]);
    }
    if end < s.len() {
        assert(s[end] == rest[0]);
    }
    lemma_value_end_at(s, from, end, stops);
    assert(s.subrange(0, at) =~= before);
    assert(s.subrange(at, from) =~= written);
    assert(s.subrange(end, s.len() as int) =~= rest);
}

/// A bearer token in a text is replaced up to where it ends, at white space, a quote, a comma, a
/// semicolon or a closing bracket; what stands before it stays, and what follows is searched too.
pub proof fn law_bearer_tokens_are_removed(
    before: Seq<char>,
    written: Seq<char>,
    token: Seq<char>,
    rest: Seq<char>,
)
    requires
        text::ascii_lower(written) == "bearer "@,
        text::index_of(text::ascii_lower(before + written + token + rest), "bearer "@, 0) == Some(
            before.len() as int,
        ),
        forall|i: int|
            0 <= i < token.len() ==> !text::is_space(#[trigger] token[i]) && token[i] != '"'
                && token[i] != '\'' && token[i] != ',' && token[i] != ';' && token[i] != '}'
                && token[i] != ']',
        rest.len() > 0 ==> text::is_space(rest[0]) || rest[0] == '"' || rest[0] == '\'' || rest[0]
            == ',' || rest[0] == ';' || rest[0] == '}' || rest[0] == ']',
    ensures
        without_bearer(before + written + token + rest) == before + "Bearer "@ + REDACTED@
            + without_bearer(rest),
{
    reveal_strlit("bearer ");
    let stops = bearer_stops();
    assert(stops[0] == '"' && stops[1] == '\'' && stops[2] == ',' && stops[3] == ';' && stops[4]
        == '}' && stops[5] == ']');
    lemma_value_is_removed(
        before,
        written,
        token,
        rest,
        "bearer "@,
        Some("Bearer "@),
        stops,
    );
}

/// The value of an assignment in a text is replaced up to where it ends, at white space, an
/// ampersand, a quote, a comma or a semicolon; its name stays as it was written.
pub proof fn law_assigned_values_are_removed(
    before: Seq<char>,
    key: Seq<char>,
    written: Seq<char>,
    value: Seq<char>,
    rest: Seq<char>,
)
    requires
        text::ascii_lower(written) == text::ascii_lower(key) + seq!['='],
        text::index_of(
            text::ascii_lower(before + written + value + rest),
            text::ascii_lower(written),
            0,
        ) == Some(before.len() as int),
        forall|i: int|
            0 <= i < value.len() ==> !text::is_space(#[trigger] value[i]) && value[i] != '&'
                && value[i] != '"' && value[i] != '\'' && value[i] != ',' && value[i] != ';',
        rest.len() > 0 ==> text::is_space(rest[0]) || rest[0] == '&' || rest[0] == '"' || rest[0]
            == '\'' || rest[0] == ',' || rest[0] == ';',
    ensures
        without_assignment(before + written + value + rest, key) == before + written + REDACTED@
            + without_assignment(rest, key),
{
    let stops = assignment_stops();
    assert(stops[0] == '&' && stops[1] == '"' && stops[2] == '\'' && stops[3] == ',' && stops[4]
        == ';');
    let marker = text::ascii_lower(key).push('=');
    assert(marker =~= text::ascii_lower(written));
    lemma_value_is_removed(before, written, value, rest, marker, None, stops);
}

/// A text that neither announces a bearer token nor assigns to the name stays as it is.
pub proof fn law_other_text_stays(s: Seq<char>, key: Seq<char>)
    ensures
        !text::contains_text(text::ascii_lower(s), "bearer "@) ==> without_bearer(s) == s,
        !text::contains_text(text::ascii_lower(s), text::ascii_lower(key) + seq!['='])
            ==> without_assignment(s, key) == s,
{
    let low = text::ascii_lower(s);
    text::lemma_index_of(low, "bearer "@, 0);
    assert(text::ascii_lower(key).push('=') =~= text::ascii_lower(key) + seq!['=']);
    text::lemma_index_of(low, text::ascii_lower(key).push('='), 0);
}

/// An error text loses the tokens and then, name by name, the values assigned to every name that
/// carries a credential or an account; one with a signed URL is replaced as a whole.
pub proof fn law_error_texts_lose_every_credential(s: Seq<char>)
    ensures
        signed_url(s) ==> clean_text(s) == REDACTED_SIGNED_URL@,
        !signed_url(s) ==> clean_text(s) == without_assignments(without_bearer(s), assigned_names()),
        forall|names: Seq<Seq<char>>, name: Seq<char>, t: Seq<char>|
            #[trigger] without_assignments(t, names.push(name)) == without_assignment(
                without_assignments(t, names),
                name,
            ),
        assigned_names().contains("access_token"@) && assigned_names().contains("refresh_token"@)
            && assigned_names().contains("id_token"@) && assigned_names().contains(
            "session_token"@,
        ) && assigned_names().contains("authorization"@) && assigned_names().contains(
            "chatgpt-account-id"@,
        ) && assigned_names().contains("chatgpt_account_id"@) && assigned_names().contains(
            "account_id"@,
        ) && assigned_names().contains("api_key"@) && assigned_names().contains("apikey"@)
            && assigned_names().contains("x-api-key"@) && assigned_names().contains("cookie"@)
            && assigned_names().contains("set-cookie"@) && assigned_names().contains("credential"@)
            && assigned_names().contains("password"@) && assigned_names().contains("secret"@),
{
    assert forall|names: Seq<Seq<char>>, name: Seq<char>, t: Seq<char>|
        #[trigger] without_assignments(t, names.push(name)) == without_assignment(
            without_assignments(t, names),
            name,
        ) by {
        assert(names.push(name).drop_last() =~= names);
    }
    let names = assigned_names();
    assert(names[0] == "access_token"@);
    assert(names[1] == "refresh_token"@);
    assert(names[2] == "id_token"@);
    assert(names[3] == "session_token"@);
    assert(names[4] == "authorization"@);
    assert(names[5] == "chatgpt-account-id"@);
    assert(names[6] == "chatgpt_account_id"@);
    assert(names[7] == "account_id"@);
    assert(names[8] == "api_key"@);
    assert(names[9] == "apikey"@);
    assert(names[10] == "x-api-key"@);
    assert(names[11] == "cookie"@);
    assert(names[12] == "set-cookie"@);
    assert(names[13] == "credential"@);
    assert(names[14] == "password"@);
    assert(names[15] == "secret"@);
}

} // verus!
