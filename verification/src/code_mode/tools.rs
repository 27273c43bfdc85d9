//! The two tools that the model sees of code mode: `exec`, which takes source, and `wait`, which
//! takes a cell.
use crate::code_mode::protocol;
use crate::code_mode::protocol::{NestedTool, NestedView, DEFAULT_YIELD_TIME};
use crate::json;
use crate::json::{Json, JsonMember, JsonView};
use crate::message;
use crate::text;
use crate::tool_spec::{GrammarSyntax, KindView, SpecView, ToolGrammar, ToolKind, ToolSpec};
use vstd::prelude::*;
use vstd::string::*;

verus! {

pub const EXEC_TOOL_NAME: &'static str = "exec";

pub const WAIT_TOOL_NAME: &'static str = "wait";

/// How the first line of a source starts that sets the bounds of its run.
pub const EXEC_PRAGMA_PREFIX: &'static str = "// @exec:";

/// How many tokens one result of `exec` takes where nothing is said.
pub const DEFAULT_MAX_OUTPUT_TOKENS: usize = 10_000;

/// How many lines of a description the catalog shows.
pub const CATALOG_DESCRIPTION_LINES: usize = 4;

/// The grammar of a source, in Lark.
pub const EXEC_GRAMMAR: &'static str = "\nstart: pragma_source | plain_source\npragma_source: PRAGMA_LINE NEWLINE SOURCE\nplain_source: SOURCE\n\nPRAGMA_LINE: /[ \\t]*\\/\\/ @exec:[^\\r\\n]*/\nNEWLINE: /\\r?\\n/\nSOURCE: /[\\s\\S]+/\n";

/// What the first line of a source may set.
#[derive(Debug, Clone, Copy, PartialEq, Eq, Structural)]
pub struct ExecPragma {
    pub yield_time_ms: Option<u64>,
    pub max_output_tokens: Option<usize>,
}

impl ExecPragma {
    /// Nothing set.
    pub open spec fn nothing() -> ExecPragma {
        ExecPragma { yield_time_ms: None, max_output_tokens: None }
    }
}

impl Default for ExecPragma {
    fn default() -> (pragma: Self)
        ensures
            pragma == ExecPragma::nothing(),
    {
        ExecPragma { yield_time_ms: None, max_output_tokens: None }
    }
}

/// Why a source is refused before a cell is opened.
#[derive(Debug, Clone, PartialEq, Eq)]
pub enum ExecInputError {
    EmptySource,
    MalformedPragma { detail: String },
    InvalidPragmaField { field: &'static str },
}

/// What a refusal of a source is.
pub enum ExecFault {
    EmptySource,
    MalformedPragma { detail: Seq<char> },
    InvalidPragmaField { field: &'static str },
}

impl View for ExecInputError {
    type V = ExecFault;

    open spec fn view(&self) -> ExecFault {
        match self {
            ExecInputError::EmptySource => ExecFault::EmptySource,
            ExecInputError::MalformedPragma { detail } => ExecFault::MalformedPragma {
                detail: detail@,
            },
            ExecInputError::InvalidPragmaField { field } => ExecFault::InvalidPragmaField {
                field: *field,
            },
        }
    }
}

impl ExecFault {
    pub open spec fn text(self) -> Seq<char> {
        match self {
            ExecFault::EmptySource => "exec needs JavaScript source, not an empty input"@,
            ExecFault::MalformedPragma { detail } => "the `"@ + EXEC_PRAGMA_PREFIX@
                + "` pragma is not valid JSON: "@ + detail,
            ExecFault::InvalidPragmaField { field } => "the `"@ + EXEC_PRAGMA_PREFIX@
                + "` pragma field `"@ + field@ + "` is not a positive integer"@,
        }
    }
}

impl ExecInputError {
    /// The refusal in words.
    pub fn message(&self) -> (message: String)
        ensures
            message@ == self@.text(),
    {
        match self {
            ExecInputError::EmptySource => {
                "exec needs JavaScript source, not an empty input".to_owned()
            },
            ExecInputError::MalformedPragma { detail } => text::joined(
                "the `",
                EXEC_PRAGMA_PREFIX,
                "` pragma is not valid JSON: ",
                detail.as_str(),
            ),
            ExecInputError::InvalidPragmaField { field } => {
                let mut message = text::joined(
                    "the `",
                    EXEC_PRAGMA_PREFIX,
                    "` pragma field `",
                    field,
                );
                message.append("` is not a positive integer");
                message
            },
        }
    }
}

// ---------------------------------------------------------------- the source

/// A text without the byte order marks at its start.
pub open spec fn without_marks(s: Seq<char>) -> Seq<char>
    decreases s.len(),
{
    if s.len() > 0 && s[0] == '\u{feff}' {
        without_marks(s.drop_first())
    } else {
        s
    }
}

/// A text without any number of one prefix.
pub open spec fn without_prefix(s: Seq<char>, prefix: Seq<char>) -> Seq<char>
    decreases s.len(),
{
    if prefix.len() > 0 && text::has_prefix(s, prefix) {
        without_prefix(s.skip(prefix.len() as int), prefix)
    } else {
        s
    }
}

/// The first line of a text and what follows it.
pub open spec fn first_line(s: Seq<char>) -> (Seq<char>, Seq<char>) {
    match text::char_place(s, '\n', 0) {
        Some(at) => (s.subrange(0, at), s.subrange(at + 1, s.len() as int)),
        None => (s, seq![]),
    }
}

/// The line that sets bounds, if the first line does, and the source.
pub open spec fn exec_parts(input: Seq<char>) -> (Option<Seq<char>>, Seq<char>) {
    let trimmed = without_marks(input);
    let (first, rest) = first_line(trimmed);
    let line = text::trim_start(first);
    if text::has_prefix(line, EXEC_PRAGMA_PREFIX@) {
        (Some(line), rest)
    } else {
        (None, trimmed)
    }
}

/// A positive number in a field of an object; a missing field and null set nothing.
pub open spec fn positive(document: JsonView, field: Seq<char>) -> Result<Option<u64>, ()> {
    match document.get(field) {
        None => Ok(None),
        Some(JsonView::Null) => Ok(None),
        Some(value) => match value.as_u64() {
            Some(number) => if number > 0 {
                Ok(Some(number))
            } else {
                Err(())
            },
            None => Err(()),
        },
    }
}

/// What a document sets.
pub open spec fn document_pragma(document: JsonView) -> Result<ExecPragma, ExecFault> {
    if !(document is Object) {
        Err(ExecFault::MalformedPragma { detail: "expected a JSON object"@ })
    } else {
        match positive(document, "yield_time_ms"@) {
            Err(_) => Err(ExecFault::InvalidPragmaField { field: "yield_time_ms" }),
            Ok(yield_time_ms) => match positive(document, "max_output_tokens"@) {
                Err(_) => Err(ExecFault::InvalidPragmaField { field: "max_output_tokens" }),
                Ok(tokens) => Ok(
                    ExecPragma {
                        yield_time_ms,
                        max_output_tokens: match tokens {
                            Some(number) => Some(number as usize),
                            None => None,
                        },
                    },
                ),
            },
        }
    }
}

/// What a line sets.
pub open spec fn line_pragma(line: Seq<char>) -> Result<ExecPragma, ExecFault> {
    match json::parsed(text::trim(without_prefix(line, EXEC_PRAGMA_PREFIX@))) {
        Ok(document) => document_pragma(document),
        Err(detail) => Err(ExecFault::MalformedPragma { detail }),
    }
}

/// What a source sets, and what is to be run of it.
pub open spec fn exec_source(input: Seq<char>) -> Result<(ExecPragma, Seq<char>), ExecFault> {
    let (line, source) = exec_parts(input);
    let pragma = match line {
        Some(text) => line_pragma(text),
        None => Ok(ExecPragma::nothing()),
    };
    match pragma {
        Err(fault) => Err(fault),
        Ok(set) => if text::blank(source) {
            Err(ExecFault::EmptySource)
        } else {
            Ok((set, source))
        },
    }
}

/// Reads a positive number from a field.
fn read_positive(document: &Json, field: &'static str) -> (number: Result<
    Option<u64>,
    ExecInputError,
>)
    ensures
        match positive(document@, field@) {
            Ok(wanted) => number == Ok::<Option<u64>, ExecInputError>(wanted),
            Err(_) => number matches Err(e) && e@ == (ExecFault::InvalidPragmaField { field }),
        },
{
    match document.get(field) {
        None => Ok(None),
        Some(Json::Null) => Ok(None),
        Some(value) => match value.as_u64() {
            Some(number) => {
                if number > 0 {
                    Ok(Some(number))
                } else {
                    Err(ExecInputError::InvalidPragmaField { field })
                }
            },
            None => Err(ExecInputError::InvalidPragmaField { field }),
        },
    }
}

/// Reads what a document sets. What is wrong is refused, never passed over.
pub fn read_document(document: &Json) -> (pragma: Result<ExecPragma, ExecInputError>)
    ensures
        match document_pragma(document@) {
            Ok(set) => pragma == Ok::<ExecPragma, ExecInputError>(set),
            Err(fault) => pragma matches Err(e) && e@ == fault,
        },
{
    if !document.is_object() {
        return Err(
            ExecInputError::MalformedPragma { detail: "expected a JSON object".to_owned() },
        );
    }
    let yield_time_ms = match read_positive(document, "yield_time_ms") {
        Ok(number) => number,
        Err(error) => {
            return Err(error);
        },
    };
    let tokens = match read_positive(document, "max_output_tokens") {
        Ok(number) => number,
        Err(error) => {
            return Err(error);
        },
    };
    let max_output_tokens = match tokens {
        Some(number) => Some(number as usize),
        None => None,
    };
    Ok(ExecPragma { yield_time_ms, max_output_tokens })
}

/// Reads the line that sets bounds.
fn read_pragma(line: &str) -> (pragma: Result<ExecPragma, ExecInputError>)
    ensures
        match line_pragma(line@) {
            Ok(set) => pragma == Ok::<ExecPragma, ExecInputError>(set),
            Err(fault) => pragma matches Err(e) && e@ == fault,
        },
{
    let chars = text::to_chars(line);
    let prefix = text::to_chars(EXEC_PRAGMA_PREFIX);
    let mut from: usize = 0;
    proof {
        reveal_strlit("// @exec:");
        assert(chars@.skip(0) =~= line@);
    }
    while text::part_at(&chars, &prefix, from)
        invariant
            from <= chars.len(),
            prefix@ == EXEC_PRAGMA_PREFIX@,
            prefix@.len() > 0,
            chars@ == line@,
            without_prefix(line@, EXEC_PRAGMA_PREFIX@) == without_prefix(
                chars@.skip(from as int),
                EXEC_PRAGMA_PREFIX@,
            ),
        decreases chars.len() - from,
    {
        proof {
            let rest = chars@.skip(from as int);
            assert(rest.subrange(0, prefix@.len() as int) =~= chars@.subrange(
                from as int,
                from + prefix@.len(),
            ));
            assert(rest.skip(prefix@.len() as int) =~= chars@.skip(from + prefix@.len()));
        }
        from = from + prefix.len();
    }
    let payload = text::from_chars(&chars, from, chars.len());
    proof {
        let rest = chars@.skip(from as int);
        assert(payload@ =~= rest);
        if text::has_prefix(rest, prefix@) {
            assert(chars@.subrange(from as int, from + prefix@.len()) =~= rest.subrange(
                0,
                prefix@.len() as int,
            ));
        }
    }
    let trimmed = text::trim_of(payload.as_str());
    match Json::parse(trimmed.as_str()) {
        Ok(document) => read_document(&document),
        Err(detail) => Err(ExecInputError::MalformedPragma { detail }),
    }
}

/// Splits an input of `exec` into what its first line sets and the source to run.
pub fn parse_exec_source(input: &str) -> (parsed: Result<(ExecPragma, String), ExecInputError>)
    ensures
        match exec_source(input@) {
            Ok(wanted) => parsed matches Ok(read) && read.0 == wanted.0 && read.1@ == wanted.1,
            Err(fault) => parsed matches Err(e) && e@ == fault,
        },
{
    let chars = text::to_chars(input);
    let mut from: usize = 0;
    assert(chars@.skip(0) =~= input@);
    while from < chars.len() && chars[from] == '\u{feff}'
        invariant
            from <= chars.len(),
            chars@ == input@,
            without_marks(input@) == without_marks(chars@.skip(from as int)),
        decreases chars.len() - from,
    {
        assert(chars@.skip(from as int).drop_first() =~= chars@.skip(from + 1));
        from += 1;
    }
    let trimmed = text::from_chars(&chars, from, chars.len());
    assert(trimmed@ =~= chars@.skip(from as int));
    assert(trimmed@ == without_marks(input@));
    let rest_chars = text::to_chars(trimmed.as_str());
    let (first, rest) = match text::find_char(&rest_chars, '\n', 0) {
        Some(at) => (
            text::from_chars(&rest_chars, 0, at),
            text::from_chars(&rest_chars, at + 1, rest_chars.len()),
        ),
        None => (trimmed.clone(), String::new()),
    };
    assert(rest@ =~= first_line(trimmed@).1);
    let line = text::trim_start_of(first.as_str());
    let (pragma, source) = if text::starts_with(line.as_str(), EXEC_PRAGMA_PREFIX) {
        match read_pragma(line.as_str()) {
            Ok(pragma) => (pragma, rest),
            Err(error) => {
                return Err(error);
            },
        }
    } else {
        (ExecPragma::default(), trimmed)
    };
    if text::is_blank(source.as_str()) {
        return Err(ExecInputError::EmptySource);
    }
    Ok((pragma, source))
}

/// A source whose first line sets nothing runs as it is, apart from byte order marks.
pub proof fn law_plain_sources_are_kept(input: Seq<char>)
    requires
        exec_parts(input).0 is None,
    ensures
        text::blank(without_marks(input)) ==> exec_source(input) == Err::<
            (ExecPragma, Seq<char>),
            ExecFault,
        >(ExecFault::EmptySource),
        !text::blank(without_marks(input)) ==> exec_source(input) == Ok::<
            (ExecPragma, Seq<char>),
            ExecFault,
        >((ExecPragma::nothing(), without_marks(input))),
{
}

/// What a first line sets is positive: a bound that is asked for is never dropped to nothing.
pub proof fn law_bounds_are_positive(document: JsonView)
    requires
        document_pragma(document) is Ok,
    ensures
        ({
            let set = document_pragma(document)->Ok_0;
            &&& set.yield_time_ms is Some ==> set.yield_time_ms->0 > 0
            &&& set.yield_time_ms is None ==> document.get("yield_time_ms"@) is None
                || document.get("yield_time_ms"@) == Some(JsonView::Null)
            &&& set.max_output_tokens is None ==> document.get("max_output_tokens"@) is None
                || document.get("max_output_tokens"@) == Some(JsonView::Null)
        }),
{
}

// ---------------------------------------------------------------- TypeScript

/// The TypeScript type for a JSON type.
pub open spec fn type_word(name: Seq<char>) -> &'static str {
    if name == "string"@ {
        "string"
    } else if name == "integer"@ || name == "number"@ {
        "number"
    } else if name == "boolean"@ {
        "boolean"
    } else if name == "array"@ {
        "unknown[]"
    } else if name == "object"@ {
        "Record<string, unknown>"
    } else if name == "null"@ {
        "null"
    } else {
        "unknown"
    }
}

fn script_type(name: &str) -> (word: &'static str)
    ensures
        word == type_word(name@),
{
    if text::same_text(name, "string") {
        "string"
    } else if text::same_text(name, "integer") || text::same_text(name, "number") {
        "number"
    } else if text::same_text(name, "boolean") {
        "boolean"
    } else if text::same_text(name, "array") {
        "unknown[]"
    } else if text::same_text(name, "object") {
        "Record<string, unknown>"
    } else if text::same_text(name, "null") {
        "null"
    } else {
        "unknown"
    }
}

/// The TypeScript types for several JSON types, each once, in the order in which they come.
pub open spec fn type_parts(names: Seq<JsonView>) -> Seq<Seq<char>>
    decreases names.len(),
{
    if names.len() == 0 {
        seq![]
    } else {
        let before = type_parts(names.drop_last());
        match names.last() {
            JsonView::Text(name) => if before.contains(type_word(name)@) {
                before
            } else {
                before.push(type_word(name)@)
            },
            _ => before,
        }
    }
}

/// The TypeScript type of a property.
pub open spec fn property_type(property: JsonView) -> Seq<char> {
    match property.get("type"@) {
        Some(JsonView::Text(name)) => type_word(name)@,
        Some(JsonView::Array(names)) => if type_parts(names).len() == 0 {
            "unknown"@
        } else {
            text::join(type_parts(names), " | "@)
        },
        _ => "unknown"@,
    }
}

fn json_type_to_typescript(property: &Json) -> (rendered: String)
    ensures
        rendered@ == property_type(property@),
{
    match property.get("type") {
        Some(Json::Text(name)) => script_type(name.as_str()).to_owned(),
        Some(Json::Array(names)) => {
            let ghost views = Json::Array(*names)@->Array_0;
            let mut parts: Vec<String> = Vec::new();
            let mut i: usize = 0;
            assert(text::texts(parts@) =~= type_parts(views.take(0)));
            while i < names.len()
                invariant
                    i <= names.len(),
                    views == Json::Array(*names)@->Array_0,
                    text::texts(parts@) == type_parts(views.take(i as int)),
                decreases names.len() - i,
            {
                let ghost before = text::texts(parts@);
                proof {
                    assert(views.take(i + 1).drop_last() =~= views.take(i as int));
                    assert(views.take(i + 1).last() == names@[i as int]@);
                }
                match &names[i] {
                    Json::Text(name) => {
                        let word = script_type(name.as_str());
                        if !message::holds_text(&parts, word) {
                            parts.push(word.to_owned());
                            assert(text::texts(parts@) =~= before.push(word@));
                        }
                    },
                    _ => {},
                }
                i += 1;
            }
            assert(views.take(i as int) =~= views);
            if parts.len() == 0 {
                "unknown".to_owned()
            } else {
                text::join_of(&parts, " | ")
            }
        },
        _ => "unknown".to_owned(),
    }
}

/// The texts of an array, in their order.
pub open spec fn array_texts(items: Seq<JsonView>) -> Seq<Seq<char>>
    decreases items.len(),
{
    if items.len() == 0 {
        seq![]
    } else {
        let before = array_texts(items.drop_last());
        match items.last() {
            JsonView::Text(name) => before.push(name),
            _ => before,
        }
    }
}

/// The properties that a schema requires.
pub open spec fn required_names(schema: JsonView) -> Seq<Seq<char>> {
    match schema.get("required"@) {
        Some(JsonView::Array(items)) => array_texts(items),
        _ => seq![],
    }
}

fn required_of(schema: &Json) -> (names: Vec<String>)
    ensures
        text::texts(names@) == required_names(schema@),
{
    let mut names: Vec<String> = Vec::new();
    match schema.get("required") {
        Some(Json::Array(items)) => {
            let ghost views = Json::Array(*items)@->Array_0;
            let mut i: usize = 0;
            assert(text::texts(names@) =~= array_texts(views.take(0)));
            while i < items.len()
                invariant
                    i <= items.len(),
                    views == Json::Array(*items)@->Array_0,
                    text::texts(names@) == array_texts(views.take(i as int)),
                decreases items.len() - i,
            {
                let ghost before = text::texts(names@);
                proof {
                    assert(views.take(i + 1).drop_last() =~= views.take(i as int));
                    assert(views.take(i + 1).last() == items@[i as int]@);
                }
                match &items[i] {
                    Json::Text(name) => {
                        names.push(name.clone());
                        assert(text::texts(names@) =~= before.push(name@));
                    },
                    _ => {},
                }
                i += 1;
            }
            assert(views.take(i as int) =~= views);
        },
        _ => {
            assert(text::texts(names@) =~= seq![]);
        },
    }
    names
}

/// One property as a field of a TypeScript type.
pub open spec fn field_text(property: (Seq<char>, JsonView), required: Seq<Seq<char>>) -> Seq<
    char,
> {
    property.0 + (if required.contains(property.0) {
        ""@
    } else {
        "?"@
    }) + ": "@ + property_type(property.1)
}

/// The TypeScript type for a schema.
pub open spec fn schema_type(schema: Option<JsonView>) -> Seq<char> {
    match schema {
        Some(document) => match document.get("properties"@) {
            Some(JsonView::Object(properties)) => if properties.len() == 0 {
                "Record<string, never>"@
            } else {
                "{ "@ + text::join(
                    properties.map_values(
                        |property: (Seq<char>, JsonView)|
                            field_text(property, required_names(document)),
                    ),
                    "; "@,
                ) + " }"@
            },
            _ => "Record<string, unknown>"@,
        },
        None => "Record<string, unknown>"@,
    }
}

fn schema_to_typescript(schema: &Option<Json>) -> (rendered: String)
    ensures
        rendered@ == schema_type(crate::tools::opt_json(*schema)),
{
    let document = match schema {
        Some(document) => document,
        None => {
            return "Record<string, unknown>".to_owned();
        },
    };
    match document.get("properties") {
        Some(Json::Object(properties)) => {
            if properties.len() == 0 {
                return "Record<string, never>".to_owned();
            }
            let ghost views = Json::Object(*properties)@->Object_0;
            let required = required_of(document);
            let ghost needed = required_names(document@);
            let ghost wanted = views.map_values(
                |property: (Seq<char>, JsonView)| field_text(property, needed),
            );
            let mut fields: Vec<String> = Vec::new();
            let mut i: usize = 0;
            while i < properties.len()
                invariant
                    i <= properties.len(),
                    views == Json::Object(*properties)@->Object_0,
                    text::texts(required@) == needed,
                    wanted == views.map_values(
                        |property: (Seq<char>, JsonView)| field_text(property, needed),
                    ),
                    text::texts(fields@) == wanted.take(i as int),
                decreases properties.len() - i,
            {
                let ghost before = text::texts(fields@);
                let name = properties[i].name.as_str();
                let mark = if message::holds_text(&required, name) {
                    ""
                } else {
                    "?"
                };
                let kind = json_type_to_typescript(&properties[i].value);
                let field = text::joined(name, mark, ": ", kind.as_str());
                proof {
                    assert(views[i as int] == (
                        properties@[i as int].name@,
                        properties@[i as int].value@,
                    ));
                    assert(field@ == wanted[i as int]);
                }
                fields.push(field);
                proof {
                    assert(text::texts(fields@) =~= before.push(wanted[i as int]));
                    assert(wanted.take(i + 1) =~= wanted.take(i as int).push(wanted[i as int]));
                }
                i += 1;
            }
            assert(wanted.take(i as int) =~= wanted);
            let body = text::join_of(&fields, "; ");
            text::joined("{ ", body.as_str(), " }", "")
        },
        _ => "Record<string, unknown>".to_owned(),
    }
}

// ---------------------------------------------------------------- the catalog

/// The first lines of a description as comments, and a note where it goes on.
pub open spec fn comment(lines: Seq<Seq<char>>) -> Seq<char> {
    if lines.len() <= CATALOG_DESCRIPTION_LINES {
        comment_lines(lines)
    } else {
        comment_lines(lines.take(CATALOG_DESCRIPTION_LINES as int))
            + "// [description truncated]\n"@
    }
}

/// Lines as comments.
pub open spec fn comment_lines(lines: Seq<Seq<char>>) -> Seq<char>
    decreases lines.len(),
{
    if lines.len() == 0 {
        seq![]
    } else {
        comment_lines(lines.drop_last()) + "// "@ + lines.last() + "\n"@
    }
}

/// How a cell calls a tool.
pub open spec fn declaration(tool: NestedView) -> Seq<char> {
    if tool.freeform {
        "declare function "@ + tool.binding + "(input: string): Promise<string>;\n\n"@
    } else {
        "declare function "@ + tool.binding + "(input: "@ + schema_type(tool.input_schema)
            + "): Promise<"@ + (match tool.output_schema {
            Some(schema) => schema_type(Some(schema)),
            None => "string"@,
        }) + ">;\n\n"@
    }
}

/// A tool in the catalog.
pub open spec fn entry(tool: NestedView) -> Seq<char> {
    comment(text::lines(tool.description)) + declaration(tool)
}

/// The tools with one more at its place: after those whose identifier does not come later.
pub open spec fn placed(tools: Seq<NestedView>, tool: NestedView) -> Seq<NestedView>
    decreases tools.len(),
{
    if tools.len() == 0 || !text::text_less(tool.binding, tools.last().binding) {
        tools.push(tool)
    } else {
        placed(tools.drop_last(), tool).push(tools.last())
    }
}

/// The tools in the order of their identifiers; tools with one identifier keep their order.
pub open spec fn by_binding(tools: Seq<NestedView>) -> Seq<NestedView>
    decreases tools.len(),
{
    if tools.len() == 0 {
        seq![]
    } else {
        placed(by_binding(tools.drop_last()), tools.last())
    }
}

/// The entries of tools, one after the other.
pub open spec fn entries(tools: Seq<NestedView>) -> Seq<char>
    decreases tools.len(),
{
    if tools.len() == 0 {
        seq![]
    } else {
        entries(tools.drop_last()) + entry(tools.last())
    }
}

/// The catalog as the model reads it.
pub open spec fn catalog_text(tools: Seq<NestedView>) -> Seq<char> {
    if tools.len() == 0 {
        "\nNo nested tool is available in this cell.\n"@
    } else {
        "\nNested tools, on the global `tools` object:\n\n```ts\n"@ + entries(by_binding(tools))
            + "```\n"@
    }
}

proof fn lemma_placed(tools: Seq<NestedView>, tool: NestedView)
    requires
        in_order(tools),
    ensures
        in_order(placed(tools, tool)),
        placed(tools, tool).to_multiset() == tools.to_multiset().insert(tool),
        forall|i: int|
            0 <= i < placed(tools, tool).len() ==> (#[trigger] placed(tools, tool)[i] == tool
                || tools.contains(placed(tools, tool)[i])),
    decreases tools.len(),
{
    broadcast use vstd::seq_lib::group_to_multiset_ensures;

    let after = placed(tools, tool);
    if tools.len() == 0 || !text::text_less(tool.binding, tools.last().binding) {
        assert forall|i: int, j: int| 0 <= i < j < after.len() implies !text::text_less(
            #[trigger] after[j].binding,
            #[trigger] after[i].binding,
        ) by {
            if j == tools.len() {
                if i < tools.len() - 1 {
                    assert(!text::text_less(
                        tools[tools.len() - 1].binding,
                        tools[i].binding,
                    ));
                    if text::text_less(tool.binding, tools[i].binding) {
                        text::lemma_text_less_total(tools[i].binding, tools.last().binding);
                        if tools[i].binding != tools.last().binding {
                            text::lemma_text_less_trans(
                                tool.binding,
                                tools[i].binding,
                                tools.last().binding,
                            );
                        }
                    }
                }
            }
        }
        assert forall|i: int| 0 <= i < after.len() implies (#[trigger] after[i] == tool
            || tools.contains(after[i])) by {
            if i < tools.len() {
                assert(after[i] == tools[i]);
            }
        }
    } else {
        let front = tools.drop_last();
        let last = tools.last();
        lemma_placed(front, tool);
        let head = placed(front, tool);
        assert(after == head.push(last));
        assert(tools =~= front.push(last));
        assert forall|i: int, j: int| 0 <= i < j < after.len() implies !text::text_less(
            #[trigger] after[j].binding,
            #[trigger] after[i].binding,
        ) by {
            if j == head.len() {
                assert(after[i] == head[i]);
                if head[i] == tool {
                    text::lemma_text_less_total(tool.binding, last.binding);
                } else {
                    let k = choose|k: int| 0 <= k < front.len() && front[k] == head[i];
                    assert(!text::text_less(
                        tools[tools.len() - 1].binding,
                        tools[k].binding,
                    ));
                }
            } else {
                assert(after[i] == head[i] && after[j] == head[j]);
            }
        }
        assert forall|i: int| 0 <= i < after.len() implies (#[trigger] after[i] == tool
            || tools.contains(after[i])) by {
            if i < head.len() {
                assert(after[i] == head[i]);
                if head[i] != tool {
                    let k = choose|k: int| 0 <= k < front.len() && front[k] == head[i];
                    assert(tools[k] == after[i]);
                }
            } else {
                assert(tools[tools.len() - 1] == after[i]);
            }
        }
        assert(after.to_multiset() =~= tools.to_multiset().insert(tool));
    }
}

/// No tool stands before one whose identifier comes earlier.
pub open spec fn in_order(tools: Seq<NestedView>) -> bool {
    forall|i: int, j: int|
        0 <= i < j < tools.len() ==> !text::text_less(
            #[trigger] tools[j].binding,
            #[trigger] tools[i].binding,
        )
}

/// The catalog shows every tool once, in the order of their identifiers.
pub proof fn law_catalog_is_in_order(tools: Seq<NestedView>)
    ensures
        in_order(by_binding(tools)),
        by_binding(tools).to_multiset() == tools.to_multiset(),
    decreases tools.len(),
{
    broadcast use vstd::seq_lib::group_to_multiset_ensures;

    if tools.len() > 0 {
        law_catalog_is_in_order(tools.drop_last());
        lemma_placed(by_binding(tools.drop_last()), tools.last());
        assert(tools =~= tools.drop_last().push(tools.last()));
        assert(by_binding(tools).to_multiset() =~= tools.to_multiset());
    } else {
        assert(by_binding(tools) =~= tools);
    }
}

fn append_comment(rendered: &mut String, description: &str)
    ensures
        final(rendered)@ == old(rendered)@ + comment(text::lines(description@)),
{
    let lines = text::lines_of(description);
    let ghost all = text::lines(description@);
    let ghost start = rendered@;
    let shown: usize = if lines.len() <= CATALOG_DESCRIPTION_LINES {
        lines.len()
    } else {
        CATALOG_DESCRIPTION_LINES
    };
    let mut i: usize = 0;
    assert(rendered@ =~= start + comment_lines(all.take(0)));
    while i < shown
        invariant
            i <= shown <= lines.len(),
            all == text::texts(lines@),
            rendered@ == start + comment_lines(all.take(i as int)),
        decreases shown - i,
    {
        proof {
            assert(all.take(i + 1).drop_last() =~= all.take(i as int));
            assert(all.take(i + 1).last() == lines@[i as int]@);
        }
        rendered.append("// ");
        rendered.append(lines[i].as_str());
        rendered.append("\n");
        assert(rendered@ =~= start + comment_lines(all.take(i + 1)));
        i += 1;
    }
    if lines.len() > CATALOG_DESCRIPTION_LINES {
        rendered.append("// [description truncated]\n");
        assert(rendered@ =~= start + comment(all));
    } else {
        assert(all.take(i as int) =~= all);
    }
}

fn append_entry(rendered: &mut String, tool: &NestedTool)
    ensures
        final(rendered)@ == old(rendered)@ + entry(tool@),
{
    let ghost start = rendered@;
    append_comment(rendered, tool.description.as_str());
    rendered.append("declare function ");
    rendered.append(tool.binding.as_str());
    if tool.freeform {
        rendered.append("(input: string): Promise<string>;\n\n");
    } else {
        let input = schema_to_typescript(&tool.input_schema);
        let output = match &tool.output_schema {
            Some(_) => schema_to_typescript(&tool.output_schema),
            None => "string".to_owned(),
        };
        rendered.append("(input: ");
        rendered.append(input.as_str());
        rendered.append("): Promise<");
        rendered.append(output.as_str());
        rendered.append(">;\n\n");
    }
    assert(rendered@ =~= start + entry(tool@));
}

pub open spec fn ref_views(tools: Seq<&NestedTool>) -> Seq<NestedView> {
    tools.map_values(|tool: &NestedTool| tool@)
}

proof fn lemma_placed_at(tools: Seq<NestedView>, tool: NestedView, at: int)
    requires
        0 <= at <= tools.len(),
        forall|k: int| at <= k < tools.len() ==> text::text_less(tool.binding, (
        #[trigger] tools[k]).binding),
        at > 0 ==> !text::text_less(tool.binding, tools[at - 1].binding),
    ensures
        placed(tools, tool) == tools.insert(at, tool),
    decreases tools.len(),
{
    if at == tools.len() {
        assert(tools.insert(at, tool) =~= tools.push(tool));
    } else {
        let front = tools.drop_last();
        assert(tools.last() == tools[tools.len() - 1]);
        lemma_placed_at(front, tool, at);
        assert(tools.insert(at, tool) =~= front.insert(at, tool).push(tools.last()));
    }
}

fn render_catalog(catalog: &[NestedTool]) -> (rendered: String)
    ensures
        rendered@ == catalog_text(protocol::nested_views(catalog@)),
{
    let ghost all = protocol::nested_views(catalog@);
    if catalog.len() == 0 {
        return "\nNo nested tool is available in this cell.\n".to_owned();
    }
    let mut sorted: Vec<&NestedTool> = Vec::new();
    let mut i: usize = 0;
    assert(ref_views(sorted@) =~= by_binding(all.take(0)));
    while i < catalog.len()
        invariant
            i <= catalog.len(),
            all == protocol::nested_views(catalog@),
            sorted@.len() == i,
            ref_views(sorted@) == by_binding(all.take(i as int)),
        decreases catalog.len() - i,
    {
        let ghost before = ref_views(sorted@);
        let tool = &catalog[i];
        proof {
            assert(all.take(i + 1).drop_last() =~= all.take(i as int));
            assert(all.take(i + 1).last() == tool@);
        }
        let mut at: usize = sorted.len();
        while at > 0 && text::text_before(tool.binding.as_str(), sorted[at - 1].binding.as_str())
            invariant
                at <= sorted.len(),
                before == ref_views(sorted@),
                forall|k: int|
                    at <= k < sorted@.len() ==> text::text_less(tool.binding@, (
                    #[trigger] before[k]).binding),
            decreases at,
        {
            assert(before[at - 1].binding == sorted@[at - 1].binding@);
            at -= 1;
        }
        proof {
            if at > 0 {
                assert(before[at - 1].binding == sorted@[at - 1].binding@);
            }
            lemma_placed_at(before, tool@, at as int);
        }
        sorted.insert(at, tool);
        assert(ref_views(sorted@) =~= before.insert(at as int, tool@));
        i += 1;
    }
    assert(all.take(i as int) =~= all);
    let ghost ordered = by_binding(all);
    let mut rendered = "\nNested tools, on the global `tools` object:\n\n```ts\n".to_owned();
    let ghost start = rendered@;
    let mut k: usize = 0;
    assert(rendered@ =~= start + entries(ordered.take(0)));
    while k < sorted.len()
        invariant
            k <= sorted.len(),
            ordered == ref_views(sorted@),
            rendered@ == start + entries(ordered.take(k as int)),
        decreases sorted.len() - k,
    {
        proof {
            assert(ordered.take(k + 1).drop_last() =~= ordered.take(k as int));
            assert(ordered.take(k + 1).last() == sorted@[k as int]@);
        }
        append_entry(&mut rendered, sorted[k]);
        assert(rendered@ =~= start + entries(ordered.take(k + 1)));
        k += 1;
    }
    assert(ordered.take(k as int) =~= ordered);
    rendered.append("```\n");
    rendered
}

// ---------------------------------------------------------------- the two tools

pub const EXEC_INTRODUCTION: &'static str = "Run JavaScript to orchestrate and compose tool calls.\n- Evaluates the input in a fresh V8 isolate, as the body of an async function, so `await` works at top level.\n- Raw JavaScript source only: not JSON, not a quoted string, not a markdown code fence.\n- No Node, no module loader, no file system, no network, no console. The only way out of the isolate is a helper below.\n- Values do NOT survive a cell through the global object: use `store` and `load`, which are scoped to this thread's session.\n- The first line may carry a pragma, for example `// @exec: {\"yield_time_ms\": 10000, \"max_output_tokens\": 1000}`. A malformed pragma is refused, never ignored.\n- `yield_time_ms` asks `exec` to hand back what the cell produced if it is still running. Defaults to ";

pub const EXEC_OUTPUT_NOTE: &'static str = " ms.\n- `max_output_tokens` bounds the direct result of this call. Defaults to ";

pub const EXEC_HELPERS: &'static str = " tokens.\n\nHelpers:\n- `text(value)`: appends a text item. A non-string is stringified with `JSON.stringify`.\n- `image(urlOrItem, detail?)`: appends an image item. `image_url` must be a base64 `data:` URL.\n- `audio(urlOrItem)`: appends an audio item, same rule for its URL.\n- `store(key, value)` / `load(key)`: session-scoped values, shared by the cells of this thread only.\n- `notify(value)`: hands the accumulated output to the model right away without ending the cell.\n- `yield_control()`: same, for output already produced.\n- `exit()`: ends the cell successfully, like an early return.\n- `ALL_TOOLS`: `{ name, description }` for every nested tool.\n";

pub const EXEC_ONLY_NOTE: &'static str = "\nThis model orchestrates through `exec` only: the tools below are NOT callable directly, they are callable from JavaScript on the `tools` object.\n";

/// What the model is told of `exec`.
pub open spec fn exec_text(tools: Seq<NestedView>, code_mode_only: bool) -> Seq<char> {
    EXEC_INTRODUCTION@ + text::decimal(DEFAULT_YIELD_TIME as nat) + EXEC_OUTPUT_NOTE@
        + text::decimal(DEFAULT_MAX_OUTPUT_TOKENS as nat) + EXEC_HELPERS@ + (if code_mode_only {
        EXEC_ONLY_NOTE@
    } else {
        ""@
    }) + catalog_text(tools)
}

fn exec_description(catalog: &[NestedTool], code_mode_only: bool) -> (description: String)
    ensures
        description@ == exec_text(protocol::nested_views(catalog@), code_mode_only),
{
    let mut description = EXEC_INTRODUCTION.to_owned();
    description.append(text::decimal_of(DEFAULT_YIELD_TIME as u128).as_str());
    description.append(EXEC_OUTPUT_NOTE);
    description.append(text::decimal_of(DEFAULT_MAX_OUTPUT_TOKENS as u128).as_str());
    description.append(EXEC_HELPERS);
    if code_mode_only {
        description.append(EXEC_ONLY_NOTE);
    } else {
        description.append("");
    }
    description.append(render_catalog(catalog).as_str());
    description
}

/// The tool that runs source, with the catalog of what a cell can call.
pub fn exec_tool_spec(catalog: &[NestedTool], code_mode_only: bool) -> (spec: ToolSpec)
    ensures
        spec@ == (SpecView {
            name: EXEC_TOOL_NAME@,
            description: exec_text(protocol::nested_views(catalog@), code_mode_only),
            kind: KindView::Freeform { grammar: Some((GrammarSyntax::Lark, EXEC_GRAMMAR@)) },
        }),
{
    ToolSpec {
        name: EXEC_TOOL_NAME.to_owned(),
        description: exec_description(catalog, code_mode_only),
        kind: ToolKind::Freeform {
            grammar: Some(
                ToolGrammar { syntax: GrammarSyntax::Lark, definition: EXEC_GRAMMAR.to_owned() },
            ),
        },
    }
}

/// What the model is told of `wait`.
pub open spec fn wait_text() -> Seq<char> {
    "Resumes a yielded `"@ + EXEC_TOOL_NAME@
        + "` cell and returns its NEW output.\n- Use it only after `"@ + EXEC_TOOL_NAME@
        + "` answered with a cell identifier.\n- `cell_id` names the cell to resume; a cell of another thread is refused.\n- `yield_time_ms` bounds this wait. Defaults to "@
        + text::decimal(DEFAULT_YIELD_TIME as nat)
        + " ms.\n- `terminate: true` stops the cell instead of waiting for it.\n- Only the output produced since the previous yield comes back, never a repeat.\n- A finished cell returns its result once and is then closed."@
}

fn wait_description() -> (description: String)
    ensures
        description@ == wait_text(),
{
    let mut description = "Resumes a yielded `".to_owned();
    description.append(EXEC_TOOL_NAME);
    description.append("` cell and returns its NEW output.\n- Use it only after `");
    description.append(EXEC_TOOL_NAME);
    description.append(
        "` answered with a cell identifier.\n- `cell_id` names the cell to resume; a cell of another thread is refused.\n- `yield_time_ms` bounds this wait. Defaults to ",
    );
    description.append(text::decimal_of(DEFAULT_YIELD_TIME as u128).as_str());
    description.append(
        " ms.\n- `terminate: true` stops the cell instead of waiting for it.\n- Only the output produced since the previous yield comes back, never a repeat.\n- A finished cell returns its result once and is then closed.",
    );
    description
}

/// A property of the input of `wait`.
pub open spec fn property_schema(kind: JsonView, description: Seq<char>) -> JsonView {
    JsonView::Object(
        json::collected(
            seq![("type"@, kind), ("description"@, JsonView::Text(description))],
        ),
    )
}

/// A type, or null.
pub open spec fn nullable(name: Seq<char>) -> JsonView {
    JsonView::Array(seq![JsonView::Text(name), JsonView::Text("null"@)])
}

/// The properties of the input of `wait`.
pub open spec fn wait_properties() -> JsonView {
    JsonView::Object(
        json::collected(
            seq![
                (
                    "cell_id"@,
                    property_schema(
                        JsonView::Text("string"@),
                        "Identifier of the running exec cell."@,
                    ),
                ),
                (
                    "yield_time_ms"@,
                    property_schema(
                        nullable("integer"@),
                        "Wait this long for more output before yielding again. Defaults to 10000 ms."@,
                    ),
                ),
                (
                    "terminate"@,
                    property_schema(
                        nullable("boolean"@),
                        "True stops the running exec cell; false or null waits for output."@,
                    ),
                ),
            ],
        ),
    )
}

/// The schema of the input of `wait`: every property is required, and null says that it is absent.
pub open spec fn wait_schema() -> JsonView {
    JsonView::Object(
        json::collected(
            seq![
                ("type"@, JsonView::Text("object"@)),
                ("additionalProperties"@, JsonView::Bool(false)),
                (
                    "required"@,
                    JsonView::Array(
                        seq![
                            JsonView::Text("cell_id"@),
                            JsonView::Text("yield_time_ms"@),
                            JsonView::Text("terminate"@),
                        ],
                    ),
                ),
                ("properties"@, wait_properties()),
            ],
        ),
    )
}

fn member(name: &str, value: Json) -> (member: JsonMember)
    ensures
        member.name@ == name@,
        member.value == value,
{
    JsonMember { name: name.to_owned(), value }
}

fn property(kind: Json, description: &str) -> (document: Json)
    ensures
        document@ == property_schema(kind@, description@),
{
    let mut members: Vec<JsonMember> = Vec::new();
    members.push(member("type", kind));
    members.push(member("description", Json::text(description)));
    assert(json::members_view(members@) =~= seq![
        ("type"@, kind@),
        ("description"@, JsonView::Text(description@)),
    ]);
    Json::object(members)
}

fn nullable_type(name: &str) -> (document: Json)
    ensures
        document@ == nullable(name@),
{
    let mut items: Vec<Json> = Vec::new();
    items.push(Json::text(name));
    items.push(Json::text("null"));
    let document = Json::Array(items);
    assert(document@->Array_0 =~= seq![JsonView::Text(name@), JsonView::Text("null"@)]);
    document
}

/// The tool that resumes or stops a cell.
pub fn wait_tool_spec() -> (spec: ToolSpec)
    ensures
        spec@ == (SpecView {
            name: WAIT_TOOL_NAME@,
            description: wait_text(),
            kind: KindView::Function {
                input_schema: wait_schema(),
                strict: true,
                defer_loading: false,
                output_schema: None,
            },
        }),
{
    let cell = property(Json::text("string"), "Identifier of the running exec cell.");
    let yield_time = property(
        nullable_type("integer"),
        "Wait this long for more output before yielding again. Defaults to 10000 ms.",
    );
    let terminate = property(
        nullable_type("boolean"),
        "True stops the running exec cell; false or null waits for output.",
    );
    let mut properties: Vec<JsonMember> = Vec::new();
    properties.push(member("cell_id", cell));
    properties.push(member("yield_time_ms", yield_time));
    properties.push(member("terminate", terminate));
    let ghost given = json::members_view(properties@);
    let properties = Json::object(properties);
    assert(given =~= seq![
        ("cell_id"@, cell@),
        ("yield_time_ms"@, yield_time@),
        ("terminate"@, terminate@),
    ]);
    let mut names: Vec<Json> = Vec::new();
    names.push(Json::text("cell_id"));
    names.push(Json::text("yield_time_ms"));
    names.push(Json::text("terminate"));
    let required = Json::Array(names);
    assert(required@->Array_0 =~= seq![
        JsonView::Text("cell_id"@),
        JsonView::Text("yield_time_ms"@),
        JsonView::Text("terminate"@),
    ]);
    let mut members: Vec<JsonMember> = Vec::new();
    members.push(member("type", Json::text("object")));
    members.push(member("additionalProperties", Json::Bool(false)));
    members.push(member("required", required));
    members.push(member("properties", properties));
    assert(json::members_view(members@) =~= seq![
        ("type"@, JsonView::Text("object"@)),
        ("additionalProperties"@, JsonView::Bool(false)),
        ("required"@, required@),
        ("properties"@, properties@),
    ]);
    let schema = Json::object(members);
    ToolSpec::function(WAIT_TOOL_NAME, wait_description().as_str(), schema)
}

proof fn lemma_line_place(line: Seq<char>, rest: Seq<char>)
    requires
        forall|i: int| 0 <= i < line.len() ==> #[trigger] line[i] != '\n',
    ensures
        first_line(line + seq!['\n'] + rest) == (line, rest),
        first_line(line) == (line, Seq::<char>::empty()),
{
    let s = line + seq!['\n'] + rest;
    let n = line.len() as int;
    assert forall|k: int| 0 <= k < n implies #[trigger] s[k] != '\n' by {
        assert(s[k] == line[k]);
    }
    lemma_place_from(s, 0, n);
    lemma_place_from(line, 0, n);
    assert(s.subrange(0, n) =~= line);
    assert(s.subrange(n + 1, s.len() as int) =~= rest);
}

proof fn lemma_place_from(s: Seq<char>, from: int, at: int)
    requires
        0 <= from <= at <= s.len(),
        forall|k: int| from <= k < at ==> #[trigger] s[k] != '\n',
        at < s.len() ==> s[at] == '\n',
    ensures
        text::char_place(s, '\n', from) == if at < s.len() {
            Some(at)
        } else {
            None
        },
    decreases at - from,
{
    if from < at {
        lemma_place_from(s, from + 1, at);
    }
}

/// A first line that sets bounds is taken from the source, and the rest is run; without one all of
/// it is. A byte order mark in front is nothing.
pub proof fn law_first_lines_set_bounds(line: Seq<char>, rest: Seq<char>)
    requires
        forall|i: int| 0 <= i < line.len() ==> #[trigger] line[i] != '\n',
        line.len() > 0 && line[0] != '\u{feff}',
    ensures
        ({
            let input = line + seq!['\n'] + rest;
            let sets = EXEC_PRAGMA_PREFIX@.is_prefix_of(text::trim_start(line));
            &&& sets ==> exec_parts(input) == (Some(text::trim_start(line)), rest)
            &&& !sets ==> exec_parts(input) == (None::<Seq<char>>, input)
            &&& exec_parts(seq!['\u{feff}'] + input) == exec_parts(input)
        }),
{
    let input = line + seq!['\n'] + rest;
    let start = text::trim_start(line);
    lemma_line_place(line, rest);
    assert(input[0] == line[0]);
    assert((seq!['\u{feff}'] + input).drop_first() =~= input);
    if EXEC_PRAGMA_PREFIX@.is_prefix_of(start) {
        assert(start.subrange(0, EXEC_PRAGMA_PREFIX@.len() as int) =~= EXEC_PRAGMA_PREFIX@);
    }
}

/// What a first line sets is what its document says: each bound that it names, as a positive whole
/// number; a bound that is missing or null is not set, and any other value is refused.
pub proof fn law_bounds_are_read(document: JsonView)
    requires
        document is Object,
    ensures
        ({
            let wait = document.get("yield_time_ms"@);
            let room = document.get("max_output_tokens"@);
            let unset = |value: Option<JsonView>| value is None || value == Some(JsonView::Null);
            let good = |value: Option<JsonView>|
                value is Some && value->0.as_u64() is Some && value->0.as_u64()->0 > 0;
            &&& document_pragma(document) is Ok <==> (unset(wait) || good(wait)) && (unset(room)
                || good(room))
            &&& document_pragma(document) matches Ok(set) ==> {
                &&& good(wait) ==> set.yield_time_ms == wait->0.as_u64()
                &&& unset(wait) ==> set.yield_time_ms is None
                &&& good(room) ==> set.max_output_tokens == Some(room->0.as_u64()->0 as usize)
                &&& unset(room) ==> set.max_output_tokens is None
            }
        }),
{
}

/// A line that sets bounds is read as the document behind its prefix.
pub proof fn law_bounds_stand_behind_the_prefix(said: Seq<char>)
    requires
        !EXEC_PRAGMA_PREFIX@.is_prefix_of(said),
    ensures
        line_pragma(EXEC_PRAGMA_PREFIX@ + said) == (match json::parsed(text::trim(said)) {
            Ok(document) => document_pragma(document),
            Err(detail) => Err(ExecFault::MalformedPragma { detail }),
        }),
{
    let prefix = EXEC_PRAGMA_PREFIX@;
    let line = prefix + said;
    assert(line.subrange(0, prefix.len() as int) =~= prefix);
    assert(line.skip(prefix.len() as int) =~= said);
    if text::has_prefix(said, prefix) {
        assert(prefix.is_prefix_of(said)) by {
            assert(said.subrange(0, prefix.len() as int) == prefix);
        }
    }
    assert(without_prefix(said, prefix) == said);
    if prefix.len() == 0 {
        assert(line =~= said);
    }
    assert(without_prefix(line, prefix) == said);
}

/// A source is run with its bounds exactly where they can be read and something is left to run.
pub proof fn law_sources_run_with_their_bounds(input: Seq<char>)
    ensures
        ({
            let (line, source) = exec_parts(input);
            let something = exists|i: int|
                0 <= i < source.len() && !text::is_space(#[trigger] source[i]);
            &&& exec_source(input) is Ok <==> something && (line is None || line_pragma(
                line->0,
            ) is Ok)
            &&& exec_source(input) matches Ok(run) ==> run.1 == source && (line is Some ==> run.0
                == line_pragma(line->0)->Ok_0) && (line is None ==> run.0.yield_time_ms is None
                && run.0.max_output_tokens is None)
        }),
{
}

/// A catalog has an entry for each tool, in order: its description as comments, then how it is
/// called.
pub proof fn law_catalogs_list_every_tool(tools: Seq<NestedView>, tool: NestedView)
    ensures
        entries(Seq::<NestedView>::empty()) == Seq::<char>::empty(),
        entries(tools.push(tool)) == entries(tools) + entry(tool),
        declaration(tool).is_suffix_of(entry(tool)),
        ("declare function "@ + tool.binding + "(input: "@).is_prefix_of(declaration(tool)),
        tools.len() > 0 ==> exists|from: int, upto: int|
            0 <= from <= upto <= catalog_text(tools).len() && #[trigger] catalog_text(
                tools,
            ).subrange(from, upto) == entries(by_binding(tools)),
{
    assert(tools.push(tool).drop_last() =~= tools);
    let start = "declare function "@ + tool.binding + "(input: "@;
    if tool.freeform {
        reveal_strlit("(input: string): Promise<string>;\n\n");
        reveal_strlit("(input: ");
        assert("(input: string): Promise<string>;\n\n"@.take("(input: "@.len() as int)
            =~= "(input: "@);
        assert(declaration(tool).take(start.len() as int) =~= start);
    } else {
        assert(declaration(tool).take(start.len() as int) =~= start);
    }
    let a = comment(text::lines(tool.description));
    assert(entry(tool).subrange(a.len() as int, entry(tool).len() as int) =~= declaration(tool));
    if tools.len() > 0 {
        let head = "\nNested tools, on the global `tools` object:\n\n```ts\n"@;
        let listed = entries(by_binding(tools));
        let from = head.len() as int;
        let upto = from + listed.len();
        assert(catalog_text(tools).subrange(from, upto) =~= listed);
    }
}

/// A description is shown line by line, each as a comment, up to the number of lines that a catalog
/// has room for; a note tells of the rest.
pub proof fn law_descriptions_are_comments(lines: Seq<Seq<char>>, line: Seq<char>)
    ensures
        comment_lines(lines.push(line)) == comment_lines(lines) + "// "@ + line + "\n"@,
        lines.len() <= CATALOG_DESCRIPTION_LINES ==> comment(lines) == comment_lines(lines),
        lines.len() > CATALOG_DESCRIPTION_LINES ==> comment(lines) == comment_lines(
            lines.take(CATALOG_DESCRIPTION_LINES as int),
        ) + "// [description truncated]\n"@,
{
    assert(lines.push(line).drop_last() =~= lines);
}

/// A field is optional unless the schema requires it, and has the type of its property.
pub proof fn law_fields_follow_the_schema(
    name: Seq<char>,
    property: JsonView,
    required: Seq<Seq<char>>,
)
    ensures
        required.contains(name) ==> field_text((name, property), required) == name + ": "@
            + property_type(property),
        !required.contains(name) ==> field_text((name, property), required) == name + "?: "@
            + property_type(property),
{
    reveal_strlit("");
    reveal_strlit("?");
    reveal_strlit(": ");
    reveal_strlit("?: ");
    assert("?"@ + ": "@ =~= "?: "@);
    assert(field_text((name, property), required) =~= name + (if required.contains(name) {
        ""@
    } else {
        "?"@
    } + ": "@) + property_type(property));
    assert(""@ + ": "@ =~= ": "@);
}

/// Types are those of JSON as TypeScript has them, each once; one that is not known is unknown.
pub proof fn law_types_are_mapped(name: Seq<char>, names: Seq<JsonView>)
    ensures
        type_word("string"@)@ == "string"@,
        type_word("integer"@)@ == "number"@ && type_word("number"@)@ == "number"@,
        type_word("boolean"@)@ == "boolean"@ && type_word("null"@)@ == "null"@,
        type_word("array"@)@ == "unknown[]"@,
        type_word("object"@)@ == "Record<string, unknown>"@,
        name != "string"@ && name != "integer"@ && name != "number"@ && name != "boolean"@ && name
            != "array"@ && name != "object"@ && name != "null"@ ==> type_word(name)@ == "unknown"@,
        type_parts(names).contains(type_word(name)@) ==> type_parts(
            names.push(JsonView::Text(name)),
        ) == type_parts(names),
        !type_parts(names).contains(type_word(name)@) ==> type_parts(
            names.push(JsonView::Text(name)),
        ) == type_parts(names).push(type_word(name)@),
{
    reveal_strlit("string");
    reveal_strlit("integer");
    reveal_strlit("number");
    reveal_strlit("boolean");
    reveal_strlit("array");
    reveal_strlit("object");
    reveal_strlit("null");
    assert("integer"@.len() == 7 && "string"@.len() == 6 && "boolean"@.len() == 7 && "array"@.len()
        == 5 && "object"@.len() == 6 && "null"@.len() == 4 && "number"@.len() == 6);
    assert("integer"@[0] == 'i' && "string"@[0] == 's' && "boolean"@[0] == 'b' && "object"@[0]
        == 'o' && "number"@[0] == 'n');
    assert(names.push(JsonView::Text(name)).drop_last() =~= names);
}

/// A schema with properties is an object of its fields, one without any takes none, and one that
/// does not say takes anything.
pub proof fn law_schemas_become_types(document: JsonView, properties: Seq<(Seq<char>, JsonView)>)
    ensures
        schema_type(None) == "Record<string, unknown>"@,
        document.get("properties"@) is None ==> schema_type(Some(document))
            == "Record<string, unknown>"@,
        document.get("properties"@) == Some(JsonView::Object(properties)) && properties.len() == 0
            ==> schema_type(Some(document)) == "Record<string, never>"@,
        document.get("properties"@) == Some(JsonView::Object(properties)) && properties.len() == 1
            ==> schema_type(Some(document)) == "{ "@ + field_text(
            properties[0],
            required_names(document),
        ) + " }"@,
{
    if properties.len() == 1 {
        let fields = properties.map_values(
            |property: (Seq<char>, JsonView)| field_text(property, required_names(document)),
        );
        assert(fields.len() == 1);
        assert(text::join(fields, "; "@) == fields[0]);
    }
}

/// The type of a property is that of its one type, or of each of its types; without one it is
/// unknown.
pub proof fn law_properties_have_their_types(property: JsonView, name: Seq<char>)
    ensures
        property.get("type"@) == Some(JsonView::Text(name)) ==> property_type(property)
            == type_word(name)@,
        property.get("type"@) is None ==> property_type(property) == "unknown"@,
        property.get("type"@) matches Some(JsonView::Array(names)) ==> (type_parts(names).len() > 0
            ==> property_type(property) == text::join(type_parts(names), " | "@)),
{
}

} // verus!
