//! The tools that a model may call, and their validation.
use crate::first;
use crate::json;
use crate::json::{Json, JsonMember, JsonView};
use crate::message;
use crate::text;
use crate::tools;
use vstd::prelude::*;
use vstd::string::*;

verus! {

/// The syntax of a freeform tool's grammar.
#[derive(Debug, Clone, Copy, PartialEq, Eq, Structural)]
pub enum GrammarSyntax {
    Lark,
}

#[derive(Debug, Clone, PartialEq, Eq)]
pub struct ToolGrammar {
    pub syntax: GrammarSyntax,
    pub definition: String,
}

#[derive(Debug, Clone, Copy, PartialEq, Eq, Structural)]
pub enum WebSearchContextSize {
    Low,
    Medium,
    High,
}

#[derive(Debug, Clone, PartialEq, Eq, Default)]
pub struct WebSearchFilters {
    pub allowed_domains: Vec<String>,
}

#[derive(Debug, Clone, PartialEq, Eq, Default)]
pub struct WebSearchLocation {
    pub country: Option<String>,
    pub region: Option<String>,
    pub city: Option<String>,
    pub timezone: Option<String>,
}

/// How a tool takes its input: a function takes JSON under a schema, a freeform tool takes text
/// under an optional grammar.
#[derive(Debug, Clone, PartialEq, Eq)]
pub enum ToolKind {
    Function {
        input_schema: Json,
        strict: bool,
        defer_loading: bool,
        output_schema: Option<Json>,
    },
    Freeform { grammar: Option<ToolGrammar> },
    Namespace { tools: Vec<ToolSpec> },
    ToolSearch { execution: String, parameters: Json },
    WebSearch {
        external_web_access: Option<bool>,
        indexed_web_access: Option<bool>,
        filters: Option<WebSearchFilters>,
        location: Option<WebSearchLocation>,
        context_size: Option<WebSearchContextSize>,
        content_types: Vec<String>,
    },
}

/// One tool as the model is told of it.
#[derive(Debug, PartialEq, Eq)]
pub struct ToolSpec {
    pub name: String,
    pub description: String,
    pub kind: ToolKind,
}

/// What a tool's kind is.
pub enum KindView {
    Function {
        input_schema: JsonView,
        strict: bool,
        defer_loading: bool,
        output_schema: Option<JsonView>,
    },
    Freeform { grammar: Option<(GrammarSyntax, Seq<char>)> },
    Namespace { tools: Seq<SpecView> },
    ToolSearch { execution: Seq<char>, parameters: JsonView },
    WebSearch {
        external_web_access: Option<bool>,
        indexed_web_access: Option<bool>,
        filters: Option<Seq<Seq<char>>>,
        location: Option<WebSearchLocation>,
        context_size: Option<WebSearchContextSize>,
        content_types: Seq<Seq<char>>,
    },
}

/// What a tool is.
pub struct SpecView {
    pub name: Seq<char>,
    pub description: Seq<char>,
    pub kind: KindView,
}

impl ToolSpec {
    pub open spec fn outline(&self) -> SpecView
        decreases self,
    {
        SpecView {
            name: self.name@,
            description: self.description@,
            kind: match self.kind {
                ToolKind::Function { input_schema, strict, defer_loading, output_schema } => {
                    KindView::Function {
                        input_schema: input_schema@,
                        strict,
                        defer_loading,
                        output_schema: tools::opt_json(output_schema),
                    }
                },
                ToolKind::Freeform { grammar } => KindView::Freeform {
                    grammar: match grammar {
                        Some(g) => Some((g.syntax, g.definition@)),
                        None => None,
                    },
                },
                ToolKind::Namespace { tools } => KindView::Namespace {
                    tools: Seq::new(
                        tools@.len(),
                        |i: int|
                            if 0 <= i < tools@.len() {
                                tools@[i].outline()
                            } else {
                                arbitrary()
                            },
                    ),
                },
                ToolKind::ToolSearch { execution, parameters } => KindView::ToolSearch {
                    execution: execution@,
                    parameters: parameters@,
                },
                ToolKind::WebSearch {
                    external_web_access,
                    indexed_web_access,
                    filters,
                    location,
                    context_size,
                    content_types,
                } => KindView::WebSearch {
                    external_web_access,
                    indexed_web_access,
                    filters: match filters {
                        Some(f) => Some(text::texts(f.allowed_domains@)),
                        None => None,
                    },
                    location,
                    context_size,
                    content_types: text::texts(content_types@),
                },
            },
        }
    }
}

impl View for ToolSpec {
    type V = SpecView;

    open spec fn view(&self) -> SpecView {
        self.outline()
    }
}

pub open spec fn spec_views(specs: Seq<ToolSpec>) -> Seq<SpecView> {
    specs.map_values(|spec: ToolSpec| spec@)
}

/// Every way in which a tool can be refused.
#[derive(Debug, Clone, PartialEq, Eq)]
pub enum ToolSpecValidationError {
    EmptyName,
    InvalidName { tool: String },
    SchemaMustBeObject { tool: String },
    OutputSchemaMustBeObject { tool: String },
    SchemaMustDenyAdditionalProperties { tool: String },
    OutputSchemaMustDenyAdditionalProperties { tool: String },
    SchemaPropertiesMustBeObject { tool: String },
    OutputSchemaPropertiesMustBeObject { tool: String },
    SchemaRequiredMustBeStringArray { tool: String },
    OutputSchemaRequiredMustBeStringArray { tool: String },
    RequiredMustMatchProperties { tool: String },
    OutputRequiredMustMatchProperties { tool: String },
    EmptyGrammarDefinition { tool: String },
    EmptyNamespace { namespace: String },
    InvalidNamespaceMember { namespace: String, tool: String },
    DuplicateNamespaceMember { namespace: String, tool: String },
    EmptyToolSearchExecution,
    ToolSearchParametersMustBeObject,
    InvalidWebSearchConfig,
}

/// What is wrong with a tool, its names as sequences of characters.
pub enum SpecFault {
    EmptyName,
    InvalidName(Seq<char>),
    Schema { output: bool, tool: Seq<char>, fault: SchemaFault },
    EmptyGrammarDefinition(Seq<char>),
    EmptyNamespace(Seq<char>),
    InvalidNamespaceMember(Seq<char>, Seq<char>),
    DuplicateNamespaceMember(Seq<char>, Seq<char>),
    EmptyToolSearchExecution,
    ToolSearchParametersMustBeObject,
    InvalidWebSearchConfig,
}

/// What is wrong with a schema.
#[derive(Clone, Copy)]
pub enum SchemaFault {
    NotAnObject,
    AllowsAdditionalProperties,
    PropertiesNotAnObject,
    RequiredNotTexts,
    RequiredNotProperties,
}

impl View for ToolSpecValidationError {
    type V = SpecFault;

    open spec fn view(&self) -> SpecFault {
        match self {
            ToolSpecValidationError::EmptyName => SpecFault::EmptyName,
            ToolSpecValidationError::InvalidName { tool } => SpecFault::InvalidName(tool@),
            ToolSpecValidationError::SchemaMustBeObject { tool } => SpecFault::Schema {
                output: false,
                tool: tool@,
                fault: SchemaFault::NotAnObject,
            },
            ToolSpecValidationError::OutputSchemaMustBeObject { tool } => SpecFault::Schema {
                output: true,
                tool: tool@,
                fault: SchemaFault::NotAnObject,
            },
            ToolSpecValidationError::SchemaMustDenyAdditionalProperties { tool } => {
                SpecFault::Schema {
                    output: false,
                    tool: tool@,
                    fault: SchemaFault::AllowsAdditionalProperties,
                }
            },
            ToolSpecValidationError::OutputSchemaMustDenyAdditionalProperties { tool } => {
                SpecFault::Schema {
                    output: true,
                    tool: tool@,
                    fault: SchemaFault::AllowsAdditionalProperties,
                }
            },
            ToolSpecValidationError::SchemaPropertiesMustBeObject { tool } => SpecFault::Schema {
                output: false,
                tool: tool@,
                fault: SchemaFault::PropertiesNotAnObject,
            },
            ToolSpecValidationError::OutputSchemaPropertiesMustBeObject { tool } => {
                SpecFault::Schema {
                    output: true,
                    tool: tool@,
                    fault: SchemaFault::PropertiesNotAnObject,
                }
            },
            ToolSpecValidationError::SchemaRequiredMustBeStringArray { tool } => {
                SpecFault::Schema {
                    output: false,
                    tool: tool@,
                    fault: SchemaFault::RequiredNotTexts,
                }
            },
            ToolSpecValidationError::OutputSchemaRequiredMustBeStringArray { tool } => {
                SpecFault::Schema {
                    output: true,
                    tool: tool@,
                    fault: SchemaFault::RequiredNotTexts,
                }
            },
            ToolSpecValidationError::RequiredMustMatchProperties { tool } => SpecFault::Schema {
                output: false,
                tool: tool@,
                fault: SchemaFault::RequiredNotProperties,
            },
            ToolSpecValidationError::OutputRequiredMustMatchProperties { tool } => {
                SpecFault::Schema {
                    output: true,
                    tool: tool@,
                    fault: SchemaFault::RequiredNotProperties,
                }
            },
            ToolSpecValidationError::EmptyGrammarDefinition { tool } => {
                SpecFault::EmptyGrammarDefinition(tool@)
            },
            ToolSpecValidationError::EmptyNamespace { namespace } => SpecFault::EmptyNamespace(
                namespace@,
            ),
            ToolSpecValidationError::InvalidNamespaceMember { namespace, tool } => {
                SpecFault::InvalidNamespaceMember(namespace@, tool@)
            },
            ToolSpecValidationError::DuplicateNamespaceMember { namespace, tool } => {
                SpecFault::DuplicateNamespaceMember(namespace@, tool@)
            },
            ToolSpecValidationError::EmptyToolSearchExecution => {
                SpecFault::EmptyToolSearchExecution
            },
            ToolSpecValidationError::ToolSearchParametersMustBeObject => {
                SpecFault::ToolSearchParametersMustBeObject
            },
            ToolSpecValidationError::InvalidWebSearchConfig => SpecFault::InvalidWebSearchConfig,
        }
    }
}

impl ToolSpecValidationError {
    pub open spec fn text(self) -> Seq<char> {
        match self {
            ToolSpecValidationError::EmptyName => "tool name is empty"@,
            ToolSpecValidationError::InvalidName { tool } => "tool "@ + tool@ + " name must be <=64 chars and use only ASCII letters, digits, _ or -"@,
            ToolSpecValidationError::SchemaMustBeObject { tool } => "tool "@ + tool@ + " input_schema must be a JSON schema object"@,
            ToolSpecValidationError::OutputSchemaMustBeObject { tool } => "tool "@ + tool@ + " output_schema must be a JSON schema object"@,
            ToolSpecValidationError::SchemaMustDenyAdditionalProperties { tool } => "tool "@ + tool@ + " input_schema must set additionalProperties=false"@,
            ToolSpecValidationError::OutputSchemaMustDenyAdditionalProperties { tool } => "tool "@ + tool@ + " output_schema must set additionalProperties=false"@,
            ToolSpecValidationError::SchemaPropertiesMustBeObject { tool } => "tool "@ + tool@ + " input_schema properties must be an object"@,
            ToolSpecValidationError::OutputSchemaPropertiesMustBeObject { tool } => "tool "@ + tool@ + " output_schema properties must be an object"@,
            ToolSpecValidationError::SchemaRequiredMustBeStringArray { tool } => "tool "@ + tool@ + " input_schema required must be an array of strings"@,
            ToolSpecValidationError::OutputSchemaRequiredMustBeStringArray { tool } => "tool "@ + tool@ + " output_schema required must be an array of strings"@,
            ToolSpecValidationError::RequiredMustMatchProperties { tool } => "tool "@ + tool@ + " input_schema required fields must include every property"@,
            ToolSpecValidationError::OutputRequiredMustMatchProperties { tool } => "tool "@ + tool@ + " output_schema required fields must include every property"@,
            ToolSpecValidationError::EmptyGrammarDefinition { tool } => "tool "@ + tool@ + " declares a grammar with an empty definition"@,
            ToolSpecValidationError::EmptyNamespace { namespace } => "namespace "@ + namespace@ + " must contain at least one tool"@,
            ToolSpecValidationError::InvalidNamespaceMember { namespace, tool } => "namespace "@ + namespace@ + " contains unsupported member "@ + tool@,
            ToolSpecValidationError::DuplicateNamespaceMember { namespace, tool } => "namespace "@ + namespace@ + " contains duplicate member "@ + tool@,
            ToolSpecValidationError::EmptyToolSearchExecution => "tool_search execution is empty"@,
            ToolSpecValidationError::ToolSearchParametersMustBeObject => "tool_search parameters must be a JSON schema object"@,
            ToolSpecValidationError::InvalidWebSearchConfig => "web_search configuration is invalid or exceeds its bounds"@,
        }
    }

    /// The refusal in words.
    pub fn message(&self) -> (message: String)
        ensures
            message@ == self.text(),
    {
        match self {
            ToolSpecValidationError::EmptyName => "tool name is empty".to_owned(),
            ToolSpecValidationError::InvalidName { tool } => text::joined(
                "tool ",
                tool.as_str(),
                " name must be <=64 chars and use only ASCII letters, digits, _ or -",
                "",
            ),
            ToolSpecValidationError::SchemaMustBeObject { tool } => text::joined(
                "tool ",
                tool.as_str(),
                " input_schema must be a JSON schema object",
                "",
            ),
            ToolSpecValidationError::OutputSchemaMustBeObject { tool } => text::joined(
                "tool ",
                tool.as_str(),
                " output_schema must be a JSON schema object",
                "",
            ),
            ToolSpecValidationError::SchemaMustDenyAdditionalProperties { tool } => text::joined(
                "tool ",
                tool.as_str(),
                " input_schema must set additionalProperties=false",
                "",
            ),
            ToolSpecValidationError::OutputSchemaMustDenyAdditionalProperties { tool } => text::joined(
                "tool ",
                tool.as_str(),
                " output_schema must set additionalProperties=false",
                "",
            ),
            ToolSpecValidationError::SchemaPropertiesMustBeObject { tool } => text::joined(
                "tool ",
                tool.as_str(),
                " input_schema properties must be an object",
                "",
            ),
            ToolSpecValidationError::OutputSchemaPropertiesMustBeObject { tool } => text::joined(
                "tool ",
                tool.as_str(),
                " output_schema properties must be an object",
                "",
            ),
            ToolSpecValidationError::SchemaRequiredMustBeStringArray { tool } => text::joined(
                "tool ",
                tool.as_str(),
                " input_schema required must be an array of strings",
                "",
            ),
            ToolSpecValidationError::OutputSchemaRequiredMustBeStringArray { tool } => text::joined(
                "tool ",
                tool.as_str(),
                " output_schema required must be an array of strings",
                "",
            ),
            ToolSpecValidationError::RequiredMustMatchProperties { tool } => text::joined(
                "tool ",
                tool.as_str(),
                " input_schema required fields must include every property",
                "",
            ),
            ToolSpecValidationError::OutputRequiredMustMatchProperties { tool } => text::joined(
                "tool ",
                tool.as_str(),
                " output_schema required fields must include every property",
                "",
            ),
            ToolSpecValidationError::EmptyGrammarDefinition { tool } => text::joined(
                "tool ",
                tool.as_str(),
                " declares a grammar with an empty definition",
                "",
            ),
            ToolSpecValidationError::EmptyNamespace { namespace } => text::joined(
                "namespace ",
                namespace.as_str(),
                " must contain at least one tool",
                "",
            ),
            ToolSpecValidationError::InvalidNamespaceMember { namespace, tool } => text::joined(
                "namespace ",
                namespace.as_str(),
                " contains unsupported member ",
                tool.as_str(),
            ),
            ToolSpecValidationError::DuplicateNamespaceMember { namespace, tool } => text::joined(
                "namespace ",
                namespace.as_str(),
                " contains duplicate member ",
                tool.as_str(),
            ),
            ToolSpecValidationError::EmptyToolSearchExecution => "tool_search execution is empty".to_owned(),
            ToolSpecValidationError::ToolSearchParametersMustBeObject => "tool_search parameters must be a JSON schema object".to_owned(),
            ToolSpecValidationError::InvalidWebSearchConfig => "web_search configuration is invalid or exceeds its bounds".to_owned(),
        }
    }
}

/// What a check gives where the fault is `fault`.
pub open spec fn reports(
    checked: Result<(), ToolSpecValidationError>,
    fault: Option<SpecFault>,
) -> bool {
    match (checked, fault) {
        (Ok(()), None) => true,
        (Err(error), Some(f)) => error@ == f,
        _ => false,
    }
}

// ---------------------------------------------------------------- schemas

/// The members of a schema that hold further schemas, in the order in which they are checked.
pub open spec fn subschemas(members: Seq<(Seq<char>, JsonView)>) -> Seq<JsonView> {
    member_values(members, "properties"@) + single(members, "items"@) + single(
        members,
        "additionalItems"@,
    ) + single(members, "contains"@) + array_items(members, "anyOf"@) + array_items(
        members,
        "oneOf"@,
    ) + array_items(members, "allOf"@) + member_values(members, "$defs"@) + member_values(
        members,
        "definitions"@,
    )
}

/// The values of the object that the member `name` holds.
pub open spec fn member_values(members: Seq<(Seq<char>, JsonView)>, name: Seq<char>) -> Seq<
    JsonView,
> {
    match json::lookup(members, name) {
        Some(JsonView::Object(inner)) => inner.map_values(|m: (Seq<char>, JsonView)| m.1),
        _ => Seq::empty(),
    }
}

/// The value of the member `name`, where there is one.
pub open spec fn single(members: Seq<(Seq<char>, JsonView)>, name: Seq<char>) -> Seq<JsonView> {
    match json::lookup(members, name) {
        Some(value) => seq![value],
        None => Seq::empty(),
    }
}

/// The items of the array that the member `name` holds.
pub open spec fn array_items(members: Seq<(Seq<char>, JsonView)>, name: Seq<char>) -> Seq<JsonView> {
    match json::lookup(members, name) {
        Some(JsonView::Array(items)) => items,
        _ => Seq::empty(),
    }
}

/// Whether the `type` of a schema is `object`, or holds it.
pub open spec fn is_object_type(members: Seq<(Seq<char>, JsonView)>) -> bool {
    match json::lookup(members, "type"@) {
        Some(JsonView::Text(kind)) => kind == "object"@,
        Some(JsonView::Array(kinds)) => kinds.contains(JsonView::Text("object"@)),
        _ => false,
    }
}

/// The names of the properties; `None` where `properties` is no object.
pub open spec fn property_names(members: Seq<(Seq<char>, JsonView)>) -> Option<Seq<Seq<char>>> {
    match json::lookup(members, "properties"@) {
        None => Some(Seq::empty()),
        Some(JsonView::Object(inner)) => Some(inner.map_values(|m: (Seq<char>, JsonView)| m.0)),
        Some(_) => None,
    }
}

/// The required names; `None` where `required` is no array of texts.
pub open spec fn required_texts(members: Seq<(Seq<char>, JsonView)>) -> Option<Seq<Seq<char>>> {
    match json::lookup(members, "required"@) {
        None => Some(Seq::empty()),
        Some(JsonView::Array(items)) => if forall|i: int|
            0 <= i < items.len() ==> (#[trigger] items[i]) is Text {
            Some(items.map_values(|item: JsonView| item->Text_0))
        } else {
            None
        },
        Some(_) => None,
    }
}

pub open spec fn same_names(a: Seq<Seq<char>>, b: Seq<Seq<char>>) -> bool {
    &&& forall|i: int| 0 <= i < a.len() ==> b.contains(#[trigger] a[i])
    &&& forall|i: int| 0 <= i < b.len() ==> a.contains(#[trigger] b[i])
}

/// What is wrong with one object schema, apart from the schemas inside it: a strict object denies
/// other properties and requires all of its own.
pub open spec fn own_fault(members: Seq<(Seq<char>, JsonView)>) -> Option<SchemaFault> {
    if !is_object_type(members) {
        None
    } else if json::lookup(members, "additionalProperties"@) != Some(JsonView::Bool(false)) {
        Some(SchemaFault::AllowsAdditionalProperties)
    } else if property_names(members) is None {
        Some(SchemaFault::PropertiesNotAnObject)
    } else if required_texts(members) is None {
        Some(SchemaFault::RequiredNotTexts)
    } else if !same_names(required_texts(members)->0, property_names(members)->0) {
        Some(SchemaFault::RequiredNotProperties)
    } else {
        None
    }
}

proof fn lemma_lookup_within(members: Seq<(Seq<char>, JsonView)>, name: Seq<char>)
    ensures
        json::lookup(members, name) is Some ==> exists|i: int|
            0 <= i < members.len() && (#[trigger] members[i]).1 == json::lookup(members, name)->0,
    decreases members.len(),
{
    if members.len() > 0 && members[0].0 != name {
        lemma_lookup_within(members.drop_first(), name);
        if json::lookup(members, name) is Some {
            let i = choose|i: int|
                0 <= i < members.len() - 1 && (#[trigger] members.drop_first()[i]).1
                    == json::lookup(members, name)->0;
            assert(members[i + 1] == members.drop_first()[i]);
        }
    } else if members.len() > 0 {
        assert(members[0].1 == json::lookup(members, name)->0);
    }
}

proof fn lemma_lookup_decreases(document: JsonView, members: Seq<(Seq<char>, JsonView)>, name: Seq<char>)
    requires
        document == JsonView::Object(members),
    ensures
        forall|i: int| #![trigger member_values(members, name)[i]]
            0 <= i < member_values(members, name).len() ==> decreases_to!(document => member_values(members, name)[i]),
        forall|i: int| #![trigger single(members, name)[i]]
            0 <= i < single(members, name).len() ==> decreases_to!(document => single(members, name)[i]),
        forall|i: int| #![trigger array_items(members, name)[i]]
            0 <= i < array_items(members, name).len() ==> decreases_to!(document => array_items(members, name)[i]),
{
    lemma_lookup_within(members, name);
    if json::lookup(members, name) is Some {
        let at = choose|i: int|
            0 <= i < members.len() && (#[trigger] members[i]).1 == json::lookup(members, name)->0;
        let value = members[at].1;
        assert(decreases_to!(document => document->Object_0));
        assert(decreases_to!(members => members[at]));
        assert(decreases_to!(members[at] => members[at].1));
        assert forall|i: int| 0 <= i < member_values(members, name).len() implies decreases_to!(document => #[trigger] member_values(members, name)[i]) by {
            let inner = value->Object_0;
            assert(decreases_to!(value => value->Object_0));
            assert(decreases_to!(inner => inner[i]));
            assert(decreases_to!(inner[i] => inner[i].1));
        }
        assert forall|i: int| 0 <= i < array_items(members, name).len() implies decreases_to!(document => #[trigger] array_items(members, name)[i]) by {
            let inner = value->Array_0;
            assert(decreases_to!(value => value->Array_0));
            assert(decreases_to!(inner => inner[i]));
        }
    }
}

pub proof fn lemma_subschemas_decrease(document: JsonView, members: Seq<(Seq<char>, JsonView)>)
    requires
        document == JsonView::Object(members),
    ensures
        forall|i: int| #![trigger subschemas(members)[i]]
            0 <= i < subschemas(members).len() ==> decreases_to!(document => subschemas(members)[i]),
{
    lemma_lookup_decreases(document, members, "properties"@);
    lemma_lookup_decreases(document, members, "items"@);
    lemma_lookup_decreases(document, members, "additionalItems"@);
    lemma_lookup_decreases(document, members, "contains"@);
    lemma_lookup_decreases(document, members, "anyOf"@);
    lemma_lookup_decreases(document, members, "oneOf"@);
    lemma_lookup_decreases(document, members, "allOf"@);
    lemma_lookup_decreases(document, members, "$defs"@);
    lemma_lookup_decreases(document, members, "definitions"@);
    let a = member_values(members, "properties"@);
    let b = a + single(members, "items"@);
    let c = b + single(members, "additionalItems"@);
    let d = c + single(members, "contains"@);
    let e = d + array_items(members, "anyOf"@);
    let f = e + array_items(members, "oneOf"@);
    let g = f + array_items(members, "allOf"@);
    let h = g + member_values(members, "$defs"@);
    let all = h + member_values(members, "definitions"@);
    assert forall|i: int| 0 <= i < all.len() implies decreases_to!(document => #[trigger] all[i]) by {
        if i < a.len() {
            assert(all[i] == a[i]);
        } else if i < b.len() {
            assert(all[i] == single(members, "items"@)[i - a.len()]);
        } else if i < c.len() {
            assert(all[i] == single(members, "additionalItems"@)[i - b.len()]);
        } else if i < d.len() {
            assert(all[i] == single(members, "contains"@)[i - c.len()]);
        } else if i < e.len() {
            assert(all[i] == array_items(members, "anyOf"@)[i - d.len()]);
        } else if i < f.len() {
            assert(all[i] == array_items(members, "oneOf"@)[i - e.len()]);
        } else if i < g.len() {
            assert(all[i] == array_items(members, "allOf"@)[i - f.len()]);
        } else if i < h.len() {
            assert(all[i] == member_values(members, "$defs"@)[i - g.len()]);
        } else {
            assert(all[i] == member_values(members, "definitions"@)[i - h.len()]);
        }
    }
}

/// The faults of the schemas inside a schema, in the order in which they are checked.
pub open spec fn inner_faults(document: JsonView) -> Seq<Option<SchemaFault>>
    decreases document, 0nat,
{
    match document {
        JsonView::Object(members) => {
            proof {
                lemma_subschemas_decrease(document, members);
            }
            Seq::new(
                subschemas(members).len(),
                |i: int|
                    if 0 <= i < subschemas(members).len() {
                        strict_fault(subschemas(members)[i])
                    } else {
                        None
                    },
            )
        },
        _ => Seq::empty(),
    }
}

/// The first fault of a strict schema: its own, or that of a schema inside it.
pub open spec fn strict_fault(document: JsonView) -> Option<SchemaFault>
    decreases document, 1nat,
{
    match document {
        JsonView::Object(members) => if own_fault(members) is Some {
            own_fault(members)
        } else {
            first::first_some(inner_faults(document))
        },
        _ => None,
    }
}

/// What the documents are.
pub open spec fn document_views(documents: Seq<&Json>) -> Seq<JsonView> {
    documents.map_values(|document: &Json| document@)
}

/// A document that stands inside one of the members, at most two levels down.
pub open spec fn below(members: Seq<JsonMember>, inner: &Json) -> bool {
    exists|i: int| 0 <= i < members.len() && below_value(#[trigger] members[i].value, inner)
}

pub open spec fn below_value(value: Json, inner: &Json) -> bool {
    ||| value == *inner
    ||| value matches Json::Array(items) && exists|k: int|
        0 <= k < items@.len() && #[trigger] items@[k] == *inner
    ||| value matches Json::Object(inside) && exists|k: int|
        0 <= k < inside@.len() && (#[trigger] inside@[k]).value == *inner
}

proof fn lemma_below_decreases(schema: Json, members: Vec<JsonMember>, inner: &Json)
    requires
        schema == Json::Object(members),
        below(members@, inner),
    ensures
        decreases_to!(schema => *inner),
{
    let at = choose|i: int|
        0 <= i < members@.len() && below_value(#[trigger] members@[i].value, inner);
    let value = members@[at].value;
    assert(decreases_to!(schema => schema->Object_0));
    assert(decreases_to!(members => members@));
    assert(decreases_to!(members@ => members@[at]));
    assert(decreases_to!(members@[at] => members@[at].value));
    if value == *inner {
    } else if value is Array {
        let items = value->Array_0;
        let k = choose|k: int| 0 <= k < items@.len() && #[trigger] items@[k] == *inner;
        assert(decreases_to!(value => value->Array_0));
        assert(decreases_to!(items => items@));
        assert(decreases_to!(items@ => items@[k]));
    } else {
        let inside = value->Object_0;
        let k = choose|k: int| 0 <= k < inside@.len() && (#[trigger] inside@[k]).value == *inner;
        assert(decreases_to!(value => value->Object_0));
        assert(decreases_to!(inside => inside@));
        assert(decreases_to!(inside@ => inside@[k]));
        assert(decreases_to!(inside@[k] => inside@[k].value));
    }
}

/// Adds the values of the object that the member `name` holds.
fn push_member_values<'a>(found: &mut Vec<&'a Json>, members: &'a Vec<JsonMember>, name: &str)
    requires
        forall|i: int| 0 <= i < old(found)@.len() ==> below(members@, #[trigger] old(found)@[i]),
    ensures
        document_views(final(found)@) == document_views(old(found)@) + member_values(
            json::members_view(members@),
            name@,
        ),
        forall|i: int| 0 <= i < final(found)@.len() ==> below(members@, #[trigger] final(found)@[i]),
{
    let ghost before = found@;
    let ghost expected = member_values(json::members_view(members@), name@);
    match json::member_value(members, name) {
        Some(Json::Object(inside)) => {
            let ghost value = Json::Object(*inside);
            let mut i: usize = 0;
            assert(expected.take(0) =~= Seq::<JsonView>::empty());
            assert(document_views(found@) =~= document_views(before) + expected.take(0));
            assert(value@->Object_0 =~= json::members_view(inside@));
            while i < inside.len()
                invariant
                    i <= inside.len(),
                    value == Json::Object(*inside),
                    value@->Object_0 == json::members_view(inside@),
                    expected.len() == inside@.len(),
                    forall|k: int| 0 <= k < inside@.len() ==> #[trigger] expected[k] == inside@[k].value@,
                    exists|k: int| 0 <= k < members@.len() && (#[trigger] members@[k]).value == value,
                    document_views(found@) == document_views(before) + expected.take(i as int),
                    forall|k: int| 0 <= k < found@.len() ==> below(members@, #[trigger] found@[k]),
                decreases inside.len() - i,
            {
                let ghost held = found@;
                found.push(&inside[i].value);
                proof {
                    let at = choose|k: int|
                        0 <= k < members@.len() && (#[trigger] members@[k]).value == value;
                    assert(below_value(members@[at].value, &inside@[i as int].value));
                    assert(expected.take(i + 1) =~= expected.take(i as int).push(expected[i as int]));
                    assert(document_views(found@) =~= document_views(held).push(
                        inside@[i as int].value@,
                    ));
                    assert(document_views(found@) =~= document_views(before) + expected.take(i + 1));
                    assert forall|k: int| 0 <= k < found@.len() implies below(
                        members@,
                        #[trigger] found@[k],
                    ) by {
                        if k < held.len() {
                            assert(found@[k] == held[k]);
                        }
                    }
                }
                i += 1;
            }
            assert(expected.take(i as int) =~= expected);
        },
        _ => {
            assert(document_views(before) + Seq::<JsonView>::empty() =~= document_views(before));
        },
    }
}

/// Adds the value of the member `name`.
fn push_single<'a>(found: &mut Vec<&'a Json>, members: &'a Vec<JsonMember>, name: &str)
    requires
        forall|i: int| 0 <= i < old(found)@.len() ==> below(members@, #[trigger] old(found)@[i]),
    ensures
        document_views(final(found)@) == document_views(old(found)@) + single(
            json::members_view(members@),
            name@,
        ),
        forall|i: int| 0 <= i < final(found)@.len() ==> below(members@, #[trigger] final(found)@[i]),
{
    let ghost before = found@;
    match json::member_value(members, name) {
        Some(value) => {
            found.push(value);
            proof {
                let at = choose|k: int|
                    0 <= k < members@.len() && (#[trigger] members@[k]).value == *value;
                assert(below_value(members@[at].value, value));
                assert(document_views(found@) =~= document_views(before) + seq![value@]);
                assert forall|k: int| 0 <= k < found@.len() implies below(
                    members@,
                    #[trigger] found@[k],
                ) by {
                    if k < before.len() {
                        assert(found@[k] == before[k]);
                    }
                }
            }
        },
        None => {
            assert(document_views(before) + Seq::<JsonView>::empty() =~= document_views(before));
        },
    }
}

/// Adds the items of the array that the member `name` holds.
fn push_array_items<'a>(found: &mut Vec<&'a Json>, members: &'a Vec<JsonMember>, name: &str)
    requires
        forall|i: int| 0 <= i < old(found)@.len() ==> below(members@, #[trigger] old(found)@[i]),
    ensures
        document_views(final(found)@) == document_views(old(found)@) + array_items(
            json::members_view(members@),
            name@,
        ),
        forall|i: int| 0 <= i < final(found)@.len() ==> below(members@, #[trigger] final(found)@[i]),
{
    let ghost before = found@;
    let ghost expected = array_items(json::members_view(members@), name@);
    match json::member_value(members, name) {
        Some(Json::Array(items)) => {
            let ghost value = Json::Array(*items);
            let mut i: usize = 0;
            assert(expected.take(0) =~= Seq::<JsonView>::empty());
            assert(document_views(found@) =~= document_views(before) + expected.take(0));
            while i < items.len()
                invariant
                    i <= items.len(),
                    value == Json::Array(*items),
                    expected.len() == items@.len(),
                    forall|k: int| 0 <= k < items@.len() ==> #[trigger] expected[k] == items@[k]@,
                    exists|k: int| 0 <= k < members@.len() && (#[trigger] members@[k]).value == value,
                    document_views(found@) == document_views(before) + expected.take(i as int),
                    forall|k: int| 0 <= k < found@.len() ==> below(members@, #[trigger] found@[k]),
                decreases items.len() - i,
            {
                let ghost held = found@;
                found.push(&items[i]);
                proof {
                    let at = choose|k: int|
                        0 <= k < members@.len() && (#[trigger] members@[k]).value == value;
                    assert(items@[i as int] == *found@[held.len() as int]);
                    assert(members@[at].value->Array_0@[i as int] == items@[i as int]);
                    assert(below_value(members@[at].value, &items@[i as int]));
                    assert(expected.take(i + 1) =~= expected.take(i as int).push(expected[i as int]));
                    assert(document_views(found@) =~= document_views(held).push(items@[i as int]@));
                    assert(document_views(found@) =~= document_views(before) + expected.take(i + 1));
                    assert forall|k: int| 0 <= k < found@.len() implies below(
                        members@,
                        #[trigger] found@[k],
                    ) by {
                        if k < held.len() {
                            assert(found@[k] == held[k]);
                        }
                    }
                }
                i += 1;
            }
            assert(expected.take(i as int) =~= expected);
        },
        _ => {
            assert(document_views(before) + Seq::<JsonView>::empty() =~= document_views(before));
        },
    }
}

/// Whether the `type` of a schema is `object`, or holds it.
fn schema_has_object_type(members: &Vec<JsonMember>) -> (yes: bool)
    ensures
        yes == is_object_type(json::members_view(members@)),
{
    match json::member_value(members, "type") {
        Some(Json::Text(kind)) => text::same_text(kind.as_str(), "object"),
        Some(Json::Array(kinds)) => {
            let ghost value = Json::Array(*kinds);
            let ghost wanted = JsonView::Text("object"@);
            let ghost views = value@->Array_0;
            let mut i: usize = 0;
            while i < kinds.len()
                invariant
                    i <= kinds.len(),
                    json::lookup(json::members_view(members@), "type"@) == Some(JsonView::Array(views)),
                    views.len() == kinds@.len(),
                    forall|k: int| 0 <= k < kinds@.len() ==> #[trigger] views[k] == kinds@[k]@,
                    wanted == JsonView::Text("object"@),
                    forall|k: int| 0 <= k < i ==> #[trigger] views[k] != wanted,
                decreases kinds.len() - i,
            {
                match kinds[i].as_str() {
                    Some(kind) => {
                        if text::same_text(kind, "object") {
                            assert(views[i as int] == wanted);
                            return true;
                        }
                    },
                    None => {},
                }
                i += 1;
            }
            false
        },
        _ => false,
    }
}

/// The required names of a schema.
fn required_names(members: &Vec<JsonMember>) -> (names: Option<Vec<String>>)
    ensures
        match names {
            Some(list) => required_texts(json::members_view(members@)) == Some(
                text::texts(list@),
            ),
            None => required_texts(json::members_view(members@)) is None,
        },
{
    match json::member_value(members, "required") {
        None => {
            let names: Vec<String> = Vec::new();
            assert(text::texts(names@) =~= Seq::<Seq<char>>::empty());
            Some(names)
        },
        Some(Json::Array(items)) => {
            let ghost value = Json::Array(*items);
            let ghost views = value@->Array_0;
            let mut names: Vec<String> = Vec::new();
            let mut i: usize = 0;
            while i < items.len()
                invariant
                    i <= items.len(),
                    json::lookup(json::members_view(members@), "required"@) == Some(JsonView::Array(views)),
                    views.len() == items@.len(),
                    forall|k: int| 0 <= k < items@.len() ==> #[trigger] views[k] == items@[k]@,
                    names.len() == i,
                    forall|k: int| 0 <= k < i ==> (#[trigger] views[k]) is Text && names@[k]@ == views[k]->Text_0,
                decreases items.len() - i,
            {
                match items[i].as_str() {
                    Some(name) => {
                        names.push(name.to_owned());
                    },
                    None => {
                        assert(!(views[i as int] is Text));
                        return None;
                    },
                }
                i += 1;
            }
            proof {
                assert(text::texts(names@) =~= views.map_values(|item: JsonView| item->Text_0));
            }
            Some(names)
        },
        Some(_) => None,
    }
}

/// The names of the properties of a schema.
fn property_name_list(members: &Vec<JsonMember>) -> (names: Option<Vec<String>>)
    ensures
        match names {
            Some(list) => property_names(json::members_view(members@)) == Some(
                text::texts(list@),
            ),
            None => property_names(json::members_view(members@)) is None,
        },
{
    match json::member_value(members, "properties") {
        None => {
            let names: Vec<String> = Vec::new();
            assert(text::texts(names@) =~= Seq::<Seq<char>>::empty());
            Some(names)
        },
        Some(Json::Object(inside)) => {
            let ghost value = Json::Object(*inside);
            assert(value@->Object_0 =~= json::members_view(inside@));
            let mut names: Vec<String> = Vec::new();
            let mut i: usize = 0;
            while i < inside.len()
                invariant
                    i <= inside.len(),
                    names.len() == i,
                    forall|k: int| 0 <= k < i ==> (#[trigger] names@[k])@ == inside@[k].name@,
                decreases inside.len() - i,
            {
                names.push(inside[i].name.clone());
                i += 1;
            }
            proof {
                assert(text::texts(names@) =~= json::members_view(inside@).map_values(
                    |m: (Seq<char>, JsonView)| m.0,
                ));
            }
            Some(names)
        },
        Some(_) => None,
    }
}

/// Whether every name of `a` stands in `b`.
fn all_within(a: &Vec<String>, b: &Vec<String>) -> (yes: bool)
    ensures
        yes == forall|i: int|
            0 <= i < text::texts(a@).len() ==> text::texts(b@).contains(#[trigger] text::texts(a@)[i]),
{
    let ghost views = text::texts(a@);
    let mut i: usize = 0;
    while i < a.len()
        invariant
            i <= a.len(),
            views == text::texts(a@),
            forall|k: int| 0 <= k < i ==> text::texts(b@).contains(#[trigger] views[k]),
        decreases a.len() - i,
    {
        if !message::holds_text(b, a[i].as_str()) {
            assert(!text::texts(b@).contains(views[i as int]));
            return false;
        }
        i += 1;
    }
    true
}

/// What is wrong with one object schema, apart from the schemas inside it.
fn own_schema_fault(members: &Vec<JsonMember>) -> (fault: Option<SchemaFault>)
    ensures
        fault == own_fault(json::members_view(members@)),
{
    if !schema_has_object_type(members) {
        return None;
    }
    match json::member_value(members, "additionalProperties") {
        Some(Json::Bool(false)) => {},
        _ => {
            return Some(SchemaFault::AllowsAdditionalProperties);
        },
    }
    let names = match property_name_list(members) {
        Some(names) => names,
        None => {
            return Some(SchemaFault::PropertiesNotAnObject);
        },
    };
    let required = match required_names(members) {
        Some(required) => required,
        None => {
            return Some(SchemaFault::RequiredNotTexts);
        },
    };
    if all_within(&required, &names) && all_within(&names, &required) {
        None
    } else {
        Some(SchemaFault::RequiredNotProperties)
    }
}

/// The first fault of a strict schema: its own, or that of a schema inside it.
pub fn validate_strict_schema_object(schema: &Json) -> (fault: Option<SchemaFault>)
    ensures
        fault == strict_fault(schema@),
    decreases schema,
{
    match schema {
        Json::Object(members) => {
            let ghost view = json::members_view(members@);
            assert(schema@->Object_0 =~= view);
            let own = own_schema_fault(members);
            if own.is_some() {
                return own;
            }
            let mut inner: Vec<&Json> = Vec::new();
            push_member_values(&mut inner, members, "properties");
            push_single(&mut inner, members, "items");
            push_single(&mut inner, members, "additionalItems");
            push_single(&mut inner, members, "contains");
            push_array_items(&mut inner, members, "anyOf");
            push_array_items(&mut inner, members, "oneOf");
            push_array_items(&mut inner, members, "allOf");
            push_member_values(&mut inner, members, "$defs");
            push_member_values(&mut inner, members, "definitions");
            assert(document_views(inner@) =~= subschemas(view));
            let ghost faults = inner_faults(schema@);
            let mut i: usize = 0;
            while i < inner.len()
                invariant
                    i <= inner.len(),
                    schema == Json::Object(*members),
                    view == json::members_view(members@),
                    document_views(inner@) == subschemas(view),
                    faults.len() == inner@.len(),
                    forall|k: int| 0 <= k < inner@.len() ==> #[trigger] faults[k] == strict_fault(inner@[k]@),
                    forall|k: int| 0 <= k < inner@.len() ==> below(members@, #[trigger] inner@[k]),
                    forall|k: int| 0 <= k < i ==> (#[trigger] faults[k]) is None,
                    schema@ == JsonView::Object(view),
                    own_fault(view) is None,
                    strict_fault(schema@) == first::first_some(faults),
                decreases inner.len() - i,
            {
                proof {
                    lemma_below_decreases(*schema, *members, inner@[i as int]);
                }
                let fault = validate_strict_schema_object(inner[i]);
                assert(fault == faults[i as int]);
                if fault.is_some() {
                    proof {
                        first::lemma_first_some_at(faults, i as int);
                    }
                    return fault;
                }
                i += 1;
            }
            proof {
                first::lemma_first_some_at(faults, i as int);
            }
            None
        },
        _ => None,
    }
}

// ---------------------------------------------------------------- tools

/// What is wrong with the name of a tool.
pub open spec fn name_fault(name: Seq<char>) -> Option<SpecFault> {
    if text::blank(name) {
        Some(SpecFault::EmptyName)
    } else if text::byte_len(name) > 64 || exists|i: int|
        0 <= i < name.len() && !name_char(#[trigger] name[i]) {
        Some(SpecFault::InvalidName(name))
    } else {
        None
    }
}

/// A character that the name of a tool may hold.
pub open spec fn name_char(c: char) -> bool {
    text::is_alnum(c) || c == '_' || c == '-'
}

pub open spec fn object_schema(schema: JsonView) -> bool {
    schema matches JsonView::Object(members) && is_object_type(members)
}

/// What is wrong with one schema of a function.
pub open spec fn schema_fault(schema: JsonView, strict: bool) -> Option<SchemaFault> {
    if !object_schema(schema) {
        Some(SchemaFault::NotAnObject)
    } else if strict {
        strict_fault(schema)
    } else {
        None
    }
}

/// What is wrong with the bounds of a web search.
pub open spec fn web_search_bounded(
    filters: Option<Seq<Seq<char>>>,
    location: Option<WebSearchLocation>,
    content_types: Seq<Seq<char>>,
) -> bool {
    &&& match filters {
        Some(domains) => domains.len() <= 100 && forall|i: int|
            0 <= i < domains.len() ==> !text::blank(#[trigger] domains[i]) && text::plain(
                domains[i],
                253,
            ),
        None => true,
    }
    &&& match location {
        Some(place) => opt_bounded(place.country) && opt_bounded(place.region) && opt_bounded(
            place.city,
        ) && opt_bounded(place.timezone),
        None => true,
    }
    &&& content_types.len() <= 16
    &&& forall|i: int|
        0 <= i < content_types.len() ==> (#[trigger] content_types[i]).len() > 0 && text::plain(
            content_types[i],
            64,
        )
}

pub open spec fn opt_bounded(value: Option<String>) -> bool {
    match value {
        Some(text) => text@.len() > 0 && text::plain(text@, 128),
        None => true,
    }
}

/// Whether an earlier tool than the one at `at` has its name.
pub open spec fn name_taken(tools: Seq<SpecView>, at: int) -> bool {
    exists|j: int| 0 <= j < at && (#[trigger] tools[j]).name == tools[at].name
}

impl SpecView {
    /// Whether the tool, or one of its members, is loaded only when it is searched for.
    pub open spec fn deferred(self) -> bool
        decreases self,
    {
        match self.kind {
            KindView::Function { defer_loading, .. } => defer_loading,
            KindView::Namespace { tools } => exists|i: int|
                0 <= i < tools.len() && (#[trigger] tools[i]).deferred(),
            _ => false,
        }
    }

    /// The faults of the members of a namespace: their own, a member that is no function, or a
    /// name that an earlier member has.
    pub open spec fn member_faults(self) -> Seq<Option<SpecFault>>
        decreases self, 0nat,
    {
        match self.kind {
            KindView::Namespace { tools } => Seq::new(
                tools.len(),
                |i: int|
                    if 0 <= i < tools.len() {
                        if tools[i].fault() is Some {
                            tools[i].fault()
                        } else if !(tools[i].kind is Function) {
                            Some(SpecFault::InvalidNamespaceMember(self.name, tools[i].name))
                        } else if name_taken(tools, i) {
                            Some(SpecFault::DuplicateNamespaceMember(self.name, tools[i].name))
                        } else {
                            None
                        }
                    } else {
                        None
                    },
            ),
            _ => Seq::empty(),
        }
    }

    /// What is wrong with the tool.
    pub open spec fn fault(self) -> Option<SpecFault>
        decreases self, 1nat,
    {
        if name_fault(self.name) is Some {
            name_fault(self.name)
        } else {
            match self.kind {
                KindView::Function { input_schema, strict, output_schema, .. } => match (
                    schema_fault(input_schema, strict),
                    output_schema,
                ) {
                    (Some(fault), _) => Some(
                        SpecFault::Schema { output: false, tool: self.name, fault },
                    ),
                    (None, Some(schema)) => match schema_fault(schema, strict) {
                        Some(fault) => Some(
                            SpecFault::Schema { output: true, tool: self.name, fault },
                        ),
                        None => None,
                    },
                    (None, None) => None,
                },
                KindView::Freeform { grammar } => match grammar {
                    Some((_, definition)) => if text::blank(definition) {
                        Some(SpecFault::EmptyGrammarDefinition(self.name))
                    } else {
                        None
                    },
                    None => None,
                },
                KindView::Namespace { tools } => if tools.len() == 0 {
                    Some(SpecFault::EmptyNamespace(self.name))
                } else {
                    first::first_some(self.member_faults())
                },
                KindView::ToolSearch { execution, parameters } => if text::blank(execution) {
                    Some(SpecFault::EmptyToolSearchExecution)
                } else if !(parameters is Object) {
                    Some(SpecFault::ToolSearchParametersMustBeObject)
                } else {
                    None
                },
                KindView::WebSearch { filters, location, content_types, .. } => {
                    if web_search_bounded(filters, location, content_types) {
                        None
                    } else {
                        Some(SpecFault::InvalidWebSearchConfig)
                    }
                },
            }
        }
    }
}

fn schema_error(tool: &str, output: bool, fault: SchemaFault) -> (error: ToolSpecValidationError)
    ensures
        error@ == (SpecFault::Schema { output, tool: tool@, fault }),
{
    let tool = tool.to_owned();
    match (fault, output) {
        (SchemaFault::NotAnObject, false) => ToolSpecValidationError::SchemaMustBeObject { tool },
        (SchemaFault::NotAnObject, true) => ToolSpecValidationError::OutputSchemaMustBeObject {
            tool,
        },
        (SchemaFault::AllowsAdditionalProperties, false) => {
            ToolSpecValidationError::SchemaMustDenyAdditionalProperties { tool }
        },
        (SchemaFault::AllowsAdditionalProperties, true) => {
            ToolSpecValidationError::OutputSchemaMustDenyAdditionalProperties { tool }
        },
        (SchemaFault::PropertiesNotAnObject, false) => {
            ToolSpecValidationError::SchemaPropertiesMustBeObject { tool }
        },
        (SchemaFault::PropertiesNotAnObject, true) => {
            ToolSpecValidationError::OutputSchemaPropertiesMustBeObject { tool }
        },
        (SchemaFault::RequiredNotTexts, false) => {
            ToolSpecValidationError::SchemaRequiredMustBeStringArray { tool }
        },
        (SchemaFault::RequiredNotTexts, true) => {
            ToolSpecValidationError::OutputSchemaRequiredMustBeStringArray { tool }
        },
        (SchemaFault::RequiredNotProperties, false) => {
            ToolSpecValidationError::RequiredMustMatchProperties { tool }
        },
        (SchemaFault::RequiredNotProperties, true) => {
            ToolSpecValidationError::OutputRequiredMustMatchProperties { tool }
        },
    }
}

fn validate_name(name: &str) -> (checked: Result<(), ToolSpecValidationError>)
    ensures
        reports(checked, name_fault(name@)),
{
    if text::is_blank(name) {
        return Err(ToolSpecValidationError::EmptyName);
    }
    if text::byte_len_of(name) > 64 {
        return Err(ToolSpecValidationError::InvalidName { tool: name.to_owned() });
    }
    let chars = text::to_chars(name);
    let mut i: usize = 0;
    while i < chars.len()
        invariant
            i <= chars.len(),
            chars@ == name@,
            !text::blank(name@),
            text::byte_len(name@) <= 64,
            forall|k: int| 0 <= k < i ==> name_char(#[trigger] chars@[k]),
        decreases chars.len() - i,
    {
        let c: char = chars[i];
        if !(text::is_alnum_char(c) || c == '_' || c == '-') {
            assert(!name_char(name@[i as int]));
            return Err(ToolSpecValidationError::InvalidName { tool: name.to_owned() });
        }
        i += 1;
    }
    Ok(())
}

fn is_object_schema(schema: &Json) -> (yes: bool)
    ensures
        yes == object_schema(schema@),
{
    match schema {
        Json::Object(members) => {
            assert(schema@->Object_0 =~= json::members_view(members@));
            schema_has_object_type(members)
        },
        _ => false,
    }
}

/// Checks one schema of a function.
fn validate_object_schema(tool: &str, schema: &Json, strict: bool, output: bool) -> (checked:
    Result<(), ToolSpecValidationError>)
    ensures
        reports(
            checked,
            match schema_fault(schema@, strict) {
                Some(fault) => Some(SpecFault::Schema { output, tool: tool@, fault }),
                None => None,
            },
        ),
{
    if !is_object_schema(schema) {
        return Err(schema_error(tool, output, SchemaFault::NotAnObject));
    }
    if strict {
        match validate_strict_schema_object(schema) {
            Some(fault) => Err(schema_error(tool, output, fault)),
            None => Ok(()),
        }
    } else {
        Ok(())
    }
}

fn is_opt_bounded(value: &Option<String>) -> (yes: bool)
    ensures
        yes == opt_bounded(*value),
{
    match value {
        Some(text) => text.as_str().len() > 0 && text::is_plain(text.as_str(), 128),
        None => true,
    }
}

/// Checks the bounds of a web search.
fn validate_web_search(
    filters: &Option<WebSearchFilters>,
    location: &Option<WebSearchLocation>,
    content_types: &Vec<String>,
) -> (bounded: bool)
    ensures
        bounded == web_search_bounded(
            match filters {
                Some(f) => Some(text::texts(f.allowed_domains@)),
                None => None,
            },
            *location,
            text::texts(content_types@),
        ),
{
    let filters_bounded = match filters {
        Some(f) => f.allowed_domains.len() <= 100 && {
            let ghost views = text::texts(f.allowed_domains@);
            let mut i: usize = 0;
            let mut ok = true;
            while i < f.allowed_domains.len()
                invariant
                    i <= f.allowed_domains.len(),
                    views == text::texts(f.allowed_domains@),
                    ok == forall|k: int|
                        0 <= k < i ==> !text::blank(#[trigger] views[k]) && text::plain(
                            views[k],
                            253,
                        ),
                decreases f.allowed_domains.len() - i,
            {
                assert(views[i as int] == f.allowed_domains@[i as int]@);
                if text::is_blank(f.allowed_domains[i].as_str()) || !text::is_plain(
                    f.allowed_domains[i].as_str(),
                    253,
                ) {
                    ok = false;
                }
                i += 1;
            }
            ok
        },
        None => true,
    };
    let location_bounded = match location {
        Some(place) => is_opt_bounded(&place.country) && is_opt_bounded(&place.region)
            && is_opt_bounded(&place.city) && is_opt_bounded(&place.timezone),
        None => true,
    };
    let ghost views = text::texts(content_types@);
    let mut types_bounded = content_types.len() <= 16;
    let mut i: usize = 0;
    while i < content_types.len()
        invariant
            i <= content_types.len(),
            views == text::texts(content_types@),
            types_bounded == (content_types@.len() <= 16 && forall|k: int|
                0 <= k < i ==> (#[trigger] views[k]).len() > 0 && text::plain(views[k], 64)),
        decreases content_types.len() - i,
    {
        assert(views[i as int] == content_types@[i as int]@);
        proof {
            text::lemma_byte_len_bounds(views[i as int]);
        }
        if text::byte_len_of(content_types[i].as_str()) == 0 || !text::is_plain(
            content_types[i].as_str(),
            64,
        ) {
            types_bounded = false;
        }
        i += 1;
    }
    filters_bounded && location_bounded && types_bounded
}

impl ToolSpec {
    /// A strict function.
    pub fn function(name: &str, description: &str, input_schema: Json) -> (spec: ToolSpec)
        ensures
            spec@ == (SpecView {
                name: name@,
                description: description@,
                kind: KindView::Function {
                    input_schema: input_schema@,
                    strict: true,
                    defer_loading: false,
                    output_schema: None,
                },
            }),
    {
        ToolSpec::function_with_options(name, description, input_schema, true, false, None)
    }

    pub fn function_with_options(
        name: &str,
        description: &str,
        input_schema: Json,
        strict: bool,
        defer_loading: bool,
        output_schema: Option<Json>,
    ) -> (spec: ToolSpec)
        ensures
            spec@ == (SpecView {
                name: name@,
                description: description@,
                kind: KindView::Function {
                    input_schema: input_schema@,
                    strict,
                    defer_loading,
                    output_schema: tools::opt_json(output_schema),
                },
            }),
    {
        ToolSpec {
            name: name.to_owned(),
            description: description.to_owned(),
            kind: ToolKind::Function { input_schema, strict, defer_loading, output_schema },
        }
    }

    pub fn freeform(name: &str, description: &str, grammar: Option<ToolGrammar>) -> (spec: ToolSpec)
        ensures
            spec.name@ == name@,
            spec.description@ == description@,
            spec.kind == (ToolKind::Freeform { grammar }),
    {
        ToolSpec {
            name: name.to_owned(),
            description: description.to_owned(),
            kind: ToolKind::Freeform { grammar },
        }
    }

    pub fn namespace(name: &str, description: &str, tools: Vec<ToolSpec>) -> (spec: ToolSpec)
        ensures
            spec.name@ == name@,
            spec.description@ == description@,
            spec.kind == (ToolKind::Namespace { tools }),
    {
        ToolSpec {
            name: name.to_owned(),
            description: description.to_owned(),
            kind: ToolKind::Namespace { tools },
        }
    }

    pub fn tool_search(description: &str, execution: &str, parameters: Json) -> (spec: ToolSpec)
        ensures
            spec@ == (SpecView {
                name: "tool_search"@,
                description: description@,
                kind: KindView::ToolSearch { execution: execution@, parameters: parameters@ },
            }),
    {
        ToolSpec {
            name: "tool_search".to_owned(),
            description: description.to_owned(),
            kind: ToolKind::ToolSearch { execution: execution.to_owned(), parameters },
        }
    }

    pub fn web_search(
        filters: Option<WebSearchFilters>,
        location: Option<WebSearchLocation>,
        context_size: Option<WebSearchContextSize>,
    ) -> (spec: ToolSpec)
        ensures
            spec.name@ == "web_search"@,
            spec.description@.len() == 0,
            spec.kind is WebSearch,
            spec.kind->external_web_access is None,
            spec.kind->indexed_web_access is None,
            spec.kind->filters == filters,
            spec.kind->location == location,
            spec.kind->context_size == context_size,
            spec.kind->content_types@.len() == 0,
    {
        ToolSpec {
            name: "web_search".to_owned(),
            description: String::new(),
            kind: ToolKind::WebSearch {
                external_web_access: None,
                indexed_web_access: None,
                filters,
                location,
                context_size,
                content_types: Vec::new(),
            },
        }
    }

    /// The schema of a function's input; no other tool has one.
    pub fn input_schema(&self) -> (schema: Option<&Json>)
        ensures
            match schema {
                Some(document) => self.kind is Function && self.kind->input_schema == *document,
                None => !(self.kind is Function),
            },
    {
        match &self.kind {
            ToolKind::Function { input_schema, .. } => Some(input_schema),
            _ => None,
        }
    }

    /// The schema of a function's output, where it states one.
    pub fn output_schema(&self) -> (schema: Option<&Json>)
        ensures
            match schema {
                Some(document) => self.kind is Function && self.kind->output_schema == Some(
                    *document,
                ),
                None => self.kind is Function ==> self.kind->output_schema is None,
            },
    {
        match &self.kind {
            ToolKind::Function { output_schema: Some(document), .. } => Some(document),
            _ => None,
        }
    }

    pub fn is_freeform(&self) -> (yes: bool)
        ensures
            yes == (self.kind is Freeform),
    {
        match &self.kind {
            ToolKind::Freeform { .. } => true,
            _ => false,
        }
    }

    /// Whether the tool, or one of its members, is loaded only when it is searched for.
    pub fn is_deferred(&self) -> (deferred: bool)
        ensures
            deferred == self@.deferred(),
        decreases self,
    {
        match &self.kind {
            ToolKind::Function { defer_loading, .. } => *defer_loading,
            ToolKind::Namespace { tools } => {
                let ghost views = self@.kind->tools;
                let mut i: usize = 0;
                while i < tools.len()
                    invariant
                        i <= tools.len(),
                        self.kind == (ToolKind::Namespace { tools: *tools }),
                        self@.kind == (KindView::Namespace { tools: views }),
                        views.len() == tools@.len(),
                        forall|k: int| 0 <= k < tools@.len() ==> #[trigger] views[k] == tools@[k]@,
                        forall|k: int| 0 <= k < i ==> !(#[trigger] views[k]).deferred(),
                    decreases tools.len() - i,
                {
                    assert(views[i as int] == tools@[i as int]@);
                    if tools[i].is_deferred() {
                        proof {
                            let whole = self@;
                            assert(whole.kind->tools[i as int].deferred());
                            assert(whole.deferred());
                        }
                        return true;
                    }
                    i += 1;
                }
                false
            },
            _ => false,
        }
    }

    /// Refuses a tool that no provider may be sent.
    pub fn validate(&self) -> (checked: Result<(), ToolSpecValidationError>)
        ensures
            reports(checked, self@.fault()),
        decreases self, 1nat,
    {
        match validate_name(self.name.as_str()) {
            Err(error) => {
                return Err(error);
            },
            Ok(()) => {},
        }
        match &self.kind {
            ToolKind::Function { input_schema, strict, output_schema, .. } => {
                match validate_object_schema(self.name.as_str(), input_schema, *strict, false) {
                    Err(error) => {
                        return Err(error);
                    },
                    Ok(()) => {},
                }
                match output_schema {
                    Some(schema) => validate_object_schema(self.name.as_str(), schema, *strict, true),
                    None => Ok(()),
                }
            },
            ToolKind::Freeform { grammar } => match grammar {
                Some(grammar) => if text::is_blank(grammar.definition.as_str()) {
                    Err(ToolSpecValidationError::EmptyGrammarDefinition { tool: self.name.clone() })
                } else {
                    Ok(())
                },
                None => Ok(()),
            },
            ToolKind::Namespace { tools } => self.validate_namespace(tools),
            ToolKind::ToolSearch { execution, parameters } => if text::is_blank(
                execution.as_str(),
            ) {
                Err(ToolSpecValidationError::EmptyToolSearchExecution)
            } else if !parameters.is_object() {
                Err(ToolSpecValidationError::ToolSearchParametersMustBeObject)
            } else {
                Ok(())
            },
            ToolKind::WebSearch { filters, location, content_types, .. } => {
                if validate_web_search(filters, location, content_types) {
                    Ok(())
                } else {
                    Err(ToolSpecValidationError::InvalidWebSearchConfig)
                }
            },
        }
    }

    fn validate_namespace(&self, members: &Vec<ToolSpec>) -> (checked: Result<
        (),
        ToolSpecValidationError,
    >)
        requires
            self.kind == (ToolKind::Namespace { tools: *members }),
            name_fault(self.name@) is None,
        ensures
            reports(checked, self@.fault()),
        decreases self, 0nat,
    {
        if members.len() == 0 {
            return Err(ToolSpecValidationError::EmptyNamespace { namespace: self.name.clone() });
        }
        let ghost views = self@.kind->tools;
        let ghost faults = self@.member_faults();
        let mut i: usize = 0;
        while i < members.len()
            invariant
                i <= members.len(),
                members.len() > 0,
                name_fault(self.name@) is None,
                self.kind == (ToolKind::Namespace { tools: *members }),
                self@.kind == (KindView::Namespace { tools: views }),
                views.len() == members@.len(),
                forall|k: int| 0 <= k < members@.len() ==> #[trigger] views[k] == members@[k]@,
                faults == self@.member_faults(),
                faults.len() == members@.len(),
                forall|k: int| 0 <= k < i ==> (#[trigger] faults[k]) is None,
            decreases members.len() - i,
        {
            let member = &members[i];
            assert(views[i as int] == member@);
            match member.validate() {
                Err(error) => {
                    proof {
                        assert(faults[i as int] == Some(error@));
                        first::lemma_first_some_at(faults, i as int);
                    }
                    return Err(error);
                },
                Ok(()) => {},
            }
            let is_function = match &member.kind {
                ToolKind::Function { .. } => true,
                _ => false,
            };
            if !is_function {
                proof {
                    assert(faults[i as int] is Some);
                    first::lemma_first_some_at(faults, i as int);
                }
                return Err(
                    ToolSpecValidationError::InvalidNamespaceMember {
                        namespace: self.name.clone(),
                        tool: member.name.clone(),
                    },
                );
            }
            let mut taken = false;
            let mut j: usize = 0;
            while j < i
                invariant
                    j <= i < members.len(),
                    views.len() == members@.len(),
                    forall|k: int| 0 <= k < members@.len() ==> #[trigger] views[k] == members@[k]@,
                    taken == exists|k: int| 0 <= k < j && (#[trigger] views[k]).name == views[i as int].name,
                decreases i - j,
            {
                assert(views[j as int] == members@[j as int]@ && views[i as int] == members@[i as int]@);
                if text::same_text(members[j].name.as_str(), members[i].name.as_str()) {
                    assert(views[j as int].name == views[i as int].name);
                    taken = true;
                }
                j += 1;
            }
            assert(taken == name_taken(views, i as int));
            if taken {
                proof {
                    assert(faults[i as int] is Some);
                    first::lemma_first_some_at(faults, i as int);
                }
                return Err(
                    ToolSpecValidationError::DuplicateNamespaceMember {
                        namespace: self.name.clone(),
                        tool: member.name.clone(),
                    },
                );
            }
            assert(faults[i as int] is None);
            i += 1;
        }
        proof {
            first::lemma_first_some_at(faults, i as int);
        }
        Ok(())
    }
}

impl Clone for ToolSpec {
    fn clone(&self) -> (copy: Self)
        ensures
            copy@ == self@,
        decreases self,
    {
        let kind = match &self.kind {
            ToolKind::Function { input_schema, strict, defer_loading, output_schema } => {
                ToolKind::Function {
                    input_schema: input_schema.clone(),
                    strict: *strict,
                    defer_loading: *defer_loading,
                    output_schema: tools::clone_opt_json(output_schema),
                }
            },
            ToolKind::Freeform { grammar } => ToolKind::Freeform {
                grammar: match grammar {
                    Some(g) => Some(
                        ToolGrammar { syntax: g.syntax, definition: g.definition.clone() },
                    ),
                    None => None,
                },
            },
            ToolKind::Namespace { tools } => {
                let ghost views = self@.kind->tools;
                let mut copies: Vec<ToolSpec> = Vec::new();
                let mut i: usize = 0;
                while i < tools.len()
                    invariant
                        i <= tools.len(),
                        self.kind == (ToolKind::Namespace { tools: *tools }),
                        copies.len() == i,
                        forall|k: int| 0 <= k < i ==> (#[trigger] copies@[k])@ == tools@[k]@,
                    decreases tools.len() - i,
                {
                    proof {
                        assert(decreases_to!(*self => self.kind));
                        assert(decreases_to!(self.kind => self.kind->tools));
                        assert(decreases_to!(tools => tools@));
                        assert(decreases_to!(tools@ => tools@[i as int]));
                    }
                    let copy = tools[i].clone();
                    copies.push(copy);
                    i += 1;
                }
                ToolKind::Namespace { tools: copies }
            },
            ToolKind::ToolSearch { execution, parameters } => ToolKind::ToolSearch {
                execution: execution.clone(),
                parameters: parameters.clone(),
            },
            ToolKind::WebSearch {
                external_web_access,
                indexed_web_access,
                filters,
                location,
                context_size,
                content_types,
            } => ToolKind::WebSearch {
                external_web_access: *external_web_access,
                indexed_web_access: *indexed_web_access,
                filters: match filters {
                    Some(f) => Some(
                        WebSearchFilters { allowed_domains: text::clone_texts(&f.allowed_domains) },
                    ),
                    None => None,
                },
                location: match location {
                    Some(place) => Some(
                        WebSearchLocation {
                            country: text::clone_opt(&place.country),
                            region: text::clone_opt(&place.region),
                            city: text::clone_opt(&place.city),
                            timezone: text::clone_opt(&place.timezone),
                        },
                    ),
                    None => None,
                },
                context_size: *context_size,
                content_types: text::clone_texts(content_types),
            },
        };
        let copy = ToolSpec {
            name: self.name.clone(),
            description: self.description.clone(),
            kind,
        };
        proof {
            if self.kind is Namespace {
                assert(copy@.kind->tools =~= self@.kind->tools);
            }
        }
        copy
    }
}

/// A copy of a list of tools.
pub fn clone_specs(specs: &Vec<ToolSpec>) -> (copy: Vec<ToolSpec>)
    ensures
        spec_views(copy@) == spec_views(specs@),
{
    let mut copy: Vec<ToolSpec> = Vec::new();
    let mut i: usize = 0;
    while i < specs.len()
        invariant
            i <= specs.len(),
            copy.len() == i,
            forall|k: int| 0 <= k < i ==> (#[trigger] copy@[k])@ == specs@[k]@,
        decreases specs.len() - i,
    {
        copy.push(specs[i].clone());
        i += 1;
    }
    assert(spec_views(copy@) =~= spec_views(specs@));
    copy
}

/// A tool passes exactly with a name of letters, digits, underscores and dashes, and what its kind
/// needs: a function object schemas, strict ones where it is strict; a freeform tool a grammar with
/// something in it, if any; a namespace functions that pass, each under a name of its own; a search
/// something to run and an object of parameters; a web search its bounds.
pub proof fn law_tools_that_pass(tool: SpecView)
    ensures
        tool.fault() is None <==> {
            &&& !text::blank(tool.name) && text::byte_len(tool.name) <= 64
            &&& forall|i: int|
                0 <= i < tool.name.len() ==> {
                    let c = #[trigger] tool.name[i];
                    '0' <= c <= '9' || 'a' <= c <= 'z' || 'A' <= c <= 'Z' || c == '_' || c == '-'
                }
            &&& match tool.kind {
                KindView::Function { input_schema, strict, output_schema, .. } => {
                    &&& object_schema(input_schema) && (strict ==> strict_fault(input_schema)
                        is None)
                    &&& output_schema matches Some(schema) ==> object_schema(schema) && (strict
                        ==> strict_fault(schema) is None)
                },
                KindView::Freeform { grammar } => grammar matches Some(rule) ==> !text::blank(
                    rule.1,
                ),
                KindView::Namespace { tools } => {
                    &&& tools.len() > 0
                    &&& forall|i: int|
                        0 <= i < tools.len() ==> (#[trigger] tools[i]).fault() is None
                            && tools[i].kind is Function
                    &&& forall|i: int, j: int|
                        0 <= i < j < tools.len() ==> (#[trigger] tools[i]).name != (
                        #[trigger] tools[j]).name
                },
                KindView::ToolSearch { execution, parameters } => !text::blank(execution)
                    && parameters is Object,
                KindView::WebSearch { filters, location, content_types, .. } => {
                    web_search_bounded(filters, location, content_types)
                },
            }
        },
{
    if tool.kind is Namespace {
        let tools = tool.kind->tools;
        let faults = tool.member_faults();
        first::lemma_no_first(faults);
        if first::first_some(faults) is None {
            assert forall|i: int| 0 <= i < tools.len() implies (#[trigger] tools[i]).fault() is None
                && tools[i].kind is Function && !name_taken(tools, i) by {
                assert(faults[i] is None);
            }
            assert forall|i: int, j: int| 0 <= i < j < tools.len() implies (
            #[trigger] tools[i]).name != (#[trigger] tools[j]).name by {
                assert(!name_taken(tools, j));
            }
        } else {
            let at = choose|at: int| 0 <= at < faults.len() && (#[trigger] faults[at]) is Some;
            if tools[at].fault() is None && tools[at].kind is Function {
                assert(name_taken(tools, at));
                let j = choose|j: int| 0 <= j < at && (#[trigger] tools[j]).name == tools[at].name;
                assert(tools[j].name == tools[at].name);
            }
        }
    }
}

/// A strict object denies properties that it does not have and requires all that it has; and every
/// schema inside a strict one is strict.
pub proof fn law_strict_schemas_are_strict_throughout(members: Seq<(Seq<char>, JsonView)>)
    ensures
        strict_fault(JsonView::Object(members)) is None <==> {
            &&& is_object_type(members) ==> {
                &&& json::lookup(members, "additionalProperties"@) == Some(JsonView::Bool(false))
                &&& property_names(members) is Some && required_texts(members) is Some
                &&& forall|name: Seq<char>|
                    #[trigger] property_names(members)->0.contains(name) <==> required_texts(
                        members,
                    )->0.contains(name)
            }
            &&& forall|i: int|
                0 <= i < subschemas(members).len() ==> strict_fault(
                    #[trigger] subschemas(members)[i],
                ) is None
        },
{
    let document = JsonView::Object(members);
    let faults = inner_faults(document);
    lemma_subschemas_decrease(document, members);
    first::lemma_no_first(faults);
    if first::first_some(faults) is None {
        assert forall|i: int| 0 <= i < subschemas(members).len() implies strict_fault(
            #[trigger] subschemas(members)[i],
        ) is None by {
            assert(faults[i] is None);
        }
    } else {
        let at = choose|at: int| 0 <= at < faults.len() && (#[trigger] faults[at]) is Some;
        assert(strict_fault(subschemas(members)[at]) is Some);
    }
    if property_names(members) is Some && required_texts(members) is Some {
        let a = required_texts(members)->0;
        let b = property_names(members)->0;
        if same_names(a, b) {
            assert forall|name: Seq<char>| #[trigger] b.contains(name) <==> a.contains(name) by {
                if b.contains(name) {
                    let k = choose|k: int| 0 <= k < b.len() && b[k] == name;
                    assert(a.contains(b[k]));
                }
                if a.contains(name) {
                    let k = choose|k: int| 0 <= k < a.len() && a[k] == name;
                    assert(b.contains(a[k]));
                }
            }
        }
        if forall|name: Seq<char>| #[trigger] b.contains(name) <==> a.contains(name) {
            assert forall|i: int| 0 <= i < a.len() implies b.contains(#[trigger] a[i]) by {
                assert(a.contains(a[i]));
            }
            assert forall|i: int| 0 <= i < b.len() implies a.contains(#[trigger] b[i]) by {
                assert(b.contains(b[i]));
            }
        }
    }
}

/// The schemas inside a schema are those of its properties, of its items, of what it contains, of
/// its alternatives and of its definitions.
pub proof fn law_schemas_inside_are_found(
    members: Seq<(Seq<char>, JsonView)>,
    name: Seq<char>,
    i: int,
)
    ensures
        ({
            let found = json::lookup(members, name);
            let inside = subschemas(members);
            &&& (name == "properties"@ || name == "$defs"@ || name == "definitions"@) && found
                is Some && found->0 is Object && 0 <= i < found->0->Object_0.len()
                ==> inside.contains(found->0->Object_0[i].1)
            &&& (name == "items"@ || name == "additionalItems"@ || name == "contains"@) && found
                is Some ==> inside.contains(found->0)
            &&& (name == "anyOf"@ || name == "oneOf"@ || name == "allOf"@) && found is Some
                && found->0 is Array && 0 <= i < found->0->Array_0.len() ==> inside.contains(
                found->0->Array_0[i],
            )
        }),
{
    let a = member_values(members, "properties"@);
    let b = single(members, "items"@);
    let c = single(members, "additionalItems"@);
    let d = single(members, "contains"@);
    let e = array_items(members, "anyOf"@);
    let f = array_items(members, "oneOf"@);
    let g = array_items(members, "allOf"@);
    let h = member_values(members, "$defs"@);
    let k = member_values(members, "definitions"@);
    let inside = subschemas(members);
    assert(inside == a + b + c + d + e + f + g + h + k);
    let l1 = a.len() as int;
    let l2 = l1 + b.len();
    let l3 = l2 + c.len();
    let l4 = l3 + d.len();
    let l5 = l4 + e.len();
    let l6 = l5 + f.len();
    let l7 = l6 + g.len();
    let l8 = l7 + h.len();
    if 0 <= i < a.len() {
        assert(inside[i] == a[i]);
    }
    if b.len() > 0 {
        assert(inside[l1] == b[0]);
    }
    if c.len() > 0 {
        assert(inside[l2] == c[0]);
    }
    if d.len() > 0 {
        assert(inside[l3] == d[0]);
    }
    if 0 <= i < e.len() {
        assert(inside[l4 + i] == e[i]);
    }
    if 0 <= i < f.len() {
        assert(inside[l5 + i] == f[i]);
    }
    if 0 <= i < g.len() {
        assert(inside[l6 + i] == g[i]);
    }
    if 0 <= i < h.len() {
        assert(inside[l7 + i] == h[i]);
    }
    if 0 <= i < k.len() {
        assert(inside[l8 + i] == k[i]);
    }
}

/// A tool is loaded on demand where it says so itself, or one of its members does.
pub proof fn law_deferred_tools(tool: SpecView)
    ensures
        tool.deferred() <==> (tool.kind is Function && tool.kind->defer_loading) || (tool.kind
            is Namespace && exists|i: int|
            0 <= i < tool.kind->tools.len() && (#[trigger] tool.kind->tools[i]).deferred()),
{
}

/// A web search is bounded exactly where its domains, its place and its kinds of content are: few
/// enough, each with something in it, short and without controls.
pub proof fn law_web_searches_are_bounded(
    filters: Option<Seq<Seq<char>>>,
    location: Option<WebSearchLocation>,
    content_types: Seq<Seq<char>>,
)
    ensures
        ({
            let short = |value: Option<String>|
                value is Some ==> value->0@.len() > 0 && text::byte_len(value->0@) <= 128
                    && !text::with_control(value->0@);
            web_search_bounded(filters, location, content_types) <==> {
                &&& filters matches Some(domains) ==> domains.len() <= 100 && forall|i: int|
                    0 <= i < domains.len() ==> !text::blank(#[trigger] domains[i])
                        && text::byte_len(domains[i]) <= 253 && !text::with_control(domains[i])
                &&& location matches Some(place) ==> short(place.country) && short(place.region)
                    && short(place.city) && short(place.timezone)
                &&& content_types.len() <= 16
                &&& forall|i: int|
                    0 <= i < content_types.len() ==> (#[trigger] content_types[i]).len() > 0
                        && text::byte_len(content_types[i]) <= 64 && !text::with_control(
                        content_types[i],
                    )
            }
        }),
{
}

/// A schema is of an object where its type says so, alone or among others.
pub proof fn law_object_schemas(members: Seq<(Seq<char>, JsonView)>)
    ensures
        object_schema(JsonView::Object(members)) <==> json::lookup(members, "type"@) == Some(
            JsonView::Text("object"@),
        ) || (json::lookup(members, "type"@) matches Some(JsonView::Array(kinds))
            && kinds.contains(JsonView::Text("object"@))),
{
}

} // verus!
