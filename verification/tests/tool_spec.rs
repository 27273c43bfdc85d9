use agent_core::json::Json;
use agent_core::tool_spec::{GrammarSyntax, ToolGrammar, ToolSpec, ToolSpecValidationError};

fn parse(text: &str) -> Json {
    Json::parse(text).unwrap()
}

fn strict_schema() -> Json {
    parse(
        r#"{"type":"object","properties":{"path":{"type":"string"}},"required":["path"],"additionalProperties":false}"#,
    )
}

#[test]
fn strict_schema_requires_all_properties() {
    let spec = ToolSpec::function(
        "read",
        "lit",
        parse(
            r#"{"type":"object","properties":{"path":{"type":"string"},"offset":{"type":["integer","null"]}},"required":["path"],"additionalProperties":false}"#,
        ),
    );
    assert!(matches!(
        spec.validate(),
        Err(ToolSpecValidationError::RequiredMustMatchProperties { tool }) if tool == "read"
    ));
}

#[test]
fn output_schema_errors_name_the_output_boundary() {
    let spec = ToolSpec::function_with_options(
        "read",
        "lit",
        strict_schema(),
        true,
        false,
        Some(parse(
            r#"{"type":"object","properties":{"ok":{"type":"boolean"}},"required":[],"additionalProperties":false}"#,
        )),
    );
    assert!(matches!(
        spec.validate(),
        Err(ToolSpecValidationError::OutputRequiredMustMatchProperties { .. })
    ));
}

#[test]
fn freeform_and_namespace_specs_are_valid() {
    let freeform = ToolSpec::freeform(
        "exec",
        "run javascript",
        Some(ToolGrammar {
            syntax: GrammarSyntax::Lark,
            definition: "start: SOURCE\nSOURCE: /[\\s\\S]+/".into(),
        }),
    );
    freeform.validate().unwrap();
    assert!(freeform.input_schema().is_none());

    let member = ToolSpec::function_with_options(
        "lookup",
        "looks up a record",
        parse(r#"{"type":"object","properties":{"id":{"type":"string"}}}"#),
        false,
        true,
        Some(parse(r#"{"type":"object","properties":{"found":{"type":"boolean"}}}"#)),
    );
    let namespace = ToolSpec::namespace("records", "record tools", vec![member]);
    namespace.validate().unwrap();
    assert!(namespace.is_deferred());
}

#[test]
fn duplicate_namespace_members_are_rejected_atomically() {
    let namespace = ToolSpec::namespace(
        "records",
        "record tools",
        vec![
            ToolSpec::function("read", "one", strict_schema()),
            ToolSpec::function("read", "two", strict_schema()),
        ],
    );
    assert!(matches!(
        namespace.validate(),
        Err(ToolSpecValidationError::DuplicateNamespaceMember { namespace, tool })
            if namespace == "records" && tool == "read"
    ));
}

#[test]
fn every_refusal_of_a_tool_has_an_input() {
    let fault = |spec: ToolSpec| spec.validate().unwrap_err();
    assert_eq!(
        fault(ToolSpec::function("", "d", strict_schema())),
        ToolSpecValidationError::EmptyName
    );
    assert_eq!(
        fault(ToolSpec::function("a b", "d", strict_schema())),
        ToolSpecValidationError::InvalidName { tool: "a b".into() }
    );
    assert_eq!(
        fault(ToolSpec::function("t", "d", parse(r#"{"type":"object","properties":1,"required":[],"additionalProperties":false}"#))),
        ToolSpecValidationError::SchemaPropertiesMustBeObject { tool: "t".into() }
    );
    assert_eq!(
        fault(ToolSpec::function("t", "d", parse(r#"{"type":"object","properties":{},"required":[1],"additionalProperties":false}"#))),
        ToolSpecValidationError::SchemaRequiredMustBeStringArray { tool: "t".into() }
    );
    assert_eq!(
        fault(ToolSpec::freeform(
            "t",
            "d",
            Some(ToolGrammar { syntax: GrammarSyntax::Lark, definition: "  ".into() }),
        )),
        ToolSpecValidationError::EmptyGrammarDefinition { tool: "t".into() }
    );
    assert_eq!(
        fault(ToolSpec::namespace("n", "d", Vec::new())),
        ToolSpecValidationError::EmptyNamespace { namespace: "n".into() }
    );
    assert!(matches!(
        fault(ToolSpec::namespace("n", "d", vec![ToolSpec::freeform("t", "d", None)])),
        ToolSpecValidationError::InvalidNamespaceMember { .. }
    ));
    assert_eq!(
        fault(ToolSpec::tool_search("d", " ", parse(r#"{"type":"object"}"#))),
        ToolSpecValidationError::EmptyToolSearchExecution
    );
    assert_eq!(
        fault(ToolSpec::tool_search("d", "client", parse("1"))),
        ToolSpecValidationError::ToolSearchParametersMustBeObject
    );
}

#[test]
fn a_nested_schema_is_held_to_the_same_rules() {
    let spec = ToolSpec::function(
        "read",
        "lit",
        parse(
            r#"{"type":"object","properties":{"o":{"type":"object","properties":{"x":{"type":"string"}},"required":["x"]}},"required":["o"],"additionalProperties":false}"#,
        ),
    );
    assert!(matches!(
        spec.validate(),
        Err(ToolSpecValidationError::SchemaMustDenyAdditionalProperties { .. })
    ));
}
