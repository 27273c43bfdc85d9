use agent_core::code_mode::protocol::{normalize_binding, NestedTool};
use agent_core::code_mode::tools::{
    exec_tool_spec, parse_exec_source, wait_tool_spec, ExecInputError, ExecPragma, EXEC_GRAMMAR,
};
use agent_core::json::Json;
use agent_core::tool_spec::{GrammarSyntax, ToolKind, ToolSpec};

#[test]
fn a_tool_name_becomes_a_valid_javascript_identifier() {
    assert_eq!(normalize_binding("exec_command"), "exec_command");
    assert_eq!(normalize_binding("apply-patch"), "apply_patch");
    assert_eq!(normalize_binding("mcp__ologs__get_profile"), "mcp__ologs__get_profile");
    assert_eq!(normalize_binding("2fast"), "_2fast");
    assert_eq!(normalize_binding("-lead"), "_lead");
    assert_eq!(normalize_binding(""), "_");
}

#[test]
fn plain_source_carries_no_pragma() {
    let (pragma, source) = parse_exec_source("text('hi');").unwrap();
    assert_eq!(pragma, ExecPragma::default());
    assert_eq!(source, "text('hi');");
}

#[test]
fn a_first_line_pragma_is_read_and_removed_from_the_source() {
    let (pragma, source) = parse_exec_source(
        "// @exec: {\"yield_time_ms\": 500, \"max_output_tokens\": 32}\ntext(1);",
    )
    .unwrap();
    assert_eq!(pragma.yield_time_ms, Some(500));
    assert_eq!(pragma.max_output_tokens, Some(32));
    assert_eq!(source, "text(1);");
}

#[test]
fn a_comment_that_is_not_the_pragma_stays_in_the_source() {
    let (pragma, source) = parse_exec_source("// ordinary comment\ntext(1);").unwrap();
    assert_eq!(pragma, ExecPragma::default());
    assert_eq!(source, "// ordinary comment\ntext(1);");
}

#[test]
fn a_malformed_pragma_is_refused_rather_than_ignored() {
    assert!(matches!(
        parse_exec_source("// @exec: {not json}\ntext(1);"),
        Err(ExecInputError::MalformedPragma { .. })
    ));
    assert!(matches!(
        parse_exec_source("// @exec: {\"yield_time_ms\": 0}\ntext(1);"),
        Err(ExecInputError::InvalidPragmaField { field: "yield_time_ms" })
    ));
    assert!(matches!(
        parse_exec_source("// @exec: {\"max_output_tokens\": -3}\ntext(1);"),
        Err(ExecInputError::InvalidPragmaField { field: "max_output_tokens" })
    ));
}

#[test]
fn an_empty_or_pragma_only_input_is_refused() {
    assert_eq!(parse_exec_source("   \n  "), Err(ExecInputError::EmptySource));
    assert_eq!(
        parse_exec_source("// @exec: {\"yield_time_ms\": 10}"),
        Err(ExecInputError::EmptySource)
    );
}

#[test]
fn exec_is_a_freeform_tool_carrying_the_baseline_grammar() {
    let spec = exec_tool_spec(&[], true);
    spec.validate().expect("the exec spec must be valid");
    assert!(spec.is_freeform());
    assert_eq!(spec.input_schema(), None);
    let ToolKind::Freeform { grammar } = &spec.kind else {
        unreachable!("exec must be freeform");
    };
    let grammar = grammar.as_ref().expect("exec carries a grammar");
    assert_eq!(grammar.syntax, GrammarSyntax::Lark);
    assert!(grammar.definition.contains("PRAGMA_LINE"));
}

#[test]
fn wait_is_a_strict_function_tool() {
    let spec = wait_tool_spec();
    spec.validate().expect("the wait spec must be valid");
    assert!(!spec.is_freeform());
    let schema = spec.input_schema().expect("wait takes JSON");
    assert_eq!(schema.get("additionalProperties"), Some(&Json::Bool(false)));
}

fn path_schema() -> Json {
    Json::parse(
        r#"{"type":"object","additionalProperties":false,"required":["path","limit"],"properties":{"path":{"type":"string"},"limit":{"type":["integer","null"]}}}"#,
    )
    .unwrap()
}

#[test]
fn the_catalog_projects_function_and_freeform_tools_differently() {
    let catalog = NestedTool::catalog(&[
        ToolSpec::function("read-file", "Reads a file.", path_schema()),
        ToolSpec::freeform("apply_patch", "Applies a patch.", None),
    ]);
    let description = exec_tool_spec(&catalog, true).description;
    assert!(
        description.contains(
            "declare function read_file(input: { limit: number | null; path: string }): Promise<string>;"
        ),
        "{description}"
    );
    assert!(
        description.contains("declare function apply_patch(input: string): Promise<string>;"),
        "{description}"
    );
}

#[test]
fn an_empty_catalog_says_so_instead_of_pretending() {
    let description = exec_tool_spec(&[], false).description;
    assert!(description.contains("No nested tool is available in this cell."));
}

#[test]
fn names_that_normalize_alike_get_bindings_of_their_own() {
    let catalog = NestedTool::catalog(&[
        ToolSpec::freeform("a-b", "", None),
        ToolSpec::freeform("a_b", "", None),
        ToolSpec::freeform("a_b_1", "", None),
        ToolSpec::freeform("a.b", "", None),
    ]);
    let bindings: Vec<&str> = catalog.iter().map(|tool| tool.binding.as_str()).collect();
    assert_eq!(bindings, vec!["a_b", "a_b_1", "a_b_1_1", "a_b_2"]);
}

#[test]
fn a_long_description_says_that_it_was_cut() {
    let catalog = NestedTool::catalog(&[ToolSpec::freeform("t", "1\r\n2\n3\n4\n5", None)]);
    let description = exec_tool_spec(&catalog, false).description;
    assert!(description.contains("// 1\n// 2\n// 3\n// 4\n// [description truncated]\ndeclare function t("));
    let short = NestedTool::catalog(&[ToolSpec::freeform("t", "1\n2\n3\n4\n", None)]);
    assert!(!exec_tool_spec(&short, false).description.contains("truncated"));
}

#[test]
fn the_catalog_is_sorted_and_types_are_listed_once() {
    let schema = Json::parse(
        r#"{"properties":{"n":{"type":["integer","number","null"]},"x":{"type":"array"},"y":{},"z":{"type":[]}},"required":["n"]}"#,
    )
    .unwrap();
    let catalog = NestedTool::catalog(&[
        ToolSpec::function("zeta", "", schema),
        ToolSpec::function("alpha", "", Json::parse(r#"{"properties":{}}"#).unwrap()),
    ]);
    let description = exec_tool_spec(&catalog, false).description;
    assert!(description.ends_with(
        "```ts\ndeclare function alpha(input: Record<string, never>): Promise<string>;\n\ndeclare function zeta(input: { n: number | null; x?: unknown[]; y?: unknown; z?: unknown }): Promise<string>;\n\n```\n"
    ));
}

#[test]
fn byte_order_marks_and_blanks_before_the_pragma_are_passed_over() {
    let (pragma, source) =
        parse_exec_source("\u{feff}\u{feff}  // @exec: {\"yield_time_ms\": 7}\r\ntext(1);").unwrap();
    assert_eq!(pragma.yield_time_ms, Some(7));
    assert_eq!(source, "text(1);");
    let (_, plain) = parse_exec_source("\u{feff}text(1);").unwrap();
    assert_eq!(plain, "text(1);");
}

#[test]
fn a_null_bound_sets_nothing_and_another_value_is_refused_in_words() {
    let (pragma, _) = parse_exec_source("// @exec: {\"yield_time_ms\": null}\nx").unwrap();
    assert_eq!(pragma, ExecPragma::default());
    let error = parse_exec_source("// @exec: []\nx").unwrap_err();
    assert_eq!(
        error.message(),
        "the `// @exec:` pragma is not valid JSON: expected a JSON object"
    );
    let error = parse_exec_source("// @exec: {\"yield_time_ms\": \"5\"}\nx").unwrap_err();
    assert_eq!(
        error.message(),
        "the `// @exec:` pragma field `yield_time_ms` is not a positive integer"
    );
}

#[test]
fn the_grammar_is_spelled_as_lark_reads_it() {
    assert!(EXEC_GRAMMAR.contains("PRAGMA_LINE: /[ \\t]*\\/\\/ @exec:[^\\r\\n]*/\n"));
    assert!(EXEC_GRAMMAR.starts_with("\nstart: pragma_source | plain_source\n"));
}
