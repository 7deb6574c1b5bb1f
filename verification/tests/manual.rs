use coomi::json::Json;
use coomi::manual::{
    parse_manual_response, parse_manual_response_given, try_parse_manual_response,
};
use coomi::model::ToolSpec;

fn spec(name: &str) -> ToolSpec {
    ToolSpec {
        name: name.to_string(),
        description: name.to_string(),
        parameters: "{\n  \"type\": \"object\"\n}".to_string(),
    }
}

fn specs(names: &[&str]) -> Vec<ToolSpec> {
    names.iter().map(|name| spec(name)).collect()
}

fn text_arg<'a>(args: &'a Json, key: &str) -> Option<&'a str> {
    args.get(key).and_then(|v| v.as_str())
}

#[test]
fn parses_openai_tool_calls_json() {
    let raw = r#"{"tool_calls":[{"id":"1","type":"function","function":{"name":"read_file","arguments":"{\"path\":\"a.txt\"}"}}]}"#;
    let parsed = parse_manual_response(raw, &specs(&["read_file"]));
    assert_eq!(parsed.tool_calls.len(), 1);
    assert_eq!(parsed.tool_calls[0].name, "read_file");
    assert_eq!(text_arg(&parsed.tool_calls[0].arguments, "path"), Some("a.txt"));
}

#[test]
fn parses_fenced_json_array() {
    let raw = "我会先读文件：\n```json\n[{\"name\":\"list_dir\",\"arguments\":{\"path\":\".\"}}]\n```\n然后继续。";
    let parsed = parse_manual_response(raw, &specs(&["list_dir"]));
    assert_eq!(parsed.tool_calls.len(), 1);
    assert_eq!(parsed.tool_calls[0].name, "list_dir");
    assert!(!parsed.content.is_empty());
}

#[test]
fn parses_raw_json_array() {
    let raw = r#"[{"name":"shell","arguments":{"command":"pwd"}}]"#;
    let parsed = parse_manual_response(raw, &specs(&["shell"]));
    assert_eq!(parsed.tool_calls.len(), 1);
    assert_eq!(text_arg(&parsed.tool_calls[0].arguments, "command"), Some("pwd"));
}

#[test]
fn parses_xml_style() {
    let raw = "<tool_call><name>read_file</name><arguments>{\"path\":\"b\"}</arguments></tool_call>";
    let parsed = parse_manual_response(raw, &specs(&["read_file"]));
    assert_eq!(parsed.tool_calls.len(), 1);
    assert_eq!(parsed.tool_calls[0].name, "read_file");
}

#[test]
fn parses_line_syntax() {
    let raw = "TOOL: write_file ARGS: {\"path\":\"c\",\"content\":\"hi\"}";
    let parsed = parse_manual_response(raw, &specs(&["write_file"]));
    assert_eq!(parsed.tool_calls.len(), 1);
    assert_eq!(text_arg(&parsed.tool_calls[0].arguments, "path"), Some("c"));
}

#[test]
fn drops_unknown_tools_with_warning() {
    let raw = r#"[{"name":"not_a_tool","arguments":{}},{"name":"list_dir","arguments":{}}]"#;
    let parsed = parse_manual_response(raw, &specs(&["list_dir"]));
    assert_eq!(parsed.tool_calls.len(), 1);
    assert!(parsed.warnings.iter().any(|w| w.contains("not_a_tool")));
}

#[test]
fn plain_text_answer_has_no_tools() {
    let raw = "任务已经完成：文件已生成。";
    let parsed = parse_manual_response(raw, &specs(&["read_file"]));
    assert!(parsed.tool_calls.is_empty());
    assert_eq!(parsed.content, raw);
}

#[test]
fn greedy_scan_finds_known_tool_with_args() {
    let raw = "接下来我调用 read_file，参数是 {\"path\":\"x.txt\"}";
    let parsed = parse_manual_response(raw, &specs(&["read_file"]));
    assert_eq!(parsed.tool_calls.len(), 1);
    assert_eq!(text_arg(&parsed.tool_calls[0].arguments, "path"), Some("x.txt"));
}

#[test]
fn mention_without_args_is_not_a_call() {
    let raw = "可以使用 read_file 或 write_file 来完成这个任务，没有更多需要做的了。";
    let parsed = parse_manual_response(raw, &specs(&["read_file", "write_file"]));
    assert!(parsed.tool_calls.is_empty());
}

#[test]
fn blank_answer_runs_nothing_and_warns() {
    let parsed = parse_manual_response(" \n\t ", &specs(&["read_file"]));
    assert!(parsed.tool_calls.is_empty());
    assert!(parsed.invalid.is_empty());
    assert_eq!(parsed.content, "");
    assert_eq!(parsed.warnings, vec!["人工回复为空，未执行任何操作".to_string()]);
}

#[test]
fn unknown_tool_warning_text_and_call_numbering() {
    let raw = r#"[{"name":"not_a_tool","arguments":{}},{"name":"list_dir","arguments":{}}]"#;
    let parsed = parse_manual_response(raw, &specs(&["list_dir"]));
    assert_eq!(parsed.warnings, vec!["忽略未知工具: not_a_tool".to_string()]);
    // Calls are numbered by their place among all calls found.
    assert_eq!(parsed.tool_calls[0].id, "manual-call-2");
    assert!(matches!(&parsed.tool_calls[0].arguments, Json::Object(m) if m.is_empty()));
}

#[test]
fn arguments_that_stay_non_object_make_an_invalid_call() {
    // The arguments are a JSON text of a JSON text of an array.
    let raw = r#"[{"name":"list_dir","arguments":"\"[1]\""}]"#;
    let parsed = parse_manual_response(raw, &specs(&["list_dir"]));
    assert!(parsed.tool_calls.is_empty());
    assert_eq!(parsed.invalid.len(), 1);
    assert_eq!(parsed.invalid[0].id, "manual-call-1");
    assert_eq!(parsed.invalid[0].name, "list_dir");
    assert_eq!(parsed.invalid[0].reason, "tool arguments are not a JSON object");
    // Nothing to run: the content is the whole answer.
    assert_eq!(parsed.content, raw);
}

#[test]
fn narrative_drops_code_blocks_and_tool_lines() {
    let raw = "先看看目录。\n```json\n[{\"name\":\"list_dir\",\"arguments\":{}}]\n```\n然后   再说。";
    let parsed = parse_manual_response(raw, &specs(&["list_dir"]));
    assert_eq!(parsed.tool_calls.len(), 1);
    assert_eq!(parsed.content, "先看看目录。 然后 再说。");
}

#[test]
fn anthropic_output_array_is_read() {
    let raw = r#"{"output":[{"type":"message","name":"x"},{"type":"function_call","name":"read_file","arguments":"{\"path\":\"o.txt\"}"}]}"#;
    let parsed = parse_manual_response(raw, &specs(&["read_file"]));
    assert_eq!(parsed.tool_calls.len(), 1);
    assert_eq!(parsed.tool_calls[0].id, "manual-call-1");
    assert_eq!(text_arg(&parsed.tool_calls[0].arguments, "path"), Some("o.txt"));
}

#[test]
fn bracket_tags_are_read() {
    let raw = "[tool]read_file[/tool][args]{\"path\":\"t\"}[/args]";
    let parsed = parse_manual_response(raw, &specs(&["read_file"]));
    assert_eq!(parsed.tool_calls.len(), 1);
    assert_eq!(text_arg(&parsed.tool_calls[0].arguments, "path"), Some("t"));
}

#[test]
fn scan_needs_a_clean_name_and_nearby_arguments() {
    // `my_read_file` contains the name but is another identifier.
    let raw = "调用 my_read_file {\"path\":\"x\"}";
    let parsed = parse_manual_response(raw, &specs(&["read_file"]));
    assert!(parsed.tool_calls.is_empty());
    // Arguments that open more than 200 bytes after the name are no call.
    let far = format!("read_file {}{{\"path\":\"x\"}}", "、".repeat(70));
    let parsed = parse_manual_response(&far, &specs(&["read_file"]));
    assert!(parsed.tool_calls.is_empty());
    let near = format!("read_file {}{{\"path\":\"x\"}}", "、".repeat(60));
    let parsed = parse_manual_response(&near, &specs(&["read_file"]));
    assert_eq!(parsed.tool_calls.len(), 1);
}

#[test]
fn reading_that_would_not_end_is_refused() {
    assert!(try_parse_manual_response("abc", &specs(&[""])).is_none());
    assert!(try_parse_manual_response(" abc", &specs(&[""])).is_some());
    assert!(try_parse_manual_response("abc", &specs(&["read_file"])).is_some());
    // A reading before the scan finds a call: the scan is never reached.
    let found = try_parse_manual_response(r#"a [{"name":"t","arguments":{}}]"#, &specs(&[""]))
        .expect("ends");
    assert!(found.tool_calls.is_empty());
    assert_eq!(found.warnings, vec!["忽略未知工具: t".to_string()]);
}

#[test]
fn given_parses_decide_what_is_json() {
    let raw = r#"[{"name":"shell","arguments":{"command":"pwd"}}]"#;
    // With no parse given, the answer is not JSON: the scan finds `shell`
    // and its arguments text, which is not JSON either, so the call is
    // invalid.
    let parsed = parse_manual_response_given(raw, &specs(&["shell"]), &[]).expect("ends");
    assert!(parsed.tool_calls.is_empty());
    assert_eq!(parsed.invalid.len(), 1);
    assert_eq!(parsed.invalid[0].name, "shell");
    // Given the parse of the whole answer, its call is read from it.
    let value = Json::Array(vec![Json::Object(vec![
        ("name".to_string(), Json::Str("shell".to_string())),
        (
            "arguments".to_string(),
            Json::Object(vec![("command".to_string(), Json::Str("ls".to_string()))]),
        ),
    ])]);
    let table = vec![(raw.to_string(), Some(value))];
    let parsed = parse_manual_response_given(raw, &specs(&["shell"]), &table).expect("ends");
    assert_eq!(parsed.tool_calls.len(), 1);
    assert_eq!(text_arg(&parsed.tool_calls[0].arguments, "command"), Some("ls"));
}

#[test]
fn arguments_that_are_not_json_make_an_invalid_call() {
    let raw = "<tool_call><name>read_file</name><arguments>not json</arguments></tool_call>";
    let parsed = parse_manual_response(raw, &specs(&["read_file"]));
    assert!(parsed.tool_calls.is_empty());
    assert_eq!(parsed.invalid.len(), 1);
    assert_eq!(parsed.invalid[0].name, "read_file");
    assert_eq!(parsed.invalid[0].id, "manual-call-1");
    // A JSON call whose arguments are a text that is not JSON is invalid too.
    let raw = r#"[{"name":"read_file","arguments":"oops"}]"#;
    let parsed = parse_manual_response(raw, &specs(&["read_file"]));
    assert!(parsed.tool_calls.is_empty());
    assert_eq!(parsed.invalid.len(), 1);
}

#[test]
fn missing_arguments_are_an_empty_object() {
    let raw = "<tool_call><name>list_dir</name></tool_call>";
    let parsed = parse_manual_response(raw, &specs(&["list_dir"]));
    assert_eq!(parsed.tool_calls.len(), 1);
    assert!(matches!(&parsed.tool_calls[0].arguments, Json::Object(m) if m.is_empty()));
    assert!(parsed.invalid.is_empty());
}
