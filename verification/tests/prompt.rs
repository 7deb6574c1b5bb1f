use coomi::model::{ChatMessage, ModelRequest, RecordedCall, Role, ToolSpec};
use coomi::prompt::{build_manual_prompt, MANUAL_PROMPT_MAX_CHARS};

fn message(role: Role, content: &str) -> ChatMessage {
    ChatMessage {
        role,
        content: content.to_string(),
        tool_calls: Vec::new(),
        image_count: 0,
        internal: false,
    }
}

fn system(content: &str) -> ChatMessage {
    message(Role::System, content)
}

fn user(content: &str) -> ChatMessage {
    message(Role::User, content)
}

fn internal_user(content: &str) -> ChatMessage {
    ChatMessage { internal: true, ..message(Role::User, content) }
}

fn assistant(content: &str, calls: Vec<RecordedCall>) -> ChatMessage {
    ChatMessage { tool_calls: calls, ..message(Role::Assistant, content) }
}

fn tool(content: &str) -> ChatMessage {
    message(Role::Tool, content)
}

fn call(name: &str, arguments: &str) -> RecordedCall {
    RecordedCall { name: name.to_string(), arguments: arguments.to_string() }
}

fn tool_spec(name: &str, description: &str, parameters: &str) -> ToolSpec {
    ToolSpec {
        name: name.to_string(),
        description: description.to_string(),
        parameters: parameters.to_string(),
    }
}

const PATH_SCHEMA: &str = "{\n  \"properties\": {\n    \"path\": {\n      \"type\": \"string\"\n    }\n  },\n  \"type\": \"object\"\n}";
const OBJECT_SCHEMA: &str = "{\n  \"type\": \"object\"\n}";

#[test]
fn prompt_includes_system_tools_format_and_history() {
    let request = ModelRequest {
        model: "manual".into(),
        messages: vec![system("SYSTEM_PROMPT_正文"), user("帮我写文件")],
        tools: vec![tool_spec("write_file", "写入文件", PATH_SCHEMA)],
    };
    let prompt = build_manual_prompt(&request);
    assert!(prompt.contains("SYSTEM_PROMPT_正文"));
    assert!(prompt.contains("write_file"));
    assert!(prompt.contains("输出格式"));
    assert!(prompt.contains("帮我写文件"));
    assert!(prompt.contains("\"properties\""));
}

#[test]
fn continuation_sends_only_latest_increment() {
    let request = ModelRequest {
        model: "manual".into(),
        messages: vec![
            system("SYSTEM_PROMPT_正文（首轮已声明，续轮不应重复）"),
            user("帮我写文件"),
            assistant("", vec![call("write_file", "{\"path\":\"a.txt\"}")]),
            tool("success: wrote 2 bytes"),
        ],
        tools: vec![tool_spec("write_file", "写入文件", PATH_SCHEMA)],
    };
    let prompt = build_manual_prompt(&request);
    assert!(prompt.contains("success: wrote 2 bytes"));
    assert!(prompt.contains("## 请继续"));
    assert!(!prompt.contains("SYSTEM_PROMPT_正文（首轮已声明，续轮不应重复）"));
    assert!(!prompt.contains("write_file"));
    assert!(!prompt.contains("\"properties\""));
    assert!(!prompt.contains("帮我写文件"));
}

#[test]
fn continuation_omits_identity_tools_and_history() {
    let request = ModelRequest {
        model: "manual".into(),
        messages: vec![
            system(
                "## Custom Identity (身份定位)\n我是一个严谨的工程师\n\nYou are Coomi, a pragmatic coding agent. 后续基础规则……",
            ),
            user("任务目标"),
            assistant("", vec![call("read_file", "{\"path\":\"a.txt\"}")]),
            tool("success: 文件内容"),
        ],
        tools: vec![tool_spec("read_file", "读取文件", OBJECT_SCHEMA)],
    };
    let prompt = build_manual_prompt(&request);
    assert!(!prompt.contains("Custom Identity"));
    assert!(!prompt.contains("我是一个严谨的工程师"));
    assert!(!prompt.contains("pragmatic coding agent"));
    assert!(!prompt.contains("read_file"));
    assert!(!prompt.contains("任务目标"));
    assert!(prompt.contains("文件内容"));
    assert!(prompt.contains("## 请继续"));
}

#[test]
fn continuation_only_carries_the_latest_tool_batch() {
    let request = ModelRequest {
        model: "manual".into(),
        messages: vec![
            system("sys"),
            user("任务"),
            assistant("", vec![call("list_dir", "{}")]),
            tool("第一批工具结果"),
            assistant("", vec![call("read_file", "{\"path\":\"a.txt\"}")]),
            tool("第二批工具结果（最新）"),
        ],
        tools: vec![],
    };
    let prompt = build_manual_prompt(&request);
    assert!(prompt.contains("第二批工具结果（最新）"));
    assert!(!prompt.contains("第一批工具结果"));
}

#[test]
fn continuation_carries_loop_context_without_replaying_history() {
    let request = ModelRequest {
        model: "manual".into(),
        messages: vec![
            system("sys"),
            user("任务目标"),
            assistant("", vec![call("list_dir", "{}")]),
            tool("旧的工具结果"),
            assistant("上一步完成", Vec::new()),
            internal_user(
                "<loop_context>\nContinue working autonomously toward the active Loop objective: 持续构建项目\n</loop_context>",
            ),
        ],
        tools: vec![],
    };
    let prompt = build_manual_prompt(&request);
    assert!(prompt.contains("持续构建项目"));
    assert!(prompt.contains("## 请继续"));
    assert!(!prompt.contains("任务目标"));
    assert!(!prompt.contains("旧的工具结果"));
    assert!(!prompt.contains("上一步完成"));
}

#[test]
fn new_turn_without_tool_history_is_initial() {
    let request = ModelRequest {
        model: "manual".into(),
        messages: vec![
            system("SYSTEM_PROMPT_正文"),
            user("第一个问题"),
            assistant("第一个回答", Vec::new()),
            user("第二个问题"),
        ],
        tools: vec![tool_spec("read_file", "读取文件", OBJECT_SCHEMA)],
    };
    let prompt = build_manual_prompt(&request);
    assert!(prompt.contains("SYSTEM_PROMPT_正文"));
    assert!(prompt.contains("第一个问题"));
    assert!(prompt.contains("第二个问题"));
}

#[test]
fn prompt_skips_internal_user_messages() {
    let request = ModelRequest {
        model: "manual".into(),
        messages: vec![internal_user("内部指令不应出现")],
        tools: vec![],
    };
    let prompt = build_manual_prompt(&request);
    assert!(!prompt.contains("内部指令不应出现"));
}

#[test]
fn prompt_truncates_overlong_context() {
    let big = "长".repeat(300_000);
    let request = ModelRequest {
        model: "manual".into(),
        messages: vec![user(&big)],
        tools: vec![],
    };
    let prompt = build_manual_prompt(&request);
    assert!(prompt.chars().count() <= MANUAL_PROMPT_MAX_CHARS + 64);
    assert!(prompt.contains("提示词过长已截断"));
}

#[test]
fn truncated_prompt_is_exactly_the_limit_plus_notice() {
    let big = "长".repeat(300_000);
    let request = ModelRequest { model: "manual".into(), messages: vec![user(&big)], tools: vec![] };
    let prompt = build_manual_prompt(&request);
    assert_eq!(prompt.chars().count(), MANUAL_PROMPT_MAX_CHARS + 21);
    assert!(prompt.ends_with("\n\n[提示词过长已截断，较早的历史已省略]"));
}

#[test]
fn continuation_notes_omitted_images() {
    let mut result = tool("截图结果");
    result.image_count = 1;
    let request = ModelRequest {
        model: "manual".into(),
        messages: vec![user("看图"), assistant("", vec![call("screenshot", "{}")]), result],
        tools: vec![],
    };
    let prompt = build_manual_prompt(&request);
    assert!(prompt.starts_with("## 请继续\n【最新工具结果】截图结果\n\n"));
    assert!(prompt.contains("【注】最新结果中包含图片，图片数据已省略（仅保留文字）。"));
}
