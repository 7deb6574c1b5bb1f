//! The prompt that manual mode hands to the user to paste into an outside AI.

use vstd::prelude::*;
use crate::bridge::{chars_of, string_of};
use crate::model::{message_views, tool_views, ChatMessage, MessageView, ModelRequest, Role, ToolSpec, ToolSpecView};
use crate::text::{push_all, push_str, spec_take, spec_trim, take_chars, trim};

verus! {

/// The most characters of prompt text kept before the truncation notice.
pub const MANUAL_PROMPT_MAX_CHARS: usize = 200_000;

/// The notice appended to a truncated prompt.
pub open spec fn truncation_notice() -> Seq<char> {
    "\n\n[提示词过长已截断，较早的历史已省略]"@
}

/// A prompt longer than 200 000 characters is cut to its first 200 000
/// characters followed by the truncation notice; a shorter one is unchanged.
pub open spec fn spec_truncate_prompt(p: Seq<char>) -> Seq<char> {
    if p.len() > MANUAL_PROMPT_MAX_CHARS {
        spec_take(p, MANUAL_PROMPT_MAX_CHARS as nat) + truncation_notice()
    } else {
        p
    }
}

/// Keeps the prompt small enough to copy to the clipboard.
pub fn truncate_prompt(out: String) -> (r: String)
    ensures
        r@ == spec_truncate_prompt(out@),
{
    let c = chars_of(out.as_str());
    if c.len() > MANUAL_PROMPT_MAX_CHARS {
        let mut t = take_chars(&c, MANUAL_PROMPT_MAX_CHARS);
        push_str(&mut t, "\n\n[提示词过长已截断，较早的历史已省略]");
        return string_of(&t);
    }
    out
}

/// The conversation is already in the tool loop: it holds a tool result or
/// an assistant message that called tools.
pub open spec fn spec_is_continuation(ms: Seq<MessageView>) -> bool {
    exists|i: int|
        0 <= i < ms.len() && ((#[trigger] ms[i]).role == Role::Tool || (ms[i].role
            == Role::Assistant && ms[i].calls.len() > 0))
}

pub fn is_continuation(messages: &[ChatMessage]) -> (r: bool)
    ensures
        r == spec_is_continuation(messages@.map_values(|m: ChatMessage| m@)),
{
    let ghost mv = messages@.map_values(|m: ChatMessage| m@);
    let mut i: usize = 0;
    while i < messages.len()
        invariant
            i <= messages@.len(),
            mv == messages@.map_values(|m: ChatMessage| m@),
            forall|k: int|
                0 <= k < i ==> !((#[trigger] mv[k]).role == Role::Tool || (mv[k].role == Role::Assistant
                    && mv[k].calls.len() > 0)),
        decreases messages.len() - i,
    {
        let m = &messages[i];
        assert(mv[i as int] == m@);
        if m.role == Role::Tool || (m.role == Role::Assistant && m.tool_calls.len() > 0) {
            return true;
        }
        i = i + 1;
    }
    false
}

/// The messages after the last assistant message (none when there is no
/// assistant message): what happened since the user last pasted an answer.
pub open spec fn spec_latest_increment(ms: Seq<MessageView>) -> Seq<MessageView>
    decreases ms.len(),
{
    if ms.len() == 0 {
        Seq::empty()
    } else if ms.last().role == Role::Assistant {
        Seq::empty()
    } else {
        let before = spec_latest_increment(ms.drop_last());
        if exists|i: int| 0 <= i < ms.len() - 1 && (#[trigger] ms[i]).role == Role::Assistant {
            before.push(ms.last())
        } else {
            Seq::empty()
        }
    }
}

/// The index just after the last assistant message, or none.
pub fn latest_increment_start(messages: &[ChatMessage]) -> (r: Option<usize>)
    ensures
        match r {
            Some(p) => 1 <= p <= messages@.len() && messages@[p - 1].role == Role::Assistant && forall|k: int|
                p <= k < messages@.len() ==> (#[trigger] messages@[k]).role != Role::Assistant,
            None => forall|k: int| 0 <= k < messages@.len() ==> (#[trigger] messages@[k]).role != Role::Assistant,
        },
{
    let mut i: usize = messages.len();
    while i > 0
        invariant
            i <= messages@.len(),
            forall|k: int| i <= k < messages@.len() ==> (#[trigger] messages@[k]).role != Role::Assistant,
        decreases i,
    {
        if messages[i - 1].role == Role::Assistant {
            return Some(i);
        }
        i = i - 1;
    }
    None
}

proof fn lemma_latest_increment(ms: Seq<MessageView>, p: int)
    requires
        1 <= p <= ms.len(),
        ms[p - 1].role == Role::Assistant,
        forall|k: int| p <= k < ms.len() ==> (#[trigger] ms[k]).role != Role::Assistant,
    ensures
        spec_latest_increment(ms) == ms.subrange(p, ms.len() as int),
    decreases ms.len(),
{
    if ms.len() == p {
        assert(ms.subrange(p, ms.len() as int) =~= Seq::<MessageView>::empty());
    } else {
        lemma_latest_increment(ms.drop_last(), p);
        assert(0 <= p - 1 < ms.len() - 1 && ms[p - 1].role == Role::Assistant);
        assert(ms.drop_last().subrange(p, ms.len() - 1).push(ms.last()) =~= ms.subrange(p, ms.len() as int));
    }
}

proof fn lemma_no_assistant(ms: Seq<MessageView>)
    requires
        forall|k: int| 0 <= k < ms.len() ==> (#[trigger] ms[k]).role != Role::Assistant,
    ensures
        spec_latest_increment(ms) == Seq::<MessageView>::empty(),
    decreases ms.len(),
{
    if ms.len() > 0 {
        lemma_no_assistant(ms.drop_last());
    }
}

/// Some message of `ms` carries images.
pub open spec fn any_images(ms: Seq<MessageView>) -> bool {
    exists|i: int| 0 <= i < ms.len() && (#[trigger] ms[i]).has_images
}

/// The recorded tool calls of an assistant message, one line each.
pub open spec fn calls_text(calls: Seq<(Seq<char>, Seq<char>)>) -> Seq<char>
    decreases calls.len(),
{
    if calls.len() == 0 {
        Seq::empty()
    } else {
        calls_text(calls.drop_last()) + "【助手调用工具】"@ + calls.last().0 + " "@ + calls.last().1
            + "\n"@
    }
}

/// How a message appears in the conversation context: system and internal
/// messages are left out.
pub open spec fn context_entry(m: MessageView) -> Seq<char> {
    match m.role {
        Role::System => Seq::empty(),
        Role::User => if m.internal {
            Seq::empty()
        } else {
            "【用户】"@ + m.content + "\n\n"@
        },
        Role::Assistant => (if m.content.len() > 0 {
            "【助手】"@ + m.content + "\n"@
        } else {
            Seq::empty()
        }) + calls_text(m.calls) + "\n"@,
        Role::Tool => "【工具结果】"@ + m.content + "\n\n"@,
    }
}

pub open spec fn context_entries(ms: Seq<MessageView>) -> Seq<char>
    decreases ms.len(),
{
    if ms.len() == 0 {
        Seq::empty()
    } else {
        context_entries(ms.drop_last()) + context_entry(ms.last())
    }
}

/// The conversation-context section of the first prompt.
pub open spec fn spec_context_section(ms: Seq<MessageView>) -> Seq<char> {
    "## 对话上下文\n"@ + context_entries(ms) + (if any_images(ms) {
        "【注】上下文中包含图片，图片二进制数据已省略（仅保留文字）。\n\n"@
    } else {
        Seq::empty()
    })
}

fn push_calls(out: &mut Vec<char>, m: &ChatMessage)
    ensures
        final(out)@ == old(out)@ + calls_text(m@.calls),
{
    let ghost cv = m@.calls;
    let mut j: usize = 0;
    proof {
        assert(cv.subrange(0, 0) =~= Seq::<(Seq<char>, Seq<char>)>::empty());
        assert(out@ =~= old(out)@ + calls_text(cv.subrange(0, 0)));
    }
    while j < m.tool_calls.len()
        invariant
            j <= m.tool_calls@.len(),
            cv == m@.calls,
            cv.len() == m.tool_calls@.len(),
            out@ == old(out)@ + calls_text(cv.subrange(0, j as int)),
        decreases m.tool_calls.len() - j,
    {
        let ghost before = out@;
        let call = &m.tool_calls[j];
        push_str(out, "【助手调用工具】");
        push_str(out, call.name.as_str());
        push_str(out, " ");
        push_str(out, call.arguments.as_str());
        push_str(out, "\n");
        proof {
            let post = cv.subrange(0, j + 1);
            assert(post.drop_last() =~= cv.subrange(0, j as int));
            assert(post.last() == (call.name@, call.arguments@));
            assert(out@ =~= before + "【助手调用工具】"@ + call.name@ + " "@ + call.arguments@ + "\n"@);
        }
        j = j + 1;
    }
    proof {
        assert(cv.subrange(0, j as int) =~= cv);
    }
}

fn push_context_entry(out: &mut Vec<char>, m: &ChatMessage)
    ensures
        final(out)@ == old(out)@ + context_entry(m@),
{
    match m.role {
        Role::System => {
            assert(old(out)@ + Seq::<char>::empty() =~= old(out)@);
        },
        Role::User => {
            if m.internal {
                assert(old(out)@ + Seq::<char>::empty() =~= old(out)@);
            } else {
                push_str(out, "【用户】");
                push_str(out, m.content.as_str());
                push_str(out, "\n\n");
                assert(out@ =~= old(out)@ + ("【用户】"@ + m.content@ + "\n\n"@));
            }
        },
        Role::Assistant => {
            let ghost a = if m.content@.len() > 0 {
                "【助手】"@ + m.content@ + "\n"@
            } else {
                Seq::<char>::empty()
            };
            if !m.content.as_str().is_empty() {
                push_str(out, "【助手】");
                push_str(out, m.content.as_str());
                push_str(out, "\n");
            }
            assert(out@ =~= old(out)@ + a);
            let ghost mid = out@;
            push_calls(out, m);
            push_str(out, "\n");
            assert(out@ =~= old(out)@ + (a + calls_text(m@.calls) + "\n"@));
        },
        Role::Tool => {
            push_str(out, "【工具结果】");
            push_str(out, m.content.as_str());
            push_str(out, "\n\n");
            assert(out@ =~= old(out)@ + ("【工具结果】"@ + m.content@ + "\n\n"@));
        },
    }
}

/// Appends the conversation-context section.
pub fn append_context(out: &mut Vec<char>, request: &ModelRequest)
    ensures
        final(out)@ == old(out)@ + spec_context_section(message_views(request.messages@)),
{
    let ghost mv = message_views(request.messages@);
    push_str(out, "## 对话上下文\n");
    let ghost start = out@;
    let mut had_images = false;
    let mut i: usize = 0;
    proof {
        assert(mv.subrange(0, 0) =~= Seq::<MessageView>::empty());
        assert(out@ =~= start + context_entries(mv.subrange(0, 0)));
    }
    while i < request.messages.len()
        invariant
            i <= request.messages@.len(),
            mv == message_views(request.messages@),
            out@ == start + context_entries(mv.subrange(0, i as int)),
            had_images == any_images(mv.subrange(0, i as int)),
            start == old(out)@ + "## 对话上下文\n"@,
        decreases request.messages.len() - i,
    {
        let m = &request.messages[i];
        assert(mv[i as int] == m@);
        let ghost before = out@;
        if m.image_count > 0 {
            had_images = true;
        }
        push_context_entry(out, m);
        proof {
            let post = mv.subrange(0, i + 1);
            assert(post.drop_last() =~= mv.subrange(0, i as int));
            assert(post.last() == m@);
            assert(out@ =~= start + context_entries(post));
            if had_images {
                if m.image_count > 0 {
                    assert(post[i as int].has_images);
                } else {
                    let k = choose|k: int| 0 <= k < i && (#[trigger] mv.subrange(0, i as int)[k]).has_images;
                    assert(post[k] == mv.subrange(0, i as int)[k]);
                }
            } else {
                assert forall|k: int| 0 <= k < post.len() implies !(#[trigger] post[k]).has_images by {
                    if k < i {
                        assert(post[k] == mv.subrange(0, i as int)[k]);
                    }
                }
            }
        }
        i = i + 1;
    }
    proof {
        assert(mv.subrange(0, i as int) =~= mv);
    }
    let ghost mid = out@;
    if had_images {
        push_str(out, "【注】上下文中包含图片，图片二进制数据已省略（仅保留文字）。\n\n");
    }
    assert(out@ =~= old(out)@ + spec_context_section(mv));
}

/// The contents of the system messages.
pub open spec fn system_contents(ms: Seq<MessageView>) -> Seq<Seq<char>>
    decreases ms.len(),
{
    if ms.len() == 0 {
        Seq::empty()
    } else if ms.last().role == Role::System {
        system_contents(ms.drop_last()).push(ms.last().content)
    } else {
        system_contents(ms.drop_last())
    }
}

/// `parts.join(sep)`.
pub open spec fn join_with(parts: Seq<Seq<char>>, sep: Seq<char>) -> Seq<char>
    decreases parts.len(),
{
    if parts.len() == 0 {
        Seq::empty()
    } else if parts.len() == 1 {
        parts[0]
    } else {
        join_with(parts.drop_last(), sep) + sep + parts.last()
    }
}

/// The system prompt section: the system messages joined by blank lines,
/// trimmed, when anything is left.
pub open spec fn system_section(ms: Seq<MessageView>) -> Seq<char> {
    let joined = spec_trim(join_with(system_contents(ms), "\n\n"@));
    if joined.len() > 0 {
        joined + "\n\n"@
    } else {
        Seq::empty()
    }
}

/// One tool of the tool list: name, description and parameter schema.
pub open spec fn tool_entry(t: ToolSpecView) -> Seq<char> {
    "### "@ + t.name + "\n"@ + t.description + "\n"@ + "参数（parameters）:\n```json\n"@ + t.parameters
        + "\n```\n\n"@
}

pub open spec fn tool_entries(ts: Seq<ToolSpecView>) -> Seq<char>
    decreases ts.len(),
{
    if ts.len() == 0 {
        Seq::empty()
    } else {
        tool_entries(ts.drop_last()) + tool_entry(ts.last())
    }
}

pub open spec fn initial_header() -> Seq<char> {
    "你是 Coomi 的远程分析器。下面为你提供了：系统提示、可用工具清单与完整的对话上下文。\n请基于这些信息继续完成任务。\n\n"@
}

pub open spec fn format_section() -> Seq<char> {
    "## 输出格式（重要）\n"@ + "你只能输出以下两种内容之一：\n"@
        + "1) 需要调用工具时：输出严格的 JSON 工具调用数组（可以包在 ```json 代码块里）：\n"@
        + "```json\n[{\"name\":\"工具名\",\"arguments\":{...}}]\n```\n"@
        + "2) 任务已经完成时：直接输出给用户的最终结论（纯文字，不要再输出工具调用）。\n\n"@
}

pub open spec fn initial_footer() -> Seq<char> {
    "## 请继续\n"@ + "根据以上上下文继续：还需要更多信息就输出工具调用 JSON，任务已完成就输出最终结论。\n"@
}

/// The first prompt of a task: all the rules, the system prompt, every tool
/// with its schema, the output format and the whole conversation.
pub open spec fn spec_initial_prompt(ms: Seq<MessageView>, ts: Seq<ToolSpecView>) -> Seq<char> {
    initial_header() + system_section(ms) + "## 可用工具（Available tools）\n"@ + tool_entries(ts)
        + format_section() + spec_context_section(ms) + initial_footer()
}

fn system_prompt(messages: &[ChatMessage]) -> (r: Vec<char>)
    ensures
        r@ == join_with(system_contents(messages@.map_values(|m: ChatMessage| m@)), "\n\n"@),
{
    let ghost mv = messages@.map_values(|m: ChatMessage| m@);
    let mut out: Vec<char> = Vec::new();
    let mut count: usize = 0;
    let mut i: usize = 0;
    proof {
        assert(mv.subrange(0, 0) =~= Seq::<MessageView>::empty());
    }
    while i < messages.len()
        invariant
            i <= messages@.len(),
            mv == messages@.map_values(|m: ChatMessage| m@),
            out@ == join_with(system_contents(mv.subrange(0, i as int)), "\n\n"@),
            count == system_contents(mv.subrange(0, i as int)).len(),
            count <= i,
        decreases messages.len() - i,
    {
        let m = &messages[i];
        assert(mv[i as int] == m@);
        let ghost pre = mv.subrange(0, i as int);
        let ghost post = mv.subrange(0, i + 1);
        proof {
            assert(post.drop_last() =~= pre);
            assert(post.last() == m@);
        }
        if m.role == Role::System {
            if count > 0 {
                push_str(&mut out, "\n\n");
            }
            push_str(&mut out, m.content.as_str());
            count = count + 1;
            proof {
                let sc = system_contents(post);
                assert(sc == system_contents(pre).push(m.content@));
                assert(sc.drop_last() =~= system_contents(pre));
                if count == 1 {
                    assert(out@ =~= sc[0]);
                }
            }
        }
        i = i + 1;
    }
    proof {
        assert(mv.subrange(0, i as int) =~= mv);
    }
    out
}

fn push_tools(out: &mut Vec<char>, tools: &[ToolSpec])
    ensures
        final(out)@ == old(out)@ + tool_entries(tools@.map_values(|t: ToolSpec| t@)),
{
    let ghost tv = tools@.map_values(|t: ToolSpec| t@);
    let mut i: usize = 0;
    proof {
        assert(tv.subrange(0, 0) =~= Seq::<ToolSpecView>::empty());
        assert(out@ =~= old(out)@ + tool_entries(tv.subrange(0, 0)));
    }
    while i < tools.len()
        invariant
            i <= tools@.len(),
            tv == tools@.map_values(|t: ToolSpec| t@),
            out@ == old(out)@ + tool_entries(tv.subrange(0, i as int)),
        decreases tools.len() - i,
    {
        let t = &tools[i];
        let ghost before = out@;
        push_str(out, "### ");
        push_str(out, t.name.as_str());
        push_str(out, "\n");
        push_str(out, t.description.as_str());
        push_str(out, "\n");
        push_str(out, "参数（parameters）:\n```json\n");
        push_str(out, t.parameters.as_str());
        push_str(out, "\n```\n\n");
        proof {
            let post = tv.subrange(0, i + 1);
            assert(post.drop_last() =~= tv.subrange(0, i as int));
            assert(post.last() == t@);
            assert(out@ =~= before + tool_entry(t@));
        }
        i = i + 1;
    }
    proof {
        assert(tv.subrange(0, i as int) =~= tv);
    }
}

/// First round: the full rules plus the conversation context.
pub fn build_initial_prompt(request: &ModelRequest) -> (r: Vec<char>)
    ensures
        r@ == spec_initial_prompt(message_views(request.messages@), tool_views(request.tools@)),
{
    let mut out: Vec<char> = Vec::new();
    push_str(&mut out, "你是 Coomi 的远程分析器。下面为你提供了：系统提示、可用工具清单与完整的对话上下文。\n请基于这些信息继续完成任务。\n\n");
    let system = trim(&system_prompt(request.messages.as_slice()));
    let ghost a = out@;
    if system.len() > 0 {
        push_all(&mut out, &system);
        push_str(&mut out, "\n\n");
    }
    assert(out@ =~= a + system_section(message_views(request.messages@)));
    push_str(&mut out, "## 可用工具（Available tools）\n");
    push_tools(&mut out, request.tools.as_slice());
    push_str(&mut out, "## 输出格式（重要）\n");
    push_str(&mut out, "你只能输出以下两种内容之一：\n");
    push_str(&mut out, "1) 需要调用工具时：输出严格的 JSON 工具调用数组（可以包在 ```json 代码块里）：\n");
    push_str(&mut out, "```json\n[{\"name\":\"工具名\",\"arguments\":{...}}]\n```\n");
    push_str(&mut out, "2) 任务已经完成时：直接输出给用户的最终结论（纯文字，不要再输出工具调用）。\n\n");
    append_context(&mut out, request);
    push_str(&mut out, "## 请继续\n");
    push_str(&mut out, "根据以上上下文继续：还需要更多信息就输出工具调用 JSON，任务已完成就输出最终结论。\n");
    assert(out@ =~= spec_initial_prompt(message_views(request.messages@), tool_views(request.tools@)));
    out
}

/// How a message of the latest increment appears in a continuation prompt:
/// tool results and internal context (loop goal, resume instruction) only.
pub open spec fn increment_entry(m: MessageView) -> Seq<char> {
    match m.role {
        Role::Tool => "【最新工具结果】"@ + m.content + "\n\n"@,
        Role::User => if m.internal {
            "【执行上下文】"@ + m.content + "\n\n"@
        } else {
            Seq::empty()
        },
        _ => Seq::empty(),
    }
}

pub open spec fn increment_entries(ms: Seq<MessageView>) -> Seq<char>
    decreases ms.len(),
{
    if ms.len() == 0 {
        Seq::empty()
    } else {
        increment_entries(ms.drop_last()) + increment_entry(ms.last())
    }
}

pub open spec fn continuation_footer() -> Seq<char> {
    "请根据以上最新进展继续：需要继续操作就输出 JSON 工具调用（格式与之前一致），任务已完成就输出最终结论。\n"@
}

/// A later round: only the latest progress (tool results and short internal
/// context since the last assistant message) and the instruction to go on.
pub open spec fn spec_continuation_prompt(ms: Seq<MessageView>) -> Seq<char> {
    let inc = spec_latest_increment(ms);
    "## 请继续\n"@ + (if inc.len() == 0 {
        "（无新的工具执行结果）\n\n"@
    } else {
        increment_entries(inc) + (if any_images(inc) {
            "【注】最新结果中包含图片，图片数据已省略（仅保留文字）。\n\n"@
        } else {
            Seq::empty()
        })
    }) + continuation_footer()
}

fn push_increment_entry(out: &mut Vec<char>, m: &ChatMessage)
    ensures
        final(out)@ == old(out)@ + increment_entry(m@),
{
    match m.role {
        Role::Tool => {
            push_str(out, "【最新工具结果】");
            push_str(out, m.content.as_str());
            push_str(out, "\n\n");
            assert(out@ =~= old(out)@ + ("【最新工具结果】"@ + m.content@ + "\n\n"@));
        },
        Role::User => {
            if m.internal {
                push_str(out, "【执行上下文】");
                push_str(out, m.content.as_str());
                push_str(out, "\n\n");
                assert(out@ =~= old(out)@ + ("【执行上下文】"@ + m.content@ + "\n\n"@));
            } else {
                assert(old(out)@ + Seq::<char>::empty() =~= old(out)@);
            }
        },
        _ => {
            assert(old(out)@ + Seq::<char>::empty() =~= old(out)@);
        },
    }
}

/// Later rounds: the latest progress and an instruction to go on.
pub fn build_continuation_prompt(request: &ModelRequest) -> (r: Vec<char>)
    ensures
        r@ == spec_continuation_prompt(message_views(request.messages@)),
{
    let ghost mv = message_views(request.messages@);
    let mut out: Vec<char> = Vec::new();
    push_str(&mut out, "## 请继续\n");
    let ghost head = out@;
    let start = match latest_increment_start(request.messages.as_slice()) {
        Some(p) => {
            proof {
                assert forall|k: int| p <= k < mv.len() implies (#[trigger] mv[k]).role != Role::Assistant by {
                    assert(mv[k] == request.messages@[k]@);
                }
                assert(mv[p - 1] == request.messages@[p - 1]@);
                lemma_latest_increment(mv, p as int);
            }
            p
        },
        None => {
            proof {
                assert forall|k: int| 0 <= k < mv.len() implies (#[trigger] mv[k]).role != Role::Assistant by {
                    assert(mv[k] == request.messages@[k]@);
                }
                lemma_no_assistant(mv);
            }
            request.messages.len()
        },
    };
    let ghost inc = spec_latest_increment(mv);
    proof {
        assert(inc =~= mv.subrange(start as int, mv.len() as int));
    }
    if start == request.messages.len() {
        push_str(&mut out, "（无新的工具执行结果）\n\n");
    } else {
        let mut had_images = false;
        let mut i: usize = start;
        let ghost mid = out@;
        proof {
            assert(inc.subrange(0, 0) =~= Seq::<MessageView>::empty());
            assert(out@ =~= mid + increment_entries(inc.subrange(0, 0)));
        }
        while i < request.messages.len()
            invariant
                start <= i <= request.messages@.len(),
                mv == message_views(request.messages@),
                inc == mv.subrange(start as int, mv.len() as int),
                out@ == mid + increment_entries(inc.subrange(0, i - start)),
                had_images == any_images(inc.subrange(0, i - start)),
            decreases request.messages.len() - i,
        {
            let m = &request.messages[i];
            assert(mv[i as int] == m@);
            assert(inc[i - start] == m@);
            if m.image_count > 0 {
                had_images = true;
            }
            push_increment_entry(&mut out, m);
            proof {
                let pre = inc.subrange(0, i - start);
                let post = inc.subrange(0, i - start + 1);
                assert(post.drop_last() =~= pre);
                assert(post.last() == m@);
                if had_images {
                    if m.image_count > 0 {
                        assert(post[i - start].has_images);
                    } else {
                        let k = choose|k: int| 0 <= k < pre.len() && (#[trigger] pre[k]).has_images;
                        assert(post[k] == pre[k]);
                    }
                } else {
                    assert forall|k: int| 0 <= k < post.len() implies !(#[trigger] post[k]).has_images by {
                        if k < pre.len() {
                            assert(post[k] == pre[k]);
                        }
                    }
                }
            }
            i = i + 1;
        }
        proof {
            assert(inc.subrange(0, i - start) =~= inc);
        }
        if had_images {
            push_str(&mut out, "【注】最新结果中包含图片，图片数据已省略（仅保留文字）。\n\n");
        }
    }
    push_str(&mut out, "请根据以上最新进展继续：需要继续操作就输出 JSON 工具调用（格式与之前一致），任务已完成就输出最终结论。\n");
    assert(out@ =~= spec_continuation_prompt(mv));
    out
}

/// The prompt for one model request: the full rules on the first round,
/// only the latest progress once the task is in the tool loop; cut to the
/// clipboard-safe size.
pub open spec fn spec_build_manual_prompt(ms: Seq<MessageView>, ts: Seq<ToolSpecView>) -> Seq<char> {
    spec_truncate_prompt(
        if spec_is_continuation(ms) {
            spec_continuation_prompt(ms)
        } else {
            spec_initial_prompt(ms, ts)
        },
    )
}

/// Assembles the copyable prompt for one model request.
pub fn build_manual_prompt(request: &ModelRequest) -> (r: String)
    ensures
        r@ == spec_build_manual_prompt(message_views(request.messages@), tool_views(request.tools@)),
{
    let prompt = if is_continuation(request.messages.as_slice()) {
        build_continuation_prompt(request)
    } else {
        build_initial_prompt(request)
    };
    truncate_prompt(string_of(&prompt))
}

/// However long the conversation, the prompt stays within 200 000
/// characters plus the 21-character truncation notice.
pub proof fn lemma_prompt_size_bounded(ms: Seq<MessageView>, ts: Seq<ToolSpecView>)
    ensures
        spec_build_manual_prompt(ms, ts).len() <= MANUAL_PROMPT_MAX_CHARS + 21,
{
    reveal_strlit("\n\n[提示词过长已截断，较早的历史已省略]");
    assert(truncation_notice().len() == 21);
}

/// Once the task is in the tool loop, the prompt depends on nothing but the
/// latest increment: neither the system prompt, nor the tools, nor any
/// earlier message reaches it.
pub proof fn lemma_continuation_sees_only_latest_increment(
    ms1: Seq<MessageView>,
    ms2: Seq<MessageView>,
    ts1: Seq<ToolSpecView>,
    ts2: Seq<ToolSpecView>,
)
    requires
        spec_is_continuation(ms1),
        spec_is_continuation(ms2),
        spec_latest_increment(ms1) == spec_latest_increment(ms2),
    ensures
        spec_build_manual_prompt(ms1, ts1) == spec_build_manual_prompt(ms2, ts2),
{
}

} // verus!
