//! The text that the `web_search` tool answers with.

use vstd::prelude::*;
use crate::bridge::{chars_of, string_of};
use crate::hit::{SearchHit, SearchHitView};
use crate::text::{decimal, push_all, push_str, spec_decimal};

verus! {

/// The outcome of a tool call: success flag and the text shown to the agent.
#[derive(Debug)]
pub struct ToolResult {
    pub success: bool,
    pub output: String,
}

impl ToolResult {
    pub fn success(output: String) -> (r: ToolResult)
        ensures
            r.success,
            r.output@ == output@,
    {
        ToolResult { success: true, output }
    }

    pub fn error(output: String) -> (r: ToolResult)
        ensures
            !r.success,
            r.output@ == output@,
    {
        ToolResult { success: false, output }
    }
}

/// The block for the hit at position `k` (numbered `k + 1`): number and
/// title, the indented address, the indented snippet when there is one.
pub open spec fn spec_render_item(k: nat, h: SearchHitView) -> Seq<char> {
    (if k > 0 {
        "\n"@
    } else {
        Seq::empty()
    }) + spec_decimal(k + 1) + ". "@ + h.title + "\n   "@ + h.url + (if h.snippet.len() > 0 {
        "\n   "@ + h.snippet
    } else {
        Seq::empty()
    }) + "\n"@
}

/// The blocks of all hits, in order.
pub open spec fn spec_render_items(hits: Seq<SearchHitView>) -> Seq<char>
    decreases hits.len(),
{
    if hits.len() == 0 {
        Seq::empty()
    } else {
        spec_render_items(hits.drop_last()) + spec_render_item(
            (hits.len() - 1) as nat,
            hits.last(),
        )
    }
}

/// The numbered list of hits followed by `(source: <engine>)`.
pub open spec fn spec_render_hits(hits: Seq<SearchHitView>, engine: Seq<char>) -> Seq<char> {
    spec_render_items(hits) + "(source: "@ + engine + ")"@
}

/// Renders the hits as a numbered list, naming the engine that found them.
pub fn render_hits(hits: &[SearchHit], engine: &str) -> (r: String)
    ensures
        r@ == spec_render_hits(hits@.map_values(|h: SearchHit| h@), engine@),
{
    let ghost views = hits@.map_values(|h: SearchHit| h@);
    let mut out: Vec<char> = Vec::new();
    let mut i: usize = 0;
    while i < hits.len()
        invariant
            i <= hits@.len(),
            views == hits@.map_values(|h: SearchHit| h@),
            out@ == spec_render_items(views.subrange(0, i as int)),
        decreases hits.len() - i,
    {
        let ghost before = out@;
        let hit = &hits[i];
        if i > 0 {
            push_str(&mut out, "\n");
        }
        push_all(&mut out, &decimal(i + 1));
        push_str(&mut out, ". ");
        push_str(&mut out, hit.title());
        push_str(&mut out, "\n   ");
        push_str(&mut out, hit.url());
        let snippet = chars_of(hit.snippet());
        if snippet.len() > 0 {
            push_str(&mut out, "\n   ");
            push_all(&mut out, &snippet);
        }
        push_str(&mut out, "\n");
        proof {
            let pre = views.subrange(0, i as int);
            let post = views.subrange(0, i + 1);
            assert(post.drop_last() =~= pre);
            assert(post.last() == hit@);
            assert(out@ =~= before + spec_render_item(i as nat, hit@));
        }
        i = i + 1;
    }
    push_str(&mut out, "(source: ");
    push_str(&mut out, engine);
    push_str(&mut out, ")");
    proof {
        assert(views.subrange(0, hits@.len() as int) =~= views);
    }
    string_of(&out)
}

/// The refusal the tool answers with when no engine produced usable hits.
pub open spec fn spec_unavailable_message(reason: Seq<char>) -> Seq<char> {
    "web_search unavailable: "@ + reason
        + ". Do not retry this search with shell, curl, wget, or command-line browsing; report the cause once to the user."@
}

/// The failed tool result that names `reason`.
pub fn web_search_unavailable(reason: &str) -> (r: ToolResult)
    ensures
        !r.success,
        r.output@ == spec_unavailable_message(reason@),
{
    let mut out: Vec<char> = Vec::new();
    push_str(&mut out, "web_search unavailable: ");
    push_str(&mut out, reason);
    push_str(
        &mut out,
        ". Do not retry this search with shell, curl, wget, or command-line browsing; report the cause once to the user.",
    );
    ToolResult::error(string_of(&out))
}

} // verus!
