//! The decisions of the `web_search` tool: checking its arguments, judging
//! each engine's answer, and giving up with the collected reasons.

use vstd::prelude::*;
use crate::bridge::{chars_of, string_of};
use crate::collect::views;
use crate::engine::{has_cjk, spec_has_cjk, spec_label, Engine};
use crate::hit::{is_http_url, SearchHit, SearchHitView};
use crate::pattern::{bytes_contain, spec_bytes_contain};
use crate::relevance::{results_are_relevant, spec_results_are_relevant};
use crate::render::{
    render_hits, spec_render_hits, spec_unavailable_message, web_search_unavailable, ToolResult,
};
use crate::text::{contains, push_all, push_str, spec_contains, spec_starts_with, spec_trim, starts_with, trim};
use crate::urls::{finalize_hits, spec_finalize_hits};
use vstd::utf8::encode_utf8;

verus! {

/// The most bytes read from any remote body.
pub const MAX_BODY_BYTES: usize = 524288;

/// Appends as much of `chunk` as the cap allows; reports whether the cap is
/// reached (reading then stops).
pub fn append_capped(body: &mut Vec<u8>, chunk: &[u8]) -> (full: bool)
    requires
        old(body)@.len() <= MAX_BODY_BYTES,
    ensures
        final(body)@ == old(body)@ + (if chunk@.len() <= MAX_BODY_BYTES - old(body)@.len() {
            chunk@
        } else {
            chunk@.subrange(0, MAX_BODY_BYTES - old(body)@.len())
        }),
        final(body)@.len() <= MAX_BODY_BYTES,
        full == (final(body)@.len() >= MAX_BODY_BYTES),
{
    let remaining = MAX_BODY_BYTES - body.len();
    let take = if chunk.len() <= remaining {
        chunk.len()
    } else {
        remaining
    };
    let part = crate::pattern::slice_bytes(chunk, 0, take);
    crate::pattern::extend(body, &part);
    proof {
        if chunk@.len() <= MAX_BODY_BYTES - old(body)@.len() {
            assert(chunk@.subrange(0, take as int) =~= chunk@);
        }
    }
    body.len() >= MAX_BODY_BYTES
}

/// The checked arguments of one search: the trimmed query and the number of
/// hits wanted.
pub struct SearchRequest {
    pub query: String,
    pub limit: usize,
}

/// The error answered for a missing or blank query.
pub open spec fn missing_query_message() -> Seq<char> {
    "missing string argument: query"@
}

/// `limit` defaults to 5 and is clamped to 1..=10.
pub open spec fn spec_limit(limit: Option<usize>) -> nat {
    let l = match limit {
        Some(l) => l as nat,
        None => 5,
    };
    if l < 1 {
        1
    } else if l > 10 {
        10
    } else {
        l
    }
}

/// Checks the tool arguments: the query must be present and not blank.
pub fn search_request(query: Option<&str>, limit: Option<usize>) -> (r: Result<SearchRequest, ToolResult>)
    ensures
        match r {
            Ok(req) => query matches Some(q) && spec_trim(q@).len() > 0 && req.query@ == spec_trim(q@)
                && req.limit == spec_limit(limit),
            Err(e) => !e.success && e.output@ == missing_query_message() && (query is None || spec_trim(
                query->0@,
            ).len() == 0),
        },
{
    let q = match query {
        Some(q) => trim(&chars_of(q)),
        None => {
            return Err(ToolResult::error(string_of(&chars_of("missing string argument: query"))));
        },
    };
    if q.len() == 0 {
        return Err(ToolResult::error(string_of(&chars_of("missing string argument: query"))));
    }
    let l = match limit {
        Some(l) => l,
        None => 5,
    };
    let l = if l < 1 {
        1
    } else if l > 10 {
        10
    } else {
        l
    };
    Ok(SearchRequest { query: string_of(&q), limit: l })
}

/// Why an engine's answer was not used.
pub open spec fn no_usable(e: Engine) -> Seq<char> {
    spec_label(e) + ": no usable results"@
}

pub open spec fn not_relevant(e: Engine) -> Seq<char> {
    spec_label(e) + ": results not relevant to the query (possible engine cache miss)"@
}

pub open spec fn engine_failed(e: Engine, reason: Seq<char>) -> Seq<char> {
    spec_label(e) + ": "@ + reason
}

/// What one engine's answer decides: the tool's answer when the engine gave
/// relevant hits that survive deduplication, otherwise the reason to record.
pub open spec fn spec_judge(
    e: Engine,
    query: Seq<char>,
    limit: nat,
    outcome: Result<Seq<SearchHitView>, Seq<char>>,
) -> Result<Seq<char>, Seq<char>> {
    match outcome {
        Err(reason) => Err(engine_failed(e, reason)),
        Ok(hits) => if hits.len() == 0 {
            Err(no_usable(e))
        } else if !spec_results_are_relevant(query, hits) {
            Err(not_relevant(e))
        } else {
            let kept = spec_finalize_hits(hits, limit);
            if kept.len() > 0 {
                Ok(spec_render_hits(kept, spec_label(e)))
            } else {
                Err(no_usable(e))
            }
        },
    }
}

/// The reasons gathered so far, joined by `"; "`.
pub open spec fn join_reasons(rs: Seq<Seq<char>>) -> Seq<char>
    decreases rs.len(),
{
    if rs.len() == 0 {
        Seq::empty()
    } else if rs.len() == 1 {
        rs[0]
    } else {
        join_reasons(rs.drop_last()) + "; "@ + rs.last()
    }
}

/// The engines tried so far and why each gave nothing usable.
pub struct Failover {
    failures: Vec<String>,
}

impl View for Failover {
    type V = Seq<Seq<char>>;

    closed spec fn view(&self) -> Seq<Seq<char>> {
        self.failures@.map_values(|s: String| s@)
    }
}

fn label_chars(e: Engine) -> (r: Vec<char>)
    ensures
        r@ == spec_label(e),
{
    chars_of(e.label())
}

impl Failover {
    pub fn new() -> (r: Failover)
        ensures
            r@ == Seq::<Seq<char>>::empty(),
    {
        let r = Failover { failures: Vec::new() };
        assert(r@ =~= Seq::<Seq<char>>::empty());
        r
    }

    fn record(&mut self, reason: Vec<char>)
        ensures
            final(self)@ == old(self)@.push(reason@),
    {
        let s = string_of(&reason);
        let ghost before = self.failures@;
        self.failures.push(s);
        assert(self.failures@.map_values(|s: String| s@) =~= before.map_values(|s: String| s@).push(reason@));
    }

    /// Judges one engine's answer: returns the tool's answer when it is
    /// usable, otherwise records why not.
    pub fn judge(&mut self, engine: Engine, query: &str, limit: usize, outcome: Result<Vec<SearchHit>, String>) -> (r: Option<ToolResult>)
        ensures
            match spec_judge(
                engine,
                query@,
                limit as nat,
                match outcome {
                    Ok(h) => Ok(views(h@)),
                    Err(e) => Err(e@),
                },
            ) {
                Ok(text) => r matches Some(t) && t.success && t.output@ == text && final(self)@ == old(self)@,
                Err(reason) => r is None && final(self)@ == old(self)@.push(reason),
            },
    {
        match outcome {
            Err(reason) => {
                let mut m = label_chars(engine);
                push_str(&mut m, ": ");
                push_str(&mut m, reason.as_str());
                self.record(m);
                None
            },
            Ok(hits) => {
                if hits.len() == 0 {
                    let mut m = label_chars(engine);
                    push_str(&mut m, ": no usable results");
                    self.record(m);
                    return None;
                }
                if !results_are_relevant(query, &hits) {
                    let mut m = label_chars(engine);
                    push_str(&mut m, ": results not relevant to the query (possible engine cache miss)");
                    self.record(m);
                    return None;
                }
                let kept = finalize_hits(hits, limit);
                if kept.len() > 0 {
                    return Some(ToolResult::success(render_hits(&kept, engine.label())));
                }
                let mut m = label_chars(engine);
                push_str(&mut m, ": no usable results");
                self.record(m);
                None
            },
        }
    }

    /// The answer when every engine failed: the reasons, joined.
    pub fn give_up(&self) -> (r: ToolResult)
        ensures
            !r.success,
            r.output@ == spec_unavailable_message(join_reasons(self@)),
    {
        let mut joined: Vec<char> = Vec::new();
        let mut i: usize = 0;
        let ghost fv = self@;
        while i < self.failures.len()
            invariant
                i <= self.failures@.len(),
                fv == self.failures@.map_values(|s: String| s@),
                joined@ == join_reasons(fv.subrange(0, i as int)),
            decreases self.failures.len() - i,
        {
            let ghost pre = fv.subrange(0, i as int);
            if i > 0 {
                push_str(&mut joined, "; ");
            }
            push_str(&mut joined, self.failures[i].as_str());
            i = i + 1;
            proof {
                let post = fv.subrange(0, i as int);
                assert(post.drop_last() =~= pre);
                if i == 1 {
                    assert(joined@ =~= post[0]);
                }
            }
        }
        proof {
            assert(fv.subrange(0, i as int) =~= fv);
        }
        let reason = string_of(&joined);
        web_search_unavailable(reason.as_str())
    }
}

/// The Bing market for a query: Chinese for CJK queries, US English otherwise.
pub fn bing_market(query: &str) -> (r: &'static str)
    ensures
        r@ == (if spec_has_cjk(query@) {
            "zh-CN"@
        } else {
            "en-US"@
        }),
{
    if has_cjk(query) {
        "zh-CN"
    } else {
        "en-US"
    }
}

/// The Wikipedia hosts to try, the query's language first.
pub fn wikipedia_hosts(query: &str) -> (r: Vec<&'static str>)
    ensures
        r@.len() == 2,
        spec_has_cjk(query@) ==> r@[0]@ == "https://zh.wikipedia.org"@ && r@[1]@ == "https://en.wikipedia.org"@,
        !spec_has_cjk(query@) ==> r@[0]@ == "https://en.wikipedia.org"@ && r@[1]@ == "https://zh.wikipedia.org"@,
{
    if has_cjk(query) {
        vec!["https://zh.wikipedia.org", "https://en.wikipedia.org"]
    } else {
        vec!["https://en.wikipedia.org", "https://zh.wikipedia.org"]
    }
}

/// Baidu answered with its anti-spider verification page.
pub fn baidu_blocked(body: &str) -> (r: bool)
    ensures
        r == (spec_bytes_contain(encode_utf8(body@), encode_utf8("wappass.baidu.com"@))
            || spec_bytes_contain(encode_utf8(body@), encode_utf8("百度安全验证"@))),
{
    bytes_contain(body.as_bytes(), "wappass.baidu.com".as_bytes()) || bytes_contain(
        body.as_bytes(),
        "百度安全验证".as_bytes(),
    )
}

/// Sogou (web or Weixin) answered with its anti-spider page.
pub fn sogou_blocked(body: &str) -> (r: bool)
    ensures
        r == spec_bytes_contain(encode_utf8(body@), encode_utf8("antispider"@)),
{
    bytes_contain(body.as_bytes(), "antispider".as_bytes())
}

/// The search endpoint of a configured SearXNG instance: the address
/// trimmed, trailing slashes dropped, `/search` appended; an error when
/// nothing is left.
pub fn searxng_search_url(base: &str) -> (r: Result<String, String>)
    ensures
        match r {
            Ok(u) => crate::urls::trim_end_slashes(spec_trim(base@)).len() > 0 && u@
                == crate::urls::trim_end_slashes(spec_trim(base@)) + "/search"@,
            Err(e) => crate::urls::trim_end_slashes(spec_trim(base@)).len() == 0 && e@
                == "COOMI_SEARXNG_URL is empty"@,
        },
{
    let mut b = trim(&chars_of(base));
    let ghost b0 = b@;
    while b.len() > 0 && b[b.len() - 1] == '/'
        invariant
            crate::urls::trim_end_slashes(b@) == crate::urls::trim_end_slashes(b0),
        decreases b.len(),
    {
        let ghost before = b@;
        b.pop();
        assert(b@ =~= before.drop_last());
    }
    if b.len() == 0 {
        return Err(string_of(&chars_of("COOMI_SEARXNG_URL is empty")));
    }
    push_str(&mut b, "/search");
    Ok(string_of(&b))
}

/// A Baidu hit whose address is a `baidu.com/link?` redirect stub.
pub fn needs_redirect_resolution(hit: &SearchHit) -> (r: bool)
    ensures
        r == spec_contains(hit@.url, "baidu.com/link?"@),
{
    contains(&chars_of(hit.url()), &chars_of("baidu.com/link?"))
}

/// The hit with its address replaced by the redirect target, when the
/// target is an `http(s)://` address; unchanged otherwise.
pub fn with_resolved_target(hit: SearchHit, target: Option<String>) -> (r: SearchHit)
    ensures
        match target {
            Some(t) if is_http_url(t@) => r@ == (SearchHitView { url: t@, ..hit@ }),
            _ => r@ == hit@,
        },
{
    match target {
        Some(t) => {
            let tc = chars_of(t.as_str());
            if starts_with(&tc, &chars_of("http://")) || starts_with(&tc, &chars_of("https://")) {
                hit.with_url(t)
            } else {
                hit
            }
        },
        None => hit,
    }
}

/// What fetching one endpoint gave: parsed hits from a successful answer, a
/// non-success HTTP status (as displayed), or a transport failure.
pub enum FetchOutcome {
    Hits(Vec<SearchHit>),
    Status(String),
    Failed(String),
}

/// The next step after one answer in a multi-endpoint engine: stop with the
/// hits, try the next request of the same host, or leave the host.
pub enum EndpointStep {
    Done(Vec<SearchHit>),
    Next(String),
    Leave(String),
}

fn join2(a: &str, b: &str) -> (r: String)
    ensures
        r@ == a@ + b@,
{
    let mut m: Vec<char> = Vec::new();
    push_str(&mut m, a);
    push_str(&mut m, b);
    string_of(&m)
}

fn join3(a: &str, b: &str, c: &str) -> (r: String)
    ensures
        r@ == a@ + b@ + c@,
{
    let mut m: Vec<char> = Vec::new();
    push_str(&mut m, a);
    push_str(&mut m, b);
    push_str(&mut m, c);
    string_of(&m)
}

/// DuckDuckGo (html, then lite endpoint): hits end the search; otherwise the
/// failure, prefixed by the endpoint, becomes the last error.
pub fn duckduckgo_step(endpoint: &str, outcome: FetchOutcome) -> (r: EndpointStep)
    ensures
        match outcome {
            FetchOutcome::Hits(h) => if h@.len() > 0 {
                r matches EndpointStep::Done(x) && views(x@) == views(h@)
            } else {
                r matches EndpointStep::Next(m) && m@ == endpoint@ + ": no parseable results"@
            },
            FetchOutcome::Status(s) => r matches EndpointStep::Next(m) && m@ == endpoint@ + ": HTTP "@ + s@,
            FetchOutcome::Failed(e) => r matches EndpointStep::Next(m) && m@ == endpoint@ + ": "@ + e@,
        },
{
    match outcome {
        FetchOutcome::Hits(h) => if h.len() > 0 {
            EndpointStep::Done(h)
        } else {
            EndpointStep::Next(join2(endpoint, ": no parseable results"))
        },
        FetchOutcome::Status(st) => EndpointStep::Next(join3(endpoint, ": HTTP ", st.as_str())),
        FetchOutcome::Failed(e) => EndpointStep::Next(join3(endpoint, ": ", e.as_str())),
    }
}

/// The error when no DuckDuckGo endpoint produced hits.
pub fn duckduckgo_give_up(last_error: String) -> (r: String)
    ensures
        r@ == (if last_error@.len() == 0 {
            "no endpoint reached"@
        } else {
            last_error@
        }),
{
    if last_error.as_str().is_empty() {
        string_of(&chars_of("no endpoint reached"))
    } else {
        last_error
    }
}

/// Wikipedia (full-text search, then opensearch, per host): hits end the
/// search; an empty answer moves to the next request; a failed request
/// leaves the host.
pub fn wikipedia_step(host: &str, outcome: FetchOutcome) -> (r: EndpointStep)
    ensures
        match outcome {
            FetchOutcome::Hits(h) => if h@.len() > 0 {
                r matches EndpointStep::Done(x) && views(x@) == views(h@)
            } else {
                r matches EndpointStep::Next(m) && m@ == host@ + ": no matching articles"@
            },
            FetchOutcome::Status(s) => r matches EndpointStep::Leave(m) && m@ == host@ + ": HTTP "@ + s@,
            FetchOutcome::Failed(e) => r matches EndpointStep::Leave(m) && m@ == host@ + ": "@ + e@,
        },
{
    match outcome {
        FetchOutcome::Hits(h) => if h.len() > 0 {
            EndpointStep::Done(h)
        } else {
            EndpointStep::Next(join2(host, ": no matching articles"))
        },
        FetchOutcome::Status(st) => EndpointStep::Leave(join3(host, ": HTTP ", st.as_str())),
        FetchOutcome::Failed(e) => EndpointStep::Leave(join3(host, ": ", e.as_str())),
    }
}

/// The error of an engine request that answered with a non-success status.
pub fn http_status_error(status: &str) -> (r: String)
    ensures
        r@ == "HTTP "@ + status@,
{
    join2("HTTP ", status)
}

} // verus!
