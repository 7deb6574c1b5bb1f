//! The search engines, their labels and the order in which they are tried.

use vstd::prelude::*;
use crate::bridge::chars_of;
use crate::text::{ascii_lowercase, is_str, spec_ascii_lowercase, spec_trim, trim};

verus! {

/// One keyless search backend.
#[derive(Debug, Clone, Copy, PartialEq, Eq, Structural)]
pub enum Engine {
    Searxng,
    BingRss,
    BingHtml,
    Baidu,
    Sogou,
    SogouWeixin,
    DuckDuckGo,
    Mojeek,
    Wikipedia,
}

/// The name under which each engine reports results and failures.
pub open spec fn spec_label(e: Engine) -> Seq<char> {
    match e {
        Engine::Searxng => "searxng"@,
        Engine::BingRss => "bing_rss"@,
        Engine::BingHtml => "bing_html"@,
        Engine::Baidu => "baidu"@,
        Engine::Sogou => "sogou"@,
        Engine::SogouWeixin => "sogou_weixin"@,
        Engine::DuckDuckGo => "duckduckgo"@,
        Engine::Mojeek => "mojeek"@,
        Engine::Wikipedia => "wikipedia"@,
    }
}

impl Engine {
    pub fn label(self) -> (r: &'static str)
        ensures
            r@ == spec_label(self),
    {
        match self {
            Engine::Searxng => "searxng",
            Engine::BingRss => "bing_rss",
            Engine::BingHtml => "bing_html",
            Engine::Baidu => "baidu",
            Engine::Sogou => "sogou",
            Engine::SogouWeixin => "sogou_weixin",
            Engine::DuckDuckGo => "duckduckgo",
            Engine::Mojeek => "mojeek",
            Engine::Wikipedia => "wikipedia",
        }
    }
}

/// A character of the CJK Unified Ideographs blocks (main block,
/// extension A, compatibility ideographs).
pub open spec fn is_cjk_char(c: char) -> bool {
    ||| ('\u{4e00}' <= c && c <= '\u{9fff}')
    ||| ('\u{3400}' <= c && c <= '\u{4dbf}')
    ||| ('\u{f900}' <= c && c <= '\u{faff}')
}

/// `text` holds at least one CJK character.
pub open spec fn spec_has_cjk(text: Seq<char>) -> bool {
    exists|i: int| 0 <= i < text.len() && is_cjk_char(#[trigger] text[i])
}

/// True when the query contains CJK characters.
pub fn has_cjk(text: &str) -> (r: bool)
    ensures
        r == spec_has_cjk(text@),
{
    let c = chars_of(text);
    let mut i: usize = 0;
    while i < c.len()
        invariant
            c@ == text@,
            i <= c@.len(),
            forall|k: int| 0 <= k < i ==> !is_cjk_char(#[trigger] c@[k]),
        decreases c.len() - i,
    {
        let ch = c[i];
        if ('\u{4e00}' <= ch && ch <= '\u{9fff}') || ('\u{3400}' <= ch && ch <= '\u{4dbf}') || (
        '\u{f900}' <= ch && ch <= '\u{faff}') {
            return true;
        }
        i = i + 1;
    }
    false
}

/// The pieces of `s` between occurrences of `sep` (`str::split` with a
/// character): always at least one piece, empty pieces kept.
pub open spec fn spec_split(s: Seq<char>, sep: char) -> Seq<Seq<char>>
    decreases s.len(),
{
    if s.len() == 0 {
        seq![Seq::empty()]
    } else {
        let prev = spec_split(s.drop_last(), sep);
        if s.last() == sep {
            prev.push(Seq::empty())
        } else {
            prev.update(prev.len() - 1, prev.last().push(s.last()))
        }
    }
}

pub proof fn lemma_split_nonempty(s: Seq<char>, sep: char)
    ensures
        spec_split(s, sep).len() >= 1,
    decreases s.len(),
{
    if s.len() > 0 {
        lemma_split_nonempty(s.drop_last(), sep);
    }
}

/// The engine that a (trimmed, lower-cased) name in an override list selects.
pub open spec fn spec_engine_named(name: Seq<char>) -> Option<Engine> {
    if name == "searxng"@ {
        Some(Engine::Searxng)
    } else if name == "bing_rss"@ || name == "bing-rss"@ || name == "rss"@ {
        Some(Engine::BingRss)
    } else if name == "bing"@ || name == "bing_html"@ || name == "bing-html"@ {
        Some(Engine::BingHtml)
    } else if name == "baidu"@ {
        Some(Engine::Baidu)
    } else if name == "sogou"@ {
        Some(Engine::Sogou)
    } else if name == "sogou_weixin"@ || name == "weixin"@ || name == "wechat"@ {
        Some(Engine::SogouWeixin)
    } else if name == "duckduckgo"@ || name == "ddg"@ {
        Some(Engine::DuckDuckGo)
    } else if name == "mojeek"@ {
        Some(Engine::Mojeek)
    } else if name == "wikipedia"@ || name == "wiki"@ {
        Some(Engine::Wikipedia)
    } else {
        None
    }
}

/// The engine one piece of an override list names, if any.
pub open spec fn spec_engine_of_piece(piece: Seq<char>) -> Option<Engine> {
    spec_engine_named(spec_ascii_lowercase(spec_trim(piece)))
}

/// The engines that the pieces name, in order, unknown names dropped.
pub open spec fn spec_engines_of_pieces(pieces: Seq<Seq<char>>) -> Seq<Engine>
    decreases pieces.len(),
{
    if pieces.len() == 0 {
        Seq::empty()
    } else {
        let prev = spec_engines_of_pieces(pieces.drop_last());
        match spec_engine_of_piece(pieces.last()) {
            Some(e) => prev.push(e),
            None => prev,
        }
    }
}

/// The engines that a comma-separated override list names.
pub open spec fn spec_override_chain(list: Seq<char>) -> Seq<Engine> {
    spec_engines_of_pieces(spec_split(list, ','))
}

/// Default order for CJK queries: Chinese-capable engines right after Bing RSS.
pub open spec fn spec_default_cjk() -> Seq<Engine> {
    seq![
        Engine::BingRss,
        Engine::Sogou,
        Engine::Baidu,
        Engine::SogouWeixin,
        Engine::BingHtml,
        Engine::DuckDuckGo,
        Engine::Mojeek,
        Engine::Wikipedia,
    ]
}

/// Default order for other queries: western keyless engines first.
pub open spec fn spec_default_other() -> Seq<Engine> {
    seq![
        Engine::BingRss,
        Engine::BingHtml,
        Engine::DuckDuckGo,
        Engine::Mojeek,
        Engine::Sogou,
        Engine::Baidu,
        Engine::Wikipedia,
    ]
}

/// The engine chain: the override list when it names at least one known
/// engine; otherwise the query-language default, led by SearXNG when a
/// non-blank SearXNG address is configured.
pub open spec fn spec_engine_chain(
    engine_override: Option<Seq<char>>,
    searxng_url: Option<Seq<char>>,
    cjk_query: bool,
) -> Seq<Engine> {
    let over = match engine_override {
        Some(l) => spec_override_chain(l),
        None => Seq::empty(),
    };
    if over.len() > 0 {
        over
    } else {
        let base = if cjk_query {
            spec_default_cjk()
        } else {
            spec_default_other()
        };
        match searxng_url {
            Some(u) if spec_trim(u).len() > 0 => seq![Engine::Searxng] + base,
            _ => base,
        }
    }
}

/// The engine named by `name` (already trimmed and lower-cased).
fn engine_named(name: &[char]) -> (r: Option<Engine>)
    ensures
        r == spec_engine_named(name@),
{
    if is_str(name, "searxng") {
        Some(Engine::Searxng)
    } else if is_str(name, "bing_rss") || is_str(name, "bing-rss") || is_str(name, "rss") {
        Some(Engine::BingRss)
    } else if is_str(name, "bing") || is_str(name, "bing_html") || is_str(name, "bing-html") {
        Some(Engine::BingHtml)
    } else if is_str(name, "baidu") {
        Some(Engine::Baidu)
    } else if is_str(name, "sogou") {
        Some(Engine::Sogou)
    } else if is_str(name, "sogou_weixin") || is_str(name, "weixin") || is_str(name, "wechat") {
        Some(Engine::SogouWeixin)
    } else if is_str(name, "duckduckgo") || is_str(name, "ddg") {
        Some(Engine::DuckDuckGo)
    } else if is_str(name, "mojeek") {
        Some(Engine::Mojeek)
    } else if is_str(name, "wikipedia") || is_str(name, "wiki") {
        Some(Engine::Wikipedia)
    } else {
        None
    }
}

/// The engines that a comma-separated override list names, in order.
pub fn override_chain(list: &str) -> (r: Vec<Engine>)
    ensures
        r@ == spec_override_chain(list@),
{
    let c = chars_of(list);
    let mut out: Vec<Engine> = Vec::new();
    let mut piece: Vec<char> = Vec::new();
    let mut i: usize = 0;
    while i < c.len()
        invariant
            c@ == list@,
            i <= c@.len(),
            spec_split(c@.subrange(0, i as int), ',') == spec_split(
                c@.subrange(0, i as int),
                ',',
            ).drop_last().push(piece@),
            out@ == spec_engines_of_pieces(spec_split(c@.subrange(0, i as int), ',').drop_last()),
        decreases c.len() - i,
    {
        let ghost pre = c@.subrange(0, i as int);
        let ghost next = c@.subrange(0, i + 1);
        proof {
            assert(next.drop_last() =~= pre);
            lemma_split_nonempty(pre, ',');
        }
        let ch = c[i];
        if ch == ',' {
            let name = ascii_lowercase(&trim(&piece));
            match engine_named(&name) {
                Some(e) => out.push(e),
                None => {},
            }
            proof {
                let sp = spec_split(pre, ',');
                assert(spec_split(next, ',') == sp.push(Seq::empty()));
                assert(spec_split(next, ',').drop_last() =~= sp);
                assert(sp.drop_last().push(piece@).drop_last() =~= sp.drop_last());
            }
            piece = Vec::new();
            proof {
                assert(spec_split(next, ',') =~= spec_split(next, ',').drop_last().push(piece@));
            }
        } else {
            piece.push(ch);
            proof {
                let sp = spec_split(pre, ',');
                assert(spec_split(next, ',') == sp.update(sp.len() - 1, sp.last().push(ch)));
                assert(spec_split(next, ',').drop_last() =~= sp.drop_last());
                assert(spec_split(next, ',') =~= spec_split(next, ',').drop_last().push(piece@));
            }
        }
        i = i + 1;
    }
    let name = ascii_lowercase(&trim(&piece));
    proof {
        assert(c@.subrange(0, c@.len() as int) =~= c@);
        lemma_split_nonempty(c@, ',');
        let sp = spec_split(c@, ',');
        assert(sp.drop_last().push(piece@).drop_last() =~= sp.drop_last());
    }
    match engine_named(&name) {
        Some(e) => out.push(e),
        None => {},
    }
    out
}

/// Pure engine-chain resolution: `engine_override` wins when it parses to at
/// least one known engine; otherwise the query-language-aware default order is
/// used, with SearXNG leading whenever a `searxng_url` is configured.
pub fn engine_chain_from(engine_override: Option<&str>, searxng_url: Option<&str>, cjk_query: bool) -> (r: Vec<Engine>)
    ensures
        r@ == spec_engine_chain(
            match engine_override {
                Some(l) => Some(l@),
                None => None,
            },
            match searxng_url {
                Some(u) => Some(u@),
                None => None,
            },
            cjk_query,
        ),
{
    if let Some(list) = engine_override {
        let chain = override_chain(list);
        if chain.len() > 0 {
            return chain;
        }
    }
    let mut chain: Vec<Engine> = if cjk_query {
        vec![
            Engine::BingRss,
            Engine::Sogou,
            Engine::Baidu,
            Engine::SogouWeixin,
            Engine::BingHtml,
            Engine::DuckDuckGo,
            Engine::Mojeek,
            Engine::Wikipedia,
        ]
    } else {
        vec![
            Engine::BingRss,
            Engine::BingHtml,
            Engine::DuckDuckGo,
            Engine::Mojeek,
            Engine::Sogou,
            Engine::Baidu,
            Engine::Wikipedia,
        ]
    };
    proof {
        assert(chain@ =~= (if cjk_query { spec_default_cjk() } else { spec_default_other() }));
    }
    if let Some(u) = searxng_url {
        let t = trim(&chars_of(u));
        if t.len() > 0 {
            chain.insert(0, Engine::Searxng);
            proof {
                assert(chain@ =~= seq![Engine::Searxng] + (if cjk_query {
                    spec_default_cjk()
                } else {
                    spec_default_other()
                }));
            }
        }
    }
    chain
}

/// The shape of every engine chain: never empty; an override list that
/// names a known engine is taken as it is; otherwise Wikipedia comes last
/// as the final fallback, and SearXNG leads exactly when a non-blank
/// SearXNG address is configured.
pub proof fn lemma_engine_chain_shape(
    engine_override: Option<Seq<char>>,
    searxng_url: Option<Seq<char>>,
    cjk_query: bool,
)
    ensures
        ({
            let chain = spec_engine_chain(engine_override, searxng_url, cjk_query);
            let over = match engine_override {
                Some(l) => spec_override_chain(l),
                None => Seq::empty(),
            };
            let configured = match searxng_url {
                Some(u) => spec_trim(u).len() > 0,
                None => false,
            };
            &&& chain.len() > 0
            &&& over.len() > 0 ==> chain == over
            &&& over.len() == 0 ==> chain.last() == Engine::Wikipedia
            &&& over.len() == 0 ==> (chain[0] == Engine::Searxng <==> configured)
        }),
{
}

/// Without an override that names a known engine, every keyless engine is
/// tried exactly once: all of them for a CJK query, all but the Sogou WeChat
/// vertical otherwise; SearXNG is in the chain exactly when it is configured.
pub proof fn lemma_default_chain_covers_engines(
    engine_override: Option<Seq<char>>,
    searxng_url: Option<Seq<char>>,
    cjk_query: bool,
)
    requires
        match engine_override {
            Some(l) => spec_override_chain(l).len() == 0,
            None => true,
        },
    ensures
        ({
            let chain = spec_engine_chain(engine_override, searxng_url, cjk_query);
            let configured = match searxng_url {
                Some(u) => spec_trim(u).len() > 0,
                None => false,
            };
            &&& forall|i: int, j: int| 0 <= i < j < chain.len() ==> chain[i] != chain[j]
            &&& forall|e: Engine|
                e != Engine::Searxng && (cjk_query || e != Engine::SogouWeixin) ==> #[trigger] chain.contains(e)
            &&& chain.contains(Engine::Searxng) <==> configured
            &&& !cjk_query ==> !chain.contains(Engine::SogouWeixin)
        }),
{
    let chain = spec_engine_chain(engine_override, searxng_url, cjk_query);
    let base = if cjk_query { spec_default_cjk() } else { spec_default_other() };
    let configured = match searxng_url {
        Some(u) => spec_trim(u).len() > 0,
        None => false,
    };
    assert(chain == if configured { seq![Engine::Searxng] + base } else { base });
    assert forall|e: Engine| e != Engine::Searxng && (cjk_query || e != Engine::SogouWeixin) implies #[trigger] chain.contains(e) by {
        let k: int = match e {
            Engine::BingRss => 0,
            Engine::BingHtml => if cjk_query { 4 } else { 1 },
            Engine::DuckDuckGo => if cjk_query { 5 } else { 2 },
            Engine::Mojeek => if cjk_query { 6 } else { 3 },
            Engine::Sogou => if cjk_query { 1 } else { 4 },
            Engine::Baidu => if cjk_query { 2 } else { 5 },
            Engine::SogouWeixin => 3,
            Engine::Wikipedia => if cjk_query { 7 } else { 6 },
            Engine::Searxng => 0,
        };
        let off: int = if configured { 1 } else { 0 };
        assert(chain[k + off] == e);
    }
    if configured {
        assert(chain[0] == Engine::Searxng);
    } else {
        assert forall|i: int| 0 <= i < chain.len() implies chain[i] != Engine::Searxng by {}
    }
    if !cjk_query {
        assert forall|i: int| 0 <= i < chain.len() implies chain[i] != Engine::SogouWeixin by {}
    }
}

/// The default order follows the query's language: Bing RSS first and
/// Wikipedia last; for CJK queries Sogou, Baidu and Sogou WeChat come next,
/// then Bing HTML, DuckDuckGo and Mojeek; for other queries Bing HTML,
/// DuckDuckGo and Mojeek come next, then Sogou and Baidu. A configured
/// SearXNG leads.
pub proof fn lemma_default_chain_order(searxng_url: Option<Seq<char>>, cjk_query: bool)
    ensures
        ({
            let chain = spec_engine_chain(None, searxng_url, cjk_query);
            let configured = match searxng_url {
                Some(u) => spec_trim(u).len() > 0,
                None => false,
            };
            let rest = if cjk_query {
                seq![
                    Engine::BingRss, Engine::Sogou, Engine::Baidu, Engine::SogouWeixin,
                    Engine::BingHtml, Engine::DuckDuckGo, Engine::Mojeek, Engine::Wikipedia,
                ]
            } else {
                seq![
                    Engine::BingRss, Engine::BingHtml, Engine::DuckDuckGo, Engine::Mojeek,
                    Engine::Sogou, Engine::Baidu, Engine::Wikipedia,
                ]
            };
            chain == if configured { seq![Engine::Searxng] + rest } else { rest }
        }),
{
}

} // verus!
