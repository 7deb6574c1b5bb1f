//! Reading the JSON answers of the SearXNG and Wikipedia search APIs.

use vstd::prelude::*;
use vstd::utf8::encode_utf8;
use crate::bridge::{chars_of, json_parse, parse_json, string_of};
use crate::collect::{lemma_somes_step, push_candidate, somes, views};
use crate::hit::{spec_new_hit, SearchHit, SearchHitView};
use crate::html::{clean_text, spec_clean_text};
use crate::json::{
    json_array, json_get, json_str, json_view, json_views, lemma_json_views, str_or_empty, Json,
    JsonV,
};
use crate::text::{collapse_whitespace, push_all, push_str, spec_collapse_whitespace};

verus! {

/// `o.and_then(|j| j.get(key))`.
pub open spec fn json_get_opt(o: Option<JsonV>, key: Seq<char>) -> Option<JsonV> {
    match o {
        Some(j) => json_get(j, key),
        None => None,
    }
}

fn get_opt<'a>(o: Option<&'a Json>, key: &str) -> (r: Option<&'a Json>)
    ensures
        match r {
            Some(v) => json_get_opt(
                match o {
                    Some(j) => Some(j@),
                    None => None,
                },
                key@,
            ) == Some(v@),
            None => json_get_opt(
                match o {
                    Some(j) => Some(j@),
                    None => None,
                },
                key@,
            ) is None,
        },
{
    match o {
        Some(j) => j.get(key),
        None => None,
    }
}

/// The text of member `key` of `j`, or nothing.
fn member_text(j: &Json, key: &str) -> (r: String)
    ensures
        r@ == str_or_empty(json_get(j@, key@)),
{
    match j.get(key) {
        Some(v) => match v.as_str() {
            Some(s) => string_of(&chars_of(s)),
            None => String::new(),
        },
        None => String::new(),
    }
}

// ---------------------------------------------------------------------------
// SearXNG
// ---------------------------------------------------------------------------

/// The hit of one SearXNG result: its `title`, `url` and `content`.
pub open spec fn searxng_hit(r: JsonV) -> Option<SearchHitView> {
    spec_new_hit(
        str_or_empty(json_get(r, "title"@)),
        str_or_empty(json_get(r, "url"@)),
        str_or_empty(json_get(r, "content"@)),
    )
}

/// The hits of a SearXNG answer: its first `limit` `results`.
pub open spec fn spec_searxng_hits(v: JsonV, limit: nat) -> Seq<SearchHitView> {
    match json_array(json_get(v, "results"@)) {
        Some(rs) => {
            let n = if rs.len() <= limit {
                rs.len()
            } else {
                limit
            };
            somes(Seq::new(n, |k: int| searxng_hit(rs[k])))
        },
        None => Seq::empty(),
    }
}

/// A SearXNG answer that did not parse is an error naming the parse failure.
pub open spec fn spec_parse_searxng_json(parsed: Result<JsonV, Seq<char>>, limit: nat) -> Result<
    Seq<SearchHitView>,
    Seq<char>,
> {
    match parsed {
        Ok(v) => Ok(spec_searxng_hits(v, limit)),
        Err(e) => Err("invalid JSON: "@ + e),
    }
}

/// The hits of a SearXNG answer, given the outcome of parsing its body.
pub fn searxng_answer(parsed: Result<Json, String>, limit: usize) -> (r: Result<Vec<SearchHit>, String>)
    ensures
        match r {
            Ok(hits) => spec_parse_searxng_json(
                match parsed {
                    Ok(v) => Ok(v@),
                    Err(e) => Err(e@),
                },
                limit as nat,
            ) == Ok::<Seq<SearchHitView>, Seq<char>>(views(hits@)),
            Err(e) => spec_parse_searxng_json(
                match parsed {
                    Ok(v) => Ok(v@),
                    Err(e) => Err(e@),
                },
                limit as nat,
            ) == Err::<Seq<SearchHitView>, Seq<char>>(e@),
        },
{
    let value = match parsed {
        Ok(v) => v,
        Err(e) => {
            let mut out: Vec<char> = Vec::new();
            push_str(&mut out, "invalid JSON: ");
            push_str(&mut out, e.as_str());
            return Err(string_of(&out));
        },
    };
    let mut hits: Vec<SearchHit> = Vec::new();
    match value.get("results") {
        Some(rv) => match rv.as_array() {
            Some(results) => {
                let ghost rs = json_views(results@);
                let ghost n = if rs.len() <= limit {
                    rs.len()
                } else {
                    limit as nat
                };
                let ghost cands = Seq::new(n, |k: int| searxng_hit(rs[k]));
                proof {
                    lemma_json_views(results@);
                    assert(views(hits@) =~= somes(cands.subrange(0, 0)));
                }
                let mut i: usize = 0;
                while i < results.len() && i < limit
                    invariant
                        rs == json_views(results@),
                        rs.len() == results@.len(),
                        forall|t: int| 0 <= t < results@.len() ==> #[trigger] rs[t] == json_view(results@[t]),
                        n == (if rs.len() <= limit { rs.len() } else { limit as nat }),
                        cands == Seq::new(n, |k: int| searxng_hit(rs[k])),
                        i <= n,
                        views(hits@) == somes(cands.subrange(0, i as int)),
                    decreases results.len() - i,
                {
                    let item = &results[i];
                    let title = member_text(item, "title");
                    let url = member_text(item, "url");
                    let snippet = member_text(item, "content");
                    let h = SearchHit::new(title.as_str(), url.as_str(), snippet.as_str());
                    proof {
                        lemma_somes_step(cands, i as int);
                    }
                    push_candidate(&mut hits, h);
                    i = i + 1;
                }
                proof {
                    assert(cands.subrange(0, i as int) =~= cands);
                }
            },
            None => {
                assert(views(hits@) =~= Seq::<SearchHitView>::empty());
            },
        },
        None => {
            assert(views(hits@) =~= Seq::<SearchHitView>::empty());
        },
    }
    Ok(hits)
}

// ---------------------------------------------------------------------------
// Wikipedia
// ---------------------------------------------------------------------------

/// `title.replace(' ', "_")`.
pub open spec fn underscored(t: Seq<char>) -> Seq<char> {
    Seq::new(t.len(), |i: int| if t[i] == ' ' { '_' } else { t[i] })
}

/// The article address that a search entry's title stands for.
pub open spec fn wiki_article_url(host: Seq<char>, title: Seq<char>) -> Seq<char> {
    host + "/wiki/"@ + underscored(title)
}

/// A search entry's snippet: markup removed, entities decoded, whitespace
/// collapsed; nothing when the entry has none.
pub open spec fn wiki_snippet(j: Option<JsonV>) -> Seq<char> {
    match json_str(j) {
        Some(s) => spec_collapse_whitespace(spec_clean_text(encode_utf8(s))),
        None => Seq::empty(),
    }
}

/// The hit of one full-text search entry.
pub open spec fn wiki_search_hit(host: Seq<char>, e: JsonV) -> Option<SearchHitView> {
    let title = str_or_empty(json_get(e, "title"@));
    spec_new_hit(title, wiki_article_url(host, title), wiki_snippet(json_get(e, "snippet"@)))
}

/// The hits of a `list=search` answer: its first `limit` `query.search`
/// entries; none when the body did not parse.
pub open spec fn spec_parse_wikipedia_search(parsed: Option<JsonV>, host: Seq<char>, limit: nat) -> Seq<
    SearchHitView,
> {
    match parsed {
        None => Seq::empty(),
        Some(v) => match json_array(json_get_opt(json_get(v, "query"@), "search"@)) {
            Some(es) => {
                let n = if es.len() <= limit {
                    es.len()
                } else {
                    limit
                };
                somes(Seq::new(n, |k: int| wiki_search_hit(host, es[k])))
            },
            None => Seq::empty(),
        },
    }
}

fn underscore_spaces(t: &[char]) -> (r: Vec<char>)
    ensures
        r@ == underscored(t@),
{
    let mut out: Vec<char> = Vec::new();
    let mut i: usize = 0;
    while i < t.len()
        invariant
            i <= t@.len(),
            out@ =~= underscored(t@.subrange(0, i as int)),
        decreases t.len() - i,
    {
        if t[i] == ' ' {
            out.push('_');
        } else {
            out.push(t[i]);
        }
        i = i + 1;
    }
    assert(t@.subrange(0, t@.len() as int) =~= t@);
    out
}

fn wiki_entry(host: &str, e: &Json) -> (r: Option<SearchHit>)
    ensures
        match r {
            Some(h) => wiki_search_hit(host@, e@) == Some(h@),
            None => wiki_search_hit(host@, e@) is None,
        },
{
    let title = member_text(e, "title");
    let snippet: Vec<char> = match e.get("snippet") {
        Some(v) => match v.as_str() {
            Some(s) => collapse_whitespace(&clean_text(s.as_bytes())),
            None => Vec::new(),
        },
        None => Vec::new(),
    };
    let mut url: Vec<char> = Vec::new();
    push_str(&mut url, host);
    push_str(&mut url, "/wiki/");
    push_all(&mut url, &underscore_spaces(&chars_of(title.as_str())));
    let su = string_of(&url);
    let ss = string_of(&snippet);
    SearchHit::new(title.as_str(), su.as_str(), ss.as_str())
}

/// The hits of an `action=query&list=search` answer, given its parsed body
/// (none when it did not parse); article addresses are made from the titles,
/// as the entries carry none.
pub fn wikipedia_search_answer(parsed: Option<Json>, host: &str, limit: usize) -> (r: Vec<SearchHit>)
    ensures
        views(r@) == spec_parse_wikipedia_search(
            match parsed {
                Some(v) => Some(v@),
                None => None,
            },
            host@,
            limit as nat,
        ),
{
    let mut hits: Vec<SearchHit> = Vec::new();
    let value = match parsed {
        Some(v) => v,
        None => {
            return hits;
        },
    };
    let entries = get_opt(value.get("query"), "search");
    match entries {
        Some(ev) => match ev.as_array() {
            Some(list) => {
                let ghost es = json_views(list@);
                let ghost n = if es.len() <= limit {
                    es.len()
                } else {
                    limit as nat
                };
                let ghost cands = Seq::new(n, |k: int| wiki_search_hit(host@, es[k]));
                proof {
                    lemma_json_views(list@);
                    assert(views(hits@) =~= somes(cands.subrange(0, 0)));
                }
                let mut i: usize = 0;
                while i < list.len() && i < limit
                    invariant
                        es == json_views(list@),
                        es.len() == list@.len(),
                        forall|t: int| 0 <= t < list@.len() ==> #[trigger] es[t] == json_view(list@[t]),
                        n == (if es.len() <= limit { es.len() } else { limit as nat }),
                        cands == Seq::new(n, |k: int| wiki_search_hit(host@, es[k])),
                        i <= n,
                        views(hits@) == somes(cands.subrange(0, i as int)),
                    decreases list.len() - i,
                {
                    let h = wiki_entry(host, &list[i]);
                    proof {
                        lemma_somes_step(cands, i as int);
                    }
                    push_candidate(&mut hits, h);
                    i = i + 1;
                }
                proof {
                    assert(cands.subrange(0, i as int) =~= cands);
                }
            },
            None => {
                assert(views(hits@) =~= Seq::<SearchHitView>::empty());
            },
        },
        None => {
            assert(views(hits@) =~= Seq::<SearchHitView>::empty());
        },
    }
    hits
}

/// Element `i` of an (optional) array when it is itself an array, else
/// nothing (`a.get(i).and_then(Value::as_array).cloned().unwrap_or_default()`).
pub open spec fn inner_array(a: Option<Seq<JsonV>>, i: int) -> Seq<JsonV> {
    match a {
        Some(s) => if 0 <= i < s.len() {
            match s[i] {
                JsonV::Array(x) => x,
                _ => Seq::empty(),
            }
        } else {
            Seq::empty()
        },
        None => Seq::empty(),
    }
}

/// The text at position `k`, or nothing.
pub open spec fn text_at(s: Seq<JsonV>, k: int) -> Seq<char> {
    if 0 <= k < s.len() {
        str_or_empty(Some(s[k]))
    } else {
        Seq::empty()
    }
}

/// The hits of an `action=opensearch` answer `[query, titles, descriptions,
/// urls]`: the first `limit` titles, each with the description and address
/// at the same position; none when the body did not parse.
pub open spec fn spec_parse_wikipedia_opensearch(parsed: Option<JsonV>, limit: nat) -> Seq<SearchHitView> {
    match parsed {
        None => Seq::empty(),
        Some(v) => {
            let a = json_array(Some(v));
            let titles = inner_array(a, 1);
            let descriptions = inner_array(a, 2);
            let urls = inner_array(a, 3);
            let n = if titles.len() <= limit {
                titles.len()
            } else {
                limit
            };
            somes(
                Seq::new(
                    n,
                    |k: int|
                        spec_new_hit(
                            str_or_empty(Some(titles[k])),
                            text_at(urls, k),
                            text_at(descriptions, k),
                        ),
                ),
            )
        },
    }
}

fn inner_list(a: Option<&Vec<Json>>, i: usize) -> (r: Option<&Vec<Json>>)
    ensures
        json_views(
            match r {
                Some(v) => v@,
                None => Seq::empty(),
            },
        ) == inner_array(
            match a {
                Some(v) => Some(json_views(v@)),
                None => None,
            },
            i as int,
        ),
{
    match a {
        Some(v) => {
            proof {
                lemma_json_views(v@);
            }
            if i < v.len() {
                match &v[i] {
                    Json::Array(x) => Some(x),
                    _ => None,
                }
            } else {
                None
            }
        },
        None => None,
    }
}

fn text_of_item(list: Option<&Vec<Json>>, k: usize) -> (r: String)
    ensures
        r@ == text_at(
            json_views(
                match list {
                    Some(v) => v@,
                    None => Seq::empty(),
                },
            ),
            k as int,
        ),
{
    match list {
        Some(v) => {
            proof {
                lemma_json_views(v@);
            }
            if k < v.len() {
                match v[k].as_str() {
                    Some(s) => string_of(&chars_of(s)),
                    None => String::new(),
                }
            } else {
                String::new()
            }
        },
        None => {
            proof {
                lemma_json_views(Seq::<Json>::empty());
            }
            String::new()
        },
    }
}

/// The hits of an `action=opensearch` answer, given its parsed body (none
/// when it did not parse).
pub fn wikipedia_opensearch_answer(parsed: Option<Json>, limit: usize) -> (r: Vec<SearchHit>)
    ensures
        views(r@) == spec_parse_wikipedia_opensearch(
            match parsed {
                Some(v) => Some(v@),
                None => None,
            },
            limit as nat,
        ),
{
    let mut hits: Vec<SearchHit> = Vec::new();
    let value = match parsed {
        Some(v) => v,
        None => {
            return hits;
        },
    };
    let array = value.as_array();
    let titles = inner_list(array, 1);
    let descriptions = inner_list(array, 2);
    let urls = inner_list(array, 3);
    let ghost tv = json_views(
        match titles {
            Some(v) => v@,
            None => Seq::empty(),
        },
    );
    let ghost dv = json_views(
        match descriptions {
            Some(v) => v@,
            None => Seq::empty(),
        },
    );
    let ghost uv = json_views(
        match urls {
            Some(v) => v@,
            None => Seq::empty(),
        },
    );
    let nt: usize = match titles {
        Some(v) => v.len(),
        None => 0,
    };
    proof {
        match titles {
            Some(v) => lemma_json_views(v@),
            None => lemma_json_views(Seq::<Json>::empty()),
        }
    }
    let ghost n = if tv.len() <= limit {
        tv.len()
    } else {
        limit as nat
    };
    let ghost cands = Seq::new(
        n,
        |k: int| spec_new_hit(str_or_empty(Some(tv[k])), text_at(uv, k), text_at(dv, k)),
    );
    proof {
        assert(views(hits@) =~= somes(cands.subrange(0, 0)));
    }
    let mut i: usize = 0;
    while i < nt && i < limit
        invariant
            nt == tv.len(),
            n == (if tv.len() <= limit { tv.len() } else { limit as nat }),
            cands == Seq::new(
                n,
                |k: int| spec_new_hit(str_or_empty(Some(tv[k])), text_at(uv, k), text_at(dv, k)),
            ),
            tv == json_views(
                match titles {
                    Some(v) => v@,
                    None => Seq::empty(),
                },
            ),
            dv == json_views(
                match descriptions {
                    Some(v) => v@,
                    None => Seq::empty(),
                },
            ),
            uv == json_views(
                match urls {
                    Some(v) => v@,
                    None => Seq::empty(),
                },
            ),
            i <= n,
            views(hits@) == somes(cands.subrange(0, i as int)),
        decreases nt - i,
    {
        let title = text_of_item(titles, i);
        let url = text_of_item(urls, i);
        let snippet = text_of_item(descriptions, i);
        proof {
            assert(title@ == str_or_empty(Some(tv[i as int])));
        }
        let h = SearchHit::new(title.as_str(), url.as_str(), snippet.as_str());
        proof {
            lemma_somes_step(cands, i as int);
        }
        push_candidate(&mut hits, h);
        i = i + 1;
    }
    proof {
        assert(cands.subrange(0, i as int) =~= cands);
    }
    hits
}

/// The parse of a body, none when it is not JSON.
pub open spec fn parsed_or_none(p: Result<JsonV, Seq<char>>) -> Option<JsonV> {
    match p {
        Ok(v) => Some(v),
        Err(_) => None,
    }
}

/// Reads a SearXNG JSON answer; a body that is not JSON is an error.
pub fn parse_searxng_json(body: &str, limit: usize) -> (r: Result<Vec<SearchHit>, String>)
    ensures
        match r {
            Ok(hits) => spec_parse_searxng_json(json_parse(body@), limit as nat) == Ok::<
                Seq<SearchHitView>,
                Seq<char>,
            >(views(hits@)),
            Err(e) => spec_parse_searxng_json(json_parse(body@), limit as nat) == Err::<
                Seq<SearchHitView>,
                Seq<char>,
            >(e@),
        },
{
    let parsed = parse_json(body);
    proof {
        assert(match parsed {
            Ok(v) => Ok::<JsonV, Seq<char>>(v@),
            Err(e) => Err(e@),
        } == json_parse(body@));
    }
    searxng_answer(parsed, limit)
}

/// Reads an `action=query&list=search` answer; a body that is not JSON gives
/// no hits.
pub fn parse_wikipedia_search(body: &str, host: &str, limit: usize) -> (r: Vec<SearchHit>)
    ensures
        views(r@) == spec_parse_wikipedia_search(
            parsed_or_none(json_parse(body@)),
            host@,
            limit as nat,
        ),
{
    let parsed = match parse_json(body) {
        Ok(v) => Some(v),
        Err(_) => None,
    };
    wikipedia_search_answer(parsed, host, limit)
}

/// Reads an `action=opensearch` answer; a body that is not JSON gives no
/// hits.
pub fn parse_wikipedia_opensearch(body: &str, limit: usize) -> (r: Vec<SearchHit>)
    ensures
        views(r@) == spec_parse_wikipedia_opensearch(parsed_or_none(json_parse(body@)), limit as nat),
{
    let parsed = match parse_json(body) {
        Ok(v) => Some(v),
        Err(_) => None,
    };
    wikipedia_opensearch_answer(parsed, limit)
}

} // verus!
