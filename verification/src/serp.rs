//! Parsers for the engines' result pages (RSS and HTML markup). Each finds
//! result blocks with the engine's patterns and turns them into hits.

use vstd::prelude::*;
use vstd::utf8::{encode_utf8, is_char_boundary};
use crate::bridge::{decode_lossy, regex_matches, utf8_lossy};
use crate::collect::{
    lemma_collected_until_limit, lemma_somes_grow, lemma_somes_step, push_candidate, reached,
    seq_take, somes, views,
};
use crate::hit::{spec_new_hit, SearchHit, SearchHitView};
use crate::html::{clean_string, decode_html, spec_clean_text, spec_decode_html};
use crate::pattern::{
    bytes_contain, spec_bytes_contain, all_matches, first_group, group_bytes, match_end, match_start, slice_bytes, spec_first_group,
    spec_first_match, spec_group, spans_within, Groups,
};
use crate::text::{spec_collapse_whitespace, spec_starts_with, spec_take, spec_trim, starts_with, trim};
use crate::bridge::{chars_of, string_of};
use crate::urls::{normalize_search_url, spec_normalize_search_url};

verus! {

/// The text of group 1 of the first match of `pattern` in `hay` (empty when
/// nothing matches).
pub open spec fn spec_pick(pattern: Seq<char>, hay: Seq<u8>) -> Seq<char> {
    utf8_lossy(spec_first_group(pattern, hay, 1))
}

fn pick(pattern: &str, hay: &[u8]) -> (r: String)
    ensures
        r@ == spec_pick(pattern@, hay@),
{
    let g = match first_group(pattern, hay, 1) {
        Some(v) => v,
        None => Vec::new(),
    };
    decode_lossy(&g)
}

/// The text of group `g` of match `m`.
pub open spec fn spec_group_text(hay: Seq<u8>, m: Groups, g: int) -> Seq<char> {
    utf8_lossy(spec_group(hay, m, g))
}

pub fn group_text(hay: &[u8], m: &Vec<Option<(usize, usize)>>, g: usize) -> (r: String)
    requires
        spans_within(m@, hay@.len()),
    ensures
        r@ == spec_group_text(hay@, m@, g as int),
{
    decode_lossy(&group_bytes(hay, m, g))
}

/// The cleaned text of group 1 of the first match of `pattern` in `window`,
/// or nothing (`captures(window).map(..).unwrap_or_default()`).
pub open spec fn spec_snippet_in(pattern: Seq<char>, window: Seq<u8>) -> Seq<char> {
    match spec_first_match(pattern, window) {
        Some(m) => spec_clean_text(spec_group(window, m, 1)),
        None => Seq::empty(),
    }
}

fn snippet_in(pattern: &str, window: &[u8]) -> (r: String)
    ensures
        r@ == spec_snippet_in(pattern@, window@),
{
    match first_group(pattern, window, 1) {
        Some(g) => clean_string(&g),
        None => String::new(),
    }
}

/// The bytes from `end` up to `width` bytes further, within the body.
pub open spec fn window_after(body: Seq<u8>, end: int, width: int) -> Seq<u8> {
    body.subrange(end, if end + width <= body.len() { end + width } else { body.len() as int })
}

fn window(body: &[u8], end: usize, width: usize) -> (r: Vec<u8>)
    requires
        end <= body@.len(),
    ensures
        r@ == window_after(body@, end as int, width as int),
{
    let stop = if body.len() - end > width {
        end + width
    } else {
        body.len()
    };
    slice_bytes(body, end, stop)
}

/// Cutting the body `width` bytes after `end`, when that lies inside it,
/// falls on a character boundary: `&body[end..(end + width).min(len)]` is
/// then a valid slice of the text.
pub open spec fn cut_fits(b: Seq<u8>, end: int, width: int) -> bool {
    end + width >= b.len() || is_char_boundary(b, end + width)
}

fn cut_fits_exec(body: &str, end: usize, width: usize) -> (r: bool)
    requires
        end <= encode_utf8(body@).len(),
    ensures
        r == cut_fits(encode_utf8(body@), end as int, width as int),
{
    let n = body.as_bytes().len();
    if n - end <= width {
        true
    } else {
        body.is_char_boundary(end + width)
    }
}

// ---------------------------------------------------------------------------
// Bing RSS
// ---------------------------------------------------------------------------

/// `<![CDATA[…]]>` wrappers, tags and entities removed, then trimmed.
pub open spec fn spec_strip_cdata_and_tags(v: Seq<char>) -> Seq<char> {
    let t = encode_utf8(spec_trim(v));
    let inner = match spec_first_match(r"(?is)<!\[CDATA\[(.*?)\]\]>"@, t) {
        Some(m) => spec_group(t, m, 1),
        None => t,
    };
    spec_trim(spec_clean_text(inner))
}

pub fn strip_cdata_and_tags(value: &str) -> (r: String)
    ensures
        r@ == spec_strip_cdata_and_tags(value@),
{
    let t = string_of(&trim(&chars_of(value)));
    let tb = t.as_str().as_bytes();
    let inner = match first_group(r"(?is)<!\[CDATA\[(.*?)\]\]>", tb, 1) {
        Some(g) => g,
        None => slice_bytes(tb, 0, tb.len()),
    };
    proof {
        assert(tb@.subrange(0, tb@.len() as int) =~= tb@);
    }
    let cleaned = clean_string(&inner);
    string_of(&trim(&chars_of(cleaned.as_str())))
}

/// The hit that one RSS `<item>` yields.
pub open spec fn rss_item_hit(body: Seq<u8>, m: Groups) -> Option<SearchHitView> {
    let block = spec_group(body, m, 1);
    spec_new_hit(
        spec_strip_cdata_and_tags(spec_pick(r"(?is)<title>(.*?)</title>"@, block)),
        spec_normalize_search_url(spec_pick(r"(?is)<link>(.*?)</link>"@, block)),
        spec_strip_cdata_and_tags(spec_pick(r"(?is)<description>(.*?)</description>"@, block)),
    )
}

/// The hits of Bing's RSS results: the first `limit` `<item>`s, each giving
/// title, link and description, kept when they make a hit.
pub open spec fn spec_parse_bing_rss(body: Seq<char>, limit: nat) -> Seq<SearchHitView> {
    let b = encode_utf8(body);
    let ms = regex_matches(r"(?is)<item>(.*?)</item>"@, b);
    let n = if ms.len() <= limit {
        ms.len()
    } else {
        limit
    };
    somes(Seq::new(n, |k: int| rss_item_hit(b, ms[k])))
}

fn rss_item(body: &[u8], m: &Vec<Option<(usize, usize)>>) -> (r: Option<SearchHit>)
    requires
        spans_within(m@, body@.len()),
    ensures
        match r {
            Some(h) => rss_item_hit(body@, m@) == Some(h@),
            None => rss_item_hit(body@, m@) is None,
        },
{
    let block = group_bytes(body, m, 1);
    let title = strip_cdata_and_tags(pick(r"(?is)<title>(.*?)</title>", &block).as_str());
    let url = normalize_search_url(pick(r"(?is)<link>(.*?)</link>", &block).as_str());
    let snippet = strip_cdata_and_tags(
        pick(r"(?is)<description>(.*?)</description>", &block).as_str(),
    );
    SearchHit::new(title.as_str(), url.as_str(), snippet.as_str())
}

/// Parses Bing's RSS search results (`format=rss`): title, link and a short
/// snippet per item.
pub fn parse_bing_rss(body: &str, limit: usize) -> (r: Vec<SearchHit>)
    ensures
        views(r@) == spec_parse_bing_rss(body@, limit as nat),
{
    let b = body.as_bytes();
    let items = all_matches(r"(?is)<item>(.*?)</item>", b);
    let ghost ms = regex_matches(r"(?is)<item>(.*?)</item>"@, b@);
    let ghost n = if ms.len() <= limit {
        ms.len()
    } else {
        limit as nat
    };
    let ghost cands = Seq::new(n, |k: int| rss_item_hit(b@, ms[k]));
    let mut hits: Vec<SearchHit> = Vec::new();
    let mut i: usize = 0;
    proof {
        assert(views(hits@) =~= somes(cands.subrange(0, 0)));
    }
    while i < items.len() && i < limit
        invariant
            b@ == encode_utf8(body@),
            ms == regex_matches(r"(?is)<item>(.*?)</item>"@, b@),
            items@.len() == ms.len(),
            forall|k: int| 0 <= k < items@.len() ==> #[trigger] items@[k]@ == ms[k],
            forall|k: int|
                0 <= k < items@.len() ==> (#[trigger] items@[k])@.len() >= 1 && items@[k]@[0] is Some
                    && spans_within(items@[k]@, b@.len()),
            n == (if ms.len() <= limit { ms.len() } else { limit as nat }),
            cands == Seq::new(n, |k: int| rss_item_hit(b@, ms[k])),
            i <= n,
            views(hits@) == somes(cands.subrange(0, i as int)),
        decreases items.len() - i,
    {
        let h = rss_item(b, &items[i]);
        proof {
            lemma_somes_step(cands, i as int);
        }
        push_candidate(&mut hits, h);
        i = i + 1;
    }
    proof {
        assert(cands.subrange(0, i as int) =~= cands);
    }
    hits
}

// ---------------------------------------------------------------------------
// Mojeek
// ---------------------------------------------------------------------------

/// The hit that one Mojeek result heading yields: address and title from the
/// heading, snippet from the `class="s"` paragraph within 2500 bytes after it.
pub open spec fn mojeek_hit(body: Seq<u8>, m: Groups) -> Option<SearchHitView> {
    spec_new_hit(
        spec_clean_text(spec_group(body, m, 2)),
        spec_normalize_search_url(spec_group_text(body, m, 1)),
        spec_snippet_in(
            r#"(?is)<p[^>]+class=['"][^'"]*\bs\b[^'"]*['"][^>]*>(.*?)</p>"#@,
            window_after(body, match_end(m), 2500),
        ),
    )
}

/// The hits of Mojeek's result page: its first `limit` result headings.
pub open spec fn spec_parse_mojeek_html(body: Seq<char>, limit: nat) -> Seq<SearchHitView> {
    let b = encode_utf8(body);
    let ms = regex_matches(
        r#"(?is)<h2[^>]*>\s*<a[^>]+href=['"](https?://[^'"]+)['"][^>]*>(.*?)</a>\s*</h2>"#@,
        b,
    );
    let n = if ms.len() <= limit {
        ms.len()
    } else {
        limit
    };
    somes(Seq::new(n, |k: int| mojeek_hit(b, ms[k])))
}

fn mojeek_item(body: &[u8], m: &Vec<Option<(usize, usize)>>) -> (r: Option<SearchHit>)
    requires
        spans_within(m@, body@.len()),
        m@.len() >= 1,
        m@[0] is Some,
    ensures
        match r {
            Some(h) => mojeek_hit(body@, m@) == Some(h@),
            None => mojeek_hit(body@, m@) is None,
        },
{
    let url = normalize_search_url(group_text(body, m, 1).as_str());
    let title = clean_string(&group_bytes(body, m, 2));
    let end = match m[0] {
        Some((_, e)) => e,
        None => body.len(),
    };
    assert(m@[0int] is Some);
    let w = window(body, end, 2500);
    let snippet = snippet_in(r#"(?is)<p[^>]+class=['"][^'"]*\bs\b[^'"]*['"][^>]*>(.*?)</p>"#, &w);
    SearchHit::new(title.as_str(), url.as_str(), snippet.as_str())
}

pub open spec fn mojeek_pattern() -> Seq<char> {
    r#"(?is)<h2[^>]*>\s*<a[^>]+href=['"](https?://[^'"]+)['"][^>]*>(.*?)</a>\s*</h2>"#@
}

/// Every look-ahead window that reading the first `limit` results cuts from
/// the page ends on a character boundary.
pub open spec fn mojeek_reads(body: Seq<char>, limit: nat) -> bool {
    let b = encode_utf8(body);
    let ms = regex_matches(mojeek_pattern(), b);
    forall|k: int| 0 <= k < ms.len() && k < limit ==> cut_fits(b, match_end(#[trigger] ms[k]), 2500)
}

fn scan_mojeek(body: &str, limit: usize) -> (r: (Vec<SearchHit>, bool))
    ensures
        views(r.0@) == spec_parse_mojeek_html(body@, limit as nat),
        r.1 == mojeek_reads(body@, limit as nat),
{
    let b = body.as_bytes();
    let items = all_matches(
        r#"(?is)<h2[^>]*>\s*<a[^>]+href=['"](https?://[^'"]+)['"][^>]*>(.*?)</a>\s*</h2>"#,
        b,
    );
    let ghost ms = regex_matches(
        r#"(?is)<h2[^>]*>\s*<a[^>]+href=['"](https?://[^'"]+)['"][^>]*>(.*?)</a>\s*</h2>"#@,
        b@,
    );
    let ghost n = if ms.len() <= limit {
        ms.len()
    } else {
        limit as nat
    };
    let ghost cands = Seq::new(n, |k: int| mojeek_hit(b@, ms[k]));
    let mut hits: Vec<SearchHit> = Vec::new();
    let mut fits = true;
    let mut i: usize = 0;
    proof {
        assert(views(hits@) =~= somes(cands.subrange(0, 0)));
    }
    while i < items.len() && i < limit
        invariant
            b@ == encode_utf8(body@),
            items@.len() == ms.len(),
            forall|k: int| 0 <= k < items@.len() ==> #[trigger] items@[k]@ == ms[k],
            forall|k: int|
                0 <= k < items@.len() ==> (#[trigger] items@[k])@.len() >= 1 && items@[k]@[0] is Some
                    && spans_within(items@[k]@, b@.len()),
            n == (if ms.len() <= limit { ms.len() } else { limit as nat }),
            cands == Seq::new(n, |k: int| mojeek_hit(b@, ms[k])),
            i <= n,
            views(hits@) == somes(cands.subrange(0, i as int)),
            fits == forall|k: int| 0 <= k < i ==> cut_fits(b@, match_end(#[trigger] ms[k]), 2500),
        decreases items.len() - i,
    {
        assert(items@[i as int]@[0int] is Some);
        let end = match items[i][0] {
            Some((_, e)) => e,
            None => 0,
        };
        assert(end == match_end(ms[i as int]));
        let ok = cut_fits_exec(body, end, 2500);
        let ghost was = fits;
        fits = fits && ok;
        proof {
            assert(fits == forall|k: int| 0 <= k < i + 1 ==> cut_fits(b@, match_end(#[trigger] ms[k]), 2500)) by {
                if was && ok {
                    assert forall|k: int| 0 <= k < i + 1 implies cut_fits(b@, match_end(#[trigger] ms[k]), 2500) by {}
                }
            }
        }
        let h = mojeek_item(b, &items[i]);
        proof {
            lemma_somes_step(cands, i as int);
        }
        push_candidate(&mut hits, h);
        i = i + 1;
    }
    proof {
        assert(cands.subrange(0, i as int) =~= cands);
        assert(i == n);
        assert(ms == regex_matches(mojeek_pattern(), encode_utf8(body@)));
        assert(fits == mojeek_reads(body@, limit as nat)) by {
            if fits {
                assert forall|k: int| 0 <= k < ms.len() && k < limit implies cut_fits(
                    b@,
                    match_end(#[trigger] ms[k]),
                    2500,
                ) by {
                    assert(k < i);
                }
            }
        }
    }
    (hits, fits)
}

/// Parses Mojeek's result page: `<h2><a class="title" href>…</a></h2><p class="s">…`.
pub fn parse_mojeek_html(body: &str, limit: usize) -> (r: Vec<SearchHit>)
    requires
        mojeek_reads(body@, limit as nat),
    ensures
        views(r@) == spec_parse_mojeek_html(body@, limit as nat),
{
    scan_mojeek(body, limit).0
}

/// `parse_mojeek_html` where the page can be read; none where a look-ahead
/// window would cut a character in two (see `mojeek_reads`).
pub fn try_parse_mojeek_html(body: &str, limit: usize) -> (r: Option<Vec<SearchHit>>)
    ensures
        r is None <==> !mojeek_reads(body@, limit as nat),
        r matches Some(h) ==> views(h@) == spec_parse_mojeek_html(body@, limit as nat),
{
    if scan_mojeek(body, limit).1 {
        Some(parse_mojeek_html(body, limit))
    } else {
        None
    }
}

/// What a list of matches (from `all_matches`) is known to satisfy.
pub open spec fn matches_ok(items: Seq<Vec<Option<(usize, usize)>>>, ms: Seq<Groups>, len: nat) -> bool {
    &&& items.len() == ms.len()
    &&& forall|k: int| 0 <= k < items.len() ==> #[trigger] items[k]@ == ms[k]
    &&& forall|k: int|
        0 <= k < items.len() ==> (#[trigger] items[k])@.len() >= 1 && items[k]@[0] is Some
            && spans_within(items[k]@, len)
    &&& forall|k: int| 0 <= k < items.len() - 1 ==> match_end(#[trigger] items[k]@) <= match_start(items[k + 1]@)
}

fn span0(m: &Vec<Option<(usize, usize)>>, len: usize) -> (r: (usize, usize))
    requires
        m@.len() >= 1,
        m@[0] is Some,
        spans_within(m@, len as nat),
    ensures
        r.0 == match_start(m@),
        r.1 == match_end(m@),
        r.0 <= r.1 <= len,
{
    assert(m@[0int] is Some);
    match m[0] {
        Some(span) => span,
        None => (0, 0),
    }
}

// ---------------------------------------------------------------------------
// Baidu
// ---------------------------------------------------------------------------

/// Where the look-ahead window after Baidu result `k` ends: the next result
/// heading, at most 6000 bytes on, within the body.
pub open spec fn baidu_window_end(len: int, ms: Seq<Groups>, k: int) -> int {
    let e = match_end(ms[k]);
    let cap = if e + 6000 <= len {
        e + 6000
    } else {
        len
    };
    if k + 1 < ms.len() && match_start(ms[k + 1]) <= cap {
        match_start(ms[k + 1])
    } else {
        cap
    }
}

/// The hit of Baidu result `k`: none when its window is empty or flagged as
/// an advertisement (`>广告</span>` badge or `data-adburst`); else title and
/// address from the heading and the abstract found in the window.
pub open spec fn baidu_hit(body: Seq<u8>, ms: Seq<Groups>, k: int) -> Option<SearchHitView> {
    let m = ms[k];
    let e = match_end(m);
    let we = baidu_window_end(body.len() as int, ms, k);
    if we <= e {
        None
    } else {
        let w = body.subrange(e, we);
        if spec_bytes_contain(w, encode_utf8(">广告</span>"@)) || spec_bytes_contain(
            w,
            encode_utf8("data-adburst"@),
        ) {
            None
        } else {
            spec_new_hit(
                spec_clean_text(spec_group(body, m, 2)),
                spec_normalize_search_url(spec_group_text(body, m, 1)),
                spec_snippet_in(
                    r#"(?is)<div[^>]+class=['"][^'"]*(?:c-abstract|c-span-last|cosc-source-text)[^'"]*['"][^>]*>(.*?)</div>"#@,
                    w,
                ),
            )
        }
    }
}

/// The hits of Baidu's result page: result headings in order, ads skipped,
/// the first `limit` hits kept.
pub open spec fn spec_parse_baidu_html(body: Seq<char>, limit: nat) -> Seq<SearchHitView> {
    let b = encode_utf8(body);
    let ms = regex_matches(
        r#"(?is)<h3[^>]*>\s*<a[^>]+href=['"](https?://[^'"]+)['"][^>]*>(.*?)</a>\s*</h3>"#@,
        b,
    );
    seq_take(somes(Seq::new(ms.len(), |k: int| baidu_hit(b, ms, k))), limit)
}

fn baidu_item(body: &[u8], items: &Vec<Vec<Option<(usize, usize)>>>, k: usize, Ghost(ms): Ghost<Seq<Groups>>) -> (r: Option<SearchHit>)
    requires
        matches_ok(items@, ms, body@.len()),
        k < items@.len(),
    ensures
        match r {
            Some(h) => baidu_hit(body@, ms, k as int) == Some(h@),
            None => baidu_hit(body@, ms, k as int) is None,
        },
{
    let m = &items[k];
    let (_, e) = span0(m, body.len());
    let cap = if body.len() - e > 6000 {
        e + 6000
    } else {
        body.len()
    };
    let mut we = cap;
    if items.len() - k > 1 {
        let (ns, _) = span0(&items[k + 1], body.len());
        if ns <= cap {
            we = ns;
        }
    }
    assert(we == baidu_window_end(body@.len() as int, ms, k as int));
    if we <= e {
        return None;
    }
    let w = slice_bytes(body, e, we);
    if bytes_contain(&w, ">广告</span>".as_bytes()) || bytes_contain(&w, "data-adburst".as_bytes()) {
        return None;
    }
    let url = normalize_search_url(group_text(body, m, 1).as_str());
    let title = clean_string(&group_bytes(body, m, 2));
    let snippet = snippet_in(
        r#"(?is)<div[^>]+class=['"][^'"]*(?:c-abstract|c-span-last|cosc-source-text)[^'"]*['"][^>]*>(.*?)</div>"#,
        &w,
    );
    SearchHit::new(title.as_str(), url.as_str(), snippet.as_str())
}

pub open spec fn baidu_pattern() -> Seq<char> {
    r#"(?is)<h3[^>]*>\s*<a[^>]+href=['"](https?://[^'"]+)['"][^>]*>(.*?)</a>\s*</h3>"#@
}

/// The look-ahead window of result `k` ends on a character boundary (or is
/// empty, and then never cut).
pub open spec fn baidu_cut_fits(b: Seq<u8>, ms: Seq<Groups>, k: int) -> bool {
    let we = baidu_window_end(b.len() as int, ms, k);
    we <= match_end(ms[k]) || is_char_boundary(b, we)
}

/// Every look-ahead window cut while reading results, until `limit` hits
/// are kept, ends on a character boundary.
pub open spec fn baidu_reads(body: Seq<char>, limit: nat) -> bool {
    let b = encode_utf8(body);
    let ms = regex_matches(baidu_pattern(), b);
    let cands = Seq::new(ms.len(), |k: int| baidu_hit(b, ms, k));
    forall|k: int| 0 <= k < ms.len() && reached(cands, k, limit) ==> #[trigger] baidu_cut_fits(b, ms, k)
}

fn baidu_cut(body: &[u8], items: &Vec<Vec<Option<(usize, usize)>>>, k: usize, Ghost(ms): Ghost<Seq<Groups>>) -> (r: (usize, usize))
    requires
        matches_ok(items@, ms, body@.len()),
        k < items@.len(),
    ensures
        r.0 == match_end(ms[k as int]),
        r.1 == baidu_window_end(body@.len() as int, ms, k as int),
{
    let (_, e) = span0(&items[k], body.len());
    let cap = if body.len() - e > 6000 {
        e + 6000
    } else {
        body.len()
    };
    let mut we = cap;
    if items.len() - k > 1 {
        let (ns, _) = span0(&items[k + 1], body.len());
        if ns <= cap {
            we = ns;
        }
    }
    (e, we)
}
fn scan_baidu(body: &str, limit: usize) -> (r: (Vec<SearchHit>, bool))
    ensures
        views(r.0@) == spec_parse_baidu_html(body@, limit as nat),
        r.1 == baidu_reads(body@, limit as nat),
{
    let b = body.as_bytes();
    let items = all_matches(
        r#"(?is)<h3[^>]*>\s*<a[^>]+href=['"](https?://[^'"]+)['"][^>]*>(.*?)</a>\s*</h3>"#,
        b,
    );
    let ghost ms = regex_matches(
        r#"(?is)<h3[^>]*>\s*<a[^>]+href=['"](https?://[^'"]+)['"][^>]*>(.*?)</a>\s*</h3>"#@,
        b@,
    );
    let ghost cands = Seq::new(ms.len(), |k: int| baidu_hit(b@, ms, k));
    let mut hits: Vec<SearchHit> = Vec::new();
    let mut fits = true;
    let mut i: usize = 0;
    proof {
        assert(views(hits@) =~= somes(cands.subrange(0, 0)));
    }
    while i < items.len() && hits.len() < limit
        invariant
            b@ == encode_utf8(body@),
            matches_ok(items@, ms, b@.len()),
            cands == Seq::new(ms.len(), |k: int| baidu_hit(b@, ms, k)),
            i <= ms.len(),
            views(hits@) == somes(cands.subrange(0, i as int)),
            hits@.len() <= limit,
            fits == forall|k: int| 0 <= k < i && reached(cands, k, limit as nat) ==> #[trigger] baidu_cut_fits(b@, ms, k),
        decreases items.len() - i,
    {
        let (e, we) = baidu_cut(b, &items, i, Ghost(ms));
        let ok = we <= e || body.is_char_boundary(we);
        let ghost was = fits;
        fits = fits && ok;
        proof {
            assert(reached(cands, i as int, limit as nat));
            assert(ok == baidu_cut_fits(b@, ms, i as int));
            if was && ok {
                assert forall|k: int| 0 <= k < i + 1 && reached(cands, k, limit as nat) implies #[trigger] baidu_cut_fits(b@, ms, k) by {}
            }
            if !was {
                let k0 = choose|k: int| 0 <= k < i && reached(cands, k, limit as nat) && !#[trigger] baidu_cut_fits(b@, ms, k);
                assert(!baidu_cut_fits(b@, ms, k0));
            }
        }
        let h = baidu_item(b, &items, i, Ghost(ms));
        proof {
            lemma_somes_step(cands, i as int);
        }
        push_candidate(&mut hits, h);
        i = i + 1;
    }
    proof {
        lemma_collected_until_limit(cands, i as int, limit as nat);
        assert(ms == regex_matches(baidu_pattern(), encode_utf8(body@)));
        if fits {
            assert forall|k: int| 0 <= k < ms.len() && reached(cands, k, limit as nat) implies #[trigger] baidu_cut_fits(b@, ms, k) by {
                if k >= i {
                    lemma_somes_grow(cands, i as int, k);
                }
            }
        }
        assert(fits == baidu_reads(body@, limit as nat));
    }
    (hits, fits)
}

/// Parses Baidu's result page: organic results are `<h3 class="t|c-title"><a href=…>`;
/// the abstract lives in a following `c-abstract`-like container. Blocks
/// flagged as advertisements are skipped.
pub fn parse_baidu_html(body: &str, limit: usize) -> (r: Vec<SearchHit>)
    requires
        baidu_reads(body@, limit as nat),
    ensures
        views(r@) == spec_parse_baidu_html(body@, limit as nat),
{
    scan_baidu(body, limit).0
}

/// `parse_baidu_html` where the page can be read; none where a look-ahead
/// window would cut a character in two (see `baidu_reads`).
pub fn try_parse_baidu_html(body: &str, limit: usize) -> (r: Option<Vec<SearchHit>>)
    ensures
        r is None <==> !baidu_reads(body@, limit as nat),
        r matches Some(h) ==> views(h@) == spec_parse_baidu_html(body@, limit as nat),
{
    if scan_baidu(body, limit).1 {
        Some(parse_baidu_html(body, limit))
    } else {
        None
    }
}

// ---------------------------------------------------------------------------
// Sogou
// ---------------------------------------------------------------------------

/// Where the look-ahead window after Sogou result `k` ends: the next result
/// heading (or the end of the body), at most 5000 bytes on.
pub open spec fn sogou_window_end(len: int, ms: Seq<Groups>, k: int) -> int {
    let e = match_end(ms[k]);
    let next = if k + 1 < ms.len() {
        match_start(ms[k + 1])
    } else {
        len
    };
    let a = if next <= e + 5000 {
        next
    } else {
        e + 5000
    };
    if a <= len {
        a
    } else {
        len
    }
}

/// The address of a Sogou result: site-relative links are made absolute on
/// `www.sogou.com`, others normalized.
pub open spec fn sogou_url(raw: Seq<char>) -> Seq<char> {
    if raw.len() > 0 && raw[0] == '/' {
        "https://www.sogou.com"@ + raw
    } else {
        spec_normalize_search_url(raw)
    }
}

/// The hit of Sogou result `k`: none when its window is empty or holds an
/// advertisement badge (`>广告<`).
pub open spec fn sogou_hit(body: Seq<u8>, ms: Seq<Groups>, k: int) -> Option<SearchHitView> {
    let m = ms[k];
    let e = match_end(m);
    let we = sogou_window_end(body.len() as int, ms, k);
    if we <= e {
        None
    } else {
        let w = body.subrange(e, we);
        if spec_bytes_contain(w, encode_utf8(">广告<"@)) {
            None
        } else {
            spec_new_hit(
                spec_clean_text(spec_group(body, m, 2)),
                sogou_url(spec_group_text(body, m, 1)),
                spec_snippet_in(
                    r#"(?is)<(?:div|p)[^>]+class=['"][^'"]*(?:str-text-info|space-txt|fz-mid|text-layout)[^'"]*['"][^>]*>(.*?)</(?:div|p)>"#@,
                    w,
                ),
            )
        }
    }
}

/// The hits of Sogou's result page, ads skipped, the first `limit` kept.
pub open spec fn spec_parse_sogou_html(body: Seq<char>, limit: nat) -> Seq<SearchHitView> {
    let b = encode_utf8(body);
    let ms = regex_matches(
        r#"(?is)<h3[^>]*>\s*<a[^>]+href=['"]([^'"]+)['"][^>]*>(.*?)</a>\s*</h3>"#@,
        b,
    );
    seq_take(somes(Seq::new(ms.len(), |k: int| sogou_hit(b, ms, k))), limit)
}

fn sogou_address(raw: String) -> (r: String)
    ensures
        r@ == sogou_url(raw@),
{
    let rc = chars_of(raw.as_str());
    if rc.len() > 0 && rc[0] == '/' {
        let mut out: Vec<char> = Vec::new();
        crate::text::push_str(&mut out, "https://www.sogou.com");
        crate::text::push_all(&mut out, &rc);
        string_of(&out)
    } else {
        normalize_search_url(raw.as_str())
    }
}

fn sogou_item(body: &[u8], items: &Vec<Vec<Option<(usize, usize)>>>, k: usize, Ghost(ms): Ghost<Seq<Groups>>) -> (r: Option<SearchHit>)
    requires
        matches_ok(items@, ms, body@.len()),
        k < items@.len(),
    ensures
        match r {
            Some(h) => sogou_hit(body@, ms, k as int) == Some(h@),
            None => sogou_hit(body@, ms, k as int) is None,
        },
{
    let m = &items[k];
    let (_, e) = span0(m, body.len());
    let next = if items.len() - k > 1 {
        span0(&items[k + 1], body.len()).0
    } else {
        body.len()
    };
    let a = if next <= e || next - e <= 5000 {
        next
    } else {
        e + 5000
    };
    let we = if a <= body.len() {
        a
    } else {
        body.len()
    };
    assert(we == sogou_window_end(body@.len() as int, ms, k as int));
    if we <= e {
        return None;
    }
    let w = slice_bytes(body, e, we);
    if bytes_contain(&w, ">广告<".as_bytes()) {
        return None;
    }
    let url = sogou_address(group_text(body, m, 1));
    let title = clean_string(&group_bytes(body, m, 2));
    let snippet = snippet_in(
        r#"(?is)<(?:div|p)[^>]+class=['"][^'"]*(?:str-text-info|space-txt|fz-mid|text-layout)[^'"]*['"][^>]*>(.*?)</(?:div|p)>"#,
        &w,
    );
    SearchHit::new(title.as_str(), url.as_str(), snippet.as_str())
}

pub open spec fn sogou_pattern() -> Seq<char> {
    r#"(?is)<h3[^>]*>\s*<a[^>]+href=['"]([^'"]+)['"][^>]*>(.*?)</a>\s*</h3>"#@
}

/// The look-ahead window of result `k` ends on a character boundary (or is
/// empty, and then never cut).
pub open spec fn sogou_cut_fits(b: Seq<u8>, ms: Seq<Groups>, k: int) -> bool {
    let we = sogou_window_end(b.len() as int, ms, k);
    we <= match_end(ms[k]) || is_char_boundary(b, we)
}

/// Every look-ahead window cut while reading results, until `limit` hits
/// are kept, ends on a character boundary.
pub open spec fn sogou_reads(body: Seq<char>, limit: nat) -> bool {
    let b = encode_utf8(body);
    let ms = regex_matches(sogou_pattern(), b);
    let cands = Seq::new(ms.len(), |k: int| sogou_hit(b, ms, k));
    forall|k: int| 0 <= k < ms.len() && reached(cands, k, limit) ==> #[trigger] sogou_cut_fits(b, ms, k)
}

fn sogou_cut(body: &[u8], items: &Vec<Vec<Option<(usize, usize)>>>, k: usize, Ghost(ms): Ghost<Seq<Groups>>) -> (r: (usize, usize))
    requires
        matches_ok(items@, ms, body@.len()),
        k < items@.len(),
    ensures
        r.0 == match_end(ms[k as int]),
        r.1 == sogou_window_end(body@.len() as int, ms, k as int),
{
    let (_, e) = span0(&items[k], body.len());
    let next = if items.len() - k > 1 {
        span0(&items[k + 1], body.len()).0
    } else {
        body.len()
    };
    let a = if next <= e || next - e <= 5000 {
        next
    } else {
        e + 5000
    };
    let we = if a <= body.len() {
        a
    } else {
        body.len()
    };
    (e, we)
}
fn scan_sogou(body: &str, limit: usize) -> (r: (Vec<SearchHit>, bool))
    ensures
        views(r.0@) == spec_parse_sogou_html(body@, limit as nat),
        r.1 == sogou_reads(body@, limit as nat),
{
    let b = body.as_bytes();
    let items = all_matches(
        r#"(?is)<h3[^>]*>\s*<a[^>]+href=['"]([^'"]+)['"][^>]*>(.*?)</a>\s*</h3>"#,
        b,
    );
    let ghost ms = regex_matches(
        r#"(?is)<h3[^>]*>\s*<a[^>]+href=['"]([^'"]+)['"][^>]*>(.*?)</a>\s*</h3>"#@,
        b@,
    );
    let ghost cands = Seq::new(ms.len(), |k: int| sogou_hit(b@, ms, k));
    let mut hits: Vec<SearchHit> = Vec::new();
    let mut fits = true;
    let mut i: usize = 0;
    proof {
        assert(views(hits@) =~= somes(cands.subrange(0, 0)));
    }
    while i < items.len() && hits.len() < limit
        invariant
            b@ == encode_utf8(body@),
            matches_ok(items@, ms, b@.len()),
            cands == Seq::new(ms.len(), |k: int| sogou_hit(b@, ms, k)),
            i <= ms.len(),
            views(hits@) == somes(cands.subrange(0, i as int)),
            hits@.len() <= limit,
            fits == forall|k: int| 0 <= k < i && reached(cands, k, limit as nat) ==> #[trigger] sogou_cut_fits(b@, ms, k),
        decreases items.len() - i,
    {
        let (e, we) = sogou_cut(b, &items, i, Ghost(ms));
        let ok = we <= e || body.is_char_boundary(we);
        let ghost was = fits;
        fits = fits && ok;
        proof {
            assert(reached(cands, i as int, limit as nat));
            assert(ok == sogou_cut_fits(b@, ms, i as int));
            if was && ok {
                assert forall|k: int| 0 <= k < i + 1 && reached(cands, k, limit as nat) implies #[trigger] sogou_cut_fits(b@, ms, k) by {}
            }
            if !was {
                let k0 = choose|k: int| 0 <= k < i && reached(cands, k, limit as nat) && !#[trigger] sogou_cut_fits(b@, ms, k);
                assert(!sogou_cut_fits(b@, ms, k0));
            }
        }
        let h = sogou_item(b, &items, i, Ghost(ms));
        proof {
            lemma_somes_step(cands, i as int);
        }
        push_candidate(&mut hits, h);
        i = i + 1;
    }
    proof {
        lemma_collected_until_limit(cands, i as int, limit as nat);
        assert(ms == regex_matches(sogou_pattern(), encode_utf8(body@)));
        if fits {
            assert forall|k: int| 0 <= k < ms.len() && reached(cands, k, limit as nat) implies #[trigger] sogou_cut_fits(b@, ms, k) by {
                if k >= i {
                    lemma_somes_grow(cands, i as int, k);
                }
            }
        }
        assert(fits == sogou_reads(body@, limit as nat));
    }
    (hits, fits)
}

/// Parses Sogou's result page: organic results are `<h3 class="vr-title|vrTitle"><a>`;
/// snippets live in `str-text` / `fz-mid` / `space-txt` containers.
pub fn parse_sogou_html(body: &str, limit: usize) -> (r: Vec<SearchHit>)
    requires
        sogou_reads(body@, limit as nat),
    ensures
        views(r@) == spec_parse_sogou_html(body@, limit as nat),
{
    scan_sogou(body, limit).0
}

/// `parse_sogou_html` where the page can be read; none where a look-ahead
/// window would cut a character in two (see `sogou_reads`).
pub fn try_parse_sogou_html(body: &str, limit: usize) -> (r: Option<Vec<SearchHit>>)
    ensures
        r is None <==> !sogou_reads(body@, limit as nat),
        r matches Some(h) ==> views(h@) == spec_parse_sogou_html(body@, limit as nat),
{
    if scan_sogou(body, limit).1 {
        Some(parse_sogou_html(body, limit))
    } else {
        None
    }
}

// ---------------------------------------------------------------------------
// Sogou Weixin
// ---------------------------------------------------------------------------

/// The address of a Weixin article link: site-relative links are made
/// absolute on `weixin.sogou.com`, `http…` links kept, anything else refused.
pub open spec fn weixin_url(raw: Seq<char>) -> Option<Seq<char>> {
    if spec_starts_with(raw, "/"@) {
        Some("https://weixin.sogou.com"@ + raw)
    } else if spec_starts_with(raw, "http"@) {
        Some(raw)
    } else {
        None
    }
}

/// The hit of one Weixin result item: the item's heading link and title and
/// its `txt-info` abstract; none without a heading or a usable link.
pub open spec fn weixin_hit(body: Seq<u8>, m: Groups) -> Option<SearchHitView> {
    let block = spec_group(body, m, 1);
    match spec_first_match(r#"(?is)<h3[^>]*>\s*<a[^>]+href=['"]([^'"]+)['"][^>]*>(.*?)</a>"#@, block) {
        None => None,
        Some(c) => match weixin_url(spec_decode_html(spec_group_text(block, c, 1))) {
            None => None,
            Some(u) => spec_new_hit(
                spec_clean_text(spec_group(block, c, 2)),
                u,
                spec_snippet_in(
                    r#"(?is)<p[^>]+class=['"][^'"]*txt-info[^'"]*['"][^>]*>(.*?)</p>"#@,
                    block,
                ),
            ),
        },
    }
}

/// The hits of the Sogou Weixin result page, the first `limit` kept.
pub open spec fn spec_parse_sogou_weixin_html(body: Seq<char>, limit: nat) -> Seq<SearchHitView> {
    let b = encode_utf8(body);
    let ms = regex_matches(r#"(?is)<li[^>]+id=['"]sogou_vr[^'"]*['"][^>]*>(.*?)</li>"#@, b);
    seq_take(somes(Seq::new(ms.len(), |k: int| weixin_hit(b, ms[k]))), limit)
}

fn weixin_address(raw: &[char]) -> (r: Option<String>)
    ensures
        match r {
            Some(u) => weixin_url(raw@) == Some(u@),
            None => weixin_url(raw@) is None,
        },
{
    if starts_with(raw, &chars_of("/")) {
        let mut out: Vec<char> = Vec::new();
        crate::text::push_str(&mut out, "https://weixin.sogou.com");
        crate::text::push_all(&mut out, raw);
        Some(string_of(&out))
    } else if starts_with(raw, &chars_of("http")) {
        Some(string_of(raw))
    } else {
        None
    }
}

fn weixin_item(body: &[u8], m: &Vec<Option<(usize, usize)>>) -> (r: Option<SearchHit>)
    requires
        spans_within(m@, body@.len()),
    ensures
        match r {
            Some(h) => weixin_hit(body@, m@) == Some(h@),
            None => weixin_hit(body@, m@) is None,
        },
{
    let block = group_bytes(body, m, 1);
    let titles = all_matches(r#"(?is)<h3[^>]*>\s*<a[^>]+href=['"]([^'"]+)['"][^>]*>(.*?)</a>"#, &block);
    if titles.len() == 0 {
        return None;
    }
    let c = &titles[0];
    let raw = decode_html(&chars_of(group_text(&block, c, 1).as_str()));
    let url = match weixin_address(&raw) {
        Some(u) => u,
        None => {
            return None;
        },
    };
    let title = clean_string(&group_bytes(&block, c, 2));
    let snippet = snippet_in(r#"(?is)<p[^>]+class=['"][^'"]*txt-info[^'"]*['"][^>]*>(.*?)</p>"#, &block);
    SearchHit::new(title.as_str(), url.as_str(), snippet.as_str())
}

/// Parses the Sogou Weixin result page: `<li id="sogou_vr…box_N">` items
/// holding an `<h3><a href>` title plus a `<p class="txt-info">` abstract.
/// Links are Sogou redirect stubs (`/link?url=…`), made absolute.
pub fn parse_sogou_weixin_html(body: &str, limit: usize) -> (r: Vec<SearchHit>)
    ensures
        views(r@) == spec_parse_sogou_weixin_html(body@, limit as nat),
{
    let b = body.as_bytes();
    let items = all_matches(r#"(?is)<li[^>]+id=['"]sogou_vr[^'"]*['"][^>]*>(.*?)</li>"#, b);
    let ghost ms = regex_matches(r#"(?is)<li[^>]+id=['"]sogou_vr[^'"]*['"][^>]*>(.*?)</li>"#@, b@);
    let ghost cands = Seq::new(ms.len(), |k: int| weixin_hit(b@, ms[k]));
    let mut hits: Vec<SearchHit> = Vec::new();
    let mut i: usize = 0;
    proof {
        assert(views(hits@) =~= somes(cands.subrange(0, 0)));
    }
    while i < items.len() && hits.len() < limit
        invariant
            b@ == encode_utf8(body@),
            matches_ok(items@, ms, b@.len()),
            cands == Seq::new(ms.len(), |k: int| weixin_hit(b@, ms[k])),
            i <= ms.len(),
            views(hits@) == somes(cands.subrange(0, i as int)),
            hits@.len() <= limit,
        decreases items.len() - i,
    {
        let h = weixin_item(b, &items[i]);
        proof {
            lemma_somes_step(cands, i as int);
        }
        push_candidate(&mut hits, h);
        i = i + 1;
    }
    proof {
        lemma_collected_until_limit(cands, i as int, limit as nat);
    }
    hits
}

// ---------------------------------------------------------------------------
// DuckDuckGo (html + lite markup)
// ---------------------------------------------------------------------------

/// The snippet element of a DuckDuckGo result: an `a`, `td` or `div` whose
/// class names `result__snippet` (classic markup) or `result-snippet` (lite
/// markup).
pub open spec fn ddg_snippet_pattern() -> Seq<char> {
    r#"(?is)<(?:a|td|div)[^>]+class=['"][^'"]*(?:result__snippet|result-snippet)[^'"]*['"][^>]*>(.*?)</(?:a|td|div)>"#@
}

/// The hit of one DuckDuckGo result link: address and title from the link,
/// snippet from the `result__snippet`/`result-snippet` element within 2500
/// bytes after it.
pub open spec fn ddg_hit(body: Seq<u8>, m: Groups) -> Option<SearchHitView> {
    spec_new_hit(
        spec_clean_text(spec_group(body, m, 2)),
        spec_normalize_search_url(spec_group_text(body, m, 1)),
        spec_snippet_in(ddg_snippet_pattern(), window_after(body, match_end(m), 2500)),
    )
}

/// The snippet pattern reads both markups: its class alternation names
/// `result__snippet` and `result-snippet`.
pub proof fn lemma_ddg_snippet_reads_both_markups()
    ensures
        crate::text::spec_contains(ddg_snippet_pattern(), "result__snippet"@),
        crate::text::spec_contains(ddg_snippet_pattern(), "result-snippet"@),
{
    reveal_strlit(r#"(?is)<(?:a|td|div)[^>]+class=['"][^'"]*(?:result__snippet|result-snippet)[^'"]*['"][^>]*>(.*?)</(?:a|td|div)>"#);
    reveal_strlit("result__snippet");
    reveal_strlit("result-snippet");
    let p = ddg_snippet_pattern();
    assert(p.subrange(42, 57) =~= "result__snippet"@);
    assert(crate::text::occurs_at(p, "result__snippet"@, 42));
    assert(p.subrange(58, 72) =~= "result-snippet"@);
    assert(crate::text::occurs_at(p, "result-snippet"@, 58));
}

/// Every DuckDuckGo hit takes its snippet from the first element matching
/// `ddg_snippet_pattern` (either markup) within 2500 bytes after its link.
pub proof fn lemma_ddg_hit_snippet(body: Seq<u8>, m: Groups)
    ensures
        ddg_hit(body, m) matches Some(h) ==> h.snippet == spec_take(
            spec_collapse_whitespace(
                spec_snippet_in(ddg_snippet_pattern(), window_after(body, match_end(m), 2500)),
            ),
            300,
        ),
{
}

/// Some of the first `i` matches starts at byte `x`.
pub open spec fn starts_among(ms: Seq<Groups>, i: int, x: int) -> bool {
    exists|j: int| 0 <= j < i && match_start(#[trigger] ms[j]) == x
}

/// Link `k` of the class-first layout, unless an earlier link started at the
/// same byte.
pub open spec fn ddg_first_cand(body: Seq<u8>, ma: Seq<Groups>, k: int) -> Option<SearchHitView> {
    if starts_among(ma, k, match_start(ma[k])) {
        None
    } else {
        ddg_hit(body, ma[k])
    }
}

/// Link `k` of the href-first layout, unless a link of either layout already
/// started at the same byte.
pub open spec fn ddg_second_cand(body: Seq<u8>, ma: Seq<Groups>, mb: Seq<Groups>, k: int) -> Option<
    SearchHitView,
> {
    if starts_among(ma, ma.len() as int, match_start(mb[k])) || starts_among(
        mb,
        k,
        match_start(mb[k]),
    ) {
        None
    } else {
        ddg_hit(body, mb[k])
    }
}

pub open spec fn ddg_class_first() -> Seq<char> {
    r#"(?is)<a[^>]+class=['"][^'"]*(?:result__a|result-link)[^'"]*['"][^>]+href=['"]([^'"]+)['"][^>]*>(.*?)</a>"#@
}

pub open spec fn ddg_href_first() -> Seq<char> {
    r#"(?is)<a[^>]+href=['"]([^'"]+)['"][^>]+class=['"][^'"]*(?:result__a|result-link)[^'"]*['"][^>]*>(.*?)</a>"#@
}

/// The hits of a DuckDuckGo page (classic `result__a` or lite `result-link`
/// markup): the links whose class comes before their address, or, when those
/// give no hit, the links whose address comes first; the first `limit` kept.
pub open spec fn spec_parse_duckduckgo_html(body: Seq<char>, limit: nat) -> Seq<SearchHitView> {
    let b = encode_utf8(body);
    let ma = regex_matches(ddg_class_first(), b);
    let mb = regex_matches(ddg_href_first(), b);
    let first = seq_take(somes(Seq::new(ma.len(), |k: int| ddg_first_cand(b, ma, k))), limit);
    if first.len() > 0 {
        first
    } else {
        seq_take(somes(Seq::new(mb.len(), |k: int| ddg_second_cand(b, ma, mb, k))), limit)
    }
}

fn ddg_item(body: &[u8], m: &Vec<Option<(usize, usize)>>) -> (r: Option<SearchHit>)
    requires
        spans_within(m@, body@.len()),
        m@.len() >= 1,
        m@[0] is Some,
    ensures
        match r {
            Some(h) => ddg_hit(body@, m@) == Some(h@),
            None => ddg_hit(body@, m@) is None,
        },
{
    let url = normalize_search_url(group_text(body, m, 1).as_str());
    let title = clean_string(&group_bytes(body, m, 2));
    let (_, end) = span0(m, body.len());
    let w = window(body, end, 2500);
    let snippet = snippet_in(
        r#"(?is)<(?:a|td|div)[^>]+class=['"][^'"]*(?:result__snippet|result-snippet)[^'"]*['"][^>]*>(.*?)</(?:a|td|div)>"#,
        &w,
    );
    SearchHit::new(title.as_str(), url.as_str(), snippet.as_str())
}

fn contains_usize(v: &Vec<usize>, x: usize) -> (r: bool)
    ensures
        r == v@.contains(x),
{
    let mut i: usize = 0;
    while i < v.len()
        invariant
            i <= v@.len(),
            forall|j: int| 0 <= j < i ==> v@[j] != x,
        decreases v.len() - i,
    {
        if v[i] == x {
            assert(v@[i as int] == x);
            return true;
        }
        i = i + 1;
    }
    false
}

/// The snippet window after class-first link `k` ends on a character
/// boundary, or the link repeats an earlier start and is passed over first.
pub open spec fn ddg_first_fits(b: Seq<u8>, ma: Seq<Groups>, k: int) -> bool {
    starts_among(ma, k, match_start(ma[k])) || cut_fits(b, match_end(ma[k]), 2500)
}

/// The same for href-first link `k`, which is passed over when any link of
/// either layout started at the same byte.
pub open spec fn ddg_second_fits(b: Seq<u8>, ma: Seq<Groups>, mb: Seq<Groups>, k: int) -> bool {
    starts_among(ma, ma.len() as int, match_start(mb[k])) || starts_among(mb, k, match_start(mb[k]))
        || cut_fits(b, match_end(mb[k]), 2500)
}

/// Every snippet window cut while reading links, until `limit` hits are
/// kept, ends on a character boundary; the second layout is read only when
/// the first gives no hit.
pub open spec fn ddg_reads(body: Seq<char>, limit: nat) -> bool {
    let b = encode_utf8(body);
    let ma = regex_matches(ddg_class_first(), b);
    let mb = regex_matches(ddg_href_first(), b);
    let ca = Seq::new(ma.len(), |k: int| ddg_first_cand(b, ma, k));
    let cb = Seq::new(mb.len(), |k: int| ddg_second_cand(b, ma, mb, k));
    &&& forall|k: int| 0 <= k < ma.len() && reached(ca, k, limit) ==> #[trigger] ddg_first_fits(b, ma, k)
    &&& seq_take(somes(ca), limit).len() == 0 ==> forall|k: int|
        0 <= k < mb.len() && reached(cb, k, limit) ==> #[trigger] ddg_second_fits(b, ma, mb, k)
}

fn scan_duckduckgo(body: &str, limit: usize) -> (r: (Vec<SearchHit>, bool))
    ensures
        views(r.0@) == spec_parse_duckduckgo_html(body@, limit as nat),
        r.1 == ddg_reads(body@, limit as nat),
{
    let b = body.as_bytes();
    let la = all_matches(
        r#"(?is)<a[^>]+class=['"][^'"]*(?:result__a|result-link)[^'"]*['"][^>]+href=['"]([^'"]+)['"][^>]*>(.*?)</a>"#,
        b,
    );
    let lb = all_matches(
        r#"(?is)<a[^>]+href=['"]([^'"]+)['"][^>]+class=['"][^'"]*(?:result__a|result-link)[^'"]*['"][^>]*>(.*?)</a>"#,
        b,
    );
    let ghost ma = regex_matches(ddg_class_first(), b@);
    let ghost mb = regex_matches(ddg_href_first(), b@);
    let ghost ca = Seq::new(ma.len(), |k: int| ddg_first_cand(b@, ma, k));
    let ghost cb = Seq::new(mb.len(), |k: int| ddg_second_cand(b@, ma, mb, k));
    if limit == 0 {
        proof {
            assert(seq_take(somes(ca), 0) =~= Seq::<SearchHitView>::empty());
            assert(seq_take(somes(cb), 0) =~= Seq::<SearchHitView>::empty());
            assert(ddg_reads(body@, 0));
        }
        return (Vec::new(), true);
    }
    let mut seen: Vec<usize> = Vec::new();
    let mut hits: Vec<SearchHit> = Vec::new();
    let mut fits1 = true;
    let mut i: usize = 0;
    proof {
        assert(views(hits@) =~= somes(ca.subrange(0, 0)));
    }
    while i < la.len() && hits.len() < limit
        invariant
            b@ == encode_utf8(body@),
            matches_ok(la@, ma, b@.len()),
            ca == Seq::new(ma.len(), |k: int| ddg_first_cand(b@, ma, k)),
            i <= ma.len(),
            views(hits@) == somes(ca.subrange(0, i as int)),
            hits@.len() <= limit,
            forall|x: usize|
                #![trigger starts_among(ma, i as int, x as int)]
                #![trigger seen@.contains(x)]
                starts_among(ma, i as int, x as int) == seen@.contains(x),
            fits1 == forall|k: int| 0 <= k < i && reached(ca, k, limit as nat) ==> #[trigger] ddg_first_fits(b@, ma, k),
        decreases la.len() - i,
    {
        let (st, en) = span0(&la[i], b.len());
        let dup = contains_usize(&seen, st);
        let ok = dup || cut_fits_exec(body, en, 2500);
        let ghost was = fits1;
        fits1 = fits1 && ok;
        proof {
            assert(reached(ca, i as int, limit as nat));
            assert(ok == ddg_first_fits(b@, ma, i as int));
            if was && ok {
                assert forall|k: int| 0 <= k < i + 1 && reached(ca, k, limit as nat) implies #[trigger] ddg_first_fits(b@, ma, k) by {}
            }
            if !was {
                let k0 = choose|k: int| 0 <= k < i && reached(ca, k, limit as nat) && !#[trigger] ddg_first_fits(b@, ma, k);
                assert(!ddg_first_fits(b@, ma, k0));
            }
        }
        let ghost old_seen = seen@;
        let h = if dup {
            None
        } else {
            seen.push(st);
            ddg_item(b, &la[i])
        };
        proof {
            assert(dup == starts_among(ma, i as int, st as int));
            lemma_somes_step(ca, i as int);
            assert forall|x: usize|
                starts_among(ma, i + 1, x as int) == seen@.contains(x) by {
                if starts_among(ma, i + 1, x as int) {
                    let j = choose|j: int| 0 <= j < i + 1 && match_start(#[trigger] ma[j]) == x as int;
                    if j < i {
                        assert(starts_among(ma, i as int, x as int));
                        assert(old_seen.contains(x));
                        let k = choose|k: int| 0 <= k < old_seen.len() && old_seen[k] == x;
                        assert(seen@[k] == x);
                    } else {
                        if !dup {
                            assert(seen@[seen@.len() - 1] == x);
                        }
                    }
                }
                if seen@.contains(x) {
                    let k = choose|k: int| 0 <= k < seen@.len() && seen@[k] == x;
                    if k < old_seen.len() {
                        assert(old_seen[k] == x);
                        assert(old_seen.contains(x));
                        let j = choose|j: int| 0 <= j < i && match_start(#[trigger] ma[j]) == x as int;
                        assert(starts_among(ma, i + 1, x as int));
                    } else {
                        assert(match_start(ma[i as int]) == x as int);
                        assert(starts_among(ma, i + 1, x as int));
                    }
                }
            }
        }
        push_candidate(&mut hits, h);
        i = i + 1;
    }
    proof {
        lemma_collected_until_limit(ca, i as int, limit as nat);
        if fits1 {
            assert forall|k: int| 0 <= k < ma.len() && reached(ca, k, limit as nat) implies #[trigger] ddg_first_fits(b@, ma, k) by {
                if k >= i {
                    lemma_somes_grow(ca, i as int, k);
                }
            }
        }
        assert(fits1 == forall|k: int| 0 <= k < ma.len() && reached(ca, k, limit as nat) ==> #[trigger] ddg_first_fits(b@, ma, k));
        assert(ma == regex_matches(ddg_class_first(), encode_utf8(body@)));
        assert(mb == regex_matches(ddg_href_first(), encode_utf8(body@)));
    }
    if hits.len() > 0 {
        assert(fits1 == ddg_reads(body@, limit as nat));
        return (hits, fits1);
    }
    let mut fits2 = true;
    let mut j: usize = 0;
    proof {
        assert(i == la@.len());
        assert(views(hits@) =~= somes(cb.subrange(0, 0)));
    }
    while j < lb.len() && hits.len() < limit
        invariant
            b@ == encode_utf8(body@),
            matches_ok(lb@, mb, b@.len()),
            cb == Seq::new(mb.len(), |k: int| ddg_second_cand(b@, ma, mb, k)),
            j <= mb.len(),
            views(hits@) == somes(cb.subrange(0, j as int)),
            hits@.len() <= limit,
            forall|x: usize|
                #![trigger starts_among(mb, j as int, x as int)]
                #![trigger seen@.contains(x)]
                (starts_among(ma, ma.len() as int, x as int) || starts_among(mb, j as int, x as int))
                    == seen@.contains(x),
            fits2 == forall|k: int| 0 <= k < j && reached(cb, k, limit as nat) ==> #[trigger] ddg_second_fits(b@, ma, mb, k),
        decreases lb.len() - j,
    {
        let (st, en) = span0(&lb[j], b.len());
        let dup = contains_usize(&seen, st);
        let ok = dup || cut_fits_exec(body, en, 2500);
        let ghost was = fits2;
        fits2 = fits2 && ok;
        proof {
            assert(reached(cb, j as int, limit as nat));
            assert(ok == ddg_second_fits(b@, ma, mb, j as int));
            if was && ok {
                assert forall|k: int| 0 <= k < j + 1 && reached(cb, k, limit as nat) implies #[trigger] ddg_second_fits(b@, ma, mb, k) by {}
            }
            if !was {
                let k0 = choose|k: int| 0 <= k < j && reached(cb, k, limit as nat) && !#[trigger] ddg_second_fits(b@, ma, mb, k);
                assert(!ddg_second_fits(b@, ma, mb, k0));
            }
        }
        let ghost old_seen = seen@;
        let h = if dup {
            None
        } else {
            seen.push(st);
            ddg_item(b, &lb[j])
        };
        proof {
            assert(dup == (starts_among(ma, ma.len() as int, st as int) || starts_among(mb, j as int, st as int)));
            lemma_somes_step(cb, j as int);
            assert forall|x: usize|
                (starts_among(ma, ma.len() as int, x as int) || starts_among(mb, j + 1, x as int))
                    == seen@.contains(x) by {
                if starts_among(mb, j + 1, x as int) {
                    let q = choose|q: int| 0 <= q < j + 1 && match_start(#[trigger] mb[q]) == x as int;
                    if q < j {
                        assert(starts_among(mb, j as int, x as int));
                    }
                }
                if starts_among(ma, ma.len() as int, x as int) || starts_among(mb, j + 1, x as int) {
                    if starts_among(ma, ma.len() as int, x as int) || starts_among(mb, j as int, x as int) {
                        assert(old_seen.contains(x));
                        let k = choose|k: int| 0 <= k < old_seen.len() && old_seen[k] == x;
                        assert(seen@[k] == x);
                    } else {
                        assert(x as int == match_start(mb[j as int]));
                        if !dup {
                            assert(seen@[seen@.len() - 1] == x);
                        }
                    }
                }
                if seen@.contains(x) {
                    let k = choose|k: int| 0 <= k < seen@.len() && seen@[k] == x;
                    if k < old_seen.len() {
                        assert(old_seen[k] == x);
                        assert(old_seen.contains(x));
                        if starts_among(mb, j as int, x as int) {
                            let q = choose|q: int| 0 <= q < j && match_start(#[trigger] mb[q]) == x as int;
                            assert(starts_among(mb, j + 1, x as int));
                        }
                    } else {
                        assert(match_start(mb[j as int]) == x as int);
                        assert(starts_among(mb, j + 1, x as int));
                    }
                }
            }
        }
        push_candidate(&mut hits, h);
        j = j + 1;
    }
    proof {
        lemma_collected_until_limit(cb, j as int, limit as nat);
        if fits2 {
            assert forall|k: int| 0 <= k < mb.len() && reached(cb, k, limit as nat) implies #[trigger] ddg_second_fits(b@, ma, mb, k) by {
                if k >= j {
                    lemma_somes_grow(cb, j as int, k);
                }
            }
        }
        assert((fits1 && fits2) == ddg_reads(body@, limit as nat));
    }
    (hits, fits1 && fits2)
}

/// Parses both DuckDuckGo classic (`result__a`) and lite (`result-link`) markup.
pub fn parse_duckduckgo_html(body: &str, limit: usize) -> (r: Vec<SearchHit>)
    requires
        ddg_reads(body@, limit as nat),
    ensures
        views(r@) == spec_parse_duckduckgo_html(body@, limit as nat),
{
    scan_duckduckgo(body, limit).0
}

/// `parse_duckduckgo_html` where the page can be read; none where a snippet
/// window would cut a character in two (see `ddg_reads`).
pub fn try_parse_duckduckgo_html(body: &str, limit: usize) -> (r: Option<Vec<SearchHit>>)
    ensures
        r is None <==> !ddg_reads(body@, limit as nat),
        r matches Some(h) ==> views(h@) == spec_parse_duckduckgo_html(body@, limit as nat),
{
    if scan_duckduckgo(body, limit).1 {
        Some(parse_duckduckgo_html(body, limit))
    } else {
        None
    }
}

// ---------------------------------------------------------------------------
// Bing HTML result page
// ---------------------------------------------------------------------------

/// A result heading found on the Bing page: its byte span, address and title.
pub struct Found {
    pub start: usize,
    pub end: usize,
    pub url: String,
    pub title: String,
}

pub struct FoundView {
    pub start: int,
    pub end: int,
    pub url: Seq<char>,
    pub title: Seq<char>,
}

impl View for Found {
    type V = FoundView;

    open spec fn view(&self) -> FoundView {
        FoundView { start: self.start as int, end: self.end as int, url: self.url@, title: self.title@ }
    }
}

pub open spec fn found_views(s: Seq<Found>) -> Seq<FoundView> {
    s.map_values(|f: Found| f@)
}

/// The heading that one match describes.
pub open spec fn bing_entry(body: Seq<u8>, m: Groups) -> FoundView {
    FoundView {
        start: match_start(m),
        end: match_end(m),
        url: spec_normalize_search_url(spec_group_text(body, m, 1)),
        title: spec_clean_text(spec_group(body, m, 2)),
    }
}

/// Byte `x` lies inside one of the headings found so far.
pub open spec fn claimed(found: Seq<FoundView>, x: int) -> bool {
    exists|k: int| 0 <= k < found.len() && (#[trigger] found[k]).start <= x < found[k].end
}

/// The headings of the anchor-wraps-heading layout, then those of the
/// heading-wraps-anchor layout that do not start inside a heading already
/// found.
pub open spec fn bing_found(base: Seq<FoundView>, body: Seq<u8>, mi: Seq<Groups>) -> Seq<FoundView>
    decreases mi.len(),
{
    if mi.len() == 0 {
        base
    } else {
        let prev = bing_found(base, body, mi.drop_last());
        if claimed(prev, match_start(mi.last())) {
            prev
        } else {
            prev.push(bing_entry(body, mi.last()))
        }
    }
}

/// `x` inserted into `sorted` after every entry that starts no later.
pub open spec fn insert_by_start(sorted: Seq<FoundView>, x: FoundView) -> Seq<FoundView>
    decreases sorted.len(),
{
    if sorted.len() == 0 || sorted.last().start <= x.start {
        sorted.push(x)
    } else {
        insert_by_start(sorted.drop_last(), x).push(sorted.last())
    }
}

/// The entries stably sorted by start (`sort_by_key(|e| e.start)`).
pub open spec fn sort_by_start(s: Seq<FoundView>) -> Seq<FoundView>
    decreases s.len(),
{
    if s.len() == 0 {
        Seq::empty()
    } else {
        insert_by_start(sort_by_start(s.drop_last()), s.last())
    }
}

pub open spec fn ends_within(s: Seq<FoundView>, len: int) -> bool {
    forall|k: int| 0 <= k < s.len() ==> 0 <= (#[trigger] s[k]).end <= len
}

proof fn lemma_insert_at(s: Seq<FoundView>, x: FoundView, j: int)
    requires
        0 <= j <= s.len(),
        forall|k: int| j <= k < s.len() ==> (#[trigger] s[k]).start > x.start,
        j > 0 ==> s[j - 1].start <= x.start,
    ensures
        insert_by_start(s, x) == s.insert(j, x),
    decreases s.len() - j,
{
    if j == s.len() {
        assert(s.insert(j, x) =~= s.push(x));
    } else {
        lemma_insert_at(s.drop_last(), x, j);
        assert(s.insert(j, x) =~= s.drop_last().insert(j, x).push(s.last()));
    }
}

proof fn lemma_insert_within(s: Seq<FoundView>, x: FoundView, len: int)
    requires
        ends_within(s, len),
        0 <= x.end <= len,
    ensures
        ends_within(insert_by_start(s, x), len),
    decreases s.len(),
{
    if s.len() > 0 && s.last().start > x.start {
        lemma_insert_within(s.drop_last(), x, len);
    }
}

proof fn lemma_sort_within(s: Seq<FoundView>, len: int)
    requires
        ends_within(s, len),
    ensures
        ends_within(sort_by_start(s), len),
    decreases s.len(),
{
    if s.len() > 0 {
        lemma_sort_within(s.drop_last(), len);
        lemma_insert_within(sort_by_start(s.drop_last()), s.last(), len);
    }
}

/// The hit of one heading: its title and address, with the snippet from the
/// `b_caption` paragraph within 3000 bytes after it.
pub open spec fn bing_hit(body: Seq<u8>, e: FoundView) -> Option<SearchHitView> {
    spec_new_hit(
        e.title,
        e.url,
        spec_snippet_in(
            r#"(?is)<div[^>]+class=['"][^'"]*b_caption[^'"]*['"][^>]*>.*?<p[^>]*>(.*?)</p>"#@,
            window_after(body, e.end, 3000),
        ),
    )
}

pub open spec fn bing_wrap_pattern() -> Seq<char> {
    r#"(?is)<a[^>]+href=['"](https?://[^'"]+)['"][^>]*>\s*<h2[^>]*>(.*?)</h2>"#@
}

pub open spec fn bing_inner_pattern() -> Seq<char> {
    r#"(?is)<h2[^>]*>\s*<a[^>]+href=['"](https?://[^'"]+)['"][^>]*>(.*?)</a>"#@
}

/// The headings of both Bing layouts in page order.
pub open spec fn bing_sorted(b: Seq<u8>) -> Seq<FoundView> {
    let mw = regex_matches(bing_wrap_pattern(), b);
    let mi = regex_matches(bing_inner_pattern(), b);
    sort_by_start(bing_found(Seq::new(mw.len(), |k: int| bing_entry(b, mw[k])), b, mi))
}

/// The hits of the Bing result page: headings of both layouts in page order,
/// the first `limit` hits kept.
pub open spec fn spec_parse_bing_html(body: Seq<char>, limit: nat) -> Seq<SearchHitView> {
    let b = encode_utf8(body);
    let sorted = bing_sorted(b);
    seq_take(somes(Seq::new(sorted.len(), |k: int| bing_hit(b, sorted[k]))), limit)
}

fn entry_of(body: &[u8], m: &Vec<Option<(usize, usize)>>) -> (r: Found)
    requires
        spans_within(m@, body@.len()),
        m@.len() >= 1,
        m@[0] is Some,
    ensures
        r@ == bing_entry(body@, m@),
        r.end <= body@.len(),
{
    let (s, e) = span0(m, body.len());
    let url = normalize_search_url(group_text(body, m, 1).as_str());
    let title = clean_string(&group_bytes(body, m, 2));
    Found { start: s, end: e, url, title }
}

fn copy_found(f: &Found) -> (r: Found)
    ensures
        r@ == f@,
{
    Found { start: f.start, end: f.end, url: f.url.clone(), title: f.title.clone() }
}

/// The headings of both layouts, in the order they were found.
fn bing_headings(b: &[u8]) -> (r: Vec<Found>)
    ensures
        found_views(r@) == bing_found(
            Seq::new(
                regex_matches(bing_wrap_pattern(), b@).len(),
                |k: int| bing_entry(b@, regex_matches(bing_wrap_pattern(), b@)[k]),
            ),
            b@,
            regex_matches(bing_inner_pattern(), b@),
        ),
        ends_within(found_views(r@), b@.len() as int),
{
    let lw = all_matches(r#"(?is)<a[^>]+href=['"](https?://[^'"]+)['"][^>]*>\s*<h2[^>]*>(.*?)</h2>"#, b);
    let li = all_matches(r#"(?is)<h2[^>]*>\s*<a[^>]+href=['"](https?://[^'"]+)['"][^>]*>(.*?)</a>"#, b);
    let ghost mw = regex_matches(bing_wrap_pattern(), b@);
    let ghost mi = regex_matches(bing_inner_pattern(), b@);
    let ghost base = Seq::new(mw.len(), |k: int| bing_entry(b@, mw[k]));
    let mut found: Vec<Found> = Vec::new();
    let mut k: usize = 0;
    proof {
        assert(found_views(found@) =~= base.subrange(0, 0));
    }
    while k < lw.len()
        invariant
            matches_ok(lw@, mw, b@.len()),
            k <= lw@.len(),
            found_views(found@) == base.subrange(0, k as int),
            base == Seq::new(mw.len(), |k: int| bing_entry(b@, mw[k])),
            ends_within(found_views(found@), b@.len() as int),
        decreases lw.len() - k,
    {
        let e = entry_of(b, &lw[k]);
        let ghost ev = e@;
        let ghost before = found@;
        found.push(e);
        k = k + 1;
        assert(found_views(found@) =~= found_views(before).push(ev));
        assert(found_views(found@) =~= base.subrange(0, k as int));
    }
    proof {
        assert(base.subrange(0, k as int) =~= base);
        assert(mi.subrange(0, 0) =~= Seq::<Groups>::empty());
    }
    let mut q: usize = 0;
    while q < li.len()
        invariant
            matches_ok(li@, mi, b@.len()),
            q <= li@.len(),
            found_views(found@) == bing_found(base, b@, mi.subrange(0, q as int)),
            ends_within(found_views(found@), b@.len() as int),
        decreases li.len() - q,
    {
        let (ws, _) = span0(&li[q], b.len());
        let mut claimed_here = false;
        let mut t: usize = 0;
        while t < found.len()
            invariant
                t <= found@.len(),
                claimed_here == exists|u: int|
                    0 <= u < t && (#[trigger] found_views(found@)[u]).start <= ws < found_views(
                        found@,
                    )[u].end,
            decreases found.len() - t,
        {
            if found[t].start <= ws && ws < found[t].end {
                claimed_here = true;
                assert(found_views(found@)[t as int].start <= ws < found_views(found@)[t as int].end);
            }
            t = t + 1;
        }
        let ghost pre = mi.subrange(0, q as int);
        let ghost post = mi.subrange(0, q + 1);
        proof {
            assert(post.drop_last() =~= pre);
            assert(post.last() == mi[q as int]);
            assert(claimed_here == claimed(found_views(found@), ws as int));
        }
        if !claimed_here {
            let e = entry_of(b, &li[q]);
            let ghost ev = e@;
            let ghost before = found@;
            found.push(e);
            assert(found_views(found@) =~= found_views(before).push(ev));
        }
        q = q + 1;
    }
    proof {
        assert(mi.subrange(0, q as int) =~= mi);
    }
    found
}

/// The headings stably sorted by start.
fn sort_headings(found: &Vec<Found>) -> (r: Vec<Found>)
    ensures
        found_views(r@) == sort_by_start(found_views(found@)),
{
    let ghost fv = found_views(found@);
    let mut sorted: Vec<Found> = Vec::new();
    let mut p: usize = 0;
    proof {
        assert(fv.subrange(0, 0) =~= Seq::<FoundView>::empty());
        assert(found_views(sorted@) =~= sort_by_start(fv.subrange(0, 0)));
    }
    while p < found.len()
        invariant
            p <= found@.len(),
            fv == found_views(found@),
            found_views(sorted@) == sort_by_start(fv.subrange(0, p as int)),
        decreases found.len() - p,
    {
        let x = copy_found(&found[p]);
        let mut j: usize = sorted.len();
        while j > 0 && sorted[j - 1].start > x.start
            invariant
                j <= sorted@.len(),
                forall|k: int|
                    j <= k < sorted@.len() ==> (#[trigger] found_views(sorted@)[k]).start > x@.start,
            decreases j,
        {
            j = j - 1;
        }
        let ghost sv = found_views(sorted@);
        proof {
            lemma_insert_at(sv, x@, j as int);
            let pre = fv.subrange(0, p as int);
            let post = fv.subrange(0, p + 1);
            assert(post.drop_last() =~= pre);
            assert(post.last() == x@);
        }
        let ghost xv = x@;
        sorted.insert(j, x);
        assert(found_views(sorted@) =~= sv.insert(j as int, xv));
        p = p + 1;
    }
    proof {
        assert(fv.subrange(0, p as int) =~= fv);
    }
    sorted
}

/// The caption window after heading `k` ends on a character boundary.
pub open spec fn bing_cut_fits(b: Seq<u8>, sorted: Seq<FoundView>, k: int) -> bool {
    cut_fits(b, sorted[k].end, 3000)
}

/// Every caption window cut while reading headings, until `limit` hits are
/// kept, ends on a character boundary.
pub open spec fn bing_reads(body: Seq<char>, limit: nat) -> bool {
    let b = encode_utf8(body);
    let sorted = bing_sorted(b);
    let cands = Seq::new(sorted.len(), |k: int| bing_hit(b, sorted[k]));
    forall|k: int| 0 <= k < sorted.len() && reached(cands, k, limit) ==> #[trigger] bing_cut_fits(b, sorted, k)
}

fn scan_bing(body: &str, limit: usize) -> (r: (Vec<SearchHit>, bool))
    ensures
        views(r.0@) == spec_parse_bing_html(body@, limit as nat),
        r.1 == bing_reads(body@, limit as nat),
{
    let b = body.as_bytes();
    let found = bing_headings(b);
    let sorted = sort_headings(&found);
    let ghost sorted_v = found_views(sorted@);
    proof {
        assert(sorted_v == bing_sorted(b@));
        lemma_sort_within(found_views(found@), b@.len() as int);
    }
    let ghost cands = Seq::new(sorted_v.len(), |k: int| bing_hit(b@, sorted_v[k]));
    let mut hits: Vec<SearchHit> = Vec::new();
    let mut fits = true;
    let mut i: usize = 0;
    proof {
        assert(views(hits@) =~= somes(cands.subrange(0, 0)));
    }
    while i < sorted.len() && hits.len() < limit
        invariant
            b@ == encode_utf8(body@),
            sorted_v == found_views(sorted@),
            ends_within(sorted_v, b@.len() as int),
            cands == Seq::new(sorted_v.len(), |k: int| bing_hit(b@, sorted_v[k])),
            i <= sorted_v.len(),
            views(hits@) == somes(cands.subrange(0, i as int)),
            hits@.len() <= limit,
            fits == forall|k: int| 0 <= k < i && reached(cands, k, limit as nat) ==> #[trigger] bing_cut_fits(b@, sorted_v, k),
        decreases sorted.len() - i,
    {
        let e = &sorted[i];
        assert(sorted_v[i as int] == e@);
        let ok = cut_fits_exec(body, e.end, 3000);
        let ghost was = fits;
        fits = fits && ok;
        proof {
            assert(reached(cands, i as int, limit as nat));
            assert(ok == bing_cut_fits(b@, sorted_v, i as int));
            if was && ok {
                assert forall|k: int| 0 <= k < i + 1 && reached(cands, k, limit as nat) implies #[trigger] bing_cut_fits(b@, sorted_v, k) by {}
            }
            if !was {
                let k0 = choose|k: int| 0 <= k < i && reached(cands, k, limit as nat) && !#[trigger] bing_cut_fits(b@, sorted_v, k);
                assert(!bing_cut_fits(b@, sorted_v, k0));
            }
        }
        let w = window(b, e.end, 3000);
        let snippet = snippet_in(
            r#"(?is)<div[^>]+class=['"][^'"]*b_caption[^'"]*['"][^>]*>.*?<p[^>]*>(.*?)</p>"#,
            &w,
        );
        let h = SearchHit::new(e.title.as_str(), e.url.as_str(), snippet.as_str());
        proof {
            lemma_somes_step(cands, i as int);
        }
        push_candidate(&mut hits, h);
        i = i + 1;
    }
    proof {
        lemma_collected_until_limit(cands, i as int, limit as nat);
        if fits {
            assert forall|k: int| 0 <= k < sorted_v.len() && reached(cands, k, limit as nat) implies #[trigger] bing_cut_fits(b@, sorted_v, k) by {
                if k >= i {
                    lemma_somes_grow(cands, i as int, k);
                }
            }
        }
        assert(fits == bing_reads(body@, limit as nat));
    }
    (hits, fits)
}

/// Parses the Bing result page. Bing serves two organic layouts, both
/// supported and merged by document position: an anchor wrapping the
/// heading, or a heading wrapping the anchor. Abstracts live in
/// `<div class="b_caption"><p …>`.
pub fn parse_bing_html(body: &str, limit: usize) -> (r: Vec<SearchHit>)
    requires
        bing_reads(body@, limit as nat),
    ensures
        views(r@) == spec_parse_bing_html(body@, limit as nat),
{
    scan_bing(body, limit).0
}

/// `parse_bing_html` where the page can be read; none where a caption
/// window would cut a character in two (see `bing_reads`).
pub fn try_parse_bing_html(body: &str, limit: usize) -> (r: Option<Vec<SearchHit>>)
    ensures
        r is None <==> !bing_reads(body@, limit as nat),
        r matches Some(h) ==> views(h@) == spec_parse_bing_html(body@, limit as nat),
{
    if scan_bing(body, limit).1 {
        Some(parse_bing_html(body, limit))
    } else {
        None
    }
}

} // verus!
