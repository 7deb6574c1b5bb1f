use coomi::engine::{engine_chain_from, has_cjk, Engine};
use coomi::hit::SearchHit;
use coomi::relevance::results_are_relevant;
use coomi::render::render_hits;

#[test]
fn search_hit_rejects_junk() {
    assert!(SearchHit::new("", "https://a.com/", "s").is_none());
    assert!(SearchHit::new("T", "ftp://a.com/", "s").is_none());
    assert!(SearchHit::new("T", "https://a.com/", "s").is_some());
}

#[test]
fn render_hits_numbers_results() {
    let hits = vec![
        SearchHit::new("One", "https://a.com/", "first").expect("hit one"),
        SearchHit::new("Two", "https://b.com/", "").expect("hit two"),
    ];
    let rendered = render_hits(&hits, "bing_rss");
    assert!(rendered.contains("1. One\n   https://a.com/\n   first"));
    assert!(rendered.contains("2. Two\n   https://b.com/"));
    assert!(rendered.ends_with("(source: bing_rss)"));
}

#[test]
fn engine_chain_defaults_and_override() {
    // CJK default: Chinese-capable engines right after Bing RSS.
    let chain = engine_chain_from(None, None, true);
    assert_eq!(chain.first(), Some(&Engine::BingRss));
    assert_eq!(chain.get(1), Some(&Engine::Sogou));
    assert!(chain.contains(&Engine::SogouWeixin));
    assert!(!chain.contains(&Engine::Searxng));

    // Non-CJK default: western engines lead the Chinese ones.
    let en = engine_chain_from(None, None, false);
    assert_eq!(en.first(), Some(&Engine::BingRss));
    assert_eq!(en.get(1), Some(&Engine::BingHtml));
    let pos_ddg = en.iter().position(|e| *e == Engine::DuckDuckGo);
    let pos_sogou = en.iter().position(|e| *e == Engine::Sogou);
    assert!(pos_ddg < pos_sogou);

    assert_eq!(
        engine_chain_from(Some("baidu,bing_rss"), None, true),
        vec![Engine::Baidu, Engine::BingRss]
    );
    assert_eq!(
        engine_chain_from(Some("weixin"), None, false),
        vec![Engine::SogouWeixin]
    );
    // Unknown names are dropped; if nothing parses, fall back to default.
    assert_eq!(
        engine_chain_from(Some("bogus,,nope"), None, false).first(),
        Some(&Engine::BingRss)
    );
    assert_eq!(
        engine_chain_from(None, Some("https://searx.example.com"), false).first(),
        Some(&Engine::Searxng)
    );
    assert_eq!(
        engine_chain_from(None, Some(""), false).first(),
        Some(&Engine::BingRss)
    );
}

#[test]
fn relevance_gate_accepts_matching_and_rejects_generic_results() {
    let good = vec![SearchHit::new(
        "DeepSeek 深度求索官网",
        "https://www.deepseek.com/",
        "深度求索人工智能基础技术研究有限公司",
    )
    .expect("good hit")];
    assert!(results_are_relevant("深度求索 DeepSeek 官网", &good));
    assert!(results_are_relevant("deepseek 官网", &good));

    let junk = vec![SearchHit::new(
        "Anmelden bei Hotmail | Microsoft Support",
        "https://support.microsoft.com/de-de/accounts-billing/manage",
        "Microsoft hält immer ein Auge auf ungewöhnliche Anmeldeaktivitäten",
    )
    .expect("junk hit")];
    assert!(!results_are_relevant("深度求索 DeepSeek 官网", &junk));

    // English query, partial-token match is enough ("github" in title/url).
    let gh = vec![SearchHit::new("GitHub login", "https://github.com/login", "sign in").expect("gh hit")];
    assert!(results_are_relevant("github", &gh));
    assert!(!results_are_relevant("nonexistent-thing-xyz", &gh));

    // Queries without any usable token pass unconditionally.
    assert!(results_are_relevant("??? ,,,", &junk));
}

#[test]
fn has_cjk_detects_chinese() {
    assert!(has_cjk("深度求索"));
    assert!(!has_cjk("github copilot"));
}

#[test]
fn single_cjk_characters_are_no_signal() {
    // A lone ideograph yields no bigram, so the query has no signal token
    // and any hits pass.
    let hits = vec![SearchHit::new("Unrelated", "https://x.example/", "nothing").expect("hit")];
    assert!(results_are_relevant("深 a", &hits));
    // Two ideographs form a bigram that must then appear somewhere.
    assert!(!results_are_relevant("深度", &hits));
}
