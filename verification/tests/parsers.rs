use coomi::serp::{parse_bing_rss, parse_mojeek_html, try_parse_bing_html, try_parse_mojeek_html};
use coomi::urls::{finalize_hits, normalize_search_url};
use coomi::hit::SearchHit;

#[test]
fn parse_bing_rss_extracts_items() {
    let rss = r#"<?xml version="1.0"?><rss><channel><item><title><![CDATA[Example &amp; Result]]></title><link>https://example.com/a?q=1</link><description><![CDATA[<p>First snippet</p>]]></description></item><item><title><![CDATA[Second]]></title><link>https://example.com/b</link><description><![CDATA[Second snippet]]></description></item></channel></rss>"#;
    let hits = parse_bing_rss(rss, 10);
    assert_eq!(hits.len(), 2);
    assert_eq!(hits[0].title(), "Example & Result");
    assert_eq!(hits[0].url(), "https://example.com/a?q=1");
    assert_eq!(hits[0].snippet(), "First snippet");
    assert_eq!(hits[1].title(), "Second");
}

#[test]
fn parse_mojeek_html_extracts_results() {
    let html = r#"<ul class="results-standard"><li class="ob"><h2><a class="title" href="https://example.org/a">Alpha Result</a></h2><p class="s">Alpha snippet text</p></li>
    <li class="ob"><h2><a class="title" href="https://example.org/b">Beta Result</a></h2><p class="s">Beta snippet text</p></li></ul>"#;
    let hits = parse_mojeek_html(html, 10);
    assert_eq!(hits.len(), 2, "{hits:?}");
    assert_eq!(hits[0].title(), "Alpha Result");
    assert_eq!(hits[0].snippet(), "Alpha snippet text");
}

#[test]
fn finalize_hits_dedupes_canonical_urls_and_keeps_ranking() {
    let hits = vec![
        SearchHit::new("A", "https://Example.com/page#frag", "s1").expect("hit A"),
        SearchHit::new("A2", "https://example.com/page/", "s2").expect("hit A2"),
        SearchHit::new("B", "https://other.com/", "s3").expect("hit B"),
    ];
    let out = finalize_hits(hits, 10);
    assert_eq!(out.len(), 2, "{out:?}");
    assert_eq!(out[0].title(), "A");
    assert_eq!(out[1].title(), "B");
    let limited = finalize_hits(out, 1);
    assert_eq!(limited.len(), 1);
}

#[test]
fn normalize_url_decodes_ddg_redirects() {
    let url = normalize_search_url(
        "https://duckduckgo.com/l/?uddg=https%3A%2F%2Fexample.com%2Fx%3Fa%3D1&rut=abc",
    );
    assert_eq!(url, "https://example.com/x?a=1");
}

#[test]
fn normalize_url_decodes_bing_ck_redirects() {
    // u=a1<base64url("https://github.com/login")>
    let wrapped = "https://www.bing.com/ck/a?!&&p=abc&u=a1aHR0cHM6Ly9naXRodWIuY29tL2xvZ2lu&ntb=1";
    assert_eq!(normalize_search_url(wrapped), "https://github.com/login");
    // Non-Bing URLs pass through untouched.
    assert_eq!(
        normalize_search_url("https://example.com/ck/a?u=a1zzz"),
        "https://example.com/ck/a?u=a1zzz"
    );
    // Bing links whose payload is not a URL stay as-is.
    let undecodable = "https://www.bing.com/ck/a?u=%%%invalid%%%";
    assert_eq!(normalize_search_url(undecodable), undecodable);
}

#[test]
fn parse_bing_html_extracts_wrapped_h2_and_snippet() {
    let html = r#"<html><body><ol id="b_results">
    <li class="b_algo" data-id iid=SERP.5233><link rel="stylesheet" href="/rs/x.css" type="text/css"/>
    <a target="_blank" href="https://github.com/features/copilot" h="ID=SERP,1.1"><div class="b_tpcn"></div><div class="b_attribution" tabindex="-1"><cite>https://<strong>github.com</strong> › features › <strong>copilot</strong></cite></div></a>
    <div class="b_algoheader"><a href="https://github.com/features/copilot" h="ID=SERP,5110.2"><h2 class=""><strong>GitHub Copilot</strong> · Your AI pair programmer</h2></a></div>
    <div class="b_caption"><p class="b_lineclamp3">GitHub Copilot transforms the developer experience.</p></div></li>
    <li class="b_algo"><div class="tptxt"><div class="tpmeta"><div class="b_attribution" tabindex="-1"><cite>https://docs.github.com</cite></div></div></div>
    <h2 class=""><a target="_blank" href="https://docs.github.com/en/copilot/get-started/what-is-github-copilot" h="ID=SERP,5123.2">What is <strong>GitHub Copilot</strong>? - <strong>GitHub</strong> Docs</a></h2>
    <div class="b_caption"><p class="b_lineclamp2">GitHub Copilot is an AI coding assistant.</p></div></li>
    </ol></body></html>"#;
    let hits = coomi::serp::parse_bing_html(html, 10);
    assert_eq!(hits.len(), 2, "{hits:?}");
    assert_eq!(hits[0].url(), "https://github.com/features/copilot");
    assert_eq!(hits[0].title(), "GitHub Copilot · Your AI pair programmer");
    assert_eq!(hits[0].snippet(), "GitHub Copilot transforms the developer experience.");
    assert_eq!(hits[1].title(), "What is GitHub Copilot? - GitHub Docs");
}

#[test]
fn parse_baidu_html_extracts_results_and_skips_ads() {
    let html = r#"<div class="result c-container xpath-log new-pmd" id="1"><h3 class="t"><a href="http://www.baidu.com/link?url=abc123" target="_blank">Rust <em>官网</em></a></h3><div class="c-abstract">Rust 是一门系统编程语言，注重安全与并发。</div></div>
    <div class="result c-container" id="2"><h3 class="t"><a href="http://www.baidu.com/link?url=ad9" target="_blank">推广页</a></h3><div class="c-abstract"><span class="f13">广告</span>买课</div></div>
    <div class="result-op c-container" id="3"><h3 class="t c-title"><a href="https://doc.rust-lang.org/book/" target="_blank">The Rust Book</a></h3><div class="c-abstract c-span-last">The official book.</div></div>"#;
    let hits = coomi::serp::parse_baidu_html(html, 10);
    assert_eq!(hits.len(), 2, "{hits:?}");
    assert_eq!(hits[0].title(), "Rust 官网");
    assert_eq!(hits[0].url(), "http://www.baidu.com/link?url=abc123");
    assert!(hits[0].snippet().contains("系统编程语言"));
    assert_eq!(hits[1].title(), "The Rust Book");
    assert_eq!(hits[1].url(), "https://doc.rust-lang.org/book/");
    assert_eq!(hits[1].snippet(), "The official book.");
}

#[test]
fn parse_sogou_html_extracts_results() {
    let html = r#"<div class="results"><div class="rb" id="sogou_vr_1"><h3 class="vr-title"><a href="https://www.rust-lang.org/zh-CN/" id="sogou_vr_title_" target="_blank">Rust 中文官网</a></h3><div class="ft"><div class="str-text-info">Rust 语言中文官方网站。</div></div></div>
    <div class="vrwrap"><h3 class="vrTitle"><a href="/link?url=xyz" target="_blank">知乎讨论</a></h3><p class="fz-mid">Rust 值得学吗？</p></div></div>"#;
    let hits = coomi::serp::parse_sogou_html(html, 10);
    assert_eq!(hits.len(), 2, "{hits:?}");
    assert_eq!(hits[0].title(), "Rust 中文官网");
    assert_eq!(hits[0].url(), "https://www.rust-lang.org/zh-CN/");
    assert!(hits[0].snippet().contains("官方网站"));
    assert_eq!(hits[1].url(), "https://www.sogou.com/link?url=xyz");
}

#[test]
fn parse_duckduckgo_html_handles_classic_and_lite() {
    let classic = r##"<div class="result"><a class="result__a" href="https://duckduckgo.com/l/?uddg=https%3A%2F%2Fexample.com%2Fpage&rut=deadbeef">Example Page</a><a class="result__snippet" href="#">Snippet for example page</a></div>"##;
    let hits = coomi::serp::parse_duckduckgo_html(classic, 10);
    assert_eq!(hits.len(), 1, "{hits:?}");
    assert_eq!(hits[0].title(), "Example Page");
    assert_eq!(hits[0].url(), "https://example.com/page");
    assert_eq!(hits[0].snippet(), "Snippet for example page");

    let lite = r#"<table><tr><td><a rel="nofollow" href="https://real.site/x" class='result-link'>Real Site X</a></td></tr><tr><td class="result-snippet">Lite snippet here</td></tr></table>"#;
    let lite_hits = coomi::serp::parse_duckduckgo_html(lite, 10);
    assert_eq!(lite_hits.len(), 1, "{lite_hits:?}");
    assert_eq!(lite_hits[0].url(), "https://real.site/x");
    assert_eq!(lite_hits[0].title(), "Real Site X");
}

#[test]
fn parse_sogou_weixin_html_extracts_articles() {
    let html = r##"<ul class="news-list2"><li id="sogou_vr_11002601_box_0"><div class="img-box"></div><div class="txt-box">
    <h3><a href="/link?url=dn9a_-gY295K0Rci_xozVXfd&amp;k=1" id="weixin_account_0" uigs="account_name_0" target="_blank">福建师范大学永泰附属中学关于2026级校服选用<em>征询</em>结果的公告</a></h3>
    <p class="txt-info" id="sogou_vr_11002601_summary_0">关于2026级校服选用征询结果的公告福建师范大学永泰附属中学各位家长:根据教育部及地方教育主管部门关于校服管理的相关规定...</p>
    <div class="s-p"><a class="account" href="#">师大永泰附中</a></div></div></li>
    <li id="sogou_vr_11002601_box_1"><div class="txt-box"><h3><a href="/link?url=abc2&amp;k=1" target="_blank">美术学院赴福建师范大学附属中学看望实习学生</a></h3><p class="txt-info">2020级辅导员一行先后赴福建师范大学附属中学...</p></div></li></ul>"##;
    let hits = coomi::serp::parse_sogou_weixin_html(html, 10);
    assert_eq!(hits.len(), 2, "{hits:?}");
    assert!(hits[0].title().contains("校服选用"));
    assert!(!hits[0].title().contains("<em>"));
    assert!(hits[0].url().starts_with("https://weixin.sogou.com/link?url=dn9a_"));
    assert!(hits[0].snippet().contains("校服管理"));
    assert!(hits[1].title().contains("实习学生"));
}

#[test]
fn look_ahead_windows_must_end_on_a_character_boundary() {
    let heading = r#"<h2><a href="https://a.example/x">Alpha</a></h2>"#;
    // The window after the heading is 2500 bytes: 2499 ASCII bytes, then a
    // three-byte character that the cut would split.
    let split = format!("{heading}{}深<p class=\"s\">s</p>", "x".repeat(2499));
    assert!(try_parse_mojeek_html(&split, 10).is_none());
    // One more ASCII byte and the cut falls right before the character.
    let clean = format!("{heading}{}深<p class=\"s\">s</p>", "x".repeat(2500));
    let hits = try_parse_mojeek_html(&clean, 10).expect("readable");
    assert_eq!(hits.len(), 1);
    assert_eq!(hits[0].title(), "Alpha");
    // A page shorter than the window is never cut.
    assert!(try_parse_mojeek_html(&format!("{heading}深"), 10).is_some());
    // With no result to read, nothing is cut.
    assert_eq!(try_parse_mojeek_html(&split, 0).map(|h| h.len()), Some(0));
}

#[test]
fn bing_caption_window_is_checked_too() {
    // The heading match ends after `</a>`; its 3000-byte window begins with
    // the closing `</h2>`.
    let heading = r#"<h2><a href="https://b.example/">Beta</a></h2>"#;
    let split = format!("{heading}{}深", "y".repeat(2994));
    assert!(try_parse_bing_html(&split, 10).is_none());
    let clean = format!("{heading}{}深", "y".repeat(2995));
    assert_eq!(try_parse_bing_html(&clean, 10).map(|h| h.len()), Some(1));
}

#[test]
fn finalize_hits_with_limit_zero_keeps_nothing() {
    let hits = vec![
        SearchHit::new("A", "https://a.example/", "").expect("hit"),
        SearchHit::new("B", "https://b.example/", "").expect("hit"),
    ];
    assert!(finalize_hits(hits, 0).is_empty());
}
