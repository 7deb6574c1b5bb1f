use coomi::apis::{
    parse_searxng_json, parse_wikipedia_opensearch, parse_wikipedia_search, searxng_answer,
    wikipedia_opensearch_answer, wikipedia_search_answer,
};
use coomi::bridge::parse_json;
use coomi::json::Json;

#[test]
fn parse_searxng_json_extracts_results() {
    let body = r#"{"query":"rust","results":[{"content":"A language empowering everyone.","title":"Rust Lang","url":"https://www.rust-lang.org/"},{"content":"x","title":"Bad","url":"javascript:alert(1)"},{"content":"Read the book.","title":"Rust Book","url":"https://doc.rust-lang.org/book/"}]}"#;
    let hits = parse_searxng_json(body, 10).expect("parse searxng");
    assert_eq!(hits.len(), 2, "{hits:?}");
    assert_eq!(hits[0].title(), "Rust Lang");
    assert_eq!(hits[1].url(), "https://doc.rust-lang.org/book/");
}

#[test]
fn parse_wikipedia_search_extracts_results() {
    let body = r#"{"query":{"search":[{"title":"深度求索","snippet":"<span class=\"searchmatch\">深度求索</span>（DeepSeek）是一家中国人工智能公司。","pageid":1},{"title":"DeepSeek","snippet":"AI assistant","pageid":2}]}}"#;
    let hits = parse_wikipedia_search(body, "https://zh.wikipedia.org", 10);
    assert_eq!(hits.len(), 2, "{hits:?}");
    assert_eq!(hits[0].title(), "深度求索");
    assert_eq!(hits[0].url(), "https://zh.wikipedia.org/wiki/深度求索");
    assert!(hits[0].snippet().contains("人工智能公司"));
    assert!(!hits[0].snippet().contains('<'));
}

#[test]
fn parse_wikipedia_opensearch_extracts_results() {
    let body = r#"["rust",["Rust (programming language)","Rust (game)"],["A systems language","A survival game"],["https://en.wikipedia.org/wiki/Rust_(programming_language)","https://en.wikipedia.org/wiki/Rust_(game)"]]"#;
    let hits = parse_wikipedia_opensearch(body, 10);
    assert_eq!(hits.len(), 2);
    assert_eq!(hits[0].title(), "Rust (programming language)");
    assert_eq!(hits[0].snippet(), "A systems language");
}

#[test]
fn searxng_body_that_is_not_json_is_an_error() {
    let err = parse_searxng_json("<html>", 10).expect_err("not JSON");
    assert!(err.starts_with("invalid JSON: "), "{err}");
    assert_eq!(
        searxng_answer(Err("boom".to_string()), 10).expect_err("error kept"),
        "invalid JSON: boom"
    );
}

#[test]
fn searxng_limit_and_missing_results() {
    let body = r#"{"results":[{"title":"A","url":"https://a.com/","content":"1"},{"title":"B","url":"https://b.com/","content":"2"}]}"#;
    let hits = parse_searxng_json(body, 1).expect("parse");
    assert_eq!(hits.len(), 1);
    assert_eq!(hits[0].title(), "A");
    let none = parse_searxng_json(r#"{"query":"x"}"#, 5).expect("parse");
    assert!(none.is_empty());
}

#[test]
fn wikipedia_bodies_that_are_not_json_give_nothing() {
    assert!(parse_wikipedia_search("nope", "https://en.wikipedia.org", 10).is_empty());
    assert!(parse_wikipedia_opensearch("nope", 10).is_empty());
    assert!(wikipedia_search_answer(None, "https://en.wikipedia.org", 10).is_empty());
    assert!(wikipedia_opensearch_answer(None, 10).is_empty());
}

#[test]
fn wikipedia_title_spaces_become_underscores() {
    let parsed = Json::Object(vec![(
        "query".to_string(),
        Json::Object(vec![(
            "search".to_string(),
            Json::Array(vec![Json::Object(vec![
                ("title".to_string(), Json::Str("Rust language".to_string())),
                ("snippet".to_string(), Json::Str("a  <b>systems</b>   language".to_string())),
            ])]),
        )]),
    )]);
    let hits = wikipedia_search_answer(Some(parsed), "https://en.wikipedia.org", 10);
    assert_eq!(hits.len(), 1);
    assert_eq!(hits[0].url(), "https://en.wikipedia.org/wiki/Rust_language");
    assert_eq!(hits[0].snippet(), "a systems language");
}

#[test]
fn parse_json_reads_values() {
    let v = parse_json(r#"{"b":[1,true,null],"a":"x"}"#).expect("valid");
    assert_eq!(v.get("a").and_then(|x| x.as_str()), Some("x"));
    let arr = v.get("b").and_then(|x| x.as_array()).expect("array");
    assert!(matches!(&arr[0], Json::Number(n) if n == "1"));
    assert!(matches!(&arr[1], Json::Bool(true)));
    assert!(matches!(&arr[2], Json::Null));
    assert!(parse_json("{").is_err());
}
