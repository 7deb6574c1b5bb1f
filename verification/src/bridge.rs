//! Trusted items: the calls into std and outside crates that the verified
//! code builds on. Each contract states only what the called function's
//! documentation or source plainly gives.

use vstd::prelude::*;
use vstd::utf8::{decode_utf8, valid_utf8};
use base64::Engine;
use crate::json::{Json, JsonV};

verus! {

/// `str::chars` collected into a vector: the characters of `s`, in order.
#[verifier::external_body]
pub fn chars_of(s: &str) -> (r: Vec<char>)
    ensures
        r@ == s@,
{
    s.chars().collect()
}

/// `String: FromIterator<char>`: the string made of `v`'s characters, in order.
#[verifier::external_body]
pub fn string_of(v: &[char]) -> (r: String)
    ensures
        r@ == v@,
{
    v.iter().collect()
}

/// All matches of a regular expression in a byte haystack, each given by the
/// byte span of every capture group (group 0 is the whole match; a group that
/// did not take part is `None`).
pub uninterp spec fn regex_matches(pattern: Seq<char>, hay: Seq<u8>) -> Seq<
    Seq<Option<(usize, usize)>>,
>;

/// `regex::bytes::Regex::new(pattern)` followed by `captures_iter(hay)`, each
/// capture read out as the spans of its groups (`Captures::get`). An invalid
/// pattern gives no matches. The regex crate documents that group 0 always
/// takes part, that spans lie within the haystack and that the matches are
/// successive and non-overlapping.
#[verifier::external_body]
pub fn regex_captures(pattern: &str, hay: &[u8]) -> (r: Vec<Vec<Option<(usize, usize)>>>)
    ensures
        r@.len() == regex_matches(pattern@, hay@).len(),
        forall|i: int| 0 <= i < r@.len() ==> #[trigger] r@[i]@ == regex_matches(pattern@, hay@)[i],
        forall|i: int|
            0 <= i < r@.len() ==> #[trigger] r@[i]@.len() >= 1 && r@[i]@[0] is Some,
        forall|i: int, g: int|
            0 <= i < r@.len() && 0 <= g < r@[i]@.len() && #[trigger] r@[i]@[g] is Some ==> {
                let (a, b) = r@[i]@[g]->0;
                a <= b <= hay@.len()
            },
        forall|i: int|
            0 <= i < r@.len() - 1 ==> ((#[trigger] r@[i]@[0])->0).1 <= (r@[i + 1]@[0]->0).0,
{
    match regex::bytes::Regex::new(pattern) {
        Ok(re) => re.captures_iter(hay).map(
            |c| (0..c.len()).map(|g| c.get(g).map(|m| (m.start(), m.end()))).collect(),
        ).collect(),
        Err(_) => Vec::new(),
    }
}

/// What `String::from_utf8_lossy` makes of a byte sequence.
pub uninterp spec fn utf8_lossy(b: Seq<u8>) -> Seq<char>;

/// What `char::is_alphanumeric` says of `c` (the Unicode `Alphabetic` or
/// `Numeric` property).
pub uninterp spec fn unicode_alphanumeric(c: char) -> bool;

/// `char::is_alphanumeric`.
#[verifier::external_body]
pub fn is_alphanumeric(c: char) -> (r: bool)
    ensures
        r == unicode_alphanumeric(c),
{
    c.is_alphanumeric()
}

/// `String::from_utf8_lossy`: the text of `b`, invalid sequences replaced by
/// U+FFFD; for valid UTF-8 exactly the decoded text.
#[verifier::external_body]
pub fn decode_lossy(b: &[u8]) -> (r: String)
    ensures
        r@ == utf8_lossy(b@),
        valid_utf8(b@) ==> r@ == decode_utf8(b@),
{
    String::from_utf8_lossy(b).into_owned()
}

/// `String::from_utf8`: the decoded text when `b` is valid UTF-8, none otherwise.
#[verifier::external_body]
pub fn decode_utf8_strict(b: Vec<u8>) -> (r: Option<String>)
    ensures
        r is Some <==> valid_utf8(b@),
        r matches Some(s) ==> s@ == decode_utf8(b@),
{
    String::from_utf8(b).ok()
}

/// The parts of a parsed URL: its serialization, host, path, query and
/// fragment.
pub struct UrlParts {
    pub serialization: String,
    pub host: Option<String>,
    pub path: String,
    pub query: Option<String>,
    pub fragment: Option<String>,
}

/// `UrlParts` as plain text.
pub struct UrlPartsView {
    pub serialization: Seq<char>,
    pub host: Option<Seq<char>>,
    pub path: Seq<char>,
    pub query: Option<Seq<char>>,
    pub fragment: Option<Seq<char>>,
}

pub open spec fn opt_view(o: Option<String>) -> Option<Seq<char>> {
    match o {
        Some(s) => Some(s@),
        None => None,
    }
}

impl View for UrlParts {
    type V = UrlPartsView;

    open spec fn view(&self) -> UrlPartsView {
        UrlPartsView {
            serialization: self.serialization@,
            host: opt_view(self.host),
            path: self.path@,
            query: opt_view(self.query),
            fragment: opt_view(self.fragment),
        }
    }
}

/// What `url::Url::parse` makes of a text: none when it is not an absolute
/// URL, else the parts of the parsed URL.
pub uninterp spec fn url_parse(s: Seq<char>) -> Option<UrlPartsView>;

/// `url::Url::parse`, read out through `as_str`, `host_str`, `path`, `query`
/// and `fragment`. The url crate keeps the fragment last in the
/// serialization, right after a `#`.
#[verifier::external_body]
pub fn parse_url(s: &str) -> (r: Option<UrlParts>)
    ensures
        match r {
            Some(p) => url_parse(s@) == Some(p@),
            None => url_parse(s@) is None,
        },
        r matches Some(p) ==> (p@.fragment matches Some(f) ==> {
            let ser = p@.serialization;
            &&& ser.len() >= f.len() + 1
            &&& ser.subrange(ser.len() - f.len() - 1, ser.len() as int) == seq!['#'] + f
        }),
{
    url::Url::parse(s).ok().map(
        |u| UrlParts {
            serialization: u.as_str().to_string(),
            host: u.host_str().map(|h| h.to_string()),
            path: u.path().to_string(),
            query: u.query().map(|q| q.to_string()),
            fragment: u.fragment().map(|f| f.to_string()),
        },
    )
}

/// The name/value pairs that `form_urlencoded::parse` decodes from a query.
pub uninterp spec fn form_pairs(query: Seq<char>) -> Seq<(Seq<char>, Seq<char>)>;

/// `url::form_urlencoded::parse` (what `Url::query_pairs` runs on the query),
/// pairs owned.
#[verifier::external_body]
pub fn query_pairs(query: &str) -> (r: Vec<(String, String)>)
    ensures
        r@.len() == form_pairs(query@).len(),
        forall|i: int|
            0 <= i < r@.len() ==> (#[trigger] r@[i]).0@ == form_pairs(query@)[i].0 && r@[i].1@
                == form_pairs(query@)[i].1,
{
    url::form_urlencoded::parse(query.as_bytes()).into_owned().collect()
}

/// What the URL-safe, unpadded base64 engine decodes a text to, if it can.
pub uninterp spec fn base64_url_decode(s: Seq<u8>) -> Option<Seq<u8>>;

/// `base64::engine::general_purpose::URL_SAFE_NO_PAD.decode`.
#[verifier::external_body]
pub fn decode_base64_url(s: &[u8]) -> (r: Option<Vec<u8>>)
    ensures
        match r {
            Some(v) => base64_url_decode(s@) == Some(v@),
            None => base64_url_decode(s@) is None,
        },
{
    base64::engine::general_purpose::URL_SAFE_NO_PAD.decode(s).ok()
}

/// `serde_json::Value`, named only in the conversion inside `parse_json`.
#[verifier::external_type_specification]
#[verifier::external_body]
pub struct ExValue(serde_json::Value);

/// What `serde_json::from_str::<Value>` makes of a text: the value, or the
/// text of the parse error.
pub uninterp spec fn json_parse(text: Seq<char>) -> Result<JsonV, Seq<char>>;

/// `serde_json::from_str::<Value>`, the value taken over into `Json` and an
/// error taken as its message (`to_string`).
#[verifier::external_body]
pub fn parse_json(text: &str) -> (r: Result<Json, String>)
    ensures
        match r {
            Ok(v) => json_parse(text@) == Ok::<JsonV, Seq<char>>(v@),
            Err(e) => json_parse(text@) == Err::<JsonV, Seq<char>>(e@),
        },
{
    match serde_json::from_str::<serde_json::Value>(text) {
        Ok(v) => Ok(json_from_value(v)),
        Err(e) => Err(e.to_string()),
    }
}

/// Takes a `serde_json::Value` over into `Json`, variant by variant (numbers
/// by their text); only `parse_json` calls it.
#[verifier::external_body]
fn json_from_value(v: serde_json::Value) -> Json {
    match v {
        serde_json::Value::Null => Json::Null,
        serde_json::Value::Bool(b) => Json::Bool(b),
        serde_json::Value::Number(n) => Json::Number(n.to_string()),
        serde_json::Value::String(s) => Json::Str(s),
        serde_json::Value::Array(a) => Json::Array(a.into_iter().map(json_from_value).collect()),
        serde_json::Value::Object(m) => Json::Object(
            m.into_iter().map(|(k, x)| (k, json_from_value(x))).collect(),
        ),
    }
}

} // verus!
