//! One ranked search hit, normalized across engines.

use vstd::prelude::*;
use crate::bridge::chars_of;
use crate::bridge::string_of;
use crate::text::{collapse_whitespace, take_chars, trim, starts_with, spec_take, spec_collapse_whitespace, spec_trim, spec_starts_with};

verus! {

/// The most characters a hit's title keeps.
pub const TITLE_MAX_CHARS: usize = 200;

/// The most characters a hit's snippet keeps.
pub const SNIPPET_MAX_CHARS: usize = 300;

/// `u` is an absolute `http://` or `https://` address.
pub open spec fn is_http_url(u: Seq<char>) -> bool {
    spec_starts_with(u, "http://"@) || spec_starts_with(u, "https://"@)
}

/// What a hit holds: title, address and snippet text.
pub struct SearchHitView {
    pub title: Seq<char>,
    pub url: Seq<char>,
    pub snippet: Seq<char>,
}

/// One ranked search hit. Every hit has a non-empty title of at most
/// 200 characters, an `http(s)://` address and a snippet of at most
/// 300 characters.
#[derive(Debug)]
pub struct SearchHit {
    title: String,
    url: String,
    snippet: String,
}

/// The hit that `SearchHit::new` builds from raw title, address and snippet:
/// whitespace collapsed, title cut to 200 and snippet to 300 characters,
/// address trimmed; none when the title is empty or the address is not
/// `http(s)://`.
pub open spec fn spec_new_hit(title: Seq<char>, url: Seq<char>, snippet: Seq<char>) -> Option<
    SearchHitView,
> {
    let t = spec_take(spec_collapse_whitespace(title), TITLE_MAX_CHARS as nat);
    let u = spec_trim(url);
    let s = spec_take(spec_collapse_whitespace(snippet), SNIPPET_MAX_CHARS as nat);
    if t.len() == 0 || !is_http_url(u) {
        None
    } else {
        Some(SearchHitView { title: t, url: u, snippet: s })
    }
}

impl View for SearchHit {
    type V = SearchHitView;

    closed spec fn view(&self) -> SearchHitView {
        SearchHitView { title: self.title@, url: self.url@, snippet: self.snippet@ }
    }
}

impl Clone for SearchHit {
    fn clone(&self) -> (r: Self)
        ensures
            r@ == self@,
    {
        proof {
            use_type_invariant(self);
        }
        SearchHit { title: self.title.clone(), url: self.url.clone(), snippet: self.snippet.clone() }
    }
}

impl SearchHit {
    #[verifier::type_invariant]
    closed spec fn wf(&self) -> bool {
        &&& 0 < self.title@.len() <= TITLE_MAX_CHARS
        &&& is_http_url(self.url@)
        &&& self.snippet@.len() <= SNIPPET_MAX_CHARS
    }

    /// Builds a hit from raw text: collapses whitespace in title and snippet,
    /// trims the address, cuts the title to 200 and the snippet to 300
    /// characters, and refuses an empty title or a non-`http(s)://` address.
    pub fn new(title: &str, url: &str, snippet: &str) -> (r: Option<SearchHit>)
        ensures
            r matches Some(h) ==> spec_new_hit(title@, url@, snippet@) == Some(h@),
            r is None ==> spec_new_hit(title@, url@, snippet@) is None,
    {
        let tc = chars_of(title);
        let uc = chars_of(url);
        let sc = chars_of(snippet);
        Self::from_chars(&tc, &uc, &sc)
    }

    /// `SearchHit::new` on character vectors.
    pub fn from_chars(title: &[char], url: &[char], snippet: &[char]) -> (r: Option<SearchHit>)
        ensures
            r matches Some(h) ==> spec_new_hit(title@, url@, snippet@) == Some(h@),
            r is None ==> spec_new_hit(title@, url@, snippet@) is None,
    {
        let t = take_chars(&collapse_whitespace(title), TITLE_MAX_CHARS);
        let u = trim(url);
        let s = take_chars(&collapse_whitespace(snippet), SNIPPET_MAX_CHARS);
        let http = chars_of("http://");
        let https = chars_of("https://");
        if t.len() == 0 || !(starts_with(&u, &http) || starts_with(&u, &https)) {
            return None;
        }
        let hit = SearchHit { title: string_of(&t), url: string_of(&u), snippet: string_of(&s) };
        Some(hit)
    }

    /// The same hit pointing at another `http(s)://` address.
    pub fn with_url(self, url: String) -> (r: SearchHit)
        requires
            is_http_url(url@),
        ensures
            r@ == (SearchHitView { url: url@, ..self@ }),
    {
        proof {
            use_type_invariant(&self);
        }
        SearchHit { title: self.title, url, snippet: self.snippet }
    }

    pub fn title(&self) -> (r: &str)
        ensures
            r@ == self@.title,
            0 < r@.len() <= TITLE_MAX_CHARS,
    {
        proof {
            use_type_invariant(self);
        }
        self.title.as_str()
    }

    pub fn url(&self) -> (r: &str)
        ensures
            r@ == self@.url,
            is_http_url(r@),
    {
        proof {
            use_type_invariant(self);
        }
        self.url.as_str()
    }

    pub fn snippet(&self) -> (r: &str)
        ensures
            r@ == self@.snippet,
            r@.len() <= SNIPPET_MAX_CHARS,
    {
        proof {
            use_type_invariant(self);
        }
        self.snippet.as_str()
    }
}

} // verus!
