//! HTML text helpers: entity decoding and tag stripping.

use vstd::prelude::*;
use crate::bridge::{chars_of, decode_lossy, string_of, utf8_lossy};
use crate::pattern::{replace_all, spec_replace_all};
use crate::text::{matches_at, spec_starts_with};

verus! {

/// The character and length of the HTML entity that `s` starts with, for the
/// entities that search result markup uses.
pub open spec fn entity_at_start(s: Seq<char>) -> Option<(char, nat)> {
    if spec_starts_with(s, "&amp;"@) {
        Some(('&', 5))
    } else if spec_starts_with(s, "&lt;"@) {
        Some(('<', 4))
    } else if spec_starts_with(s, "&gt;"@) {
        Some(('>', 4))
    } else if spec_starts_with(s, "&quot;"@) {
        Some(('"', 6))
    } else if spec_starts_with(s, "&apos;"@) {
        Some(('\'', 6))
    } else if spec_starts_with(s, "&#39;"@) {
        Some(('\'', 5))
    } else if spec_starts_with(s, "&#x27;"@) {
        Some(('\'', 6))
    } else if spec_starts_with(s, "&nbsp;"@) {
        Some((' ', 6))
    } else {
        None
    }
}

/// `s` with each entity replaced by its character, read from left to right.
pub open spec fn spec_decode_html(s: Seq<char>) -> Seq<char>
    decreases s.len(),
{
    if s.len() == 0 {
        Seq::empty()
    } else {
        match entity_at_start(s) {
            Some((c, n)) => if 1 <= n <= s.len() {
                seq![c] + spec_decode_html(s.skip(n as int))
            } else {
                seq![s[0]] + spec_decode_html(s.skip(1))
            },
            None => seq![s[0]] + spec_decode_html(s.skip(1)),
        }
    }
}

fn starts_at(s: &[char], i: usize, lit: &str) -> (r: bool)
    requires
        i <= s@.len(),
    ensures
        r == spec_starts_with(s@.skip(i as int), lit@),
{
    let l = chars_of(lit);
    let r = matches_at(s, &l, i);
    proof {
        if r {
            assert(s@.skip(i as int).subrange(0, l@.len() as int) =~= s@.subrange(
                i as int,
                i + l@.len(),
            ));
        } else if l@.len() <= s@.skip(i as int).len() {
            assert(s@.skip(i as int).subrange(0, l@.len() as int) =~= s@.subrange(
                i as int,
                i + l@.len(),
            ));
        }
    }
    r
}

fn entity_here(s: &[char], i: usize) -> (r: Option<(char, usize)>)
    requires
        i <= s@.len(),
    ensures
        match r {
            Some((c, n)) => entity_at_start(s@.skip(i as int)) == Some((c, n as nat)),
            None => entity_at_start(s@.skip(i as int)) is None,
        },
{
    if starts_at(s, i, "&amp;") {
        Some(('&', 5))
    } else if starts_at(s, i, "&lt;") {
        Some(('<', 4))
    } else if starts_at(s, i, "&gt;") {
        Some(('>', 4))
    } else if starts_at(s, i, "&quot;") {
        Some(('"', 6))
    } else if starts_at(s, i, "&apos;") {
        Some(('\'', 6))
    } else if starts_at(s, i, "&#39;") {
        Some(('\'', 5))
    } else if starts_at(s, i, "&#x27;") {
        Some(('\'', 6))
    } else if starts_at(s, i, "&nbsp;") {
        Some((' ', 6))
    } else {
        None
    }
}

/// Decodes the HTML entities of `s`.
pub fn decode_html(s: &[char]) -> (r: Vec<char>)
    ensures
        r@ == spec_decode_html(s@),
{
    let mut out: Vec<char> = Vec::new();
    let mut i: usize = 0;
    proof {
        assert(s@.skip(0) =~= s@);
    }
    while i < s.len()
        invariant
            i <= s@.len(),
            out@ + spec_decode_html(s@.skip(i as int)) == spec_decode_html(s@),
        decreases s.len() - i,
    {
        let ghost rest = s@.skip(i as int);
        let ghost before = out@;
        match entity_here(s, i) {
            Some((c, n)) if 1 <= n && n <= s.len() - i => {
                out.push(c);
                proof {
                    assert(rest.skip(n as int) =~= s@.skip(i + n));
                    assert(out@ + spec_decode_html(s@.skip(i + n)) =~= before + spec_decode_html(
                        rest,
                    ));
                }
                i = i + n;
            },
            _ => {
                out.push(s[i]);
                proof {
                    assert(rest[0] == s@[i as int]);
                    assert(rest.skip(1) =~= s@.skip(i + 1));
                    assert(out@ + spec_decode_html(s@.skip(i + 1)) =~= before + spec_decode_html(
                        rest,
                    ));
                }
                i = i + 1;
            },
        }
    }
    proof {
        assert(s@.skip(s@.len() as int) =~= Seq::<char>::empty());
        assert(out@ + Seq::<char>::empty() =~= out@);
    }
    out
}

/// The pattern of an HTML tag.
pub open spec fn tag_pattern() -> Seq<char> {
    "<[^>]+>"@
}

/// The text of a markup fragment: tags removed, bytes decoded, entities
/// decoded (`decode_html(&tag_re.replace_all(fragment, ""))`).
pub open spec fn spec_clean_text(b: Seq<u8>) -> Seq<char> {
    spec_decode_html(utf8_lossy(spec_replace_all(tag_pattern(), b, Seq::empty())))
}

/// Removes the tags of a markup fragment and decodes its entities.
pub fn clean_text(b: &[u8]) -> (r: Vec<char>)
    ensures
        r@ == spec_clean_text(b@),
{
    let empty: Vec<u8> = Vec::new();
    let stripped = replace_all("<[^>]+>", b, &empty);
    let text = decode_lossy(&stripped);
    decode_html(&chars_of(text.as_str()))
}

/// `clean_text` as a string.
pub fn clean_string(b: &[u8]) -> (r: String)
    ensures
        r@ == spec_clean_text(b@),
{
    string_of(&clean_text(b))
}

proof fn lemma_no_entity_without_amp(s: Seq<char>)
    requires
        s.len() > 0,
        s[0] != '&',
    ensures
        entity_at_start(s) is None,
{
    reveal_strlit("&amp;");
    reveal_strlit("&lt;");
    reveal_strlit("&gt;");
    reveal_strlit("&quot;");
    reveal_strlit("&apos;");
    reveal_strlit("&#39;");
    reveal_strlit("&#x27;");
    reveal_strlit("&nbsp;");
    assert(!spec_starts_with(s, "&amp;"@)) by { if spec_starts_with(s, "&amp;"@) { assert(s.subrange(0, 5)[0] == s[0]); } }
    assert(!spec_starts_with(s, "&lt;"@)) by { if spec_starts_with(s, "&lt;"@) { assert(s.subrange(0, 4)[0] == s[0]); } }
    assert(!spec_starts_with(s, "&gt;"@)) by { if spec_starts_with(s, "&gt;"@) { assert(s.subrange(0, 4)[0] == s[0]); } }
    assert(!spec_starts_with(s, "&quot;"@)) by { if spec_starts_with(s, "&quot;"@) { assert(s.subrange(0, 6)[0] == s[0]); } }
    assert(!spec_starts_with(s, "&apos;"@)) by { if spec_starts_with(s, "&apos;"@) { assert(s.subrange(0, 6)[0] == s[0]); } }
    assert(!spec_starts_with(s, "&#39;"@)) by { if spec_starts_with(s, "&#39;"@) { assert(s.subrange(0, 5)[0] == s[0]); } }
    assert(!spec_starts_with(s, "&#x27;"@)) by { if spec_starts_with(s, "&#x27;"@) { assert(s.subrange(0, 6)[0] == s[0]); } }
    assert(!spec_starts_with(s, "&nbsp;"@)) by { if spec_starts_with(s, "&nbsp;"@) { assert(s.subrange(0, 6)[0] == s[0]); } }
}

/// Text without an `&` has no entity: decoding leaves it as it is.
pub proof fn lemma_decode_plain_text(s: Seq<char>)
    requires
        forall|i: int| 0 <= i < s.len() ==> s[i] != '&',
    ensures
        spec_decode_html(s) == s,
    decreases s.len(),
{
    if s.len() > 0 {
        lemma_no_entity_without_amp(s);
        lemma_decode_plain_text(s.skip(1));
        assert(seq![s[0]] + s.skip(1) =~= s);
    }
}

/// `&amp;` decodes to `&`, and decoding goes on right after it.
pub proof fn lemma_decode_amp(s: Seq<char>)
    ensures
        spec_decode_html("&amp;"@ + s) == seq!['&'] + spec_decode_html(s),
{
    reveal_strlit("&amp;");
    let t = "&amp;"@ + s;
    assert(t.subrange(0, 5) =~= "&amp;"@);
    assert(entity_at_start(t) == Some(('&', 5nat)));
    assert(t.skip(5) =~= s);
}

} // verus!
