//! Result addresses: unwrapping engine redirect links, and the canonical
//! key by which duplicate hits are recognised.

use vstd::prelude::*;
use vstd::utf8::{decode_utf8, encode_utf8, is_char_boundary, valid_utf8};
use crate::bridge::{
    base64_url_decode, chars_of, decode_base64_url, decode_utf8_strict, form_pairs, parse_url,
    query_pairs, string_of, url_parse, UrlPartsView,
};
use crate::hit::{is_http_url, SearchHit, SearchHitView};
use crate::html::{decode_html, spec_decode_html};
use crate::pattern::slice_bytes;
use crate::text::{
    ascii_lowercase, is_str, push_all, push_str, spec_ascii_lowercase, spec_starts_with, spec_trim,
    starts_with, trim,
};

verus! {

/// `s` ends with `p`.
pub open spec fn spec_ends_with(s: Seq<char>, p: Seq<char>) -> bool {
    p.len() <= s.len() && s.subrange(s.len() - p.len(), s.len() as int) == p
}

pub fn ends_with(s: &[char], p: &[char]) -> (r: bool)
    ensures
        r == spec_ends_with(s@, p@),
{
    if p.len() > s.len() {
        return false;
    }
    let off = s.len() - p.len();
    let n = s.len();
    let mut i: usize = 0;
    while i < p.len()
        invariant
            n == s@.len(),
            off + p@.len() == s@.len(),
            i <= p@.len(),
            forall|k: int| 0 <= k < i ==> s@[off + k] == p@[k],
        decreases p.len() - i,
    {
        if s[off + i] != p[i] {
            assert(s@.subrange(off as int, s@.len() as int)[i as int] != p@[i as int]);
            return false;
        }
        i = i + 1;
    }
    assert(s@.subrange(off as int, s@.len() as int) =~= p@);
    true
}

fn ends_with_str(s: &[char], lit: &str) -> (r: bool)
    ensures
        r == spec_ends_with(s@, lit@),
{
    ends_with(s, &chars_of(lit))
}

fn starts_with_str(s: &[char], lit: &str) -> (r: bool)
    ensures
        r == spec_starts_with(s@, lit@),
{
    starts_with(s, &chars_of(lit))
}

/// Scheme-relative addresses get `https:`; site-relative ones are
/// DuckDuckGo redirect paths and get its origin.
pub open spec fn spec_absolutize(d: Seq<char>) -> Seq<char> {
    if spec_starts_with(d, "//"@) {
        "https:"@ + d
    } else if spec_starts_with(d, "/"@) {
        "https://duckduckgo.com"@ + d
    } else {
        d
    }
}

/// The value of the first query pair named `key`.
pub open spec fn first_pair_value(pairs: Seq<(Seq<char>, Seq<char>)>, key: Seq<char>) -> Option<
    Seq<char>,
>
    decreases pairs.len(),
{
    if pairs.len() == 0 {
        None
    } else if pairs[0].0 == key {
        Some(pairs[0].1)
    } else {
        first_pair_value(pairs.drop_first(), key)
    }
}

/// A decoded Bing payload: the text that a base64url candidate decodes to,
/// when it is UTF-8 and an `http(s)://` address.
pub open spec fn ck_candidate(c: Seq<u8>) -> Option<Seq<char>> {
    match base64_url_decode(c) {
        Some(bytes) => if valid_utf8(bytes) && is_http_url(decode_utf8(bytes)) {
            Some(decode_utf8(bytes))
        } else {
            None
        },
        None => None,
    }
}

/// The target hidden in Bing's `u=` value: base64url behind a two-byte marker,
/// tried first without the marker, then as a whole.
pub open spec fn spec_decode_bing_ck_target(v: Seq<char>) -> Option<Seq<char>> {
    let b = encode_utf8(v);
    let stripped = if b.len() > 2 && is_char_boundary(b, 2) {
        ck_candidate(b.skip(2))
    } else {
        None
    };
    match stripped {
        Some(t) => Some(t),
        None => ck_candidate(b),
    }
}

fn ck_candidate_exec(c: &[u8]) -> (r: Option<String>)
    ensures
        match r {
            Some(t) => ck_candidate(c@) == Some(t@),
            None => ck_candidate(c@) is None,
        },
{
    match decode_base64_url(c) {
        Some(bytes) => match decode_utf8_strict(bytes) {
            Some(text) => {
                let tc = chars_of(text.as_str());
                if starts_with_str(&tc, "http://") || starts_with_str(&tc, "https://") {
                    Some(text)
                } else {
                    None
                }
            },
            None => None,
        },
        None => None,
    }
}

/// Decodes Bing's `ck/a?…&u=a1<base64url(target)>` payload back to the
/// target address.
pub fn decode_bing_ck_target(value: &str) -> (r: Option<String>)
    ensures
        match r {
            Some(t) => spec_decode_bing_ck_target(value@) == Some(t@),
            None => spec_decode_bing_ck_target(value@) is None,
        },
{
    let b = value.as_bytes();
    proof {
        assert(b@ == encode_utf8(value@));
    }
    if b.len() > 2 && value.is_char_boundary(2) {
        let stripped = slice_bytes(b, 2, b.len());
        proof {
            assert(stripped@ =~= b@.skip(2));
        }
        if let Some(t) = ck_candidate_exec(&stripped) {
            return Some(t);
        }
    }
    ck_candidate_exec(b)
}

/// Where a result address really points: HTML entities decoded, made
/// absolute, and DuckDuckGo (`uddg=`) or Bing (`ck/a?u=`) redirect wrappers
/// unwrapped; anything that does not parse as a URL or carries no usable
/// target is kept as made absolute.
pub open spec fn spec_normalize_search_url(v: Seq<char>) -> Seq<char> {
    let abs = spec_absolutize(spec_decode_html(spec_trim(v)));
    match url_parse(abs) {
        None => abs,
        Some(p) => {
            let host = match p.host {
                Some(h) => h,
                None => Seq::empty(),
            };
            let pairs = form_pairs(
                match p.query {
                    Some(q) => q,
                    None => Seq::empty(),
                },
            );
            if spec_ends_with(host, "duckduckgo.com"@) {
                match first_pair_value(pairs, "uddg"@) {
                    Some(t) => t,
                    None => abs,
                }
            } else if spec_ends_with(host, "bing.com"@) && spec_starts_with(p.path, "/ck/"@) {
                match first_pair_value(pairs, "u"@) {
                    Some(u) => match spec_decode_bing_ck_target(u) {
                        Some(t) => t,
                        None => abs,
                    },
                    None => abs,
                }
            } else {
                abs
            }
        },
    }
}

fn first_value(pairs: &Vec<(String, String)>, key: &str) -> (r: Option<String>)
    ensures
        r matches Some(v) ==> first_pair_value(
            pairs@.map_values(|p: (String, String)| (p.0@, p.1@)),
            key@,
        ) == Some(v@),
        r is None ==> first_pair_value(
            pairs@.map_values(|p: (String, String)| (p.0@, p.1@)),
            key@,
        ) is None,
{
    let ghost pv = pairs@.map_values(|p: (String, String)| (p.0@, p.1@));
    let k = chars_of(key);
    let mut i: usize = 0;
    proof {
        assert(pv.skip(0) =~= pv);
    }
    while i < pairs.len()
        invariant
            i <= pairs@.len(),
            pv == pairs@.map_values(|p: (String, String)| (p.0@, p.1@)),
            k@ == key@,
            first_pair_value(pv, key@) == first_pair_value(pv.skip(i as int), key@),
        decreases pairs.len() - i,
    {
        let name = chars_of(pairs[i].0.as_str());
        proof {
            assert(pv.skip(i as int)[0] == pv[i as int]);
            assert(pv.skip(i as int).drop_first() =~= pv.skip(i + 1));
        }
        if crate::text::same_chars(&name, &k) {
            return Some(pairs[i].1.clone());
        }
        i = i + 1;
    }
    None
}

/// Decodes engine redirect wrappers (DuckDuckGo `uddg=`, Bing
/// `ck/a?u=a1<base64>`) into real target addresses, and makes scheme- or
/// site-relative addresses absolute.
pub fn normalize_search_url(value: &str) -> (r: String)
    ensures
        r@ == spec_normalize_search_url(value@),
{
    let decoded = decode_html(&trim(&chars_of(value)));
    let mut abs_chars: Vec<char> = Vec::new();
    if starts_with_str(&decoded, "//") {
        push_str(&mut abs_chars, "https:");
        push_all(&mut abs_chars, &decoded);
    } else if starts_with_str(&decoded, "/") {
        push_str(&mut abs_chars, "https://duckduckgo.com");
        push_all(&mut abs_chars, &decoded);
    } else {
        push_all(&mut abs_chars, &decoded);
    }
    proof {
        assert(abs_chars@ =~= spec_absolutize(decoded@));
    }
    let absolute = string_of(&abs_chars);
    let parts = match parse_url(absolute.as_str()) {
        Some(p) => p,
        None => {
            return absolute;
        },
    };
    let host: Vec<char> = match &parts.host {
        Some(h) => chars_of(h.as_str()),
        None => Vec::new(),
    };
    let pairs = match &parts.query {
        Some(q) => query_pairs(q.as_str()),
        None => query_pairs(""),
    };
    let ghost pv = pairs@.map_values(|p: (String, String)| (p.0@, p.1@));
    proof {
        let q = match parts@.query {
            Some(q) => q,
            None => Seq::empty(),
        };
        if parts@.query is None {
            reveal_strlit("");
            assert(""@ =~= Seq::<char>::empty());
        }
        assert(pv =~= form_pairs(q));
        assert(host@ == match parts@.host {
            Some(h) => h,
            None => Seq::<char>::empty(),
        });
    }
    if ends_with_str(&host, "duckduckgo.com") {
        return match first_value(&pairs, "uddg") {
            Some(t) => t,
            None => absolute,
        };
    }
    let path = chars_of(parts.path.as_str());
    if ends_with_str(&host, "bing.com") && starts_with_str(&path, "/ck/") {
        return match first_value(&pairs, "u") {
            Some(u) => match decode_bing_ck_target(u.as_str()) {
                Some(t) => t,
                None => absolute,
            },
            None => absolute,
        };
    }
    absolute
}

/// The serialization of a parsed URL with its fragment (and the `#`) cut
/// off, which is what `Url::set_fragment(None)` leaves.
pub open spec fn without_fragment(p: UrlPartsView) -> Seq<char> {
    match p.fragment {
        Some(f) => p.serialization.subrange(0, p.serialization.len() - f.len() - 1),
        None => p.serialization,
    }
}

/// `s` without trailing slashes (`trim_end_matches('/')`).
pub open spec fn trim_end_slashes(s: Seq<char>) -> Seq<char>
    decreases s.len(),
{
    if s.len() > 0 && s.last() == '/' {
        trim_end_slashes(s.drop_last())
    } else {
        s
    }
}

/// The canonical form of an address that duplicates are recognised by:
/// parsed and normalised by the url crate, fragment dropped, trailing
/// slashes dropped, ASCII lower-cased; an address that does not parse is
/// taken as written (trimmed).
pub open spec fn spec_dedupe_key(u: Seq<char>) -> Seq<char> {
    let t = spec_trim(u);
    let base = match url_parse(t) {
        Some(p) => without_fragment(p),
        None => t,
    };
    spec_ascii_lowercase(trim_end_slashes(base))
}

/// The hits whose key no earlier hit has, in their original order.
pub open spec fn first_occurrences(hs: Seq<SearchHitView>) -> Seq<SearchHitView>
    decreases hs.len(),
{
    if hs.len() == 0 {
        Seq::empty()
    } else {
        let prev = first_occurrences(hs.drop_last());
        if exists|j: int|
            0 <= j < hs.len() - 1 && spec_dedupe_key(#[trigger] hs[j].url) == spec_dedupe_key(
                hs.last().url,
            ) {
            prev
        } else {
            prev.push(hs.last())
        }
    }
}

/// Hits deduplicated by canonical address, engine ranking kept, then cut
/// to `limit`.
pub open spec fn spec_finalize_hits(hs: Seq<SearchHitView>, limit: nat) -> Seq<SearchHitView> {
    let firsts = first_occurrences(hs);
    if firsts.len() <= limit {
        firsts
    } else {
        firsts.subrange(0, limit as int)
    }
}

/// The first occurrences among a prefix are a prefix of the first
/// occurrences among the whole.
pub proof fn lemma_first_occurrences_prefix(hs: Seq<SearchHitView>, i: int)
    requires
        0 <= i <= hs.len(),
    ensures
        first_occurrences(hs.subrange(0, i)).len() <= first_occurrences(hs).len(),
        first_occurrences(hs).subrange(0, first_occurrences(hs.subrange(0, i)).len() as int)
            == first_occurrences(hs.subrange(0, i)),
    decreases hs.len() - i,
{
    if i == hs.len() {
        assert(hs.subrange(0, i) =~= hs);
        assert(first_occurrences(hs).subrange(0, first_occurrences(hs).len() as int) =~= first_occurrences(hs));
    } else {
        lemma_first_occurrences_prefix(hs, i + 1);
        let p = hs.subrange(0, i + 1);
        assert(p.drop_last() =~= hs.subrange(0, i));
        let a = first_occurrences(hs.subrange(0, i));
        let b = first_occurrences(p);
        assert(b.subrange(0, a.len() as int) =~= a);
        let w = first_occurrences(hs);
        assert(w.subrange(0, a.len() as int) =~= w.subrange(0, b.len() as int).subrange(0, a.len() as int));
    }
}

/// The canonical key of an address (see `spec_dedupe_key`).
pub fn dedupe_key(url: &str) -> (r: Vec<char>)
    ensures
        r@ == spec_dedupe_key(url@),
{
    let t = trim(&chars_of(url));
    let ts = string_of(&t);
    let mut base: Vec<char> = match parse_url(ts.as_str()) {
        Some(parts) => {
            let ser = chars_of(parts.serialization.as_str());
            match &parts.fragment {
                Some(f) => {
                    let flen = chars_of(f.as_str()).len();
                    crate::text::take_chars(&ser, ser.len() - flen - 1)
                },
                None => ser,
            }
        },
        None => t,
    };
    let ghost b0 = base@;
    while base.len() > 0 && base[base.len() - 1] == '/'
        invariant
            trim_end_slashes(base@) == trim_end_slashes(b0),
        decreases base.len(),
    {
        let ghost before = base@;
        base.pop();
        proof {
            assert(base@ =~= before.drop_last());
        }
    }
    ascii_lowercase(&base)
}

spec fn key_seen(seen: Seq<Vec<char>>, x: Seq<char>) -> bool {
    exists|k: int| 0 <= k < seen.len() && #[trigger] seen[k]@ == x
}

spec fn key_in_prefix(hv: Seq<SearchHitView>, i: int, x: Seq<char>) -> bool {
    exists|j: int| 0 <= j < i && spec_dedupe_key(#[trigger] hv[j].url) == x
}

/// Dedupes by canonical address (see `spec_dedupe_key`), preserving engine
/// ranking, and stops once `limit` hits are kept. The url crate already
/// lower-cases the host of an `http(s)` address, and the key is lower-cased
/// as a whole, so the key needs no separate host rewrite.
pub fn finalize_hits(hits: Vec<SearchHit>, limit: usize) -> (r: Vec<SearchHit>)
    ensures
        r@.map_values(|h: SearchHit| h@) == spec_finalize_hits(
            hits@.map_values(|h: SearchHit| h@),
            limit as nat,
        ),
{
    if limit == 0 {
        let out: Vec<SearchHit> = Vec::new();
        proof {
            assert(out@.map_values(|h: SearchHit| h@) =~= Seq::<SearchHitView>::empty());
            assert(spec_finalize_hits(hits@.map_values(|h: SearchHit| h@), 0) =~= Seq::<SearchHitView>::empty());
        }
        return out;
    }
    let ghost hv = hits@.map_values(|h: SearchHit| h@);
    let ghost nlim: int = limit as int;
    let mut seen: Vec<Vec<char>> = Vec::new();
    let mut out: Vec<SearchHit> = Vec::new();
    let mut i: usize = 0;
    let mut done = false;
    proof {
        assert(hv.subrange(0, 0) =~= Seq::<SearchHitView>::empty());
        assert(out@.map_values(|h: SearchHit| h@) =~= Seq::<SearchHitView>::empty());
    }
    while i < hits.len() && !done
        invariant
            i <= hits@.len(),
            hv == hits@.map_values(|h: SearchHit| h@),
            nlim == limit as int,
            limit > 0,
            out@.map_values(|h: SearchHit| h@) == first_occurrences(hv.subrange(0, i as int)),
            out@.len() <= i,
            seen@.len() == out@.len(),
            forall|x: Seq<char>|
                #![trigger key_seen(seen@, x)]
                #![trigger key_in_prefix(hv, i as int, x)]
                key_seen(seen@, x) == key_in_prefix(hv, i as int, x),
            !done ==> (i == 0 || out@.len() < nlim),
            done ==> out@.len() == nlim,
        decreases hits.len() - i,
    {
        let hit = &hits[i];
        let key = dedupe_key(hit.url());
        let mut found = false;
        let mut k: usize = 0;
        while k < seen.len()
            invariant
                k <= seen@.len(),
                !found ==> forall|m: int| 0 <= m < k ==> seen@[m]@ != key@,
                found ==> exists|m: int| 0 <= m < seen@.len() && seen@[m]@ == key@,
            decreases seen.len() - k,
        {
            if !found && crate::text::same_chars(&seen[k], &key) {
                found = true;
            }
            k = k + 1;
        }
        let ghost pre = hv.subrange(0, i as int);
        let ghost post = hv.subrange(0, i + 1);
        let ghost old_out = out@;
        let ghost old_seen = seen@;
        proof {
            assert(post.drop_last() =~= pre);
            assert(post.last() == hv[i as int]);
            assert(hv[i as int] == hit@);
            assert(found == key_seen(seen@, key@));
            assert(key_seen(seen@, key@) == key_in_prefix(hv, i as int, key@));
            let dup = exists|j: int|
                0 <= j < post.len() - 1 && spec_dedupe_key(#[trigger] post[j].url)
                    == spec_dedupe_key(post.last().url);
            if key_in_prefix(hv, i as int, key@) {
                let j = choose|j: int| 0 <= j < i && spec_dedupe_key(#[trigger] hv[j].url) == key@;
                assert(post[j] == hv[j]);
                assert(dup);
            }
            if dup {
                let j = choose|j: int|
                    0 <= j < post.len() - 1 && spec_dedupe_key(#[trigger] post[j].url)
                        == spec_dedupe_key(post.last().url);
                assert(post[j] == hv[j]);
                assert(key_in_prefix(hv, i as int, key@));
            }
        }
        if !found {
            seen.push(key);
            out.push(hit.clone());
        }
        i = i + 1;
        proof {
            if found {
                assert(out@.map_values(|h: SearchHit| h@) =~= first_occurrences(post));
            } else {
                assert(out@.map_values(|h: SearchHit| h@) =~= old_out.map_values(|h: SearchHit| h@).push(hit@));
                assert(out@.map_values(|h: SearchHit| h@) =~= first_occurrences(post));
            }
            assert forall|x: Seq<char>| key_seen(seen@, x) == key_in_prefix(hv, i as int, x) by {
                if key_seen(seen@, x) {
                    let k = choose|k: int| 0 <= k < seen@.len() && #[trigger] seen@[k]@ == x;
                    if k < old_seen.len() {
                        assert(old_seen[k] == seen@[k]);
                        assert(key_seen(old_seen, x));
                        assert(key_in_prefix(hv, i - 1, x));
                        let j = choose|j: int| 0 <= j < i - 1 && spec_dedupe_key(#[trigger] hv[j].url) == x;
                        assert(key_in_prefix(hv, i as int, x));
                    } else {
                        assert(spec_dedupe_key(hv[i - 1].url) == x);
                        assert(key_in_prefix(hv, i as int, x));
                    }
                }
                if key_in_prefix(hv, i as int, x) {
                    let j = choose|j: int| 0 <= j < i && spec_dedupe_key(#[trigger] hv[j].url) == x;
                    if j < i - 1 {
                        assert(key_in_prefix(hv, i - 1, x));
                        assert(key_seen(old_seen, x));
                        let k = choose|k: int| 0 <= k < old_seen.len() && #[trigger] old_seen[k]@ == x;
                        assert(seen@[k] == old_seen[k]);
                        assert(key_seen(seen@, x));
                    } else {
                        if !found {
                            assert(seen@[seen@.len() - 1]@ == x);
                            assert(key_seen(seen@, x));
                        } else {
                            assert(key_seen(old_seen, key@));
                            let m = choose|m: int| 0 <= m < old_seen.len() && #[trigger] old_seen[m]@ == key@;
                            assert(seen@[m]@ == x);
                            assert(key_seen(seen@, x));
                        }
                    }
                }
            }
        }
        proof {
            assert(out@.len() <= old_out.len() + 1);
            if i == 1 {
                assert(old_seen.len() == 0);
                assert(!found);
                assert(out@.len() == 1);
            }
        }
        if out.len() >= limit {
            done = true;
        }
    }
    proof {
        let w = first_occurrences(hv);
        lemma_first_occurrences_prefix(hv, i as int);
        if done {
            assert(w.len() >= nlim);
            assert(w.subrange(0, nlim) =~= out@.map_values(|h: SearchHit| h@));
        } else {
            assert(hv.subrange(0, i as int) =~= hv);
            if hits@.len() > 0 {
                assert(out@.len() < nlim);
            } else {
                assert(w =~= Seq::<SearchHitView>::empty());
            }
        }
    }
    out
}

proof fn lemma_first_occurrences_from(hs: Seq<SearchHitView>)
    ensures
        first_occurrences(hs).len() <= hs.len(),
        forall|i: int|
            0 <= i < first_occurrences(hs).len() ==> exists|k: int|
                0 <= k < hs.len() && hs[k] == #[trigger] first_occurrences(hs)[i],
    decreases hs.len(),
{
    if hs.len() > 0 {
        let init = hs.drop_last();
        lemma_first_occurrences_from(init);
        let prev = first_occurrences(init);
        let fo = first_occurrences(hs);
        assert forall|i: int| 0 <= i < fo.len() implies exists|k: int|
            0 <= k < hs.len() && hs[k] == #[trigger] fo[i] by {
            if i < prev.len() {
                assert(fo[i] == prev[i]);
                let k = choose|k: int| 0 <= k < init.len() && init[k] == prev[i];
                assert(hs[k] == fo[i]);
            } else {
                assert(hs[hs.len() - 1] == fo[i]);
            }
        }
    }
}

proof fn lemma_first_occurrences_distinct(hs: Seq<SearchHitView>)
    ensures
        forall|i: int, j: int|
            0 <= i < j < first_occurrences(hs).len() ==> spec_dedupe_key(
                #[trigger] first_occurrences(hs)[i].url,
            ) != spec_dedupe_key(#[trigger] first_occurrences(hs)[j].url),
    decreases hs.len(),
{
    if hs.len() > 0 {
        let init = hs.drop_last();
        lemma_first_occurrences_distinct(init);
        lemma_first_occurrences_from(init);
        let prev = first_occurrences(init);
        let fo = first_occurrences(hs);
        let last = hs.last();
        if fo.len() > prev.len() {
            assert forall|i: int, j: int|
                0 <= i < j < fo.len() implies spec_dedupe_key(#[trigger] fo[i].url) != spec_dedupe_key(
                    #[trigger] fo[j].url,
                ) by {
                assert(fo[i] == prev[i]);
                if j == fo.len() - 1 {
                    let k = choose|k: int| 0 <= k < init.len() && init[k] == prev[i];
                    assert(hs[k] == prev[i]);
                    assert(fo[j] == last);
                } else {
                    assert(fo[j] == prev[j]);
                }
            }
        }
    }
}

proof fn lemma_first_occurrences_cover(hs: Seq<SearchHitView>)
    ensures
        forall|k: int|
            0 <= k < hs.len() ==> exists|i: int|
                0 <= i < first_occurrences(hs).len() && spec_dedupe_key(
                    #[trigger] first_occurrences(hs)[i].url,
                ) == spec_dedupe_key(#[trigger] hs[k].url),
    decreases hs.len(),
{
    if hs.len() > 0 {
        let init = hs.drop_last();
        lemma_first_occurrences_cover(init);
        let prev = first_occurrences(init);
        let fo = first_occurrences(hs);
        assert forall|k: int| 0 <= k < hs.len() implies exists|i: int|
            0 <= i < fo.len() && spec_dedupe_key(#[trigger] fo[i].url) == spec_dedupe_key(
                #[trigger] hs[k].url,
            ) by {
            let kk = if k < hs.len() - 1 {
                k
            } else if fo.len() > prev.len() {
                -1
            } else {
                choose|j: int|
                    0 <= j < hs.len() - 1 && spec_dedupe_key(#[trigger] hs[j].url) == spec_dedupe_key(
                        hs.last().url,
                    )
            };
            if kk >= 0 {
                assert(init[kk] == hs[kk]);
                let i = choose|i: int|
                    0 <= i < prev.len() && spec_dedupe_key(#[trigger] prev[i].url) == spec_dedupe_key(
                        #[trigger] init[kk].url,
                    );
                assert(fo[i] == prev[i]);
            } else {
                assert(fo[fo.len() - 1] == hs[k]);
            }
        }
    }
}

/// What deduplication keeps: at most `limit` hits, at least one when there
/// is any and the limit allows one; each of them one of the given
/// hits; no two with the same canonical address. Before the cut to `limit`,
/// every given hit's canonical address is kept.
pub proof fn lemma_finalize_hits_dedupes(hs: Seq<SearchHitView>, limit: nat)
    ensures
        ({
            let out = spec_finalize_hits(hs, limit);
            &&& out.len() <= limit
            &&& hs.len() > 0 && limit > 0 ==> out.len() > 0
            &&& forall|i: int| 0 <= i < out.len() ==> exists|k: int| 0 <= k < hs.len() && hs[k] == #[trigger] out[i]
            &&& forall|i: int, j: int|
                0 <= i < j < out.len() ==> spec_dedupe_key(#[trigger] out[i].url) != spec_dedupe_key(
                    #[trigger] out[j].url,
                )
            &&& forall|k: int|
                0 <= k < hs.len() ==> exists|i: int|
                    0 <= i < first_occurrences(hs).len() && spec_dedupe_key(
                        #[trigger] first_occurrences(hs)[i].url,
                    ) == spec_dedupe_key(#[trigger] hs[k].url)
        }),
{
    lemma_first_occurrences_from(hs);
    lemma_first_occurrences_distinct(hs);
    lemma_first_occurrences_cover(hs);
    let fo = first_occurrences(hs);
    let out = spec_finalize_hits(hs, limit);
    if hs.len() > 0 {
        let i = choose|i: int| 0 <= i < fo.len() && spec_dedupe_key(#[trigger] fo[i].url) == spec_dedupe_key(
            #[trigger] hs[0].url);
        assert(fo.len() > 0);
    }
    assert forall|i: int| 0 <= i < out.len() implies exists|k: int| 0 <= k < hs.len() && hs[k] == #[trigger] out[i] by {
        assert(out[i] == fo[i]);
    }
    assert forall|i: int, j: int|
        0 <= i < j < out.len() implies spec_dedupe_key(#[trigger] out[i].url) != spec_dedupe_key(
            #[trigger] out[j].url,
        ) by {
        assert(out[i] == fo[i] && out[j] == fo[j]);
    }
}

/// A Bing redirect payload is only ever decoded to an `http://` or
/// `https://` address.
pub proof fn lemma_ck_target_is_http(v: Seq<char>)
    ensures
        spec_decode_bing_ck_target(v) matches Some(t) ==> is_http_url(t),
{
}

/// An address that is no redirect wrapper is only cleaned: an `http(s)://`
/// address whose trimmed text, entities decoded, does not parse as a URL,
/// or parses with a host that is not DuckDuckGo's and is not a Bing `/ck/`
/// link, normalizes to that decoded text (so `&amp;` in an address comes
/// out as `&`).
pub proof fn lemma_plain_address_is_decoded(v: Seq<char>)
    requires
        is_http_url(spec_decode_html(spec_trim(v))),
        match url_parse(spec_decode_html(spec_trim(v))) {
            None => true,
            Some(p) => {
                let host = match p.host {
                    Some(h) => h,
                    None => Seq::empty(),
                };
                !spec_ends_with(host, "duckduckgo.com"@) && !(spec_ends_with(host, "bing.com"@)
                    && spec_starts_with(p.path, "/ck/"@))
            },
        },
    ensures
        spec_normalize_search_url(v) == spec_decode_html(spec_trim(v)),
{
    let d = spec_decode_html(spec_trim(v));
    reveal_strlit("http://");
    reveal_strlit("https://");
    reveal_strlit("//");
    reveal_strlit("/");
    assert(d[0] == 'h') by {
        if spec_starts_with(d, "http://"@) {
            assert(d.subrange(0, 7)[0] == d[0]);
        } else {
            assert(d.subrange(0, 8)[0] == d[0]);
        }
    }
    assert(!spec_starts_with(d, "//"@)) by {
        if spec_starts_with(d, "//"@) {
            assert(d.subrange(0, 2)[0] == d[0]);
        }
    }
    assert(!spec_starts_with(d, "/"@)) by {
        if spec_starts_with(d, "/"@) {
            assert(d.subrange(0, 1)[0] == d[0]);
        }
    }
    assert(spec_absolutize(d) == d);
}

} // verus!
