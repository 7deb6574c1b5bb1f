//! Lexical relevance gate: engines sometimes answer a cache miss with
//! generic popular pages; such an answer shares no signal token with the query.

use vstd::prelude::*;
use crate::bridge::chars_of;
use crate::hit::{SearchHit, SearchHitView};
use crate::text::{ascii_lowercase, contains, push_str, spec_ascii_lowercase, spec_contains};

verus! {

/// Characters that form CJK bigram tokens (main block and extension A).
pub open spec fn is_token_cjk(c: char) -> bool {
    ('\u{4e00}' <= c && c <= '\u{9fff}') || ('\u{3400}' <= c && c <= '\u{4dbf}')
}

/// `char::is_ascii_alphanumeric`.
pub open spec fn is_ascii_alnum(c: char) -> bool {
    ('0' <= c && c <= '9') || ('a' <= c && c <= 'z') || ('A' <= c && c <= 'Z')
}

/// Tokens found so far while scanning a query, and the runs still open.
pub struct QueryScan {
    pub words: Seq<Seq<char>>,
    pub bigrams: Seq<Seq<char>>,
    pub word_run: Seq<char>,
    pub cjk_run: Seq<char>,
}

/// A closed ASCII run becomes a (lower-cased) word token when it has at least
/// two characters.
pub open spec fn close_word(words: Seq<Seq<char>>, run: Seq<char>) -> Seq<Seq<char>> {
    if run.len() >= 2 {
        words.push(spec_ascii_lowercase(run))
    } else {
        words
    }
}

/// The bigrams (pairs of adjacent characters) of a CJK run.
pub open spec fn run_bigrams(run: Seq<char>) -> Seq<Seq<char>> {
    if run.len() >= 2 {
        Seq::new((run.len() - 1) as nat, |i: int| seq![run[i], run[i + 1]])
    } else {
        Seq::empty()
    }
}

/// The scan state after reading `q` from left to right: a CJK character closes
/// the ASCII run and extends the CJK run, an ASCII letter or digit closes the
/// CJK run and extends the ASCII run, anything else closes both.
pub open spec fn scan_query(q: Seq<char>) -> QueryScan
    decreases q.len(),
{
    if q.len() == 0 {
        QueryScan {
            words: Seq::empty(),
            bigrams: Seq::empty(),
            word_run: Seq::empty(),
            cjk_run: Seq::empty(),
        }
    } else {
        let st = scan_query(q.drop_last());
        let c = q.last();
        if is_token_cjk(c) {
            QueryScan {
                words: close_word(st.words, st.word_run),
                bigrams: st.bigrams,
                word_run: Seq::empty(),
                cjk_run: st.cjk_run.push(c),
            }
        } else if is_ascii_alnum(c) {
            QueryScan {
                words: st.words,
                bigrams: st.bigrams + run_bigrams(st.cjk_run),
                word_run: st.word_run.push(c),
                cjk_run: Seq::empty(),
            }
        } else {
            QueryScan {
                words: close_word(st.words, st.word_run),
                bigrams: st.bigrams + run_bigrams(st.cjk_run),
                word_run: Seq::empty(),
                cjk_run: Seq::empty(),
            }
        }
    }
}

/// The signal tokens of a query: ASCII words of two or more characters
/// (lower-cased) and the bigrams of each CJK run.
pub open spec fn query_tokens(q: Seq<char>) -> Seq<Seq<char>> {
    let st = scan_query(q);
    close_word(st.words, st.word_run) + (st.bigrams + run_bigrams(st.cjk_run))
}

/// The text of a hit that tokens are looked for in: title, address and
/// snippet joined by spaces, ASCII lower-cased.
pub open spec fn hit_haystack(h: SearchHitView) -> Seq<char> {
    spec_ascii_lowercase(h.title + " "@ + h.url + " "@ + h.snippet)
}

/// The hits are relevant to the query: the query has no signal token, or some
/// hit contains one of them.
pub open spec fn spec_results_are_relevant(q: Seq<char>, hits: Seq<SearchHitView>) -> bool {
    let tokens = query_tokens(q);
    tokens.len() == 0 || exists|i: int, j: int|
        0 <= i < hits.len() && 0 <= j < tokens.len() && spec_contains(
            hit_haystack(#[trigger] hits[i]),
            #[trigger] tokens[j],
        )
}

fn close_word_exec(words: &mut Vec<Vec<char>>, run: &Vec<char>)
    ensures
        final(words)@.map_values(|w: Vec<char>| w@) == close_word(
            old(words)@.map_values(|w: Vec<char>| w@),
            run@,
        ),
{
    if run.len() >= 2 {
        words.push(ascii_lowercase(run));
        assert(words@.map_values(|w: Vec<char>| w@) =~= old(words)@.map_values(|w: Vec<char>| w@).push(spec_ascii_lowercase(run@)));
    }
}

fn close_cjk_exec(bigrams: &mut Vec<Vec<char>>, run: &Vec<char>)
    ensures
        final(bigrams)@.map_values(|w: Vec<char>| w@) == old(bigrams)@.map_values(
            |w: Vec<char>| w@,
        ) + run_bigrams(run@),
{
    if run.len() >= 2 {
        let mut k: usize = 0;
        while k + 1 < run.len()
            invariant
                run@.len() >= 2,
                k <= run@.len() - 1,
                bigrams@.map_values(|w: Vec<char>| w@) =~= old(bigrams)@.map_values(
                    |w: Vec<char>| w@,
                ) + run_bigrams(run@).subrange(0, k as int),
            decreases run.len() - k,
        {
            let mut pair: Vec<char> = Vec::new();
            pair.push(run[k]);
            pair.push(run[k + 1]);
            assert(pair@ =~= run_bigrams(run@)[k as int]);
            let ghost before = bigrams@;
            let ghost pv = pair@;
            bigrams.push(pair);
            proof {
                assert(bigrams@ == before.push(bigrams@.last()));
                assert(bigrams@.map_values(|w: Vec<char>| w@) =~= before.map_values(|w: Vec<char>| w@).push(pv));
                assert(run_bigrams(run@).subrange(0, k + 1) =~= run_bigrams(run@).subrange(0, k as int).push(pv));
            }
            k = k + 1;
            assert(bigrams@.map_values(|w: Vec<char>| w@) =~= old(bigrams)@.map_values(
                |w: Vec<char>| w@,
            ) + run_bigrams(run@).subrange(0, k as int));
        }
        assert(run_bigrams(run@).subrange(0, (run@.len() - 1) as int) =~= run_bigrams(run@));
    } else {
        assert(old(bigrams)@.map_values(|w: Vec<char>| w@) + run_bigrams(run@) =~= old(
            bigrams,
        )@.map_values(|w: Vec<char>| w@));
    }
}

fn copy_chars(v: &[char]) -> (r: Vec<char>)
    ensures
        r@ == v@,
{
    let mut out: Vec<char> = Vec::new();
    crate::text::push_all(&mut out, v);
    assert(out@ =~= v@);
    out
}

/// The signal tokens of `q` (see `query_tokens`).
pub fn signal_tokens(q: &str) -> (r: Vec<Vec<char>>)
    ensures
        r@.map_values(|w: Vec<char>| w@) == query_tokens(q@),
{
    let c = chars_of(q);
    let mut words: Vec<Vec<char>> = Vec::new();
    let mut bigrams: Vec<Vec<char>> = Vec::new();
    let mut word_run: Vec<char> = Vec::new();
    let mut cjk_run: Vec<char> = Vec::new();
    let mut i: usize = 0;
    proof {
        assert(c@.subrange(0, 0) =~= Seq::<char>::empty());
        assert(words@.map_values(|w: Vec<char>| w@) =~= Seq::<Seq<char>>::empty());
        assert(bigrams@.map_values(|w: Vec<char>| w@) =~= Seq::<Seq<char>>::empty());
        assert(word_run@ =~= Seq::<char>::empty());
        assert(cjk_run@ =~= Seq::<char>::empty());
    }
    while i < c.len()
        invariant
            c@ == q@,
            i <= c@.len(),
            scan_query(c@.subrange(0, i as int)) == (QueryScan {
                words: words@.map_values(|w: Vec<char>| w@),
                bigrams: bigrams@.map_values(|w: Vec<char>| w@),
                word_run: word_run@,
                cjk_run: cjk_run@,
            }),
        decreases c.len() - i,
    {
        let ch = c[i];
        proof {
            assert(c@.subrange(0, i + 1).drop_last() =~= c@.subrange(0, i as int));
        }
        if ('\u{4e00}' <= ch && ch <= '\u{9fff}') || ('\u{3400}' <= ch && ch <= '\u{4dbf}') {
            close_word_exec(&mut words, &word_run);
            word_run = Vec::new();
            cjk_run.push(ch);
        } else if ('0' <= ch && ch <= '9') || ('a' <= ch && ch <= 'z') || ('A' <= ch && ch <= 'Z') {
            close_cjk_exec(&mut bigrams, &cjk_run);
            cjk_run = Vec::new();
            word_run.push(ch);
        } else {
            close_word_exec(&mut words, &word_run);
            close_cjk_exec(&mut bigrams, &cjk_run);
            word_run = Vec::new();
            cjk_run = Vec::new();
        }
        i = i + 1;
        proof {
            assert(scan_query(c@.subrange(0, i as int)) =~~= (QueryScan {
                words: words@.map_values(|w: Vec<char>| w@),
                bigrams: bigrams@.map_values(|w: Vec<char>| w@),
                word_run: word_run@,
                cjk_run: cjk_run@,
            }));
        }
    }
    proof {
        assert(c@.subrange(0, c@.len() as int) =~= c@);
    }
    close_word_exec(&mut words, &word_run);
    close_cjk_exec(&mut bigrams, &cjk_run);
    let ghost w = words@.map_values(|w: Vec<char>| w@);
    let ghost b = bigrams@.map_values(|w: Vec<char>| w@);
    let mut k: usize = 0;
    while k < bigrams.len()
        invariant
            k <= bigrams@.len(),
            b == bigrams@.map_values(|w: Vec<char>| w@),
            words@.map_values(|w: Vec<char>| w@) =~= w + b.subrange(0, k as int),
        decreases bigrams.len() - k,
    {
        let ghost before = words@;
        let piece = copy_chars(&bigrams[k]);
        let ghost pv = piece@;
        words.push(piece);
        proof {
            assert(words@.map_values(|w: Vec<char>| w@) =~= before.map_values(|w: Vec<char>| w@).push(pv));
            assert(b.subrange(0, k + 1) =~= b.subrange(0, k as int).push(pv));
        }
        k = k + 1;
        assert(words@.map_values(|w: Vec<char>| w@) =~= w + b.subrange(0, k as int));
    }
    assert(b.subrange(0, b.len() as int) =~= b);
    words
}

/// The haystack of one hit (see `hit_haystack`).
fn haystack(hit: &SearchHit) -> (r: Vec<char>)
    ensures
        r@ == hit_haystack(hit@),
{
    let mut text: Vec<char> = Vec::new();
    push_str(&mut text, hit.title());
    push_str(&mut text, " ");
    push_str(&mut text, hit.url());
    push_str(&mut text, " ");
    push_str(&mut text, hit.snippet());
    ascii_lowercase(&text)
}

/// Whether at least one hit shares a signal token with the query. Signal
/// tokens are ASCII words of 2+ characters plus CJK bigrams; queries without
/// any signal token pass unconditionally.
pub fn results_are_relevant(query: &str, hits: &[SearchHit]) -> (r: bool)
    ensures
        r == spec_results_are_relevant(query@, hits@.map_values(|h: SearchHit| h@)),
{
    let tokens = signal_tokens(query);
    let ghost tv = tokens@.map_values(|w: Vec<char>| w@);
    let ghost hv = hits@.map_values(|h: SearchHit| h@);
    if tokens.len() == 0 {
        return true;
    }
    let mut i: usize = 0;
    while i < hits.len()
        invariant
            i <= hits@.len(),
            tv == tokens@.map_values(|w: Vec<char>| w@),
            hv == hits@.map_values(|h: SearchHit| h@),
            tv == query_tokens(query@),
            forall|a: int, j: int|
                0 <= a < i && 0 <= j < tv.len() ==> !spec_contains(
                    hit_haystack(#[trigger] hv[a]),
                    #[trigger] tv[j],
                ),
        decreases hits.len() - i,
    {
        let hay = haystack(&hits[i]);
        let mut j: usize = 0;
        while j < tokens.len()
            invariant
                i < hits@.len(),
                j <= tokens@.len(),
                tv == tokens@.map_values(|w: Vec<char>| w@),
                hv == hits@.map_values(|h: SearchHit| h@),
                hay@ == hit_haystack(hv[i as int]),
                tv == query_tokens(query@),
                forall|k: int| 0 <= k < j ==> !spec_contains(hay@, #[trigger] tv[k]),
            decreases tokens.len() - j,
        {
            if contains(&hay, &tokens[j]) {
                assert(spec_contains(hit_haystack(hv[i as int]), tv[j as int]));
                assert(0 <= i < hv.len() && 0 <= j < tv.len());
                assert(spec_results_are_relevant(query@, hv));
                return true;
            }
            j = j + 1;
        }
        i = i + 1;
    }
    false
}

/// A word token: two or more ASCII letters and digits, none upper-case.
pub open spec fn is_word_token(t: Seq<char>) -> bool {
    t.len() >= 2 && forall|i: int| 0 <= i < t.len() ==> is_ascii_alnum(#[trigger] t[i]) && !('A' <= t[i] && t[i] <= 'Z')
}

/// A bigram token: two CJK ideographs.
pub open spec fn is_bigram_token(t: Seq<char>) -> bool {
    t.len() == 2 && is_token_cjk(t[0]) && is_token_cjk(t[1])
}

proof fn lemma_close_word(words: Seq<Seq<char>>, run: Seq<char>)
    requires
        forall|i: int| 0 <= i < words.len() ==> is_word_token(#[trigger] words[i]),
        forall|i: int| 0 <= i < run.len() ==> is_ascii_alnum(#[trigger] run[i]),
    ensures
        forall|i: int| 0 <= i < close_word(words, run).len() ==> is_word_token(#[trigger] close_word(words, run)[i]),
{
    if run.len() >= 2 {
        let w = spec_ascii_lowercase(run);
        assert forall|i: int| 0 <= i < w.len() implies is_ascii_alnum(#[trigger] w[i]) && !('A' <= w[i] && w[i] <= 'Z') by {
            let c = run[i];
            if 'A' <= c && c <= 'Z' {
                assert(('A' as u32) <= (c as u32) <= ('Z' as u32));
                let d = ((c as u32) + 32) as char;
                assert(w[i] == d);
                assert((d as u32) == (c as u32) + 32);
            }
        }
        let out = close_word(words, run);
        assert forall|i: int| 0 <= i < out.len() implies is_word_token(#[trigger] out[i]) by {
            if i < words.len() {
                assert(out[i] == words[i]);
            }
        }
    }
}

proof fn lemma_run_bigrams(run: Seq<char>)
    requires
        forall|i: int| 0 <= i < run.len() ==> is_token_cjk(#[trigger] run[i]),
    ensures
        forall|i: int| 0 <= i < run_bigrams(run).len() ==> is_bigram_token(#[trigger] run_bigrams(run)[i]),
{
    if run.len() >= 2 {
        assert forall|i: int| 0 <= i < run_bigrams(run).len() implies is_bigram_token(#[trigger] run_bigrams(run)[i]) by {
            assert(run_bigrams(run)[i] == seq![run[i], run[i + 1]]);
            assert(is_token_cjk(run[i]) && is_token_cjk(run[i + 1]));
        }
    }
}

proof fn lemma_scan_query_tokens(q: Seq<char>)
    ensures
        ({
            let st = scan_query(q);
            &&& forall|i: int| 0 <= i < st.words.len() ==> is_word_token(#[trigger] st.words[i])
            &&& forall|i: int| 0 <= i < st.bigrams.len() ==> is_bigram_token(#[trigger] st.bigrams[i])
            &&& forall|i: int| 0 <= i < st.word_run.len() ==> is_ascii_alnum(#[trigger] st.word_run[i])
            &&& forall|i: int| 0 <= i < st.cjk_run.len() ==> is_token_cjk(#[trigger] st.cjk_run[i])
        }),
    decreases q.len(),
{
    if q.len() > 0 {
        lemma_scan_query_tokens(q.drop_last());
        let st = scan_query(q.drop_last());
        let c = q.last();
        lemma_close_word(st.words, st.word_run);
        lemma_run_bigrams(st.cjk_run);
        let b2 = st.bigrams + run_bigrams(st.cjk_run);
        assert forall|i: int| 0 <= i < b2.len() implies is_bigram_token(#[trigger] b2[i]) by {
            if i < st.bigrams.len() {
                assert(b2[i] == st.bigrams[i]);
            } else {
                assert(b2[i] == run_bigrams(st.cjk_run)[i - st.bigrams.len()]);
            }
        }
        let nw = st.word_run.push(c);
        let nc = st.cjk_run.push(c);
        if is_ascii_alnum(c) {
            assert forall|i: int| 0 <= i < nw.len() implies is_ascii_alnum(#[trigger] nw[i]) by {
                if i < st.word_run.len() {
                    assert(nw[i] == st.word_run[i]);
                }
            }
        }
        if is_token_cjk(c) {
            assert forall|i: int| 0 <= i < nc.len() implies is_token_cjk(#[trigger] nc[i]) by {
                if i < st.cjk_run.len() {
                    assert(nc[i] == st.cjk_run[i]);
                }
            }
        }
    }
}

/// The signal tokens of a query are ASCII words of two or more characters,
/// lower-cased, and bigrams of CJK ideographs: a single CJK character never
/// counts.
pub proof fn lemma_query_tokens_are_signals(q: Seq<char>)
    ensures
        forall|i: int|
            0 <= i < query_tokens(q).len() ==> is_word_token(#[trigger] query_tokens(q)[i])
                || is_bigram_token(query_tokens(q)[i]),
{
    lemma_scan_query_tokens(q);
    let st = scan_query(q);
    lemma_close_word(st.words, st.word_run);
    lemma_run_bigrams(st.cjk_run);
    let w = close_word(st.words, st.word_run);
    let b = st.bigrams + run_bigrams(st.cjk_run);
    let t = query_tokens(q);
    assert(t == w + b);
    assert forall|i: int| 0 <= i < t.len() implies is_word_token(#[trigger] t[i]) || is_bigram_token(t[i]) by {
        if i < w.len() {
            assert(t[i] == w[i]);
        } else {
            let k = i - w.len();
            assert(t[i] == b[k]);
            if k < st.bigrams.len() {
                assert(b[k] == st.bigrams[k]);
            } else {
                assert(b[k] == run_bigrams(st.cjk_run)[k - st.bigrams.len()]);
            }
        }
    }
}

proof fn lemma_lowercase_concat(a: Seq<char>, b: Seq<char>)
    ensures
        spec_ascii_lowercase(a + b) == spec_ascii_lowercase(a) + spec_ascii_lowercase(b),
{
    assert(spec_ascii_lowercase(a + b) =~= spec_ascii_lowercase(a) + spec_ascii_lowercase(b));
}

proof fn lemma_contains_within(pre: Seq<char>, s: Seq<char>, post: Seq<char>, t: Seq<char>)
    requires
        spec_contains(s, t),
    ensures
        spec_contains(pre + s + post, t),
{
    let i = choose|i: int| crate::text::occurs_at(s, t, i);
    let whole = pre + s + post;
    let k = i + pre.len();
    assert(whole.subrange(k, k + t.len()) =~= s.subrange(i, i + t.len()));
    assert(crate::text::occurs_at(whole, t, k));
}

/// A hit whose title, address or snippet (ASCII lower-cased) contains one of
/// the query's signal tokens makes the results relevant.
pub proof fn lemma_matching_hit_is_relevant(q: Seq<char>, hits: Seq<SearchHitView>, i: int, j: int)
    requires
        0 <= i < hits.len(),
        0 <= j < query_tokens(q).len(),
        spec_contains(spec_ascii_lowercase(hits[i].title), query_tokens(q)[j])
            || spec_contains(spec_ascii_lowercase(hits[i].url), query_tokens(q)[j])
            || spec_contains(spec_ascii_lowercase(hits[i].snippet), query_tokens(q)[j]),
    ensures
        spec_results_are_relevant(q, hits),
{
    let h = hits[i];
    let t = query_tokens(q)[j];
    let lt = spec_ascii_lowercase(h.title);
    let lu = spec_ascii_lowercase(h.url);
    let ls = spec_ascii_lowercase(h.snippet);
    let sp = spec_ascii_lowercase(" "@);
    lemma_lowercase_concat(h.title + " "@ + h.url + " "@, h.snippet);
    lemma_lowercase_concat(h.title + " "@ + h.url, " "@);
    lemma_lowercase_concat(h.title + " "@, h.url);
    lemma_lowercase_concat(h.title, " "@);
    let hay = hit_haystack(h);
    assert(hay == lt + sp + lu + sp + ls);
    if spec_contains(lt, t) {
        lemma_contains_within(Seq::empty(), lt, sp + lu + sp + ls, t);
        assert(Seq::<char>::empty() + lt + (sp + lu + sp + ls) =~= hay);
    } else if spec_contains(lu, t) {
        lemma_contains_within(lt + sp, lu, sp + ls, t);
        assert(lt + sp + lu + (sp + ls) =~= hay);
    } else {
        lemma_contains_within(lt + sp + lu + sp, ls, Seq::empty(), t);
        assert(lt + sp + lu + sp + ls + Seq::<char>::empty() =~= hay);
    }
    assert(spec_contains(hit_haystack(hits[i]), query_tokens(q)[j]));
}

} // verus!
