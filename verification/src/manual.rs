//! Reading a pasted answer of an outside chat AI: finding the tool calls in
//! it, whatever shape it wrote them in, and the narrative around them.
//!
//! The reader tries, in order: JSON (the whole answer, each fenced code
//! block, the outermost `{…}` and `[…]`), XML-style `<tool_call>` tags,
//! `TOOL: name ARGS: {…}` lines (then `[tool]name[/tool]` tags), and at last
//! a scan of the text for a known tool name followed closely by `{…}`.

use vstd::prelude::*;
use vstd::utf8::encode_utf8;
use crate::bridge::{chars_of, decode_lossy, is_alphanumeric, regex_matches, string_of, unicode_alphanumeric, utf8_lossy};
use crate::calls::{
    call_views, coerce, decode, parse_decoded, spec_coerce, spec_parse_decoded, table_view, CallV,
    JsonSource, JsonSourceV, look,
};
use crate::model::{InvalidToolCall, InvalidToolCallView, ToolCall, ToolCallView, ToolSpec};
use crate::json::{Json, JsonV};
use crate::pattern::{all_matches, replace_all, spans_within, spec_replace_all, Groups};
use crate::serp::{group_text, spec_group_text};
use crate::text::{collapse_whitespace, spec_collapse_whitespace, spec_decimal, spec_trim, trim};

verus! {

// ---------------------------------------------------------------------------
// Structured JSON
// ---------------------------------------------------------------------------

pub open spec fn fence_pattern() -> Seq<char> {
    r"(?s)```(?:json)?\s*(.*?)```"@
}

/// Group `g` of match `m`, trimmed, when the group took part.
pub open spec fn group_trimmed(rb: Seq<u8>, m: Groups, g: int) -> Option<Seq<char>> {
    if 0 <= g < m.len() && m[g] is Some {
        Some(spec_trim(spec_group_text(rb, m, g)))
    } else {
        None
    }
}

fn group_trimmed_exec(b: &[u8], m: &Vec<Option<(usize, usize)>>, g: usize) -> (r: Option<Vec<char>>)
    requires
        spans_within(m@, b@.len()),
    ensures
        match r {
            Some(t) => group_trimmed(b@, m@, g as int) == Some(t@),
            None => group_trimmed(b@, m@, g as int) is None,
        },
{
    if g < m.len() {
        match m[g] {
            Some(_) => {
                let t = group_text(b, m, g);
                Some(trim(&chars_of(t.as_str())))
            },
            None => None,
        }
    } else {
        None
    }
}

/// The trimmed bodies of the fenced code blocks that the matches `ms` found.
pub open spec fn fence_bodies(rb: Seq<u8>, ms: Seq<Groups>) -> Seq<Seq<char>>
    decreases ms.len(),
{
    if ms.len() == 0 {
        Seq::empty()
    } else {
        let prev = fence_bodies(rb, ms.drop_last());
        match group_trimmed(rb, ms.last(), 1) {
            Some(t) => prev.push(t),
            None => prev,
        }
    }
}

/// The first position of `c` in `s`.
pub open spec fn first_index(s: Seq<char>, c: char) -> Option<int>
    decreases s.len(),
{
    if s.len() == 0 {
        None
    } else {
        match first_index(s.drop_last(), c) {
            Some(i) => Some(i),
            None => if s.last() == c {
                Some(s.len() - 1)
            } else {
                None
            },
        }
    }
}

/// The last position of `c` in `s`.
pub open spec fn last_index(s: Seq<char>, c: char) -> Option<int>
    decreases s.len(),
{
    if s.len() == 0 {
        None
    } else if s.last() == c {
        Some(s.len() - 1)
    } else {
        last_index(s.drop_last(), c)
    }
}

/// From the first `open` to the last `close`, when the latter comes after
/// the former.
pub open spec fn outer_span(s: Seq<char>, open: char, close: char) -> Option<(int, int)> {
    match (first_index(s, open), last_index(s, close)) {
        (Some(a), Some(b)) => if b > a {
            Some((a, b))
        } else {
            None
        },
        _ => None,
    }
}

fn outer_span_exec(s: &[char], open: char, close: char) -> (r: Option<(usize, usize)>)
    ensures
        match r {
            Some((a, b)) => outer_span(s@, open, close) == Some((a as int, b as int)) && a < b
                < s@.len(),
            None => outer_span(s@, open, close) is None,
        },
{
    let mut first: Option<usize> = None;
    let mut last: Option<usize> = None;
    let mut i: usize = 0;
    while i < s.len()
        invariant
            i <= s@.len(),
            match first {
                Some(a) => first_index(s@.subrange(0, i as int), open) == Some(a as int) && a < i,
                None => first_index(s@.subrange(0, i as int), open) is None,
            },
            match last {
                Some(b) => last_index(s@.subrange(0, i as int), close) == Some(b as int) && b < i,
                None => last_index(s@.subrange(0, i as int), close) is None,
            },
        decreases s.len() - i,
    {
        proof {
            assert(s@.subrange(0, i + 1).drop_last() =~= s@.subrange(0, i as int));
        }
        if first.is_none() && s[i] == open {
            first = Some(i);
        }
        if s[i] == close {
            last = Some(i);
        }
        i = i + 1;
    }
    proof {
        assert(s@.subrange(0, s@.len() as int) =~= s@);
    }
    match (first, last) {
        (Some(a), Some(b)) => if b > a {
            Some((a, b))
        } else {
            None
        },
        _ => None,
    }
}

/// The texts tried as JSON, in order: the trimmed answer, each fenced
/// block's body, the outermost `{…}` and the outermost `[…]`.
pub open spec fn structured_candidates(raw: Seq<char>) -> Seq<Seq<char>> {
    let rb = encode_utf8(raw);
    let c0 = seq![spec_trim(raw)] + fence_bodies(rb, regex_matches(fence_pattern(), rb));
    let c1 = match outer_span(raw, '{', '}') {
        Some((a, b)) => c0.push(spec_trim(raw.subrange(a, b + 1))),
        None => c0,
    };
    match outer_span(raw, '[', ']') {
        Some((a, b)) => c1.push(spec_trim(raw.subrange(a, b + 1))),
        None => c1,
    }
}

/// The calls of the first candidate that is JSON and describes any.
pub open spec fn first_calls(cands: Seq<Seq<char>>, src: JsonSourceV) -> Seq<CallV>
    decreases cands.len(),
{
    if cands.len() == 0 {
        Seq::empty()
    } else {
        let c = match look(src, cands[0]) {
            Some(v) => spec_parse_decoded(v, src),
            None => Seq::empty(),
        };
        if c.len() > 0 {
            c
        } else {
            first_calls(cands.drop_first(), src)
        }
    }
}

pub open spec fn spec_structured(raw: Seq<char>, src: JsonSourceV) -> Seq<CallV> {
    first_calls(structured_candidates(raw), src)
}

pub open spec fn string_views(v: Seq<String>) -> Seq<Seq<char>> {
    v.map_values(|s: String| s@)
}

fn push_slice_trimmed(out: &mut Vec<String>, s: &[char], a: usize, b: usize)
    requires
        a <= b <= s@.len(),
    ensures
        string_views(final(out)@) == string_views(old(out)@).push(
            spec_trim(s@.subrange(a as int, b as int)),
        ),
{
    let mut piece: Vec<char> = Vec::new();
    let mut i: usize = a;
    while i < b
        invariant
            a <= i <= b,
            b <= s@.len(),
            piece@ == s@.subrange(a as int, i as int),
        decreases b - i,
    {
        piece.push(s[i]);
        i = i + 1;
        assert(piece@ =~= s@.subrange(a as int, i as int));
    }
    let t = string_of(&trim(&piece));
    out.push(t);
    proof {
        assert(string_views(out@) =~= string_views(old(out)@).push(t@));
    }
}

fn candidates(raw: &str) -> (r: Vec<String>)
    ensures
        string_views(r@) == structured_candidates(raw@),
{
    let rc = chars_of(raw);
    let b = raw.as_bytes();
    let ghost rb = encode_utf8(raw@);
    let mut out: Vec<String> = Vec::new();
    out.push(string_of(&trim(&rc)));
    let ms = all_matches(fence_pattern_exec(), b);
    let ghost all = regex_matches(fence_pattern(), rb);
    proof {
        assert(string_views(out@) =~= seq![spec_trim(raw@)]);
        assert(all.subrange(0, 0) =~= Seq::<Groups>::empty());
        assert(seq![spec_trim(raw@)] + fence_bodies(rb, all.subrange(0, 0)) =~= seq![
            spec_trim(raw@),
        ]);
    }
    let mut i: usize = 0;
    while i < ms.len()
        invariant
            i <= ms@.len(),
            b@ == rb,
            rc@ == raw@,
            rb == encode_utf8(raw@),
            all == regex_matches(fence_pattern(), rb),
            ms@.len() == all.len(),
            forall|k: int| 0 <= k < ms@.len() ==> #[trigger] ms@[k]@ == all[k],
            forall|k: int|
                0 <= k < ms@.len() ==> (#[trigger] ms@[k])@.len() >= 1 && ms@[k]@[0] is Some
                    && spans_within(ms@[k]@, b@.len()),
            string_views(out@) == seq![spec_trim(raw@)] + fence_bodies(rb, all.subrange(0, i as int)),
        decreases ms.len() - i,
    {
        proof {
            assert(all.subrange(0, i + 1).drop_last() =~= all.subrange(0, i as int));
            assert(all.subrange(0, i + 1).last() == ms@[i as int]@);
        }
        match group_trimmed_exec(b, &ms[i], 1) {
            Some(t) => {
                let ghost before = out@;
                out.push(string_of(&t));
                proof {
                    assert(string_views(out@) =~= string_views(before).push(t@));
                }
            },
            None => {},
        }
        i = i + 1;
    }
    proof {
        assert(all.subrange(0, ms@.len() as int) =~= all);
    }
    let n = rc.len();
    let braces = outer_span_exec(&rc, '{', '}');
    let brackets = outer_span_exec(&rc, '[', ']');
    match braces {
        Some((a, e)) => {
            assert(e < n);
            push_slice_trimmed(&mut out, &rc, a, e + 1)
        },
        None => {},
    }
    match brackets {
        Some((a, e)) => {
            assert(e < n);
            push_slice_trimmed(&mut out, &rc, a, e + 1)
        },
        None => {},
    }
    out
}

fn fence_pattern_exec() -> (r: &'static str)
    ensures
        r@ == fence_pattern(),
{
    r"(?s)```(?:json)?\s*(.*?)```"
}

/// The calls found by reading the answer as JSON.
pub fn structured(raw: &str, src: &JsonSource) -> (r: Vec<(String, Json)>)
    ensures
        call_views(r@) == spec_structured(raw@, src@),
{
    let cands = candidates(raw);
    let ghost cv = string_views(cands@);
    let mut i: usize = 0;
    proof {
        assert(cv.subrange(0, cv.len() as int) =~= cv);
    }
    while i < cands.len()
        invariant
            i <= cands@.len(),
            cv == string_views(cands@),
            cv.len() == cands@.len(),
            spec_structured(raw@, src@) == first_calls(cv.subrange(i as int, cv.len() as int), src@),
        decreases cands.len() - i,
    {
        let ghost rest = cv.subrange(i as int, cv.len() as int);
        proof {
            assert(rest[0] == cands@[i as int]@);
            assert(rest.drop_first() =~= cv.subrange(i + 1, cv.len() as int));
        }
        match decode(src, cands[i].as_str()) {
            Some(v) => {
                let calls = parse_decoded(&v, src);
                if calls.len() > 0 {
                    return calls;
                }
            },
            None => {},
        }
        i = i + 1;
    }
    let out: Vec<(String, Json)> = Vec::new();
    proof {
        assert(call_views(out@) =~= Seq::<CallV>::empty());
    }
    out
}

// ---------------------------------------------------------------------------
// Tags and lines
// ---------------------------------------------------------------------------

pub open spec fn xml_pattern() -> Seq<char> {
    r"(?is)<tool_call>\s*<name>\s*([^<]+?)\s*</name>\s*(?:<arguments>\s*(.*?)\s*</arguments>)?\s*</tool_call>"@
}

pub open spec fn line_pattern() -> Seq<char> {
    r"(?im)^(?:TOOL|CALL|工具)\s*[:：]\s*([\w.-]+)\s*(?:ARGS|args|参数)\s*[:：]\s*(\{.*\})$"@
}

pub open spec fn bracket_pattern() -> Seq<char> {
    r"(?i)\[tool\]\s*([\w.-]+?)\s*\[/tool\](?:\s*\[args\]\s*(\{.*?\})\s*\[/args\])?"@
}

pub open spec fn or_empty(t: Option<Seq<char>>) -> Seq<char> {
    match t {
        Some(s) => s,
        None => Seq::empty(),
    }
}

/// The calls of matches whose group 1 is the tool's name and group 2 its
/// arguments as JSON text; matches with an empty name are passed over.
pub open spec fn group_calls(rb: Seq<u8>, ms: Seq<Groups>, src: JsonSourceV) -> Seq<CallV>
    decreases ms.len(),
{
    if ms.len() == 0 {
        Seq::empty()
    } else {
        let prev = group_calls(rb, ms.drop_last(), src);
        let name = or_empty(group_trimmed(rb, ms.last(), 1));
        let args = or_empty(group_trimmed(rb, ms.last(), 2));
        if name.len() > 0 {
            prev.push((name, spec_coerce(JsonV::Str(args), src)))
        } else {
            prev
        }
    }
}

fn group_calls_exec(pattern: &str, b: &[u8], src: &JsonSource) -> (r: Vec<(String, Json)>)
    ensures
        call_views(r@) == group_calls(b@, regex_matches(pattern@, b@), src@),
{
    let ms = all_matches(pattern, b);
    let ghost all = regex_matches(pattern@, b@);
    let mut out: Vec<(String, Json)> = Vec::new();
    let mut i: usize = 0;
    proof {
        assert(call_views(out@) =~= group_calls(b@, all.subrange(0, 0), src@));
    }
    while i < ms.len()
        invariant
            i <= ms@.len(),
            all == regex_matches(pattern@, b@),
            ms@.len() == all.len(),
            forall|k: int| 0 <= k < ms@.len() ==> #[trigger] ms@[k]@ == all[k],
            forall|k: int|
                0 <= k < ms@.len() ==> (#[trigger] ms@[k])@.len() >= 1 && ms@[k]@[0] is Some
                    && spans_within(ms@[k]@, b@.len()),
            call_views(out@) == group_calls(b@, all.subrange(0, i as int), src@),
        decreases ms.len() - i,
    {
        proof {
            assert(all.subrange(0, i + 1).drop_last() =~= all.subrange(0, i as int));
            assert(all.subrange(0, i + 1).last() == ms@[i as int]@);
        }
        let name = match group_trimmed_exec(b, &ms[i], 1) {
            Some(t) => t,
            None => Vec::new(),
        };
        let args = match group_trimmed_exec(b, &ms[i], 2) {
            Some(t) => t,
            None => Vec::new(),
        };
        if name.len() > 0 {
            let c = coerce(Json::Str(string_of(&args)), src);
            let ghost before = out@;
            out.push((string_of(&name), c));
            proof {
                assert(call_views(out@) =~= call_views(before).push((out@.last().0@, out@.last().1@)));
            }
        }
        i = i + 1;
    }
    proof {
        assert(all.subrange(0, ms@.len() as int) =~= all);
    }
    out
}

/// The calls written as `<tool_call><name>…</name><arguments>…</arguments></tool_call>`.
pub open spec fn spec_xml(raw: Seq<char>, src: JsonSourceV) -> Seq<CallV> {
    let rb = encode_utf8(raw);
    group_calls(rb, regex_matches(xml_pattern(), rb), src)
}

/// The calls written as `TOOL: name ARGS: {…}` lines, else as
/// `[tool]name[/tool][args]{…}[/args]` tags.
pub open spec fn spec_lines(raw: Seq<char>, src: JsonSourceV) -> Seq<CallV> {
    let rb = encode_utf8(raw);
    let l = group_calls(rb, regex_matches(line_pattern(), rb), src);
    if l.len() > 0 {
        l
    } else {
        group_calls(rb, regex_matches(bracket_pattern(), rb), src)
    }
}

pub fn xml_calls(raw: &str, src: &JsonSource) -> (r: Vec<(String, Json)>)
    ensures
        call_views(r@) == spec_xml(raw@, src@),
{
    group_calls_exec(
        r"(?is)<tool_call>\s*<name>\s*([^<]+?)\s*</name>\s*(?:<arguments>\s*(.*?)\s*</arguments>)?\s*</tool_call>",
        raw.as_bytes(),
        src,
    )
}

pub fn line_calls(raw: &str, src: &JsonSource) -> (r: Vec<(String, Json)>)
    ensures
        call_views(r@) == spec_lines(raw@, src@),
{
    let l = group_calls_exec(
        r"(?im)^(?:TOOL|CALL|工具)\s*[:：]\s*([\w.-]+)\s*(?:ARGS|args|参数)\s*[:：]\s*(\{.*\})$",
        raw.as_bytes(),
        src,
    );
    if l.len() > 0 {
        return l;
    }
    group_calls_exec(
        r"(?i)\[tool\]\s*([\w.-]+?)\s*\[/tool\](?:\s*\[args\]\s*(\{.*?\})\s*\[/args\])?",
        raw.as_bytes(),
        src,
    )
}

// ---------------------------------------------------------------------------
// Scanning for known tool names
// ---------------------------------------------------------------------------

/// A character that can continue a tool name (`char::is_alphanumeric`, `_`
/// or `.`).
pub open spec fn name_char(c: char) -> bool {
    unicode_alphanumeric(c) || c == '_' || c == '.'
}

fn name_char_exec(c: char) -> (r: bool)
    ensures
        r == name_char(c),
{
    is_alphanumeric(c) || c == '_' || c == '.'
}

/// An occurrence of a name of length `n` at `i` that is not part of a longer
/// identifier: no name character right before or right after it.
pub open spec fn clean_at(s: Seq<char>, n: int, i: int) -> bool {
    (i == 0 || !name_char(s[i - 1])) && (i + n >= s.len() || !name_char(s[i + n]))
}

/// Where the first clean occurrence of `name` lies, looking at the
/// occurrences from `i` on that start no earlier than `allowed`; after an
/// occurrence that is not clean the search resumes past its end.
pub open spec fn scan(s: Seq<char>, name: Seq<char>, i: int, allowed: int) -> Option<int>
    decreases s.len() + 1 - i,
{
    if i < 0 || i > s.len() {
        None
    } else if i >= allowed && crate::text::occurs_at(s, name, i) {
        if clean_at(s, name.len() as int, i) {
            Some(i)
        } else {
            scan(s, name, i + 1, i + name.len())
        }
    } else {
        scan(s, name, i + 1, allowed)
    }
}

fn scan_exec(s: &[char], name: &[char]) -> (r: Option<usize>)
    ensures
        match r {
            Some(i) => scan(s@, name@, 0, 0) == Some(i as int) && i + name@.len() <= s@.len(),
            None => scan(s@, name@, 0, 0) is None,
        },
{
    let n = s.len();
    let mut i: usize = 0;
    let mut allowed: usize = 0;
    loop
        invariant
            n == s@.len(),
            i <= n,
            scan(s@, name@, 0, 0) == scan(s@, name@, i as int, allowed as int),
        decreases n - i,
    {
        let ghost was = allowed;
        if i >= allowed && crate::text::matches_at(s, name, i) {
            let before = i == 0 || !name_char_exec(s[i - 1]);
            let after = i + name.len() >= n || !name_char_exec(s[i + name.len()]);
            if before && after {
                return Some(i);
            }
            allowed = i + name.len();
        }
        proof {
            assert(scan(s@, name@, i as int, was as int) == scan(s@, name@, i + 1, allowed as int));
        }
        if i == n {
            return None;
        }
        i = i + 1;
    }
}

/// The UTF-8 width of a character.
pub open spec fn char_width(c: char) -> nat {
    if (c as u32) < 0x80 {
        1
    } else if (c as u32) < 0x800 {
        2
    } else if (c as u32) < 0x10000 {
        3
    } else {
        4
    }
}

/// The length of `s` in UTF-8, in bytes.
pub open spec fn utf8_len(s: Seq<char>) -> nat
    decreases s.len(),
{
    if s.len() == 0 {
        0
    } else {
        utf8_len(s.drop_last()) + char_width(s.last())
    }
}

proof fn lemma_encode_push(s: Seq<char>, c: char)
    ensures
        encode_utf8(s.push(c)).len() == encode_utf8(s).len() + encode_utf8(seq![c]).len(),
    decreases s.len(),
{
    if s.len() > 0 {
        lemma_encode_push(s.drop_first(), c);
        assert(s.push(c).drop_first() =~= s.drop_first().push(c));
    } else {
        assert(s.push(c) =~= seq![c]);
    }
}

/// `utf8_len` is the length of the UTF-8 encoding.
pub proof fn lemma_utf8_len_is_byte_length(s: Seq<char>)
    ensures
        utf8_len(s) == encode_utf8(s).len(),
    decreases s.len(),
{
    if s.len() > 0 {
        let c = s.last();
        lemma_utf8_len_is_byte_length(s.drop_last());
        lemma_encode_push(s.drop_last(), c);
        assert(s.drop_last().push(c) =~= s);
        vstd::utf8::char_is_scalar(c);
        assert(seq![c].drop_first() =~= Seq::<char>::empty());
        let v = c as u32;
        assert(encode_utf8(seq![c]) =~= vstd::utf8::encode_scalar(v) + encode_utf8(Seq::<char>::empty()));
        assert(encode_utf8(Seq::<char>::empty()).len() == 0);
        if v < 0x80 {
            assert(vstd::utf8::has_width_1_encoding(v));
        } else if v < 0x800 {
            assert(vstd::utf8::has_width_2_encoding(v));
        } else if v < 0x10000 {
            assert(vstd::utf8::has_width_3_encoding(v));
        } else {
            assert(vstd::utf8::has_width_4_encoding(v));
        }
        assert(encode_utf8(seq![c]).len() == char_width(c));
    }
}

proof fn lemma_utf8_len_grows(s: Seq<char>, i: int, j: int)
    requires
        0 <= i <= j <= s.len(),
    ensures
        utf8_len(s.subrange(0, i)) <= utf8_len(s.subrange(0, j)),
    decreases j - i,
{
    if i < j {
        lemma_utf8_len_grows(s, i, j - 1);
        assert(s.subrange(0, j).drop_last() =~= s.subrange(0, j - 1));
    }
}

/// Whether the first `n` characters of `s` take at most `cap` bytes.
fn utf8_len_within(s: &[char], n: usize, cap: usize) -> (r: bool)
    requires
        n <= s@.len(),
        cap <= 1000,
    ensures
        r == (utf8_len(s@.subrange(0, n as int)) <= cap),
{
    let mut total: usize = 0;
    let mut i: usize = 0;
    while i < n
        invariant
            i <= n,
            n <= s@.len(),
            cap <= 1000,
            total == utf8_len(s@.subrange(0, i as int)),
            total <= cap,
        decreases n - i,
    {
        let v: u32 = s[i] as u32;
        let w: usize = if v < 0x80 {
            1
        } else if v < 0x800 {
            2
        } else if v < 0x10000 {
            3
        } else {
            4
        };
        proof {
            assert(s@.subrange(0, i + 1).drop_last() =~= s@.subrange(0, i as int));
            assert(s@.subrange(0, i + 1).last() == s@[i as int]);
        }
        if total + w > cap {
            proof {
                lemma_utf8_len_grows(s@, i + 1, n as int);
            }
            return false;
        }
        total = total + w;
        i = i + 1;
    }
    true
}

/// How far after a name its JSON arguments may begin, in bytes.
pub const SCAN_ARG_WINDOW: usize = 200;

/// The call that a clean mention of `name` makes: the outermost `{…}` after
/// it, when it opens within the window; a mention without one is no call.
pub open spec fn greedy_call(s: Seq<char>, name: Seq<char>, src: JsonSourceV) -> Option<CallV> {
    match scan(s, name, 0, 0) {
        Some(i) => {
            let tail = s.subrange(i + name.len(), s.len() as int);
            match outer_span(tail, '{', '}') {
                Some((a, b)) => if utf8_len(tail.subrange(0, a)) <= SCAN_ARG_WINDOW {
                    Some((name, spec_coerce(JsonV::Str(spec_trim(tail.subrange(a, b + 1))), src)))
                } else {
                    None
                },
                None => None,
            }
        },
        None => None,
    }
}

/// The calls found by scanning for each known name in turn.
pub open spec fn spec_greedy(raw: Seq<char>, known: Seq<Seq<char>>, src: JsonSourceV) -> Seq<
    CallV,
>
    decreases known.len(),
{
    if known.len() == 0 {
        Seq::empty()
    } else {
        let prev = spec_greedy(raw, known.drop_last(), src);
        match greedy_call(raw, known.last(), src) {
            Some(c) => prev.push(c),
            None => prev,
        }
    }
}

fn sub_chars(s: &[char], a: usize, b: usize) -> (r: Vec<char>)
    requires
        a <= b <= s@.len(),
    ensures
        r@ == s@.subrange(a as int, b as int),
{
    let mut out: Vec<char> = Vec::new();
    let mut i: usize = a;
    while i < b
        invariant
            a <= i <= b,
            b <= s@.len(),
            out@ == s@.subrange(a as int, i as int),
        decreases b - i,
    {
        out.push(s[i]);
        i = i + 1;
        assert(out@ =~= s@.subrange(a as int, i as int));
    }
    out
}

fn greedy_call_exec(s: &[char], name: &[char], src: &JsonSource) -> (r: Option<(String, Json)>)
    ensures
        match r {
            Some(c) => greedy_call(s@, name@, src@) == Some((c.0@, c.1@)),
            None => greedy_call(s@, name@, src@) is None,
        },
{
    let i = match scan_exec(s, name) {
        Some(i) => i,
        None => {
            return None;
        },
    };
    let n = s.len();
    let tail = sub_chars(s, i + name.len(), n);
    let t = tail.len();
    match outer_span_exec(&tail, '{', '}') {
        Some((a, b)) => {
            if utf8_len_within(&tail, a, SCAN_ARG_WINDOW) {
                assert(b < t);
                let piece = trim(&sub_chars(&tail, a, b + 1));
                let args = coerce(Json::Str(string_of(&piece)), src);
                Some((string_of(name), args))
            } else {
                None
            }
        },
        None => None,
    }
}

pub open spec fn char_views(v: Seq<Vec<char>>) -> Seq<Seq<char>> {
    v.map_values(|x: Vec<char>| x@)
}

fn greedy(s: &[char], known: &Vec<Vec<char>>, src: &JsonSource) -> (r: Vec<(String, Json)>)
    ensures
        call_views(r@) == spec_greedy(s@, char_views(known@), src@),
{
    let ghost kv = char_views(known@);
    let mut out: Vec<(String, Json)> = Vec::new();
    let mut i: usize = 0;
    proof {
        assert(kv.subrange(0, 0).len() == 0);
        assert(call_views(out@) =~= spec_greedy(s@, kv.subrange(0, 0), src@));
    }
    while i < known.len()
        invariant
            i <= known@.len(),
            kv == char_views(known@),
            kv.len() == known@.len(),
            call_views(out@) == spec_greedy(s@, kv.subrange(0, i as int), src@),
        decreases known.len() - i,
    {
        proof {
            assert(kv.subrange(0, i + 1).drop_last() =~= kv.subrange(0, i as int));
            assert(kv.subrange(0, i + 1).last() == known@[i as int]@);
        }
        match greedy_call_exec(s, &known[i], src) {
            Some(c) => {
                let ghost before = out@;
                out.push(c);
                proof {
                    assert(call_views(out@) =~= call_views(before).push((out@.last().0@, out@.last().1@)));
                }
            },
            None => {},
        }
        i = i + 1;
    }
    proof {
        assert(kv.subrange(0, known@.len() as int) =~= kv);
    }
    out
}

// ---------------------------------------------------------------------------
// Known and unknown tools
// ---------------------------------------------------------------------------

/// The calls kept (of known tools with object arguments), the known-tool
/// calls whose arguments are not an object, and the warnings about unknown
/// tools.
pub struct SortedView {
    pub calls: Seq<ToolCallView>,
    pub invalid: Seq<InvalidToolCallView>,
    pub warnings: Seq<Seq<char>>,
}

pub open spec fn call_id(index: nat) -> Seq<char> {
    "manual-call-"@ + spec_decimal(index + 1)
}

pub open spec fn unknown_tool_warning(name: Seq<char>) -> Seq<char> {
    "忽略未知工具: "@ + name
}

pub open spec fn not_object_reason() -> Seq<char> {
    "tool arguments are not a JSON object"@
}

/// Sorts the extracted calls. Each call is numbered by its place among all
/// extracted calls; a call whose name is empty once trimmed is dropped; an
/// unknown name is dropped with a warning; the arguments are made an object
/// once more, and a call whose arguments still are not one is invalid.
pub open spec fn spec_filter(calls: Seq<CallV>, known: Seq<Seq<char>>, src: JsonSourceV) -> SortedView
    decreases calls.len(),
{
    if calls.len() == 0 {
        SortedView { calls: Seq::empty(), invalid: Seq::empty(), warnings: Seq::empty() }
    } else {
        let acc = spec_filter(calls.drop_last(), known, src);
        let id = call_id((calls.len() - 1) as nat);
        let name = spec_trim(calls.last().0);
        if name.len() == 0 {
            acc
        } else if !known.contains(name) {
            SortedView {
                calls: acc.calls,
                invalid: acc.invalid,
                warnings: acc.warnings.push(unknown_tool_warning(name)),
            }
        } else {
            match spec_coerce(calls.last().1, src) {
                JsonV::Object(m) => SortedView {
                    calls: acc.calls.push(
                        ToolCallView { id: id, name: name, arguments: JsonV::Object(m) },
                    ),
                    invalid: acc.invalid,
                    warnings: acc.warnings,
                },
                _ => SortedView {
                    calls: acc.calls,
                    invalid: acc.invalid.push(
                        InvalidToolCallView { id: id, name: name, reason: not_object_reason() },
                    ),
                    warnings: acc.warnings,
                },
            }
        }
    }
}

fn known_contains(known: &Vec<Vec<char>>, name: &[char]) -> (r: bool)
    ensures
        r == char_views(known@).contains(name@),
{
    let ghost kv = char_views(known@);
    let mut i: usize = 0;
    while i < known.len()
        invariant
            i <= known@.len(),
            kv == char_views(known@),
            kv.len() == known@.len(),
            forall|j: int| 0 <= j < i ==> kv[j] != name@,
        decreases known.len() - i,
    {
        if crate::text::same_chars(&known[i], name) {
            assert(kv[i as int] == name@);
            return true;
        }
        i = i + 1;
    }
    false
}

pub open spec fn tool_call_views(v: Seq<ToolCall>) -> Seq<ToolCallView> {
    v.map_values(|c: ToolCall| c@)
}

pub open spec fn invalid_views(v: Seq<InvalidToolCall>) -> Seq<InvalidToolCallView> {
    v.map_values(|c: InvalidToolCall| c@)
}

fn filter_known(calls: &Vec<(String, Json)>, known: &Vec<Vec<char>>, src: &JsonSource) -> (r: (
    Vec<ToolCall>,
    Vec<InvalidToolCall>,
    Vec<String>,
))
    ensures
        ({
            let f = spec_filter(call_views(calls@), char_views(known@), src@);
            &&& tool_call_views(r.0@) == f.calls
            &&& invalid_views(r.1@) == f.invalid
            &&& string_views(r.2@) == f.warnings
        }),
{
    let ghost cv = call_views(calls@);
    let ghost kv = char_views(known@);
    let mut tool_calls: Vec<ToolCall> = Vec::new();
    let mut invalid: Vec<InvalidToolCall> = Vec::new();
    let mut warnings: Vec<String> = Vec::new();
    let mut i: usize = 0;
    proof {
        assert(cv.subrange(0, 0).len() == 0);
        let f0 = spec_filter(cv.subrange(0, 0), kv, src@);
        assert(tool_call_views(tool_calls@) =~= f0.calls);
        assert(invalid_views(invalid@) =~= f0.invalid);
        assert(string_views(warnings@) =~= f0.warnings);
    }
    while i < calls.len()
        invariant
            i <= calls@.len(),
            cv == call_views(calls@),
            cv.len() == calls@.len(),
            kv == char_views(known@),
            tool_call_views(tool_calls@) == spec_filter(cv.subrange(0, i as int), kv, src@).calls,
            invalid_views(invalid@) == spec_filter(cv.subrange(0, i as int), kv, src@).invalid,
            string_views(warnings@) == spec_filter(cv.subrange(0, i as int), kv, src@).warnings,
        decreases calls.len() - i,
    {
        let ghost pre = cv.subrange(0, i + 1);
        proof {
            assert(pre.drop_last() =~= cv.subrange(0, i as int));
            assert(pre.last() == (calls@[i as int].0@, calls@[i as int].1@));
        }
        let name = trim(&chars_of(calls[i].0.as_str()));
        if name.len() > 0 {
            if !known_contains(known, &name) {
                let mut w: Vec<char> = Vec::new();
                crate::text::push_str(&mut w, "忽略未知工具: ");
                crate::text::push_all(&mut w, &name);
                let ghost before = warnings@;
                warnings.push(string_of(&w));
                proof {
                    assert(string_views(warnings@) =~= string_views(before).push(w@));
                }
            } else {
                let mut id: Vec<char> = Vec::new();
                crate::text::push_str(&mut id, "manual-call-");
                crate::text::push_all(&mut id, &crate::text::decimal(i + 1));
                let args = coerce(calls[i].1.copy(), src);
                match args {
                    Json::Object(m) => {
                        let ghost before = tool_calls@;
                        tool_calls.push(
                            ToolCall { id: string_of(&id), name: string_of(&name), arguments: Json::Object(m) },
                        );
                        proof {
                            assert(tool_call_views(tool_calls@) =~= tool_call_views(before).push(tool_calls@.last()@));
                        }
                    },
                    _ => {
                        let ghost before = invalid@;
                        invalid.push(
                            InvalidToolCall {
                                id: string_of(&id),
                                name: string_of(&name),
                                reason: "tool arguments are not a JSON object".to_owned(),
                            },
                        );
                        proof {
                            assert(invalid_views(invalid@) =~= invalid_views(before).push(invalid@.last()@));
                        }
                    },
                }
            }
        }
        i = i + 1;
    }
    proof {
        assert(cv.subrange(0, calls@.len() as int) =~= cv);
    }
    (tool_calls, invalid, warnings)
}

// ---------------------------------------------------------------------------
// The narrative
// ---------------------------------------------------------------------------

pub open spec fn fence_block_pattern() -> Seq<char> {
    r"(?s)```(?:json)?\s*.*?```"@
}

pub open spec fn tool_tag_pattern() -> Seq<char> {
    r"(?is)<tool_call>.*?</tool_call>"@
}

pub open spec fn tool_line_pattern() -> Seq<char> {
    r"(?im)^(?:TOOL|CALL|工具)\s*[:：].*$"@
}

/// The prose of an answer: fenced blocks, `<tool_call>` tags and tool lines
/// each replaced by a space, then the words joined by single spaces.
pub open spec fn spec_narrative(raw: Seq<char>) -> Seq<char> {
    let t1 = spec_replace_all(fence_block_pattern(), encode_utf8(raw), seq![32u8]);
    let t2 = spec_replace_all(tool_tag_pattern(), t1, seq![32u8]);
    let t3 = spec_replace_all(tool_line_pattern(), t2, seq![32u8]);
    spec_collapse_whitespace(utf8_lossy(t3))
}

fn narrative(raw: &str) -> (r: String)
    ensures
        r@ == spec_narrative(raw@),
{
    let sp: Vec<u8> = vec![32u8];
    assert(sp@ =~= seq![32u8]);
    let t1 = replace_all(r"(?s)```(?:json)?\s*.*?```", raw.as_bytes(), sp.as_slice());
    let t2 = replace_all(r"(?is)<tool_call>.*?</tool_call>", t1.as_slice(), sp.as_slice());
    let t3 = replace_all(r"(?im)^(?:TOOL|CALL|工具)\s*[:：].*$", t2.as_slice(), sp.as_slice());
    let text = decode_lossy(t3.as_slice());
    string_of(&collapse_whitespace(&chars_of(text.as_str())))
}

// ---------------------------------------------------------------------------
// The answer as a whole
// ---------------------------------------------------------------------------

/// What was read from an answer: the text to show, the tool calls to run,
/// the known-tool calls with unusable arguments, and warnings.
#[derive(Debug)]
pub struct ParsedManualResponse {
    pub content: String,
    pub tool_calls: Vec<ToolCall>,
    pub invalid: Vec<InvalidToolCall>,
    pub warnings: Vec<String>,
}

pub struct ParsedView {
    pub content: Seq<char>,
    pub tool_calls: Seq<ToolCallView>,
    pub invalid: Seq<InvalidToolCallView>,
    pub warnings: Seq<Seq<char>>,
}

impl View for ParsedManualResponse {
    type V = ParsedView;

    open spec fn view(&self) -> ParsedView {
        ParsedView {
            content: self.content@,
            tool_calls: tool_call_views(self.tool_calls@),
            invalid: invalid_views(self.invalid@),
            warnings: string_views(self.warnings@),
        }
    }
}

pub open spec fn empty_answer_warning() -> Seq<char> {
    "人工回复为空，未执行任何操作"@
}

/// The names of the tools on offer.
pub open spec fn tool_names(ts: Seq<ToolSpec>) -> Seq<Seq<char>> {
    ts.map_values(|t: ToolSpec| t.name@)
}

/// The calls extracted by the first reading that finds any: JSON, then
/// tags, then lines, then the scan for known names.
pub open spec fn spec_extract(raw: Seq<char>, known: Seq<Seq<char>>, src: JsonSourceV) -> Seq<CallV> {
    let s = spec_structured(raw, src);
    let x = spec_xml(raw, src);
    let l = spec_lines(raw, src);
    if s.len() > 0 {
        s
    } else if x.len() > 0 {
        x
    } else if l.len() > 0 {
        l
    } else {
        spec_greedy(raw, known, src)
    }
}

/// What an answer reads as. A blank answer runs nothing and says so. Else
/// the extracted calls are sorted; with no call to run the content is the
/// whole answer, trimmed, and otherwise its prose.
pub open spec fn spec_parse_manual(raw: Seq<char>, known: Seq<Seq<char>>, src: JsonSourceV) -> ParsedView {
    if spec_trim(raw).len() == 0 {
        ParsedView {
            content: Seq::empty(),
            tool_calls: Seq::empty(),
            invalid: Seq::empty(),
            warnings: seq![empty_answer_warning()],
        }
    } else {
        let f = spec_filter(spec_extract(raw, known, src), known, src);
        ParsedView {
            content: if f.calls.len() == 0 {
                spec_trim(raw)
            } else {
                spec_narrative(raw)
            },
            tool_calls: f.calls,
            invalid: f.invalid,
            warnings: f.warnings,
        }
    }
}

/// Reading the answer comes to an end. It does unless every reading before
/// the scan finds nothing, a tool's name is empty and the answer, not blank,
/// begins with a name character: the scan then finds the empty name at the
/// start again and again.
pub open spec fn reading_ends(raw: Seq<char>, known: Seq<Seq<char>>, src: JsonSourceV) -> bool {
    ||| spec_trim(raw).len() == 0
    ||| spec_structured(raw, src).len() > 0
    ||| spec_xml(raw, src).len() > 0
    ||| spec_lines(raw, src).len() > 0
    ||| !(exists|k: int| 0 <= k < known.len() && #[trigger] known[k].len() == 0)
    ||| !name_char(raw[0])
}

fn names_of(tools: &[ToolSpec]) -> (r: Vec<Vec<char>>)
    ensures
        char_views(r@) == tool_names(tools@),
{
    let mut known: Vec<Vec<char>> = Vec::new();
    let mut k: usize = 0;
    while k < tools.len()
        invariant
            k <= tools@.len(),
            char_views(known@) == tool_names(tools@).subrange(0, k as int),
        decreases tools.len() - k,
    {
        let ghost before = known@;
        known.push(chars_of(tools[k].name.as_str()));
        proof {
            assert(char_views(known@) =~= char_views(before).push(tools@[k as int].name@));
            assert(tool_names(tools@).subrange(0, k + 1) =~= tool_names(tools@).subrange(0, k as int).push(tools@[k as int].name@));
        }
        k = k + 1;
    }
    proof {
        assert(tool_names(tools@).subrange(0, tools@.len() as int) =~= tool_names(tools@));
    }
    known
}

fn parse_with(raw: &str, tools: &[ToolSpec], src: &JsonSource) -> (r: ParsedManualResponse)
    requires
        reading_ends(raw@, tool_names(tools@), src@),
    ensures
        r@ == spec_parse_manual(raw@, tool_names(tools@), src@),
{
    let rc = chars_of(raw);
    let tr = trim(&rc);
    if tr.len() == 0 {
        let warnings = vec!["人工回复为空，未执行任何操作".to_owned()];
        let r = ParsedManualResponse {
            content: String::new(),
            tool_calls: Vec::new(),
            invalid: Vec::new(),
            warnings: warnings,
        };
        proof {
            assert(r@.tool_calls =~= Seq::<ToolCallView>::empty());
            assert(r@.invalid =~= Seq::<InvalidToolCallView>::empty());
            assert(r@.warnings =~= seq![empty_answer_warning()]);
        }
        return r;
    }
    let known = names_of(tools);
    let mut extracted = structured(raw, src);
    if extracted.len() == 0 {
        extracted = xml_calls(raw, src);
    }
    if extracted.len() == 0 {
        extracted = line_calls(raw, src);
    }
    if extracted.len() == 0 {
        extracted = greedy(&rc, &known, src);
    }
    let (tool_calls, invalid, warnings) = filter_known(&extracted, &known, src);
    let content = if tool_calls.len() == 0 {
        string_of(&tr)
    } else {
        narrative(raw)
    };
    ParsedManualResponse { content, tool_calls, invalid, warnings }
}

/// Reads a pasted answer: its tool calls, in the first shape that yields
/// any, and the text to show. Unknown tools are dropped with a warning;
/// calls whose arguments are not a JSON object are listed as invalid.
pub fn parse_manual_response(raw: &str, tools: &[ToolSpec]) -> (r: ParsedManualResponse)
    requires
        reading_ends(raw@, tool_names(tools@), JsonSourceV::Live),
    ensures
        r@ == spec_parse_manual(raw@, tool_names(tools@), JsonSourceV::Live),
{
    parse_with(raw, tools, &JsonSource::Live)
}

/// `parse_manual_response` where reading the answer comes to an end; none
/// where it would not (see `reading_ends`).
pub fn try_parse_manual_response(raw: &str, tools: &[ToolSpec]) -> (r: Option<ParsedManualResponse>)
    ensures
        r is None <==> !reading_ends(raw@, tool_names(tools@), JsonSourceV::Live),
        r matches Some(p) ==> p@ == spec_parse_manual(raw@, tool_names(tools@), JsonSourceV::Live),
{
    if answer_ends(raw, tools, &JsonSource::Live) {
        Some(parse_manual_response(raw, tools))
    } else {
        None
    }
}

/// The same reading with the JSON parses supplied: `parsed` lists texts
/// with what each parses to (none for a text that is not JSON); a text that
/// it does not list counts as not JSON. None where reading would not end.
pub fn parse_manual_response_given(
    raw: &str,
    tools: &[ToolSpec],
    parsed: &[(String, Option<Json>)],
) -> (r: Option<ParsedManualResponse>)
    ensures
        r is None <==> !reading_ends(raw@, tool_names(tools@), JsonSourceV::Given(table_view(parsed@))),
        r matches Some(p) ==> p@ == spec_parse_manual(
            raw@,
            tool_names(tools@),
            JsonSourceV::Given(table_view(parsed@)),
        ),
{
    let src = JsonSource::Given(parsed);
    if answer_ends(raw, tools, &src) {
        Some(parse_with(raw, tools, &src))
    } else {
        None
    }
}

fn answer_ends(raw: &str, tools: &[ToolSpec], src: &JsonSource) -> (r: bool)
    ensures
        r == reading_ends(raw@, tool_names(tools@), src@),
{
    let rc = chars_of(raw);
    if trim(&rc).len() == 0 {
        return true;
    }
    if structured(raw, src).len() > 0 || xml_calls(raw, src).len() > 0 || line_calls(raw, src).len() > 0 {
        return true;
    }
    let mut k: usize = 0;
    let mut empty_name = false;
    while k < tools.len()
        invariant
            k <= tools@.len(),
            empty_name == (exists|j: int| 0 <= j < k && #[trigger] tool_names(tools@)[j].len() == 0),
        decreases tools.len() - k,
    {
        if tools[k].name.as_str().is_empty() {
            assert(tool_names(tools@)[k as int].len() == 0);
            empty_name = true;
        }
        k = k + 1;
    }
    if !empty_name {
        return true;
    }
    proof {
        crate::text::lemma_trim_nonempty(rc@);
    }
    !name_char_exec(rc[0])
}

proof fn lemma_filter_known(calls: Seq<CallV>, known: Seq<Seq<char>>, src: JsonSourceV)
    ensures
        ({
            let f = spec_filter(calls, known, src);
            &&& forall|i: int|
                0 <= i < f.calls.len() ==> known.contains(#[trigger] f.calls[i].name)
                    && f.calls[i].arguments is Object
            &&& forall|i: int| 0 <= i < f.invalid.len() ==> known.contains(#[trigger] f.invalid[i].name)
        }),
    decreases calls.len(),
{
    if calls.len() > 0 {
        let acc = spec_filter(calls.drop_last(), known, src);
        let f = spec_filter(calls, known, src);
        lemma_filter_known(calls.drop_last(), known, src);
        let name = spec_trim(calls.last().0);
        let grew = name.len() > 0 && known.contains(name);
        assert(f.calls.len() > acc.calls.len() ==> grew && f.calls.last().name == name
            && f.calls.last().arguments is Object);
        assert(f.invalid.len() > acc.invalid.len() ==> grew && f.invalid.last().name == name);
        assert forall|i: int| 0 <= i < f.calls.len() implies known.contains(
            #[trigger] f.calls[i].name,
        ) && f.calls[i].arguments is Object by {
            if i < acc.calls.len() {
                assert(f.calls[i] == acc.calls[i]);
            } else {
                assert(f.calls[i] == f.calls.last());
            }
        }
        assert forall|i: int| 0 <= i < f.invalid.len() implies known.contains(
            #[trigger] f.invalid[i].name,
        ) by {
            if i < acc.invalid.len() {
                assert(f.invalid[i] == acc.invalid[i]);
            } else {
                assert(f.invalid[i] == f.invalid.last());
            }
        }
    }
}

/// Every call that an answer is read to make names one of the tools on
/// offer and carries a JSON object as its arguments; every call listed as
/// invalid names a tool on offer too. Calls of unknown tools never get
/// through.
pub proof fn lemma_calls_name_offered_tools(raw: Seq<char>, known: Seq<Seq<char>>, src: JsonSourceV)
    ensures
        ({
            let p = spec_parse_manual(raw, known, src);
            &&& forall|i: int|
                0 <= i < p.tool_calls.len() ==> known.contains(#[trigger] p.tool_calls[i].name)
                    && p.tool_calls[i].arguments is Object
            &&& forall|i: int| 0 <= i < p.invalid.len() ==> known.contains(#[trigger] p.invalid[i].name)
        }),
{
    if spec_trim(raw).len() > 0 {
        lemma_filter_known(spec_extract(raw, known, src), known, src);
    }
}

} // verus!
