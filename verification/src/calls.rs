//! Reading tool calls out of a decoded JSON answer: the shapes in which chat
//! services write function calls, and the normalising of their arguments.

use vstd::prelude::*;
use crate::apis::parsed_or_none;
use crate::bridge::{chars_of, json_parse, parse_json, string_of};
use crate::json::{
    json_array, json_get, json_str, json_view, json_views, lemma_json_views, str_or_empty, Json,
    JsonV,
};
use crate::text::{same_chars, spec_trim, trim};

verus! {

/// Where the parse of a JSON text comes from: `serde_json` itself, or a
/// table of texts with their parses supplied by the caller, in which a text
/// that is not listed counts as not JSON.
pub enum JsonSource<'a> {
    Live,
    Given(&'a [(String, Option<Json>)]),
}

pub enum JsonSourceV {
    Live,
    Given(Seq<(Seq<char>, Option<JsonV>)>),
}

pub open spec fn opt_json(o: Option<Json>) -> Option<JsonV> {
    match o {
        Some(j) => Some(j@),
        None => None,
    }
}

pub open spec fn table_view(t: Seq<(String, Option<Json>)>) -> Seq<(Seq<char>, Option<JsonV>)> {
    t.map_values(|e: (String, Option<Json>)| (e.0@, opt_json(e.1)))
}

impl<'a> View for JsonSource<'a> {
    type V = JsonSourceV;

    open spec fn view(&self) -> JsonSourceV {
        match self {
            JsonSource::Live => JsonSourceV::Live,
            JsonSource::Given(t) => JsonSourceV::Given(table_view(t@)),
        }
    }
}

/// The parse listed first for `text` in a table; none when it is not listed.
pub open spec fn given_lookup(tab: Seq<(Seq<char>, Option<JsonV>)>, text: Seq<char>) -> Option<
    JsonV,
>
    decreases tab.len(),
{
    if tab.len() == 0 {
        None
    } else if tab[0].0 == text {
        tab[0].1
    } else {
        given_lookup(tab.drop_first(), text)
    }
}

/// The JSON value that `text` parses to, if it is JSON.
pub open spec fn look(src: JsonSourceV, text: Seq<char>) -> Option<JsonV> {
    match src {
        JsonSourceV::Live => parsed_or_none(json_parse(text)),
        JsonSourceV::Given(tab) => given_lookup(tab, text),
    }
}

/// Parses `text` as JSON.
pub fn decode(src: &JsonSource, text: &str) -> (r: Option<Json>)
    ensures
        opt_json(r) == look(src@, text@),
{
    match src {
        JsonSource::Live => match parse_json(text) {
            Ok(v) => Some(v),
            Err(_) => None,
        },
        JsonSource::Given(tab) => {
            let t = chars_of(text);
            let ghost tv = table_view(tab@);
            let mut i: usize = 0;
            proof {
                assert(tv.subrange(0, tab@.len() as int) =~= tv);
            }
            while i < tab.len()
                invariant
                    i <= tab@.len(),
                    t@ == text@,
                    tv == table_view(tab@),
                    tv.len() == tab@.len(),
                    look(src@, text@) == given_lookup(tv.subrange(i as int, tab@.len() as int), text@),
                decreases tab.len() - i,
            {
                let ghost rest = tv.subrange(i as int, tab@.len() as int);
                proof {
                    assert(rest[0] == tv[i as int]);
                    assert(rest.drop_first() =~= tv.subrange(i + 1, tab@.len() as int));
                }
                let name = chars_of(tab[i].0.as_str());
                if same_chars(&name, &t) {
                    return match &tab[i].1 {
                        Some(j) => Some(j.copy()),
                        None => None,
                    };
                }
                i = i + 1;
            }
            None
        },
    }
}

/// `{}`.
pub open spec fn empty_object() -> JsonV {
    JsonV::Object(Seq::empty())
}

pub fn empty_obj() -> (r: Json)
    ensures
        r@ == empty_object(),
{
    let r = Json::Object(Vec::new());
    proof {
        assert(r@ == JsonV::Object(crate::json::member_views(Seq::<(String, Json)>::empty())));
        assert(crate::json::member_views(Seq::<(String, Json)>::empty()) =~= Seq::empty());
    }
    r
}

/// Arguments made a JSON object where they can be: an object stays as it
/// is; a blank text becomes `{}`; another text is replaced by what it
/// parses to once trimmed, and stays as it is when it is not JSON, so that
/// the call is later listed as invalid; anything else becomes `{}`.
pub open spec fn spec_coerce(args: JsonV, src: JsonSourceV) -> JsonV {
    match args {
        JsonV::Object(_) => args,
        JsonV::Str(t) => if spec_trim(t).len() == 0 {
            empty_object()
        } else {
            match look(src, spec_trim(t)) {
                Some(v) => v,
                None => args,
            }
        },
        _ => empty_object(),
    }
}

pub fn coerce(args: Json, src: &JsonSource) -> (r: Json)
    ensures
        r@ == spec_coerce(args@, src@),
{
    match args {
        Json::Object(m) => Json::Object(m),
        Json::Str(t) => {
            let tc = trim(&chars_of(t.as_str()));
            if tc.len() == 0 {
                return empty_obj();
            }
            let tt = string_of(&tc);
            match decode(src, tt.as_str()) {
                Some(v) => v,
                None => Json::Str(t),
            }
        },
        _ => empty_obj(),
    }
}

/// A tool call read from JSON: the tool's name and its arguments.
pub type CallV = (Seq<char>, JsonV);

pub open spec fn call_views(c: Seq<(String, Json)>) -> Seq<CallV> {
    c.map_values(|e: (String, Json)| (e.0@, e.1@))
}

pub open spec fn arg_or_empty(a: Option<JsonV>) -> JsonV {
    match a {
        Some(v) => v,
        None => empty_object(),
    }
}

/// The name that a call object gives: the first of `name`, `tool_name` and
/// `tool` that is a text, else the `name` of a `tool_call` object.
pub open spec fn call_name(o: JsonV) -> Option<Seq<char>> {
    match json_str(json_get(o, "name"@)) {
        Some(s) => Some(s),
        None => match json_str(json_get(o, "tool_name"@)) {
            Some(s) => Some(s),
            None => match json_str(json_get(o, "tool"@)) {
                Some(s) => Some(s),
                None => match json_get(o, "tool_call"@) {
                    Some(JsonV::Object(m)) => json_str(json_get(JsonV::Object(m), "name"@)),
                    _ => None,
                },
            },
        },
    }
}

/// The arguments that a call object gives: the first of `arguments`,
/// `args`, `parameters`, `input` and `params` that is present.
pub open spec fn call_args(o: JsonV) -> Option<JsonV> {
    match json_get(o, "arguments"@) {
        Some(v) => Some(v),
        None => match json_get(o, "args"@) {
            Some(v) => Some(v),
            None => match json_get(o, "parameters"@) {
                Some(v) => Some(v),
                None => match json_get(o, "input"@) {
                    Some(v) => Some(v),
                    None => json_get(o, "params"@),
                },
            },
        },
    }
}

/// The call that one object describes: a nested `function` object (name and
/// arguments), else a name and arguments at the top; none without a name.
pub open spec fn spec_from_map(o: JsonV, src: JsonSourceV) -> Option<CallV> {
    match json_get(o, "function"@) {
        Some(JsonV::Object(fm)) => {
            let f = JsonV::Object(fm);
            let name = str_or_empty(json_get(f, "name"@));
            if name.len() == 0 {
                None
            } else {
                Some((name, spec_coerce(arg_or_empty(json_get(f, "arguments"@)), src)))
            }
        },
        _ => {
            let name = match call_name(o) {
                Some(s) => s,
                None => Seq::empty(),
            };
            if name.len() == 0 {
                None
            } else {
                Some((name, spec_coerce(arg_or_empty(call_args(o)), src)))
            }
        },
    }
}

fn str_member(o: &Json, key: &str) -> (r: Option<String>)
    ensures
        match r {
            Some(s) => json_str(json_get(o@, key@)) == Some(s@),
            None => json_str(json_get(o@, key@)) is None,
        },
{
    match o.get(key) {
        Some(v) => match v.as_str() {
            Some(s) => Some(s.to_owned()),
            None => None,
        },
        None => None,
    }
}

fn member_copy(o: &Json, key: &str) -> (r: Option<Json>)
    ensures
        opt_json(r) == json_get(o@, key@),
{
    match o.get(key) {
        Some(v) => Some(v.copy()),
        None => None,
    }
}

fn name_of(o: &Json) -> (r: Option<String>)
    ensures
        match r {
            Some(s) => call_name(o@) == Some(s@),
            None => call_name(o@) is None,
        },
{
    match str_member(o, "name") {
        Some(s) => Some(s),
        None => match str_member(o, "tool_name") {
            Some(s) => Some(s),
            None => match str_member(o, "tool") {
                Some(s) => Some(s),
                None => match o.get("tool_call") {
                    Some(tc) => match tc {
                        Json::Object(_) => str_member(tc, "name"),
                        _ => None,
                    },
                    None => None,
                },
            },
        },
    }
}

fn args_of(o: &Json) -> (r: Option<Json>)
    ensures
        opt_json(r) == call_args(o@),
{
    match member_copy(o, "arguments") {
        Some(v) => Some(v),
        None => match member_copy(o, "args") {
            Some(v) => Some(v),
            None => match member_copy(o, "parameters") {
                Some(v) => Some(v),
                None => match member_copy(o, "input") {
                    Some(v) => Some(v),
                    None => member_copy(o, "params"),
                },
            },
        },
    }
}

/// The call that the object `o` describes.
pub fn from_map(o: &Json, src: &JsonSource) -> (r: Option<(String, Json)>)
    ensures
        match r {
            Some(c) => spec_from_map(o@, src@) == Some((c.0@, c.1@)),
            None => spec_from_map(o@, src@) is None,
        },
{
    if let Some(f) = o.get("function") {
        if let Json::Object(_) = f {
            let name = match str_member(f, "name") {
                Some(s) => s,
                None => String::new(),
            };
            if name.as_str().is_empty() {
                return None;
            }
            let args = match member_copy(f, "arguments") {
                Some(a) => a,
                None => empty_obj(),
            };
            return Some((name, coerce(args, src)));
        }
    }
    let name = match name_of(o) {
        Some(s) => s,
        None => String::new(),
    };
    if name.as_str().is_empty() {
        return None;
    }
    let args = match args_of(o) {
        Some(a) => a,
        None => empty_obj(),
    };
    Some((name, coerce(args, src)))
}

/// The calls described by the objects among `items`, in order.
pub open spec fn spec_objects_calls(items: Seq<JsonV>, src: JsonSourceV) -> Seq<CallV>
    decreases items.len(),
{
    if items.len() == 0 {
        Seq::empty()
    } else {
        let prev = spec_objects_calls(items.drop_last(), src);
        match items.last() {
            JsonV::Object(_) => match spec_from_map(items.last(), src) {
                Some(c) => prev.push(c),
                None => prev,
            },
            _ => prev,
        }
    }
}

pub fn objects_calls(items: &Vec<Json>, src: &JsonSource) -> (r: Vec<(String, Json)>)
    ensures
        call_views(r@) == spec_objects_calls(json_views(items@), src@),
{
    let ghost vs = json_views(items@);
    proof {
        lemma_json_views(items@);
    }
    let mut out: Vec<(String, Json)> = Vec::new();
    let mut i: usize = 0;
    while i < items.len()
        invariant
            i <= items@.len(),
            vs == json_views(items@),
            vs.len() == items@.len(),
            forall|k: int| 0 <= k < items@.len() ==> #[trigger] vs[k] == json_view(items@[k]),
            call_views(out@) == spec_objects_calls(vs.subrange(0, i as int), src@),
        decreases items.len() - i,
    {
        let ghost pre = vs.subrange(0, i + 1);
        proof {
            assert(pre.drop_last() =~= vs.subrange(0, i as int));
            assert(pre.last() == items@[i as int]@);
        }
        let it = &items[i];
        if let Json::Object(_) = it {
            match from_map(it, src) {
                Some(c) => {
                    out.push(c);
                    proof {
                        assert(call_views(out@) =~= spec_objects_calls(
                            vs.subrange(0, i as int),
                            src@,
                        ).push(spec_from_map(pre.last(), src@)->0));
                    }
                },
                None => {},
            }
        }
        i = i + 1;
    }
    proof {
        assert(vs.subrange(0, items@.len() as int) =~= vs);
    }
    out
}

/// The calls listed under `key`, when it holds an array.
pub open spec fn spec_list_calls(v: JsonV, key: Seq<char>, src: JsonSourceV) -> Seq<CallV> {
    match json_array(json_get(v, key)) {
        Some(list) => spec_objects_calls(list, src),
        None => Seq::empty(),
    }
}

fn list_calls(v: &Json, key: &str, src: &JsonSource) -> (r: Vec<(String, Json)>)
    ensures
        call_views(r@) == spec_list_calls(v@, key@, src@),
{
    match v.get(key) {
        Some(l) => match l.as_array() {
            Some(items) => objects_calls(items, src),
            None => Vec::new(),
        },
        None => Vec::new(),
    }
}

/// The `function_call` entries of an `output` array, with their names and
/// arguments.
pub open spec fn spec_output_items(list: Seq<JsonV>, src: JsonSourceV) -> Seq<CallV>
    decreases list.len(),
{
    if list.len() == 0 {
        Seq::empty()
    } else {
        let prev = spec_output_items(list.drop_last(), src);
        let it = list.last();
        if json_str(json_get(it, "type"@)) == Some("function_call"@) {
            match json_str(json_get(it, "name"@)) {
                Some(n) => prev.push((n, spec_coerce(arg_or_empty(json_get(it, "arguments"@)), src))),
                None => prev,
            }
        } else {
            prev
        }
    }
}

pub open spec fn spec_output_calls(v: JsonV, src: JsonSourceV) -> Seq<CallV> {
    match json_array(json_get(v, "output"@)) {
        Some(list) => spec_output_items(list, src),
        None => Seq::empty(),
    }
}

fn is_function_call(it: &Json) -> (r: bool)
    ensures
        r == (json_str(json_get(it@, "type"@)) == Some("function_call"@)),
{
    match str_member(it, "type") {
        Some(t) => {
            let tc = chars_of(t.as_str());
            let want = chars_of("function_call");
            same_chars(&tc, &want)
        },
        None => false,
    }
}

fn output_calls(v: &Json, src: &JsonSource) -> (r: Vec<(String, Json)>)
    ensures
        call_views(r@) == spec_output_calls(v@, src@),
{
    let items = match v.get("output") {
        Some(l) => match l.as_array() {
            Some(items) => items,
            None => {
                return Vec::new();
            },
        },
        None => {
            return Vec::new();
        },
    };
    let ghost vs = json_views(items@);
    proof {
        lemma_json_views(items@);
    }
    let mut out: Vec<(String, Json)> = Vec::new();
    let mut i: usize = 0;
    while i < items.len()
        invariant
            i <= items@.len(),
            vs == json_views(items@),
            json_array(json_get(v@, "output"@)) == Some(vs),
            vs.len() == items@.len(),
            forall|k: int| 0 <= k < items@.len() ==> #[trigger] vs[k] == json_view(items@[k]),
            call_views(out@) == spec_output_items(vs.subrange(0, i as int), src@),
        decreases items.len() - i,
    {
        let ghost pre = vs.subrange(0, i + 1);
        proof {
            assert(pre.drop_last() =~= vs.subrange(0, i as int));
            assert(pre.last() == items@[i as int]@);
        }
        let it = &items[i];
        if is_function_call(it) {
            match str_member(it, "name") {
                Some(n) => {
                    let args = match member_copy(it, "arguments") {
                        Some(a) => a,
                        None => empty_obj(),
                    };
                    let c = coerce(args, src);
                    let ghost before = out@;
                    out.push((n, c));
                    proof {
                        assert(call_views(out@) =~= call_views(before).push(
                            (out@.last().0@, out@.last().1@),
                        ));
                    }
                },
                None => {},
            }
        }
        i = i + 1;
    }
    proof {
        assert(vs.subrange(0, items@.len() as int) =~= vs);
    }
    out
}

/// The calls that a decoded answer describes: each call object of an array;
/// for an object, the first non-empty of its `tool_calls`, `toolCalls`,
/// `function_calls` and `calls` lists, then of its `output` function calls,
/// then the object itself read as one call.
pub open spec fn spec_parse_decoded(v: JsonV, src: JsonSourceV) -> Seq<CallV> {
    match v {
        JsonV::Array(items) => spec_objects_calls(items, src),
        JsonV::Object(_) => {
            let a = spec_list_calls(v, "tool_calls"@, src);
            let b = spec_list_calls(v, "toolCalls"@, src);
            let c = spec_list_calls(v, "function_calls"@, src);
            let d = spec_list_calls(v, "calls"@, src);
            let o = spec_output_calls(v, src);
            if a.len() > 0 {
                a
            } else if b.len() > 0 {
                b
            } else if c.len() > 0 {
                c
            } else if d.len() > 0 {
                d
            } else if o.len() > 0 {
                o
            } else {
                match spec_from_map(v, src) {
                    Some(call) => seq![call],
                    None => Seq::empty(),
                }
            }
        },
        _ => Seq::empty(),
    }
}

pub fn parse_decoded(v: &Json, src: &JsonSource) -> (r: Vec<(String, Json)>)
    ensures
        call_views(r@) == spec_parse_decoded(v@, src@),
{
    match v {
        Json::Array(items) => objects_calls(items, src),
        Json::Object(_) => {
            let a = list_calls(v, "tool_calls", src);
            if a.len() > 0 {
                return a;
            }
            let b = list_calls(v, "toolCalls", src);
            if b.len() > 0 {
                return b;
            }
            let c = list_calls(v, "function_calls", src);
            if c.len() > 0 {
                return c;
            }
            let d = list_calls(v, "calls", src);
            if d.len() > 0 {
                return d;
            }
            let o = output_calls(v, src);
            if o.len() > 0 {
                return o;
            }
            match from_map(v, src) {
                Some(call) => {
                    let out = vec![call];
                    proof {
                        assert(call_views(out@) =~= seq![(out@[0].0@, out@[0].1@)]);
                    }
                    out
                },
                None => {
                    let out: Vec<(String, Json)> = Vec::new();
                    proof {
                        assert(call_views(out@) =~= Seq::<CallV>::empty());
                    }
                    out
                },
            }
        },
        _ => {
            let out: Vec<(String, Json)> = Vec::new();
            proof {
                assert(call_views(out@) =~= Seq::<CallV>::empty());
            }
            out
        },
    }
}

/// A call object without a nested `function` object is read by its name and
/// the first argument key present, in the order `arguments`, `args`,
/// `parameters`, `input`, `params`: that key's value, made an object as far
/// as it can be, becomes the call's arguments; with none of them present the
/// arguments are `{}`.
pub proof fn lemma_call_object_arguments(o: JsonV, n: Seq<char>, src: JsonSourceV)
    requires
        json_get(o, "function"@) is None,
        json_str(json_get(o, "name"@)) == Some(n),
        n.len() > 0,
    ensures
        json_get(o, "arguments"@) matches Some(v) ==> spec_from_map(o, src) == Some((n, spec_coerce(v, src))),
        json_get(o, "arguments"@) is None ==> (json_get(o, "args"@) matches Some(v) ==> spec_from_map(o, src) == Some((n, spec_coerce(v, src)))),
        json_get(o, "arguments"@) is None && json_get(o, "args"@) is None ==> (json_get(o, "parameters"@) matches Some(v) ==> spec_from_map(o, src) == Some((n, spec_coerce(v, src)))),
        json_get(o, "arguments"@) is None && json_get(o, "args"@) is None && json_get(o, "parameters"@) is None
            ==> (json_get(o, "input"@) matches Some(v) ==> spec_from_map(o, src) == Some((n, spec_coerce(v, src)))),
        json_get(o, "arguments"@) is None && json_get(o, "args"@) is None && json_get(o, "parameters"@) is None
            && json_get(o, "input"@) is None ==> (json_get(o, "params"@) matches Some(v) ==> spec_from_map(o, src) == Some((n, spec_coerce(v, src)))),
        json_get(o, "arguments"@) is None && json_get(o, "args"@) is None && json_get(o, "parameters"@) is None
            && json_get(o, "input"@) is None && json_get(o, "params"@) is None ==> spec_from_map(o, src) == Some((n, empty_object())),
{
}

/// An array holding one such call object reads as exactly that one call.
pub proof fn lemma_single_call_array(o: JsonV, n: Seq<char>, v: JsonV, src: JsonSourceV)
    requires
        o is Object,
        json_get(o, "function"@) is None,
        json_str(json_get(o, "name"@)) == Some(n),
        n.len() > 0,
        json_get(o, "arguments"@) is None,
        json_get(o, "args"@) is None,
        json_get(o, "parameters"@) is None,
        json_get(o, "input"@) == Some(v),
    ensures
        spec_parse_decoded(JsonV::Array(seq![o]), src) == seq![(n, spec_coerce(v, src))],
{
    lemma_call_object_arguments(o, n, src);
    assert(spec_from_map(o, src) == Some((n, spec_coerce(v, src))));
    assert(seq![o].drop_last() =~= Seq::<JsonV>::empty());
    assert(seq![o].last() == o);
    assert(spec_objects_calls(Seq::<JsonV>::empty(), src) =~= Seq::<CallV>::empty());
    assert(spec_objects_calls(seq![o], src) =~= seq![(n, spec_coerce(v, src))]);
}

/// Arguments that already are an object are kept as they are.
pub proof fn lemma_object_arguments_kept(args: JsonV, src: JsonSourceV)
    requires
        args is Object,
    ensures
        spec_coerce(args, src) == args,
{
}

} // verus!
