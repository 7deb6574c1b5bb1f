//! A JSON value as plain data, and the reading of search-API answers from it.

use vstd::prelude::*;

verus! {

/// A JSON value. Numbers keep their text; object members keep their order.
#[derive(Debug)]
pub enum Json {
    Null,
    Bool(bool),
    Number(String),
    Str(String),
    Array(Vec<Json>),
    Object(Vec<(String, Json)>),
}

/// A JSON value as mathematical data.
pub enum JsonV {
    Null,
    Bool(bool),
    Number(Seq<char>),
    Str(Seq<char>),
    Array(Seq<JsonV>),
    Object(Seq<(Seq<char>, JsonV)>),
}

pub open spec fn json_view(j: Json) -> JsonV
    decreases j, 1int,
{
    match j {
        Json::Null => JsonV::Null,
        Json::Bool(b) => JsonV::Bool(b),
        Json::Number(n) => JsonV::Number(n@),
        Json::Str(s) => JsonV::Str(s@),
        Json::Array(v) => JsonV::Array(json_views(v@)),
        Json::Object(v) => JsonV::Object(member_views(v@)),
    }
}

pub open spec fn json_views(s: Seq<Json>) -> Seq<JsonV>
    decreases s, 0int,
{
    if s.len() == 0 {
        Seq::empty()
    } else {
        seq![json_view(s[0])] + json_views(s.subrange(1, s.len() as int))
    }
}

pub open spec fn member_views(s: Seq<(String, Json)>) -> Seq<(Seq<char>, JsonV)>
    decreases s, 0int,
{
    if s.len() == 0 {
        Seq::empty()
    } else {
        seq![(s[0].0@, json_view(s[0].1))] + member_views(s.subrange(1, s.len() as int))
    }
}

} // verus!

verus! {

pub proof fn lemma_json_views(s: Seq<Json>)
    ensures
        json_views(s).len() == s.len(),
        forall|i: int| 0 <= i < s.len() ==> #[trigger] json_views(s)[i] == json_view(s[i]),
    decreases s.len(),
{
    if s.len() > 0 {
        lemma_json_views(s.subrange(1, s.len() as int));
        assert forall|i: int| 0 <= i < s.len() implies #[trigger] json_views(s)[i] == json_view(s[i]) by {
            if i > 0 {
                assert(s.subrange(1, s.len() as int)[i - 1] == s[i]);
            }
        }
    }
}

pub proof fn lemma_member_views(s: Seq<(String, Json)>)
    ensures
        member_views(s).len() == s.len(),
        forall|i: int|
            0 <= i < s.len() ==> #[trigger] member_views(s)[i] == (s[i].0@, json_view(s[i].1)),
    decreases s.len(),
{
    if s.len() > 0 {
        lemma_member_views(s.subrange(1, s.len() as int));
        assert forall|i: int| 0 <= i < s.len() implies #[trigger] member_views(s)[i] == (
            s[i].0@,
            json_view(s[i].1),
        ) by {
            if i > 0 {
                assert(s.subrange(1, s.len() as int)[i - 1] == s[i]);
            }
        }
    }
}

impl View for Json {
    type V = JsonV;

    open spec fn view(&self) -> JsonV {
        json_view(*self)
    }
}

/// The value of the first member named `key`.
pub open spec fn member_named(m: Seq<(Seq<char>, JsonV)>, key: Seq<char>) -> Option<JsonV>
    decreases m.len(),
{
    if m.len() == 0 {
        None
    } else if m[0].0 == key {
        Some(m[0].1)
    } else {
        member_named(m.subrange(1, m.len() as int), key)
    }
}

/// `Value::get(key)`: the member named `key` of an object; none for any
/// other value.
pub open spec fn json_get(j: JsonV, key: Seq<char>) -> Option<JsonV> {
    match j {
        JsonV::Object(m) => member_named(m, key),
        _ => None,
    }
}

/// `Value::as_str`.
pub open spec fn json_str(j: Option<JsonV>) -> Option<Seq<char>> {
    match j {
        Some(JsonV::Str(s)) => Some(s),
        _ => None,
    }
}

/// `Value::as_array`.
pub open spec fn json_array(j: Option<JsonV>) -> Option<Seq<JsonV>> {
    match j {
        Some(JsonV::Array(a)) => Some(a),
        _ => None,
    }
}

/// The text of `j`, or nothing (`.and_then(Value::as_str).unwrap_or("")`).
pub open spec fn str_or_empty(j: Option<JsonV>) -> Seq<char> {
    match json_str(j) {
        Some(s) => s,
        None => Seq::empty(),
    }
}

impl Json {
    /// The member named `key` of an object.
    pub fn get(&self, key: &str) -> (r: Option<&Json>)
        ensures
            match r {
                Some(v) => json_get(self@, key@) == Some(v@),
                None => json_get(self@, key@) is None,
            },
    {
        match self {
            Json::Object(members) => {
                let k = crate::bridge::chars_of(key);
                let mut i: usize = 0;
                proof {
                    assert(json_get(self@, key@) == member_named(member_views(members@), key@));
                    lemma_member_views(members@);
                    assert(member_views(members@).subrange(0, member_views(members@).len() as int) =~= member_views(members@));
                }
                while i < members.len()
                    invariant
                        i <= members@.len(),
                        k@ == key@,
                        json_get(self@, key@) == member_named(member_views(members@), key@),
                        member_views(members@).len() == members@.len(),
                        forall|t: int| 0 <= t < members@.len() ==> #[trigger] member_views(members@)[t] == (members@[t].0@, json_view(members@[t].1)),
                        member_named(member_views(members@), key@) == member_named(member_views(members@).subrange(i as int, members@.len() as int), key@),
                    decreases members.len() - i,
                {
                    let ghost rest = member_views(members@).subrange(i as int, members@.len() as int);
                    proof {
                        assert(rest[0] == member_views(members@)[i as int]);
                        assert(rest.subrange(1, rest.len() as int) =~= member_views(members@).subrange(i + 1, members@.len() as int));
                    }
                    let name = crate::bridge::chars_of(members[i].0.as_str());
                    if crate::text::same_chars(&name, &k) {
                        assert(rest[0].0 == key@);
                        assert(member_named(rest, key@) == Some(rest[0].1));
                        return Some(&members[i].1);
                    }
                    i = i + 1;
                }
                None
            },
            _ => None,
        }
    }

    /// The text of a string value.
    pub fn as_str(&self) -> (r: Option<&str>)
        ensures
            match r {
                Some(s) => json_str(Some(self@)) == Some(s@),
                None => json_str(Some(self@)) is None,
            },
    {
        match self {
            Json::Str(s) => Some(s.as_str()),
            _ => None,
        }
    }

    /// The elements of an array value.
    pub fn as_array(&self) -> (r: Option<&Vec<Json>>)
        ensures
            match r {
                Some(v) => json_array(Some(self@)) == Some(json_views(v@)),
                None => json_array(Some(self@)) is None,
            },
    {
        match self {
            Json::Array(v) => Some(v),
            _ => None,
        }
    }

    /// A copy of the value.
    #[verifier::loop_isolation(false)]
    pub fn copy(&self) -> (r: Json)
        ensures
            r@ == self@,
        decreases self,
    {
        match self {
            Json::Null => Json::Null,
            Json::Bool(b) => Json::Bool(*b),
            Json::Number(n) => Json::Number(n.clone()),
            Json::Str(s) => Json::Str(s.clone()),
            Json::Array(v) => {
                let mut out: Vec<Json> = Vec::new();
                let mut i: usize = 0;
                proof {
                    lemma_json_views(v@);
                }
                while i < v.len()
                    invariant
                        i <= v@.len(),
                        json_views(v@).len() == v@.len(),
                        forall|t: int| 0 <= t < v@.len() ==> #[trigger] json_views(v@)[t] == json_view(v@[t]),
                        out@.len() == i,
                        forall|t: int| 0 <= t < i ==> json_view(#[trigger] out@[t]) == json_view(v@[t]),
                    decreases v.len() - i,
                {
                    proof {
                        vstd::std_specs::vec::axiom_vec_index_decreases(*v, i as int);
                        assert(decreases_to!(*self => *v));
                        assert(decreases_to!(*self => v@[i as int]));
                    }
                    let c = v[i].copy();
                    out.push(c);
                    i = i + 1;
                }
                proof {
                    lemma_json_views(out@);
                    assert(json_views(out@) =~= json_views(v@));
                }
                Json::Array(out)
            },
            Json::Object(v) => {
                let mut out: Vec<(String, Json)> = Vec::new();
                let mut i: usize = 0;
                proof {
                    lemma_member_views(v@);
                }
                while i < v.len()
                    invariant
                        i <= v@.len(),
                        member_views(v@).len() == v@.len(),
                        forall|t: int| 0 <= t < v@.len() ==> #[trigger] member_views(v@)[t] == (v@[t].0@, json_view(v@[t].1)),
                        out@.len() == i,
                        forall|t: int| 0 <= t < i ==> (#[trigger] out@[t]).0@ == v@[t].0@ && json_view(out@[t].1) == json_view(v@[t].1),
                    decreases v.len() - i,
                {
                    proof {
                        vstd::std_specs::vec::axiom_vec_index_decreases(*v, i as int);
                        assert(decreases_to!(*self => *v));
                        assert(decreases_to!(*self => v@[i as int]));
                        assert(decreases_to!(*self => v@[i as int].1));
                    }
                    let c = v[i].1.copy();
                    out.push((v[i].0.clone(), c));
                    i = i + 1;
                }
                proof {
                    lemma_member_views(out@);
                    assert(member_views(out@) =~= member_views(v@));
                }
                Json::Object(out)
            },
        }
    }
}

} // verus!
