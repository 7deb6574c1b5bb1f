//! Working with regular-expression matches over bytes: reading capture
//! groups out of the haystack and replacing every match.

use vstd::prelude::*;
use crate::bridge::{regex_captures, regex_matches};

verus! {

/// One match: the span of each capture group.
pub type Groups = Seq<Option<(usize, usize)>>;

/// Every span of a match lies within a haystack of length `len`.
pub open spec fn spans_within(m: Groups, len: nat) -> bool {
    forall|g: int| 0 <= g < m.len() && #[trigger] m[g] is Some ==> {
        let (a, b) = m[g]->0;
        a <= b <= len
    }
}

/// The bytes of group `g` of match `m`, or nothing when the group is absent
/// (`captures.get(g).map_or("", ..)`).
pub open spec fn spec_group(hay: Seq<u8>, m: Groups, g: int) -> Seq<u8> {
    if 0 <= g < m.len() && m[g] is Some {
        hay.subrange((m[g]->0).0 as int, (m[g]->0).1 as int)
    } else {
        Seq::empty()
    }
}

/// Where a match starts and ends (group 0).
pub open spec fn match_start(m: Groups) -> int {
    (m[0]->0).0 as int
}

pub open spec fn match_end(m: Groups) -> int {
    (m[0]->0).1 as int
}

/// The bytes `hay[a..b]`.
pub fn slice_bytes(hay: &[u8], a: usize, b: usize) -> (r: Vec<u8>)
    requires
        a <= b <= hay@.len(),
    ensures
        r@ == hay@.subrange(a as int, b as int),
{
    let mut out: Vec<u8> = Vec::new();
    let mut i: usize = a;
    while i < b
        invariant
            a <= i <= b,
            b <= hay@.len(),
            out@ == hay@.subrange(a as int, i as int),
        decreases b - i,
    {
        out.push(hay[i]);
        i = i + 1;
        assert(out@ =~= hay@.subrange(a as int, i as int));
    }
    out
}

/// The bytes of group `g` of match `m`.
pub fn group_bytes(hay: &[u8], m: &Vec<Option<(usize, usize)>>, g: usize) -> (r: Vec<u8>)
    requires
        spans_within(m@, hay@.len()),
    ensures
        r@ == spec_group(hay@, m@, g as int),
{
    if g < m.len() {
        match m[g] {
            Some((a, b)) => {
                assert(m@[g as int] is Some);
                slice_bytes(hay, a, b)
            },
            None => Vec::new(),
        }
    } else {
        Vec::new()
    }
}

/// All matches of `pattern` in `hay`; each one's spans lie within `hay` and
/// each starts no earlier than the previous one ended.
pub fn all_matches(pattern: &str, hay: &[u8]) -> (r: Vec<Vec<Option<(usize, usize)>>>)
    ensures
        r@.len() == regex_matches(pattern@, hay@).len(),
        forall|i: int| 0 <= i < r@.len() ==> #[trigger] r@[i]@ == regex_matches(pattern@, hay@)[i],
        forall|i: int|
            0 <= i < r@.len() ==> (#[trigger] r@[i])@.len() >= 1 && r@[i]@[0] is Some
                && spans_within(r@[i]@, hay@.len()),
        forall|i: int|
            0 <= i < r@.len() - 1 ==> match_end(#[trigger] r@[i]@) <= match_start(r@[i + 1]@),
{
    let r = regex_captures(pattern, hay);
    assert forall|i: int| 0 <= i < r@.len() implies spans_within(#[trigger] r@[i]@, hay@.len()) by {
        assert forall|g: int| 0 <= g < r@[i]@.len() && #[trigger] r@[i]@[g] is Some implies {
            let (a, b) = r@[i]@[g]->0;
            a <= b <= hay@.len()
        } by {}
    }
    r
}

/// The first match of `pattern` in `hay` (`Regex::captures`).
pub open spec fn spec_first_match(pattern: Seq<char>, hay: Seq<u8>) -> Option<Groups> {
    let ms = regex_matches(pattern, hay);
    if ms.len() > 0 {
        Some(ms[0])
    } else {
        None
    }
}

/// Group `g` of the first match, or nothing when there is no match.
pub open spec fn spec_first_group(pattern: Seq<char>, hay: Seq<u8>, g: int) -> Seq<u8> {
    match spec_first_match(pattern, hay) {
        Some(m) => spec_group(hay, m, g),
        None => Seq::empty(),
    }
}

pub fn first_group(pattern: &str, hay: &[u8], g: usize) -> (r: Option<Vec<u8>>)
    ensures
        match r {
            Some(v) => spec_first_match(pattern@, hay@) is Some && v@ == spec_first_group(
                pattern@,
                hay@,
                g as int,
            ),
            None => spec_first_match(pattern@, hay@) is None,
        },
{
    let ms = all_matches(pattern, hay);
    if ms.len() == 0 {
        None
    } else {
        Some(group_bytes(hay, &ms[0], g))
    }
}

/// The text that remains of `hay` from `pos` on when each of the matches
/// `ms` is replaced by `rep`.
pub open spec fn spec_replace_from(hay: Seq<u8>, ms: Seq<Groups>, pos: int, rep: Seq<u8>) -> Seq<
    u8,
>
    decreases ms.len(),
{
    if ms.len() == 0 {
        hay.subrange(pos, hay.len() as int)
    } else {
        hay.subrange(pos, match_start(ms[0])) + rep + spec_replace_from(
            hay,
            ms.drop_first(),
            match_end(ms[0]),
            rep,
        )
    }
}

/// `Regex::replace_all(hay, rep)` for a replacement without `$` references:
/// every non-overlapping match replaced by `rep`.
pub open spec fn spec_replace_all(pattern: Seq<char>, hay: Seq<u8>, rep: Seq<u8>) -> Seq<u8> {
    spec_replace_from(hay, regex_matches(pattern, hay), 0, rep)
}

/// Replaces every match of `pattern` in `hay` by `rep` (which must hold no
/// `$`-reference; all callers pass literal text).
pub fn replace_all(pattern: &str, hay: &[u8], rep: &[u8]) -> (r: Vec<u8>)
    ensures
        r@ == spec_replace_all(pattern@, hay@, rep@),
{
    let ms = all_matches(pattern, hay);
    let ghost all = regex_matches(pattern@, hay@);
    let mut out: Vec<u8> = Vec::new();
    let mut pos: usize = 0;
    let mut i: usize = 0;
    proof {
        assert(all.skip(0) =~= all);
        assert(out@ + spec_replace_from(hay@, all, 0, rep@) =~= spec_replace_from(hay@, all, 0, rep@));
    }
    while i < ms.len()
        invariant
            i <= ms@.len(),
            all == regex_matches(pattern@, hay@),
            ms@.len() == all.len(),
            forall|k: int| 0 <= k < ms@.len() ==> #[trigger] ms@[k]@ == all[k],
            forall|k: int|
                0 <= k < ms@.len() ==> (#[trigger] ms@[k])@.len() >= 1 && ms@[k]@[0] is Some
                    && spans_within(ms@[k]@, hay@.len()),
            forall|k: int|
                0 <= k < ms@.len() - 1 ==> match_end(#[trigger] ms@[k]@) <= match_start(
                    ms@[k + 1]@,
                ),
            pos <= hay@.len(),
            i < ms@.len() ==> pos <= match_start(ms@[i as int]@),
            out@ + spec_replace_from(hay@, all.skip(i as int), pos as int, rep@) == spec_replace_from(
                hay@,
                all,
                0,
                rep@,
            ),
        decreases ms.len() - i,
    {
        let m = &ms[i];
        assert(m@[0] is Some);
        assert(spans_within(m@, hay@.len()));
        assert(m@[0int] is Some);
        let (a, b) = match m[0] {
            Some(span) => span,
            None => (0, 0),
        };
        let ghost tail = all.skip(i as int);
        proof {
            assert(tail[0] == all[i as int]);
            assert(tail.drop_first() =~= all.skip(i + 1));
        }
        proof {
            assert(a == match_start(m@) && b == match_end(m@));
            assert(a <= b <= hay@.len());
        }
        let gap = slice_bytes(hay, pos, a);
        let ghost before = out@;
        let ghost old_pos = pos;
        extend(&mut out, &gap);
        extend(&mut out, rep);
        pos = b;
        i = i + 1;
        proof {
            assert(spec_replace_from(hay@, tail, old_pos as int, rep@) == hay@.subrange(
                old_pos as int,
                a as int,
            ) + rep@ + spec_replace_from(hay@, all.skip(i as int), b as int, rep@));
            assert(out@ + spec_replace_from(hay@, all.skip(i as int), pos as int, rep@) =~= before
                + spec_replace_from(hay@, tail, old_pos as int, rep@));
            if i < ms@.len() {
                assert(match_end(ms@[i - 1]@) <= match_start(ms@[i as int]@));
            }
        }
    }
    let rest = slice_bytes(hay, pos, hay.len());
    extend(&mut out, &rest);
    proof {
        assert(all.skip(ms@.len() as int) =~= Seq::<Groups>::empty());
    }
    out
}

/// Appends `s` to `out`.
pub fn extend(out: &mut Vec<u8>, s: &[u8])
    ensures
        final(out)@ == old(out)@ + s@,
{
    let mut i: usize = 0;
    while i < s.len()
        invariant
            i <= s@.len(),
            out@ == old(out)@ + s@.subrange(0, i as int),
        decreases s.len() - i,
    {
        out.push(s[i]);
        i = i + 1;
        assert(out@ =~= old(out)@ + s@.subrange(0, i as int));
    }
    assert(s@.subrange(0, s@.len() as int) =~= s@);
}

/// `needle` occurs in `hay` starting at byte `i`.
pub open spec fn bytes_occur_at(hay: Seq<u8>, needle: Seq<u8>, i: int) -> bool {
    0 <= i && i + needle.len() <= hay.len() && hay.subrange(i, i + needle.len()) == needle
}

/// `needle` occurs somewhere in `hay`.
pub open spec fn spec_bytes_contain(hay: Seq<u8>, needle: Seq<u8>) -> bool {
    exists|i: int| bytes_occur_at(hay, needle, i)
}

fn bytes_match_at(hay: &[u8], needle: &[u8], i: usize) -> (r: bool)
    ensures
        r == bytes_occur_at(hay@, needle@, i as int),
{
    if i > hay.len() || needle.len() > hay.len() - i {
        return false;
    }
    let n = hay.len();
    let mut k: usize = 0;
    while k < needle.len()
        invariant
            n == hay@.len(),
            i + needle@.len() <= hay@.len(),
            k <= needle@.len(),
            forall|j: int| 0 <= j < k ==> hay@[i + j] == needle@[j],
        decreases needle.len() - k,
    {
        if hay[i + k] != needle[k] {
            assert(hay@.subrange(i as int, i + needle@.len())[k as int] != needle@[k as int]);
            return false;
        }
        k = k + 1;
    }
    assert(hay@.subrange(i as int, i + needle@.len()) =~= needle@);
    true
}

/// Whether `needle` occurs in `hay`.
pub fn bytes_contain(hay: &[u8], needle: &[u8]) -> (r: bool)
    ensures
        r == spec_bytes_contain(hay@, needle@),
{
    let mut i: usize = 0;
    loop
        invariant
            i <= hay@.len(),
            forall|j: int| 0 <= j < i ==> !bytes_occur_at(hay@, needle@, j),
        decreases hay.len() - i,
    {
        if bytes_match_at(hay, needle, i) {
            return true;
        }
        if i == hay.len() {
            assert forall|j: int| !bytes_occur_at(hay@, needle@, j) by {
                if j > i {
                    assert(j + needle@.len() > hay@.len());
                }
            }
            return false;
        }
        i = i + 1;
    }
}

} // verus!
