//! Locating the `<contents ...>` envelope of a raw listing document, so that
//! the entries between its tags can be spliced into a merged document with
//! their formatting untouched.
use vstd::prelude::*;
use crate::text::{first_occurrence, lemma_first_occurrence_unique, occurs_at, split_once};

verus! {

pub open spec fn open_marker() -> Seq<char> {
    "<contents "@
}

pub open spec fn tag_end() -> Seq<char> {
    ">"@
}

pub open spec fn close_marker() -> Seq<char> {
    "</contents>"@
}

/// `raw` is `head`, the opening tag with attributes `attrs`, `inner`, the
/// closing tag, then `foot`, where each marker is the first of its kind from
/// where the search for it starts.
pub open spec fn is_envelope_split(
    raw: Seq<char>,
    head: Seq<char>,
    attrs: Seq<char>,
    inner: Seq<char>,
    foot: Seq<char>,
) -> bool {
    &&& raw == head + open_marker() + attrs + tag_end() + inner + close_marker() + foot
    &&& first_occurrence(raw, open_marker(), head.len() as int)
    &&& first_occurrence(
        attrs + tag_end() + inner + close_marker() + foot,
        tag_end(),
        attrs.len() as int,
    )
    &&& first_occurrence(inner + close_marker() + foot, close_marker(), inner.len() as int)
}

pub open spec fn has_envelope(raw: Seq<char>) -> bool {
    exists|t: (Seq<char>, Seq<char>, Seq<char>, Seq<char>)|
        is_envelope_split(raw, t.0, t.1, t.2, t.3)
}

/// The text before the opening tag, between the tags, and after the closing
/// tag; none when a marker is missing.
pub open spec fn envelope(raw: Seq<char>) -> Option<(Seq<char>, Seq<char>, Seq<char>)> {
    if has_envelope(raw) {
        let t = choose|t: (Seq<char>, Seq<char>, Seq<char>, Seq<char>)|
            is_envelope_split(raw, t.0, t.1, t.2, t.3);
        Some((t.0, t.2, t.3))
    } else {
        None
    }
}

proof fn lemma_suffix(s: Seq<char>, a: Seq<char>, b: Seq<char>)
    requires
        s == a + b,
    ensures
        b == s.skip(a.len() as int),
        a == s.take(a.len() as int),
{
    assert(b =~= s.skip(a.len() as int));
    assert(a =~= s.take(a.len() as int));
}

proof fn lemma_split_unique(
    raw: Seq<char>,
    h1: Seq<char>,
    a1: Seq<char>,
    i1: Seq<char>,
    f1: Seq<char>,
    h2: Seq<char>,
    a2: Seq<char>,
    i2: Seq<char>,
    f2: Seq<char>,
)
    requires
        is_envelope_split(raw, h1, a1, i1, f1),
        is_envelope_split(raw, h2, a2, i2, f2),
    ensures
        h1 == h2,
        a1 == a2,
        i1 == i2,
        f1 == f2,
{
    let r1 = a1 + tag_end() + i1 + close_marker() + f1;
    let r2 = a2 + tag_end() + i2 + close_marker() + f2;
    let q1 = i1 + close_marker() + f1;
    let q2 = i2 + close_marker() + f2;
    lemma_first_occurrence_unique(raw, open_marker(), h1.len() as int, h2.len() as int);
    assert(raw =~= (h1 + open_marker()) + r1);
    assert(raw =~= (h2 + open_marker()) + r2);
    lemma_suffix(raw, h1 + open_marker(), r1);
    lemma_suffix(raw, h2 + open_marker(), r2);
    assert(h1 =~= raw.take(h1.len() as int));
    assert(h2 =~= raw.take(h2.len() as int));
    assert(r1 == r2);
    lemma_first_occurrence_unique(r1, tag_end(), a1.len() as int, a2.len() as int);
    assert(r1 =~= (a1 + tag_end()) + q1);
    assert(r2 =~= (a2 + tag_end()) + q2);
    lemma_suffix(r1, a1 + tag_end(), q1);
    lemma_suffix(r2, a2 + tag_end(), q2);
    assert(a1 =~= r1.take(a1.len() as int));
    assert(a2 =~= r2.take(a2.len() as int));
    assert(q1 == q2);
    lemma_first_occurrence_unique(q1, close_marker(), i1.len() as int, i2.len() as int);
    assert(q1 =~= (i1 + close_marker()) + f1);
    assert(q2 =~= (i2 + close_marker()) + f2);
    lemma_suffix(q1, i1 + close_marker(), f1);
    lemma_suffix(q2, i2 + close_marker(), f2);
    assert(i1 =~= q1.take(i1.len() as int));
    assert(i2 =~= q2.take(i2.len() as int));
}

proof fn lemma_envelope_of(raw: Seq<char>, h: Seq<char>, a: Seq<char>, i: Seq<char>, f: Seq<char>)
    requires
        is_envelope_split(raw, h, a, i, f),
    ensures
        envelope(raw) == Some((h, i, f)),
{
    let t = (h, a, i, f);
    assert(is_envelope_split(raw, t.0, t.1, t.2, t.3));
    let c = choose|t: (Seq<char>, Seq<char>, Seq<char>, Seq<char>)|
        is_envelope_split(raw, t.0, t.1, t.2, t.3);
    lemma_split_unique(raw, h, a, i, f, c.0, c.1, c.2, c.3);
}

/// Splits a raw listing document into the text before its `<contents ...>`
/// opening tag, the text between the tags, and the text after `</contents>`.
pub fn split_envelope(raw: &str) -> (r: Option<(&str, &str, &str)>)
    ensures
        match r {
            Some((head, inner, foot)) => envelope(raw@) == Some((head@, inner@, foot@)),
            None => envelope(raw@) is None,
        },
{
    let (head, rest1) = match split_once(raw, "<contents ") {
        Some(p) => p,
        None => {
            proof {
                if has_envelope(raw@) {
                    let t = choose|t: (Seq<char>, Seq<char>, Seq<char>, Seq<char>)|
                        is_envelope_split(raw@, t.0, t.1, t.2, t.3);
                    assert(occurs_at(raw@, open_marker(), t.0.len() as int));
                }
            }
            return None;
        },
    };
    let (attrs, rest2) = match split_once(rest1, ">") {
        Some(p) => p,
        None => {
            proof {
                if has_envelope(raw@) {
                    let t = choose|t: (Seq<char>, Seq<char>, Seq<char>, Seq<char>)|
                        is_envelope_split(raw@, t.0, t.1, t.2, t.3);
                    let r1 = t.1 + tag_end() + t.2 + close_marker() + t.3;
                    lemma_first_occurrence_unique(raw@, open_marker(), head@.len() as int, t.0.len() as int);
                    assert(raw@ =~= (head@ + open_marker()) + rest1@);
                    assert(raw@ =~= (t.0 + open_marker()) + r1);
                    lemma_suffix(raw@, head@ + open_marker(), rest1@);
                    lemma_suffix(raw@, t.0 + open_marker(), r1);
                    assert(occurs_at(rest1@, tag_end(), t.1.len() as int));
                }
            }
            return None;
        },
    };
    let (inner, foot) = match split_once(rest2, "</contents>") {
        Some(p) => p,
        None => {
            proof {
                if has_envelope(raw@) {
                    let t = choose|t: (Seq<char>, Seq<char>, Seq<char>, Seq<char>)|
                        is_envelope_split(raw@, t.0, t.1, t.2, t.3);
                    let r1 = t.1 + tag_end() + t.2 + close_marker() + t.3;
                    let q1 = t.2 + close_marker() + t.3;
                    lemma_first_occurrence_unique(raw@, open_marker(), head@.len() as int, t.0.len() as int);
                    assert(raw@ =~= (head@ + open_marker()) + rest1@);
                    assert(raw@ =~= (t.0 + open_marker()) + r1);
                    lemma_suffix(raw@, head@ + open_marker(), rest1@);
                    lemma_suffix(raw@, t.0 + open_marker(), r1);
                    assert(rest1@ == r1);
                    lemma_first_occurrence_unique(rest1@, tag_end(), attrs@.len() as int, t.1.len() as int);
                    assert(rest1@ =~= (attrs@ + tag_end()) + rest2@);
                    assert(r1 =~= (t.1 + tag_end()) + q1);
                    lemma_suffix(rest1@, attrs@ + tag_end(), rest2@);
                    lemma_suffix(r1, t.1 + tag_end(), q1);
                    assert(occurs_at(rest2@, close_marker(), t.2.len() as int));
                }
            }
            return None;
        },
    };
    proof {
        assert(rest1@ =~= attrs@ + tag_end() + inner@ + close_marker() + foot@);
        assert(raw@ =~= head@ + open_marker() + attrs@ + tag_end() + inner@ + close_marker()
            + foot@);
        lemma_envelope_of(raw@, head@, attrs@, inner@, foot@);
    }
    Some((head, inner, foot))
}

} // verus!
