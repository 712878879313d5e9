//! Duplicate-free lists of content identifiers awaiting their detail fetch.
use vstd::prelude::*;
use vstd::string::*;

verus! {

broadcast use vstd::seq_lib::group_to_multiset_ensures;

pub open spec fn ids_view(v: Seq<String>) -> Seq<Seq<char>> {
    v.map_values(|s: String| s@)
}

/// `a` comes no later than `b` in code-point order, which is the order of
/// their UTF-8 bytes.
pub open spec fn lex_le(a: Seq<char>, b: Seq<char>) -> bool
    decreases a.len(),
{
    if a.len() == 0 {
        true
    } else if b.len() == 0 {
        false
    } else if a[0] != b[0] {
        (a[0] as u32) < (b[0] as u32)
    } else {
        lex_le(a.drop_first(), b.drop_first())
    }
}

/// `a` comes strictly before `b` in code-point order.
pub open spec fn lex_lt(a: Seq<char>, b: Seq<char>) -> bool {
    lex_le(a, b) && a != b
}

/// Every identifier comes no later than those after it.
pub open spec fn sorted_ids(s: Seq<Seq<char>>) -> bool {
    forall|i: int, j: int| 0 <= i < j < s.len() ==> lex_le(s[i], s[j])
}

/// Every identifier comes strictly before those after it.
pub open spec fn strictly_sorted(s: Seq<Seq<char>>) -> bool {
    forall|i: int, j: int| 0 <= i < j < s.len() ==> lex_lt(s[i], s[j])
}

/// Relies on `slice::sort` on strings: the items are reordered, each kept,
/// into the order of `String`'s `Ord`, which compares the UTF-8 bytes.
#[verifier::external_body]
fn sort_strings(v: &mut Vec<String>)
    ensures
        ids_view(final(v)@).to_multiset() == ids_view(old(v)@).to_multiset(),
        sorted_ids(ids_view(final(v)@)),
{
    v.sort();
}

proof fn lemma_push_to_set(s: Seq<Seq<char>>, v: Seq<char>)
    ensures
        s.push(v).to_set() == s.to_set().insert(v),
{
    Seq::lemma_to_set_insert_commutes(s, v);
    assert(s.push(v) =~= s + seq![v]);
}

/// A list of identifiers that holds each at most once, in the order given.
pub struct Frontier {
    items: Vec<String>,
}

impl View for Frontier {
    type V = Seq<Seq<char>>;

    closed spec fn view(&self) -> Seq<Seq<char>> {
        ids_view(self.items@)
    }
}

impl Frontier {
    pub open spec fn inv(&self) -> bool {
        self@.no_duplicates()
    }

    /// An empty list.
    pub fn new() -> (r: Frontier)
        ensures
            r.inv(),
            r@ == Seq::<Seq<char>>::empty(),
    {
        let r = Frontier { items: Vec::new() };
        assert(r@ =~= Seq::<Seq<char>>::empty());
        r
    }

    pub fn len(&self) -> (r: usize)
        ensures
            r == self@.len(),
    {
        self.items.len()
    }

    /// The identifier at a position.
    pub fn get(&self, i: usize) -> (r: &String)
        requires
            i < self@.len(),
        ensures
            r@ == self@[i as int],
    {
        &self.items[i]
    }

    /// Whether the list holds an identifier.
    pub fn contains(&self, id: &str) -> (r: bool)
        ensures
            r == self@.contains(id@),
    {
        let key = String::from_str(id);
        let mut i: usize = 0;
        while i < self.items.len()
            invariant
                0 <= i <= self.items@.len(),
                key@ == id@,
                forall|j: int| 0 <= j < i ==> self@[j] != id@,
            decreases self.items@.len() - i,
        {
            if self.items[i] == key {
                assert(self@[i as int] == id@);
                return true;
            }
            i = i + 1;
        }
        false
    }

    /// Adds an identifier that the list does not hold yet; returns whether
    /// it was added.
    pub fn add(&mut self, id: &str) -> (added: bool)
        requires
            old(self).inv(),
        ensures
            final(self).inv(),
            added == !old(self)@.contains(id@),
            final(self)@ == if added {
                old(self)@.push(id@)
            } else {
                old(self)@
            },
            final(self)@.to_set() == old(self)@.to_set().insert(id@),
    {
        if self.contains(id) {
            assert(self@.to_set().insert(id@) =~= self@.to_set());
            false
        } else {
            let ghost before = self@;
            self.items.push(String::from_str(id));
            proof {
                assert(self@ =~= before.push(id@));
                lemma_push_to_set(before, id@);
                assert forall|a: int, b: int|
                    0 <= a < b < self@.len() implies self@[a] != self@[b] by {
                    if b == before.len() {
                        assert(before[a] == self@[a]);
                    } else {
                        assert(before[a] == self@[a]);
                        assert(before[b] == self@[b]);
                    }
                }
            }
            true
        }
    }

    /// Adds each identifier of a list that is not held yet, in list order.
    pub fn add_all(&mut self, ids: &Vec<String>)
        requires
            old(self).inv(),
        ensures
            final(self).inv(),
            final(self)@.to_set() == old(self)@.to_set() + ids_view(ids@).to_set(),
            final(self)@.take(old(self)@.len() as int) == old(self)@,
    {
        let ghost start = self@;
        let mut i: usize = 0;
        while i < ids.len()
            invariant
                0 <= i <= ids@.len(),
                self.inv(),
                self@.to_set() == start.to_set() + ids_view(ids@).take(i as int).to_set(),
                self@.len() >= start.len(),
                self@.take(start.len() as int) == start,
            decreases ids@.len() - i,
        {
            let ghost before = self@;
            self.add(ids[i].as_str());
            proof {
                assert(ids_view(ids@).take(i + 1) =~= ids_view(ids@).take(i as int).push(
                    ids@[i as int]@,
                ));
                assert(self@.take(start.len() as int) =~= start) by {
                    assert(before.take(start.len() as int) == start);
                }
                let id = ids@[i as int]@;
                lemma_push_to_set(before, id);
                lemma_push_to_set(ids_view(ids@).take(i as int), id);
                if self@ == before {
                    assert(before.to_set().contains(id));
                    assert(before.to_set().insert(id) =~= before.to_set());
                }
                assert(self@.to_set() =~= start.to_set() + ids_view(ids@).take(i + 1).to_set());
            }
            i = i + 1;
        }
        proof {
            assert(ids_view(ids@).take(i as int) =~= ids_view(ids@));
        }
    }

    /// The same identifiers, in ascending code-point order.
    pub fn into_sorted(self) -> (r: Frontier)
        requires
            self.inv(),
        ensures
            r.inv(),
            r@.to_set() == self@.to_set(),
            strictly_sorted(r@),
    {
        let ghost before = self@;
        let mut items = self.items;
        sort_strings(&mut items);
        let r = Frontier { items };
        proof {
            let v = ids_view(items@);
            before.lemma_multiset_has_no_duplicates();
            assert forall|x: Seq<char>| v.to_multiset().contains(x) implies v.to_multiset().count(x)
                == 1 by {
                assert(v.to_multiset().count(x) == before.to_multiset().count(x));
            }
            v.lemma_multiset_has_no_duplicates_conv();
            assert forall|x: Seq<char>| v.contains(x) <==> before.contains(x) by {
                assert(v.to_multiset().count(x) == before.to_multiset().count(x));
            }
            assert(v.to_set() =~= before.to_set());
            assert(r@ == v);
        }
        r
    }

    /// Puts the identifiers in ascending code-point order.
    pub fn sort(&mut self)
        requires
            old(self).inv(),
        ensures
            final(self).inv(),
            final(self)@.to_set() == old(self)@.to_set(),
            strictly_sorted(final(self)@),
    {
        let mut taken = Frontier::new();
        core::mem::swap(self, &mut taken);
        *self = taken.into_sorted();
    }
}

} // verus!
