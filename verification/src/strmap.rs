use vstd::prelude::*;
use vstd::string::*;
use crate::text::str_eq;

verus! {

/// The map an entry list denotes: later entries win.
pub open spec fn map_of(es: Seq<(Seq<char>, Seq<char>)>) -> Map<Seq<char>, Seq<char>>
    decreases es.len(),
{
    if es.len() == 0 {
        Map::empty()
    } else {
        map_of(es.drop_last()).insert(es.last().0, es.last().1)
    }
}

pub open spec fn distinct_keys(es: Seq<(Seq<char>, Seq<char>)>) -> bool {
    forall|i: int, j: int| 0 <= i < j < es.len() ==> es[i].0 != es[j].0
}

/// Updating the value under an existing key, or appending a new binding.
pub open spec fn insert_entries(
    es: Seq<(Seq<char>, Seq<char>)>,
    k: Seq<char>,
    v: Seq<char>,
) -> Seq<(Seq<char>, Seq<char>)> {
    if exists|i: int| 0 <= i < es.len() && es[i].0 == k {
        es.update(choose|i: int| 0 <= i < es.len() && es[i].0 == k, (k, v))
    } else {
        es.push((k, v))
    }
}

pub proof fn lemma_map_of_contains(es: Seq<(Seq<char>, Seq<char>)>, k: Seq<char>)
    ensures
        map_of(es).contains_key(k) <==> exists|i: int| 0 <= i < es.len() && es[i].0 == k,
    decreases es.len(),
{
    if es.len() > 0 {
        lemma_map_of_contains(es.drop_last(), k);
        if map_of(es).contains_key(k) {
            if es.last().0 == k {
                assert(es[es.len() - 1].0 == k);
            } else {
                let i = choose|i: int| 0 <= i < es.drop_last().len() && es.drop_last()[i].0 == k;
                assert(es[i].0 == k);
            }
        } else {
            assert forall|i: int| 0 <= i < es.len() implies es[i].0 != k by {
                if i < es.len() - 1 {
                    assert(es.drop_last()[i].0 == es[i].0);
                }
            }
        }
    }
}

pub proof fn lemma_map_of_value(es: Seq<(Seq<char>, Seq<char>)>, i: int)
    requires
        distinct_keys(es),
        0 <= i < es.len(),
    ensures
        map_of(es).contains_key(es[i].0),
        map_of(es)[es[i].0] == es[i].1,
    decreases es.len(),
{
    if i == es.len() - 1 {
    } else {
        assert(es.drop_last()[i] == es[i]);
        assert(distinct_keys(es.drop_last())) by {
            assert forall|a: int, b: int|
                0 <= a < b < es.drop_last().len() implies es.drop_last()[a].0
                != es.drop_last()[b].0 by {
                assert(es.drop_last()[a] == es[a] && es.drop_last()[b] == es[b]);
            }
        }
        lemma_map_of_value(es.drop_last(), i);
        assert(es.last().0 != es[i].0);
    }
}

pub proof fn lemma_map_of_update(es: Seq<(Seq<char>, Seq<char>)>, i: int, v: Seq<char>)
    requires
        distinct_keys(es),
        0 <= i < es.len(),
    ensures
        map_of(es.update(i, (es[i].0, v))) == map_of(es).insert(es[i].0, v),
    decreases es.len(),
{
    let k = es[i].0;
    let up = es.update(i, (k, v));
    if i == es.len() - 1 {
        assert(up.drop_last() =~= es.drop_last());
        assert(up.last() == (k, v));
        assert(map_of(up) =~= map_of(es).insert(k, v));
    } else {
        assert(up.drop_last() =~= es.drop_last().update(i, (k, v)));
        assert(distinct_keys(es.drop_last())) by {
            assert forall|a: int, b: int|
                0 <= a < b < es.drop_last().len() implies es.drop_last()[a].0
                != es.drop_last()[b].0 by {
                assert(es.drop_last()[a] == es[a] && es.drop_last()[b] == es[b]);
            }
        }
        assert(es.drop_last()[i] == es[i]);
        lemma_map_of_update(es.drop_last(), i, v);
        assert(es.last().0 != k);
        assert(map_of(up) =~= map_of(es).insert(k, v));
    }
}

/// A string-to-string mapping that keeps its bindings in insertion order,
/// with unique keys and a last-write-wins update rule.
#[derive(Debug)]
pub struct StrMap {
    entries: Vec<(String, String)>,
}

impl View for StrMap {
    type V = Map<Seq<char>, Seq<char>>;

    closed spec fn view(&self) -> Map<Seq<char>, Seq<char>> {
        map_of(self.entries())
    }
}

pub open spec fn views_of(s: Seq<(String, String)>) -> Seq<(Seq<char>, Seq<char>)> {
    Seq::new(s.len(), |i: int| (s[i].0@, s[i].1@))
}

impl StrMap {
    /// The bindings in order, earliest first.
    pub closed spec fn entries(&self) -> Seq<(Seq<char>, Seq<char>)> {
        views_of(self.entries@)
    }

    #[verifier::type_invariant]
    spec fn wf(&self) -> bool {
        distinct_keys(self.entries())
    }

    /// Establishes at run time nothing; its contract states how the map view
    /// and the ordered bindings agree.
    pub fn view_facts(&self)
        ensures
            self@ == map_of(self.entries()),
            distinct_keys(self.entries()),
            forall|i: int|
                0 <= i < self.entries().len() ==> self@.contains_key(#[trigger] self.entries()[i].0)
                    && self@[self.entries()[i].0] == self.entries()[i].1,
            forall|k: Seq<char>|
                self@.contains_key(k) ==> exists|i: int|
                    0 <= i < self.entries().len() && #[trigger] self.entries()[i].0 == k,
    {
        proof {
            use_type_invariant(self);
            assert forall|i: int| 0 <= i < self.entries().len() implies self@.contains_key(
                #[trigger] self.entries()[i].0,
            ) && self@[self.entries()[i].0] == self.entries()[i].1 by {
                lemma_map_of_value(self.entries(), i);
            }
            assert forall|k: Seq<char>| self@.contains_key(k) implies exists|i: int|
                0 <= i < self.entries().len() && #[trigger] self.entries()[i].0 == k by {
                lemma_map_of_contains(self.entries(), k);
            }
        }
    }

    /// An empty mapping.
    pub fn new() -> (r: StrMap)
        ensures
            r@ == Map::<Seq<char>, Seq<char>>::empty(),
            r.entries() == Seq::<(Seq<char>, Seq<char>)>::empty(),
    {
        let r = StrMap { entries: Vec::new() };
        proof {
            assert(r.entries() =~= Seq::<(Seq<char>, Seq<char>)>::empty());
        }
        r
    }

    /// The number of bindings.
    pub fn len(&self) -> (r: usize)
        ensures
            r == self.entries().len(),
    {
        self.entries.len()
    }

    /// Whether no binding is present.
    pub fn is_empty(&self) -> (r: bool)
        ensures
            r == (self.entries().len() == 0),
            r == self@.dom().is_empty(),
    {
        self.view_facts();
        proof {
            if self.entries().len() == 0 {
                assert(self@.dom() =~= Set::<Seq<char>>::empty());
            } else {
                assert(self@.contains_key(self.entries()[0].0));
            }
        }
        self.entries.len() == 0
    }

    /// The binding at a position, earliest first.
    pub fn entry_at(&self, i: usize) -> (r: (&String, &String))
        requires
            i < self.entries().len(),
        ensures
            r.0@ == self.entries()[i as int].0,
            r.1@ == self.entries()[i as int].1,
    {
        let e = &self.entries[i];
        (&e.0, &e.1)
    }

    /// Looks a key up, exactly as the map view does.
    pub fn get(&self, k: &str) -> (r: Option<&String>)
        ensures
            r is Some <==> self@.contains_key(k@),
            r matches Some(v) ==> v@ == self@[k@],
    {
        self.view_facts();
        let n = self.entries.len();
        let mut i: usize = 0;
        while i < n
            invariant
                n == self.entries().len(),
                0 <= i <= n,
                forall|j: int| 0 <= j < i ==> self.entries()[j].0 != k@,
                distinct_keys(self.entries()),
                self@ == map_of(self.entries()),
                forall|q: int|
                    0 <= q < self.entries().len() ==> self@.contains_key(
                        #[trigger] self.entries()[q].0,
                    ) && self@[self.entries()[q].0] == self.entries()[q].1,
                forall|key: Seq<char>|
                    self@.contains_key(key) ==> exists|q: int|
                        0 <= q < self.entries().len() && #[trigger] self.entries()[q].0 == key,
            decreases n - i,
        {
            if str_eq(self.entries[i].0.as_str(), k) {
                proof {
                    assert(self.entries()[i as int].0 == k@);
                    assert(self@.contains_key(k@) && self@[k@] == self.entries()[i as int].1);
                }
                return Some(&self.entries[i].1);
            }
            i += 1;
        }
        None
    }

    /// Binds a key to a value: an existing binding is overwritten in place,
    /// a new one appended.
    pub fn insert(&mut self, k: &str, v: &str)
        ensures
            final(self)@ == old(self)@.insert(k@, v@),
            final(self).entries() == insert_entries(old(self).entries(), k@, v@),
    {
        proof {
            use_type_invariant(&*self);
        }
        let ghost es = self.entries();
        let mut entries: Vec<(String, String)> = Vec::new();
        core::mem::swap(&mut entries, &mut self.entries);
        proof {
            assert(self.entries() =~= Seq::<(Seq<char>, Seq<char>)>::empty());
        }
        let n = entries.len();
        let mut i: usize = 0;
        let mut updated = false;
        while i < n && !updated
            invariant
                !updated ==> views_of(entries@) == es,
                updated ==> views_of(entries@) == es.update(
                    i - 1,
                    (k@, v@),
                ) && 0 < i <= n && es[i - 1].0 == k@,
                distinct_keys(es),
                n == es.len(),
                0 <= i <= n,
                forall|j: int| 0 <= j < i - 1 ==> es[j].0 != k@,
                !updated ==> forall|j: int| 0 <= j < i ==> es[j].0 != k@,
            decreases n - i,
        {
            if str_eq(entries[i].0.as_str(), k) {
                let pair = (String::from_str(k), String::from_str(v));
                entries[i] = pair;
                proof {
                    assert(views_of(entries@) =~= es.update(i as int, (k@, v@)));
                }
                updated = true;
            }
            i += 1;
        }
        if updated {
            proof {
                let w = i - 1;
                assert(es[w].0 == k@);
                lemma_map_of_update(es, w, v@);
                let q = choose|q: int| 0 <= q < es.len() && es[q].0 == k@;
                assert(q == w);
                assert(forall|j: int| 0 <= j < es.len() ==> views_of(entries@)[j].0 == es[j].0);
                assert(distinct_keys(views_of(entries@)));
            }
        } else {
            let pair = (String::from_str(k), String::from_str(v));
            entries.push(pair);
            proof {
                assert(views_of(entries@) =~= es.push((k@, v@)));
                assert(views_of(entries@).drop_last() =~= es);
                assert(forall|j: int| 0 <= j < es.len() ==> es[j].0 != k@);
                assert(distinct_keys(views_of(entries@)));
            }
        }
        core::mem::swap(&mut entries, &mut self.entries);
    }
}

} // verus!
