//! A map from route names to values, the shape both sides' route sets
//! and the server's registration table share.  Names are unique: a
//! name denotes at most one value at any time.

use vstd::prelude::*;

verus! {

/// Pairwise-distinct names in an entry list.
pub open spec fn names_unique<V>(entries: Seq<(String, V)>) -> bool {
    forall|i: int, j: int|
        #![trigger entries[i], entries[j]]
        0 <= i < j < entries.len() ==> entries[i].0@ != entries[j].0@
}

/// An association list with unique names, viewed as a
/// `Map<Seq<char>, V>`.
pub struct NameMap<V> {
    entries: Vec<(String, V)>,
}

impl<V> View for NameMap<V> {
    type V = Map<Seq<char>, V>;

    closed spec fn view(&self) -> Map<Seq<char>, V> {
        entries_map(self.entries@)
    }
}

/// The map an entry list denotes; later entries win, though with
/// unique names there is nothing to win over.
pub closed spec fn entries_map<V>(s: Seq<(String, V)>) -> Map<Seq<char>, V>
    decreases s.len(),
{
    if s.len() == 0 {
        Map::empty()
    } else {
        entries_map(s.drop_last()).insert(s.last().0@, s.last().1)
    }
}

/// What `entries_map` holds: its domain is the set of names, with
/// unique names each name maps to its entry's value, and the domain is
/// finite with one element per entry.
proof fn lemma_entries_map<V>(s: Seq<(String, V)>)
    ensures
        forall|n: Seq<char>|
            #[trigger] entries_map(s).dom().contains(n) <==> exists|i: int|
                0 <= i < s.len() && #[trigger] s[i].0@ == n,
        names_unique(s) ==> forall|i: int|
            0 <= i < s.len() ==> entries_map(s)[#[trigger] s[i].0@] == s[i].1,
        entries_map(s).dom().finite(),
        names_unique(s) ==> entries_map(s).dom().len() == s.len(),
    decreases s.len(),
{
    if s.len() > 0 {
        let s0 = s.drop_last();
        lemma_entries_map(s0);
        assert forall|n: Seq<char>| #[trigger] entries_map(s).dom().contains(n) implies exists|
            i: int,
        | 0 <= i < s.len() && #[trigger] s[i].0@ == n by {
            if n == s.last().0@ {
                assert(s[s.len() - 1].0@ == n);
            } else {
                let i = choose|i: int| 0 <= i < s0.len() && #[trigger] s0[i].0@ == n;
                assert(s[i].0@ == n);
            }
        }
        assert forall|i: int| 0 <= i < s.len() && #[trigger] s[i].0@ == s[i].0@ implies
            entries_map(s).dom().contains(s[i].0@) by {
            if i < s.len() - 1 {
                assert(s0[i].0@ == s[i].0@);
            }
        }
        if names_unique(s) {
            assert(names_unique(s0));
            assert forall|i: int| 0 <= i < s.len() implies entries_map(s)[#[trigger] s[i].0@]
                == s[i].1 by {
                if i < s.len() - 1 {
                    assert(s[i].0@ != s.last().0@);
                    assert(s0[i].0@ == s[i].0@ && s0[i].1 == s[i].1);
                }
            }
            assert(!entries_map(s0).dom().contains(s.last().0@)) by {
                if entries_map(s0).dom().contains(s.last().0@) {
                    let i = choose|i: int|
                        0 <= i < s0.len() && #[trigger] s0[i].0@ == s.last().0@;
                    assert(s[i].0@ == s.last().0@);
                }
            }
            assert(entries_map(s).dom() =~= entries_map(s0).dom().insert(s.last().0@));
            vstd::set::axiom_set_insert_len(entries_map(s0).dom(), s.last().0@);
        }
    }
}

impl<V> NameMap<V> {
    #[verifier::type_invariant]
    spec fn wf(self) -> bool {
        names_unique(self.entries@)
    }

    /// An empty map.
    pub fn new() -> (r: Self)
        ensures
            r@ == Map::<Seq<char>, V>::empty(),
    {
        NameMap { entries: Vec::new() }
    }

    /// How many names are bound.
    pub fn len(&self) -> (r: usize)
        ensures
            r == self@.dom().len(),
    {
        proof {
            use_type_invariant(&*self);
            lemma_entries_map(self.entries@);
        }
        self.entries.len()
    }

    /// The value bound to `name`, if any.
    pub fn get(&self, name: &String) -> (r: Option<&V>)
        ensures
            match r {
                Some(v) => self@.dom().contains(name@) && *v == self@[name@],
                None => !self@.dom().contains(name@),
            },
    {
        proof {
            use_type_invariant(&*self);
            lemma_entries_map(self.entries@);
        }
        let ghost s = self.entries@;
        let mut i: usize = 0;
        while i < self.entries.len()
            invariant
                i <= s.len(),
                self.entries@ == s,
                forall|j: int| 0 <= j < i ==> #[trigger] s[j].0@ != name@,
            decreases s.len() - i,
        {
            if self.entries[i].0 == *name {
                proof {
                    use_type_invariant(&*self);
                    lemma_entries_map(s);
                    assert(s[i as int].0@ == name@);
                    assert(entries_map(s).dom().contains(name@));
                }
                return Some(&self.entries[i].1);
            }
            i = i + 1;
        }
        proof {
            if self@.dom().contains(name@) {
                let j = choose|j: int| 0 <= j < s.len() && #[trigger] s[j].0@ == name@;
            }
        }
        None
    }

    /// Whether `name` is bound.
    pub fn contains_name(&self, name: &String) -> (r: bool)
        ensures
            r == self@.dom().contains(name@),
    {
        self.get(name).is_some()
    }

    /// Binds `name` to `value` if it is free; an already-bound name is
    /// left untouched and `false` comes back.
    pub fn insert(&mut self, name: String, value: V) -> (r: bool)
        ensures
            r == !old(self)@.dom().contains(name@),
            r ==> final(self)@ == old(self)@.insert(name@, value),
            !r ==> final(self)@ == old(self)@,
    {
        proof {
            use_type_invariant(&*self);
            lemma_entries_map(self.entries@);
        }
        if self.contains_name(&name) {
            return false;
        }
        let ghost s = self.entries@;
        let mut taken: Vec<(String, V)> = Vec::new();
        core::mem::swap(&mut taken, &mut self.entries);
        taken.push((name, value));
        proof {
            assert(names_unique(self.entries@));
        }
        proof {
            assert(taken@.drop_last() =~= s);
        }
        proof {
            assert forall|j: int| 0 <= j < s.len() implies #[trigger] s[j].0@
                != taken@.last().0@ by {
                lemma_entries_map(s);
            }
            assert(names_unique(taken@)) by {
                assert forall|i: int, j: int|
                    #![trigger taken@[i], taken@[j]]
                    0 <= i < j < taken@.len() implies taken@[i].0@ != taken@[j].0@ by {
                    if j < taken@.len() - 1 {
                        assert(s[i].0@ != s[j].0@);
                    } else {
                        assert(s[i].0@ != taken@.last().0@);
                    }
                }
            }
        }
        self.entries = taken;
        true
    }

    /// The entry list itself: unique names, each bound in the map to
    /// its value, and jointly covering the whole domain.
    pub fn entries(&self) -> (r: &Vec<(String, V)>)
        ensures
            names_unique(r@),
            forall|i: int|
                0 <= i < r@.len() ==> self@.dom().contains(#[trigger] r@[i].0@) && self@[r@[i].0@]
                    == r@[i].1,
            forall|n: Seq<char>|
                #[trigger] self@.dom().contains(n) ==> exists|i: int|
                    0 <= i < r@.len() && #[trigger] r@[i].0@ == n,
            r@.len() == self@.dom().len(),
    {
        proof {
            use_type_invariant(&*self);
            lemma_entries_map(self.entries@);
        }
        &self.entries
    }
}

/// At most one listener (or value of any kind) per route name: two
/// entries with the same name are the same entry.
pub proof fn lemma_at_most_one_per_name<V>(entries: Seq<(String, V)>, i: int, j: int)
    requires
        names_unique(entries),
        0 <= i < entries.len(),
        0 <= j < entries.len(),
        entries[i].0@ == entries[j].0@,
    ensures
        i == j,
{
}

} // verus!
