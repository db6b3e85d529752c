//! The values bound to the variables of a command template: a list of
//! (name, value) pairs kept in the order in which names were first bound.

use vstd::prelude::*;

verus! {

/// The value that the first pair named `name` holds, if any.
pub open spec fn lookup(entries: Seq<(Seq<char>, Seq<char>)>, name: Seq<char>) -> Option<
    Seq<char>,
>
    decreases entries.len(),
{
    if entries.len() == 0 {
        None
    } else if entries[0].0 == name {
        Some(entries[0].1)
    } else {
        lookup(entries.drop_first(), name)
    }
}

/// `entries` with the value of the first pair named `name` replaced.
pub open spec fn replace_first(
    entries: Seq<(Seq<char>, Seq<char>)>,
    name: Seq<char>,
    value: Seq<char>,
) -> Seq<(Seq<char>, Seq<char>)>
    decreases entries.len(),
{
    if entries.len() == 0 {
        entries
    } else if entries[0].0 == name {
        entries.update(0, (name, value))
    } else {
        seq![entries[0]] + replace_first(entries.drop_first(), name, value)
    }
}

/// Binding `name` to `value`: a bound name keeps its place, a new one is
/// appended.
pub open spec fn insert_entry(
    entries: Seq<(Seq<char>, Seq<char>)>,
    name: Seq<char>,
    value: Seq<char>,
) -> Seq<(Seq<char>, Seq<char>)> {
    if lookup(entries, name) is Some {
        replace_first(entries, name, value)
    } else {
        entries.push((name, value))
    }
}

/// The names of the pairs, in order.
pub open spec fn entry_names(entries: Seq<(Seq<char>, Seq<char>)>) -> Seq<Seq<char>> {
    entries.map_values(|p: (Seq<char>, Seq<char>)| p.0)
}

/// A mapping from variable names to values.
#[derive(Debug, Clone, PartialEq, Eq)]
pub struct VariableValues {
    entries: Vec<(String, String)>,
}

impl View for VariableValues {
    type V = Seq<(Seq<char>, Seq<char>)>;

    closed spec fn view(&self) -> Seq<(Seq<char>, Seq<char>)> {
        self.entries@.map_values(|p: (String, String)| (p.0@, p.1@))
    }
}

/// A name that a list does not hold is looked up in vain; one it holds is
/// found at its first place.
proof fn lemma_lookup_index(entries: Seq<(Seq<char>, Seq<char>)>, name: Seq<char>, i: int)
    requires
        0 <= i <= entries.len(),
        forall|j: int| 0 <= j < i ==> (#[trigger] entries[j]).0 != name,
    ensures
        lookup(entries, name) == lookup(entries.subrange(i, entries.len() as int), name),
    decreases i,
{
    if i > 0 {
        assert(entries.subrange(1, entries.len() as int) =~= entries.drop_first());
        lemma_lookup_index(entries.drop_first(), name, i - 1);
        assert(entries.drop_first().subrange(i - 1, entries.len() - 1) =~= entries.subrange(
            i,
            entries.len() as int,
        ));
    } else {
        assert(entries.subrange(0, entries.len() as int) =~= entries);
    }
}

/// Replacing the value of the first pair named `name` changes the lookup of
/// that name only.
proof fn lemma_lookup_update(
    entries: Seq<(Seq<char>, Seq<char>)>,
    name: Seq<char>,
    value: Seq<char>,
    i: int,
    k: Seq<char>,
)
    requires
        0 <= i < entries.len(),
        entries[i].0 == name,
        forall|j: int| 0 <= j < i ==> (#[trigger] entries[j]).0 != name,
    ensures
        lookup(entries.update(i, (name, value)), k) == (if k == name {
            Some(value)
        } else {
            lookup(entries, k)
        }),
    decreases i,
{
    let u = entries.update(i, (name, value));
    if i > 0 {
        assert(entries[0].0 != name);
        assert(u[0] == entries[0]);
        assert(u.drop_first() =~= entries.drop_first().update(i - 1, (name, value)));
        assert forall|j: int| 0 <= j < i - 1 implies (#[trigger] entries.drop_first()[j]).0
            != name by {
            assert(entries.drop_first()[j] == entries[j + 1]);
        }
        lemma_lookup_update(entries.drop_first(), name, value, i - 1, k);
    } else {
        assert(u.drop_first() =~= entries.drop_first());
    }
}

proof fn lemma_replace_first(
    entries: Seq<(Seq<char>, Seq<char>)>,
    name: Seq<char>,
    value: Seq<char>,
    i: int,
)
    requires
        0 <= i < entries.len(),
        entries[i].0 == name,
        forall|j: int| 0 <= j < i ==> (#[trigger] entries[j]).0 != name,
    ensures
        entries.update(i, (name, value)) == replace_first(entries, name, value),
    decreases i,
{
    if i > 0 {
        assert(entries[0].0 != name);
        assert forall|j: int| 0 <= j < i - 1 implies (#[trigger] entries.drop_first()[j]).0
            != name by {
            assert(entries.drop_first()[j] == entries[j + 1]);
        }
        lemma_replace_first(entries.drop_first(), name, value, i - 1);
        assert(entries.update(i, (name, value)) =~= seq![entries[0]] + entries.drop_first().update(
            i - 1,
            (name, value),
        ));
    }
}

/// Appending a pair for a name that the list does not hold.
proof fn lemma_lookup_push(
    entries: Seq<(Seq<char>, Seq<char>)>,
    name: Seq<char>,
    value: Seq<char>,
    k: Seq<char>,
)
    requires
        lookup(entries, name) is None,
    ensures
        lookup(entries.push((name, value)), k) == (if k == name {
            Some(value)
        } else {
            lookup(entries, k)
        }),
    decreases entries.len(),
{
    if entries.len() > 0 {
        assert(entries.push((name, value))[0] == entries[0]);
        assert(entries.push((name, value)).drop_first() =~= entries.drop_first().push(
            (name, value),
        ));
        lemma_lookup_push(entries.drop_first(), name, value, k);
    } else {
        assert(entries.push((name, value)).drop_first() =~= entries);
    }
}

/// A name is bound exactly when some pair carries it.
pub proof fn lemma_lookup_names(entries: Seq<(Seq<char>, Seq<char>)>, name: Seq<char>)
    ensures
        lookup(entries, name) is Some <==> entry_names(entries).contains(name),
    decreases entries.len(),
{
    let names = entry_names(entries);
    if entries.len() > 0 {
        lemma_lookup_names(entries.drop_first(), name);
        let rest = entry_names(entries.drop_first());
        assert(names.drop_first() =~= rest);
        assert(names[0] == entries[0].0);
        if rest.contains(name) {
            let j = choose|j: int| 0 <= j < rest.len() && rest[j] == name;
            assert(names[j + 1] == name);
        }
        if names.contains(name) && entries[0].0 != name {
            let j = choose|j: int| 0 <= j < names.len() && names[j] == name;
            assert(rest[j - 1] == name);
        }
    } else {
        if names.contains(name) {
            let j = choose|j: int| 0 <= j < names.len() && names[j] == name;
        }
    }
}

impl VariableValues {
    /// No variable bound.
    pub fn new() -> (r: VariableValues)
        ensures
            r@ == Seq::<(Seq<char>, Seq<char>)>::empty(),
    {
        let r = VariableValues { entries: Vec::new() };
        proof {
            assert(r@ =~= Seq::<(Seq<char>, Seq<char>)>::empty());
        }
        r
    }

    /// The pairs, in order.
    pub fn entries(&self) -> (r: &Vec<(String, String)>)
        ensures
            r@.map_values(|p: (String, String)| (p.0@, p.1@)) == self@,
    {
        &self.entries
    }

    /// The value bound to `name`, if any.
    pub fn get(&self, name: &String) -> (r: Option<&String>)
        ensures
            match lookup(self@, name@) {
                Some(v) => r is Some && r->0@ == v,
                None => r is None,
            },
    {
        let mut i: usize = 0;
        while i < self.entries.len()
            invariant
                i <= self.entries@.len(),
                forall|j: int| 0 <= j < i ==> (#[trigger] self@[j]).0 != name@,
            decreases self.entries@.len() - i,
        {
            if self.entries[i].0 == *name {
                proof {
                    lemma_lookup_index(self@, name@, i as int);
                    assert(self@.subrange(i as int, self@.len() as int)[0] == self@[i as int]);
                }
                return Some(&self.entries[i].1);
            }
            i = i + 1;
        }
        proof {
            lemma_lookup_index(self@, name@, i as int);
        }
        None
    }

    /// Binds `name` to `value`: the value of a bound name is replaced in
    /// place, a new name is appended.
    pub fn insert(&mut self, name: String, value: String)
        ensures
            final(self)@ == insert_entry(old(self)@, name@, value@),
            entry_names(old(self)@).no_duplicates() ==> entry_names(final(self)@).no_duplicates(),
            forall|k: Seq<char>|
                #[trigger] lookup(final(self)@, k) == (if k == name@ {
                    Some(value@)
                } else {
                    lookup(old(self)@, k)
                }),
            entry_names(final(self)@) == (if lookup(old(self)@, name@) is Some {
                entry_names(old(self)@)
            } else {
                entry_names(old(self)@).push(name@)
            }),
    {
        let ghost e = self@;
        let mut i: usize = 0;
        while i < self.entries.len()
            invariant
                i <= self.entries@.len(),
                self@ == e,
                e == old(self)@,
                forall|j: int| 0 <= j < i ==> (#[trigger] e[j]).0 != name@,
            decreases self.entries@.len() - i,
        {
            if self.entries[i].0 == name {
                proof {
                    lemma_lookup_index(e, name@, i as int);
                    assert(e.subrange(i as int, e.len() as int)[0] == e[i as int]);
                    assert forall|k: Seq<char>| #[trigger]
                        lookup(e.update(i as int, (name@, value@)), k) == (if k == name@ {
                            Some(value@)
                        } else {
                            lookup(e, k)
                        }) by {
                        lemma_lookup_update(e, name@, value@, i as int, k);
                    }
                    lemma_replace_first(e, name@, value@, i as int);
                }
                let ghost nv = value@;
                self.entries[i] = (name, value);
                proof {
                    assert(self@ =~= e.update(i as int, (e[i as int].0, nv)));
                    assert(entry_names(self@) =~= entry_names(e));
                }
                return;
            }
            i = i + 1;
        }
        proof {
            lemma_lookup_index(e, name@, i as int);
            assert forall|k: Seq<char>| #[trigger]
                lookup(e.push((name@, value@)), k) == (if k == name@ {
                    Some(value@)
                } else {
                    lookup(e, k)
                }) by {
                lemma_lookup_push(e, name@, value@, k);
            }
        }
        let ghost nn = name@;
        let ghost nv = value@;
        self.entries.push((name, value));
        proof {
            assert(self@ =~= e.push((nn, nv)));
            assert(entry_names(self@) =~= entry_names(e).push(nn));
            lemma_lookup_names(e, nn);
            let names = entry_names(self@);
            if entry_names(e).no_duplicates() {
                assert forall|a: int, b: int|
                    0 <= a < names.len() && 0 <= b < names.len() && a != b implies names[a]
                    != names[b] by {
                    if b == names.len() - 1 {
                        assert(entry_names(e)[a] == names[a]);
                    } else if a == names.len() - 1 {
                        assert(entry_names(e)[b] == names[b]);
                    } else {
                        assert(entry_names(e)[a] == names[a]);
                        assert(entry_names(e)[b] == names[b]);
                    }
                }
            }
        }
    }
}

} // verus!
