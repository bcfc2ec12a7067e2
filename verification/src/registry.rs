//! Named services: the registry behind the chat and embedding service
//! managers. A name maps to at most one service; adding under a name that is
//! taken replaces the service.
use vstd::prelude::*;
use crate::chunking::views;

verus! {

/// Services by name.
pub struct ServiceRegistry<S> {
    entries: Vec<(String, S)>,
}

/// The names of `e`, in order.
pub open spec fn names_of<S>(e: Seq<(String, S)>) -> Seq<Seq<char>> {
    e.map_values(|p: (String, S)| p.0@)
}

/// `k` is the name at some position of `e`.
pub open spec fn has_name<S>(e: Seq<(String, S)>, k: Seq<char>) -> bool {
    exists|i: int| 0 <= i < e.len() && #[trigger] e[i].0@ == k
}

/// The position of name `k` in `e`.
pub open spec fn position_of<S>(e: Seq<(String, S)>, k: Seq<char>) -> int {
    choose|i: int| 0 <= i < e.len() && #[trigger] e[i].0@ == k
}

/// The services of `e` by name.
pub open spec fn map_of<S>(e: Seq<(String, S)>) -> Map<Seq<char>, S> {
    Map::new(|k: Seq<char>| has_name(e, k), |k: Seq<char>| e[position_of(e, k)].1)
}

/// No name occurs twice in `e`.
pub open spec fn unique_names<S>(e: Seq<(String, S)>) -> bool {
    forall|i: int, j: int|
        0 <= i < e.len() && 0 <= j < e.len() && i != j ==> #[trigger] e[i].0@ != #[trigger] e[j].0@
}

proof fn lemma_position<S>(e: Seq<(String, S)>, i: int)
    requires
        unique_names(e),
        0 <= i < e.len(),
    ensures
        has_name(e, e[i].0@),
        position_of(e, e[i].0@) == i,
{
    assert(has_name(e, e[i].0@));
}

impl<S> View for ServiceRegistry<S> {
    type V = Map<Seq<char>, S>;

    closed spec fn view(&self) -> Map<Seq<char>, S> {
        map_of(self.entries@)
    }
}

fn find_name<S>(e: &Vec<(String, S)>, name: &String) -> (r: Option<usize>)
    ensures
        match r {
            Some(i) => i < e@.len() && e@[i as int].0@ == name@,
            None => !has_name(e@, name@),
        },
{
    let mut i: usize = 0;
    while i < e.len()
        invariant
            i <= e@.len(),
            forall|j: int| 0 <= j < i ==> e@[j].0@ != name@,
        decreases e@.len() - i,
    {
        if e[i].0 == *name {
            return Some(i);
        }
        i += 1;
    }
    None
}

impl<S> ServiceRegistry<S> {
    #[verifier::type_invariant]
    closed spec fn wf(self) -> bool {
        unique_names(self.entries@)
    }

    /// An empty registry.
    pub fn new() -> (r: Self)
        ensures
            r@ == Map::<Seq<char>, S>::empty(),
    {
        let r = ServiceRegistry { entries: Vec::new() };
        assert(r@ =~= Map::<Seq<char>, S>::empty());
        r
    }

    /// Registers `service` under `name`, replacing a service of that name.
    pub fn add_service(&mut self, name: String, service: S)
        ensures
            final(self)@ == old(self)@.insert(name@, service),
    {
        proof {
            use_type_invariant(&*self);
        }
        let ghost old_e = self.entries@;
        let found = find_name(&self.entries, &name);
        let mut entries: Vec<(String, S)> = Vec::new();
                std::mem::swap(&mut entries, &mut self.entries);
        assert(entries@ == old_e);
        let ghost k = name@;
        match found {
            Some(i) => {
                entries.set(i, (name, service));
                let ghost e = entries@;
                assert(e == old_e.update(i as int, (e[i as int].0, service)));
                assert(unique_names(e)) by {
                    assert forall|a: int, b: int|
                        0 <= a < e.len() && 0 <= b < e.len() && a != b implies #[trigger] e[a].0@
                        != #[trigger] e[b].0@ by {
                        if a != i && b != i {
                            assert(old_e[a].0@ != old_e[b].0@);
                        } else if a == i {
                            assert(old_e[i as int].0@ != old_e[b].0@);
                        } else {
                            assert(old_e[a].0@ != old_e[i as int].0@);
                        }
                    }
                }
                assert(map_of(e) =~= map_of(old_e).insert(k, service)) by {
                    assert forall|x: Seq<char>| #[trigger] has_name(e, x) == (has_name(old_e, x)
                        || x == k) by {
                        if has_name(e, x) {
                            let j = choose|j: int| 0 <= j < e.len() && #[trigger] e[j].0@ == x;
                            if j != i {
                                assert(old_e[j].0@ == x);
                            }
                        }
                        if has_name(old_e, x) {
                            let j = choose|j: int| 0 <= j < old_e.len() && #[trigger] old_e[j].0@
                                == x;
                            assert(e[j].0@ == x);
                        }
                        if x == k {
                            assert(e[i as int].0@ == x);
                        }
                    }
                    assert forall|x: Seq<char>| has_name(e, x) implies #[trigger] map_of(e)[x]
                        == map_of(old_e).insert(k, service)[x] by {
                        let j = choose|j: int| 0 <= j < e.len() && #[trigger] e[j].0@ == x;
                        lemma_position(e, j);
                        if j != i {
                            assert(old_e[j].0@ == x);
                            lemma_position(old_e, j);
                        }
                    }
                }
            },
            None => {
                entries.push((name, service));
                let ghost e = entries@;
                assert(e == old_e.push(e.last()));
                assert(unique_names(e)) by {
                    assert forall|a: int, b: int|
                        0 <= a < e.len() && 0 <= b < e.len() && a != b implies #[trigger] e[a].0@
                        != #[trigger] e[b].0@ by {
                        if a < old_e.len() && b < old_e.len() {
                            assert(old_e[a].0@ != old_e[b].0@);
                        } else if a < old_e.len() {
                            assert(old_e[a].0@ != k);
                        } else {
                            assert(old_e[b].0@ != k);
                        }
                    }
                }
                assert(map_of(e) =~= map_of(old_e).insert(k, service)) by {
                    assert forall|x: Seq<char>| #[trigger] has_name(e, x) == (has_name(old_e, x)
                        || x == k) by {
                        if has_name(e, x) {
                            let j = choose|j: int| 0 <= j < e.len() && #[trigger] e[j].0@ == x;
                            if j < old_e.len() {
                                assert(old_e[j].0@ == x);
                            }
                        }
                        if has_name(old_e, x) {
                            let j = choose|j: int| 0 <= j < old_e.len() && #[trigger] old_e[j].0@
                                == x;
                            assert(e[j].0@ == x);
                        }
                        if x == k {
                            assert(e[old_e.len() as int].0@ == x);
                        }
                    }
                    assert forall|x: Seq<char>| has_name(e, x) implies #[trigger] map_of(e)[x]
                        == map_of(old_e).insert(k, service)[x] by {
                        let j = choose|j: int| 0 <= j < e.len() && #[trigger] e[j].0@ == x;
                        lemma_position(e, j);
                        if j < old_e.len() {
                            assert(old_e[j].0@ == x);
                            lemma_position(old_e, j);
                        }
                    }
                }
            },
        }
        self.entries = entries;
    }

    /// Removes the service registered under `name`, if any.
    pub fn delete_service(&mut self, name: &str)
        ensures
            final(self)@ == old(self)@.remove(name@),
    {
        proof {
            use_type_invariant(&*self);
        }
        let key = name.to_owned();
        let ghost old_e = self.entries@;
        let ghost k = name@;
        match find_name(&self.entries, &key) {
            Some(i) => {
                let mut entries: Vec<(String, S)> = Vec::new();
                std::mem::swap(&mut entries, &mut self.entries);
                assert(entries@ == old_e);
                let _ = entries.remove(i);
                let ghost e = entries@;
                assert(e == old_e.remove(i as int));
                assert forall|a: int| 0 <= a < e.len() implies #[trigger] e[a] == old_e[if a < i {
                    a
                } else {
                    a + 1
                }] by {}
                assert(unique_names(e)) by {
                    assert forall|a: int, b: int|
                        0 <= a < e.len() && 0 <= b < e.len() && a != b implies #[trigger] e[a].0@
                        != #[trigger] e[b].0@ by {
                        let a2 = if a < i {
                            a
                        } else {
                            a + 1
                        };
                        let b2 = if b < i {
                            b
                        } else {
                            b + 1
                        };
                        assert(old_e[a2].0@ != old_e[b2].0@);
                    }
                }
                assert(map_of(e) =~= map_of(old_e).remove(k)) by {
                    assert forall|x: Seq<char>| #[trigger] has_name(e, x) == (has_name(old_e, x)
                        && x != k) by {
                        if has_name(e, x) {
                            let j = choose|j: int| 0 <= j < e.len() && #[trigger] e[j].0@ == x;
                            let j2 = if j < i {
                                j
                            } else {
                                j + 1
                            };
                            assert(old_e[j2].0@ == x);
                            assert(old_e[i as int].0@ != old_e[j2].0@);
                        }
                        if has_name(old_e, x) && x != k {
                            let j = choose|j: int| 0 <= j < old_e.len() && #[trigger] old_e[j].0@
                                == x;
                            assert(j != i);
                            let j1 = if j < i {
                                j
                            } else {
                                j - 1
                            };
                            assert(e[j1].0@ == x);
                        }
                    }
                    assert forall|x: Seq<char>| has_name(e, x) implies #[trigger] map_of(e)[x]
                        == map_of(old_e).remove(k)[x] by {
                        let j = choose|j: int| 0 <= j < e.len() && #[trigger] e[j].0@ == x;
                        lemma_position(e, j);
                        let j2 = if j < i {
                            j
                        } else {
                            j + 1
                        };
                        lemma_position(old_e, j2);
                    }
                }
                self.entries = entries;
            },
            None => {
                assert(map_of(old_e) =~= map_of(old_e).remove(k));
            },
        }
    }

    /// The names of all registered services, each once.
    pub fn list_services(&self) -> (r: Vec<String>)
        ensures
            views(r@).to_set() == self@.dom(),
            views(r@).no_duplicates(),
    {
        proof {
            use_type_invariant(self);
        }
        let ghost e = self.entries@;
        let mut r: Vec<String> = Vec::new();
        let mut i: usize = 0;
        while i < self.entries.len()
            invariant
                e == self.entries@,
                unique_names(e),
                i <= e.len(),
                views(r@) == names_of(e).take(i as int),
            decreases e.len() - i,
        {
            let ghost before = views(r@);
            r.push(self.entries[i].0.clone());
            assert(views(r@) == before.push(e[i as int].0@));
            assert(names_of(e).take(i + 1) == names_of(e).take(i as int).push(e[i as int].0@));
            i += 1;
        }
        assert(names_of(e).take(e.len() as int) == names_of(e));
        assert(views(r@).to_set() =~= self@.dom()) by {
            assert forall|x: Seq<char>| views(r@).to_set().contains(x) implies has_name(e, x) by {
                let j = choose|j: int| 0 <= j < views(r@).len() && views(r@)[j] == x;
                assert(e[j].0@ == x);
            }
            assert forall|x: Seq<char>| has_name(e, x) implies views(r@).to_set().contains(x) by {
                let j = choose|j: int| 0 <= j < e.len() && #[trigger] e[j].0@ == x;
                assert(views(r@)[j] == x);
            }
        }
        r
    }

    /// The service registered under `name`; the error "Service not found"
    /// when there is none.
    pub fn lookup(&self, name: &str) -> (r: Result<&S, String>)
        ensures
            match r {
                Ok(s) => self@.contains_key(name@) && *s == self@[name@],
                Err(msg) => !self@.contains_key(name@) && msg@ == "Service not found"@,
            },
    {
        proof {
            use_type_invariant(self);
        }
        let key = name.to_owned();
        match find_name(&self.entries, &key) {
            Some(i) => {
                proof {
                    lemma_position(self.entries@, i as int);
                }
                Ok(&self.entries[i].1)
            },
            None => Err("Service not found".to_owned()),
        }
    }
}

/// What a lookup of `name` gives in a registry viewed as `m`.
pub open spec fn lookup_spec<S>(m: Map<Seq<char>, S>, name: Seq<char>) -> Option<S> {
    if m.contains_key(name) {
        Some(m[name])
    } else {
        None
    }
}

/// A lookup finds what was last added under its name, is not disturbed by
/// adding or deleting other names, and finds nothing after the name is
/// deleted.
pub proof fn law_registry_read_after_write<S>(
    m: Map<Seq<char>, S>,
    name: Seq<char>,
    other: Seq<char>,
    service: S,
)
    requires
        name != other,
    ensures
        lookup_spec(m.insert(name, service), name) == Some(service),
        lookup_spec(m.insert(name, service), other) == lookup_spec(m, other),
        lookup_spec(m.remove(name), name) is None,
        lookup_spec(m.remove(name), other) == lookup_spec(m, other),
{
}

} // verus!
