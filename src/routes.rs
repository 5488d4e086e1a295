//! Path → route operation map associations of a router, kept in step with
//! how the router is composed (`route`, `nest`, `merge`).
use vstd::prelude::*;

use crate::error::SpecError;
use crate::method::{str_equal, Method};
use crate::route_operations::MethodRouterOperations;

verus! {

/// Two path tables combined: a path present in both gets the merge of its two
/// route operation maps.
pub open spec fn merged_tables<G>(
    a: Map<Seq<char>, MethodRouterOperations<G>>,
    b: Map<Seq<char>, MethodRouterOperations<G>>,
) -> Map<Seq<char>, MethodRouterOperations<G>> {
    Map::new(
        |p: Seq<char>| a.contains_key(p) || b.contains_key(p),
        |p: Seq<char>|
            if a.contains_key(p) && b.contains_key(p) {
                a[p].merged_with(b[p])
            } else if a.contains_key(p) {
                a[p]
            } else {
                b[p]
            },
    )
}

/// Whether some path of both tables documents one method twice.
pub open spec fn tables_overlap<G>(
    a: Map<Seq<char>, MethodRouterOperations<G>>,
    b: Map<Seq<char>, MethodRouterOperations<G>>,
) -> bool {
    exists|p: Seq<char>| #[trigger]
        a.contains_key(p) && b.contains_key(p) && a[p].overlaps(b[p])
}

/// The table `m` with every path put under `prefix`.
pub open spec fn nested_table<G>(prefix: Seq<char>, m: Map<Seq<char>, MethodRouterOperations<G>>) -> Map<
    Seq<char>,
    MethodRouterOperations<G>,
> {
    Map::new(
        |p: Seq<char>|
            p.len() >= prefix.len() && p.subrange(0, prefix.len() as int) == prefix
                && m.contains_key(p.subrange(prefix.len() as int, p.len() as int)),
        |p: Seq<char>| m[p.subrange(prefix.len() as int, p.len() as int)],
    )
}

/// The paths of a table whose route operation map documents some method.
pub open spec fn documented<G>(m: Map<Seq<char>, MethodRouterOperations<G>>) -> Map<
    Seq<char>,
    MethodRouterOperations<G>,
> {
    m.restrict(Set::new(|p: Seq<char>| m.contains_key(p) && !m[p].spec_is_empty()))
}

/// Nesting keeps every documented operation: where combining `base` with
/// `other` nested under `prefix` succeeds, the generator that `other` has for
/// `method` at `inner` is, unchanged, the one for `method` at `prefix + inner`.
pub proof fn lemma_nest_keeps_operation<G>(
    base: Map<Seq<char>, MethodRouterOperations<G>>,
    prefix: Seq<char>,
    other: Map<Seq<char>, MethodRouterOperations<G>>,
    inner: Seq<char>,
    method: Method,
    g: G,
)
    requires
        other.contains_key(inner),
        other[inner].slot(method) == Some(g),
        !tables_overlap(base, nested_table(prefix, other)),
    ensures
        merged_tables(base, nested_table(prefix, other)).contains_key(prefix + inner),
        merged_tables(base, nested_table(prefix, other))[prefix + inner].slot(method) == Some(g),
{
    let p = prefix + inner;
    let nested = nested_table(prefix, other);
    assert(p.subrange(0, prefix.len() as int) =~= prefix);
    assert(p.subrange(prefix.len() as int, p.len() as int) =~= inner);
    assert(nested.contains_key(p));
    assert(nested[p] == other[inner]);
    if base.contains_key(p) {
        base[p].lemma_merged_slots(nested[p]);
        if base[p].slot(method) is Some {
            assert(base[p].overlaps_at(nested[p], method));
            assert(base.contains_key(p) && nested.contains_key(p) && base[p].overlaps(nested[p]));
        }
    }
}

/// A path whose route operation map documents no method has no entry among
/// the documented operations, whatever the rest of the table holds.
pub proof fn lemma_undocumented_route_absent<G>(
    table: Map<Seq<char>, MethodRouterOperations<G>>,
    path: Seq<char>,
    operations: MethodRouterOperations<G>,
)
    requires
        operations.spec_is_empty(),
    ensures
        !documented(table.insert(path, operations)).contains_key(path),
        documented(table.insert(path, operations)) == documented(table.remove(path)),
{
    assert(documented(table.insert(path, operations)) =~= documented(table.remove(path)));
}

/// The route operation maps of a router, one per path.
#[derive(Clone)]
pub struct RouteTable<G> {
    entries: Vec<(String, MethodRouterOperations<G>)>,
    model: Ghost<Map<Seq<char>, MethodRouterOperations<G>>>,
}

impl<G> View for RouteTable<G> {
    type V = Map<Seq<char>, MethodRouterOperations<G>>;

    closed spec fn view(&self) -> Self::V {
        self.model@
    }
}

impl<G: Copy> RouteTable<G> {
    /// Paths are unique, and the entries hold exactly the table's contents.
    pub closed spec fn wf(&self) -> bool {
        &&& forall|i: int, j: int|
            0 <= i < j < self.entries@.len() ==> self.entries@[i].0@ != self.entries@[j].0@
        &&& forall|i: int|
            0 <= i < self.entries@.len() ==> #[trigger] self.model@.contains_key(
                self.entries@[i].0@,
            ) && self.model@[self.entries@[i].0@] == self.entries@[i].1
        &&& forall|p: Seq<char>| #[trigger]
            self.model@.contains_key(p) ==> exists|i: int|
                0 <= i < self.entries@.len() && self.entries@[i].0@ == p
    }

    /// An empty table.
    pub fn new() -> (r: Self)
        ensures
            r.wf(),
            r@ == Map::<Seq<char>, MethodRouterOperations<G>>::empty(),
    {
        RouteTable { entries: Vec::new(), model: Ghost(Map::empty()) }
    }

    /// Whether the table has no path.
    pub fn is_empty(&self) -> (r: bool)
        requires
            self.wf(),
        ensures
            r == (self@.dom() == Set::<Seq<char>>::empty()),
    {
        if self.entries.len() == 0 {
            assert(self@.dom() =~= Set::<Seq<char>>::empty());
            true
        } else {
            assert(self@.dom().contains(self.entries@[0].0@));
            false
        }
    }

    fn find(&self, path: &str) -> (r: Option<usize>)
        requires
            self.wf(),
        ensures
            match r {
                Some(i) => i < self.entries@.len() && self.entries@[i as int].0@ == path@,
                None => !self@.contains_key(path@),
            },
    {
        let mut i: usize = 0;
        while i < self.entries.len()
            invariant
                self.wf(),
                i <= self.entries@.len(),
                forall|k: int| 0 <= k < i ==> self.entries@[k].0@ != path@,
            decreases self.entries@.len() - i,
        {
            if str_equal(self.entries[i].0.as_str(), path) {
                return Some(i);
            }
            i = i + 1;
        }
        None
    }

    /// The route operation map of `path`, if the table has one.
    pub fn get_path(&self, path: &str) -> (r: Option<&MethodRouterOperations<G>>)
        requires
            self.wf(),
        ensures
            match r {
                Some(x) => self@.contains_key(path@) && *x == self@[path@],
                None => !self@.contains_key(path@),
            },
    {
        match self.find(path) {
            Some(i) => {
                proof {
                    assert(self.model@.contains_key(self.entries@[i as int].0@));
                }
                Some(&self.entries[i].1)
            },
            None => None,
        }
    }

    /// The generator for `method` at `path`, if any.
    pub fn get(&self, path: &str, method: Method) -> (r: Option<G>)
        requires
            self.wf(),
        ensures
            r == (if self@.contains_key(path@) {
                self@[path@].slot(method)
            } else {
                None
            }),
    {
        match self.get_path(path) {
            Some(ops) => ops.get(method),
            None => None,
        }
    }

    /// Sets the route operation map of `path`, replacing one that was there.
    pub fn route(&mut self, path: &str, operations: MethodRouterOperations<G>)
        requires
            old(self).wf(),
        ensures
            final(self).wf(),
            final(self)@ == old(self)@.insert(path@, operations),
    {
        match self.find(path) {
            Some(i) => {
                let key = self.entries[i].0.clone();
                self.entries.set(i, (key, operations));
                self.model = Ghost(self.model@.insert(path@, operations));
                proof {
                    assert forall|k: int|
                        0 <= k < self.entries@.len() implies #[trigger] self.model@.contains_key(
                        self.entries@[k].0@,
                    ) && self.model@[self.entries@[k].0@] == self.entries@[k].1 by {
                        if k != i {
                            assert(old(self).model@.contains_key(old(self).entries@[k].0@));
                        }
                    }
                    assert forall|p: Seq<char>| #[trigger]
                        self.model@.contains_key(p) implies exists|k: int|
                        0 <= k < self.entries@.len() && self.entries@[k].0@ == p by {
                        if p != path@ {
                            let k = choose|k: int|
                                0 <= k < old(self).entries@.len() && old(self).entries@[k].0@ == p;
                            assert(self.entries@[k].0@ == p);
                        } else {
                            assert(self.entries@[i as int].0@ == p);
                        }
                    }
                }
            },
            None => {
                let key = String::from_str(path);
                self.entries.push((key, operations));
                self.model = Ghost(self.model@.insert(path@, operations));
                proof {
                    let n = self.entries@.len() - 1;
                    assert forall|k: int| 0 <= k < n implies self.entries@[k].0@ != path@ by {
                        assert(old(self).model@.contains_key(old(self).entries@[k].0@));
                    }
                    assert forall|k: int|
                        0 <= k < self.entries@.len() implies #[trigger] self.model@.contains_key(
                        self.entries@[k].0@,
                    ) && self.model@[self.entries@[k].0@] == self.entries@[k].1 by {
                        if k != n {
                            assert(old(self).model@.contains_key(old(self).entries@[k].0@));
                        }
                    }
                    assert forall|p: Seq<char>| #[trigger]
                        self.model@.contains_key(p) implies exists|k: int|
                        0 <= k < self.entries@.len() && self.entries@[k].0@ == p by {
                        if p != path@ {
                            let k = choose|k: int|
                                0 <= k < old(self).entries@.len() && old(self).entries@[k].0@ == p;
                            assert(self.entries@[k].0@ == p);
                        } else {
                            assert(self.entries@[n].0@ == p);
                        }
                    }
                }
            },
        }
    }

    /// Finds a path of `other` at which both tables document one method.
    fn find_overlap(&self, other: &Self) -> (r: Option<(String, Method)>)
        requires
            self.wf(),
            other.wf(),
        ensures
            match r {
                Some((p, m)) => self@.contains_key(p@) && other@.contains_key(p@) && self@[p@].overlaps_at(
                    other@[p@],
                    m,
                ),
                None => !tables_overlap(self@, other@),
            },
    {
        let mut j: usize = 0;
        while j < other.entries.len()
            invariant
                self.wf(),
                other.wf(),
                j <= other.entries@.len(),
                forall|k: int|
                    0 <= k < j ==> !(#[trigger] self@.contains_key(other.entries@[k].0@)
                        && self@[other.entries@[k].0@].overlaps(other.entries@[k].1)),
            decreases other.entries@.len() - j,
        {
            let path = other.entries[j].0.as_str();
            proof {
                assert(other.model@.contains_key(other.entries@[j as int].0@));
            }
            if let Some(i) = self.find(path) {
                proof {
                    assert(self.model@.contains_key(self.entries@[i as int].0@));
                }
                let mine = self.entries[i].1;
                let theirs = other.entries[j].1;
                match mine.merge(theirs) {
                    Err(SpecError::OverlappingMethod { method }) => {
                        proof {
                            assert(self.model@.contains_key(self.entries@[i as int].0@));
                            assert(other.model@.contains_key(other.entries@[j as int].0@));
                        }
                        return Some((other.entries[j].0.clone(), method));
                    },
                    _ => {},
                }
            }
            j = j + 1;
        }
        proof {
            assert forall|p: Seq<char>|
                !(#[trigger] self@.contains_key(p) && other@.contains_key(p) && self@[p].overlaps(
                    other@[p],
                )) by {
                if other@.contains_key(p) {
                    let k = choose|k: int|
                        0 <= k < other.entries@.len() && other.entries@[k].0@ == p;
                    assert(self@.contains_key(other.entries@[k].0@) ==> !self@[p].overlaps(
                        other@[p],
                    ));
                }
            }
        }
        None
    }

    /// Adds every path of `other` to this table; a path present in both gets
    /// the merge of its two maps. Fails, leaving the table as it was, where
    /// some path of both documents one method twice.
    pub fn merge(&mut self, other: Self) -> (r: Result<(), SpecError>)
        requires
            old(self).wf(),
            other.wf(),
        ensures
            final(self).wf(),
            match r {
                Ok(()) => !tables_overlap(old(self)@, other@) && final(self)@ == merged_tables(
                    old(self)@,
                    other@,
                ),
                Err(SpecError::OverlappingOperation { path, method }) => old(self)@.contains_key(path@)
                    && other@.contains_key(path@) && old(self)@[path@].overlaps_at(
                    other@[path@],
                    method,
                ) && final(self)@ == old(self)@,
                Err(_) => false,
            },
            r is Err <==> tables_overlap(old(self)@, other@),
    {
        if let Some((path, method)) = self.find_overlap(&other) {
            return Err(SpecError::OverlappingOperation { path, method });
        }
        let ghost old_model = self@;
        let ghost seen: Set<Seq<char>> = Set::empty();
        let mut j: usize = 0;
        while j < other.entries.len()
            invariant
                self.wf(),
                other.wf(),
                j <= other.entries@.len(),
                !tables_overlap(old_model, other@),
                forall|k: int| 0 <= k < j ==> #[trigger] seen.contains(other.entries@[k].0@),
                forall|k: int|
                    j <= k < other.entries@.len() ==> !#[trigger] seen.contains(
                        other.entries@[k].0@,
                    ),
                forall|p: Seq<char>| #[trigger] seen.contains(p) ==> other@.contains_key(p),
                forall|p: Seq<char>| #[trigger]
                    self@.contains_key(p) == (old_model.contains_key(p) || seen.contains(p)),
                forall|p: Seq<char>| #[trigger]
                    seen.contains(p) ==> self@[p] == merged_tables(old_model, other@)[p],
                forall|p: Seq<char>|
                    !seen.contains(p) && #[trigger] old_model.contains_key(p) ==> self@[p]
                        == old_model[p],
            decreases other.entries@.len() - j,
        {
            let ghost p = other.entries@[j as int].0@;
            let ops = other.entries[j].1;
            proof {
                assert(other.model@.contains_key(other.entries@[j as int].0@));
                assert(other@.contains_key(p));
                assert(ops == other@[p]);
                assert(!seen.contains(p));
            }
            match self.find(other.entries[j].0.as_str()) {
                Some(i) => {
                    proof {
                        assert(self.model@.contains_key(self.entries@[i as int].0@));
                    }
                    let mine = self.entries[i].1;
                    let merged = mine.merge(ops);
                    proof {
                        assert(self.entries@[i as int].0@ == p);
                        assert(self@.contains_key(p));
                        assert(old_model.contains_key(p));
                        assert(mine == old_model[p]);
                        assert(!(old_model.contains_key(p) && other@.contains_key(p)
                            && old_model[p].overlaps(other@[p])));
                    }
                    if let Ok(m) = merged {
                        self.route(other.entries[j].0.as_str(), m);
                    }
                },
                None => {
                    self.route(other.entries[j].0.as_str(), ops);
                },
            }
            proof {
                seen = seen.insert(p);
                assert forall|k: int| j + 1 <= k < other.entries@.len() implies !#[trigger] seen.contains(
                    other.entries@[k].0@,
                ) by {
                    assert(other.entries@[k].0@ != other.entries@[j as int].0@);
                }
            }
            j = j + 1;
        }
        proof {
            assert forall|p: Seq<char>| #[trigger] other@.contains_key(p) implies seen.contains(p) by {
                let k = choose|k: int|
                    0 <= k < other.entries@.len() && other.entries@[k].0@ == p;
            }
            assert(self@ =~= merged_tables(old_model, other@));
        }
        Ok(())
    }

    fn prefixed(prefix: &str, other: &Self) -> (r: Self)
        requires
            other.wf(),
        ensures
            r.wf(),
            r@ == nested_table(prefix@, other@),
    {
        let ghost plen = prefix@.len();
        let mut r = RouteTable::new();
        let ghost seen: Set<Seq<char>> = Set::empty();
        let mut j: usize = 0;
        while j < other.entries.len()
            invariant
                r.wf(),
                other.wf(),
                plen == prefix@.len(),
                j <= other.entries@.len(),
                forall|k: int| 0 <= k < j ==> #[trigger] seen.contains(other.entries@[k].0@),
                forall|q: Seq<char>| #[trigger] seen.contains(q) ==> other@.contains_key(q),
                forall|p: Seq<char>| #[trigger]
                    r@.contains_key(p) == (p.len() >= plen && p.subrange(0, plen as int) == prefix@
                        && seen.contains(p.subrange(plen as int, p.len() as int))),
                forall|p: Seq<char>| #[trigger]
                    r@.contains_key(p) ==> r@[p] == other@[p.subrange(plen as int, p.len() as int)],
            decreases other.entries@.len() - j,
        {
            let ghost q = other.entries@[j as int].0@;
            let mut key = String::from_str(prefix);
            key.append(other.entries[j].0.as_str());
            let ops = other.entries[j].1;
            proof {
                assert(other.model@.contains_key(other.entries@[j as int].0@));
                assert(key@.subrange(0, plen as int) =~= prefix@);
                assert(key@.subrange(plen as int, key@.len() as int) =~= q);
            }
            r.route(key.as_str(), ops);
            proof {
                let seen2 = seen.insert(q);
                assert forall|p: Seq<char>| #[trigger]
                    r@.contains_key(p) == (p.len() >= plen && p.subrange(0, plen as int) == prefix@
                        && seen2.contains(p.subrange(plen as int, p.len() as int))) by {
                    if p.len() >= plen && p.subrange(0, plen as int) == prefix@
                        && p.subrange(plen as int, p.len() as int) == q {
                        assert(p =~= prefix@ + q);
                    }
                }
                seen = seen2;
            }
            j = j + 1;
        }
        proof {
            assert forall|q: Seq<char>| #[trigger] other@.contains_key(q) implies seen.contains(q) by {
                let k = choose|k: int|
                    0 <= k < other.entries@.len() && other.entries@[k].0@ == q;
            }
            assert(r@ =~= nested_table(prefix@, other@));
        }
        r
    }

    /// Puts every path of `other` under `prefix` and adds it to this table as
    /// [`RouteTable::merge`] does: fails, leaving the table as it was, where a
    /// nested path is present here with a method documented on both sides.
    pub fn nest(&mut self, prefix: &str, other: Self) -> (r: Result<(), SpecError>)
        requires
            old(self).wf(),
            other.wf(),
        ensures
            final(self).wf(),
            match r {
                Ok(()) => final(self)@ == merged_tables(old(self)@, nested_table(prefix@, other@)),
                Err(SpecError::OverlappingOperation { path, method }) => old(self)@.contains_key(path@)
                    && nested_table(prefix@, other@).contains_key(path@) && old(self)@[path@].overlaps_at(
                    nested_table(prefix@, other@)[path@],
                    method,
                ) && final(self)@ == old(self)@,
                Err(_) => false,
            },
            r is Err <==> tables_overlap(old(self)@, nested_table(prefix@, other@)),
    {
        let nested = Self::prefixed(prefix, &other);
        self.merge(nested)
    }

    /// The table without its undocumented paths.
    pub fn into_operations(self) -> (r: RoutesOperations<G>)
        requires
            self.wf(),
        ensures
            r.wf(),
            r@ == documented(self@),
    {
        let mut table = RouteTable::new();
        let mut j: usize = 0;
        while j < self.entries.len()
            invariant
                self.wf(),
                table.wf(),
                j <= self.entries@.len(),
                forall|p: Seq<char>| #[trigger]
                    table@.contains_key(p) == (exists|k: int|
                        0 <= k < j && self.entries@[k].0@ == p && !self.entries@[k].1.spec_is_empty()),
                forall|p: Seq<char>| #[trigger] table@.contains_key(p) ==> table@[p] == self@[p],
            decreases self.entries@.len() - j,
        {
            proof {
                assert(self.model@.contains_key(self.entries@[j as int].0@));
            }
            let ops = self.entries[j].1;
            if !ops.is_empty() {
                table.route(self.entries[j].0.as_str(), ops);
                proof {
                    assert forall|p: Seq<char>| #[trigger]
                        table@.contains_key(p) == (exists|k: int|
                            0 <= k < j + 1 && self.entries@[k].0@ == p
                                && !self.entries@[k].1.spec_is_empty()) by {
                        if p == self.entries@[j as int].0@ {
                            assert(0 <= j < j + 1 && self.entries@[j as int].0@ == p);
                        }
                    }
                }
            } else {
                proof {
                    assert forall|p: Seq<char>| #[trigger]
                        table@.contains_key(p) == (exists|k: int|
                            0 <= k < j + 1 && self.entries@[k].0@ == p
                                && !self.entries@[k].1.spec_is_empty()) by {
                        if exists|k: int|
                            0 <= k < j + 1 && self.entries@[k].0@ == p
                                && !self.entries@[k].1.spec_is_empty() {
                            let k = choose|k: int|
                                0 <= k < j + 1 && self.entries@[k].0@ == p
                                    && !self.entries@[k].1.spec_is_empty();
                            assert(k != j);
                        }
                    }
                }
            }
            j = j + 1;
        }
        proof {
            assert forall|p: Seq<char>| #[trigger]
                table@.contains_key(p) == documented(self@).contains_key(p) by {
                if self@.contains_key(p) {
                    let k = choose|k: int|
                        0 <= k < self.entries@.len() && self.entries@[k].0@ == p;
                    assert(self.model@.contains_key(self.entries@[k].0@));
                }
                if table@.contains_key(p) {
                    let k = choose|k: int|
                        0 <= k < j && self.entries@[k].0@ == p && !self.entries@[k].1.spec_is_empty();
                    assert(self.model@.contains_key(self.entries@[k].0@));
                }
            }
            assert(table@ =~= documented(self@));
        }
        RoutesOperations { table }
    }
}

/// The documented operations of a router: every path of it documents at
/// least one method.
#[derive(Clone)]
pub struct RoutesOperations<G> {
    table: RouteTable<G>,
}

impl<G> View for RoutesOperations<G> {
    type V = Map<Seq<char>, MethodRouterOperations<G>>;

    closed spec fn view(&self) -> Self::V {
        self.table@
    }
}

impl<G: Copy> RoutesOperations<G> {
    pub closed spec fn wf(&self) -> bool {
        &&& self.table.wf()
        &&& forall|p: Seq<char>| #[trigger]
            self.table@.contains_key(p) ==> !self.table@[p].spec_is_empty()
    }

    /// The generator for `method` at `path`, if any.
    pub fn get(&self, path: &str, method: &Method) -> (r: Option<G>)
        requires
            self.wf(),
        ensures
            r == (if self@.contains_key(path@) {
                self@[path@].slot(*method)
            } else {
                None
            }),
    {
        self.table.get(path, *method)
    }

    /// The route operation map of `path`, if it documents some method.
    pub fn get_path(&self, path: &str) -> (r: Option<&MethodRouterOperations<G>>)
        requires
            self.wf(),
        ensures
            match r {
                Some(x) => self@.contains_key(path@) && *x == self@[path@],
                None => !self@.contains_key(path@),
            },
    {
        self.table.get_path(path)
    }

    /// Whether no operation is documented.
    pub fn is_empty(&self) -> (r: bool)
        requires
            self.wf(),
        ensures
            r == (self@.dom() == Set::<Seq<char>>::empty()),
    {
        self.table.is_empty()
    }

    /// Every documented `(path, method, generator)`, each `(path, method)` once.
    pub fn openapi_operation_generators(&self) -> (r: Vec<(String, Method, G)>)
        requires
            self.wf(),
        ensures
            forall|i: int|
                0 <= i < r@.len() ==> #[trigger] self@.contains_key(r@[i].0@) && self@[r@[i].0@].slot(
                    r@[i].1,
                ) == Some(r@[i].2),
            forall|p: Seq<char>, m: Method|
                #![trigger self@[p].slot(m)]
                self@.contains_key(p) && self@[p].slot(m) is Some ==> exists|i: int|
                    0 <= i < r@.len() && r@[i].0@ == p && r@[i].1 == m,
            forall|i: int, j: int|
                0 <= i < j < r@.len() ==> !(r@[i].0@ == r@[j].0@ && r@[i].1 == r@[j].1),
    {
        let entries = &self.table.entries;
        let mut r: Vec<(String, Method, G)> = Vec::new();
        let ghost mut src: Seq<int> = Seq::empty();
        let ghost mut pos: Map<(int, Method), int> = Map::empty();
        let mut j: usize = 0;
        while j < entries.len()
            invariant
                self.wf(),
                entries == &self.table.entries,
                j <= entries@.len(),
                src.len() == r@.len(),
                forall|i: int|
                    0 <= i < r@.len() ==> 0 <= #[trigger] src[i] < j && r@[i].0@ == entries@[src[i]].0@
                        && entries@[src[i]].1.slot(r@[i].1) == Some(r@[i].2),
                forall|k: int, m: Method|
                    0 <= k < j && #[trigger] entries@[k].1.slot(m) is Some ==> pos.contains_key((k, m))
                        && 0 <= pos[(k, m)] < r@.len() && r@[pos[(k, m)]].0@ == entries@[k].0@
                        && r@[pos[(k, m)]].1 == m,
                forall|i: int, i2: int|
                    0 <= i < i2 < r@.len() ==> !(r@[i].0@ == r@[i2].0@ && r@[i].1 == r@[i2].1),
            decreases entries@.len() - j,
        {
            let flat = entries[j].1.into_map();
            let ghost base = r@.len() as int;
            let mut t: usize = 0;
            while t < flat.len()
                invariant
                    self.wf(),
                    entries == &self.table.entries,
                    j < entries@.len(),
                    flat@ == entries@[j as int].1.entries(),
                    t <= flat@.len(),
                    0 <= base,
                    r@.len() == base + t,
                    src.len() == r@.len(),
                    forall|i: int|
                        0 <= i < r@.len() ==> 0 <= #[trigger] src[i] < j + 1 && r@[i].0@
                            == entries@[src[i]].0@ && entries@[src[i]].1.slot(r@[i].1) == Some(r@[i].2),
                    forall|i: int| base <= i < r@.len() ==> #[trigger] src[i] == j,
                    forall|i: int| 0 <= i < base ==> #[trigger] src[i] < j,
                    forall|k: int, m: Method|
                        0 <= k < j && #[trigger] entries@[k].1.slot(m) is Some ==> pos.contains_key(
                            (k, m),
                        ) && 0 <= pos[(k, m)] < base && r@[pos[(k, m)]].0@ == entries@[k].0@
                            && r@[pos[(k, m)]].1 == m,
                    forall|t2: int|
                        0 <= t2 < t ==> pos.contains_key((j as int, #[trigger] flat@[t2].0))
                            && pos[(j as int, flat@[t2].0)] == base + t2 && r@[base + t2].1
                            == flat@[t2].0,
                    forall|i: int, i2: int|
                        0 <= i < i2 < r@.len() ==> !(r@[i].0@ == r@[i2].0@ && r@[i].1 == r@[i2].1),
                decreases flat@.len() - t,
            {
                let (m, g) = flat[t];
                let path = entries[j].0.clone();
                proof {
                    entries@[j as int].1.lemma_entries(t as int);
                    assert forall|i: int| 0 <= i < r@.len() implies !(r@[i].0@ == path@ && r@[i].1
                        == m) by {
                        if i < base {
                            assert(src[i] < j);
                            assert(entries@[src[i]].0@ != entries@[j as int].0@);
                        } else {
                            entries@[j as int].1.lemma_entries_distinct(i - base, t as int);
                            assert(r@[base + (i - base)].1 == flat@[i - base].0);
                        }
                    }
                }
                r.push((path, m, g));
                proof {
                    let new_src = src.push(j as int);
                    let new_pos = pos.insert((j as int, m), base + t);
                    assert forall|i: int| base <= i < r@.len() implies #[trigger] new_src[i] == j by {
                        if i < base + t {
                            assert(src[i] == j);
                        }
                    }
                    assert forall|t2: int|
                        0 <= t2 < t + 1 implies new_pos.contains_key((j as int, #[trigger] flat@[t2].0))
                            && new_pos[(j as int, flat@[t2].0)] == base + t2 && r@[base + t2].1
                            == flat@[t2].0 by {
                        if t2 < t {
                            entries@[j as int].1.lemma_entries_distinct(t2, t as int);
                            assert(flat@[t2].0 != m);
                        } else {
                            assert(flat@[t2].0 == m);
                        }
                    }
                    src = new_src;
                    pos = new_pos;
                }
                t = t + 1;
            }
            proof {
                assert forall|k: int, m: Method|
                    0 <= k < j + 1 && #[trigger] entries@[k].1.slot(m) is Some implies pos.contains_key(
                        (k, m),
                    ) && 0 <= pos[(k, m)] < r@.len() && r@[pos[(k, m)]].0@ == entries@[k].0@
                        && r@[pos[(k, m)]].1 == m by {
                    if k == j {
                        let t0 = entries@[j as int].1.lemma_entries_complete(m);
                        assert(flat@[t0].0 == m);
                        assert(src[base + t0] == j);
                    }
                }
            }
            j = j + 1;
        }
        proof {
            assert forall|i: int|
                0 <= i < r@.len() implies #[trigger] self@.contains_key(r@[i].0@) && self@[r@[i].0@].slot(
                    r@[i].1,
                ) == Some(r@[i].2) by {
                let k = src[i];
                assert(self.table.model@.contains_key(entries@[k].0@));
            }
            assert forall|p: Seq<char>, m: Method|
                #![trigger self@[p].slot(m)]
                self@.contains_key(p) && self@[p].slot(m) is Some implies exists|i: int|
                    0 <= i < r@.len() && r@[i].0@ == p && r@[i].1 == m by {
                let k = choose|k: int| 0 <= k < entries@.len() && entries@[k].0@ == p;
                assert(self.table.model@.contains_key(entries@[k].0@));
                assert(entries@[k].1.slot(m) is Some);
                let i = pos[(k, m)];
                assert(r@[i].0@ == p && r@[i].1 == m);
            }
        }
        r
    }
}

} // verus!
