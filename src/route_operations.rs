//! The operation generators of one path, one slot per HTTP method.
use vstd::prelude::*;

use crate::error::SpecError;
use crate::method::{is_filter_present, Method, MethodFilter};

verus! {

/// At most one operation generator for each HTTP method of one path.
///
/// A method wired to a handler without documentation has an empty slot.
#[derive(Clone, Copy)]
pub struct MethodRouterOperations<G> {
    delete: Option<G>,
    get: Option<G>,
    head: Option<G>,
    options: Option<G>,
    patch: Option<G>,
    post: Option<G>,
    put: Option<G>,
    trace: Option<G>,
}

/// The entry of one slot, if it is filled.
pub open spec fn slot_entry<G>(m: Method, o: Option<G>) -> Seq<(Method, G)> {
    match o {
        Some(g) => seq![(m, g)],
        None => seq![],
    }
}

/// The slot of `m` after merging two slots that are not both filled.
pub open spec fn merged_slot<G>(a: Option<G>, b: Option<G>) -> Option<G> {
    if a is Some {
        a
    } else {
        b
    }
}

impl<G> MethodRouterOperations<G> {
    /// The generator for `m`, if any.
    pub closed spec fn slot(self, m: Method) -> Option<G> {
        match m {
            Method::DELETE => self.delete,
            Method::GET => self.get,
            Method::HEAD => self.head,
            Method::OPTIONS => self.options,
            Method::PATCH => self.patch,
            Method::POST => self.post,
            Method::PUT => self.put,
            Method::TRACE => self.trace,
        }
    }

    /// Whether both maps document `m`.
    pub open spec fn overlaps_at(self, other: Self, m: Method) -> bool {
        self.slot(m) is Some && other.slot(m) is Some
    }

    /// The slot-wise union of two maps that do not overlap.
    pub closed spec fn merged_with(self, other: Self) -> Self {
        MethodRouterOperations {
            delete: merged_slot(self.delete, other.delete),
            get: merged_slot(self.get, other.get),
            head: merged_slot(self.head, other.head),
            options: merged_slot(self.options, other.options),
            patch: merged_slot(self.patch, other.patch),
            post: merged_slot(self.post, other.post),
            put: merged_slot(self.put, other.put),
            trace: merged_slot(self.trace, other.trace),
        }
    }

    /// Each slot of a merged map is the filled one of the two slots.
    pub proof fn lemma_merged_slots(self, other: Self)
        ensures
            forall|m: Method| #[trigger]
                self.merged_with(other).slot(m) == merged_slot(self.slot(m), other.slot(m)),
    {
    }

    /// Whether some method is documented by both maps.
    pub open spec fn overlaps(self, other: Self) -> bool {
        exists|m: Method| self.overlaps_at(other, m)
    }

    /// Whether no slot is filled.
    pub open spec fn spec_is_empty(self) -> bool {
        forall|m: Method| self.slot(m) is None
    }

    /// The filled slots, in the canonical order of methods.
    pub open spec fn entries(self) -> Seq<(Method, G)> {
        slot_entry(Method::DELETE, self.slot(Method::DELETE)) + slot_entry(
            Method::GET,
            self.slot(Method::GET),
        ) + slot_entry(Method::HEAD, self.slot(Method::HEAD)) + slot_entry(
            Method::OPTIONS,
            self.slot(Method::OPTIONS),
        ) + slot_entry(Method::PATCH, self.slot(Method::PATCH)) + slot_entry(
            Method::POST,
            self.slot(Method::POST),
        ) + slot_entry(Method::PUT, self.slot(Method::PUT)) + slot_entry(
            Method::TRACE,
            self.slot(Method::TRACE),
        )
    }

    /// Each filled-slot entry is the generator of its method, and the entries
    /// are in strictly increasing canonical order.
    pub proof fn lemma_entries(self, t: int)
        requires
            0 <= t < self.entries().len(),
        ensures
            self.slot(self.entries()[t].0) == Some(self.entries()[t].1),
    {
        assert(self.entries().len() <= 8);
        lemma_entries_order(self);
    }

    /// No two filled-slot entries are of the same method.
    pub proof fn lemma_entries_distinct(self, a: int, b: int)
        requires
            0 <= a < b < self.entries().len(),
        ensures
            self.entries()[a].0 != self.entries()[b].0,
    {
        lemma_entries_order(self);
    }

    /// Every filled slot has its entry.
    pub proof fn lemma_entries_complete(self, m: Method) -> (t: int)
        requires
            self.slot(m) is Some,
        ensures
            0 <= t < self.entries().len(),
            self.entries()[t].0 == m,
    {
        lemma_entries_order(self);
        choose|t: int| 0 <= t < self.entries().len() && self.entries()[t].0 == m
    }

    /// A map with every slot empty.
    pub fn new() -> (r: Self)
        ensures
            forall|m: Method| r.slot(m) is None,
    {
        MethodRouterOperations {
            delete: None,
            get: None,
            head: None,
            options: None,
            patch: None,
            post: None,
            put: None,
            trace: None,
        }
    }

    /// Whether no method is documented.
    pub fn is_empty(&self) -> (r: bool)
        ensures
            r == self.spec_is_empty(),
    {
        let r = self.delete.is_none() && self.get.is_none() && self.head.is_none()
            && self.options.is_none() && self.patch.is_none() && self.post.is_none()
            && self.put.is_none() && self.trace.is_none();
        proof {
            if !r {
                if self.delete is Some {
                    assert(self.slot(Method::DELETE) is Some);
                } else if self.get is Some {
                    assert(self.slot(Method::GET) is Some);
                } else if self.head is Some {
                    assert(self.slot(Method::HEAD) is Some);
                } else if self.options is Some {
                    assert(self.slot(Method::OPTIONS) is Some);
                } else if self.patch is Some {
                    assert(self.slot(Method::PATCH) is Some);
                } else if self.post is Some {
                    assert(self.slot(Method::POST) is Some);
                } else if self.put is Some {
                    assert(self.slot(Method::PUT) is Some);
                } else {
                    assert(self.slot(Method::TRACE) is Some);
                }
            }
        }
        r
    }

    /// Merges two maps built independently; fails on the first method, in
    /// canonical order, that both document, since neither may silently win.
    pub fn merge(self, other: Self) -> (r: Result<Self, SpecError>)
        ensures
            match r {
                Ok(x) => !self.overlaps(other) && x == self.merged_with(other) && forall|m: Method|
                    #[trigger] x.slot(m) == merged_slot(self.slot(m), other.slot(m)),
                Err(SpecError::OverlappingMethod { method }) => self.overlaps_at(other, method) && forall|
                    m: Method,
                | m.rank() < method.rank() ==> !#[trigger] self.overlaps_at(other, m),
                Err(_) => false,
            },
            r is Err <==> self.overlaps(other),
    {
        if self.delete.is_some() && other.delete.is_some() {
            assert(self.overlaps_at(other, Method::DELETE));
            return Err(SpecError::OverlappingMethod { method: Method::DELETE });
        }
        if self.get.is_some() && other.get.is_some() {
            assert(self.overlaps_at(other, Method::GET));
            return Err(SpecError::OverlappingMethod { method: Method::GET });
        }
        if self.head.is_some() && other.head.is_some() {
            assert(self.overlaps_at(other, Method::HEAD));
            return Err(SpecError::OverlappingMethod { method: Method::HEAD });
        }
        if self.options.is_some() && other.options.is_some() {
            assert(self.overlaps_at(other, Method::OPTIONS));
            return Err(SpecError::OverlappingMethod { method: Method::OPTIONS });
        }
        if self.patch.is_some() && other.patch.is_some() {
            assert(self.overlaps_at(other, Method::PATCH));
            return Err(SpecError::OverlappingMethod { method: Method::PATCH });
        }
        if self.post.is_some() && other.post.is_some() {
            assert(self.overlaps_at(other, Method::POST));
            return Err(SpecError::OverlappingMethod { method: Method::POST });
        }
        if self.put.is_some() && other.put.is_some() {
            assert(self.overlaps_at(other, Method::PUT));
            return Err(SpecError::OverlappingMethod { method: Method::PUT });
        }
        if self.trace.is_some() && other.trace.is_some() {
            assert(self.overlaps_at(other, Method::TRACE));
            return Err(SpecError::OverlappingMethod { method: Method::TRACE });
        }
        Ok(MethodRouterOperations {
            delete: if self.delete.is_some() { self.delete } else { other.delete },
            get: if self.get.is_some() { self.get } else { other.get },
            head: if self.head.is_some() { self.head } else { other.head },
            options: if self.options.is_some() { self.options } else { other.options },
            patch: if self.patch.is_some() { self.patch } else { other.patch },
            post: if self.post.is_some() { self.post } else { other.post },
            put: if self.put.is_some() { self.put } else { other.put },
            trace: if self.trace.is_some() { self.trace } else { other.trace },
        })
    }

    /// The documented methods with their generators, in canonical order of
    /// methods; empty slots are left out.
    pub fn into_map(self) -> (r: Vec<(Method, G)>)
        ensures
            r@ == self.entries(),
    {
        let mut v: Vec<(Method, G)> = Vec::new();
        push_slot(&mut v, Method::DELETE, self.delete);
        assert(v@ =~= slot_entry(Method::DELETE, self.slot(Method::DELETE)));
        push_slot(&mut v, Method::GET, self.get);
        push_slot(&mut v, Method::HEAD, self.head);
        push_slot(&mut v, Method::OPTIONS, self.options);
        push_slot(&mut v, Method::PATCH, self.patch);
        push_slot(&mut v, Method::POST, self.post);
        push_slot(&mut v, Method::PUT, self.put);
        push_slot(&mut v, Method::TRACE, self.trace);
        assert(v@ =~= self.entries());
        v
    }
}

proof fn lemma_entries_order<G>(ops: MethodRouterOperations<G>)
    ensures
        forall|t: int|
            0 <= t < ops.entries().len() ==> ops.slot(#[trigger] ops.entries()[t].0) == Some(
                ops.entries()[t].1,
            ),
        forall|a: int, b: int|
            0 <= a < b < ops.entries().len() ==> (#[trigger] ops.entries()[a].0).rank() < (
            #[trigger] ops.entries()[b].0).rank(),
        forall|m: Method|
            ops.slot(m) is Some ==> exists|t: int|
                0 <= t < ops.entries().len() && #[trigger] ops.entries()[t].0 == m,
{
    let s0 = slot_entry(Method::DELETE, ops.slot(Method::DELETE));
    let s1 = s0 + slot_entry(Method::GET, ops.slot(Method::GET));
    let s2 = s1 + slot_entry(Method::HEAD, ops.slot(Method::HEAD));
    let s3 = s2 + slot_entry(Method::OPTIONS, ops.slot(Method::OPTIONS));
    let s4 = s3 + slot_entry(Method::PATCH, ops.slot(Method::PATCH));
    let s5 = s4 + slot_entry(Method::POST, ops.slot(Method::POST));
    let s6 = s5 + slot_entry(Method::PUT, ops.slot(Method::PUT));
    let s7 = s6 + slot_entry(Method::TRACE, ops.slot(Method::TRACE));
    assert(s7 == ops.entries());
    lemma_step(seq![], Method::DELETE, ops.slot(Method::DELETE), 0);
    lemma_step(s0, Method::GET, ops.slot(Method::GET), 1);
    lemma_step(s1, Method::HEAD, ops.slot(Method::HEAD), 2);
    lemma_step(s2, Method::OPTIONS, ops.slot(Method::OPTIONS), 3);
    lemma_step(s3, Method::PATCH, ops.slot(Method::PATCH), 4);
    lemma_step(s4, Method::POST, ops.slot(Method::POST), 5);
    lemma_step(s5, Method::PUT, ops.slot(Method::PUT), 6);
    lemma_step(s6, Method::TRACE, ops.slot(Method::TRACE), 7);
    assert(seq![] + s0 =~= s0);
    assert forall|m: Method| ops.slot(m) is Some implies exists|t: int|
        0 <= t < ops.entries().len() && #[trigger] ops.entries()[t].0 == m by {
        let t: int = match m {
            Method::DELETE => 0,
            Method::GET => s0.len() as int,
            Method::HEAD => s1.len() as int,
            Method::OPTIONS => s2.len() as int,
            Method::PATCH => s3.len() as int,
            Method::POST => s4.len() as int,
            Method::PUT => s5.len() as int,
            Method::TRACE => s6.len() as int,
        };
        assert(0 <= t < ops.entries().len() && ops.entries()[t].0 == m);
    }
}

/// Appending the entry of a slot whose method ranks above all entries so far
/// keeps the entries strictly increasing, each the generator of its slot.
proof fn lemma_step<G>(prev: Seq<(Method, G)>, m: Method, o: Option<G>, r: nat)
    requires
        m.rank() == r,
    ensures
        forall|a: int, b: int|
            (forall|x: int, y: int| 0 <= x < y < prev.len() ==> prev[x].0.rank() < prev[y].0.rank())
                && (forall|x: int| 0 <= x < prev.len() ==> prev[x].0.rank() < r) && 0 <= a < b < (
            prev + slot_entry(m, o)).len() ==> (prev + slot_entry(m, o))[a].0.rank() < (prev
                + slot_entry(m, o))[b].0.rank(),
        forall|x: int|
            0 <= x < (prev + slot_entry(m, o)).len() && x >= prev.len() ==> (prev + slot_entry(
                m,
                o,
            ))[x] == (m, o->0) && o is Some,
        (prev + slot_entry(m, o)).len() == prev.len() + (if o is Some { 1int } else { 0 }),
        forall|x: int| 0 <= x < prev.len() ==> (prev + slot_entry(m, o))[x] == prev[x],
{
}

fn push_slot<G>(v: &mut Vec<(Method, G)>, m: Method, o: Option<G>)
    ensures
        final(v)@ == old(v)@ + slot_entry(m, o),
{
    match o {
        Some(g) => {
            v.push((m, g));
            assert(final(v)@ =~= old(v)@ + slot_entry(m, o));
        },
        None => {
            assert(v@ =~= old(v)@ + slot_entry(m, o));
        },
    }
}

impl<G: Copy> MethodRouterOperations<G> {
    /// The generator for `m`, if any.
    pub fn get(&self, m: Method) -> (r: Option<G>)
        ensures
            r == self.slot(m),
    {
        match m {
            Method::DELETE => self.delete,
            Method::GET => self.get,
            Method::HEAD => self.head,
            Method::OPTIONS => self.options,
            Method::PATCH => self.patch,
            Method::POST => self.post,
            Method::PUT => self.put,
            Method::TRACE => self.trace,
        }
    }

    /// Sets the slot of every method that `filter` admits to `operation`,
    /// replacing what was there; other slots are kept.
    pub fn on(self, filter: MethodFilter, operation: Option<G>) -> (r: Self)
        ensures
            forall|m: Method| #[trigger]
                r.slot(m) == if filter.admits(m) {
                    operation
                } else {
                    self.slot(m)
                },
    {
        let mut this = self;
        if is_filter_present(filter, MethodFilter::DELETE) {
            this.delete = operation;
        }
        if is_filter_present(filter, MethodFilter::GET) {
            this.get = operation;
        }
        if is_filter_present(filter, MethodFilter::HEAD) {
            this.head = operation;
        }
        if is_filter_present(filter, MethodFilter::OPTIONS) {
            this.options = operation;
        }
        if is_filter_present(filter, MethodFilter::PATCH) {
            this.patch = operation;
        }
        if is_filter_present(filter, MethodFilter::POST) {
            this.post = operation;
        }
        if is_filter_present(filter, MethodFilter::PUT) {
            this.put = operation;
        }
        if is_filter_present(filter, MethodFilter::TRACE) {
            this.trace = operation;
        }
        this
    }
}

} // verus!
