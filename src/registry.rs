use vstd::prelude::*;

use crate::ids::{ErrorKind, SubsystemError, SubsystemId};

verus! {

/// The supervisor's table as a mathematical value.
pub struct Table {
    /// Registered identifiers, by slot, in the order they were admitted.
    pub ids: Seq<SubsystemId>,
    /// Parent-to-child edges recorded for spawns that came from a subsystem.
    pub links: Set<(SubsystemId, SubsystemId)>,
}

impl Table {
    /// Identifiers are unique within the supervisor.
    pub open spec fn wf(self) -> bool {
        self.ids.no_duplicates()
    }

    /// Whether a record exists for `id`.
    pub open spec fn has(self, id: SubsystemId) -> bool {
        self.ids.contains(id)
    }

    /// The children recorded under `parent`.
    pub open spec fn children_of(self, parent: SubsystemId) -> Set<SubsystemId> {
        Set::new(|c: SubsystemId| self.links.contains((parent, c)))
    }
}

/// The edges after a child `id` was spawned by `parent`, if it had one.
pub open spec fn linked(
    links: Set<(SubsystemId, SubsystemId)>,
    parent: Option<SubsystemId>,
    id: SubsystemId,
) -> Set<(SubsystemId, SubsystemId)> {
    match parent {
        Some(p) => links.insert((p, id)),
        None => links,
    }
}

/// Bookkeeping for every subsystem the supervisor runs: one slot per record,
/// never removed, and the forward-only parent-to-children index.
pub struct Registry {
    ids: Vec<SubsystemId>,
    links: Vec<(SubsystemId, SubsystemId)>,
}

impl View for Registry {
    type V = Table;

    closed spec fn view(&self) -> Table {
        Table { ids: self.ids@, links: self.links@.to_set() }
    }
}

impl Registry {
    /// The table's invariant: no identifier is registered twice.
    pub open spec fn wf(&self) -> bool {
        self@.wf()
    }

    /// An empty table.
    pub fn new() -> (r: Registry)
        ensures
            r.wf(),
            r@.ids == Seq::<SubsystemId>::empty(),
            r@.links == Set::<(SubsystemId, SubsystemId)>::empty(),
    {
        let r = Registry { ids: Vec::new(), links: Vec::new() };
        assert(r@.links =~= Set::<(SubsystemId, SubsystemId)>::empty());
        r
    }

    /// The number of records.
    pub fn len(&self) -> (n: usize)
        ensures
            n == self@.ids.len(),
    {
        self.ids.len()
    }

    /// The identifier held in `slot`.
    pub fn id_at(&self, slot: usize) -> (id: SubsystemId)
        requires
            slot < self@.ids.len(),
        ensures
            id == self@.ids[slot as int],
    {
        self.ids[slot]
    }

    /// The slot that holds `id`, if a record exists for it.
    pub fn slot_of(&self, id: SubsystemId) -> (r: Option<usize>)
        ensures
            match r {
                Some(i) => i < self@.ids.len() && self@.ids[i as int] == id,
                None => !self@.has(id),
            },
    {
        let mut i: usize = 0;
        while i < self.ids.len()
            invariant
                i <= self.ids@.len(),
                self@.ids == self.ids@,
                forall|j: int| 0 <= j < i ==> self.ids@[j] != id,
            decreases self.ids@.len() - i,
        {
            if self.ids[i] == id {
                return Some(i);
            }
            i = i + 1;
        }
        None
    }

    /// Whether a record exists for `id`.
    pub fn contains(&self, id: SubsystemId) -> (b: bool)
        ensures
            b == self@.has(id),
    {
        self.slot_of(id).is_some()
    }

    /// Registers a freshly started subsystem under `id`, recording it as a
    /// child of `parent` when the spawn came from a subsystem.
    ///
    /// An identifier that is already registered is refused with
    /// `DuplicateId` and leaves the table as it was; otherwise the new
    /// record takes the next slot and the reply is the new identifier.
    pub fn register(&mut self, parent: Option<SubsystemId>, id: SubsystemId) -> (r: Result<SubsystemId, SubsystemError>)
        requires
            old(self).wf(),
        ensures
            final(self).wf(),
            old(self)@.has(id) ==> r == Err::<SubsystemId, SubsystemError>(
                SubsystemError { kind: ErrorKind::DuplicateId },
            ),
            old(self)@.has(id) ==> final(self)@ == old(self)@,
            !old(self)@.has(id) ==> r == Ok::<SubsystemId, SubsystemError>(id),
            !old(self)@.has(id) ==> final(self)@.ids == old(self)@.ids.push(id),
            !old(self)@.has(id) ==> final(self)@.links == linked(old(self)@.links, parent, id),
            r is Ok ==> final(self)@.has(id),
            r is Ok && parent is Some ==> final(self)@.children_of(parent->0).contains(id),
    {
        if self.contains(id) {
            return Err(SubsystemError::new(ErrorKind::DuplicateId));
        }
        let ghost before = self@;
        let ghost old_links = self.links@;
        self.ids.push(id);
        match parent {
            Some(p) => {
                self.links.push((p, id));
                proof {
                    old_links.lemma_push_to_set_commute((p, id));
                }
            },
            None => {},
        }
        proof {
            assert(self@.ids =~= before.ids.push(id));
            assert forall|a: int, b: int|
                0 <= a < self@.ids.len() && 0 <= b < self@.ids.len() && a != b implies self@.ids[a]
                != self@.ids[b] by {
                if a == before.ids.len() {
                    assert(before.ids.contains(self@.ids[b]));
                } else if b == before.ids.len() {
                    assert(before.ids.contains(self@.ids[a]));
                }
            }
            assert(self@.ids[before.ids.len() as int] == id);
        }
        Ok(id)
    }

    /// The children recorded under `parent`, each in the order it was spawned.
    pub fn children(&self, parent: SubsystemId) -> (r: Vec<SubsystemId>)
        ensures
            forall|c: SubsystemId| r@.contains(c) <==> self@.children_of(parent).contains(c),
    {
        let mut r: Vec<SubsystemId> = Vec::new();
        let mut i: usize = 0;
        while i < self.links.len()
            invariant
                i <= self.links@.len(),
                forall|c: SubsystemId|
                    r@.contains(c) <==> exists|j: int| 0 <= j < i && self.links@[j] == (parent, c),
            decreases self.links@.len() - i,
        {
            let (p, c) = self.links[i];
            let ghost r0 = r@;
            if p == parent {
                r.push(c);
            }
            proof {
                assert forall|x: SubsystemId|
                    r@.contains(x) <==> exists|j: int| 0 <= j < i + 1 && self.links@[j] == (parent, x) by {
                    if r@.contains(x) {
                        let k = choose|k: int| 0 <= k < r@.len() && r@[k] == x;
                        if k < r0.len() {
                            assert(r0[k] == x);
                            assert(r0.contains(x));
                        } else {
                            assert(self.links@[i as int] == (parent, x));
                        }
                    }
                    if exists|j: int| 0 <= j < i + 1 && self.links@[j] == (parent, x) {
                        let j = choose|j: int| 0 <= j < i + 1 && self.links@[j] == (parent, x);
                        if j == i {
                            assert(r@[r@.len() - 1] == x);
                        } else {
                            assert(r0.contains(x));
                            let k = choose|k: int| 0 <= k < r0.len() && r0[k] == x;
                            assert(r@[k] == x);
                        }
                    }
                }
            }
            i = i + 1;
        }
        proof {
            assert forall|c: SubsystemId|
                r@.contains(c) <==> self@.children_of(parent).contains(c) by {
                if self.links@.to_set().contains((parent, c)) {
                    let j = choose|j: int| 0 <= j < self.links@.len() && self.links@[j] == (parent, c);
                }
            }
        }
        r
    }
}

} // verus!
