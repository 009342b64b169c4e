//! System parameters: the per-system registration of which application
//! resources a system reads and writes. Registration happens once, before
//! the system first runs, and rejects aliasing conflicts — a write beside
//! any other access to the same resource — at registration time.

use vstd::prelude::*;

verus! {

/// Identifies one registered resource kind.
#[derive(Debug, Clone, Copy, PartialEq, Eq, Hash, Structural)]
pub struct ComponentId(pub usize);

/// Identifies one resource's slot in the archetype that stores resources.
#[derive(Debug, Clone, Copy, PartialEq, Eq, Hash, Structural)]
pub struct ArchetypeComponentId(pub usize);

/// Identifies one system.
#[derive(Debug, Clone, Copy, PartialEq, Eq, Hash, Structural)]
pub struct SystemId(pub usize);

/// A set of read and write claims over resource identifiers.
#[derive(Debug)]
pub struct Access {
    reads: Vec<usize>,
    writes: Vec<usize>,
}

impl Access {
    /// Whether a read of `id` is claimed.
    pub closed spec fn spec_has_read(self, id: int) -> bool {
        exists|k: int| 0 <= k < self.reads@.len() && self.reads@[k] as int == id
    }

    /// Whether a write of `id` is claimed.
    pub closed spec fn spec_has_write(self, id: int) -> bool {
        exists|k: int| 0 <= k < self.writes@.len() && self.writes@[k] as int == id
    }

    /// What claiming one read does: the read is now claimed, and no other
    /// claim changes.
    pub open spec fn extended_with_read(self, prev: Access, id: int) -> bool {
        &&& self.spec_has_read(id)
        &&& forall|x: int| x != id ==> (self.spec_has_read(x) <==> prev.spec_has_read(x))
        &&& forall|x: int| self.spec_has_write(x) <==> prev.spec_has_write(x)
    }

    /// What claiming one write does.
    pub open spec fn extended_with_write(self, prev: Access, id: int) -> bool {
        &&& self.spec_has_write(id)
        &&& forall|x: int| x != id ==> (self.spec_has_write(x) <==> prev.spec_has_write(x))
        &&& forall|x: int| self.spec_has_read(x) <==> prev.spec_has_read(x)
    }

    /// An access set claiming nothing.
    pub fn new() -> (r: Self)
        ensures
            forall|x: int| !r.spec_has_read(x),
            forall|x: int| !r.spec_has_write(x),
    {
        Access { reads: Vec::new(), writes: Vec::new() }
    }

    fn list_contains(list: &Vec<usize>, id: usize) -> (r: bool)
        ensures
            r == exists|k: int| 0 <= k < list@.len() && list@[k] == id,
    {
        let n = list.len();
        let mut k: usize = 0;
        while k < n
            invariant
                n == list@.len(),
                k <= n,
                forall|x: int| 0 <= x < k ==> list@[x] != id,
            decreases n - k,
        {
            if list[k] == id {
                return true;
            }
            k = k + 1;
        }
        false
    }

    /// Whether a read of `id` is claimed.
    pub fn has_read(&self, id: usize) -> (r: bool)
        ensures
            r == self.spec_has_read(id as int),
    {
        Self::list_contains(&self.reads, id)
    }

    /// Whether a write of `id` is claimed.
    pub fn has_write(&self, id: usize) -> (r: bool)
        ensures
            r == self.spec_has_write(id as int),
    {
        Self::list_contains(&self.writes, id)
    }

    /// Claims a read of `id`.
    pub fn add_read(&mut self, id: usize)
        ensures
            final(self).extended_with_read(*old(self), id as int),
    {
        let ghost prev = *self;
        self.reads.push(id);
        proof {
            assert(self.reads@ == prev.reads@.push(id));
            assert(self.spec_has_read(id as int)) by {
                assert(self.reads@[self.reads@.len() - 1] == id);
            }
            assert forall|x: int| x != id as int implies (self.spec_has_read(x)
                <==> prev.spec_has_read(x)) by {
                if prev.spec_has_read(x) {
                    let k = choose|k: int| 0 <= k < prev.reads@.len() && prev.reads@[k] as int == x;
                    assert(self.reads@[k] as int == x);
                }
                if self.spec_has_read(x) {
                    let k = choose|k: int| 0 <= k < self.reads@.len() && self.reads@[k] as int == x;
                    assert(k < prev.reads@.len());
                    assert(prev.reads@[k] as int == x);
                }
            }
            assert forall|x: int| self.spec_has_write(x) <==> prev.spec_has_write(x) by {
                if prev.spec_has_write(x) {
                    let k = choose|k: int|
                        0 <= k < prev.writes@.len() && prev.writes@[k] as int == x;
                    assert(self.writes@[k] as int == x);
                }
                if self.spec_has_write(x) {
                    let k = choose|k: int|
                        0 <= k < self.writes@.len() && self.writes@[k] as int == x;
                    assert(prev.writes@[k] as int == x);
                }
            }
        }
    }

    /// Claims a write of `id`.
    pub fn add_write(&mut self, id: usize)
        ensures
            final(self).extended_with_write(*old(self), id as int),
    {
        let ghost prev = *self;
        self.writes.push(id);
        proof {
            assert(self.writes@ == prev.writes@.push(id));
            assert(self.spec_has_write(id as int)) by {
                assert(self.writes@[self.writes@.len() - 1] == id);
            }
            assert forall|x: int| x != id as int implies (self.spec_has_write(x)
                <==> prev.spec_has_write(x)) by {
                if prev.spec_has_write(x) {
                    let k = choose|k: int|
                        0 <= k < prev.writes@.len() && prev.writes@[k] as int == x;
                    assert(self.writes@[k] as int == x);
                }
                if self.spec_has_write(x) {
                    let k = choose|k: int|
                        0 <= k < self.writes@.len() && self.writes@[k] as int == x;
                    assert(k < prev.writes@.len());
                    assert(prev.writes@[k] as int == x);
                }
            }
            assert forall|x: int| self.spec_has_read(x) <==> prev.spec_has_read(x) by {
                if prev.spec_has_read(x) {
                    let k = choose|k: int|
                        0 <= k < prev.reads@.len() && prev.reads@[k] as int == x;
                    assert(self.reads@[k] as int == x);
                }
                if self.spec_has_read(x) {
                    let k = choose|k: int|
                        0 <= k < self.reads@.len() && self.reads@[k] as int == x;
                    assert(prev.reads@[k] as int == x);
                }
            }
        }
    }
}

impl Default for Access {
    /// An access set claiming nothing.
    fn default() -> (r: Self)
        ensures
            forall|x: int| !r.spec_has_read(x),
            forall|x: int| !r.spec_has_write(x),
    {
        Access::new()
    }
}

/// The registration record of one system: its identity, the resource
/// accesses it has claimed, and the tick at which it last ran.
#[derive(Debug)]
pub struct SystemMeta {
    pub id: SystemId,
    pub component_access_set: Access,
    pub archetype_component_access: Access,
    pub last_change_tick: u32,
}

impl SystemMeta {
    /// A fresh record for the system `id`, claiming nothing.
    pub fn new(id: SystemId) -> (r: Self)
        ensures
            r.id == id,
            r.last_change_tick == 0,
            forall|x: int| !r.component_access_set.spec_has_read(x),
            forall|x: int| !r.component_access_set.spec_has_write(x),
            forall|x: int| !r.archetype_component_access.spec_has_read(x),
            forall|x: int| !r.archetype_component_access.spec_has_write(x),
    {
        SystemMeta {
            id,
            component_access_set: Access::new(),
            archetype_component_access: Access::new(),
            last_change_tick: 0,
        }
    }
}

/// Marks a parameter state whose fetch only reads; systems holding only
/// such parameters can run beside each other.
pub trait ReadOnlySystemParamFetch {

}

/// The registration state behind a shared resource view: a read claim on
/// the resource, rejected when some earlier parameter of the same system
/// claimed a write.
#[derive(Debug, Clone, Copy, PartialEq, Eq, Structural)]
pub struct ResState {
    pub component_id: ComponentId,
    pub archetype_component_id: ArchetypeComponentId,
}

impl ReadOnlySystemParamFetch for ResState {

}

impl ResState {
    /// Registers a shared resource access for the system described by
    /// `system_meta`. The system must not already write the resource.
    pub fn init(
        system_meta: &mut SystemMeta,
        component_id: ComponentId,
        archetype_component_id: ArchetypeComponentId,
    ) -> (r: Self)
        requires
            !old(system_meta).component_access_set.spec_has_write(component_id.0 as int),
        ensures
            r.component_id == component_id,
            r.archetype_component_id == archetype_component_id,
            final(system_meta).component_access_set.extended_with_read(
                old(system_meta).component_access_set,
                component_id.0 as int,
            ),
            final(system_meta).archetype_component_access.extended_with_read(
                old(system_meta).archetype_component_access,
                archetype_component_id.0 as int,
            ),
            final(system_meta).id == old(system_meta).id,
            final(system_meta).last_change_tick == old(system_meta).last_change_tick,
    {
        system_meta.component_access_set.add_read(component_id.0);
        system_meta.archetype_component_access.add_read(archetype_component_id.0);
        ResState { component_id, archetype_component_id }
    }
}

/// The registration state behind an exclusive resource view: a write claim
/// on the resource, rejected when some earlier parameter of the same
/// system claimed any access to it.
#[derive(Debug, Clone, Copy, PartialEq, Eq, Structural)]
pub struct ResMutState {
    pub component_id: ComponentId,
    pub archetype_component_id: ArchetypeComponentId,
}

impl ResMutState {
    /// Registers an exclusive resource access for the system described by
    /// `system_meta`. The system must not already read or write the
    /// resource.
    pub fn init(
        system_meta: &mut SystemMeta,
        component_id: ComponentId,
        archetype_component_id: ArchetypeComponentId,
    ) -> (r: Self)
        requires
            !old(system_meta).component_access_set.spec_has_read(component_id.0 as int),
            !old(system_meta).component_access_set.spec_has_write(component_id.0 as int),
        ensures
            r.component_id == component_id,
            r.archetype_component_id == archetype_component_id,
            final(system_meta).component_access_set.extended_with_write(
                old(system_meta).component_access_set,
                component_id.0 as int,
            ),
            final(system_meta).archetype_component_access.extended_with_write(
                old(system_meta).archetype_component_access,
                archetype_component_id.0 as int,
            ),
            final(system_meta).id == old(system_meta).id,
            final(system_meta).last_change_tick == old(system_meta).last_change_tick,
    {
        system_meta.component_access_set.add_write(component_id.0);
        system_meta.archetype_component_access.add_write(archetype_component_id.0);
        ResMutState { component_id, archetype_component_id }
    }
}

/// The registration state behind an optional shared resource view; the
/// access claims are those of the underlying shared view.
#[derive(Debug, Clone, Copy, PartialEq, Eq, Structural)]
pub struct OptionResState(pub ResState);

impl ReadOnlySystemParamFetch for OptionResState {

}

impl OptionResState {
    /// Registers the underlying shared access.
    pub fn init(
        system_meta: &mut SystemMeta,
        component_id: ComponentId,
        archetype_component_id: ArchetypeComponentId,
    ) -> (r: Self)
        requires
            !old(system_meta).component_access_set.spec_has_write(component_id.0 as int),
        ensures
            r.0.component_id == component_id,
            final(system_meta).component_access_set.extended_with_read(
                old(system_meta).component_access_set,
                component_id.0 as int,
            ),
            final(system_meta).archetype_component_access.extended_with_read(
                old(system_meta).archetype_component_access,
                archetype_component_id.0 as int,
            ),
            final(system_meta).id == old(system_meta).id,
            final(system_meta).last_change_tick == old(system_meta).last_change_tick,
    {
        OptionResState(ResState::init(system_meta, component_id, archetype_component_id))
    }
}

/// The registration state behind an optional exclusive resource view.
#[derive(Debug, Clone, Copy, PartialEq, Eq, Structural)]
pub struct OptionResMutState(pub ResMutState);

impl OptionResMutState {
    /// Registers the underlying exclusive access.
    pub fn init(
        system_meta: &mut SystemMeta,
        component_id: ComponentId,
        archetype_component_id: ArchetypeComponentId,
    ) -> (r: Self)
        requires
            !old(system_meta).component_access_set.spec_has_read(component_id.0 as int),
            !old(system_meta).component_access_set.spec_has_write(component_id.0 as int),
        ensures
            r.0.component_id == component_id,
            final(system_meta).component_access_set.extended_with_write(
                old(system_meta).component_access_set,
                component_id.0 as int,
            ),
            final(system_meta).archetype_component_access.extended_with_write(
                old(system_meta).archetype_component_access,
                archetype_component_id.0 as int,
            ),
            final(system_meta).id == old(system_meta).id,
            final(system_meta).last_change_tick == old(system_meta).last_change_tick,
    {
        OptionResMutState(ResMutState::init(system_meta, component_id, archetype_component_id))
    }
}

/// The registration state behind a main-thread-only shared resource view;
/// the claims are the same as for a shared view.
#[derive(Debug, Clone, Copy, PartialEq, Eq, Structural)]
pub struct NonSendState {
    pub component_id: ComponentId,
    pub archetype_component_id: ArchetypeComponentId,
}

impl ReadOnlySystemParamFetch for NonSendState {

}

impl NonSendState {
    /// Registers a shared access to a main-thread-only resource.
    pub fn init(
        system_meta: &mut SystemMeta,
        component_id: ComponentId,
        archetype_component_id: ArchetypeComponentId,
    ) -> (r: Self)
        requires
            !old(system_meta).component_access_set.spec_has_write(component_id.0 as int),
        ensures
            r.component_id == component_id,
            r.archetype_component_id == archetype_component_id,
            final(system_meta).component_access_set.extended_with_read(
                old(system_meta).component_access_set,
                component_id.0 as int,
            ),
            final(system_meta).archetype_component_access.extended_with_read(
                old(system_meta).archetype_component_access,
                archetype_component_id.0 as int,
            ),
            final(system_meta).id == old(system_meta).id,
            final(system_meta).last_change_tick == old(system_meta).last_change_tick,
    {
        system_meta.component_access_set.add_read(component_id.0);
        system_meta.archetype_component_access.add_read(archetype_component_id.0);
        NonSendState { component_id, archetype_component_id }
    }
}

/// The registration state behind a main-thread-only exclusive view.
#[derive(Debug, Clone, Copy, PartialEq, Eq, Structural)]
pub struct NonSendMutState {
    pub component_id: ComponentId,
    pub archetype_component_id: ArchetypeComponentId,
}

impl NonSendMutState {
    /// Registers an exclusive access to a main-thread-only resource.
    pub fn init(
        system_meta: &mut SystemMeta,
        component_id: ComponentId,
        archetype_component_id: ArchetypeComponentId,
    ) -> (r: Self)
        requires
            !old(system_meta).component_access_set.spec_has_read(component_id.0 as int),
            !old(system_meta).component_access_set.spec_has_write(component_id.0 as int),
        ensures
            r.component_id == component_id,
            r.archetype_component_id == archetype_component_id,
            final(system_meta).component_access_set.extended_with_write(
                old(system_meta).component_access_set,
                component_id.0 as int,
            ),
            final(system_meta).archetype_component_access.extended_with_write(
                old(system_meta).archetype_component_access,
                archetype_component_id.0 as int,
            ),
            final(system_meta).id == old(system_meta).id,
            final(system_meta).last_change_tick == old(system_meta).last_change_tick,
    {
        system_meta.component_access_set.add_write(component_id.0);
        system_meta.archetype_component_access.add_write(archetype_component_id.0);
        NonSendMutState { component_id, archetype_component_id }
    }
}

/// The registration state behind an optional main-thread-only shared view.
#[derive(Debug, Clone, Copy, PartialEq, Eq, Structural)]
pub struct OptionNonSendState(pub NonSendState);

impl ReadOnlySystemParamFetch for OptionNonSendState {

}

/// The registration state behind an optional main-thread-only exclusive
/// view.
#[derive(Debug, Clone, Copy, PartialEq, Eq, Structural)]
pub struct OptionNonSendMutState(pub NonSendMutState);

/// The registration state behind system-local state: nothing outside the
/// system is touched, so nothing is claimed.
#[derive(Debug, Clone, Copy, PartialEq, Eq, Structural)]
pub struct LocalState;

impl ReadOnlySystemParamFetch for LocalState {

}

/// The registration state behind a removed-components reader: it reads
/// only bookkeeping the store keeps per resource kind, so it claims
/// nothing from other systems.
#[derive(Debug, Clone, Copy, PartialEq, Eq, Structural)]
pub struct RemovedComponentsState {
    pub component_id: ComponentId,
}

impl ReadOnlySystemParamFetch for RemovedComponentsState {

}

impl RemovedComponentsState {
    /// Remembers which resource kind's removals are read.
    pub fn init(component_id: ComponentId) -> (r: Self)
        ensures
            r.component_id == component_id,
    {
        RemovedComponentsState { component_id }
    }
}

/// The registration state behind read-only access to the archetype
/// metadata.
#[derive(Debug, Clone, Copy, PartialEq, Eq, Structural)]
pub struct ArchetypesState;

impl ReadOnlySystemParamFetch for ArchetypesState {

}

/// The registration state behind read-only access to the component
/// metadata.
#[derive(Debug, Clone, Copy, PartialEq, Eq, Structural)]
pub struct ComponentsState;

impl ReadOnlySystemParamFetch for ComponentsState {

}

/// The registration state behind read-only access to the entity metadata.
#[derive(Debug, Clone, Copy, PartialEq, Eq, Structural)]
pub struct EntitiesState;

impl ReadOnlySystemParamFetch for EntitiesState {

}

/// The registration state behind read-only access to the bundle metadata.
#[derive(Debug, Clone, Copy, PartialEq, Eq, Structural)]
pub struct BundlesState;

impl ReadOnlySystemParamFetch for BundlesState {

}

/// The registration state behind the running system's own tick window.
#[derive(Debug, Clone, Copy, PartialEq, Eq, Structural)]
pub struct SystemChangeTickState;

impl ReadOnlySystemParamFetch for SystemChangeTickState {

}

/// The registration state behind a system-coupled resource. Two marker
/// identifiers govern aliasing across the whole family of system-coupled
/// views: one stands for the entire collection, one for the running
/// system's own entry.
#[derive(Debug, Clone, Copy, PartialEq, Eq, Structural)]
pub struct SystemResState {
    pub internal_component_id: ComponentId,
}

impl ReadOnlySystemParamFetch for SystemResState {

}

impl SystemResState {
    /// Registers shared access to the system's own entry: reads both
    /// markers; no other parameter may write either.
    pub fn init(
        system_meta: &mut SystemMeta,
        internal_component_id: ComponentId,
        entire_marker_id: ComponentId,
        locally_marker_id: ComponentId,
    ) -> (r: Self)
        requires
            !old(system_meta).component_access_set.spec_has_write(locally_marker_id.0 as int),
            !old(system_meta).component_access_set.spec_has_write(entire_marker_id.0 as int),
        ensures
            r.internal_component_id == internal_component_id,
            final(system_meta).component_access_set.spec_has_read(entire_marker_id.0 as int),
            final(system_meta).component_access_set.spec_has_read(locally_marker_id.0 as int),
            forall|x: int|
                final(system_meta).component_access_set.spec_has_write(x) <==> old(system_meta).component_access_set.spec_has_write(x),
            forall|x: int|
                x != entire_marker_id.0 as int && x != locally_marker_id.0 as int ==> (
                final(system_meta).component_access_set.spec_has_read(x) == old(system_meta).component_access_set.spec_has_read(x)),
            final(system_meta).id == old(system_meta).id,
            final(system_meta).last_change_tick == old(system_meta).last_change_tick,
    {
        system_meta.component_access_set.add_read(entire_marker_id.0);
        system_meta.component_access_set.add_read(locally_marker_id.0);
        SystemResState { internal_component_id }
    }
}

/// The registration state behind an exclusive system-coupled resource:
/// reads the collection marker, writes the system's own marker; no other
/// parameter of the family may be present at all.
#[derive(Debug, Clone, Copy, PartialEq, Eq, Structural)]
pub struct SystemResMutState {
    pub internal_component_id: ComponentId,
}

impl SystemResMutState {
    /// Registers exclusive access to the system's own entry.
    pub fn init(
        system_meta: &mut SystemMeta,
        internal_component_id: ComponentId,
        entire_marker_id: ComponentId,
        locally_marker_id: ComponentId,
    ) -> (r: Self)
        requires
            !old(system_meta).component_access_set.spec_has_read(locally_marker_id.0 as int),
            !old(system_meta).component_access_set.spec_has_write(locally_marker_id.0 as int),
            !old(system_meta).component_access_set.spec_has_read(entire_marker_id.0 as int),
            !old(system_meta).component_access_set.spec_has_write(entire_marker_id.0 as int),
        ensures
            r.internal_component_id == internal_component_id,
            final(system_meta).component_access_set.spec_has_read(entire_marker_id.0 as int),
            final(system_meta).component_access_set.spec_has_write(locally_marker_id.0 as int),
            forall|x: int|
                x != entire_marker_id.0 as int && x != locally_marker_id.0 as int ==> (final(system_meta).component_access_set.spec_has_read(x) == old(system_meta).component_access_set.spec_has_read(x)),
            forall|x: int|
                x != entire_marker_id.0 as int && x != locally_marker_id.0 as int ==> (final(system_meta).component_access_set.spec_has_write(x) == old(system_meta).component_access_set.spec_has_write(x)),
            final(system_meta).id == old(system_meta).id,
            final(system_meta).last_change_tick == old(system_meta).last_change_tick,
    {
        system_meta.component_access_set.add_read(entire_marker_id.0);
        system_meta.component_access_set.add_write(locally_marker_id.0);
        SystemResMutState { internal_component_id }
    }
}

/// The registration state behind shared access to the entire collection of
/// system-coupled resources: reads both markers.
#[derive(Debug, Clone, Copy, PartialEq, Eq, Structural)]
pub struct AllSystemResState {
    pub internal_component_id: ComponentId,
}

impl ReadOnlySystemParamFetch for AllSystemResState {

}

impl AllSystemResState {
    /// Registers shared access to the entire collection.
    pub fn init(
        system_meta: &mut SystemMeta,
        internal_component_id: ComponentId,
        entire_marker_id: ComponentId,
        locally_marker_id: ComponentId,
    ) -> (r: Self)
        requires
            !old(system_meta).component_access_set.spec_has_write(locally_marker_id.0 as int),
            !old(system_meta).component_access_set.spec_has_write(entire_marker_id.0 as int),
        ensures
            r.internal_component_id == internal_component_id,
            final(system_meta).component_access_set.spec_has_read(entire_marker_id.0 as int),
            final(system_meta).component_access_set.spec_has_read(locally_marker_id.0 as int),
            forall|x: int|
                x != entire_marker_id.0 as int && x != locally_marker_id.0 as int ==> (final(system_meta).component_access_set.spec_has_read(x) == old(system_meta).component_access_set.spec_has_read(x)),
            forall|x: int|
                final(system_meta).component_access_set.spec_has_write(x) <==> old(system_meta).component_access_set.spec_has_write(x),
            final(system_meta).id == old(system_meta).id,
            final(system_meta).last_change_tick == old(system_meta).last_change_tick,
    {
        system_meta.component_access_set.add_read(entire_marker_id.0);
        system_meta.component_access_set.add_read(locally_marker_id.0);
        AllSystemResState { internal_component_id }
    }
}

/// The registration state behind exclusive access to the entire
/// collection of system-coupled resources: writes both markers; no other
/// parameter of the family may be present at all.
#[derive(Debug, Clone, Copy, PartialEq, Eq, Structural)]
pub struct AllSystemResMutState {
    pub internal_component_id: ComponentId,
}

impl AllSystemResMutState {
    /// Registers exclusive access to the entire collection.
    pub fn init(
        system_meta: &mut SystemMeta,
        internal_component_id: ComponentId,
        entire_marker_id: ComponentId,
        locally_marker_id: ComponentId,
    ) -> (r: Self)
        requires
            !old(system_meta).component_access_set.spec_has_read(locally_marker_id.0 as int),
            !old(system_meta).component_access_set.spec_has_write(locally_marker_id.0 as int),
            !old(system_meta).component_access_set.spec_has_read(entire_marker_id.0 as int),
            !old(system_meta).component_access_set.spec_has_write(entire_marker_id.0 as int),
        ensures
            r.internal_component_id == internal_component_id,
            final(system_meta).component_access_set.spec_has_write(entire_marker_id.0 as int),
            final(system_meta).component_access_set.spec_has_write(locally_marker_id.0 as int),
            forall|x: int|
                x != entire_marker_id.0 as int && x != locally_marker_id.0 as int ==> (final(system_meta).component_access_set.spec_has_write(x) == old(system_meta).component_access_set.spec_has_write(x)),
            forall|x: int|
                final(system_meta).component_access_set.spec_has_read(x) <==> old(system_meta).component_access_set.spec_has_read(x),
            final(system_meta).id == old(system_meta).id,
            final(system_meta).last_change_tick == old(system_meta).last_change_tick,
    {
        system_meta.component_access_set.add_write(entire_marker_id.0);
        system_meta.component_access_set.add_write(locally_marker_id.0);
        AllSystemResMutState { internal_component_id }
    }
}

} // verus!
