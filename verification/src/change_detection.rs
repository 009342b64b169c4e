//! Change detection for application state read by nodes: tick counters
//! record when a value was added or last written, and a reading system
//! compares them against the span since its own last run.

use crate::slot::Entity;
use vstd::prelude::*;

verus! {

/// The pair of tick counters kept beside every tracked value: the tick at
/// which it was added, and the tick at which it was last written. Ticks
/// count system runs and wrap around on overflow, so all comparisons go
/// through wrapping distances.
#[derive(Debug, Clone, Copy, PartialEq, Eq, Structural)]
pub struct ComponentTicks {
    pub added: u32,
    pub changed: u32,
}

impl ComponentTicks {
    /// Whether a value with these ticks counts as added since the reading
    /// system last ran: the wrapping distance back to the add is smaller
    /// than the distance back to that last run.
    pub open spec fn spec_is_added(self, last_change_tick: u32, change_tick: u32) -> bool {
        vstd::wrapping::u32_specs::wrapping_sub(change_tick, self.added)
            < vstd::wrapping::u32_specs::wrapping_sub(change_tick, last_change_tick)
    }

    /// Whether a value with these ticks counts as changed since the reading
    /// system last ran.
    pub open spec fn spec_is_changed(self, last_change_tick: u32, change_tick: u32) -> bool {
        vstd::wrapping::u32_specs::wrapping_sub(change_tick, self.changed)
            < vstd::wrapping::u32_specs::wrapping_sub(change_tick, last_change_tick)
    }

    /// Ticks for a value added (and so also written) at `change_tick`.
    pub fn new(change_tick: u32) -> (r: Self)
        ensures
            r.added == change_tick,
            r.changed == change_tick,
    {
        ComponentTicks { added: change_tick, changed: change_tick }
    }

    /// True exactly when the value was added since the tick
    /// `last_change_tick`, judged at the tick `change_tick`.
    pub fn is_added(&self, last_change_tick: u32, change_tick: u32) -> (r: bool)
        ensures
            r == self.spec_is_added(last_change_tick, change_tick),
    {
        change_tick.wrapping_sub(self.added) < change_tick.wrapping_sub(last_change_tick)
    }

    /// True exactly when the value was written since the tick
    /// `last_change_tick`, judged at the tick `change_tick`.
    pub fn is_changed(&self, last_change_tick: u32, change_tick: u32) -> (r: bool)
        ensures
            r == self.spec_is_changed(last_change_tick, change_tick),
    {
        change_tick.wrapping_sub(self.changed) < change_tick.wrapping_sub(last_change_tick)
    }

    /// Records a write at the tick `change_tick`.
    pub fn set_changed(&mut self, change_tick: u32)
        ensures
            final(self).added == old(self).added,
            final(self).changed == change_tick,
    {
        self.changed = change_tick;
    }
}

/// A shared view of one application resource, with the tick bookkeeping
/// needed to answer whether it changed since the reading system last ran.
#[derive(Debug)]
pub struct Res<T> {
    value: T,
    ticks: ComponentTicks,
    last_change_tick: u32,
    change_tick: u32,
}

impl<T> Res<T> {
    /// The resource's ticks.
    pub closed spec fn spec_ticks(self) -> ComponentTicks {
        self.ticks
    }

    /// The resource's value.
    pub closed spec fn spec_value(self) -> T {
        self.value
    }

    /// The tick at which the reading system last ran.
    pub closed spec fn spec_last_change_tick(self) -> u32 {
        self.last_change_tick
    }

    /// The current tick.
    pub closed spec fn spec_change_tick(self) -> u32 {
        self.change_tick
    }

    /// A view of `value`, carrying its ticks and the reading system's tick
    /// window.
    pub fn new(value: T, ticks: ComponentTicks, last_change_tick: u32, change_tick: u32) -> (r:
        Self)
        ensures
            r.spec_value() == value,
            r.spec_ticks() == ticks,
            r.spec_last_change_tick() == last_change_tick,
            r.spec_change_tick() == change_tick,
    {
        Res { value, ticks, last_change_tick, change_tick }
    }

    /// Returns true if (and only if) this resource has been added since the
    /// last execution of the reading system.
    pub fn is_added(&self) -> (r: bool)
        ensures
            r == self.spec_ticks().spec_is_added(
                self.spec_last_change_tick(),
                self.spec_change_tick(),
            ),
    {
        self.ticks.is_added(self.last_change_tick, self.change_tick)
    }

    /// Returns true if (and only if) this resource has been changed since
    /// the last execution of the reading system.
    pub fn is_changed(&self) -> (r: bool)
        ensures
            r == self.spec_ticks().spec_is_changed(
                self.spec_last_change_tick(),
                self.spec_change_tick(),
            ),
    {
        self.ticks.is_changed(self.last_change_tick, self.change_tick)
    }

    /// Gives the resource's value up, consuming the view.
    pub fn into_inner(self) -> (r: T)
        ensures
            r == self.spec_value(),
    {
        self.value
    }
}

/// A shared view of a resource that must stay on the main thread; the tick
/// bookkeeping is the same as for [`Res`].
#[derive(Debug)]
pub struct NonSend<T> {
    value: T,
    ticks: ComponentTicks,
    last_change_tick: u32,
    change_tick: u32,
}

impl<T> NonSend<T> {
    /// The resource's ticks.
    pub closed spec fn spec_ticks(self) -> ComponentTicks {
        self.ticks
    }

    /// The resource's value.
    pub closed spec fn spec_value(self) -> T {
        self.value
    }

    /// The tick at which the reading system last ran.
    pub closed spec fn spec_last_change_tick(self) -> u32 {
        self.last_change_tick
    }

    /// The current tick.
    pub closed spec fn spec_change_tick(self) -> u32 {
        self.change_tick
    }

    /// A view of `value`, carrying its ticks and the reading system's tick
    /// window.
    pub fn new(value: T, ticks: ComponentTicks, last_change_tick: u32, change_tick: u32) -> (r:
        Self)
        ensures
            r.spec_value() == value,
            r.spec_ticks() == ticks,
            r.spec_last_change_tick() == last_change_tick,
            r.spec_change_tick() == change_tick,
    {
        NonSend { value, ticks, last_change_tick, change_tick }
    }

    /// Returns true if (and only if) this resource has been added since the
    /// last execution of the reading system.
    pub fn is_added(&self) -> (r: bool)
        ensures
            r == self.spec_ticks().spec_is_added(
                self.spec_last_change_tick(),
                self.spec_change_tick(),
            ),
    {
        self.ticks.is_added(self.last_change_tick, self.change_tick)
    }

    /// Returns true if (and only if) this resource has been changed since
    /// the last execution of the reading system.
    pub fn is_changed(&self) -> (r: bool)
        ensures
            r == self.spec_ticks().spec_is_changed(
                self.spec_last_change_tick(),
                self.spec_change_tick(),
            ),
    {
        self.ticks.is_changed(self.last_change_tick, self.change_tick)
    }
}

/// A shared view of a resource coupled to one particular system.
#[derive(Debug)]
pub struct SystemRes<T> {
    value: T,
    ticks: ComponentTicks,
    last_change_tick: u32,
    change_tick: u32,
}

impl<T> SystemRes<T> {
    /// The resource's ticks.
    pub closed spec fn spec_ticks(self) -> ComponentTicks {
        self.ticks
    }

    /// The resource's value.
    pub closed spec fn spec_value(self) -> T {
        self.value
    }

    /// The tick at which the owning system last ran.
    pub closed spec fn spec_last_change_tick(self) -> u32 {
        self.last_change_tick
    }

    /// The current tick.
    pub closed spec fn spec_change_tick(self) -> u32 {
        self.change_tick
    }

    /// A view of `value`, carrying its ticks and the owning system's tick
    /// window.
    pub fn new(value: T, ticks: ComponentTicks, last_change_tick: u32, change_tick: u32) -> (r:
        Self)
        ensures
            r.spec_value() == value,
            r.spec_ticks() == ticks,
            r.spec_last_change_tick() == last_change_tick,
            r.spec_change_tick() == change_tick,
    {
        SystemRes { value, ticks, last_change_tick, change_tick }
    }

    /// Returns true if (and only if) this resource has been added since the
    /// last execution of this system.
    pub fn is_added(&self) -> (r: bool)
        ensures
            r == self.spec_ticks().spec_is_added(
                self.spec_last_change_tick(),
                self.spec_change_tick(),
            ),
    {
        self.ticks.is_added(self.last_change_tick, self.change_tick)
    }

    /// Returns true if (and only if) this resource has been changed since
    /// the last execution of this system.
    pub fn is_changed(&self) -> (r: bool)
        ensures
            r == self.spec_ticks().spec_is_changed(
                self.spec_last_change_tick(),
                self.spec_change_tick(),
            ),
    {
        self.ticks.is_changed(self.last_change_tick, self.change_tick)
    }

    /// Gives the resource's value up, consuming the view.
    pub fn into_inner(self) -> (r: T)
        ensures
            r == self.spec_value(),
    {
        self.value
    }
}

/// An exclusive view of a resource coupled to one particular system; a
/// write through it records the current tick as the value's change tick.
#[derive(Debug)]
pub struct SystemResMut<T> {
    value: T,
    ticks: ComponentTicks,
    last_change_tick: u32,
    change_tick: u32,
}

impl<T> SystemResMut<T> {
    /// The resource's ticks.
    pub closed spec fn spec_ticks(self) -> ComponentTicks {
        self.ticks
    }

    /// The resource's value.
    pub closed spec fn spec_value(self) -> T {
        self.value
    }

    /// The current tick.
    pub closed spec fn spec_change_tick(self) -> u32 {
        self.change_tick
    }

    /// An exclusive view of `value` under the owning system's tick window.
    pub fn new(value: T, ticks: ComponentTicks, last_change_tick: u32, change_tick: u32) -> (r:
        Self)
        ensures
            r.spec_value() == value,
            r.spec_ticks() == ticks,
            r.spec_change_tick() == change_tick,
    {
        SystemResMut { value, ticks, last_change_tick, change_tick }
    }

    /// Replaces the value, recording the write at the current tick.
    pub fn set(&mut self, value: T)
        ensures
            final(self).spec_value() == value,
            final(self).spec_ticks().added == old(self).spec_ticks().added,
            final(self).spec_ticks().changed == old(self).spec_change_tick(),
            final(self).spec_change_tick() == old(self).spec_change_tick(),
    {
        self.value = value;
        let tick = self.change_tick;
        self.ticks.set_changed(tick);
    }

    /// Gives the value up, consuming the view.
    pub fn into_inner(self) -> (r: T)
        ensures
            r == self.spec_value(),
    {
        self.value
    }
}

/// System-local state: a value only the owning system ever sees, carried
/// across its runs.
#[derive(Debug)]
pub struct Local<T>(pub T);

/// The entities whose tracked value of one kind was removed since the
/// reading system last ran.
#[derive(Debug)]
pub struct RemovedComponents {
    entities: Vec<Entity>,
}

impl RemovedComponents {
    /// How many removals were recorded.
    pub closed spec fn spec_entities(self) -> Seq<Entity> {
        self.entities@
    }

    /// Wraps the recorded removals.
    pub fn new(entities: Vec<Entity>) -> (r: Self)
        ensures
            r.spec_entities() == entities@,
    {
        RemovedComponents { entities }
    }

    /// Returns the entities that had the tracked value removed, in the
    /// order the removals were recorded.
    pub fn iter(&self) -> (r: Vec<Entity>)
        ensures
            r@ == self.spec_entities(),
    {
        let n = self.entities.len();
        let mut out: Vec<Entity> = Vec::new();
        let mut i: usize = 0;
        while i < n
            invariant
                n == self.spec_entities().len(),
                i <= n,
                out@ =~= self.spec_entities().take(i as int),
            decreases n - i,
        {
            out.push(self.entities[i]);
            proof {
                assert(out@ =~= self.spec_entities().take(i + 1));
            }
            i = i + 1;
        }
        proof {
            assert(out@ =~= self.spec_entities());
        }
        out
    }
}

/// The tick window of the running system: the tick at which it last ran,
/// and the current tick.
#[derive(Debug, Clone, Copy, PartialEq, Eq, Structural)]
pub struct SystemChangeTick {
    pub last_change_tick: u32,
    pub change_tick: u32,
}

} // verus!
