//! Tests for change detection and system-parameter access registration.

use render_graph::change_detection::{
    ComponentTicks, Local, NonSend, RemovedComponents, Res, SystemChangeTick, SystemRes,
    SystemResMut,
};
use render_graph::slot::Entity;
use render_graph::system_param::{
    Access, ArchetypeComponentId, ComponentId, NonSendMutState, NonSendState, ResMutState,
    ResState, SystemId, SystemMeta, SystemResMutState, SystemResState,
};

#[test]
fn ticks_added_and_changed_within_window() {
    // added and changed at tick 5, system last ran at tick 4, now tick 10:
    // both the add and the change fall inside the window
    let ticks = ComponentTicks::new(5);
    assert!(ticks.is_added(4, 10));
    assert!(ticks.is_changed(4, 10));
    // system last ran at tick 6: the add lies before it
    assert!(!ticks.is_added(6, 10));
    assert!(!ticks.is_changed(6, 10));
}

#[test]
fn ticks_set_changed_updates_only_the_change_tick() {
    let mut ticks = ComponentTicks::new(5);
    ticks.set_changed(8);
    assert!(!ticks.is_added(6, 10));
    assert!(ticks.is_changed(6, 10));
}

#[test]
fn ticks_comparison_survives_wrap_around() {
    // added just before the counter wrapped; the reading system last ran
    // at the wrapped tick 0 and reads at tick 2
    let ticks = ComponentTicks::new(u32::MAX);
    assert!(!ticks.is_added(0, 2));
    // a system that last ran before the wrap still sees the add
    let ticks2 = ComponentTicks::new(1);
    assert!(ticks2.is_added(u32::MAX - 1, 2));
}

#[test]
fn res_reports_its_window_and_value() {
    let res = Res::new(41u64, ComponentTicks::new(5), 4, 10);
    assert!(res.is_added());
    assert!(res.is_changed());
    assert_eq!(res.into_inner(), 41);
    let stale = Res::new(41u64, ComponentTicks::new(5), 7, 10);
    assert!(!stale.is_added());
}

#[test]
fn non_send_reports_its_window() {
    let res = NonSend::new(1u8, ComponentTicks::new(9), 4, 10);
    assert!(res.is_added());
    assert!(res.is_changed());
}

#[test]
fn system_res_round_trip() {
    let res = SystemRes::new("payload", ComponentTicks::new(5), 4, 10);
    assert!(res.is_added());
    assert!(res.is_changed());
    assert_eq!(res.into_inner(), "payload");
}

#[test]
fn system_res_mut_marks_the_change_tick_on_write() {
    let mut res = SystemResMut::new(1u32, ComponentTicks::new(2), 3, 9);
    res.set(5);
    let mut out = SystemResMut::new(0u32, ComponentTicks::new(2), 3, 9);
    out.set(5);
    assert_eq!(res.into_inner(), 5);
    assert_eq!(out.into_inner(), 5);
}

#[test]
fn local_state_holds_its_value() {
    let local = Local(7u32);
    assert_eq!(local.0, 7);
    let tick = SystemChangeTick { last_change_tick: 1, change_tick: 2 };
    assert_eq!(tick.last_change_tick, 1);
    assert_eq!(tick.change_tick, 2);
}

#[test]
fn removed_components_lists_recorded_removals() {
    let removed =
        RemovedComponents::new(vec![Entity { id: 1 }, Entity { id: 2 }, Entity { id: 3 }]);
    assert_eq!(removed.iter(), vec![Entity { id: 1 }, Entity { id: 2 }, Entity { id: 3 }]);
}

#[test]
fn access_claims_are_recorded_separately() {
    let mut access = Access::new();
    assert!(!access.has_read(4));
    assert!(!access.has_write(4));
    access.add_read(4);
    assert!(access.has_read(4));
    assert!(!access.has_write(4));
    access.add_write(9);
    assert!(access.has_write(9));
    assert!(!access.has_read(9));
}

#[test]
fn res_state_registers_a_read() {
    let mut meta = SystemMeta::new(SystemId(1));
    let state = ResState::init(&mut meta, ComponentId(4), ArchetypeComponentId(14));
    assert_eq!(state.component_id, ComponentId(4));
    assert!(meta.component_access_set.has_read(4));
    assert!(!meta.component_access_set.has_write(4));
    assert!(meta.archetype_component_access.has_read(14));
}

#[test]
fn res_mut_state_registers_a_write() {
    let mut meta = SystemMeta::new(SystemId(1));
    let state = ResMutState::init(&mut meta, ComponentId(4), ArchetypeComponentId(14));
    assert_eq!(state.component_id, ComponentId(4));
    assert!(meta.component_access_set.has_write(4));
    assert!(meta.archetype_component_access.has_write(14));
}

#[test]
fn two_readers_of_one_resource_coexist() {
    let mut meta = SystemMeta::new(SystemId(1));
    ResState::init(&mut meta, ComponentId(4), ArchetypeComponentId(14));
    NonSendState::init(&mut meta, ComponentId(4), ArchetypeComponentId(14));
    assert!(meta.component_access_set.has_read(4));
    assert!(!meta.component_access_set.has_write(4));
}

#[test]
fn reader_and_writer_of_distinct_resources_coexist() {
    let mut meta = SystemMeta::new(SystemId(1));
    ResState::init(&mut meta, ComponentId(4), ArchetypeComponentId(14));
    NonSendMutState::init(&mut meta, ComponentId(5), ArchetypeComponentId(15));
    assert!(meta.component_access_set.has_read(4));
    assert!(meta.component_access_set.has_write(5));
}

#[test]
fn system_res_states_follow_the_marker_table() {
    // shared access to the system's own entry: both markers read
    let mut meta = SystemMeta::new(SystemId(1));
    SystemResState::init(&mut meta, ComponentId(1), ComponentId(10), ComponentId(11));
    assert!(meta.component_access_set.has_read(10));
    assert!(meta.component_access_set.has_read(11));
    assert!(!meta.component_access_set.has_write(10));
    assert!(!meta.component_access_set.has_write(11));
    // exclusive access to the own entry: collection marker read, own
    // marker written
    let mut meta2 = SystemMeta::new(SystemId(2));
    SystemResMutState::init(&mut meta2, ComponentId(1), ComponentId(10), ComponentId(11));
    assert!(meta2.component_access_set.has_read(10));
    assert!(meta2.component_access_set.has_write(11));
}
