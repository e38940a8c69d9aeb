use physics_rust::script::{
    check_selection_edit, MemberKind,
    intrinsic_id, intrinsic_parts, intrinsic_target, property_read, property_writable, property_write,
    PropertyRead, PropertyWrite,
    entity_script_id, event_object, queue_scene, real_entity, ScriptArgument, ScriptEvent,
    check_hinge_geometries, check_vertex_data, hinge_anchor_plan, AnchorPlan, int_at_least_two, load_id, object_error, resolve_geometry, type_error, HostErrorKind, InstanceIds, LoadId,
    SceneLoad,
};

#[test]
fn host_errors_name_the_value_and_what_it_expects() {
    let e = type_error("scene path", "string");
    assert_eq!(e.kind, HostErrorKind::InvalidType);
    assert_eq!(e.message, "scene path expects string");
    let e = object_error("zOrder");
    assert_eq!(e.kind, HostErrorKind::UnknownObject);
    assert_eq!(e.message, "missing zOrder");
}

#[test]
fn counts_must_be_at_least_two() {
    assert_eq!(int_at_least_two(2, "numAxes").unwrap(), 2);
    assert_eq!(int_at_least_two(7, "numAxes").unwrap(), 7);
    let e = int_at_least_two(1, "numAxes").unwrap_err();
    assert_eq!(e.message, "numAxes expects int >= 2");
    assert!(int_at_least_two(-5, "teeth").is_err());
}

#[test]
fn only_the_two_id_properties_are_load_ids() {
    assert_eq!(load_id("entityID"), Some(LoadId::Entity));
    assert_eq!(load_id("geomID"), Some(LoadId::Geometry));
    assert_eq!(load_id("entityid"), None);
    assert_eq!(load_id("pos"), None);
}

#[test]
fn load_ids_read_back_until_the_scene_has_loaded() {
    let mut load = SceneLoad::new();
    load.begin_scene_load();
    assert!(load.loading());
    load.set_load_id(Some(40), LoadId::Entity, 123).unwrap();
    load.set_load_id(Some(41), LoadId::Geometry, 123).unwrap();
    assert_eq!(load.load_entity(LoadId::Entity, 123), Some(40));
    assert_eq!(load.load_entity(LoadId::Geometry, 123), Some(41));
    load.set_load_id(Some(40), LoadId::Entity, 7).unwrap();
    assert_eq!(load.load_entity(LoadId::Entity, 123), None);
    assert_eq!(load.load_entity(LoadId::Entity, 7), Some(40));
    let e = load.set_load_id(None, LoadId::Entity, 1).unwrap_err();
    assert_eq!(e.message, "missing ID");
    assert_eq!(load.geometry_candidate(123, Some(99)), Some(41));
    assert_eq!(load.geometry_candidate(5, Some(99)), Some(99));
    load.end_scene_load();
    assert!(!load.loading());
    assert_eq!(load.load_entity(LoadId::Entity, 7), None);
    assert_eq!(load.geometry_candidate(123, Some(99)), Some(99));
}

#[test]
fn geometry_ids_resolve_to_the_sky_a_geometry_or_an_error() {
    assert_eq!(resolve_geometry(0, Some(3), false).unwrap(), None);
    assert_eq!(resolve_geometry(12, Some(3), true).unwrap(), Some(3));
    assert_eq!(resolve_geometry(12, Some(3), false).unwrap_err().message, "missing geometry 12");
    assert_eq!(resolve_geometry(-4, None, true).unwrap_err().message, "missing geometry -4");
}

#[test]
fn each_entity_gets_one_object_id() {
    let mut ids = InstanceIds::new();
    assert_eq!(ids.allocate(), 0);
    assert_eq!(ids.ensure_entity(50), (1, true));
    assert_eq!(ids.ensure_entity(51), (2, true));
    assert_eq!(ids.ensure_entity(50), (1, false));
    assert_eq!(ids.entity_object(51), Some(2));
    assert_eq!(ids.entity_object(52), None);
}

#[test]
fn hinges_need_a_geometry_and_complete_their_anchors() {
    assert_eq!(check_hinge_geometries([0, 0]).unwrap_err().message, "missing addHinge geometry");
    assert!(check_hinge_geometries([0, 5]).is_ok());
    let plan = |geoms, given| hinge_anchor_plan(geoms, given);
    assert_eq!(plan([Some(1), Some(2)], [true, true]), AnchorPlan { zeroed: None, derived: None });
    assert_eq!(plan([Some(1), Some(2)], [true, false]), AnchorPlan { zeroed: None, derived: Some(1) });
    assert_eq!(plan([Some(1), None], [false, true]), AnchorPlan { zeroed: None, derived: Some(0) });
    assert_eq!(plan([Some(1), None], [false, false]), AnchorPlan { zeroed: Some(0), derived: Some(1) });
    assert_eq!(plan([None, Some(2)], [false, false]), AnchorPlan { zeroed: Some(1), derived: Some(0) });
}

#[test]
fn polygon_vertex_data_needs_surfaces_of_three_points() {
    assert_eq!(check_vertex_data(None, None).unwrap_err().message, "missing vertex data");
    assert_eq!(check_vertex_data(None, Some(2)).unwrap_err().message, "invalid vertex data");
    assert!(check_vertex_data(None, Some(4)).is_ok());
    assert_eq!(check_vertex_data(Some(&[]), Some(4)).unwrap_err().message, "invalid vertex data");
    assert_eq!(check_vertex_data(Some(&[4, 2]), None).unwrap_err().message, "invalid vertex data");
    assert!(check_vertex_data(Some(&[4, 3]), Some(1)).is_ok());
}

#[test]
fn events_start_unhandled_on_their_object() {
    assert_eq!(event_object(7), ScriptEvent { handled: false, this: 7 });
}

#[test]
fn scenes_are_queued_by_a_text_path() {
    assert_eq!(queue_scene(&ScriptArgument::Text("level.phz".into())).unwrap(), "level.phz");
    let e = queue_scene(&ScriptArgument::Other).unwrap_err();
    assert_eq!(e.kind, HostErrorKind::InvalidType);
    assert_eq!(e.message, "scene path expects string");
}

#[test]
fn script_ids_name_entity_indices_except_minus_one() {
    assert_eq!(real_entity(5), Some(5));
    assert_eq!(real_entity(0), Some(0));
    assert_eq!(real_entity(-1), None);
    assert_eq!(real_entity(-2), Some(u32::MAX - 1));
}

#[test]
fn entity_ids_round_trip_through_scene_lookup() {
    for index in [0u32, 7, 1 << 31, u32::MAX - 1] {
        assert_eq!(real_entity(entity_script_id(index)), Some(index));
    }
    assert_eq!(real_entity(-1), None);
}

#[test]
fn method_ids_pack_class_and_member() {
    let raw = intrinsic_id(3, 17);
    assert_eq!(raw, (3u64 << 32) | 17);
    assert_eq!(intrinsic_parts(raw), (3, 17));
    assert_eq!(intrinsic_parts(intrinsic_id(u32::MAX, u32::MAX)), (u32::MAX as u64, u32::MAX));
}

#[test]
fn methods_need_a_receiver_of_their_class() {
    let raw = intrinsic_id(2, 5);
    assert_eq!(intrinsic_target(Some(9), Some(2), raw).unwrap(), (2, 5));
    assert_eq!(intrinsic_target(None, Some(2), raw).unwrap_err().message, "missing method receiver");
    let e = intrinsic_target(Some(9), None, raw).unwrap_err();
    assert_eq!(e.kind, HostErrorKind::UnknownObject);
    assert_eq!(e.message, "unknown object");
    assert_eq!(intrinsic_target(Some(9), Some(1), raw).unwrap_err().message, "invalid method receiver");
}

#[test]
fn load_ids_are_writable_only_while_a_scene_loads() {
    assert!(property_writable("pos", true, false));
    assert!(!property_writable("entityID", false, false));
    assert!(property_writable("entityID", false, true));
    assert_eq!(property_write("geomID", false, true, Some(4)).unwrap(), PropertyWrite::LoadId(LoadId::Geometry, 4));
    assert_eq!(property_write("entityID", false, true, None).unwrap_err().message, "entityID expects int");
    let e = property_write("entityID", false, false, Some(4)).unwrap_err();
    assert_eq!(e.kind, HostErrorKind::Other);
    assert_eq!(e.message, "entityID is read-only");
    assert_eq!(property_write("pos", true, true, None).unwrap(), PropertyWrite::Setter);
    assert_eq!(property_read("entityID", true, Some(12), None), PropertyRead::LoadId(Some(12)));
    assert_eq!(property_read("geomID", true, Some(12), None), PropertyRead::LoadId(None));
    assert_eq!(property_read("geomID", false, Some(12), Some(3)), PropertyRead::Getter);
}

#[test]
fn selection_edits_need_a_writable_member_on_some_selected_object() {
    assert_eq!(check_selection_edit("wobble", MemberKind::Unknown, 3).unwrap_err(), "unknown property wobble");
    assert_eq!(
        check_selection_edit("area", MemberKind::Property { has_setter: false }, 3).unwrap_err(),
        "area is read-only"
    );
    assert_eq!(
        check_selection_edit("radius", MemberKind::Property { has_setter: true }, 0).unwrap_err(),
        "no selected object has radius"
    );
    assert_eq!(check_selection_edit("onClick", MemberKind::Event, 0).unwrap_err(), "no selected object has onClick");
    assert!(check_selection_edit("onClick", MemberKind::Event, 1).is_ok());
    assert!(check_selection_edit("pos", MemberKind::Property { has_setter: true }, 2).is_ok());
}
