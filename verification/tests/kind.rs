use physics_rust::kind::{objects_selection_title, selection_title, AttachmentKind, ObjectComponents, ObjectKind};

#[test]
fn titles_use_specific_geometry_and_generic_object_levels() {
    assert_eq!(selection_title(&[ObjectKind::Box], 0), "Box");
    assert_eq!(selection_title(&[ObjectKind::Box, ObjectKind::Box], 0), "2 boxes");
    assert_eq!(
        selection_title(&[ObjectKind::Box, ObjectKind::Box, ObjectKind::Circle], 0),
        "3 geometries"
    );
    assert_eq!(selection_title(&[ObjectKind::Box, ObjectKind::Axle], 0), "2 objects");
}

#[test]
fn empty_and_unknown_selections_are_objects() {
    assert_eq!(selection_title(&[], 0), "Object");
    assert_eq!(selection_title(&[], 1), "Object");
    assert_eq!(selection_title(&[ObjectKind::Box], 1), "2 objects");
    assert_eq!(selection_title(&[], 12), "12 objects");
}

#[test]
fn kind_titles_count_in_decimal() {
    assert_eq!(ObjectKind::LaserPen.title(1), "Laser pen");
    assert_eq!(ObjectKind::FixJoint.title(10), "10 fix joints");
    assert_eq!(ObjectKind::Plane.singular(), "Plane");
    assert_eq!(ObjectKind::Thruster.plural(), "thrusters");
    assert!(ObjectKind::Plane.is_geometry());
    assert!(!ObjectKind::Spring.is_geometry());
}

fn components() -> ObjectComponents {
    ObjectComponents {
        attachment: None,
        spring: false,
        spring_end: false,
        plane: false,
        polygon: false,
        circle_with_radius: None,
        axle: false,
        fix: false,
    }
}

#[test]
fn components_decide_the_kind() {
    let laser = ObjectComponents { attachment: Some(AttachmentKind::Laser), ..components() };
    assert_eq!(laser.kind(), Some(ObjectKind::LaserPen));
    let circle = ObjectComponents { circle_with_radius: Some(true), ..components() };
    assert_eq!(circle.kind(), Some(ObjectKind::Circle));
    let boxed = ObjectComponents { circle_with_radius: Some(false), ..components() };
    assert_eq!(boxed.kind(), Some(ObjectKind::Box));
    assert_eq!(components().kind(), None);
    assert_eq!(objects_selection_title(&[Some(circle), Some(boxed)]), "2 geometries");
    assert_eq!(objects_selection_title(&[Some(circle), None]), "Circle");
    assert_eq!(objects_selection_title(&[Some(circle), Some(components())]), "2 objects");
    let handle = ObjectComponents { spring_end: true, ..components() };
    assert_eq!(objects_selection_title(&[Some(circle), Some(handle)]), "Circle");
}
