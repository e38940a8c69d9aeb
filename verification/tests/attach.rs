use physics_rust::attach::{
    attachment_placement, duplicate_fix_exists, joint_click_outcome, reattach_target, BodyHit, JointClick,
    Reattach,
};
use physics_rust::kind::AttachmentKind;

fn hit(entity: u64) -> BodyHit {
    BodyHit { entity, sensor: false }
}

#[test]
fn duplicate_fixes_are_found_in_either_order_except_the_one_being_moved() {
    let fixes = [(100, [Some(1), Some(2)]), (101, [Some(3), None])];
    assert!(duplicate_fix_exists(1, 2, None, &fixes));
    assert!(duplicate_fix_exists(2, 1, None, &fixes));
    assert!(!duplicate_fix_exists(1, 2, Some(100), &fixes));
    assert!(!duplicate_fix_exists(1, 3, None, &fixes));
}

#[test]
fn a_fix_joint_does_not_join_an_already_fixed_pair_twice() {
    let fixes = [(100, [Some(1), Some(2)])];
    let hits = [hit(2), hit(1)];
    assert_eq!(attachment_placement(AttachmentKind::Fix, &hits, None, &fixes), Some((2, None)));
    assert_eq!(attachment_placement(AttachmentKind::Axle, &hits, None, &fixes), Some((2, Some(1))));
    assert_eq!(attachment_placement(AttachmentKind::Fix, &hits, Some(100), &fixes), Some((2, Some(1))));
    assert_eq!(attachment_placement(AttachmentKind::Fix, &[], None, &fixes), None);
}

#[test]
fn joint_clicks_on_sensors_select_instead() {
    let sensor = [BodyHit { entity: 5, sensor: true }, hit(6)];
    assert_eq!(joint_click_outcome(AttachmentKind::Axle, &sensor, &[]), JointClick::Select);
    assert_eq!(joint_click_outcome(AttachmentKind::Axle, &[hit(6)], &[]), JointClick::Attach(6, None));
    assert_eq!(joint_click_outcome(AttachmentKind::Fix, &[], &[]), JointClick::Nothing);
}

#[test]
fn dropped_attachments_find_a_new_holder_or_go_away() {
    assert_eq!(reattach_target(AttachmentKind::Laser, 9, &[], &[]), Reattach::Sky);
    assert_eq!(reattach_target(AttachmentKind::Laser, 9, &[hit(1), hit(2)], &[]), Reattach::Body(1, None));
    assert_eq!(reattach_target(AttachmentKind::Tracer, 9, &[], &[]), Reattach::Remove);
    assert_eq!(reattach_target(AttachmentKind::Thruster, 9, &[hit(4)], &[]), Reattach::Body(4, None));
    assert_eq!(reattach_target(AttachmentKind::Axle, 9, &[], &[]), Reattach::Remove);
    let fixes = [(9, [Some(1), Some(2)])];
    assert_eq!(reattach_target(AttachmentKind::Fix, 9, &[hit(1), hit(2)], &fixes), Reattach::Body(1, Some(2)));
}
