use physics_rust::pointer::{
    begin_gesture, laser_click_should_place, press_step, press_tools, release_commits, release_step,
    zoom_should_rebase, Commit, Gesture, HeldAction, PointerHit, ReleaseAction, ReleasedItem, ToolKind,
    ToolSlot,
};

fn idle(kind: ToolKind) -> ToolSlot {
    ToolSlot::idle(kind)
}

fn busy(kind: ToolKind) -> ToolSlot {
    ToolSlot { kind, active: true }
}

fn hit(entity: u64, on_body: bool, rotates: bool, selected: bool) -> PointerHit {
    PointerHit { entity, on_body, rotates, selected }
}

#[test]
fn laser_tool_places_only_on_sky_or_physical_objects() {
    assert!(laser_click_should_place(None));
    assert!(laser_click_should_place(Some(true)));
    assert!(!laser_click_should_place(Some(false)));
}

#[test]
fn the_other_button_held_turns_a_press_into_a_pan() {
    assert_eq!(press_tools(ToolKind::Box, false, false), (idle(ToolKind::Box), idle(ToolKind::Rotate)));
    assert_eq!(press_tools(ToolKind::Box, true, false), (idle(ToolKind::Box), idle(ToolKind::Pan)));
    assert_eq!(press_tools(ToolKind::Box, false, true), (idle(ToolKind::Pan), idle(ToolKind::Rotate)));
}

#[test]
fn held_buttons_drive_their_gesture_or_report_a_long_press() {
    let tool = idle(ToolKind::Move);
    assert_eq!(press_step(false, true, Some(busy(ToolKind::Pan)), false, true, true, tool), HeldAction::Nothing);
    assert_eq!(press_step(true, true, Some(busy(ToolKind::Pan)), false, false, false, tool), HeldAction::Pan);
    assert_eq!(press_step(true, true, Some(busy(ToolKind::Move)), true, false, false, tool), HeldAction::Reset);
    assert_eq!(
        press_step(true, true, Some(busy(ToolKind::Rotate)), false, false, false, tool),
        HeldAction::RotateTargets
    );
    assert_eq!(press_step(true, true, Some(busy(ToolKind::Box)), false, false, false, tool), HeldAction::Rectangle);
    assert_eq!(press_step(true, true, Some(idle(ToolKind::Box)), false, false, false, tool), HeldAction::Nothing);
    assert_eq!(
        press_step(true, true, Some(idle(ToolKind::Box)), false, true, false, tool),
        HeldAction::LongOrMoved(tool)
    );
    assert_eq!(press_step(true, false, None, false, false, true, tool), HeldAction::Begin(tool));
    assert_eq!(press_step(true, false, None, false, false, false, tool), HeldAction::Nothing);
}

#[test]
fn pan_and_zoom_gestures_never_select() {
    let hits = [hit(1, true, true, false)];
    let start = begin_gesture(idle(ToolKind::Pan), &hits);
    assert!(!start.select_under_pointer);
    assert_eq!(start.gesture, Gesture::Pan);
    let start = begin_gesture(idle(ToolKind::Zoom), &hits);
    assert!(!start.select_under_pointer);
    assert_eq!(start.gesture, Gesture::Zoom);
}

#[test]
fn moving_a_selected_object_keeps_the_selection() {
    let start = begin_gesture(idle(ToolKind::Move), &[hit(4, true, true, true)]);
    assert!(!start.select_under_pointer);
    assert_eq!(start.gesture, Gesture::Move(4));
    let start = begin_gesture(idle(ToolKind::Move), &[hit(4, true, true, false)]);
    assert!(start.select_under_pointer);
    assert_eq!(start.gesture, Gesture::Nothing);
    let start = begin_gesture(idle(ToolKind::Move), &[]);
    assert!(start.select_under_pointer);
    assert_eq!(start.gesture, Gesture::PanInstead);
}

#[test]
fn rotation_needs_a_selected_rotating_object() {
    assert_eq!(begin_gesture(idle(ToolKind::Rotate), &[hit(2, true, true, true)]).gesture, Gesture::Rotate(2));
    assert_eq!(begin_gesture(idle(ToolKind::Rotate), &[hit(2, true, false, true)]).gesture, Gesture::Nothing);
    assert_eq!(begin_gesture(idle(ToolKind::Rotate), &[]).gesture, Gesture::PanInstead);
}

#[test]
fn springs_start_on_the_first_body_under_the_pointer() {
    let hits = [hit(1, false, false, false), hit(2, true, true, false), hit(3, true, true, false)];
    assert_eq!(begin_gesture(idle(ToolKind::Spring), &hits).gesture, Gesture::Spring(Some(2)));
    assert_eq!(begin_gesture(idle(ToolKind::Spring), &[]).gesture, Gesture::Spring(None));
}

#[test]
fn drawing_tools_draw_unless_the_press_is_on_the_selection() {
    assert_eq!(begin_gesture(idle(ToolKind::Box), &[]).gesture, Gesture::Box);
    assert_eq!(begin_gesture(idle(ToolKind::Polygon), &[hit(1, true, true, false)]).gesture, Gesture::Polygon);
    assert_eq!(begin_gesture(idle(ToolKind::Circle), &[hit(1, true, true, true)]).gesture, Gesture::Move(1));
    let laser = begin_gesture(idle(ToolKind::Laser), &[hit(1, false, false, false)]);
    assert!(laser.select_under_pointer);
    let drag = begin_gesture(idle(ToolKind::Drag), &[hit(6, true, true, false)]);
    assert!(drag.select_under_pointer);
    assert_eq!(drag.gesture, Gesture::Drag(6));
}

#[test]
fn releasing_adds_objects_and_rearms_drawing_tools() {
    let out = release_step(false, true, Some(busy(ToolKind::Box)), true, true, None);
    assert!(out.ended && out.took_tool);
    assert_eq!(out.action, ReleaseAction::SelectEnclosed);
    assert_eq!(out.next, Some(idle(ToolKind::Box)));
    let out = release_step(false, true, Some(busy(ToolKind::Box)), true, false, None);
    assert_eq!(out.action, ReleaseAction::AddBox);
    let out = release_step(false, true, Some(busy(ToolKind::Box)), false, false, None);
    assert_eq!(out.action, ReleaseAction::SelectUnderPointer);
    assert_eq!(out.next, None);
    let out = release_step(false, true, Some(busy(ToolKind::Spring)), false, false, None);
    assert_eq!(out.action, ReleaseAction::DropSpringPreview);
    let out = release_step(false, true, Some(busy(ToolKind::Spring)), true, false, None);
    assert_eq!(out.action, ReleaseAction::FinishSpring);
    assert_eq!(out.next, Some(idle(ToolKind::Spring)));
}

#[test]
fn clicks_with_attachment_tools_depend_on_what_lies_under_the_pointer() {
    let thruster = |hit_body| release_step(false, true, Some(idle(ToolKind::Thruster)), false, false, hit_body).action;
    assert_eq!(thruster(Some(true)), ReleaseAction::AddThruster);
    assert_eq!(thruster(Some(false)), ReleaseAction::SelectUnderPointer);
    assert_eq!(thruster(None), ReleaseAction::Nothing);
    let laser = |hit_body| release_step(false, true, Some(idle(ToolKind::Laser)), false, false, hit_body).action;
    assert_eq!(laser(None), ReleaseAction::AddLaser);
    assert_eq!(laser(Some(false)), ReleaseAction::SelectUnderPointer);
    assert_eq!(
        release_step(false, true, Some(idle(ToolKind::Fix)), false, false, None).action,
        ReleaseAction::AddFix
    );
}

#[test]
fn nothing_happens_while_the_button_is_down_or_was_never_clicked() {
    let slot = Some(busy(ToolKind::Move));
    let out = release_step(true, true, slot, true, true, None);
    assert!(!out.ended);
    assert_eq!(out.next, slot);
    let out = release_step(false, false, slot, true, true, None);
    assert!(!out.ended);
    let out = release_step(false, true, None, true, true, None);
    assert!(out.ended && !out.took_tool);
    assert_eq!(out.action, ReleaseAction::Nothing);
}

#[test]
fn ending_a_move_places_attachments_and_wakes_bodies() {
    let items = [
        ReleasedItem { entity: 1, attachment: true, body: false },
        ReleasedItem { entity: 2, attachment: false, body: true },
        ReleasedItem { entity: 3, attachment: false, body: false },
    ];
    assert_eq!(release_commits(&items, false), vec![Commit::PlaceAttachment(1), Commit::Unfreeze(2)]);
    assert_eq!(release_commits(&items, true), vec![Commit::Unfreeze(2)]);
}

#[test]
fn a_zoom_rebases_only_after_a_pan_while_it_is_held() {
    assert!(zoom_should_rebase(true, true, Some(busy(ToolKind::Zoom))));
    assert!(!zoom_should_rebase(false, true, Some(busy(ToolKind::Zoom))));
    assert!(!zoom_should_rebase(true, false, Some(busy(ToolKind::Zoom))));
    assert!(!zoom_should_rebase(true, true, Some(idle(ToolKind::Zoom))));
}

#[test]
fn tools_are_named_after_their_variant() {
    assert_eq!(ToolKind::Laser.name(), "Laser");
    assert_eq!(ToolKind::Pan.name(), "Pan");
}
