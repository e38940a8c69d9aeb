use physics_rust::ids::push_unique;
use physics_rust::selection::{
    window_targets_gone, WindowSelectionTarget, select_enclosed_outcome, select_expanded, EnclosedOutcome, process_select, process_select_under_mouse, shared_bool, spring_boundary_pivot_end, SelectEvent,
    SelectionMode, SpringPivotEnd, TriState, UnderMouseAction,
};
use physics_rust::weld::expand_compounds;

fn sorted(mut v: Vec<u64>) -> Vec<u64> {
    v.sort();
    v
}

fn event(entities: Vec<u64>, mode: SelectionMode, expand_groups: bool) -> SelectEvent {
    SelectEvent { entities, mode, open_menu: false, expand_groups }
}

#[test]
fn direct_selection_expands_groups_but_area_selection_does_not() {
    let group_id = 10;
    let (first, second) = (1, 2);
    let groups = [(first, group_id), (second, group_id)];

    let out = process_select(&event(vec![first], SelectionMode::Replace, true), &[], &groups, &[], &[]);
    assert_eq!(sorted(out.selected_after.clone()), vec![first, second]);

    let out = process_select(
        &event(vec![first], SelectionMode::Replace, false),
        &out.selected_after,
        &groups,
        &[],
        &[],
    );
    assert_eq!(out.selected_after, vec![first]);
}

#[test]
fn direct_toggle_changes_a_partially_selected_group_as_one_unit() {
    let group_id = 10;
    let (first, second) = (1, 2);
    let groups = [(first, group_id), (second, group_id)];

    let out = process_select(&event(vec![first], SelectionMode::Toggle, true), &[first], &groups, &[], &[]);
    assert!(!out.selected_after.contains(&first));
    assert!(!out.selected_after.contains(&second));

    let out = process_select(
        &event(vec![second], SelectionMode::Toggle, true),
        &out.selected_after,
        &groups,
        &[],
        &[],
    );
    assert!(out.selected_after.contains(&first));
    assert!(out.selected_after.contains(&second));
}

#[test]
fn push_unique_keeps_first_occurrence_only() {
    let (a, b) = (1u64, 2u64);
    let mut entities = vec![a];

    push_unique(&mut entities, a);
    push_unique(&mut entities, b);

    assert_eq!(entities, vec![a, b]);
}

#[test]
fn mouse_gestures_expand_logical_compounds_but_not_the_whole_sky() {
    let (a, b, c, sky_a, sky_b) = (1, 2, 3, 4, 5);
    let fixes = [
        [Some(a), Some(b)],
        [Some(b), Some(c)],
        [Some(sky_a), None],
        [Some(sky_b), None],
    ];

    assert_eq!(expand_compounds(&[a], &fixes), vec![a, b, c]);
    assert_eq!(expand_compounds(&[sky_a], &fixes), vec![sky_a]);
}

#[test]
fn unselected_spring_pivots_at_its_end_on_the_selected_body() {
    let (body, spring) = (1, 2);
    let pivot = spring_boundary_pivot_end(&[body], spring, Some(body), None);
    assert_eq!(pivot, Some(SpringPivotEnd::Selected));
}

#[test]
fn selected_spring_extends_the_pivot_to_its_sky_end() {
    let (body, spring) = (1, 2);
    let pivot = spring_boundary_pivot_end(&[body, spring], spring, Some(body), None);
    assert_eq!(pivot, Some(SpringPivotEnd::Other));
}

#[test]
fn spring_chain_pivot_moves_across_each_selected_spring() {
    let (body_a, spring_a_b, body_b, spring_b_sky) = (1, 2, 3, 4);
    let selected_through_body_b = [body_a, spring_a_b, body_b];
    let internal_link =
        spring_boundary_pivot_end(&selected_through_body_b, spring_a_b, Some(body_a), Some(body_b));
    let boundary = spring_boundary_pivot_end(&selected_through_body_b, spring_b_sky, Some(body_b), None);
    assert_eq!(internal_link, None);
    assert_eq!(boundary, Some(SpringPivotEnd::Selected));
}

#[test]
fn springs_whose_body_is_not_selected_do_not_pivot() {
    assert_eq!(spring_boundary_pivot_end(&[7], 2, Some(1), None), None);
    assert_eq!(spring_boundary_pivot_end(&[1, 2], 2, None, Some(1)), None);
}

#[test]
fn replace_deselects_the_old_selection_first() {
    let out = process_select(&event(vec![3], SelectionMode::Replace, false), &[1, 2], &[], &[], &[]);
    assert_eq!(out.selected_after, vec![3]);
    let commands: Vec<(u64, bool)> = out.commands.iter().map(|c| (c.entity, c.select)).collect();
    assert_eq!(commands, vec![(1, false), (2, false), (3, true)]);
    assert!(out.menu.is_none());
}

#[test]
fn empty_toggle_clears_the_selection_and_area_toggle_flips_each_entity() {
    let out = process_select(&event(vec![], SelectionMode::Toggle, false), &[1, 2], &[], &[], &[]);
    assert!(out.selected_after.is_empty());
    let out = process_select(&event(vec![1, 3], SelectionMode::Toggle, false), &[1, 2], &[], &[], &[]);
    assert_eq!(sorted(out.selected_after), vec![2, 3]);
}

#[test]
fn picking_a_spring_picks_its_end_handles_and_menus_target_the_result() {
    let spring = 5;
    let handles = [(6, spring), (7, spring), (8, 9)];
    let mut ev = event(vec![spring], SelectionMode::Replace, false);
    ev.open_menu = true;
    let out = process_select(&ev, &[], &[], &[spring], &handles);
    assert_eq!(out.selected_after, vec![spring, 6, 7]);
    let menu = out.menu.expect("menu");
    assert_eq!(menu.entities, vec![spring, 6, 7]);
    assert_eq!(menu.title, None);
}

#[test]
fn right_click_on_a_selected_group_opens_the_menu_without_changing_the_selection() {
    let groups = [(1, 10), (2, 10)];
    match process_select_under_mouse(Some(1), SelectionMode::Replace, true, &[1, 2], &groups, &[]) {
        UnderMouseAction::OpenMenu(target) => assert_eq!(target.entities, vec![1, 2]),
        UnderMouseAction::Select(_) => panic!("expected the menu"),
    }
    match process_select_under_mouse(Some(3), SelectionMode::Replace, false, &[1, 2], &groups, &[]) {
        UnderMouseAction::Select(ev) => {
            assert_eq!(ev.entities, vec![3]);
            assert!(ev.expand_groups);
        }
        UnderMouseAction::OpenMenu(_) => panic!("expected a selection"),
    }
}

#[test]
fn shared_flags_are_mixed_when_they_differ() {
    assert_eq!(shared_bool(&[]), None);
    assert_eq!(shared_bool(&[true, true]), Some(TriState::On));
    assert_eq!(shared_bool(&[false]), Some(TriState::Off));
    assert_eq!(shared_bool(&[true, false]), Some(TriState::Mixed));
}

#[test]
fn area_selection_adds_the_drawn_object_only_when_nothing_is_enclosed() {
    match select_enclosed_outcome(vec![4, 5], SelectionMode::Toggle, false, true) {
        EnclosedOutcome::Select(ev) => {
            assert_eq!(ev.entities, vec![4, 5]);
            assert_eq!(ev.mode, SelectionMode::Toggle);
            assert!(!ev.expand_groups);
        }
        EnclosedOutcome::AddFallback => panic!("expected a selection"),
    }
    assert!(matches!(
        select_enclosed_outcome(vec![], SelectionMode::Replace, false, true),
        EnclosedOutcome::AddFallback
    ));
    match select_enclosed_outcome(vec![], SelectionMode::Replace, true, false) {
        EnclosedOutcome::Select(ev) => {
            assert!(ev.entities.is_empty());
            assert!(ev.open_menu);
        }
        EnclosedOutcome::AddFallback => panic!("expected a selection"),
    }
}

#[test]
fn a_grown_selection_is_reselected_without_expanding_groups() {
    let ev = select_expanded(&[1, 2, 3], 1).expect("grown");
    assert_eq!(ev.entities, vec![1, 2, 3]);
    assert_eq!(ev.mode, SelectionMode::Replace);
    assert!(!ev.expand_groups && !ev.open_menu);
    assert!(select_expanded(&[1], 1).is_none());
}

#[test]
fn windows_close_when_every_target_is_gone() {
    let target = WindowSelectionTarget::from_entities(&[1, 2, 1]);
    assert_eq!(target.entities, vec![1, 2]);
    assert!(window_targets_gone(&target, &[false, false]));
    assert!(!window_targets_gone(&target, &[false, true]));
    let empty = WindowSelectionTarget::from_entities(&[]);
    assert!(!window_targets_gone(&empty, &[]));
    let titled = target.with_title("Spring".into());
    assert_eq!(titled.title_or("Object"), "Spring");
}
