use physics_rust::weld::{
    rebuild_plan, AttachmentJointRecord, JointRecord,
    bodies_to_despawn, expand_compounds,
    is_stale_joint, is_stale_spring, plan_welds, same_topology, sort_by_index, BodyChoice, UnionFind,
    WeldGeometry,
};

fn geometry(entity: u64, index: u32, body: u64) -> WeldGeometry {
    WeldGeometry { entity, index, body: Some(body), is_plane: false }
}

#[test]
fn joined_entities_share_a_representative() {
    let mut sets = UnionFind::new(&[1, 2, 3, 4]);
    assert_eq!(sets.find(3), 3);
    sets.join(1, 2);
    sets.join(3, 4);
    assert_eq!(sets.find(1), sets.find(2));
    assert_ne!(sets.find(2), sets.find(3));
    sets.join(2, 4);
    assert_eq!(sets.find(1), sets.find(3));
    assert!(sets.contains(4));
    assert!(!sets.contains(5));
}

#[test]
fn sorting_by_index_is_stable() {
    let items = [(3, 30), (1, 10), (3, 31), (2, 20)];
    assert_eq!(sort_by_index(&items), vec![(1, 10), (2, 20), (3, 30), (3, 31)]);
}

#[test]
fn welded_geometries_share_a_body_and_others_keep_theirs() {
    let gs = [geometry(1, 1, 10), geometry(2, 2, 11), geometry(3, 3, 12)];
    let edges = [(50, [Some(1), Some(2)])];
    let comps = plan_welds(&gs, &edges, 99);
    assert_eq!(comps.len(), 2);
    let mut first = comps[0].members.clone();
    first.sort();
    assert_eq!(first, vec![1, 2]);
    assert!(!comps[0].is_static);
    assert_eq!(comps[0].body, BodyChoice::Existing(10));
    assert_eq!(comps[1].members, vec![3]);
    assert_eq!(comps[1].body, BodyChoice::Existing(12));
}

#[test]
fn sky_welds_and_planes_make_a_group_static() {
    let mut plane = geometry(3, 3, 12);
    plane.is_plane = true;
    let gs = [geometry(1, 1, 10), geometry(2, 2, 10), plane];
    let edges = [(50, [Some(2), None])];
    let comps = plan_welds(&gs, &edges, 99);
    assert_eq!(comps.len(), 3);
    assert_eq!(comps[0].members, vec![1]);
    assert_eq!(comps[0].body, BodyChoice::Existing(10));
    assert!(comps[1].is_static);
    assert_eq!(comps[1].body, BodyChoice::Sky);
    assert!(comps[2].is_static);
    assert_eq!(comps[2].body, BodyChoice::Sky);
}

#[test]
fn split_groups_get_a_new_body_when_theirs_is_taken() {
    let gs = [geometry(1, 1, 10), geometry(2, 2, 10)];
    let comps = plan_welds(&gs, &[], 99);
    assert_eq!(comps.len(), 2);
    assert_eq!(comps[0].body, BodyChoice::Existing(10));
    assert_eq!(comps[1].body, BodyChoice::New);
}

#[test]
fn cycles_only_split_when_connectivity_breaks() {
    let gs = [geometry(1, 1, 10), geometry(2, 2, 10), geometry(3, 3, 10)];
    let ring = [(50, [Some(1), Some(2)]), (51, [Some(2), Some(3)]), (52, [Some(3), Some(1)])];
    assert_eq!(plan_welds(&gs, &ring, 99).len(), 1);
    assert_eq!(plan_welds(&gs, &ring[1..], 99).len(), 1);
    let split = plan_welds(&gs, &ring[2..], 99);
    assert_eq!(split.len(), 2);
    let group_of = |e: u64| split.iter().position(|c| c.members.contains(&e)).unwrap();
    assert_ne!(group_of(1), group_of(2));
    assert_eq!(group_of(1), group_of(3));
}

#[test]
fn removing_a_weld_splits_bodies_without_changing_point_velocity() {
    let gs = [geometry(1, 1, 10), geometry(2, 2, 10)];
    let welded = plan_welds(&gs, &[(50, [Some(1), Some(2)])], 99);
    assert_eq!(welded.len(), 1);
    let split = plan_welds(&gs, &[], 99);
    assert_eq!(split.len(), 2);
    assert_eq!(split[0].body, BodyChoice::Existing(10));
    assert_eq!(split[1].body, BodyChoice::New);
}

#[test]
fn standalone_changes_do_not_rebuild_compounds() {
    let edges = [(50, [Some(1), Some(2)])];
    assert!(same_topology(&edges, &edges));
    let standalone_body = 12;
    assert_eq!(bodies_to_despawn(&[99, 10, standalone_body], &[10, 10], 99), vec![standalone_body]);
}

#[test]
fn removing_a_sky_weld_restores_a_dynamic_body() {
    let gs = [geometry(1, 1, 99)];
    let welded = plan_welds(&gs, &[(50, [Some(1), None])], 99);
    assert!(welded[0].is_static);
    assert_eq!(welded[0].body, BodyChoice::Sky);
    let free = plan_welds(&gs, &[], 99);
    assert!(!free[0].is_static);
    assert_eq!(free[0].body, BodyChoice::New);
}

#[test]
fn geometries_without_a_body_link_are_not_regrouped() {
    let loose = WeldGeometry { entity: 4, index: 4, body: None, is_plane: false };
    let comps = plan_welds(&[geometry(1, 1, 10), loose], &[], 99);
    assert_eq!(comps.len(), 1);
    assert_eq!(comps[0].members, vec![1]);
}

#[test]
fn stale_joints_and_springs_lost_a_geometry() {
    assert!(is_stale_joint([None, None], &[1]));
    assert!(is_stale_joint([Some(1), Some(2)], &[1]));
    assert!(!is_stale_joint([Some(1), None], &[1]));
    assert!(is_stale_spring([None, Some(7)], &[1]));
    assert!(!is_stale_spring([None, None], &[]));
    assert!(same_topology(&[(1, [Some(2), None])], &[(1, [Some(2), None])]));
    assert!(!same_topology(&[(1, [Some(2), None])], &[(1, [None, Some(2)])]));
}

#[test]
fn unused_bodies_go_but_the_sky_stays() {
    assert_eq!(bodies_to_despawn(&[99, 10, 11, 12], &[11], 99), vec![10, 12]);
    assert!(bodies_to_despawn(&[99], &[], 99).is_empty());
}

fn joint(entity: u64, index: u32, geoms: [Option<u64>; 2], fix: bool) -> JointRecord {
    JointRecord { entity, index, geoms, fix, link: Some(entity + 100) }
}

#[test]
fn rebuilds_sweep_stale_joints_and_order_the_weld_graph_by_index() {
    let geometries = [1, 2, 3];
    let joints = [
        joint(70, 9, [Some(2), Some(3)], true),
        joint(71, 4, [Some(1), Some(2)], true),
        joint(72, 5, [Some(1), Some(8)], true),
        joint(73, 6, [None, None], false),
        joint(74, 2, [Some(1), None], false),
        joint(75, 7, [Some(3), None], true),
    ];
    let springs = [(80, [Some(1), None]), (81, [Some(9), Some(1)])];
    let attachment_joints = [
        AttachmentJointRecord { entity: 172, visual: 72, visual_exists: true },
        AttachmentJointRecord { entity: 170, visual: 70, visual_exists: true },
        AttachmentJointRecord { entity: 190, visual: 90, visual_exists: false },
        AttachmentJointRecord { entity: 191, visual: 73, visual_exists: true },
        AttachmentJointRecord { entity: 192, visual: 81, visual_exists: true },
    ];
    let plan = rebuild_plan(&geometries, &joints, &springs, &attachment_joints, &[]);
    assert_eq!(plan.stale_joints, vec![72, 73]);
    assert_eq!(plan.stale_links, vec![172, 173]);
    assert_eq!(plan.stale_springs, vec![81]);
    assert_eq!(plan.orphaned_joints, vec![190, 191, 192]);
    assert_eq!(
        plan.edges,
        vec![(71, [Some(1), Some(2)]), (75, [Some(3), None]), (70, [Some(2), Some(3)])]
    );
    assert!(plan.regroup);
    let again = rebuild_plan(&geometries, &joints, &springs, &[], &plan.edges);
    assert!(!again.regroup);
}

#[test]
fn compounds_grow_in_joint_order_pass_after_pass() {
    let (a, b, c) = (1, 2, 3);
    let fixes = [[Some(c), Some(b)], [Some(a), Some(c)]];
    assert_eq!(expand_compounds(&[a], &fixes), vec![a, c, b]);
}
