use geometry_core::furniture_types::FurnitureType;
use geometry_core::layout::placement::{Placement, Pose2D};
use geometry_core::layout::scene::{Scene, SceneError, Scoring};
use geometry_core::layout::state::{saturating_sum, LayoutState};
use geometry_core::models::mesh::Mesh;
use geometry_core::models::placement_region::{
    AttachSurface, HeightRange, PlacementRegion, PlacementSemantics, Region, RegionClass, Shape2D,
    Visual,
};
use geometry_core::models::rect::Rect;
use geometry_core::models::space::{Space, SurfaceKind, SurfaceMeta};
use geometry_core::search::node::SearchNode;
use geometry_core::types::RegionsTypeMask;
use std::collections::hash_map::DefaultHasher;
use std::hash::Hasher;

fn rect(min_x: i32, min_y: i32, max_x: i32, max_y: i32) -> Rect {
    Rect { min_x, min_y, max_x, max_y }
}

fn floor(width: i32, depth: i32) -> Space {
    Space {
        mesh: Mesh { quads: vec![rect(0, 0, width, depth)] },
        surfaces: vec![SurfaceMeta {
            kind: SurfaceKind::Floor,
            regions_type_mask: RegionsTypeMask::from_id(0).unwrap(),
        }],
    }
}

fn kind(
    furniture_type: FurnitureType,
    width: u32,
    depth: u32,
    count: u32,
    regions: Vec<Region>,
) -> PlacementRegion {
    PlacementRegion {
        regions,
        semantics: PlacementSemantics {
            attach: AttachSurface::Floor,
            furniture_type,
            regions_type: 0,
            count,
        },
        visual: Visual {
            footprint_2d: Shape2D { width, depth },
            height_range: HeightRange { min_y: 0, max_y: 1 },
        },
    }
}

fn grid(columns: i32, rows: i32, turns: u32) -> Vec<Pose2D> {
    let mut poses = Vec::new();
    for theta in 0..turns {
        for y in 0..rows {
            for x in 0..columns {
                poses.push(Pose2D { x, y, theta });
            }
        }
    }
    poses
}

fn one_sofa_scene() -> Scene {
    Scene {
        space: floor(3, 2),
        items: vec![kind(FurnitureType::Sofa, 2, 1, 1, vec![])],
        candidates: grid(3, 2, 2),
        scoring: Scoring { placement_reward: 10, restricted_penalty: 3 },
    }
}

fn pose(x: i32, y: i32, theta: u32) -> Pose2D {
    Pose2D { x, y, theta }
}

#[test]
fn root_has_nothing_placed_and_the_full_inventory() {
    let scene = Scene {
        space: floor(3, 2),
        items: vec![
            kind(FurnitureType::Sofa, 2, 1, 2, vec![]),
            kind(FurnitureType::Lamp, 1, 1, 0, vec![]),
            kind(FurnitureType::Table, 1, 1, 5, vec![]),
        ],
        candidates: vec![],
        scoring: Scoring { placement_reward: 1, restricted_penalty: 0 },
    };
    let root = LayoutState::root(&scene).unwrap();
    assert!(root.placed().is_empty());
    assert_eq!(root.remaining(0), 2);
    assert_eq!(root.remaining(1), 0);
    assert_eq!(root.remaining(2), 5);
    assert_eq!(root.remaining(3), 0);
    assert_eq!(root.score(), 0);
    assert_eq!(root.occupancy().len(), 0);
    assert_eq!(root.pending(), Some(0));
    assert!(!root.is_complete());
}

#[test]
fn root_refuses_a_category_that_no_mask_holds() {
    let mut scene = one_sofa_scene();
    scene.items.push(kind(FurnitureType::Lamp, 1, 1, 1, vec![]));
    scene.items.push(kind(FurnitureType::Table, 1, 1, 1, vec![]));
    scene.items[1].semantics.regions_type = 32;
    scene.items[2].semantics.regions_type = 40;
    assert_eq!(
        scene.validate(),
        Err(SceneError::RegionsTypeOutOfRange { kind: 1, regions_type: 32 })
    );
    match LayoutState::root(&scene) {
        Err(fault) => {
            assert_eq!(fault, SceneError::RegionsTypeOutOfRange { kind: 1, regions_type: 32 })
        }
        Ok(_) => panic!("a scene with a category out of range was accepted"),
    }
    scene.items[1].semantics.regions_type = 31;
    scene.items[2].semantics.regions_type = 31;
    assert_eq!(scene.validate(), Ok(()));
    assert!(LayoutState::root(&scene).is_ok());
}

#[test]
fn expand_places_the_pending_kind_at_every_valid_candidate() {
    let scene = one_sofa_scene();
    let root = LayoutState::root(&scene).unwrap();
    let children = root.expand();
    let poses: Vec<Pose2D> = children.iter().map(|child| child.placed()[0].pose).collect();
    assert_eq!(
        poses,
        vec![
            pose(0, 0, 0),
            pose(1, 0, 0),
            pose(0, 1, 0),
            pose(1, 1, 0),
            pose(0, 0, 1),
            pose(1, 0, 1),
            pose(2, 0, 1),
        ]
    );
    for child in &children {
        assert_eq!(child.placed().len(), 1);
        assert_eq!(child.placed()[0].item_id, 0);
        assert_eq!(child.remaining(0), 0);
        assert_eq!(child.score(), 10);
        assert_eq!(child.occupancy().len(), 1);
        assert!(child.is_complete());
    }
    assert_eq!(children[1].occupancy().footprint(0), Some(rect(1, 0, 3, 1)));
    assert_eq!(children[6].occupancy().footprint(0), Some(rect(2, 0, 3, 2)));
}

#[test]
fn expand_leaves_the_parent_untouched() {
    let scene = one_sofa_scene();
    let root = LayoutState::root(&scene).unwrap();
    let key = root.key();
    let _ = root.expand();
    assert!(root.placed().is_empty());
    assert_eq!(root.remaining(0), 1);
    assert_eq!(root.score(), 0);
    assert_eq!(root.occupancy().len(), 0);
    assert_eq!(root.key(), key);
}

#[test]
fn complete_layout_has_no_successor() {
    let scene = one_sofa_scene();
    let root = LayoutState::root(&scene).unwrap();
    for child in root.expand() {
        assert!(child.is_complete());
        assert_eq!(child.pending(), None);
        assert!(child.expand().is_empty());
    }
    let mut empty = one_sofa_scene();
    empty.items[0].semantics.count = 0;
    let done = LayoutState::root(&empty).unwrap();
    assert!(done.is_complete());
    assert!(done.expand().is_empty());
}

#[test]
fn dead_end_has_no_successor_and_is_not_complete() {
    let mut scene = one_sofa_scene();
    scene.items[0].regions.push(Region {
        class: RegionClass::Forbidden,
        mesh: Mesh { quads: vec![rect(0, 0, 3, 2)] },
    });
    let root = LayoutState::root(&scene).unwrap();
    assert!(root.expand().is_empty());
    assert!(!root.is_complete());
    assert_eq!(root.pending(), Some(0));
}

#[test]
fn lowest_kind_with_items_left_is_placed_first() {
    let scene = Scene {
        space: floor(2, 1),
        items: vec![
            kind(FurnitureType::Sofa, 1, 1, 0, vec![]),
            kind(FurnitureType::Lamp, 1, 1, 1, vec![]),
            kind(FurnitureType::Table, 1, 1, 1, vec![]),
        ],
        candidates: grid(2, 1, 1),
        scoring: Scoring { placement_reward: 1, restricted_penalty: 0 },
    };
    let root = LayoutState::root(&scene).unwrap();
    assert_eq!(root.pending(), Some(1));
    let children = root.expand();
    assert_eq!(children.len(), 2);
    assert_eq!(children[0].placed()[0], Placement { item_id: 1, pose: pose(0, 0, 0) });
    assert_eq!(children[0].pending(), Some(2));
    let grandchildren = children[0].expand();
    assert_eq!(grandchildren.len(), 1);
    assert_eq!(
        grandchildren[0].placed().clone(),
        vec![
            Placement { item_id: 1, pose: pose(0, 0, 0) },
            Placement { item_id: 2, pose: pose(1, 0, 0) },
        ]
    );
    assert!(grandchildren[0].is_complete());
}

#[test]
fn restricted_overlap_is_accepted_and_penalised() {
    let mut scene = one_sofa_scene();
    scene.items[0].regions.push(Region {
        class: RegionClass::Restricted,
        mesh: Mesh { quads: vec![rect(0, 0, 1, 2)] },
    });
    let root = LayoutState::root(&scene).unwrap();
    let children = root.expand();
    let scores: Vec<(Pose2D, i64)> =
        children.iter().map(|child| (child.placed()[0].pose, child.score())).collect();
    assert_eq!(
        scores,
        vec![
            (pose(0, 0, 0), 7),
            (pose(1, 0, 0), 10),
            (pose(0, 1, 0), 7),
            (pose(1, 1, 0), 10),
            (pose(0, 0, 1), 7),
            (pose(1, 0, 1), 10),
            (pose(2, 0, 1), 10),
        ]
    );
}

#[test]
fn placed_items_and_inventory_add_up_along_every_path() {
    let scene = Scene {
        space: floor(3, 2),
        items: vec![
            kind(FurnitureType::Sofa, 2, 1, 2, vec![]),
            kind(FurnitureType::Lamp, 1, 1, 1, vec![]),
        ],
        candidates: grid(3, 2, 1),
        scoring: Scoring { placement_reward: 1, restricted_penalty: 0 },
    };
    let root = LayoutState::root(&scene).unwrap();
    let mut level = vec![root];
    let mut seen = 0usize;
    while !level.is_empty() {
        let mut next = Vec::new();
        for state in &level {
            for item in 0..2u32 {
                let placed = state.placed().iter().filter(|p| p.item_id == item).count() as u32;
                assert_eq!(placed + state.remaining(item), scene.items[item as usize].semantics.count);
            }
            seen += 1;
            next.extend(state.expand());
        }
        level = next;
    }
    assert!(seen > 1);
}

#[test]
fn no_two_footprints_overlap_and_none_meets_a_forbidden_region() {
    let scene = Scene {
        space: floor(4, 2),
        items: vec![kind(
            FurnitureType::Sofa,
            2,
            1,
            3,
            vec![Region {
                class: RegionClass::Forbidden,
                mesh: Mesh { quads: vec![rect(3, 1, 4, 2)] },
            }],
        )],
        candidates: grid(4, 2, 2),
        scoring: Scoring { placement_reward: 1, restricted_penalty: 0 },
    };
    let root = LayoutState::root(&scene).unwrap();
    let mut level = vec![root];
    let mut complete = 0usize;
    while !level.is_empty() {
        let mut next = Vec::new();
        for state in &level {
            let cache = state.occupancy();
            for i in 0..cache.len() {
                let a = cache.footprint(i).unwrap();
                assert!(!a.intersects(&rect(3, 1, 4, 2)));
                assert!(a.fits_in(&rect(0, 0, 4, 2)));
                for j in 0..i {
                    assert!(!a.intersects(&cache.footprint(j).unwrap()));
                }
            }
            if state.is_complete() {
                complete += 1;
            }
            next.extend(state.expand());
        }
        level = next;
    }
    assert!(complete > 0);
}

#[test]
fn key_depends_on_placements_and_inventory_only() {
    let scene = one_sofa_scene();
    let first = LayoutState::root(&scene).unwrap().expand();
    let second = LayoutState::root(&scene).unwrap().expand();
    assert_eq!(first.len(), second.len());
    for (a, b) in first.iter().zip(second.iter()) {
        assert_eq!(a.key(), b.key());
    }
    let mut penalised = one_sofa_scene();
    penalised.items[0].regions.push(Region {
        class: RegionClass::Restricted,
        mesh: Mesh { quads: vec![rect(0, 0, 3, 2)] },
    });
    let third = LayoutState::root(&penalised).unwrap().expand();
    for (a, c) in first.iter().zip(third.iter()) {
        assert_eq!(a.placed(), c.placed());
        assert_eq!(c.score(), 7);
        assert_eq!(a.key(), c.key());
    }
}

#[test]
fn key_tells_different_layouts_apart() {
    let scene = one_sofa_scene();
    let root = LayoutState::root(&scene).unwrap();
    let children = root.expand();
    let mut keys: Vec<u64> = children.iter().map(|child| child.key()).collect();
    keys.push(root.key());
    let total = keys.len();
    keys.sort();
    keys.dedup();
    assert_eq!(keys.len(), total);
    let mut more = one_sofa_scene();
    more.items[0].semantics.count = 2;
    assert_ne!(LayoutState::root(&more).unwrap().key(), root.key());
}

#[test]
fn key_is_the_hash_of_count_placements_and_inventory() {
    let scene = one_sofa_scene();
    let root = LayoutState::root(&scene).unwrap();
    let mut hasher = DefaultHasher::new();
    hasher.write(&0u64.to_le_bytes());
    hasher.write(&0u32.to_le_bytes());
    hasher.write(&1u32.to_le_bytes());
    assert_eq!(root.key(), hasher.finish());
    let child = &root.expand()[1];
    let mut hasher = DefaultHasher::new();
    hasher.write(&1u64.to_le_bytes());
    hasher.write(&0u32.to_le_bytes());
    hasher.write(&1i32.to_le_bytes());
    hasher.write(&0i32.to_le_bytes());
    hasher.write(&0u32.to_le_bytes());
    hasher.write(&0u32.to_le_bytes());
    hasher.write(&0u32.to_le_bytes());
    assert_eq!(child.key(), hasher.finish());
}

#[test]
fn pose_and_placement_feed_their_fields_to_the_hasher() {
    let mut by_hand = DefaultHasher::new();
    by_hand.write(&(-3i32).to_le_bytes());
    by_hand.write(&7i32.to_le_bytes());
    by_hand.write(&2u32.to_le_bytes());
    let mut hashed = DefaultHasher::new();
    pose(-3, 7, 2).hash(&mut hashed);
    assert_eq!(hashed.finish(), by_hand.finish());

    let mut by_hand = DefaultHasher::new();
    by_hand.write(&9u32.to_le_bytes());
    by_hand.write(&(-3i32).to_le_bytes());
    by_hand.write(&7i32.to_le_bytes());
    by_hand.write(&2u32.to_le_bytes());
    let mut hashed = DefaultHasher::new();
    Placement { item_id: 9, pose: pose(-3, 7, 2) }.hash(&mut hashed);
    assert_eq!(hashed.finish(), by_hand.finish());
}

#[test]
fn saturating_sum_stops_at_the_ends() {
    assert_eq!(saturating_sum(5, 7), 12);
    assert_eq!(saturating_sum(5, -7), -2);
    assert_eq!(saturating_sum(i64::MAX, 1), i64::MAX);
    assert_eq!(saturating_sum(i64::MAX - 1, 1), i64::MAX);
    assert_eq!(saturating_sum(i64::MIN, -1), i64::MIN);
    assert_eq!(saturating_sum(i64::MIN + 1, -1), i64::MIN);
    assert_eq!(saturating_sum(i64::MIN, i64::MAX), -1);
    assert_eq!(saturating_sum(i64::MAX, i64::MIN), -1);
}

#[test]
fn candidate_that_leaves_the_grid_is_skipped() {
    let mut scene = one_sofa_scene();
    scene.candidates = vec![pose(i32::MAX, 0, 0), pose(0, i32::MAX, 1), pose(0, 0, 0)];
    let root = LayoutState::root(&scene).unwrap();
    let children = root.expand();
    assert_eq!(children.len(), 1);
    assert_eq!(children[0].placed()[0].pose, pose(0, 0, 0));
}
