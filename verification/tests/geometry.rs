use geometry_core::furniture_types::FurnitureType;
use geometry_core::layout::geometry::{footprint_at, GeometryCache};
use geometry_core::layout::placement::Pose2D;
use geometry_core::layout::scene::{Scene, Scoring};
use geometry_core::models::mesh::Mesh;
use geometry_core::models::placement_region::{
    AttachSurface, HeightRange, PlacementRegion, PlacementSemantics, Region, RegionClass, Shape2D,
    Visual,
};
use geometry_core::models::rect::Rect;
use geometry_core::models::space::{Space, SurfaceKind, SurfaceMeta};
use geometry_core::types::RegionsTypeMask;

fn rect(min_x: i32, min_y: i32, max_x: i32, max_y: i32) -> Rect {
    Rect { min_x, min_y, max_x, max_y }
}

fn kind(regions_type: u32, width: u32, depth: u32, regions: Vec<Region>) -> PlacementRegion {
    PlacementRegion {
        regions,
        semantics: PlacementSemantics {
            attach: AttachSurface::Floor,
            furniture_type: FurnitureType::Table,
            regions_type,
            count: 1,
        },
        visual: Visual {
            footprint_2d: Shape2D { width, depth },
            height_range: HeightRange { min_y: 0, max_y: 1 },
        },
    }
}

fn floor_and_wall() -> Space {
    Space {
        mesh: Mesh { quads: vec![rect(0, 0, 10, 10), rect(10, 0, 12, 10), rect(20, 20, 30, 30)] },
        surfaces: vec![
            SurfaceMeta {
                kind: SurfaceKind::Floor,
                regions_type_mask: RegionsTypeMask::from_id(0).unwrap(),
            },
            SurfaceMeta {
                kind: SurfaceKind::Wall,
                regions_type_mask: RegionsTypeMask::from_id(1).unwrap(),
            },
        ],
    }
}

fn scene() -> Scene {
    Scene {
        space: floor_and_wall(),
        items: vec![
            kind(
                0,
                2,
                3,
                vec![
                    Region {
                        class: RegionClass::Forbidden,
                        mesh: Mesh { quads: vec![rect(8, 8, 10, 10)] },
                    },
                    Region {
                        class: RegionClass::Restricted,
                        mesh: Mesh { quads: vec![rect(0, 0, 1, 1), rect(5, 5, 6, 6)] },
                    },
                ],
            ),
            kind(1, 1, 1, vec![]),
        ],
        candidates: vec![],
        scoring: Scoring { placement_reward: 10, restricted_penalty: 3 },
    }
}

#[test]
fn rect_without_cells_is_empty() {
    assert!(rect(0, 0, 0, 5).is_empty());
    assert!(rect(0, 0, 5, 0).is_empty());
    assert!(rect(3, 0, 2, 5).is_empty());
    assert!(!rect(0, 0, 1, 1).is_empty());
    assert!(!rect(-5, -5, -4, -4).is_empty());
}

#[test]
fn rects_intersect_when_they_share_a_cell() {
    let a = rect(0, 0, 4, 4);
    assert!(a.intersects(&rect(3, 3, 6, 6)));
    assert!(a.intersects(&rect(1, 1, 2, 2)));
    assert!(a.intersects(&rect(-2, -2, 1, 1)));
    assert!(a.intersects(&a));
}

#[test]
fn rects_that_only_touch_do_not_intersect() {
    let a = rect(0, 0, 4, 4);
    assert!(!a.intersects(&rect(4, 0, 6, 4)));
    assert!(!a.intersects(&rect(0, 4, 4, 6)));
    assert!(!a.intersects(&rect(-3, 0, 0, 4)));
    assert!(!a.intersects(&rect(10, 10, 12, 12)));
    assert!(!a.intersects(&rect(2, 2, 2, 3)));
}

#[test]
fn rect_fits_in_a_rect_that_holds_its_cells() {
    let outer = rect(0, 0, 10, 10);
    assert!(rect(0, 0, 10, 10).fits_in(&outer));
    assert!(rect(2, 3, 4, 5).fits_in(&outer));
    assert!(!rect(2, 3, 11, 5).fits_in(&outer));
    assert!(!rect(-1, 3, 4, 5).fits_in(&outer));
    assert!(!rect(2, 3, 4, 11).fits_in(&outer));
    assert!(rect(50, 50, 50, 60).fits_in(&outer));
}

#[test]
fn mesh_touches_through_any_quad() {
    let mesh = Mesh { quads: vec![rect(0, 0, 1, 1), rect(5, 5, 6, 6)] };
    assert!(mesh.touches(&rect(5, 5, 7, 7)));
    assert!(mesh.touches(&rect(0, 0, 3, 3)));
    assert!(!mesh.touches(&rect(1, 1, 5, 5)));
    assert!(!Mesh { quads: vec![] }.touches(&rect(0, 0, 100, 100)));
}

#[test]
fn space_supports_on_an_open_surface_only() {
    let space = floor_and_wall();
    assert!(space.supports(&rect(1, 1, 3, 4), 0));
    assert!(!space.supports(&rect(1, 1, 3, 4), 1));
    assert!(space.supports(&rect(10, 2, 12, 3), 1));
    assert!(!space.supports(&rect(10, 2, 12, 3), 0));
    assert!(!space.supports(&rect(9, 2, 11, 3), 0));
    assert!(!space.supports(&rect(9, 2, 11, 3), 1));
    assert!(!space.supports(&rect(1, 1, 3, 4), 32));
}

#[test]
fn quad_without_description_supports_nothing() {
    let space = floor_and_wall();
    assert!(!space.supports(&rect(21, 21, 22, 22), 0));
    assert!(!space.supports(&rect(21, 21, 22, 22), 1));
}

#[test]
fn placement_region_hits_by_class() {
    let scene = scene();
    let sofa = &scene.items[0];
    assert!(sofa.hits(RegionClass::Forbidden, &rect(9, 9, 12, 12)));
    assert!(!sofa.hits(RegionClass::Restricted, &rect(9, 9, 12, 12)));
    assert!(sofa.hits(RegionClass::Restricted, &rect(5, 5, 7, 7)));
    assert!(!sofa.hits(RegionClass::Forbidden, &rect(5, 5, 7, 7)));
    assert!(!scene.items[1].hits(RegionClass::Forbidden, &rect(0, 0, 100, 100)));
}

#[test]
fn footprint_starts_at_the_pose() {
    let shape = Shape2D { width: 2, depth: 3 };
    assert_eq!(footprint_at(&shape, &Pose2D { x: 1, y: 4, theta: 0 }), Some(rect(1, 4, 3, 7)));
    assert_eq!(footprint_at(&shape, &Pose2D { x: -4, y: -4, theta: 2 }), Some(rect(-4, -4, -2, -1)));
}

#[test]
fn footprint_turns_with_odd_theta() {
    let shape = Shape2D { width: 2, depth: 3 };
    assert_eq!(footprint_at(&shape, &Pose2D { x: 1, y: 4, theta: 1 }), Some(rect(1, 4, 4, 6)));
    assert_eq!(footprint_at(&shape, &Pose2D { x: 1, y: 4, theta: 3 }), Some(rect(1, 4, 4, 6)));
    assert_eq!(footprint_at(&shape, &Pose2D { x: 0, y: 0, theta: u32::MAX }), Some(rect(0, 0, 3, 2)));
}

#[test]
fn footprint_past_the_grid_is_none() {
    let shape = Shape2D { width: 2, depth: 3 };
    assert_eq!(footprint_at(&shape, &Pose2D { x: i32::MAX - 1, y: 0, theta: 0 }), None);
    assert_eq!(footprint_at(&shape, &Pose2D { x: 0, y: i32::MAX - 2, theta: 0 }), None);
    assert_eq!(
        footprint_at(&shape, &Pose2D { x: i32::MAX - 2, y: i32::MAX - 3, theta: 0 }),
        Some(rect(i32::MAX - 2, i32::MAX - 3, i32::MAX, i32::MAX))
    );
    let huge = Shape2D { width: u32::MAX, depth: 1 };
    assert_eq!(footprint_at(&huge, &Pose2D { x: i32::MIN, y: 0, theta: 0 }), Some(rect(i32::MIN, 0, i32::MAX, 1)));
    assert_eq!(footprint_at(&huge, &Pose2D { x: i32::MIN + 1, y: 0, theta: 0 }), None);
}

#[test]
fn cache_validity_follows_surface_forbidden_and_placed() {
    let scene = scene();
    let mut cache = GeometryCache::new(&scene);
    assert_eq!(cache.len(), 0);
    assert!(cache.is_valid(0, &rect(1, 1, 3, 4)));
    assert!(!cache.is_valid(0, &rect(7, 7, 9, 10)));
    assert!(!cache.is_valid(0, &rect(9, 1, 11, 4)));
    assert!(!cache.is_valid(1, &rect(1, 1, 2, 2)));
    assert!(cache.is_valid(1, &rect(10, 1, 11, 2)));
    assert!(!cache.is_valid(2, &rect(1, 1, 3, 4)));
    cache.insert(rect(1, 1, 3, 4));
    assert_eq!(cache.len(), 1);
    assert_eq!(cache.footprint(0), Some(rect(1, 1, 3, 4)));
    assert_eq!(cache.footprint(1), None);
    assert!(!cache.is_valid(0, &rect(2, 3, 4, 6)));
    assert!(cache.is_valid(0, &rect(3, 1, 5, 4)));
    assert!(cache.collides(&rect(2, 3, 4, 6)));
    assert!(!cache.collides(&rect(3, 1, 5, 4)));
}

#[test]
fn cache_reports_restricted_overlap() {
    let scene = scene();
    let cache = GeometryCache::new(&scene);
    assert!(cache.is_restricted(0, &rect(0, 0, 2, 3)));
    assert!(cache.is_valid(0, &rect(0, 0, 2, 3)));
    assert!(cache.is_restricted(0, &rect(4, 4, 6, 7)));
    assert!(!cache.is_restricted(0, &rect(1, 1, 3, 4)));
    assert!(!cache.is_restricted(1, &rect(0, 0, 2, 3)));
    assert!(!cache.is_restricted(7, &rect(0, 0, 2, 3)));
}

#[test]
fn cloned_cache_does_not_share_insertions() {
    let scene = scene();
    let mut parent = GeometryCache::new(&scene);
    parent.insert(rect(1, 1, 3, 4));
    let mut first = parent.clone();
    let mut second = parent.clone();
    first.insert(rect(5, 1, 7, 4));
    second.insert(rect(3, 5, 5, 8));
    assert_eq!(parent.len(), 1);
    assert_eq!(first.len(), 2);
    assert_eq!(second.len(), 2);
    assert_eq!(first.footprint(0), Some(rect(1, 1, 3, 4)));
    assert_eq!(first.footprint(1), Some(rect(5, 1, 7, 4)));
    assert_eq!(second.footprint(1), Some(rect(3, 5, 5, 8)));
    assert!(first.collides(&rect(5, 1, 6, 2)));
    assert!(!second.collides(&rect(5, 1, 6, 2)));
    assert!(!parent.collides(&rect(5, 1, 6, 2)));
}

#[test]
fn scoring_gain_is_reward_minus_penalty() {
    let scoring = Scoring { placement_reward: 10, restricted_penalty: 3 };
    assert_eq!(scoring.gain(false), 10);
    assert_eq!(scoring.gain(true), 7);
    let extreme = Scoring { placement_reward: i32::MIN, restricted_penalty: i32::MAX };
    assert_eq!(extreme.gain(true), i32::MIN as i64 - i32::MAX as i64);
    assert_eq!(extreme.gain(false), i32::MIN as i64);
}
