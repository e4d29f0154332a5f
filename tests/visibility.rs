use std::collections::HashSet;

use light_shadows::classify::{
    classify_light, passes_shadow_filters, Culling, LightFilter, MeshEntity, MeshTests,
};
use light_shadows::commit::{commit_visible, shrink_capacity, shrink_entities};
use light_shadows::frusta::{
    cascade_views, directional_frusta_update, point_frusta_update, spot_frusta_update,
    CameraView, FrustaUpdate,
};
use light_shadows::layers::{layers_match, RenderLayers};
use light_shadows::lights::{
    check_dir_light_mesh_visibility, check_point_light_mesh_visibility,
    check_spot_light_mesh_visibility, lights_to_check, ViewCascadeEntities, ViewCascadeTests,
};

fn mesh(entity: u64) -> MeshEntity {
    MeshEntity {
        entity,
        casts_shadows: true,
        is_directional_light: false,
        inherited_visible: true,
        layers: None,
        has_visibility_range: false,
        no_frustum_culling: false,
    }
}

fn culled(in_light_sphere: bool, in_frusta: &[bool]) -> MeshTests {
    MeshTests {
        in_range: None,
        culling: Some(Culling { in_light_sphere, in_frusta: in_frusta.to_vec() }),
    }
}

fn unculled() -> MeshTests {
    MeshTests { in_range: None, culling: None }
}

fn point_filter() -> LightFilter {
    LightFilter { layers: None, sphere_pretest: true }
}

fn dir_filter() -> LightFilter {
    LightFilter { layers: None, sphere_pretest: false }
}

fn run_point(
    shadows_enabled: bool,
    meshes: &Vec<MeshEntity>,
    tests: &Vec<MeshTests>,
    faces: &mut Vec<Vec<u64>>,
    flags: &mut HashSet<u64>,
    previous: &mut HashSet<u64>,
) {
    check_point_light_mesh_visibility(
        shadows_enabled,
        None,
        meshes,
        tests,
        faces,
        flags,
        previous,
    );
}

#[test]
fn default_layers_meet_layer_zero_only() {
    assert!(layers_match(&None, &None));
    assert!(layers_match(&None, &Some(RenderLayers::layer(0))));
    assert!(!layers_match(&None, &Some(RenderLayers::layer(1))));
    assert!(!layers_match(&Some(RenderLayers::none()), &None));
    assert!(RenderLayers::layer(5).intersects(&RenderLayers { words: vec![1 << 5, 7] }));
    assert!(!RenderLayers::layer(5).intersects(&RenderLayers { words: vec![0, 1 << 5] }));
    assert!(RenderLayers { words: vec![0, 4] }.intersects(&RenderLayers { words: vec![0, 6] }));
    assert!(!RenderLayers { words: vec![] }.intersects(&RenderLayers::default()));
}

#[test]
fn filters_reject_each_ineligible_kind() {
    let light = point_filter();
    let t = unculled();
    assert!(passes_shadow_filters(&mesh(1), &t, &light));

    let mut m = mesh(1);
    m.casts_shadows = false;
    assert!(!passes_shadow_filters(&m, &t, &light));

    let mut m = mesh(1);
    m.is_directional_light = true;
    assert!(!passes_shadow_filters(&m, &t, &light));

    let mut m = mesh(1);
    m.inherited_visible = false;
    assert!(!passes_shadow_filters(&m, &t, &light));

    let mut m = mesh(1);
    m.layers = Some(RenderLayers::layer(3));
    assert!(!passes_shadow_filters(&m, &t, &light));

    let mut m = mesh(1);
    m.has_visibility_range = true;
    assert!(passes_shadow_filters(&m, &t, &light));
    let out_of_range = MeshTests { in_range: Some(false), culling: None };
    assert!(!passes_shadow_filters(&m, &out_of_range, &light));
    let in_range = MeshTests { in_range: Some(true), culling: None };
    assert!(passes_shadow_filters(&m, &in_range, &light));
    assert!(passes_shadow_filters(&mesh(1), &out_of_range, &light));
}

#[test]
fn non_caster_is_never_visible() {
    let mut m = mesh(7);
    m.casts_shadows = false;
    let meshes = vec![m, mesh(8)];
    let tests = vec![culled(true, &[true; 6]), culled(true, &[true; 6])];
    let mut faces = Vec::new();
    let mut flags = HashSet::new();
    let mut previous: HashSet<u64> = [7, 8].into_iter().collect();
    run_point(true, &meshes, &tests, &mut faces, &mut flags, &mut previous);
    for face in &faces {
        assert_eq!(face, &vec![8]);
    }
    assert!(!flags.contains(&7));
    assert!(previous.contains(&7));
    assert!(!previous.contains(&8));
}

#[test]
fn foreign_layer_is_never_visible() {
    let mut m = mesh(7);
    m.layers = Some(RenderLayers::layer(2));
    let meshes = vec![m];
    let tests = vec![culled(true, &[true; 6])];
    let mut faces = Vec::new();
    let mut flags = HashSet::new();
    let mut previous = HashSet::new();
    run_point(true, &meshes, &tests, &mut faces, &mut flags, &mut previous);
    assert!(faces.iter().all(|f| f.is_empty()));
    assert!(flags.is_empty());

    check_point_light_mesh_visibility(
        true, Some(RenderLayers::layer(2)), &meshes, &tests, &mut faces, &mut flags, &mut previous,
    );
    assert!(faces.iter().all(|f| f == &vec![7]));
}

#[test]
fn mesh_without_bounds_is_seen_by_every_frustum() {
    let meshes = vec![mesh(3)];
    let tests = vec![unculled()];
    let mut faces = Vec::new();
    let mut flags = HashSet::new();
    let mut previous = HashSet::new();
    run_point(true, &meshes, &tests, &mut faces, &mut flags, &mut previous);
    assert_eq!(faces.len(), 6);
    assert!(faces.iter().all(|f| f == &vec![3]));
    assert!(flags.contains(&3));

    let mut spot = vec![9];
    check_spot_light_mesh_visibility(
        true, None, &meshes, &tests, &mut spot, &mut flags, &mut previous,
    );
    assert_eq!(spot, vec![3]);

    let views = vec![ViewCascadeTests { view: 100, cascades: 4, tests: vec![unculled()] }];
    let mut visible = Vec::new();
    let deferred =
        check_dir_light_mesh_visibility(true, true, None, &meshes, &views, &mut visible);
    assert_eq!(visible.len(), 1);
    assert!(visible[0].cascades.iter().all(|c| c == &vec![3]));
    assert_eq!(deferred, vec![3]);
}

#[test]
fn disabled_shadows_empty_previous_entries() {
    let meshes = vec![mesh(1), mesh(2)];
    let tests = vec![culled(true, &[true; 6]), unculled()];
    let mut faces = vec![vec![1, 2]; 6];
    let mut flags = HashSet::new();
    let mut previous: HashSet<u64> = [1, 2].into_iter().collect();
    run_point(false, &meshes, &tests, &mut faces, &mut flags, &mut previous);
    assert_eq!(faces.len(), 6);
    assert!(faces.iter().all(|f| f.is_empty()));
    assert!(flags.is_empty());
    assert_eq!(previous.len(), 2);

    let mut spot = vec![1, 2];
    let spot_tests = vec![culled(true, &[true]), unculled()];
    check_spot_light_mesh_visibility(
        false, None, &meshes, &spot_tests, &mut spot, &mut flags, &mut previous,
    );
    assert!(spot.is_empty());

    let views = vec![ViewCascadeTests { view: 5, cascades: 2, tests: vec![unculled(), unculled()] }];
    let mut visible = vec![ViewCascadeEntities { view: 5, cascades: vec![vec![1], vec![2]] }];
    let deferred =
        check_dir_light_mesh_visibility(false, true, None, &meshes, &views, &mut visible);
    assert!(deferred.is_empty());
    assert_eq!(visible.len(), 1);
    assert_eq!(visible[0].cascades.len(), 2);
    assert!(visible[0].cascades.iter().all(|c| c.is_empty()));

    assert_eq!(directional_frusta_update(false, true), FrustaUpdate::Clear);
    assert_eq!(point_frusta_update(false, true, true, true), FrustaUpdate::Clear);
    assert_eq!(spot_frusta_update(false, true, true), FrustaUpdate::Clear);
    assert!(cascade_views(false, &vec![CameraView { entity: 1, is_active: true }]).is_empty());
}

#[test]
fn point_light_sees_mesh_in_the_faces_that_contain_it() {
    // A mesh five units along +X of a light of range ten: inside the range sphere, and
    // inside the +X face frustum only.
    let meshes = vec![mesh(42)];
    let tests = vec![culled(true, &[true, false, false, false, false, false])];
    let mut faces = Vec::new();
    let mut flags = HashSet::new();
    let mut previous: HashSet<u64> = [42].into_iter().collect();
    run_point(true, &meshes, &tests, &mut faces, &mut flags, &mut previous);
    assert_eq!(faces[0], vec![42]);
    for face in &faces[1..] {
        assert!(face.is_empty());
    }
    assert!(flags.contains(&42));
    assert!(previous.is_empty());

    // Outside the range sphere: no face sees it, whatever the face tests say.
    let far = vec![culled(false, &[true; 6])];
    let mut flags = HashSet::new();
    run_point(true, &meshes, &far, &mut faces, &mut flags, &mut previous);
    assert!(faces.iter().all(|f| f.is_empty()));
    assert!(flags.is_empty());

    // Frustum culling disabled: every face sees it.
    let mut m = mesh(42);
    m.no_frustum_culling = true;
    run_point(true, &vec![m], &far, &mut faces, &mut flags, &mut previous);
    assert!(faces.iter().all(|f| f == &vec![42]));
}

#[test]
fn running_a_frame_twice_gives_the_same_sets() {
    let meshes = vec![mesh(1), mesh(2), mesh(3)];
    let tests = vec![
        culled(true, &[true, false, true, false, false, false]),
        unculled(),
        culled(false, &[true; 6]),
    ];
    let mut faces = Vec::new();
    let mut flags = HashSet::new();
    let mut previous: HashSet<u64> = [1, 3, 4].into_iter().collect();
    run_point(true, &meshes, &tests, &mut faces, &mut flags, &mut previous);
    let (faces1, flags1, previous1) = (faces.clone(), flags.clone(), previous.clone());
    run_point(true, &meshes, &tests, &mut faces, &mut flags, &mut previous);
    assert_eq!(faces, faces1);
    assert_eq!(flags, flags1);
    assert_eq!(previous, previous1);
    assert_eq!(faces[0], vec![1, 2]);
    assert_eq!(faces[1], vec![2]);
    let expected_previous: HashSet<u64> = [3, 4].into_iter().collect();
    assert_eq!(previous, expected_previous);
}

#[test]
fn shares_gather_to_the_whole() {
    let meshes: Vec<MeshEntity> = (0..10).map(mesh).collect();
    let tests: Vec<MeshTests> =
        (0..10).map(|i| culled(true, &[i % 2 == 0, i % 3 == 0])).collect();
    let whole = classify_light(&meshes, &tests, &dir_filter(), 2, 100);
    let parts = classify_light(&meshes, &tests, &dir_filter(), 2, 3);
    assert_eq!(whole.per_frustum, parts.per_frustum);
    assert_eq!(whole.marked, parts.marked);
    assert_eq!(whole.per_frustum[0], vec![0, 2, 4, 6, 8]);
    assert_eq!(whole.per_frustum[1], vec![0, 3, 6, 9]);
    assert_eq!(whole.marked, vec![0, 2, 3, 4, 6, 8, 9]);
}

#[test]
fn directional_views_follow_the_frusta() {
    let meshes = vec![mesh(1), mesh(2)];
    let views = vec![
        ViewCascadeTests { view: 10, cascades: 2, tests: vec![culled(false, &[true, false]), culled(false, &[false, false])] },
        ViewCascadeTests { view: 20, cascades: 1, tests: vec![culled(false, &[false]), culled(false, &[true])] },
    ];
    let mut visible = vec![ViewCascadeEntities { view: 30, cascades: vec![vec![7]] }];
    let deferred =
        check_dir_light_mesh_visibility(true, true, None, &meshes, &views, &mut visible);
    assert_eq!(visible.len(), 2);
    assert_eq!(visible[0].view, 10);
    assert_eq!(visible[0].cascades, vec![vec![1], vec![]]);
    assert_eq!(visible[1].view, 20);
    assert_eq!(visible[1].cascades, vec![vec![2]]);
    assert_eq!(deferred, vec![1, 2]);

    // The light itself not visible: lists emptied, nothing to flag.
    let deferred =
        check_dir_light_mesh_visibility(true, false, None, &meshes, &views, &mut visible);
    assert!(deferred.is_empty());
    assert!(visible.iter().all(|v| v.cascades.iter().all(|c| c.is_empty())));
}

#[test]
fn commit_sets_flags_and_forgets_previous() {
    let mut flags: HashSet<u64> = [1].into_iter().collect();
    let mut previous: HashSet<u64> = [2, 3, 4].into_iter().collect();
    commit_visible(&mut flags, &mut previous, &vec![2, 5, 2]);
    let expected_flags: HashSet<u64> = [1, 2, 5].into_iter().collect();
    let expected_previous: HashSet<u64> = [3, 4].into_iter().collect();
    assert_eq!(flags, expected_flags);
    assert_eq!(previous, expected_previous);
}

#[test]
fn shrink_capacity_values() {
    assert_eq!(shrink_capacity(0, 0), 0);
    assert_eq!(shrink_capacity(7, 0), 0);
    assert_eq!(shrink_capacity(100, 10), 20);
    assert_eq!(shrink_capacity(5, 2), 5);
    assert_eq!(shrink_capacity(12, 4), 12);
    assert_eq!(shrink_capacity(70, 10), 23);
}

#[test]
fn shrink_entities_lowers_capacity_and_keeps_entries() {
    let mut v: Vec<u64> = Vec::with_capacity(100);
    v.extend(0..10);
    shrink_entities(&mut v);
    assert_eq!(v, (0..10).collect::<Vec<u64>>());
    assert!(v.capacity() >= 10);
    assert!(v.capacity() < 100);

    let mut empty: Vec<u64> = Vec::with_capacity(64);
    shrink_entities(&mut empty);
    assert!(empty.is_empty());
    assert!(empty.capacity() < 64);
}

#[test]
fn lights_are_checked_once_each() {
    let lists = vec![vec![3, 1, 3], vec![], vec![2, 1, 4]];
    assert_eq!(lights_to_check(&lists), vec![3, 1, 2, 4]);
    assert!(lights_to_check(&vec![]).is_empty());
}

#[test]
fn frusta_updates_follow_changes() {
    assert_eq!(directional_frusta_update(true, false), FrustaUpdate::Keep);
    assert_eq!(directional_frusta_update(true, true), FrustaUpdate::Rebuild);
    assert_eq!(point_frusta_update(true, true, false, false), FrustaUpdate::Keep);
    assert_eq!(point_frusta_update(true, true, true, false), FrustaUpdate::Rebuild);
    assert_eq!(point_frusta_update(true, true, false, true), FrustaUpdate::Rebuild);
    assert_eq!(point_frusta_update(true, false, true, true), FrustaUpdate::Keep);
    assert_eq!(spot_frusta_update(true, true, true), FrustaUpdate::Rebuild);
    assert_eq!(spot_frusta_update(true, true, false), FrustaUpdate::Keep);
    assert_eq!(spot_frusta_update(true, false, true), FrustaUpdate::Keep);
}

#[test]
fn cascades_are_built_for_active_cameras() {
    let cameras = vec![
        CameraView { entity: 1, is_active: true },
        CameraView { entity: 2, is_active: false },
        CameraView { entity: 3, is_active: true },
    ];
    assert_eq!(cascade_views(true, &cameras), vec![1, 3]);
}

#[test]
fn view_without_cascades_flags_nothing() {
    let meshes = vec![mesh(3)];
    let views = vec![ViewCascadeTests { view: 100, cascades: 0, tests: vec![unculled()] }];
    let mut visible = Vec::new();
    let deferred =
        check_dir_light_mesh_visibility(true, true, None, &meshes, &views, &mut visible);
    assert!(deferred.is_empty());
    assert_eq!(visible.len(), 1);
    assert!(visible[0].cascades.is_empty());
}

#[test]
fn layers_beyond_the_first_word() {
    let high = RenderLayers::layer(70);
    assert_eq!(high.words, vec![0, 1 << 6]);
    assert!(high.intersects(&RenderLayers { words: vec![1, 1 << 6] }));
    assert!(!high.intersects(&RenderLayers { words: vec![1 << 6] }));
    assert!(!layers_match(&Some(high), &None));
}

#[test]
fn point_light_refills_its_face_lists_in_place() {
    let meshes = vec![mesh(1), mesh(2), mesh(3)];
    let tests = vec![unculled(), unculled(), unculled()];
    let mut faces: Vec<Vec<u64>> = (0..6)
        .map(|_| {
            let mut v: Vec<u64> = Vec::with_capacity(4);
            v.push(9);
            v
        })
        .collect();
    let mut flags = HashSet::new();
    let mut previous = HashSet::new();
    run_point(true, &meshes, &tests, &mut faces, &mut flags, &mut previous);
    for face in &faces {
        assert_eq!(face, &vec![1, 2, 3]);
        assert!(face.capacity() >= 4);
    }

    let mut spot: Vec<u64> = Vec::with_capacity(4);
    spot.push(9);
    let spot_tests = vec![unculled(), unculled(), unculled()];
    check_spot_light_mesh_visibility(
        true, None, &meshes, &spot_tests, &mut spot, &mut flags, &mut previous,
    );
    assert_eq!(spot, vec![1, 2, 3]);
    assert!(spot.capacity() >= 4);
}
