use vstd::prelude::*;

use std::collections::HashSet;

use crate::classify::{
    classify_light, marked_entities, tests_fit, visible_entities, LightBuffers, LightFilter,
    MeshEntity, MeshTests,
};
use crate::commit::{commit_visible, lemma_commit_idempotent, shrink_entities};
use crate::layers::RenderLayers;

verus! {

broadcast use vstd::std_specs::hash::group_hash_axioms;

/// The number of faces of a point light's cubemap, one frustum each.
pub const CUBEMAP_FACES: usize = 6;

/// How many meshes one share of the classification covers.
pub const MESHES_PER_SHARE: usize = 256;

/// How a point or spot light selects shadow casters: by its layers, with the range-sphere
/// test before the frustum tests.
pub open spec fn sphere_filter(layers: Option<RenderLayers>) -> LightFilter {
    LightFilter { layers, sphere_pretest: true }
}

/// How a directional light selects shadow casters: by its layers, with the cascade frustum
/// tests alone.
pub open spec fn cascade_filter(layers: Option<RenderLayers>) -> LightFilter {
    LightFilter { layers, sphere_pretest: false }
}

/// What frustum `f` of a light sees: nothing when its shadows are disabled.
pub open spec fn light_sees(
    shadows_enabled: bool,
    meshes: Seq<MeshEntity>,
    tests: Seq<MeshTests>,
    light: LightFilter,
    f: int,
) -> Seq<u64> {
    if shadows_enabled {
        visible_entities(meshes, tests, light, f, 0, meshes.len() as int)
    } else {
        seq![]
    }
}

/// The entities that a light with `n` frusta marks as seen: none when its shadows are disabled.
pub open spec fn light_marks(
    shadows_enabled: bool,
    meshes: Seq<MeshEntity>,
    tests: Seq<MeshTests>,
    light: LightFilter,
    n: int,
) -> Seq<u64> {
    if shadows_enabled {
        marked_entities(meshes, tests, light, n, 0, meshes.len() as int)
    } else {
        seq![]
    }
}

/// Replaces the entities of `dst` by those of `src`, reusing the room `dst` already has, then
/// gives back room that has grown well past the new length.
fn refill(dst: &mut Vec<u64>, src: &Vec<u64>)
    ensures
        final(dst)@ == src@,
{
    dst.clear();
    let mut i: usize = 0;
    while i < src.len()
        invariant
            i <= src@.len(),
            dst@ == src@.subrange(0, i as int),
        decreases src@.len() - i,
    {
        dst.push(src[i]);
        i = i + 1;
        assert(dst@ == src@.subrange(0, i as int));
    }
    assert(src@.subrange(0, src@.len() as int) == src@);
    shrink_entities(dst);
}

/// Shrinks each list to a capacity near its length; the entities stay as they are.
fn shrink_all(lists: &mut Vec<Vec<u64>>)
    ensures
        final(lists)@.len() == old(lists)@.len(),
        forall|f: int|
            0 <= f < old(lists)@.len() ==> #[trigger] final(lists)@[f]@ == old(lists)@[f]@,
{
    let n = lists.len();
    let mut f: usize = 0;
    while f < n
        invariant
            f <= n,
            n == old(lists)@.len(),
            lists@.len() == n,
            forall|g: int| 0 <= g < n ==> #[trigger] lists@[g]@ == old(lists)@[g]@,
        decreases n - f,
    {
        shrink_entities(&mut lists[f]);
        f = f + 1;
    }
}

/// Refills the caller's lists in place with `src`, one list per entry of `src`: lists are added
/// or dropped only to match the count, so the ones kept keep their room across frames.
fn refill_all(dst: &mut Vec<Vec<u64>>, src: &Vec<Vec<u64>>)
    ensures
        final(dst)@.len() == src@.len(),
        forall|f: int| 0 <= f < src@.len() ==> #[trigger] final(dst)@[f]@ == src@[f]@,
{
    let n = src.len();
    dst.truncate(n);
    while dst.len() < n
        invariant
            dst@.len() <= n,
        decreases n - dst@.len(),
    {
        dst.push(Vec::new());
    }
    let mut f: usize = 0;
    while f < n
        invariant
            f <= n,
            n == src@.len(),
            dst@.len() == n,
            forall|g: int| 0 <= g < f ==> #[trigger] dst@[g]@ == src@[g]@,
        decreases n - f,
    {
        refill(&mut dst[f], &src[f]);
        f = f + 1;
    }
}

/// `n` empty lists.
fn empty_lists(n: usize) -> (r: Vec<Vec<u64>>)
    ensures
        r@.len() == n,
        forall|f: int| 0 <= f < n ==> #[trigger] r@[f]@ == Seq::<u64>::empty(),
{
    let mut r: Vec<Vec<u64>> = Vec::new();
    let mut f: usize = 0;
    while f < n
        invariant
            f <= n,
            r@.len() == f,
            forall|g: int| 0 <= g < f ==> #[trigger] r@[g]@ == Seq::<u64>::empty(),
        decreases n - f,
    {
        r.push(Vec::new());
        f = f + 1;
    }
    r
}

/// One frame of shadow-caster visibility for a point light: fills the list of each cubemap
/// face, flags the entities seen and takes them out of the set of entities seen before.
/// With shadows disabled every face is left empty.
pub fn check_point_light_mesh_visibility(
    shadows_enabled: bool,
    layers: Option<RenderLayers>,
    meshes: &Vec<MeshEntity>,
    tests: &Vec<MeshTests>,
    faces: &mut Vec<Vec<u64>>,
    view_visibility: &mut HashSet<u64>,
    previous_visible: &mut HashSet<u64>,
)
    requires
        meshes@.len() == tests@.len(),
        tests_fit(tests@, CUBEMAP_FACES as int),
    ensures
        final(faces)@.len() == CUBEMAP_FACES,
        forall|f: int|
            0 <= f < CUBEMAP_FACES ==> #[trigger] final(faces)@[f]@ == light_sees(
                shadows_enabled,
                meshes@,
                tests@,
                sphere_filter(layers),
                f,
            ),
        final(view_visibility)@ == old(view_visibility)@.union(
            light_marks(
                shadows_enabled,
                meshes@,
                tests@,
                sphere_filter(layers),
                CUBEMAP_FACES as int,
            ).to_set(),
        ),
        final(previous_visible)@ == old(previous_visible)@.difference(
            light_marks(
                shadows_enabled,
                meshes@,
                tests@,
                sphere_filter(layers),
                CUBEMAP_FACES as int,
            ).to_set(),
        ),
        light_frame(
            shadows_enabled,
            sphere_filter(layers),
            meshes@,
            tests@,
            CUBEMAP_FACES as int,
            old(view_visibility)@,
            old(previous_visible)@,
            final(faces)@.map_values(|l: Vec<u64>| l@),
            final(view_visibility)@,
            final(previous_visible)@,
        ),
{
    let light = LightFilter { layers, sphere_pretest: true };
    let found = if shadows_enabled {
        classify_light(meshes, tests, &light, CUBEMAP_FACES, MESHES_PER_SHARE)
    } else {
        LightBuffers { per_frustum: empty_lists(CUBEMAP_FACES), marked: Vec::new() }
    };
    refill_all(faces, &found.per_frustum);
    commit_visible(view_visibility, previous_visible, &found.marked);
}

/// One frame of shadow-caster visibility for a spot light: fills the list of its single
/// frustum, flags the entities seen and takes them out of the set of entities seen before.
/// With shadows disabled the list is left empty.
pub fn check_spot_light_mesh_visibility(
    shadows_enabled: bool,
    layers: Option<RenderLayers>,
    meshes: &Vec<MeshEntity>,
    tests: &Vec<MeshTests>,
    visible: &mut Vec<u64>,
    view_visibility: &mut HashSet<u64>,
    previous_visible: &mut HashSet<u64>,
)
    requires
        meshes@.len() == tests@.len(),
        tests_fit(tests@, 1),
    ensures
        final(visible)@ == light_sees(
            shadows_enabled,
            meshes@,
            tests@,
            sphere_filter(layers),
            0,
        ),
        final(view_visibility)@ == old(view_visibility)@.union(
            light_marks(
                shadows_enabled,
                meshes@,
                tests@,
                sphere_filter(layers),
                1,
            ).to_set(),
        ),
        final(previous_visible)@ == old(previous_visible)@.difference(
            light_marks(
                shadows_enabled,
                meshes@,
                tests@,
                sphere_filter(layers),
                1,
            ).to_set(),
        ),
        light_frame(
            shadows_enabled,
            sphere_filter(layers),
            meshes@,
            tests@,
            1,
            old(view_visibility)@,
            old(previous_visible)@,
            seq![final(visible)@],
            final(view_visibility)@,
            final(previous_visible)@,
        ),
{
    let light = LightFilter { layers, sphere_pretest: true };
    let found = if shadows_enabled {
        classify_light(meshes, tests, &light, 1, MESHES_PER_SHARE)
    } else {
        LightBuffers { per_frustum: empty_lists(1), marked: Vec::new() }
    };
    refill(visible, &found.per_frustum[0]);
    commit_visible(view_visibility, previous_visible, &found.marked);
}

/// The culling tests of every mesh for one camera view of a directional light.
pub struct ViewCascadeTests {
    /// The camera view.
    pub view: u64,
    /// How many cascade frusta the light has for that view.
    pub cascades: usize,
    /// One record per mesh, each with one result per cascade.
    pub tests: Vec<MeshTests>,
}

/// The entities that each cascade of a directional light sees, for one camera view.
pub struct ViewCascadeEntities {
    pub view: u64,
    pub cascades: Vec<Vec<u64>>,
}

/// Every view's tests cover all meshes, with one result per cascade.
pub open spec fn views_fit(meshes: Seq<MeshEntity>, views: Seq<ViewCascadeTests>) -> bool {
    forall|v: int|
        0 <= v < views.len() ==> (#[trigger] views[v]).tests@.len() == meshes.len() && tests_fit(
            views[v].tests@,
            views[v].cascades as int,
        )
}

/// The entities a directional light marks as seen over its first `k` views, view after view;
/// none when it is not active.
pub open spec fn deferred_marks(
    active: bool,
    meshes: Seq<MeshEntity>,
    views: Seq<ViewCascadeTests>,
    light: LightFilter,
    k: int,
) -> Seq<u64>
    decreases k,
{
    if k <= 0 || !active {
        seq![]
    } else {
        deferred_marks(active, meshes, views, light, k - 1) + marked_entities(
            meshes,
            views[k - 1].tests@,
            light,
            views[k - 1].cascades as int,
            0,
            meshes.len() as int,
        )
    }
}

/// What view entry `e` must hold after a frame: the view's identifier, and for each cascade
/// the entities it sees, or none when the light is not active.
pub open spec fn cascade_entry_for(
    e: ViewCascadeEntities,
    active: bool,
    meshes: Seq<MeshEntity>,
    v: ViewCascadeTests,
    light: LightFilter,
) -> bool {
    &&& e.view == v.view
    &&& e.cascades@.len() == v.cascades
    &&& forall|c: int|
        0 <= c < v.cascades ==> #[trigger] e.cascades@[c]@ == light_sees(
            active,
            meshes,
            v.tests@,
            light,
            c,
        )
}

/// One frame of shadow-caster visibility for a directional light. The per-view lists are
/// rebuilt to match the views that have cascade frusta, each cascade's list is filled (left
/// empty when shadows are disabled or the light is not visible), and the entities to flag as
/// seen are returned, for a later pass to commit.
pub fn check_dir_light_mesh_visibility(
    shadows_enabled: bool,
    light_visible: bool,
    layers: Option<RenderLayers>,
    meshes: &Vec<MeshEntity>,
    views: &Vec<ViewCascadeTests>,
    visible: &mut Vec<ViewCascadeEntities>,
) -> (deferred: Vec<u64>)
    requires
        views_fit(meshes@, views@),
    ensures
        final(visible)@.len() == views@.len(),
        forall|v: int|
            0 <= v < views@.len() ==> cascade_entry_for(
                #[trigger] final(visible)@[v],
                shadows_enabled && light_visible,
                meshes@,
                views@[v],
                cascade_filter(layers),
            ),
        deferred@ == deferred_marks(
            shadows_enabled && light_visible,
            meshes@,
            views@,
            cascade_filter(layers),
            views@.len() as int,
        ),
{
    let light = LightFilter { layers, sphere_pretest: false };
    let active = shadows_enabled && light_visible;
    let mut entries: Vec<ViewCascadeEntities> = Vec::new();
    let mut deferred: Vec<u64> = Vec::new();
    let mut v: usize = 0;
    while v < views.len()
        invariant
            v <= views@.len(),
            views_fit(meshes@, views@),
            active == (shadows_enabled && light_visible),
            light == cascade_filter(layers),
            entries@.len() == v,
            forall|w: int|
                0 <= w < v ==> cascade_entry_for(
                    #[trigger] entries@[w],
                    active,
                    meshes@,
                    views@[w],
                    cascade_filter(layers),
                ),
            deferred@ == deferred_marks(active, meshes@, views@, cascade_filter(layers), v as int),
        decreases views@.len() - v,
    {
        let view = &views[v];
        assert(view.tests@.len() == meshes@.len() && tests_fit(
            view.tests@,
            view.cascades as int,
        ));
        if active {
            let found: LightBuffers = classify_light(
                meshes,
                &view.tests,
                &light,
                view.cascades,
                MESHES_PER_SHARE,
            );
            let LightBuffers { per_frustum: mut cascades, marked } = found;
            shrink_all(&mut cascades);
            entries.push(ViewCascadeEntities { view: view.view, cascades });
            let joined = crate::classify::concat_entities(&deferred, &marked);
            deferred = joined;
        } else {
            let cascades = empty_lists(view.cascades);
            entries.push(ViewCascadeEntities { view: view.view, cascades });
        }
        v = v + 1;
    }
    *visible = entries;
    deferred
}

/// The lights to check this frame: each light named in some view's list of visible lights,
/// once, in order of first mention.
pub fn lights_to_check(visible_lights: &Vec<Vec<u64>>) -> (r: Vec<u64>)
    ensures
        r@.no_duplicates(),
        forall|e: u64|
            r@.contains(e) <==> exists|i: int|
                0 <= i < visible_lights@.len() && (#[trigger] visible_lights@[i])@.contains(e),
{
    let mut checked: HashSet<u64> = HashSet::new();
    let mut r: Vec<u64> = Vec::new();
    let mut i: usize = 0;
    while i < visible_lights.len()
        invariant
            i <= visible_lights@.len(),
            r@.no_duplicates(),
            checked@ == r@.to_set(),
            forall|e: u64|
                r@.contains(e) <==> exists|k: int|
                    0 <= k < i && (#[trigger] visible_lights@[k])@.contains(e),
        decreases visible_lights@.len() - i,
    {
        let list = &visible_lights[i];
        let mut j: usize = 0;
        while j < list.len()
            invariant
                i < visible_lights@.len(),
                list == visible_lights@[i as int],
                j <= list@.len(),
                r@.no_duplicates(),
                checked@ == r@.to_set(),
                forall|e: u64|
                    r@.contains(e) <==> (exists|k: int|
                        0 <= k < i && (#[trigger] visible_lights@[k])@.contains(e))
                        || list@.subrange(0, j as int).contains(e),
            decreases list@.len() - j,
        {
            let e = list[j];
            proof {
                let before = list@.subrange(0, j as int);
                assert(list@.subrange(0, j as int + 1) == before.push(e));
                assert forall|x: u64| #[trigger] before.push(e).contains(x) <==> before.contains(x)
                    || x == e by {
                    vstd::seq_lib::lemma_seq_contains_after_push(before, e, x);
                }
            }
            if checked.insert(e) {
                proof {
                    assert forall|x: u64| #[trigger] r@.push(e).contains(x) <==> r@.contains(x)
                        || x == e by {
                        vstd::seq_lib::lemma_seq_contains_after_push(r@, e, x);
                    }
                }
                r.push(e);
                proof {
                    assert(checked@ =~= r@.to_set());
                }
            }
            j = j + 1;
        }
        proof {
            assert(list@.subrange(0, list@.len() as int) == list@);
            assert forall|e: u64|
                r@.contains(e) <==> exists|k: int|
                    0 <= k < i + 1 && (#[trigger] visible_lights@[k])@.contains(e) by {
                if r@.contains(e) && !(exists|k: int|
                    0 <= k < i && (#[trigger] visible_lights@[k])@.contains(e)) {
                    assert(visible_lights@[i as int]@.contains(e));
                }
            }
        }
        i = i + 1;
    }
    r
}

/// One frame of a point or spot light with `n` frusta, from the flags and the set of earlier
/// seen entities before it to the lists, flags and set after it.
pub open spec fn light_frame(
    shadows_enabled: bool,
    light: LightFilter,
    meshes: Seq<MeshEntity>,
    tests: Seq<MeshTests>,
    n: int,
    view_visibility_before: Set<u64>,
    previous_before: Set<u64>,
    lists: Seq<Seq<u64>>,
    view_visibility_after: Set<u64>,
    previous_after: Set<u64>,
) -> bool {
    let marks = light_marks(shadows_enabled, meshes, tests, light, n).to_set();
    &&& lists.len() == n
    &&& forall|f: int|
        0 <= f < n ==> #[trigger] lists[f] == light_sees(shadows_enabled, meshes, tests, light, f)
    &&& view_visibility_after == view_visibility_before.union(marks)
    &&& previous_after == previous_before.difference(marks)
}

/// A light whose shadows are disabled sees nothing and marks nothing, through any of its
/// frusta, whatever the meshes and their geometry.
pub proof fn lemma_disabled_light_sees_nothing(
    light: LightFilter,
    meshes: Seq<MeshEntity>,
    tests: Seq<MeshTests>,
    views: Seq<ViewCascadeTests>,
    n: int,
)
    ensures
        forall|f: int| 0 <= f < n ==> #[trigger] light_sees(false, meshes, tests, light, f).len()
            == 0,
        light_marks(false, meshes, tests, light, n).len() == 0,
        deferred_marks(false, meshes, views, light, views.len() as int).len() == 0,
{
}

/// Running a point or spot light's frame twice with the same inputs gives, after the second
/// run, the same lists, flags and set of earlier seen entities as after the first.
pub proof fn lemma_light_frame_idempotent(
    shadows_enabled: bool,
    light: LightFilter,
    meshes: Seq<MeshEntity>,
    tests: Seq<MeshTests>,
    n: int,
    view_visibility0: Set<u64>,
    previous0: Set<u64>,
    lists1: Seq<Seq<u64>>,
    view_visibility1: Set<u64>,
    previous1: Set<u64>,
    lists2: Seq<Seq<u64>>,
    view_visibility2: Set<u64>,
    previous2: Set<u64>,
)
    requires
        light_frame(
            shadows_enabled,
            light,
            meshes,
            tests,
            n,
            view_visibility0,
            previous0,
            lists1,
            view_visibility1,
            previous1,
        ),
        light_frame(
            shadows_enabled,
            light,
            meshes,
            tests,
            n,
            view_visibility1,
            previous1,
            lists2,
            view_visibility2,
            previous2,
        ),
    ensures
        lists2 == lists1,
        view_visibility2 == view_visibility1,
        previous2 == previous1,
{
    let marks = light_marks(shadows_enabled, meshes, tests, light, n).to_set();
    lemma_commit_idempotent(view_visibility0, previous0, marks);
    assert(lists2 =~= lists1);
}

/// Running a directional light's frame twice with the same inputs gives the same per-view
/// lists and the same entities to flag both times, whatever the lists held before.
pub proof fn lemma_dir_frame_idempotent(
    active: bool,
    light: LightFilter,
    meshes: Seq<MeshEntity>,
    views: Seq<ViewCascadeTests>,
    entries1: Seq<ViewCascadeEntities>,
    entries2: Seq<ViewCascadeEntities>,
)
    requires
        entries1.len() == views.len(),
        entries2.len() == views.len(),
        forall|v: int|
            0 <= v < views.len() ==> cascade_entry_for(
                #[trigger] entries1[v],
                active,
                meshes,
                views[v],
                light,
            ),
        forall|v: int|
            0 <= v < views.len() ==> cascade_entry_for(
                #[trigger] entries2[v],
                active,
                meshes,
                views[v],
                light,
            ),
    ensures
        forall|v: int|
            0 <= v < views.len() ==> (#[trigger] entries2[v]).view == entries1[v].view
                && entries2[v].cascades@.len() == entries1[v].cascades@.len() && forall|c: int|
                0 <= c < entries1[v].cascades@.len() ==> #[trigger] entries2[v].cascades@[c]@
                    == entries1[v].cascades@[c]@,
{
    assert forall|v: int| 0 <= v < views.len() implies (#[trigger] entries2[v]).view
        == entries1[v].view && entries2[v].cascades@.len() == entries1[v].cascades@.len()
        && forall|c: int|
        0 <= c < entries1[v].cascades@.len() ==> #[trigger] entries2[v].cascades@[c]@
            == entries1[v].cascades@[c]@ by {
        assert(cascade_entry_for(entries1[v], active, meshes, views[v], light));
        assert(cascade_entry_for(entries2[v], active, meshes, views[v], light));
    }
}

} // verus!
