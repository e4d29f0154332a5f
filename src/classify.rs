use vstd::prelude::*;

use crate::layers::{
    has_layer, layers_match, lemma_intersect_iff_shared_layer, words_intersect, words_or_default,
    RenderLayers,
};

verus! {

/// What the classifier reads of one mesh entity, independently of any light.
pub struct MeshEntity {
    /// The entity's identifier.
    pub entity: u64,
    /// False when the entity is marked as not casting shadows.
    pub casts_shadows: bool,
    /// True when the entity is itself a directional light.
    pub is_directional_light: bool,
    /// The entity's inherited visibility.
    pub inherited_visible: bool,
    /// The entity's render layers, if it has any.
    pub layers: Option<RenderLayers>,
    /// True when the entity declares a visibility distance range.
    pub has_visibility_range: bool,
    /// True when frustum culling is disabled for the entity.
    pub no_frustum_culling: bool,
}

/// Geometric test results of one mesh against one light (or one view of a directional light).
pub struct Culling {
    /// Whether the mesh's oriented box meets the light's range sphere.
    pub in_light_sphere: bool,
    /// Whether the mesh's oriented box meets each of the light's frusta, by frustum index.
    pub in_frusta: Vec<bool>,
}

/// What is known of one mesh for one light: the visibility-range answer and the culling tests.
pub struct MeshTests {
    /// Whether the mesh is within its visibility range of the relevant view(s);
    /// `None` when no visibility ranges are tracked at all.
    pub in_range: Option<bool>,
    /// The culling test results; `None` when the mesh lacks a bounding box or a transform.
    pub culling: Option<Culling>,
}

/// How a light selects shadow casters.
pub struct LightFilter {
    /// The light's render layers, if it has any.
    pub layers: Option<RenderLayers>,
    /// Whether the range-sphere test must pass before the frustum tests (point and spot lights).
    pub sphere_pretest: bool,
}

/// Whether a mesh is a shadow caster that the light may consider at all.
pub open spec fn passes_filters(m: MeshEntity, t: MeshTests, light: LightFilter) -> bool {
    &&& m.casts_shadows
    &&& !m.is_directional_light
    &&& m.inherited_visible
    &&& words_intersect(words_or_default(light.layers), words_or_default(m.layers))
    &&& !(m.has_visibility_range && t.in_range == Some(false))
}

/// Whether a mesh's geometry lets it be seen by frustum `f` of the light.
pub open spec fn hits_frustum(m: MeshEntity, t: MeshTests, light: LightFilter, f: int) -> bool {
    match t.culling {
        None => true,
        Some(c) => m.no_frustum_culling || ((!light.sphere_pretest || c.in_light_sphere)
            && c.in_frusta@[f]),
    }
}

/// Whether frustum `f` of the light sees the mesh as a shadow caster.
pub open spec fn visible_to(m: MeshEntity, t: MeshTests, light: LightFilter, f: int) -> bool {
    passes_filters(m, t, light) && hits_frustum(m, t, light, f)
}

/// Whether the light marks the mesh as seen: it passes the filters and some of the `n` frusta
/// see it.
pub open spec fn marked_by(m: MeshEntity, t: MeshTests, light: LightFilter, n: int) -> bool {
    &&& passes_filters(m, t, light)
    &&& exists|f: int| 0 <= f < n && #[trigger] hits_frustum(m, t, light, f)
}

/// Every culling record has one result per frustum.
pub open spec fn tests_fit(tests: Seq<MeshTests>, n: int) -> bool {
    forall|i: int| #![trigger tests[i]]
        0 <= i < tests.len() && tests[i].culling is Some ==> tests[i].culling->0.in_frusta@.len()
            == n
}

/// No two meshes carry the same entity identifier.
pub open spec fn ids_unique(meshes: Seq<MeshEntity>) -> bool {
    forall|i: int, j: int|
        0 <= i < meshes.len() && 0 <= j < meshes.len() && i != j ==> #[trigger] meshes[i].entity
            != #[trigger] meshes[j].entity
}

/// The entities of meshes `lo..hi` that frustum `f` sees, in mesh order.
pub open spec fn visible_entities(
    meshes: Seq<MeshEntity>,
    tests: Seq<MeshTests>,
    light: LightFilter,
    f: int,
    lo: int,
    hi: int,
) -> Seq<u64>
    decreases hi - lo,
{
    if hi <= lo {
        seq![]
    } else {
        let prev = visible_entities(meshes, tests, light, f, lo, hi - 1);
        if visible_to(meshes[hi - 1], tests[hi - 1], light, f) {
            prev.push(meshes[hi - 1].entity)
        } else {
            prev
        }
    }
}

/// The entities of meshes `lo..hi` that the light marks as seen with `n` frusta, in mesh order.
pub open spec fn marked_entities(
    meshes: Seq<MeshEntity>,
    tests: Seq<MeshTests>,
    light: LightFilter,
    n: int,
    lo: int,
    hi: int,
) -> Seq<u64>
    decreases hi - lo,
{
    if hi <= lo {
        seq![]
    } else {
        let prev = marked_entities(meshes, tests, light, n, lo, hi - 1);
        if marked_by(meshes[hi - 1], tests[hi - 1], light, n) {
            prev.push(meshes[hi - 1].entity)
        } else {
            prev
        }
    }
}

/// Whether the light may consider the mesh, as `passes_filters` states.
pub fn passes_shadow_filters(m: &MeshEntity, t: &MeshTests, light: &LightFilter) -> (r: bool)
    ensures
        r == passes_filters(*m, *t, *light),
{
    if !m.casts_shadows || m.is_directional_light || !m.inherited_visible {
        return false;
    }
    if !layers_match(&light.layers, &m.layers) {
        return false;
    }
    if m.has_visibility_range {
        match t.in_range {
            Some(false) => {
                return false;
            },
            _ => {},
        }
    }
    true
}

/// Whether frustum `f` of the light sees the mesh's geometry, as `hits_frustum` states.
pub fn hits_light_frustum(m: &MeshEntity, t: &MeshTests, light: &LightFilter, f: usize) -> (r: bool)
    requires
        t.culling is Some ==> f < t.culling->0.in_frusta@.len(),
    ensures
        r == hits_frustum(*m, *t, *light, f as int),
{
    match &t.culling {
        None => true,
        Some(c) => m.no_frustum_culling || ((!light.sphere_pretest || c.in_light_sphere)
            && c.in_frusta[f]),
    }
}

/// Per-frustum lists of seen entities, and the list of entities marked as seen.
pub struct LightBuffers {
    pub per_frustum: Vec<Vec<u64>>,
    pub marked: Vec<u64>,
}

/// The buffers hold exactly what the light sees among meshes `lo..hi` with `n` frusta.
pub open spec fn buffers_for(
    b: LightBuffers,
    meshes: Seq<MeshEntity>,
    tests: Seq<MeshTests>,
    light: LightFilter,
    n: int,
    lo: int,
    hi: int,
) -> bool {
    &&& b.per_frustum@.len() == n
    &&& forall|f: int|
        0 <= f < n ==> #[trigger] b.per_frustum@[f]@ == visible_entities(
            meshes,
            tests,
            light,
            f,
            lo,
            hi,
        )
    &&& b.marked@ == marked_entities(meshes, tests, light, n, lo, hi)
}

/// Whether the light marks the mesh as seen with `n` frusta, as `marked_by` states.
pub fn is_marked(m: &MeshEntity, t: &MeshTests, light: &LightFilter, n: usize) -> (r: bool)
    requires
        t.culling is Some ==> t.culling->0.in_frusta@.len() == n,
    ensures
        r == marked_by(*m, *t, *light, n as int),
{
    if !passes_shadow_filters(m, t, light) {
        return false;
    }
    let mut f: usize = 0;
    while f < n
        invariant
            f <= n,
            passes_filters(*m, *t, *light),
            t.culling is Some ==> t.culling->0.in_frusta@.len() == n,
            forall|g: int| 0 <= g < f ==> !#[trigger] hits_frustum(*m, *t, *light, g),
        decreases n - f,
    {
        if hits_light_frustum(m, t, light, f) {
            assert(hits_frustum(*m, *t, *light, f as int));
            return true;
        }
        f = f + 1;
    }
    false
}

/// The entities of meshes `lo..hi` that frustum `f` of the light sees, in mesh order.
pub fn frustum_entities(
    meshes: &Vec<MeshEntity>,
    tests: &Vec<MeshTests>,
    light: &LightFilter,
    f: usize,
    n: usize,
    lo: usize,
    hi: usize,
) -> (r: Vec<u64>)
    requires
        meshes@.len() == tests@.len(),
        lo <= hi <= meshes@.len(),
        f < n,
        tests_fit(tests@, n as int),
    ensures
        r@ == visible_entities(meshes@, tests@, *light, f as int, lo as int, hi as int),
{
    let mut r: Vec<u64> = Vec::new();
    let mut i: usize = lo;
    while i < hi
        invariant
            lo <= i <= hi <= meshes@.len(),
            meshes@.len() == tests@.len(),
            f < n,
            tests_fit(tests@, n as int),
            r@ == visible_entities(meshes@, tests@, *light, f as int, lo as int, i as int),
        decreases hi - i,
    {
        let m = &meshes[i];
        let t = &tests[i];
        if passes_shadow_filters(m, t, light) && hits_light_frustum(m, t, light, f) {
            r.push(m.entity);
        }
        i = i + 1;
    }
    r
}

/// The entities of meshes `lo..hi` that the light marks as seen with `n` frusta, in mesh order.
pub fn marked_entity_list(
    meshes: &Vec<MeshEntity>,
    tests: &Vec<MeshTests>,
    light: &LightFilter,
    n: usize,
    lo: usize,
    hi: usize,
) -> (r: Vec<u64>)
    requires
        meshes@.len() == tests@.len(),
        lo <= hi <= meshes@.len(),
        tests_fit(tests@, n as int),
    ensures
        r@ == marked_entities(meshes@, tests@, *light, n as int, lo as int, hi as int),
{
    let mut r: Vec<u64> = Vec::new();
    let mut i: usize = lo;
    while i < hi
        invariant
            lo <= i <= hi <= meshes@.len(),
            meshes@.len() == tests@.len(),
            tests_fit(tests@, n as int),
            r@ == marked_entities(meshes@, tests@, *light, n as int, lo as int, i as int),
        decreases hi - i,
    {
        if is_marked(&meshes[i], &tests[i], light, n) {
            r.push(meshes[i].entity);
        }
        i = i + 1;
    }
    r
}

/// Classifies meshes `lo..hi` against the `n` frusta of a light: one worker's share.
pub fn classify_range(
    meshes: &Vec<MeshEntity>,
    tests: &Vec<MeshTests>,
    light: &LightFilter,
    n: usize,
    lo: usize,
    hi: usize,
) -> (r: LightBuffers)
    requires
        meshes@.len() == tests@.len(),
        lo <= hi <= meshes@.len(),
        tests_fit(tests@, n as int),
    ensures
        buffers_for(r, meshes@, tests@, *light, n as int, lo as int, hi as int),
{
    let mut per_frustum: Vec<Vec<u64>> = Vec::new();
    let mut f: usize = 0;
    while f < n
        invariant
            f <= n,
            meshes@.len() == tests@.len(),
            lo <= hi <= meshes@.len(),
            tests_fit(tests@, n as int),
            per_frustum@.len() == f,
            forall|g: int|
                0 <= g < f ==> #[trigger] per_frustum@[g]@ == visible_entities(
                    meshes@,
                    tests@,
                    *light,
                    g,
                    lo as int,
                    hi as int,
                ),
        decreases n - f,
    {
        let list = frustum_entities(meshes, tests, light, f, n, lo, hi);
        per_frustum.push(list);
        f = f + 1;
    }
    let marked = marked_entity_list(meshes, tests, light, n, lo, hi);
    LightBuffers { per_frustum, marked }
}

/// `a` followed by `b`.
pub fn concat_entities(a: &Vec<u64>, b: &Vec<u64>) -> (r: Vec<u64>)
    ensures
        r@ == a@ + b@,
{
    let mut r: Vec<u64> = Vec::new();
    let mut i: usize = 0;
    while i < a.len()
        invariant
            i <= a@.len(),
            r@ == a@.subrange(0, i as int),
        decreases a@.len() - i,
    {
        r.push(a[i]);
        i = i + 1;
        assert(r@ == a@.subrange(0, i as int));
    }
    let mut j: usize = 0;
    while j < b.len()
        invariant
            j <= b@.len(),
            r@ == a@ + b@.subrange(0, j as int),
        decreases b@.len() - j,
    {
        r.push(b[j]);
        j = j + 1;
        assert(r@ == a@ + b@.subrange(0, j as int));
    }
    assert(b@.subrange(0, b@.len() as int) == b@);
    r
}

/// Gathers a worker's buffers after those gathered so far: frustum by frustum, and the marks.
pub fn merge_buffers(into: &LightBuffers, from: &LightBuffers) -> (r: LightBuffers)
    requires
        into.per_frustum@.len() == from.per_frustum@.len(),
    ensures
        r.per_frustum@.len() == into.per_frustum@.len(),
        forall|f: int|
            0 <= f < into.per_frustum@.len() ==> #[trigger] r.per_frustum@[f]@
                == into.per_frustum@[f]@ + from.per_frustum@[f]@,
        r.marked@ == into.marked@ + from.marked@,
{
    let n = into.per_frustum.len();
    let mut per_frustum: Vec<Vec<u64>> = Vec::new();
    let mut f: usize = 0;
    while f < n
        invariant
            f <= n,
            n == into.per_frustum@.len(),
            into.per_frustum@.len() == from.per_frustum@.len(),
            per_frustum@.len() == f,
            forall|g: int|
                0 <= g < f ==> #[trigger] per_frustum@[g]@ == into.per_frustum@[g]@
                    + from.per_frustum@[g]@,
        decreases n - f,
    {
        per_frustum.push(concat_entities(&into.per_frustum[f], &from.per_frustum[f]));
        f = f + 1;
    }
    LightBuffers { per_frustum, marked: concat_entities(&into.marked, &from.marked) }
}

/// Seeing meshes `lo..hi` is seeing `lo..mid`, then `mid..hi`.
pub proof fn lemma_visible_split(
    meshes: Seq<MeshEntity>,
    tests: Seq<MeshTests>,
    light: LightFilter,
    f: int,
    lo: int,
    mid: int,
    hi: int,
)
    requires
        lo <= mid <= hi,
    ensures
        visible_entities(meshes, tests, light, f, lo, hi) == visible_entities(
            meshes,
            tests,
            light,
            f,
            lo,
            mid,
        ) + visible_entities(meshes, tests, light, f, mid, hi),
    decreases hi - mid,
{
    if hi > mid {
        lemma_visible_split(meshes, tests, light, f, lo, mid, hi - 1);
        let a = visible_entities(meshes, tests, light, f, lo, mid);
        let b = visible_entities(meshes, tests, light, f, mid, hi - 1);
        assert((a + b).push(meshes[hi - 1].entity) == a + b.push(meshes[hi - 1].entity));
    } else {
        assert(visible_entities(meshes, tests, light, f, mid, hi) == Seq::<u64>::empty());
        assert(visible_entities(meshes, tests, light, f, lo, mid) + Seq::<u64>::empty()
            == visible_entities(meshes, tests, light, f, lo, mid));
    }
}

/// Marking meshes `lo..hi` is marking `lo..mid`, then `mid..hi`.
pub proof fn lemma_marked_split(
    meshes: Seq<MeshEntity>,
    tests: Seq<MeshTests>,
    light: LightFilter,
    n: int,
    lo: int,
    mid: int,
    hi: int,
)
    requires
        lo <= mid <= hi,
    ensures
        marked_entities(meshes, tests, light, n, lo, hi) == marked_entities(
            meshes,
            tests,
            light,
            n,
            lo,
            mid,
        ) + marked_entities(meshes, tests, light, n, mid, hi),
    decreases hi - mid,
{
    if hi > mid {
        lemma_marked_split(meshes, tests, light, n, lo, mid, hi - 1);
        let a = marked_entities(meshes, tests, light, n, lo, mid);
        let b = marked_entities(meshes, tests, light, n, mid, hi - 1);
        assert((a + b).push(meshes[hi - 1].entity) == a + b.push(meshes[hi - 1].entity));
    } else {
        assert(marked_entities(meshes, tests, light, n, mid, hi) == Seq::<u64>::empty());
        assert(marked_entities(meshes, tests, light, n, lo, mid) + Seq::<u64>::empty()
            == marked_entities(meshes, tests, light, n, lo, mid));
    }
}

/// Splitting the meshes into consecutive shares, classifying each share on its own and
/// gathering the buffers in order gives what classifying all meshes at once gives.
pub proof fn lemma_gather_matches_whole(
    meshes: Seq<MeshEntity>,
    tests: Seq<MeshTests>,
    light: LightFilter,
    n: int,
    a: LightBuffers,
    b: LightBuffers,
    merged: LightBuffers,
    lo: int,
    mid: int,
    hi: int,
)
    requires
        lo <= mid <= hi,
        buffers_for(a, meshes, tests, light, n, lo, mid),
        buffers_for(b, meshes, tests, light, n, mid, hi),
        merged.per_frustum@.len() == n,
        forall|f: int|
            0 <= f < n ==> #[trigger] merged.per_frustum@[f]@ == a.per_frustum@[f]@
                + b.per_frustum@[f]@,
        merged.marked@ == a.marked@ + b.marked@,
    ensures
        buffers_for(merged, meshes, tests, light, n, lo, hi),
{
    assert forall|f: int| 0 <= f < n implies #[trigger] merged.per_frustum@[f]@
        == visible_entities(meshes, tests, light, f, lo, hi) by {
        lemma_visible_split(meshes, tests, light, f, lo, mid, hi);
    }
    lemma_marked_split(meshes, tests, light, n, lo, mid, hi);
}

/// Classifies all meshes against the `n` frusta of a light, in shares of `share` meshes
/// whose buffers are gathered in order.
pub fn classify_light(
    meshes: &Vec<MeshEntity>,
    tests: &Vec<MeshTests>,
    light: &LightFilter,
    n: usize,
    share: usize,
) -> (r: LightBuffers)
    requires
        meshes@.len() == tests@.len(),
        tests_fit(tests@, n as int),
        share > 0,
    ensures
        buffers_for(r, meshes@, tests@, *light, n as int, 0, meshes@.len() as int),
{
    let len = meshes.len();
    let mut acc = classify_range(meshes, tests, light, n, 0, 0);
    let mut lo: usize = 0;
    while lo < len
        invariant
            lo <= len == meshes@.len(),
            meshes@.len() == tests@.len(),
            tests_fit(tests@, n as int),
            share > 0,
            buffers_for(acc, meshes@, tests@, *light, n as int, 0, lo as int),
        decreases len - lo,
    {
        let hi: usize = if len - lo < share {
            len
        } else {
            lo + share
        };
        let part = classify_range(meshes, tests, light, n, lo, hi);
        let merged = merge_buffers(&acc, &part);
        proof {
            lemma_gather_matches_whole(
                meshes@,
                tests@,
                *light,
                n as int,
                acc,
                part,
                merged,
                0,
                lo as int,
                hi as int,
            );
        }
        acc = merged;
        lo = hi;
    }
    acc
}

/// An entity is among those that frustum `f` sees in `lo..hi` exactly when some mesh there
/// carries it and is seen.
pub proof fn lemma_visible_members(
    meshes: Seq<MeshEntity>,
    tests: Seq<MeshTests>,
    light: LightFilter,
    f: int,
    lo: int,
    hi: int,
    e: u64,
)
    ensures
        visible_entities(meshes, tests, light, f, lo, hi).contains(e) <==> exists|j: int|
            lo <= j < hi && #[trigger] meshes[j].entity == e && visible_to(
                meshes[j],
                tests[j],
                light,
                f,
            ),
    decreases hi - lo,
{
    if hi > lo {
        lemma_visible_members(meshes, tests, light, f, lo, hi - 1, e);
        let prev = visible_entities(meshes, tests, light, f, lo, hi - 1);
        if visible_to(meshes[hi - 1], tests[hi - 1], light, f) {
            vstd::seq_lib::lemma_seq_contains_after_push(prev, meshes[hi - 1].entity, e);
        }
    }
}

/// An entity is among those that the light marks in `lo..hi` exactly when some mesh there
/// carries it and is marked.
pub proof fn lemma_marked_members(
    meshes: Seq<MeshEntity>,
    tests: Seq<MeshTests>,
    light: LightFilter,
    n: int,
    lo: int,
    hi: int,
    e: u64,
)
    ensures
        marked_entities(meshes, tests, light, n, lo, hi).contains(e) <==> exists|j: int|
            lo <= j < hi && #[trigger] meshes[j].entity == e && marked_by(
                meshes[j],
                tests[j],
                light,
                n,
            ),
    decreases hi - lo,
{
    if hi > lo {
        lemma_marked_members(meshes, tests, light, n, lo, hi - 1, e);
        let prev = marked_entities(meshes, tests, light, n, lo, hi - 1);
        if marked_by(meshes[hi - 1], tests[hi - 1], light, n) {
            vstd::seq_lib::lemma_seq_contains_after_push(prev, meshes[hi - 1].entity, e);
        }
    }
}

/// A mesh marked as not casting shadows is seen by no frustum of any light and marked by
/// none, whatever its geometry.
pub proof fn lemma_non_caster_never_visible(
    meshes: Seq<MeshEntity>,
    tests: Seq<MeshTests>,
    light: LightFilter,
    n: int,
    i: int,
)
    requires
        ids_unique(meshes),
        0 <= i < meshes.len(),
        !meshes[i].casts_shadows,
    ensures
        forall|f: int|
            0 <= f < n ==> !(#[trigger] visible_entities(
                meshes,
                tests,
                light,
                f,
                0,
                meshes.len() as int,
            )).contains(meshes[i].entity),
        !marked_entities(meshes, tests, light, n, 0, meshes.len() as int).contains(
            meshes[i].entity,
        ),
{
    assert forall|f: int| 0 <= f < n implies !(#[trigger] visible_entities(
        meshes,
        tests,
        light,
        f,
        0,
        meshes.len() as int,
    )).contains(meshes[i].entity) by {
        lemma_visible_members(meshes, tests, light, f, 0, meshes.len() as int, meshes[i].entity);
    }
    lemma_marked_members(meshes, tests, light, n, 0, meshes.len() as int, meshes[i].entity);
}

/// A mesh that shares no render layer with the light is seen by no frustum of the light and
/// marked by none, whatever its geometry.
pub proof fn lemma_foreign_layers_never_visible(
    meshes: Seq<MeshEntity>,
    tests: Seq<MeshTests>,
    light: LightFilter,
    n: int,
    i: int,
)
    requires
        ids_unique(meshes),
        0 <= i < meshes.len(),
        forall|n: nat|
            !(#[trigger] has_layer(words_or_default(light.layers), n) && has_layer(
                words_or_default(meshes[i].layers),
                n,
            )),
    ensures
        forall|f: int|
            0 <= f < n ==> !(#[trigger] visible_entities(
                meshes,
                tests,
                light,
                f,
                0,
                meshes.len() as int,
            )).contains(meshes[i].entity),
        !marked_entities(meshes, tests, light, n, 0, meshes.len() as int).contains(
            meshes[i].entity,
        ),
{
    lemma_intersect_iff_shared_layer(
        words_or_default(light.layers),
        words_or_default(meshes[i].layers),
    );
    assert forall|f: int| 0 <= f < n implies !(#[trigger] visible_entities(
        meshes,
        tests,
        light,
        f,
        0,
        meshes.len() as int,
    )).contains(meshes[i].entity) by {
        lemma_visible_members(meshes, tests, light, f, 0, meshes.len() as int, meshes[i].entity);
    }
    lemma_marked_members(meshes, tests, light, n, 0, meshes.len() as int, meshes[i].entity);
}

/// A mesh that the light may consider but that has no culling data is seen by every frustum
/// of the light, and marked by it when the light has at least one frustum.
pub proof fn lemma_unculled_always_visible(
    meshes: Seq<MeshEntity>,
    tests: Seq<MeshTests>,
    light: LightFilter,
    n: int,
    i: int,
)
    requires
        meshes.len() == tests.len(),
        0 <= i < meshes.len(),
        tests[i].culling is None,
        passes_filters(meshes[i], tests[i], light),
    ensures
        forall|f: int|
            0 <= f < n ==> (#[trigger] visible_entities(
                meshes,
                tests,
                light,
                f,
                0,
                meshes.len() as int,
            )).contains(meshes[i].entity),
        n >= 1 ==> marked_entities(meshes, tests, light, n, 0, meshes.len() as int).contains(
            meshes[i].entity,
        ),
{
    assert forall|f: int| 0 <= f < n implies (#[trigger] visible_entities(
        meshes,
        tests,
        light,
        f,
        0,
        meshes.len() as int,
    )).contains(meshes[i].entity) by {
        lemma_visible_members(meshes, tests, light, f, 0, meshes.len() as int, meshes[i].entity);
        assert(visible_to(meshes[i], tests[i], light, f));
    }
    lemma_marked_members(meshes, tests, light, n, 0, meshes.len() as int, meshes[i].entity);
    if n >= 1 {
        assert(hits_frustum(meshes[i], tests[i], light, 0));
        assert(marked_by(meshes[i], tests[i], light, n));
    }
}

} // verus!
