use vstd::prelude::*;

verus! {

/// What to do with a light's culling frusta this frame.
#[derive(Clone, Copy, Debug, PartialEq, Eq, Structural)]
pub enum FrustaUpdate {
    /// Leave them as they are.
    Keep,
    /// Compute them anew from the light's transform and parameters.
    Rebuild,
    /// Empty them: the light casts no shadows.
    Clear,
}

/// A directional light's cascade frusta are emptied when its shadows are disabled, left alone
/// when the light is not visible, and rebuilt otherwise.
pub fn directional_frusta_update(shadows_enabled: bool, light_visible: bool) -> (r: FrustaUpdate)
    ensures
        !shadows_enabled ==> r == FrustaUpdate::Clear,
        shadows_enabled && !light_visible ==> r == FrustaUpdate::Keep,
        shadows_enabled && light_visible ==> r == FrustaUpdate::Rebuild,
{
    if !shadows_enabled {
        FrustaUpdate::Clear
    } else if !light_visible {
        FrustaUpdate::Keep
    } else {
        FrustaUpdate::Rebuild
    }
}

/// A point light's cubemap frusta are emptied when its shadows are disabled. Otherwise they are
/// rebuilt when the light (or its transform) or the set of visible lights changed, provided the
/// light is in that set; else they are left alone.
pub fn point_frusta_update(
    shadows_enabled: bool,
    in_visible_lights: bool,
    visible_lights_changed: bool,
    light_changed: bool,
) -> (r: FrustaUpdate)
    ensures
        !shadows_enabled ==> r == FrustaUpdate::Clear,
        shadows_enabled ==> (r == FrustaUpdate::Rebuild <==> (visible_lights_changed
            || light_changed) && in_visible_lights),
        shadows_enabled ==> r != FrustaUpdate::Clear,
{
    if !shadows_enabled {
        FrustaUpdate::Clear
    } else if !visible_lights_changed && !light_changed {
        FrustaUpdate::Keep
    } else if !in_visible_lights {
        FrustaUpdate::Keep
    } else {
        FrustaUpdate::Rebuild
    }
}

/// A spot light's frustum is emptied when its shadows are disabled. Otherwise it is rebuilt when
/// the light or its transform changed and the light is among the visible lights; else it is
/// left alone.
pub fn spot_frusta_update(
    shadows_enabled: bool,
    in_visible_lights: bool,
    light_changed: bool,
) -> (r: FrustaUpdate)
    ensures
        !shadows_enabled ==> r == FrustaUpdate::Clear,
        shadows_enabled ==> (r == FrustaUpdate::Rebuild <==> light_changed && in_visible_lights),
        shadows_enabled ==> r != FrustaUpdate::Clear,
{
    if !shadows_enabled {
        FrustaUpdate::Clear
    } else if !light_changed || !in_visible_lights {
        FrustaUpdate::Keep
    } else {
        FrustaUpdate::Rebuild
    }
}

/// A camera as the cascade builder sees it.
#[derive(Clone, Copy, Debug, PartialEq, Eq, Structural)]
pub struct CameraView {
    pub entity: u64,
    pub is_active: bool,
}

/// The entities of the active cameras among the first `k`, in order.
pub open spec fn active_views(cameras: Seq<CameraView>, k: int) -> Seq<u64>
    decreases k,
{
    if k <= 0 {
        seq![]
    } else if cameras[k - 1].is_active {
        active_views(cameras, k - 1).push(cameras[k - 1].entity)
    } else {
        active_views(cameras, k - 1)
    }
}

/// The views a directional light gets cascades for this frame: the active cameras, in order,
/// or none when the light's shadows are disabled.
pub fn cascade_views(shadows_enabled: bool, cameras: &Vec<CameraView>) -> (r: Vec<u64>)
    ensures
        shadows_enabled ==> r@ == active_views(cameras@, cameras@.len() as int),
        !shadows_enabled ==> r@.len() == 0,
{
    let mut r: Vec<u64> = Vec::new();
    if !shadows_enabled {
        return r;
    }
    let mut i: usize = 0;
    while i < cameras.len()
        invariant
            i <= cameras@.len(),
            r@ == active_views(cameras@, i as int),
        decreases cameras@.len() - i,
    {
        if cameras[i].is_active {
            r.push(cameras[i].entity);
        }
        i = i + 1;
    }
    r
}

} // verus!
