use vstd::prelude::*;

verus! {

/// The width and height of each of the six faces of a point light's shadow cubemap.
pub struct PointLightShadowMap {
    pub size: usize,
}

impl Default for PointLightShadowMap {
    fn default() -> (r: PointLightShadowMap)
        ensures
            r.size == 1024,
    {
        PointLightShadowMap { size: 1024 }
    }
}

/// The width and height of each cascade of a directional light's shadow map.
pub struct DirectionalLightShadowMap {
    pub size: usize,
}

impl Default for DirectionalLightShadowMap {
    fn default() -> (r: DirectionalLightShadowMap)
        ensures
            r.size == 2048,
    {
        DirectionalLightShadowMap { size: 2048 }
    }
}

/// Marks a mesh that casts no shadows.
#[derive(Clone, Copy, Debug, Default)]
pub struct NotShadowCaster;

/// Marks a mesh that receives no shadows.
#[derive(Clone, Copy, Debug, Default)]
pub struct NotShadowReceiver;

/// Marks a mesh whose diffuse transmission lobe receives shadows.
#[derive(Clone, Copy, Debug, Default)]
pub struct TransmittedShadowReceiver;

/// How the edges of shadows are filtered.
#[derive(Clone, Copy, Debug, PartialEq, Eq, Structural)]
pub enum ShadowFilteringMethod {
    /// Hardware 2x2: fast, poor quality.
    Hardware2x2,
    /// A fixed Gaussian-like blur, good without temporal anti-aliasing.
    Gaussian,
    /// A randomized filter that varies over time, good with temporal anti-aliasing.
    Temporal,
}

impl Default for ShadowFilteringMethod {
    fn default() -> (r: ShadowFilteringMethod)
        ensures
            r == ShadowFilteringMethod::Gaussian,
    {
        ShadowFilteringMethod::Gaussian
    }
}

/// The visibility class shared by point, spot and directional lights.
pub struct LightVisibilityClass;

/// The ordered stages of light processing in a frame.
#[derive(Clone, Copy, Debug, PartialEq, Eq, Structural, Hash)]
pub enum SimulationLightSystems {
    AddClusters,
    AssignLightsToClusters,
    UpdateDirectionalLightCascades,
    UpdateLightFrusta,
    CheckLightVisibility,
}

} // verus!
