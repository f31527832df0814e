//! Surface classification.
//!
//! A lens surface is described by a radius of curvature, a conic constant and
//! two even-order aspheric coefficients, all floating-point quantities kept
//! by the application layer.  Its derived character — plane, sphere or
//! asphere — depends only on whether each coefficient's magnitude is below
//! its smallness threshold, so the classifier takes those four comparisons
//! as booleans and decides exactly.

use vstd::prelude::*;

verus! {

/// Geometric character of one lens surface, derived from its coefficients
/// and never stored.
#[derive(Clone, Copy, Debug, PartialEq, Eq, Structural)]
pub enum SurfaceType {
    Plane,
    Sphere,
    Asphere,
}

/// The classification rule: a surface with negligible curvature, conic and
/// aspheric terms is a plane; one with negligible aspheric terms alone is a
/// sphere; anything else is an asphere.
pub open spec fn classify_surface(
    r_flat: bool,
    k_flat: bool,
    ad_flat: bool,
    ae_flat: bool,
) -> SurfaceType {
    if r_flat && k_flat && ad_flat && ae_flat {
        SurfaceType::Plane
    } else if ad_flat && ae_flat {
        SurfaceType::Sphere
    } else {
        SurfaceType::Asphere
    }
}

/// Classify a surface from its four smallness tests: `r_flat` holds when the
/// magnitude of the radius is below its threshold (equivalently, when the
/// curvature is zero), and likewise for the conic constant and the two
/// aspheric coefficients.
pub fn surf_type(r_flat: bool, k_flat: bool, ad_flat: bool, ae_flat: bool) -> (t: SurfaceType)
    ensures
        t == classify_surface(r_flat, k_flat, ad_flat, ae_flat),
{
    if r_flat && k_flat && ad_flat && ae_flat {
        SurfaceType::Plane
    } else if ad_flat && ae_flat {
        SurfaceType::Sphere
    } else {
        SurfaceType::Asphere
    }
}

/// A surface whose radius is zero — hence whose curvature is exactly zero —
/// and whose conic and aspheric terms are below threshold classifies as a
/// plane.
pub proof fn lemma_flat_surface_is_plane()
    ensures
        classify_surface(true, true, true, true) == SurfaceType::Plane,
{
}

} // verus!
