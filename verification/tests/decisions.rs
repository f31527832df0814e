use tracer::lens::{surf_type, SurfaceType};
use tracer::optimize::{active_params, probe_direction, LensParam, OptVariables, ProbeMove};

#[test]
fn flat_surface_classifies_plane() {
    // A zero-radius surface has zero curvature; with negligible conic and
    // aspheric terms it is a plane.
    assert_eq!(surf_type(true, true, true, true), SurfaceType::Plane);
}

#[test]
fn curved_surface_without_aspherics_is_sphere() {
    assert_eq!(surf_type(false, true, true, true), SurfaceType::Sphere);
    assert_eq!(surf_type(true, false, true, true), SurfaceType::Sphere);
}

#[test]
fn aspheric_terms_classify_asphere() {
    assert_eq!(surf_type(true, true, false, true), SurfaceType::Asphere);
    assert_eq!(surf_type(false, true, true, false), SurfaceType::Asphere);
    assert_eq!(surf_type(false, false, false, false), SurfaceType::Asphere);
}

#[test]
fn no_flags_selects_nothing() {
    // With all six target flags off the optimizer touches no coefficient.
    let optv = OptVariables {
        iscc1on: 0,
        isad1on: 0,
        isae1on: 0,
        iscc2on: 0,
        isad2on: 0,
        isae2on: 0,
    };
    assert!(active_params(&optv).is_empty());
}

#[test]
fn all_flags_select_in_probe_order() {
    let optv = OptVariables {
        iscc1on: 1,
        isad1on: 1,
        isae1on: 1,
        iscc2on: 1,
        isad2on: 1,
        isae2on: 1,
    };
    assert_eq!(
        active_params(&optv),
        vec![
            LensParam::FrontConic,
            LensParam::FrontAd,
            LensParam::FrontAe,
            LensParam::BackConic,
            LensParam::BackAd,
            LensParam::BackAe,
        ]
    );
}

#[test]
fn only_flag_value_one_selects() {
    // The probe loop tests each flag against 1 exactly.
    let optv = OptVariables {
        iscc1on: 1,
        isad1on: 2,
        isae1on: -1,
        iscc2on: 0,
        isad2on: 1,
        isae2on: 0,
    };
    assert_eq!(
        active_params(&optv),
        vec![LensParam::FrontConic, LensParam::BackAd]
    );
}

#[test]
fn probe_prefers_negative_side() {
    assert_eq!(probe_direction(true, true), ProbeMove::Negative);
    assert_eq!(probe_direction(true, false), ProbeMove::Negative);
}

#[test]
fn probe_takes_positive_side_when_only_it_improves() {
    assert_eq!(probe_direction(false, true), ProbeMove::Positive);
}

#[test]
fn probe_stays_at_local_minimum() {
    assert_eq!(probe_direction(false, false), ProbeMove::Stay);
}
