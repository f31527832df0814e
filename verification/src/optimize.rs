//! Discrete decisions of the coordinate-descent optimizer.
//!
//! The optimizer repeatedly probes one lens coefficient at a time, evaluating
//! the ray error at the current value and one step to either side.  The error
//! values are floating point and are computed by the application layer; what
//! is exact is the choice of which coefficients take part in a run and which
//! way a probe moves given the two comparisons.  Both decisions live here
//! with full contracts.

use vstd::prelude::*;

verus! {

/// Which of the six aspheric coefficients take part in an optimization run.
/// A field equal to 1 switches its coefficient on; any other value leaves it
/// out, exactly as the probe loop tests the flags.
#[derive(Clone, Copy, Debug)]
pub struct OptVariables {
    pub iscc1on: i32,
    pub isad1on: i32,
    pub isae1on: i32,
    pub iscc2on: i32,
    pub isad2on: i32,
    pub isae2on: i32,
}

/// The six tunable lens coefficients: the conic constant and the 4th- and
/// 6th-order aspheric terms of the front and back surfaces.
#[derive(Clone, Copy, Debug, PartialEq, Eq, Structural)]
pub enum LensParam {
    FrontConic,
    FrontAd,
    FrontAe,
    BackConic,
    BackAd,
    BackAe,
}

/// The parameters a target set switches on, in the fixed probe order the
/// optimizer walks them: front conic, front ad, front ae, then the same for
/// the back surface.
pub open spec fn selected_params(optv: OptVariables) -> Seq<LensParam> {
    (if optv.iscc1on == 1 {
        seq![LensParam::FrontConic]
    } else {
        Seq::empty()
    }) + (if optv.isad1on == 1 {
        seq![LensParam::FrontAd]
    } else {
        Seq::empty()
    }) + (if optv.isae1on == 1 {
        seq![LensParam::FrontAe]
    } else {
        Seq::empty()
    }) + (if optv.iscc2on == 1 {
        seq![LensParam::BackConic]
    } else {
        Seq::empty()
    }) + (if optv.isad2on == 1 {
        seq![LensParam::BackAd]
    } else {
        Seq::empty()
    }) + (if optv.isae2on == 1 {
        seq![LensParam::BackAe]
    } else {
        Seq::empty()
    })
}

/// List the coefficients that a target set switches on, in probe order.
/// A coefficient that is not listed is never touched by an optimization run.
pub fn active_params(optv: &OptVariables) -> (ps: Vec<LensParam>)
    ensures
        ps@ == selected_params(*optv),
{
    let mut ps: Vec<LensParam> = Vec::new();
    if optv.iscc1on == 1 {
        ps.push(LensParam::FrontConic);
    }
    if optv.isad1on == 1 {
        ps.push(LensParam::FrontAd);
    }
    if optv.isae1on == 1 {
        ps.push(LensParam::FrontAe);
    }
    if optv.iscc2on == 1 {
        ps.push(LensParam::BackConic);
    }
    if optv.isad2on == 1 {
        ps.push(LensParam::BackAd);
    }
    if optv.isae2on == 1 {
        ps.push(LensParam::BackAe);
    }
    proof {
        assert(ps@ =~= selected_params(*optv));
    }
    ps
}

/// With every target flag off no parameter is selected, so an optimization
/// run probes nothing and returns the lens exactly as it was given.
pub proof fn lemma_no_targets_no_params(optv: OptVariables)
    requires
        optv.iscc1on != 1,
        optv.isad1on != 1,
        optv.isae1on != 1,
        optv.iscc2on != 1,
        optv.isad2on != 1,
        optv.isae2on != 1,
    ensures
        selected_params(optv).len() == 0,
{
    assert(selected_params(optv) =~= Seq::<LensParam>::empty());
}

/// The outcome of one single-coefficient probe.
#[derive(Clone, Copy, Debug, PartialEq, Eq, Structural)]
pub enum ProbeMove {
    Negative,
    Positive,
    Stay,
}

/// The probe rule: move toward a strictly lower error, preferring the
/// negative side, and stay put when neither side improves.
pub open spec fn probe_decision(left_lower: bool, right_lower: bool) -> ProbeMove {
    if left_lower {
        ProbeMove::Negative
    } else if right_lower {
        ProbeMove::Positive
    } else {
        ProbeMove::Stay
    }
}

/// Decide one probe step.  `left_lower` holds when the error one step down
/// is strictly below the centre error, `right_lower` when the error one step
/// up is; at a local minimum along this axis both are false and the
/// coefficient keeps its value.
pub fn probe_direction(left_lower: bool, right_lower: bool) -> (m: ProbeMove)
    ensures
        m == probe_decision(left_lower, right_lower),
{
    if left_lower {
        ProbeMove::Negative
    } else if right_lower {
        ProbeMove::Positive
    } else {
        ProbeMove::Stay
    }
}

} // verus!
