//! Visibility classification: an instant is visible when the target is
//! above the observer's horizon, the observer is in Earth's shadow, and
//! the target is not. All three predicates are evaluated from the same
//! rotation of the instant, with no short-circuit, and the conjunction
//! is the contract.
use vstd::prelude::*;

verus! {

use crate::eclipse::is_eclipsed_by_earth;
use crate::eclipse::spec_is_eclipsed;
use crate::geodetic::GeodeticPosition;
use crate::geodetic::llh_to_ecef;
use crate::geodetic::spec_llh_to_ecef;
use crate::rotation::RotationZ;
use crate::rotation::calc_eci_to_ecef_rotam;
use crate::rotation::spec_rotation_z;
use crate::rotation::spec_sidereal_theta;
use crate::time::Instant;
use crate::topo::ecef_to_enu;
use crate::topo::spec_ecef_to_enu;
use crate::vec3::Vec3;

/// The East-North-Up image of an inertial target about the observer at
/// an instant: the target rotated into the rotating frame, then taken
/// topocentric.
pub open spec fn spec_enu_at(p_eci: Vec3, observer: GeodeticPosition, d: int) -> Vec3 {
    let m = spec_rotation_z(spec_sidereal_theta(d));
    spec_ecef_to_enu(observer, m.spec_apply(p_eci))
}

/// Visibility of an inertial target for an observer at a J2000 day
/// count `d` in nano-days: above the horizon, observer in shadow,
/// target in sunlight — all three must hold.
pub open spec fn spec_classify(p_eci: Vec3, observer: GeodeticPosition, d: int) -> bool {
    let m = spec_rotation_z(spec_sidereal_theta(d));
    let enu = spec_ecef_to_enu(observer, m.spec_apply(p_eci));
    let observer_eci = m.spec_apply_transpose(spec_llh_to_ecef(observer));
    let is_overhead = enu.z >= 0;
    let is_night = spec_is_eclipsed(observer_eci, d);
    let is_sunlit = !spec_is_eclipsed(p_eci, d);
    is_overhead && is_night && is_sunlit
}

/// Classifies one inertial sample.
pub fn classify(p_eci: &Vec3, observer_lla: &GeodeticPosition, instant: &Instant) -> (r: bool)
    requires
        p_eci.in_range(100_000_000_000_000),
        observer_lla.wf(),
        instant.wf(),
    ensures
        r == spec_classify(*p_eci, *observer_lla, instant.spec_j2000_nanodays()),
{
    let eci_to_ecef: RotationZ = calc_eci_to_ecef_rotam(instant);
    let p_ecef: Vec3 = eci_to_ecef.apply(p_eci);
    let p_enu: Vec3 = ecef_to_enu(observer_lla, &p_ecef);
    let observer_ecef: Vec3 = llh_to_ecef(observer_lla);
    let observer_eci: Vec3 = eci_to_ecef.apply_transpose(&observer_ecef);
    let is_overhead: bool = p_enu.z >= 0;
    let is_night: bool = is_eclipsed_by_earth(&observer_eci, instant);
    let is_sunlit: bool = !is_eclipsed_by_earth(p_eci, instant);
    is_overhead && is_night && is_sunlit
}

/// The horizon check is necessary: below the horizon nothing is
/// visible, whatever the two eclipse tests say.
pub proof fn lemma_horizon_necessary(p_eci: Vec3, observer: GeodeticPosition, d: int)
    ensures
        spec_enu_at(p_eci, observer, d).z < 0 ==> !spec_classify(p_eci, observer, d),
{
}

/// Classifies a propagated position/time series, one verdict per
/// sample.
pub fn is_visible(xyzt: &Vec<(Vec3, Instant)>, observer_lla: &GeodeticPosition) -> (r: Vec<bool>)
    requires
        observer_lla.wf(),
        forall|i: int|
            0 <= i < xyzt@.len() ==> (#[trigger] xyzt@[i]).0.in_range(100_000_000_000_000)
                && xyzt@[i].1.wf(),
    ensures
        r@.len() == xyzt@.len(),
        forall|i: int|
            0 <= i < r@.len() ==> r@[i] == spec_classify(
                (#[trigger] xyzt@[i]).0,
                *observer_lla,
                xyzt@[i].1.spec_j2000_nanodays(),
            ),
{
    let mut out: Vec<bool> = Vec::new();
    let mut k: usize = 0;
    while k < xyzt.len()
        invariant
            0 <= k <= xyzt@.len(),
            out@.len() == k,
            observer_lla.wf(),
            forall|i: int|
                0 <= i < xyzt@.len() ==> (#[trigger] xyzt@[i]).0.in_range(100_000_000_000_000)
                    && xyzt@[i].1.wf(),
            forall|i: int|
                0 <= i < k ==> out@[i] == spec_classify(
                    (#[trigger] xyzt@[i]).0,
                    *observer_lla,
                    xyzt@[i].1.spec_j2000_nanodays(),
                ),
        decreases xyzt@.len() - k,
    {
        let (p, t) = xyzt[k];
        let v = classify(&p, observer_lla, &t);
        out.push(v);
        k = k + 1;
    }
    out
}

} // verus!
