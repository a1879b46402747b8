//! The pass search: a propagated series of inertial positions, one per
//! minute offset, is classified sample by sample, and the visible
//! samples are emitted in time order as (azimuth/elevation/range,
//! timestamp) pairs. A sample the propagator failed to produce is
//! carried as `None`: it contributes nothing and — proved below — does
//! not disturb the samples around it.
use vstd::prelude::*;

verus! {

use vstd::assert_seqs_equal;
use crate::geodetic::GeodeticPosition;
use crate::rotation::RotationZ;
use crate::rotation::calc_eci_to_ecef_rotam;
use crate::time::Instant;
use crate::topo::AzElRange;
use crate::topo::ecef_to_enu;
use crate::topo::enu_to_azelrad;
use crate::topo::spec_azelrad;
use crate::vec3::Vec3;
use crate::visibility::classify;
use crate::visibility::spec_classify;
use crate::visibility::spec_enu_at;

/// The J2000 day count, in nano-days, `k` minutes after the reference
/// timestamp.
pub open spec fn spec_time_at(r0: Instant, k: int) -> int {
    r0.spec_plus_minutes(k).spec_j2000_nanodays()
}

/// The pass entry of a visible sample: its topocentric angles and its
/// timestamp.
pub open spec fn spec_pass_entry(p: Vec3, obs: GeodeticPosition, r0: Instant, k: int) -> (
    AzElRange,
    Instant,
) {
    (spec_azelrad(spec_enu_at(p, obs, spec_time_at(r0, k))), r0.spec_plus_minutes(k))
}

/// The visible passes of a position series whose first sample sits `k0`
/// minutes after the reference timestamp: every present sample that
/// classifies visible contributes one entry, in order; absent samples
/// contribute nothing.
pub open spec fn spec_passes(
    s: Seq<Option<Vec3>>,
    obs: GeodeticPosition,
    r0: Instant,
    k0: int,
) -> Seq<(AzElRange, Instant)>
    decreases s.len(),
{
    if s.len() == 0 {
        Seq::empty()
    } else {
        let rest = spec_passes(s.subrange(1, s.len() as int), obs, r0, k0 + 1);
        match s[0] {
            Option::Some(p) => {
                if spec_classify(p, obs, spec_time_at(r0, k0)) {
                    seq![spec_pass_entry(p, obs, r0, k0)] + rest
                } else {
                    rest
                }
            },
            Option::None => rest,
        }
    }
}

/// Searches a propagated series for visible passes. The sample at index
/// `k` belongs to the instant `k` minutes after `ref_instant`; the
/// result is exactly the visible samples, oldest first.
pub fn find_visible_passes(
    positions: &Vec<Option<Vec3>>,
    observer_lla: &GeodeticPosition,
    ref_instant: &Instant,
) -> (r: Vec<(AzElRange, Instant)>)
    requires
        observer_lla.wf(),
        ref_instant.wf(),
        ref_instant.jdn <= 9_000_000,
        positions@.len() <= 1_000_000,
        forall|i: int|
            0 <= i < positions@.len() ==> (#[trigger] positions@[i] matches Option::Some(p)
                ==> p.in_range(100_000_000_000_000)),
    ensures
        r@ == spec_passes(positions@, *observer_lla, *ref_instant, 0),
{
    let ghost s = positions@;
    let mut out: Vec<(AzElRange, Instant)> = Vec::new();
    let mut k: usize = 0;
    proof {
        assert_seqs_equal!(s.subrange(0, s.len() as int) == s);
    }
    while k < positions.len()
        invariant
            0 <= k <= s.len(),
            s == positions@,
            s.len() <= 1_000_000,
            observer_lla.wf(),
            ref_instant.wf(),
            ref_instant.jdn <= 9_000_000,
            forall|i: int|
                0 <= i < s.len() ==> (#[trigger] s[i] matches Option::Some(p) ==> p.in_range(
                    100_000_000_000_000,
                )),
            spec_passes(s, *observer_lla, *ref_instant, 0) == out@ + spec_passes(
                s.subrange(k as int, s.len() as int),
                *observer_lla,
                *ref_instant,
                k as int,
            ),
        decreases s.len() - k,
    {
        let ghost tail = s.subrange(k as int, s.len() as int);
        proof {
            assert(tail.len() > 0);
            assert(tail[0] == s[k as int]);
            assert_seqs_equal!(tail.subrange(1, tail.len() as int)
                == s.subrange(k as int + 1, s.len() as int));
        }
        let entry = positions[k];
        match entry {
            Option::Some(p) => {
                let t_k: Instant = ref_instant.plus_minutes(k as i64);
                let vis: bool = classify(&p, observer_lla, &t_k);
                if vis {
                    let m: RotationZ = calc_eci_to_ecef_rotam(&t_k);
                    let p_ecef: Vec3 = m.apply(&p);
                    let enu: Vec3 = ecef_to_enu(observer_lla, &p_ecef);
                    let azel: AzElRange = enu_to_azelrad(&enu);
                    out.push((azel, t_k));
                    proof {
                        assert((azel, t_k) == spec_pass_entry(p, *observer_lla, *ref_instant, k as int));
                        assert_seqs_equal!(
                            (out@.drop_last() + (seq![spec_pass_entry(p, *observer_lla, *ref_instant, k as int)]
                                + spec_passes(s.subrange(k as int + 1, s.len() as int), *observer_lla, *ref_instant, k as int + 1)))
                            == (out@ + spec_passes(s.subrange(k as int + 1, s.len() as int), *observer_lla, *ref_instant, k as int + 1)));
                    }
                } else {
                }
            },
            Option::None => {},
        }
        k = k + 1;
    }
    proof {
        assert_seqs_equal!(s.subrange(s.len() as int, s.len() as int) == Seq::<Option<Vec3>>::empty());
        assert(out@ + Seq::<(AzElRange, Instant)>::empty() =~= out@);
    }
    out
}

/// The pass list follows time order: every entry's timestamp sits at
/// or after the window start, and timestamps grow strictly along the
/// list — no reordering and no duplicate instants.
pub proof fn lemma_passes_time_ordered(
    s: Seq<Option<Vec3>>,
    obs: GeodeticPosition,
    r0: Instant,
    k0: int,
)
    requires
        0 <= k0,
        0 <= r0.spec_abs_minutes(),
        r0.spec_abs_minutes() + k0 + s.len() <= 1_000_000_000_000_000_000,
    ensures
        forall|i: int|
            0 <= i < spec_passes(s, obs, r0, k0).len() ==> (#[trigger] spec_passes(s, obs, r0, k0)[i]).1.spec_abs_minutes() >= r0.spec_abs_minutes() + k0,
        forall|i: int, j: int|
            0 <= i < j < spec_passes(s, obs, r0, k0).len() ==> (#[trigger] spec_passes(
                s,
                obs,
                r0,
                k0,
            )[i]).1.spec_abs_minutes() < (#[trigger] spec_passes(s, obs, r0, k0)[j]).1.spec_abs_minutes(),
    decreases s.len(),
{
    let ps = spec_passes(s, obs, r0, k0);
    if s.len() > 0 {
        let tail = s.subrange(1, s.len() as int);
        lemma_passes_time_ordered(tail, obs, r0, k0 + 1);
        let rest = spec_passes(tail, obs, r0, k0 + 1);
        match s[0] {
            Option::Some(p) => {
                if spec_classify(p, obs, spec_time_at(r0, k0)) {
                    let e = spec_pass_entry(p, obs, r0, k0);
                    crate::time::lemma_spec_plus_minutes_abs(r0, k0);
                    assert(ps == seq![e] + rest);
                    assert(ps[0] == e);
                    assert(forall|i: int| 1 <= i < ps.len() ==> #[trigger] ps[i] == rest[i - 1]);
                    assert(e.1.spec_abs_minutes() == r0.spec_abs_minutes() + k0);
                } else {
                    assert(ps == rest);
                }
            },
            Option::None => {
                assert(ps == rest);
            },
        }
    }
}

/// Splitting a series splits its passes: the passes of `s` are those of
/// its first `i` samples followed by those of the rest.
pub proof fn lemma_passes_split(
    s: Seq<Option<Vec3>>,
    obs: GeodeticPosition,
    r0: Instant,
    k0: int,
    i: int,
)
    requires
        0 <= i <= s.len(),
    ensures
        spec_passes(s, obs, r0, k0) == spec_passes(s.subrange(0, i), obs, r0, k0) + spec_passes(
            s.subrange(i, s.len() as int),
            obs,
            r0,
            k0 + i,
        ),
    decreases i,
{
    if i == 0 {
        assert_seqs_equal!(s.subrange(0, s.len() as int) == s);
        assert(spec_passes(s.subrange(0, 0), obs, r0, k0) =~= Seq::empty());
        assert(Seq::empty() + spec_passes(s, obs, r0, k0) =~= spec_passes(s, obs, r0, k0));
    } else {
        let tail = s.subrange(1, s.len() as int);
        lemma_passes_split(tail, obs, r0, k0 + 1, i - 1);
        assert_seqs_equal!(tail.subrange(0, i - 1) == s.subrange(0, i).subrange(1, i));
        assert_seqs_equal!(tail.subrange(i - 1, tail.len() as int)
            == s.subrange(i, s.len() as int));
        assert(s.subrange(0, i)[0] == s[0]);
        assert(s.subrange(0, i).len() == i);
        let head = s.subrange(0, i);
        assert(spec_passes(head, obs, r0, k0) == match s[0] {
            Option::Some(p) => {
                if spec_classify(p, obs, spec_time_at(r0, k0)) {
                    seq![spec_pass_entry(p, obs, r0, k0)] + spec_passes(tail.subrange(0, i - 1), obs, r0, k0 + 1)
                } else {
                    spec_passes(tail.subrange(0, i - 1), obs, r0, k0 + 1)
                }
            },
            Option::None => spec_passes(tail.subrange(0, i - 1), obs, r0, k0 + 1),
        });
        match s[0] {
            Option::Some(p) => {
                if spec_classify(p, obs, spec_time_at(r0, k0)) {
                    assert_seqs_equal!(
                        ((seq![spec_pass_entry(p, obs, r0, k0)] + spec_passes(tail.subrange(0, i - 1), obs, r0, k0 + 1))
                            + spec_passes(s.subrange(i, s.len() as int), obs, r0, k0 + i))
                        == (seq![spec_pass_entry(p, obs, r0, k0)]
                            + (spec_passes(tail.subrange(0, i - 1), obs, r0, k0 + 1)
                                + spec_passes(s.subrange(i, s.len() as int), obs, r0, k0 + i))));
                }
            },
            Option::None => {},
        }
    }
}

/// A propagator failure at one minute offset removes only that sample:
/// with `None` written at index `i`, the passes are exactly those of the
/// samples before `i` followed by those after it, both unchanged.
pub proof fn lemma_failed_sample_is_isolated(
    s: Seq<Option<Vec3>>,
    obs: GeodeticPosition,
    r0: Instant,
    i: int,
)
    requires
        0 <= i < s.len(),
    ensures
        spec_passes(s.update(i, Option::None), obs, r0, 0) == spec_passes(
            s.subrange(0, i),
            obs,
            r0,
            0,
        ) + spec_passes(s.subrange(i + 1, s.len() as int), obs, r0, i + 1),
{
    let u = s.update(i, Option::None);
    lemma_passes_split(u, obs, r0, 0, i);
    assert_seqs_equal!(u.subrange(0, i) == s.subrange(0, i));
    let ut = u.subrange(i, u.len() as int);
    assert(ut[0] is None);
    assert_seqs_equal!(ut.subrange(1, ut.len() as int) == s.subrange(i + 1, s.len() as int));
    assert(spec_passes(ut, obs, r0, i) == spec_passes(
        s.subrange(i + 1, s.len() as int),
        obs,
        r0,
        i + 1,
    ));
}

} // verus!
