//! Scene building: evenly spaced coordinates and the proximity rule by which
//! neighbouring particles are bonded.

use crate::contact::overlap;
use crate::fixed::{add_raw, mul_raw, Fixed};
use crate::integrator::well_formed;
use crate::particle::{
    bonds_view, particles_view, Bond, BondState, Material, MaterialState, Particle, ParticleState,
};
use crate::vec2::{v2_normalize, v2_sub};
use vstd::prelude::*;

verus! {

/// Two particles are bonded when they are no further apart than this part
/// of the radius: 0.1.
pub const REACH_RAW: i128 = 0x1999_9999_9999_999a;

/// Both breaking thresholds of a new bond are this part of the stiffness:
/// 0.07.
pub const STRENGTH_RAW: i128 = 0x11eb_851e_b851_eb85;

/// The coordinates `start`, `start + step`, `start + 2 * step`, and so on, as
/// long as they are below `end`.
pub fn range(start: Fixed, end: Fixed, step: Fixed) -> (r: Vec<Fixed>)
    requires
        step@ > 0,
    ensures
        forall|k: int| 0 <= k < r@.len() ==> (#[trigger] r@[k])@ == start@ + k * step@,
        forall|k: int| 0 <= k < r@.len() ==> (#[trigger] r@[k])@ < end@,
        start@ + r@.len() * step@ >= end@,
{
    let mut out: Vec<Fixed> = Vec::new();
    let mut x = start;
    assert(start@ + 0 * step@ == start@) by (nonlinear_arith);
    let mut more = x.lt(end);
    while more
        invariant
            step@ > 0,
            more == (x@ < end@),
            x@ == start@ + out@.len() * step@ || (x@ >= end@ && start@ + out@.len() * step@ >= end@),
            forall|k: int| 0 <= k < out@.len() ==> (#[trigger] out@[k])@ == start@ + k * step@,
            forall|k: int| 0 <= k < out@.len() ==> (#[trigger] out@[k])@ < end@,
        decreases
                (if x@ < end@ {
                    end@ - x@
                } else {
                    0
                }),
    {
        let ghost count = out@.len() as int;
        assert(start@ + (count + 1) * step@ == start@ + count * step@ + step@) by (nonlinear_arith);
        out.push(x);
        x = x.add(step);
        more = x.lt(end);
    }
    out
}

/// The proximity rule: whether the overlap of two particles is at least
/// minus a tenth of the radius.
pub open spec fn near(pi: ParticleState, pj: ParticleState, m: MaterialState) -> bool {
    overlap(pi, pj) >= -mul_raw(REACH_RAW as int, m.radius)
}

/// The bond that is formed from `pi` to `pj`, which has index `j`: unbroken,
/// with rest length twice the radius, the direction from `pi` to `pj`, and
/// both thresholds at 0.07 times the stiffness.
pub open spec fn new_bond(pi: ParticleState, pj: ParticleState, j: int, m: MaterialState) -> BondState {
    BondState {
        endpoint: j,
        broken: false,
        rest_length: add_raw(m.radius, m.radius),
        initial_direction: v2_normalize(v2_sub(pj.position, pi.position)),
        max_normal_force: mul_raw(STRENGTH_RAW as int, m.kn),
        max_tangent_force: mul_raw(STRENGTH_RAW as int, m.kn),
    }
}

/// The bonds of particle `i` after bonds to the near ones among the first
/// `n` particles have been added to them, in order, leaving out `i` itself.
pub open spec fn formed_bonds(ps: Seq<ParticleState>, i: int, n: int, m: MaterialState) -> Seq<BondState>
    decreases n,
{
    if n <= 0 {
        ps[i].bonds
    } else {
        let before = formed_bonds(ps, i, n - 1, m);
        if n - 1 != i && near(ps[i], ps[n - 1], m) {
            before.push(new_bond(ps[i], ps[n - 1], n - 1, m))
        } else {
            before
        }
    }
}

/// Whether two particles agree in position and radius.
spec fn same_place(a: ParticleState, b: ParticleState) -> bool {
    a.position == b.position && a.radius == b.radius
}

/// Bonds every particle to each other particle that is near it. Both of two
/// near particles get a bond of their own to the other.
pub fn form_bonds(ps: &mut Vec<Particle>, m: &Material)
    requires
        old(ps)@.len() <= u32::MAX,
    ensures
        particles_view(final(ps)@) == bonded_all(particles_view(old(ps)@), m@),
{
    let n = ps.len();
    let ghost d = particles_view(ps@);
    let reach = Fixed::from_raw(REACH_RAW).mul(m.radius).neg();
    let rest = m.radius.add(m.radius);
    let strength = Fixed::from_raw(STRENGTH_RAW).mul(m.kn);
    let mut i: usize = 0;
    while i < n
        invariant
            n == ps@.len(),
            n == d.len(),
            n <= u32::MAX,
            i <= n,
            d == particles_view(old(ps)@),
            reach@ == -mul_raw(REACH_RAW as int, m@.radius),
            rest@ == add_raw(m@.radius, m@.radius),
            strength@ == mul_raw(STRENGTH_RAW as int, m@.kn),
            forall|q: int|
                0 <= q < i ==> (#[trigger] ps@[q])@ == (ParticleState {
                    bonds: formed_bonds(d, q, n as int, m@),
                    ..d[q]
                }),
            forall|q: int| i <= q < n ==> (#[trigger] ps@[q])@ == d[q],
        decreases n - i,
    {
        let mut j: usize = 0;
        while j < n
            invariant
                n == ps@.len(),
                n == d.len(),
                n <= u32::MAX,
                i < n,
                j <= n,
                reach@ == -mul_raw(REACH_RAW as int, m@.radius),
                rest@ == add_raw(m@.radius, m@.radius),
                strength@ == mul_raw(STRENGTH_RAW as int, m@.kn),
                forall|q: int|
                    0 <= q < i ==> (#[trigger] ps@[q])@ == (ParticleState {
                        bonds: formed_bonds(d, q, n as int, m@),
                        ..d[q]
                    }),
                forall|q: int| i < q < n ==> (#[trigger] ps@[q])@ == d[q],
                ps@[i as int]@ == (ParticleState {
                    bonds: formed_bonds(d, i as int, j as int, m@),
                    ..d[i as int]
                }),
            decreases n - j,
        {
            if j != i {
                assert(same_place(ps@[j as int]@, d[j as int]));
                assert(same_place(ps@[i as int]@, d[i as int]));
                let l = ps[j].position.sub(ps[i].position);
                let lij = ps[i].position.sub(ps[j].position);
                let o = ps[i].radius.add(ps[j].radius).sub(lij.length());
                if o.ge(reach) {
                    let ghost before = ps@[i as int]@.bonds;
                    let bond = Bond::new(j as u32, rest, l.normalize(), strength, strength);
                    ps[i].bonds.push(bond);
                    assert(bonds_view(ps@[i as int].bonds@) =~= before.push(bond@));
                }
            }
            j = j + 1;
        }
        i = i + 1;
    }
}


/// The particles after each has been bonded to the near ones among them.
pub open spec fn bonded_all(ps: Seq<ParticleState>, m: MaterialState) -> Seq<ParticleState> {
    Seq::new(
        ps.len(),
        |i: int| ParticleState { bonds: formed_bonds(ps, i, ps.len() as int, m), ..ps[i] },
    )
}

proof fn lemma_formed_bonds_in_order(ps: Seq<ParticleState>, i: int, n: int, m: MaterialState)
    requires
        well_formed(ps),
        m.radius > 0,
        0 <= i < ps.len(),
        0 <= n <= ps.len(),
    ensures
        forall|k: int|
            0 <= k < formed_bonds(ps, i, n, m).len() ==> {
                &&& 0 <= (#[trigger] formed_bonds(ps, i, n, m)[k]).endpoint < ps.len()
                &&& formed_bonds(ps, i, n, m)[k].endpoint != i
                &&& formed_bonds(ps, i, n, m)[k].rest_length > 0
            },
    decreases n,
{
    let formed = formed_bonds(ps, i, n, m);
    assert forall|k: int| 0 <= k < formed.len() implies {
        &&& 0 <= (#[trigger] formed[k]).endpoint < ps.len()
        &&& formed[k].endpoint != i
        &&& formed[k].rest_length > 0
    } by {
        if n <= 0 {
            assert(ps[i].radius > 0);
            assert(formed[k] == ps[i].bonds[k]);
        } else {
            lemma_formed_bonds_in_order(ps, i, n - 1, m);
            let before = formed_bonds(ps, i, n - 1, m);
            if k < before.len() {
                assert(formed[k] == before[k]);
            }
        }
    }
}

/// Bonding keeps the invariants of the entity store, for a material whose
/// radius is positive.
pub proof fn lemma_bonding_well_formed(ps: Seq<ParticleState>, m: MaterialState)
    requires
        well_formed(ps),
        m.radius > 0,
    ensures
        well_formed(bonded_all(ps, m)),
{
    let r = bonded_all(ps, m);
    assert forall|i: int| 0 <= i < r.len() implies {
        &&& (#[trigger] r[i]).radius > 0
        &&& forall|k: int|
            0 <= k < r[i].bonds.len() ==> {
                &&& 0 <= (#[trigger] r[i].bonds[k]).endpoint < r.len()
                &&& r[i].bonds[k].endpoint != i
                &&& r[i].bonds[k].rest_length > 0
            }
    } by {
        assert(ps[i].radius > 0);
        lemma_formed_bonds_in_order(ps, i, ps.len() as int, m);
    }
}

} // verus!
