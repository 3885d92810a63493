//! The field transform: opacity and scale are activated, everything else is kept.
//!
//! The two activations are numeric functions on single-precision values. They
//! are taken as parameters that map bit pattern to bit pattern, so that this
//! module states which fields they reach, and how often, for any such pair.

use vstd::prelude::*;
use crate::record::RawSplat;

verus! {

/// Whether `out` is `raw` after the field transform with the activations
/// `exp` and `logistic`: each scale component went through `exp`, the
/// opacity through `logistic`, and every other field is unchanged.
pub open spec fn is_transform_of<E: Fn(u32) -> u32, L: Fn(u32) -> u32>(
    out: RawSplat,
    raw: RawSplat,
    exp: E,
    logistic: L,
) -> bool {
    &&& out.pos == raw.pos
    &&& out.normal == raw.normal
    &&& out.f_dc == raw.f_dc
    &&& out.f_rest == raw.f_rest
    &&& call_ensures(logistic, (raw.opacity,), out.opacity)
    &&& forall|k: int|
        0 <= k < 3 ==> call_ensures(exp, (raw.log_scale@[k],), #[trigger] out.log_scale@[k])
    &&& out.rot == raw.rot
}

/// Whether `out` holds the records of `raw`, each transformed, in the same order.
pub open spec fn is_transform_of_all<E: Fn(u32) -> u32, L: Fn(u32) -> u32>(
    out: Seq<RawSplat>,
    raw: Seq<RawSplat>,
    exp: E,
    logistic: L,
) -> bool {
    &&& out.len() == raw.len()
    &&& forall|i: int|
        0 <= i < raw.len() ==> is_transform_of(#[trigger] out[i], raw[i], exp, logistic)
}

/// Applies the field transform to one record, in place.
pub fn transform_record<E: Fn(u32) -> u32, L: Fn(u32) -> u32>(
    s: &mut RawSplat,
    exp: &E,
    logistic: &L,
)
    requires
        forall|x: u32| call_requires(*exp, (x,)),
        forall|x: u32| call_requires(*logistic, (x,)),
    ensures
        is_transform_of(*final(s), *old(s), *exp, *logistic),
{
    let scale: [u32; 3] = [exp(s.log_scale[0]), exp(s.log_scale[1]), exp(s.log_scale[2])];
    s.log_scale = scale;
    s.opacity = logistic(s.opacity);
}

/// Applies the field transform to every record once, in place and in order.
pub fn transform_all<E: Fn(u32) -> u32, L: Fn(u32) -> u32>(
    splats: &mut Vec<RawSplat>,
    exp: &E,
    logistic: &L,
)
    requires
        forall|x: u32| call_requires(*exp, (x,)),
        forall|x: u32| call_requires(*logistic, (x,)),
    ensures
        is_transform_of_all(final(splats)@, old(splats)@, *exp, *logistic),
{
    let ghost raw = splats@;
    let n: usize = splats.len();
    let mut i: usize = 0;
    while i < n
        invariant
            i <= n,
            n == raw.len(),
            splats@.len() == n,
            forall|x: u32| call_requires(*exp, (x,)),
            forall|x: u32| call_requires(*logistic, (x,)),
            forall|j: int| 0 <= j < i ==> is_transform_of(#[trigger] splats@[j], raw[j], *exp, *logistic),
            forall|j: int| i <= j < n ==> splats@[j] == raw[j],
        decreases n - i,
    {
        let mut s: RawSplat = splats[i];
        transform_record(&mut s, exp, logistic);
        splats.set(i, s);
        i += 1;
    }
}

} // verus!
