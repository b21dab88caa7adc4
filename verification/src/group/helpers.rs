//! The signed scalar-multiplication helpers, as used by the `dlog` solvers.
use vstd::prelude::*;

use crate::group::{abs_int, group_laws, signed_gen_mul, signed_scalar_mul, KangarooGroup};

verus! {

/// `scalar * g` for `|scalar|` below the group order.
pub fn scalar_mul_i64<G: KangarooGroup>(g: G, scalar: i64) -> (r: G)
    requires
        abs_int(scalar as int) < G::spec_order(),
    ensures
        r == signed_scalar_mul(g, scalar as int),
{
    crate::group::scalar_mul_i64(g, scalar)
}

/// `scalar * G` for `|scalar|` below the group order.
pub fn generator_scalar_mul_i64<G: KangarooGroup>(scalar: i64) -> (r: G)
    requires
        abs_int(scalar as int) < G::spec_order(),
    ensures
        r == signed_gen_mul::<G>(scalar as int),
        group_laws::<G>() ==> r == G::spec_gen_mul(scalar as int),
{
    crate::group::generator_scalar_mul_i64(scalar)
}

} // verus!
