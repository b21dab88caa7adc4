//! Walks of the Gaudry-Schost variant with overhead accounting: a jump
//! table of even distances, an escape jump for short cycles, walks on
//! classes `{P, -P}` that restart from a random point after each
//! distinguished point or after too many steps.
use std::collections::{HashMap, HashSet};
use std::ops::ControlFlow;
use vstd::prelude::*;

use crate::dlp::order_ok;
use crate::dlp::{pm, some_dlog};
use crate::group::{abs_int, generator_scalar_mul_i64, group_laws, signed_gen_mul, KangarooGroup};
use crate::rng::random_range_i64;
use rand::rngs::Xoshiro256PlusPlus;

verus! {

broadcast use vstd::std_specs::hash::group_hash_axioms;

/// How far a walk may travel from the origin of its distances before the
/// walk gives up: below it, a collision of two walks can be solved exactly.
pub const MAX_WALK_DISTANCE: i64 = 0x1000_0000_0000_0000;

/// The kind of a walk.
#[allow(non_camel_case_types)]
#[derive(Copy, Clone, PartialEq, Eq, Structural, Debug)]
pub enum Type {
    /// A walk from a known multiple of `G`.
    TAME,
    /// A walk from the target.
    WILD,
}

/// The parity of a walk's distances.
#[allow(non_camel_case_types)]
#[derive(Copy, Clone, PartialEq, Eq, Structural, Debug)]
pub enum Parity {
    /// Odd distances.
    ODD,
    /// Even distances.
    EVEN,
}

/// The parameters shared by the walks of one run.
#[derive(Clone)]
pub struct Params<G: KangarooGroup> {
    n: i64,
    buckets_bits: u32,
    dp_bits: u32,
    jump_table_distances: Vec<i64>,
    jump_table_elements: Vec<G>,
    escape_distance: i64,
    escape_element: G,
    max_steps: u64,
    guard_interval: i64,
}

/// `x` is an even distance in `[2, bound)`.
pub open spec fn even_jump_in(x: int, bound: int) -> bool {
    2 <= x < bound && x % 2 == 0
}

impl<G: KangarooGroup> Params<G> {
    /// The width of the interval.
    pub closed spec fn spec_n(&self) -> i64 {
        self.n
    }

    /// `log2` of the jump-table size.
    pub closed spec fn spec_buckets_bits(&self) -> u32 {
        self.buckets_bits
    }

    /// The number of distinguished-point bits.
    pub closed spec fn spec_dp_bits(&self) -> u32 {
        self.dp_bits
    }

    /// The jump distances.
    pub closed spec fn spec_distances(&self) -> Seq<i64> {
        self.jump_table_distances@
    }

    /// The jump points.
    pub closed spec fn spec_elements(&self) -> Seq<G> {
        self.jump_table_elements@
    }

    /// The distance of the escape jump.
    pub closed spec fn spec_escape_distance(&self) -> i64 {
        self.escape_distance
    }

    /// The point of the escape jump.
    pub closed spec fn spec_escape_element(&self) -> G {
        self.escape_element
    }

    /// After how many steps without a distinguished point a walk restarts.
    pub closed spec fn spec_max_steps(&self) -> u64 {
        self.max_steps
    }

    /// The margin kept between the start points and the ends of the sets.
    pub closed spec fn spec_guard_interval(&self) -> i64 {
        self.guard_interval
    }

    /// The parameters are consistent: a table of `2^buckets_bits` even jumps
    /// of at most `2^61` with their points, an even escape jump with its
    /// point, `max_steps == 20 * 2^dp_bits`.
    pub open spec fn wf(&self) -> bool {
        &&& 0 < self.spec_n()
        &&& 0 < self.spec_buckets_bits() < 32
        &&& 0 < self.spec_dp_bits() < 60
        &&& self.spec_distances().len() == vstd::arithmetic::power2::pow2(
            self.spec_buckets_bits() as nat,
        )
        &&& self.spec_elements().len() == self.spec_distances().len()
        &&& forall|i: int|
            0 <= i < self.spec_distances().len() ==> even_jump_in(
                #[trigger] self.spec_distances()[i] as int,
                0x2000_0000_0000_0001,
            )
        &&& forall|i: int|
            0 <= i < self.spec_distances().len() ==> (group_laws::<G>()
                ==> #[trigger] self.spec_elements()[i] == G::spec_gen_mul(
                self.spec_distances()[i] as int,
            ))
        &&& even_jump_in(self.spec_escape_distance() as int, 0x2000_0000_0000_0001)
        &&& group_laws::<G>() ==> self.spec_escape_element() == G::spec_gen_mul(
            self.spec_escape_distance() as int,
        )
        &&& self.spec_max_steps() == vstd::arithmetic::power2::pow2(self.spec_dp_bits() as nat)
            * 20
    }

    /// Draws the parameters for an interval of width `n`: `2^buckets_bits`
    /// jumps `d G`, `d` even from `[2, max_absolute_jump)` and pairwise
    /// distinct when there are at least as many candidates as jumps, an
    /// escape jump of the same kind that is none of the jumps when there are
    /// more candidates than jumps, and `max_steps = 20 * 2^dp_bits`. `None`
    /// when the distinct draws do not complete within `64` draws per jump
    /// (plus `1024`).
    pub fn new(
        n: i64,
        max_absolute_jump: i64,
        guard_interval: i64,
        buckets_bits: u32,
        dp_bits: u32,
        rng: &mut Xoshiro256PlusPlus,
    ) -> (r: Option<Self>)
        requires
            0 < n,
            3 <= max_absolute_jump <= 0x2000_0000_0000_0000,
            0 < buckets_bits < 32,
            0 < dp_bits < 60,
            order_ok::<G>(),
        ensures
            r matches Some(p) ==> {
                &&& p.wf()
                &&& p.spec_n() == n
                &&& p.spec_buckets_bits() == buckets_bits
                &&& p.spec_dp_bits() == dp_bits
                &&& p.spec_guard_interval() == guard_interval
                &&& forall|i: int|
                    0 <= i < p.spec_distances().len() ==> even_jump_in(
                        #[trigger] p.spec_distances()[i] as int,
                        max_absolute_jump as int,
                    )
                &&& forall|i: int|
                    0 <= i < p.spec_distances().len() ==> #[trigger] p.spec_elements()[i]
                        == signed_gen_mul::<G>(p.spec_distances()[i] as int)
                &&& p.spec_escape_element() == signed_gen_mul::<G>(p.spec_escape_distance() as int)
                &&& max_absolute_jump - 1 >= p.spec_distances().len() ==> p.spec_distances().no_duplicates()
                &&& even_jump_in(p.spec_escape_distance() as int, max_absolute_jump as int)
                &&& max_absolute_jump - 1 > p.spec_distances().len() ==> !p.spec_distances().contains(
                    p.spec_escape_distance(),
                )
            },
            max_absolute_jump - 1 < vstd::arithmetic::power2::pow2(buckets_bits as nat) ==> r is Some,
    {
        proof {
            vstd::arithmetic::power2::lemma_pow2_strictly_increases(buckets_bits as nat, 32);
            vstd::arithmetic::power2::lemma2_to64();
            vstd::arithmetic::power2::lemma2_to64_rest();
            vstd::bits::lemma_u64_shl_is_mul(1, buckets_bits as u64);
            vstd::arithmetic::power2::lemma_pow2_strictly_increases(dp_bits as nat, 60);
            vstd::bits::lemma_u64_shl_is_mul(1, dp_bits as u64);
        }
        let jump_table_size: u64 = 1u64 << buckets_bits;
        let available_jump_distances: u64 = (max_absolute_jump - 1) as u64;
        let max_draws: u64 = jump_table_size * 64 + 1024;
        let mut jump_table_distances: Vec<i64> = Vec::new();
        let mut jump_table_elements: Vec<G> = Vec::new();
        let mut draws: u64 = 0;
        if available_jump_distances >= jump_table_size {
            let mut used_jump_distances: HashSet<i64> = HashSet::new();
            while (jump_table_distances.len() as u64) < jump_table_size
                invariant
                    3 <= max_absolute_jump <= 0x2000_0000_0000_0000,
                    jump_table_size == vstd::arithmetic::power2::pow2(buckets_bits as nat),
                    jump_table_size <= 0x8000_0000,
                    max_draws == jump_table_size * 64 + 1024,
                    draws <= max_draws,
                    max_absolute_jump - 1 >= jump_table_size,
                    order_ok::<G>(),
                    jump_table_distances@.len() <= jump_table_size,
                    jump_table_elements@.len() == jump_table_distances@.len(),
                    forall|i: int|
                        0 <= i < jump_table_distances@.len() ==> even_jump_in(
                            #[trigger] jump_table_distances@[i] as int,
                            max_absolute_jump as int,
                        ),
                    forall|i: int|
                        0 <= i < jump_table_distances@.len() ==> (group_laws::<G>()
                            ==> #[trigger] jump_table_elements@[i] == G::spec_gen_mul(
                            jump_table_distances@[i] as int,
                        )),
                    forall|i: int|
                        0 <= i < jump_table_distances@.len() ==> #[trigger] jump_table_elements@[i]
                            == signed_gen_mul::<G>(jump_table_distances@[i] as int),
                    jump_table_distances@.no_duplicates(),
                    forall|x: i64|
                        #[trigger] used_jump_distances@.contains(x)
                            <==> jump_table_distances@.contains(x),
                decreases max_draws - draws,
            {
                if draws == max_draws {
                    return None;
                }
                draws = draws + 1;
                let raw = random_range_i64(rng, 2, max_absolute_jump);
                add_distinct_jump(
                    &mut jump_table_distances,
                    &mut jump_table_elements,
                    &mut used_jump_distances,
                    raw,
                );
            }
        } else {
            let mut i: u64 = 0;
            while i < jump_table_size
                invariant
                    3 <= max_absolute_jump <= 0x2000_0000_0000_0000,
                    jump_table_size == vstd::arithmetic::power2::pow2(buckets_bits as nat),
                    jump_table_size <= 0x8000_0000,
                    order_ok::<G>(),
                    i <= jump_table_size,
                    jump_table_distances@.len() == i,
                    jump_table_elements@.len() == i,
                    forall|i: int|
                        0 <= i < jump_table_distances@.len() ==> #[trigger] jump_table_elements@[i]
                            == signed_gen_mul::<G>(jump_table_distances@[i] as int),
                    forall|j: int|
                        0 <= j < jump_table_distances@.len() ==> even_jump_in(
                            #[trigger] jump_table_distances@[j] as int,
                            max_absolute_jump as int,
                        ),
                    forall|j: int|
                        0 <= j < jump_table_distances@.len() ==> (group_laws::<G>()
                            ==> #[trigger] jump_table_elements@[j] == G::spec_gen_mul(
                            jump_table_distances@[j] as int,
                        )),
                decreases jump_table_size - i,
            {
                let d = random_range_i64(rng, 2, max_absolute_jump) / 2 * 2;
                let e = generator_scalar_mul_i64::<G>(d);
                jump_table_distances.push(d);
                jump_table_elements.push(e);
                i = i + 1;
            }
        }

        let mut escape_distance = random_range_i64(rng, 2, max_absolute_jump) / 2 * 2;
        if available_jump_distances > jump_table_size {
            let mut escape_draws: u64 = 0;
            while contains_distance(&jump_table_distances, escape_distance)
                invariant
                    3 <= max_absolute_jump <= 0x2000_0000_0000_0000,
                    even_jump_in(escape_distance as int, max_absolute_jump as int),
                    escape_draws <= 1024,
                    max_absolute_jump - 1 > jump_table_size,
                    jump_table_size == vstd::arithmetic::power2::pow2(buckets_bits as nat),
                decreases 1024 - escape_draws,
            {
                if escape_draws == 1024 {
                    return None;
                }
                escape_draws = escape_draws + 1;
                escape_distance = random_range_i64(rng, 2, max_absolute_jump) / 2 * 2;
            }
        }
        let escape_element = generator_scalar_mul_i64::<G>(escape_distance);

        let max_steps: u64 = (1u64 << dp_bits) * 20;
        Some(
            Params {
                n,
                buckets_bits,
                dp_bits,
                jump_table_distances,
                jump_table_elements,
                escape_distance,
                escape_element,
                max_steps,
                guard_interval,
            },
        )
    }

    /// A copy of the parameters.
    pub fn duplicate(&self) -> (r: Self)
        ensures
            r.spec_n() == self.spec_n(),
            r.spec_buckets_bits() == self.spec_buckets_bits(),
            r.spec_dp_bits() == self.spec_dp_bits(),
            r.spec_distances() == self.spec_distances(),
            r.spec_elements() == self.spec_elements(),
            r.spec_escape_distance() == self.spec_escape_distance(),
            r.spec_escape_element() == self.spec_escape_element(),
            r.spec_max_steps() == self.spec_max_steps(),
            r.spec_guard_interval() == self.spec_guard_interval(),
    {
        let mut jump_table_distances: Vec<i64> = Vec::new();
        let mut jump_table_elements: Vec<G> = Vec::new();
        let mut i: usize = 0;
        while i < self.jump_table_distances.len()
            invariant
                i <= self.jump_table_distances@.len(),
                jump_table_distances@ == self.jump_table_distances@.subrange(0, i as int),
            decreases self.jump_table_distances@.len() - i,
        {
            jump_table_distances.push(self.jump_table_distances[i]);
            i = i + 1;
        }
        let mut j: usize = 0;
        while j < self.jump_table_elements.len()
            invariant
                j <= self.jump_table_elements@.len(),
                jump_table_elements@ == self.jump_table_elements@.subrange(0, j as int),
            decreases self.jump_table_elements@.len() - j,
        {
            jump_table_elements.push(self.jump_table_elements[j]);
            j = j + 1;
        }
        proof {
            assert(jump_table_distances@ == self.jump_table_distances@);
            assert(jump_table_elements@ == self.jump_table_elements@);
        }
        Params {
            n: self.n,
            buckets_bits: self.buckets_bits,
            dp_bits: self.dp_bits,
            jump_table_distances,
            jump_table_elements,
            escape_distance: self.escape_distance,
            escape_element: self.escape_element,
            max_steps: self.max_steps,
            guard_interval: self.guard_interval,
        }
    }
}

/// The even jump distance made from the draw `raw`: `raw` rounded toward
/// zero to an even number.
pub open spec fn even_of(raw: int) -> int {
    if raw >= 0 {
        raw / 2 * 2
    } else {
        -((-raw) / 2 * 2)
    }
}

/// Adds the jump made from the draw `raw` (in `[2, 2^61]`) unless its
/// distance is already in the table: the distance `even_of(raw)` and its
/// point are appended exactly when the distance is new.
fn add_distinct_jump<G: KangarooGroup>(
    distances: &mut Vec<i64>,
    elements: &mut Vec<G>,
    used: &mut HashSet<i64>,
    raw: i64,
)
    requires
        2 <= raw <= 0x2000_0000_0000_0000,
        order_ok::<G>(),
        forall|x: i64| #[trigger] old(used)@.contains(x) <==> old(distances)@.contains(x),
    ensures
        forall|x: i64| #[trigger] final(used)@.contains(x) <==> final(distances)@.contains(x),
        old(distances)@.contains(even_of(raw as int) as i64) ==> final(distances)@ == old(distances)@
            && final(elements)@ == old(elements)@,
        !old(distances)@.contains(even_of(raw as int) as i64) ==> final(distances)@ == old(
            distances,
        )@.push(even_of(raw as int) as i64) && final(elements)@ == old(elements)@.push(
            signed_gen_mul::<G>(even_of(raw as int)),
        ),
{
    let d = raw / 2 * 2;
    if !used.insert(d) {
        return;
    }
    let e = generator_scalar_mul_i64::<G>(d);
    let ghost before = distances@;
    distances.push(d);
    elements.push(e);
    proof {
        assert(distances@ == before.push(d));
        assert forall|x: i64| #[trigger] used@.contains(x) <==> distances@.contains(x) by {
            if x == d {
                assert(distances@[before.len() as int] == d);
            } else if distances@.contains(x) {
                let k = choose|k: int| 0 <= k < distances@.len() && distances@[k] == x;
                assert(before[k] == x);
            } else if before.contains(x) {
                let k = choose|k: int| 0 <= k < before.len() && before[k] == x;
                assert(distances@[k] == x);
            }
        }
    }
}

/// Whether `x` is one of the distances.
fn contains_distance(distances: &Vec<i64>, x: i64) -> (r: bool)
    ensures
        r == distances@.contains(x),
{
    let mut i: usize = 0;
    while i < distances.len()
        invariant
            i <= distances@.len(),
            forall|j: int| 0 <= j < i ==> distances@[j] != x,
        decreases distances@.len() - i,
    {
        if distances[i] == x {
            return true;
        }
        i = i + 1;
    }
    false
}


/// The element has a logarithm under the group laws.
pub open spec fn anchored<G: KangarooGroup>(anchor: G) -> bool {
    group_laws::<G>() && G::spec_gen_mul(some_dlog(anchor)) == anchor
}

/// `k` is the key of `(+-a + d) * G` for the logarithm `a` of `anchor`
/// (one of the two signs).
pub open spec fn walk_key<G: KangarooGroup>(anchor: G, d: int, k: u128) -> bool {
    anchored(anchor) ==> (G::spec_gen_mul(some_dlog(anchor) + d).spec_key() == k
        || G::spec_gen_mul(-some_dlog(anchor) + d).spec_key() == k)
}

/// `d` has the parity of the walk.
pub open spec fn parity_ok(parity: Parity, d: int) -> bool {
    match parity {
        Parity::EVEN => d % 2 == 0,
        Parity::ODD => d % 2 == 1,
    }
}

/// A distance within the range of the walks.
pub open spec fn walk_distance_ok(d: int) -> bool {
    -MAX_WALK_DISTANCE <= d <= MAX_WALK_DISTANCE
}

/// Every distance stored in the map is within the range of the walks.
pub open spec fn map_bounded(m: Map<u128, (Type, i64)>) -> bool {
    forall|k: u128| #[trigger] m.contains_key(k) ==> walk_distance_ok(m[k].1 as int)
}

/// An entry stored at key `k` by a walk of kind `typ` from `anchor` with
/// distances of parity `parity`.
pub open spec fn entry_from<G: KangarooGroup>(
    typ: Type,
    anchor: G,
    parity: Parity,
    e: (Type, i64),
    k: u128,
) -> bool {
    &&& e.0 == typ
    &&& walk_key(anchor, e.1 as int, k)
    &&& walk_distance_ok(e.1 as int)
    &&& parity_ok(parity, e.1 as int)
}

/// `new` keeps every key of `old`, and each entry of `new` is either the
/// entry of `old` or one stored by the walk (`typ`, `anchor`, `parity`).
pub open spec fn dp_extends<G: KangarooGroup>(
    old: Map<u128, (Type, i64)>,
    new: Map<u128, (Type, i64)>,
    typ: Type,
    anchor: G,
    parity: Parity,
) -> bool {
    &&& forall|k: u128| #[trigger] old.contains_key(k) ==> new.contains_key(k)
    &&& forall|k: u128| #[trigger]
        new.contains_key(k) ==> (old.contains_key(k) && new[k] == old[k]) || entry_from(
            typ,
            anchor,
            parity,
            new[k],
            k,
        )
}

/// `dp_extends` is transitive.
pub proof fn lemma_dp_extends_trans<G: KangarooGroup>(
    a: Map<u128, (Type, i64)>,
    b: Map<u128, (Type, i64)>,
    c: Map<u128, (Type, i64)>,
    typ: Type,
    anchor: G,
    parity: Parity,
)
    requires
        dp_extends(a, b, typ, anchor, parity),
        dp_extends(b, c, typ, anchor, parity),
    ensures
        dp_extends(a, c, typ, anchor, parity),
{
    assert forall|k: u128| #[trigger]
        c.contains_key(k) implies (a.contains_key(k) && c[k] == a[k]) || entry_from(
        typ,
        anchor,
        parity,
        c[k],
        k,
    ) by {
        if !entry_from(typ, anchor, parity, c[k], k) {
            assert(b.contains_key(k) && c[k] == b[k]);
        }
    }
}

/// What a walk of kind `typ` at distance `d` learns from the entry `e` it
/// meets: `+-x` for a tame-wild or wild-tame pair, twice it for two wild
/// walks at different distances.
pub open spec fn collision_value(typ: Type, d: int, e: (Type, i64)) -> Option<int> {
    if typ == Type::TAME && e.0 == Type::WILD {
        Some(d - e.1)
    } else if typ == Type::WILD && e.0 == Type::TAME {
        Some(e.1 - d)
    } else if typ == Type::WILD && e.0 == Type::WILD && d != e.1 && d != -e.1 {
        Some(crate::dlp::half_toward_zero(d - e.1))
    } else {
        None
    }
}

/// A walk (`typ`, `anchor`, `parity`) at some distance `d` has met an
/// entry of `m` at the key of its point, and `v` is what the pair gives.
pub open spec fn met<G: KangarooGroup>(
    m: Map<u128, (Type, i64)>,
    typ: Type,
    anchor: G,
    parity: Parity,
    v: int,
) -> bool {
    exists|k: u128, d: int|
        #![trigger m[k], walk_key(anchor, d, k)]
        m.contains_key(k) && walk_key(anchor, d, k) && walk_distance_ok(d) && parity_ok(parity, d)
            && collision_value(typ, d, m[k]) == Some(v)
}

/// After a move to `q` at distance `nd`, the walk stands at `(p, d)`: `q`
/// itself when it represents its class, else `-q` at distance `-nd`.
pub open spec fn moved_to<G: KangarooGroup>(q: G, nd: int, p: G, d: int) -> bool {
    if q.spec_is_negation_map_representative() {
        p == q && d == nd
    } else {
        p == q.spec_neg() && d == -nd
    }
}

/// What the entry stored at `k` gives a walk of kind `typ` at distance `d`:
/// nothing when there is none or the pair is of no use.
pub open spec fn dp_hit(m: Map<u128, (Type, i64)>, k: u128, typ: Type, d: int) -> Option<int> {
    if m.contains_key(k) {
        collision_value(typ, d, m[k])
    } else {
        None
    }
}

/// The largest entry of `s` (`0` for none).
pub open spec fn seq_max(s: Seq<i64>) -> int
    decreases s.len(),
{
    if s.len() == 0 {
        0
    } else {
        let m = seq_max(s.drop_last());
        if s.last() > m {
            s.last() as int
        } else {
            m
        }
    }
}

/// Every entry of `s` is at most `seq_max(s)`.
pub proof fn lemma_seq_max_ge(s: Seq<i64>, i: int)
    requires
        0 <= i < s.len(),
    ensures
        s[i] <= seq_max(s),
    decreases s.len(),
{
    if i < s.len() - 1 {
        lemma_seq_max_ge(s.drop_last(), i);
        assert(s.drop_last()[i] == s[i]);
    }
}

/// The largest jump of the parameters, the escape jump included.
pub open spec fn max_jump<G: KangarooGroup>(params: Params<G>) -> int {
    if params.spec_escape_distance() > seq_max(params.spec_distances()) {
        params.spec_escape_distance() as int
    } else {
        seq_max(params.spec_distances())
    }
}

/// Two jumps away at most `j` each: `|d2| <= |d| + j` after `|d| <= b + s j`
/// gives `|d2| <= b + (s + 1) j`.
proof fn lemma_spread_step(d: int, d2: int, b: int, s: int, j: int)
    requires
        abs_int(d2) <= abs_int(d) + j,
        abs_int(d) <= b + s * j,
    ensures
        abs_int(d2) <= b + (s + 1) * j,
{
    assert((s + 1) * j == s * j + j) by (nonlinear_arith);
}

/// Every jump of the parameters, the escape jump included, is at most `j`.
pub open spec fn jumps_at_most<G: KangarooGroup>(params: Params<G>, j: int) -> bool {
    &&& forall|i: int|
        0 <= i < params.spec_distances().len() ==> #[trigger] params.spec_distances()[i] <= j
    &&& params.spec_escape_distance() <= j
}

/// One walk over classes `{P, -P}`.
struct InnerWalk<G: KangarooGroup> {
    params: Params<G>,
    typ: Type,
    parity: Parity,
    anchor: G,
    bound: i64,
    d: i64,
    p: G,
    positive: Ghost<bool>,
}

impl<G: KangarooGroup> InnerWalk<G> {
    /// The walk's state is consistent: the point is `(+-a + d) * G` for the
    /// logarithm `a` of the anchor.
    spec fn inv(&self) -> bool {
        &&& self.params.wf()
        &&& 0 < self.bound <= MAX_WALK_DISTANCE
        &&& walk_distance_ok(self.d as int)
        &&& parity_ok(self.parity, self.d as int)
        &&& anchored(self.anchor) ==> self.p == G::spec_gen_mul(
            pm(self.positive@, some_dlog(self.anchor)) + self.d,
        )
    }

    /// The bucket of the current point.
    spec fn bucket_index(&self) -> int {
        self.p.spec_bucket(self.params.spec_buckets_bits()) as int
    }

    /// The distance of the jump of the current point's bucket.
    spec fn step_jump(&self) -> int {
        self.params.spec_distances()[self.bucket_index()] as int
    }

    /// The walk restarted: it stands at the representative of
    /// `anchor + d G` for some `d` of its parity in `[-bound, bound]`.
    spec fn restarted(&self, old: &Self) -> bool {
        exists|d: int|
            -old.bound <= d <= old.bound && parity_ok(old.parity, d) && #[trigger] moved_to(
                old.anchor.spec_add(signed_gen_mul::<G>(d)),
                d,
                self.p,
                self.d as int,
            )
    }

    /// The walk moved by the jump `(jd, jp)`, before the distinguished-point
    /// check.
    spec fn moved_by(&self, jd: int, jp: G) -> Self {
        let q = self.p.spec_add(jp);
        let nd = self.d + jd;
        InnerWalk {
            p: if q.spec_is_negation_map_representative() {
                q
            } else {
                q.spec_neg()
            },
            d: (if q.spec_is_negation_map_representative() {
                nd
            } else {
                -nd
            }) as i64,
            ..*self
        }
    }

    /// What the distinguished-point check does from this state, with the
    /// table `m` before and `m2` after, the answer `r` and the walk `after`:
    /// an ordinary point changes nothing; a useful collision is reported;
    /// else the point is stored and the walk restarts.
    spec fn dp_outcome(
        &self,
        m: Map<u128, (Type, i64)>,
        m2: Map<u128, (Type, i64)>,
        r: ControlFlow<i64, bool>,
        after: Self,
    ) -> bool {
        if !self.p.spec_is_distinguished(self.params.spec_dp_bits()) {
            r == ControlFlow::<i64, bool>::Continue(false) && after.p == self.p && after.d == self.d
                && m2 == m
        } else {
            match dp_hit(m, self.p.spec_key(), self.typ, self.d as int) {
                Some(v) => r == ControlFlow::<i64, bool>::Break(v as i64) && after.p == self.p
                    && after.d == self.d && m2 == m,
                None => r == ControlFlow::<i64, bool>::Continue(true) && m2 == m.insert(
                    self.p.spec_key(),
                    (self.typ, self.d),
                ) && after.restarted(self),
            }
        }
    }

    /// The walk keeps its kind, anchor, parity, parameters and bound.
    spec fn same_walk(&self, other: &Self) -> bool {
        &&& self.typ == other.typ
        &&& self.anchor == other.anchor
        &&& self.parity == other.parity
        &&& self.bound == other.bound
        &&& self.params == other.params
    }

    fn new(
        params: Params<G>,
        typ: Type,
        anchor: G,
        parity: Parity,
        bound: i64,
        rng: &mut Xoshiro256PlusPlus,
    ) -> (r: Self)
        requires
            params.wf(),
            0 < bound <= MAX_WALK_DISTANCE,
            order_ok::<G>(),
        ensures
            r.inv(),
            r.typ == typ,
            r.anchor == anchor,
            r.parity == parity,
            r.bound == bound,
            r.params == params,
            -bound <= r.d <= bound,
    {
        let mut walk = InnerWalk {
            params,
            typ,
            parity,
            anchor,
            bound,
            d: 0,
            p: G::identity(),
            positive: Ghost(true),
        };
        let ghost w0 = walk;
        walk.reset(rng);
        proof {
            let d = choose|d: int|
                -w0.bound <= d <= w0.bound && parity_ok(w0.parity, d) && #[trigger] moved_to(
                    w0.anchor.spec_add(signed_gen_mul::<G>(d)),
                    d,
                    walk.p,
                    walk.d as int,
                );
        }
        walk
    }

    /// Restarts from `anchor + d G`, `d` of the walk's parity drawn from
    /// `[-bound, bound)`, as the representative of its class.
    fn reset(&mut self, rng: &mut Xoshiro256PlusPlus)
        requires
            old(self).params.wf(),
            0 < old(self).bound <= MAX_WALK_DISTANCE,
            order_ok::<G>(),
        ensures
            final(self).inv(),
            final(self).same_walk(old(self)),
            final(self).restarted(old(self)),
    {
        let d = random_range_i64(rng, -self.bound, self.bound);
        let d = match self.parity {
            Parity::EVEN => d / 2 * 2,
            Parity::ODD => d / 2 * 2 + 1,
        };
        let ghost a = some_dlog(self.anchor);
        let ghost anchor = self.anchor;
        let p = self.anchor.group_add(&generator_scalar_mul_i64::<G>(d));
        proof {
            if anchored(self.anchor) {
                assert(G::spec_gen_mul(a).spec_add(G::spec_gen_mul(d as int)) == G::spec_gen_mul(
                    a + d,
                ));
            }
        }
        if !p.is_negation_map_representative() {
            proof {
                if anchored(self.anchor) {
                    assert(G::spec_gen_mul(a + d).spec_neg() == G::spec_gen_mul(-(a + d)));
                    assert(-(a + d) == -a + (-d));
                }
            }
            self.d = -d;
            self.p = p.group_neg();
            self.positive = Ghost(false);
        } else {
            self.d = d;
            self.p = p;
            self.positive = Ghost(true);
        }
        assert(moved_to(anchor.spec_add(signed_gen_mul::<G>(d as int)), d as int, self.p, self.d as int));
    }

    /// Moves the point by `(jd, jp)`, `jp == jd * G`, and replaces it by the
    /// representative of its class. `false` when the distance would leave
    /// the range of the walks (the walk is then unchanged).
    fn advance(&mut self, jd: i64, jp: G) -> (moved: bool)
        requires
            old(self).inv(),
            even_jump_in(jd as int, 0x2000_0000_0000_0001),
            group_laws::<G>() ==> jp == G::spec_gen_mul(jd as int),
        ensures
            final(self).inv(),
            final(self).same_walk(old(self)),
            !moved ==> *final(self) == *old(self),
            moved == (old(self).d + jd <= MAX_WALK_DISTANCE),
            moved ==> moved_to(old(self).p.spec_add(jp), old(self).d + jd, final(self).p, final(self).d as int),
    {
        let nd = self.d + jd;
        if nd > MAX_WALK_DISTANCE {
            return false;
        }
        let ghost a = pm(self.positive@, some_dlog(self.anchor));
        proof {
            if anchored(self.anchor) {
                assert(G::spec_gen_mul(a + self.d).spec_add(G::spec_gen_mul(jd as int))
                    == G::spec_gen_mul(a + self.d + jd));
            }
        }
        self.d = nd;
        self.p = self.p.group_add(&jp);
        if !self.p.is_negation_map_representative() {
            proof {
                if anchored(self.anchor) {
                    assert(G::spec_gen_mul(a + nd).spec_neg() == G::spec_gen_mul(-(a + nd)));
                    assert(-(a + nd) == pm(!self.positive@, some_dlog(self.anchor)) + (-nd));
                }
            }
            self.d = -self.d;
            self.p = self.p.group_neg();
            self.positive = Ghost(!self.positive@);
        }
        true
    }

    /// After a move: if the point is distinguished, looks it up, reports a
    /// useful collision, or stores the point and restarts.
    fn check_distinguished(
        &mut self,
        dp_map: &mut HashMap<u128, (Type, i64)>,
        rng: &mut Xoshiro256PlusPlus,
    ) -> (r: ControlFlow<i64, bool>)
        requires
            old(self).inv(),
            order_ok::<G>(),
            map_bounded(old(dp_map)@),
        ensures
            final(self).inv(),
            final(self).same_walk(old(self)),
            map_bounded(final(dp_map)@),
            dp_extends(old(dp_map)@, final(dp_map)@, old(self).typ, old(self).anchor, old(self).parity),
            r matches ControlFlow::Break(v) ==> met(
                final(dp_map)@,
                old(self).typ,
                old(self).anchor,
                old(self).parity,
                v as int,
            ),
            r matches ControlFlow::Continue(stored) ==> (!stored ==> *final(self) == *old(self)
                && final(dp_map)@ == old(dp_map)@),
            old(self).dp_outcome(old(dp_map)@, final(dp_map)@, r, *final(self)),
    {
        if self.p.is_distinguished(self.params.dp_bits) {
            let key = self.p.key();
            let ghost k = key;
            proof {
                if anchored(self.anchor) {
                    if self.positive@ {
                        assert(G::spec_gen_mul(some_dlog(self.anchor) + self.d).spec_key() == k);
                    } else {
                        assert(G::spec_gen_mul(-some_dlog(self.anchor) + self.d).spec_key() == k);
                    }
                }
                assert(walk_key(self.anchor, self.d as int, k));
            }
            match dp_map.get(&key) {
                Some(found) => {
                    let (typ2, d2) = *found;
                    proof {
                        assert(dp_map@[k] == (typ2, d2));
                    }
                    if self.typ == Type::TAME && typ2 == Type::WILD {
                        assert(collision_value(self.typ, self.d as int, dp_map@[k]) == Some(
                            self.d - d2,
                        ));
                        return ControlFlow::Break(self.d - d2);
                    }
                    if self.typ == Type::WILD && typ2 == Type::TAME {
                        assert(collision_value(self.typ, self.d as int, dp_map@[k]) == Some(
                            d2 - self.d,
                        ));
                        return ControlFlow::Break(d2 - self.d);
                    }
                    if self.typ == Type::WILD && typ2 == Type::WILD && self.d != d2 && self.d != -d2 {
                        let v = (self.d - d2) / 2;
                        assert(collision_value(self.typ, self.d as int, dp_map@[k]) == Some(
                            v as int,
                        ));
                        return ControlFlow::Break(v);
                    }
                },
                None => {},
            }
            dp_map.insert(key, (self.typ, self.d));
            self.reset(rng);
            return ControlFlow::Continue(true);
        }
        ControlFlow::Continue(false)
    }

    /// One step with the jump of the point's bucket. `None` when the
    /// distance would leave the range of the walks.
    fn step(
        &mut self,
        dp_map: &mut HashMap<u128, (Type, i64)>,
        rng: &mut Xoshiro256PlusPlus,
    ) -> (r: Option<ControlFlow<i64, bool>>)
        requires
            old(self).inv(),
            order_ok::<G>(),
            map_bounded(old(dp_map)@),
        ensures
            old(self).bucket_index() < old(self).params.spec_distances().len(),
            r is None <==> old(self).d + old(self).step_jump() > MAX_WALK_DISTANCE,
            r is None ==> *final(self) == *old(self) && final(dp_map)@ == old(dp_map)@,
            r matches Some(ControlFlow::Continue(stored)) ==> (!stored ==> moved_to(
                old(self).p.spec_add(old(self).params.spec_elements()[old(self).bucket_index()]),
                old(self).d + old(self).step_jump(),
                final(self).p,
                final(self).d as int,
            )),
            r matches Some(cf) ==> old(self).moved_by(
                old(self).step_jump(),
                old(self).params.spec_elements()[old(self).bucket_index()],
            ).dp_outcome(old(dp_map)@, final(dp_map)@, cf, *final(self)),
            final(self).inv(),
            final(self).same_walk(old(self)),
            map_bounded(final(dp_map)@),
            dp_extends(old(dp_map)@, final(dp_map)@, old(self).typ, old(self).anchor, old(self).parity),
            r matches Some(ControlFlow::Break(v)) ==> met(
                final(dp_map)@,
                old(self).typ,
                old(self).anchor,
                old(self).parity,
                v as int,
            ),
    {
        let b = self.p.bucket(self.params.buckets_bits);
        let jump_d = self.params.jump_table_distances[b];
        let jump_p = self.params.jump_table_elements[b];
        let ghost w0 = *self;
        if !self.advance(jump_d, jump_p) {
            return None;
        }
        let ghost moved = w0.moved_by(jump_d as int, jump_p);
        let ghost w1 = *self;
        let ghost m0 = dp_map@;
        let cf = self.check_distinguished(dp_map, rng);
        proof {
            lemma_dp_outcome_same(w1, moved, m0, dp_map@, cf, *self);
        }
        Some(cf)
    }

    /// One step with the escape jump. `None` when the distance would leave
    /// the range of the walks.
    fn escape(
        &mut self,
        dp_map: &mut HashMap<u128, (Type, i64)>,
        rng: &mut Xoshiro256PlusPlus,
    ) -> (r: Option<ControlFlow<i64, bool>>)
        requires
            old(self).inv(),
            order_ok::<G>(),
            map_bounded(old(dp_map)@),
        ensures
            r is None <==> old(self).d + old(self).params.spec_escape_distance() > MAX_WALK_DISTANCE,
            r is None ==> *final(self) == *old(self) && final(dp_map)@ == old(dp_map)@,
            r matches Some(ControlFlow::Continue(stored)) ==> (!stored ==> moved_to(
                old(self).p.spec_add(old(self).params.spec_escape_element()),
                old(self).d + old(self).params.spec_escape_distance(),
                final(self).p,
                final(self).d as int,
            )),
            r matches Some(cf) ==> old(self).moved_by(
                old(self).params.spec_escape_distance() as int,
                old(self).params.spec_escape_element(),
            ).dp_outcome(old(dp_map)@, final(dp_map)@, cf, *final(self)),
            final(self).inv(),
            final(self).same_walk(old(self)),
            map_bounded(final(dp_map)@),
            dp_extends(old(dp_map)@, final(dp_map)@, old(self).typ, old(self).anchor, old(self).parity),
            r matches Some(ControlFlow::Break(v)) ==> met(
                final(dp_map)@,
                old(self).typ,
                old(self).anchor,
                old(self).parity,
                v as int,
            ),
    {
        let jump_d = self.params.escape_distance;
        let jump_p = self.params.escape_element;
        let ghost w0 = *self;
        if !self.advance(jump_d, jump_p) {
            return None;
        }
        let ghost moved = w0.moved_by(jump_d as int, jump_p);
        let ghost w1 = *self;
        let ghost m0 = dp_map@;
        let cf = self.check_distinguished(dp_map, rng);
        proof {
            lemma_dp_outcome_same(w1, moved, m0, dp_map@, cf, *self);
        }
        Some(cf)
    }
}


/// Two states of one walk at the same point and distance have the same
/// distinguished-point outcome.
proof fn lemma_dp_outcome_same<G: KangarooGroup>(
    a: InnerWalk<G>,
    b: InnerWalk<G>,
    m: Map<u128, (Type, i64)>,
    m2: Map<u128, (Type, i64)>,
    r: ControlFlow<i64, bool>,
    after: InnerWalk<G>,
)
    requires
        a.p == b.p,
        a.d == b.d,
        a.same_walk(&b),
        a.dp_outcome(m, m2, r, after),
    ensures
        b.dp_outcome(m, m2, r, after),
{
    if a.p.spec_is_distinguished(a.params.spec_dp_bits()) {
        if dp_hit(m, a.p.spec_key(), a.typ, a.d as int) is None {
            let d = choose|d: int|
                -a.bound <= d <= a.bound && parity_ok(a.parity, d) && #[trigger] moved_to(
                    a.anchor.spec_add(signed_gen_mul::<G>(d)),
                    d,
                    after.p,
                    after.d as int,
                );
            assert(after.restarted(&b));
        }
    }
}

/// A walk that restarted stands within its bound.
proof fn lemma_restarted_bound<G: KangarooGroup>(w: InnerWalk<G>, old: InnerWalk<G>)
    requires
        w.restarted(&old),
    ensures
        abs_int(w.d as int) <= old.bound,
{
    let d = choose|d: int|
        -old.bound <= d <= old.bound && parity_ok(old.parity, d) && #[trigger] moved_to(
            old.anchor.spec_add(signed_gen_mul::<G>(d)),
            d,
            w.p,
            w.d as int,
        );
}

/// A step by a jump of at most `jm` keeps the walk within `bound + s jm`
/// one step further, or puts it back within `bound` when it restarts.
proof fn lemma_step_spread<G: KangarooGroup>(
    w0: InnerWalk<G>,
    jd: int,
    jp: G,
    w1: InnerWalk<G>,
    m: Map<u128, (Type, i64)>,
    m2: Map<u128, (Type, i64)>,
    cf: ControlFlow<i64, bool>,
    s: int,
    jm: int,
)
    requires
        w0.moved_by(jd, jp).dp_outcome(m, m2, cf, w1),
        0 <= jd <= jm,
        jd <= 0x2000_0000_0000_0000,
        walk_distance_ok(w0.d as int),
        abs_int(w0.d as int) <= w0.bound + s * jm,
    ensures
        cf == ControlFlow::<i64, bool>::Continue(false) ==> abs_int(w1.d as int) <= w0.bound + (s
            + 1) * jm,
        cf == ControlFlow::<i64, bool>::Continue(true) ==> abs_int(w1.d as int) <= w0.bound,
{
    let mv = w0.moved_by(jd, jp);
    assert(abs_int(mv.d as int) <= abs_int(w0.d as int) + jm);
    if cf == ControlFlow::<i64, bool>::Continue(false) {
        lemma_spread_step(w0.d as int, w1.d as int, w0.bound as int, s, jm);
    }
    if cf == ControlFlow::<i64, bool>::Continue(true) {
        lemma_restarted_bound(w1, mv);
    }
}

/// A walk within its spread, whose parameters leave room for every round,
/// has room for its next round: a round never leaves the range of the walks.
pub proof fn lemma_room_kept<G: KangarooGroup>(w: Walk<G>)
    requires
        w.inv(),
        w.within_spread(),
        w.room_for_rounds(),
    ensures
        w.has_room(),
{
    let params = w.spec_params();
    let jm = max_jump(params);
    assert forall|i: int| 0 <= i < params.spec_distances().len() implies #[trigger] params.spec_distances()[i]
        <= jm by {
        lemma_seq_max_ge(params.spec_distances(), i);
    }
    assert(jumps_at_most(params, jm));
    assert(jm >= 2);
    let st = w.spec_steps() as int;
    let ms = params.spec_max_steps() as int;
    assert(st * jm <= (ms + 6) * jm) by (nonlinear_arith)
        requires
            st < ms + 6,
            jm >= 0,
    ;
    assert((ms + 6) * jm + 6 * jm == (ms + 12) * jm) by (nonlinear_arith);
}

/// A walk with its step counters: it restarts after `max_steps` steps
/// without a distinguished point, and every `24` steps looks four steps
/// ahead for a short cycle, which it leaves with the escape jump.
pub struct Walk<G: KangarooGroup> {
    inner: InnerWalk<G>,
    steps_c2: u64,
    max_c2: u64,
    steps: u64,
    moves: Ghost<nat>,
}

impl<G: KangarooGroup> Walk<G> {
    /// The walk's state is consistent.
    pub closed spec fn inv(&self) -> bool {
        &&& self.inner.inv()
        &&& self.max_c2 == 24
        &&& self.steps_c2 < self.max_c2
        &&& self.steps < self.inner.params.spec_max_steps() + 6
    }

    /// The kind of the walk.
    pub closed spec fn spec_typ(&self) -> Type {
        self.inner.typ
    }

    /// The point the walk's distances start from.
    pub closed spec fn spec_anchor(&self) -> G {
        self.inner.anchor
    }

    /// The parity of the walk's distances.
    pub closed spec fn spec_parity(&self) -> Parity {
        self.inner.parity
    }

    /// The distance of the walk's current point from its anchor.
    pub closed spec fn spec_distance(&self) -> i64 {
        self.inner.d
    }

    /// The walk's parameters.
    pub closed spec fn spec_params(&self) -> Params<G> {
        self.inner.params
    }

    /// The first step of a round from this state: the jump of the point's
    /// bucket, then the distinguished-point check, with the table `m`
    /// before and `m2` after, the answer `cf` and the walk `after`.
    pub closed spec fn first_step(
        &self,
        m: Map<u128, (Type, i64)>,
        m2: Map<u128, (Type, i64)>,
        cf: ControlFlow<i64, bool>,
        after: Walk<G>,
    ) -> bool {
        self.inner.moved_by(
            self.inner.step_jump(),
            self.inner.params.spec_elements()[self.inner.bucket_index()],
        ).dp_outcome(m, m2, cf, after.inner)
    }

    /// The start points' bound of the walk.
    pub closed spec fn spec_bound(&self) -> i64 {
        self.inner.bound
    }

    /// The steps since the walk last started afresh.
    pub closed spec fn spec_steps(&self) -> u64 {
        self.steps
    }

    /// The moves the walk has made since it was made: its steps, escape
    /// jumps and restarts, one group operation each.
    pub closed spec fn spec_moves(&self) -> nat {
        self.moves@
    }

    /// The walk is within its spread: since it last started afresh within
    /// `bound` of its anchor, each step moved it by at most the largest
    /// jump, `|d| <= bound + steps * max_jump`.
    pub open spec fn within_spread(&self) -> bool {
        abs_int(self.spec_distance() as int) <= self.spec_bound() + self.spec_steps() * max_jump(
            self.spec_params(),
        )
    }

    /// The walk's parameters leave room for every round: a walk started
    /// within `bound` and restarted after `max_steps` steps never comes
    /// within six jumps of `MAX_WALK_DISTANCE`.
    pub open spec fn room_for_rounds(&self) -> bool {
        self.spec_bound() + (self.spec_params().spec_max_steps() + 12) * max_jump(self.spec_params())
            <= MAX_WALK_DISTANCE
    }

    /// One round of the walk cannot leave the range of the walks: some
    /// bound `j` on every jump of the table and on the escape jump leaves
    /// room for six jumps, `|d| + 6 j <= MAX_WALK_DISTANCE`.
    pub open spec fn has_room(&self) -> bool {
        exists|j: int|
            #![trigger jumps_at_most(self.spec_params(), j)]
            jumps_at_most(self.spec_params(), j) && abs_int(self.spec_distance() as int) + 6 * j
                <= MAX_WALK_DISTANCE
    }

    /// A walk of kind `typ` from `anchor`, with distances of parity
    /// `parity` and start points `anchor + d G`, `d` from `[-bound, bound)`.
    pub fn new(
        params: Params<G>,
        typ: Type,
        parity: Parity,
        anchor: G,
        bound: i64,
        rng: &mut Xoshiro256PlusPlus,
    ) -> (r: Self)
        requires
            params.wf(),
            0 < bound <= MAX_WALK_DISTANCE,
            order_ok::<G>(),
        ensures
            r.inv(),
            r.spec_typ() == typ,
            r.spec_anchor() == anchor,
            r.spec_parity() == parity,
            r.spec_params() == params,
            r.spec_bound() == bound,
            r.within_spread(),
            r.spec_moves() == 0,
            abs_int(r.spec_distance() as int) <= bound,
            forall|j: int|
                #[trigger] jumps_at_most(params, j) && bound + 6 * j <= MAX_WALK_DISTANCE
                    ==> r.has_room(),
    {
        let inner = InnerWalk::new(params, typ, anchor, parity, bound, rng);
        let w = Walk { inner, steps_c2: 0, max_c2: 24, steps: 0, moves: Ghost(0) };
        proof {
            assert forall|j: int|
                #[trigger] jumps_at_most(params, j) && bound + 6 * j <= MAX_WALK_DISTANCE implies w.has_room() by {
                assert(jumps_at_most(w.spec_params(), j));
            }
        }
        w
    }

    /// One round of the walk: a step, then a restart after too many steps
    /// or, every `24` steps, up to four more steps looking for a cycle.
    /// `Continue(ops)` with the group operations spent, `Break((v, ops))`
    /// when the walk met an entry that gives `v`. `None` when a distance
    /// would leave the range of the walks.
    pub fn walk(
        &mut self,
        dp_map: &mut HashMap<u128, (Type, i64)>,
        rng: &mut Xoshiro256PlusPlus,
    ) -> (r: Option<ControlFlow<(i64, u64), u64>>)
        requires
            old(self).inv(),
            order_ok::<G>(),
            map_bounded(old(dp_map)@),
        ensures
            final(self).inv(),
            final(self).spec_typ() == old(self).spec_typ(),
            final(self).spec_anchor() == old(self).spec_anchor(),
            final(self).spec_parity() == old(self).spec_parity(),
            map_bounded(final(dp_map)@),
            dp_extends(
                old(dp_map)@,
                final(dp_map)@,
                old(self).spec_typ(),
                old(self).spec_anchor(),
                old(self).spec_parity(),
            ),
            old(self).has_room() ==> r is Some,
            old(self).within_spread() ==> (r matches Some(ControlFlow::Continue(_))
                ==> final(self).within_spread()),
            final(self).spec_params() == old(self).spec_params(),
            final(self).spec_bound() == old(self).spec_bound(),
            r matches Some(ControlFlow::Break(_)) ==> final(dp_map)@ == old(dp_map)@,
            r matches Some(ControlFlow::Continue(_)) ==> final(dp_map)@ == old(dp_map)@ || exists|
                k: u128,
                e: (Type, i64),
            | final(dp_map)@ == old(dp_map)@.insert(k, e),
            r matches Some(ControlFlow::Break((v, ops))) ==> (ops == 1 ==> old(self).first_step(
                old(dp_map)@,
                final(dp_map)@,
                ControlFlow::Break(v),
                *final(self),
            )),
            r matches Some(ControlFlow::Continue(ops)) ==> (ops == 1 ==> exists|stored: bool|
                old(self).first_step(
                    old(dp_map)@,
                    final(dp_map)@,
                    ControlFlow::Continue(stored),
                    *final(self),
                )),
            r matches Some(ControlFlow::Continue(ops)) ==> 1 <= ops <= 6,
            r matches Some(ControlFlow::Continue(ops)) ==> final(self).spec_moves() == old(
                self,
            ).spec_moves() + ops,
            r matches Some(ControlFlow::Break((_, ops))) ==> final(self).spec_moves() == old(
                self,
            ).spec_moves() + ops,
            r matches Some(ControlFlow::Break((v, ops))) ==> 1 <= ops <= 6 && met(
                final(dp_map)@,
                old(self).spec_typ(),
                old(self).spec_anchor(),
                old(self).spec_parity(),
                v as int,
            ),
    {
        let ghost typ = self.inner.typ;
        let ghost anchor = self.inner.anchor;
        let ghost parity = self.inner.parity;
        let ghost map0 = dp_map@;
        let ghost room = self.has_room();
        let ghost j = choose|j: int|
            #![trigger jumps_at_most(self.spec_params(), j)]
            jumps_at_most(self.spec_params(), j) && abs_int(self.spec_distance() as int) + 6 * j
                <= MAX_WALK_DISTANCE;
        let ghost params0 = self.inner.params;
        proof {
            if room {
                assert(j >= self.inner.params.spec_escape_distance());
            }
        }
        let ghost w0 = self.inner;
        let ghost spread = self.within_spread();
        let ghost jm = max_jump(params0);
        let ghost steps0 = self.steps;
        let ghost moves0 = self.moves@;
        let mut ops: u64 = 1;
        let ghost mut s1: bool = false;
        let ghost w_old = *self;
        let first = self.inner.step(dp_map, rng);
        self.moves = Ghost(self.moves@ + 1);
        proof {
            if room {
                assert(w0.step_jump() <= j);
                assert(first matches Some(ControlFlow::Continue(stored)) ==> (!stored ==> abs_int(
                    self.inner.d as int,
                ) <= abs_int(w0.d as int) + j));
            }
        }
        match first? {
            ControlFlow::Break(v) => {
                return Some(ControlFlow::Break((v, ops)));
            },
            ControlFlow::Continue(stored) => {
                proof {
                    s1 = stored;
                    lemma_seq_max_ge(params0.spec_distances(), w0.bucket_index());
                    if spread {
                        lemma_step_spread(
                            w0,
                            w0.step_jump(),
                            params0.spec_elements()[w0.bucket_index()],
                            self.inner,
                            map0,
                            dp_map@,
                            ControlFlow::Continue(stored),
                            steps0 as int,
                            jm,
                        );
                    }
                }
                if stored {
                    self.steps_c2 = 0;
                    self.steps = 0;
                } else {
                    self.steps_c2 = self.steps_c2 + 1;
                    self.steps = self.steps + 1;
                }
            },
        }
        assert(spread ==> abs_int(self.inner.d as int) <= self.inner.bound + self.steps * jm);

        if self.steps >= self.inner.params.max_steps {
            ops = ops + 1;
            let ghost before_reset = self.inner;
            self.inner.reset(rng);
            self.moves = Ghost(self.moves@ + 1);
            proof {
                lemma_restarted_bound(self.inner, before_reset);
            }
            self.steps_c2 = 0;
            self.steps = 0;
            return Some(ControlFlow::Continue(ops));
        }

        if self.steps_c2 >= self.max_c2 {
            self.steps_c2 = 0;
            let mut footprint = self.inner.p.footprint();
            let mut round: u32 = 1;
            while round <= 4
                invariant
                    1 <= round <= 5,
                    ops == round,
                    self.moves@ == moves0 + ops,
                    moves0 == old(self).spec_moves(),
                    self.inner.inv(),
                    self.inner.typ == typ,
                    self.inner.anchor == anchor,
                    self.inner.parity == parity,
                    self.max_c2 == 24,
                    self.steps_c2 == 0,
                    self.steps < self.inner.params.spec_max_steps() + round,
                    order_ok::<G>(),
                    map_bounded(dp_map@),
                    dp_extends(map0, dp_map@, typ, anchor, parity),
                    typ == old(self).spec_typ(),
                    anchor == old(self).spec_anchor(),
                    parity == old(self).spec_parity(),
                    map0 == old(dp_map)@,
                    self.inner.params == params0,
                    room ==> jumps_at_most(params0, j),
                    room ==> abs_int(self.inner.d as int) + (6 - round) * j <= MAX_WALK_DISTANCE,
                    room ==> j >= 2,
                    room == old(self).has_room(),
                    dp_map@ == map0,
                    spread == old(self).within_spread(),
                    jm == max_jump(params0),
                    self.inner.bound == w0.bound,
                    params0 == old(self).spec_params(),
                    w0.bound == old(self).spec_bound(),
                    spread ==> abs_int(self.inner.d as int) <= self.inner.bound + self.steps * jm,
                decreases 5 - round,
            {
                proof {
                    if room {
                        assert((6 - round) * j == 2 * j + (4 - round) * j) by (nonlinear_arith);
                        assert((4 - round) * j >= 0) by (nonlinear_arith)
                            requires
                                round <= 4,
                                j >= 2,
                        ;
                    }
                }
                ops = ops + 1;
                let ghost steps1 = self.steps;
                self.steps = self.steps + 1;
                let ghost map1 = dp_map@;
                let ghost w1 = self.inner;
                let stepped = self.inner.step(dp_map, rng);
                self.moves = Ghost(self.moves@ + 1);
                proof {
                    lemma_dp_extends_trans(map0, map1, dp_map@, typ, anchor, parity);
                    if room {
                        assert(w1.step_jump() <= j);
                        assert(stepped matches Some(ControlFlow::Continue(stored)) ==> (!stored ==> abs_int(
                            self.inner.d as int,
                        ) <= abs_int(w1.d as int) + j));
                    }
                }
                match stepped? {
                    ControlFlow::Break(v) => {
                        return Some(ControlFlow::Break((v, ops)));
                    },
                    ControlFlow::Continue(stored) => {
                        proof {
                            lemma_seq_max_ge(params0.spec_distances(), w1.bucket_index());
                            if spread {
                                lemma_step_spread(
                                    w1,
                                    w1.step_jump(),
                                    params0.spec_elements()[w1.bucket_index()],
                                    self.inner,
                                    map1,
                                    dp_map@,
                                    ControlFlow::Continue(stored),
                                    steps1 as int,
                                    jm,
                                );
                            }
                        }
                        if stored {
                            self.steps = 0;
                            return Some(ControlFlow::Continue(ops));
                        }
                    },
                }
                if self.inner.p.footprint() == footprint {
                    // a cycle: leave it with the escape jump
                    ops = ops + 1;
                    let ghost steps2 = self.steps;
                    self.steps = self.steps + 1;
                    let ghost map2 = dp_map@;
                    let ghost w2 = self.inner;
                    let escaped = self.inner.escape(dp_map, rng);
                    self.moves = Ghost(self.moves@ + 1);
                    proof {
                        lemma_dp_extends_trans(map0, map2, dp_map@, typ, anchor, parity);
                    }
                    match escaped? {
                        ControlFlow::Break(v) => {
                            return Some(ControlFlow::Break((v, ops)));
                        },
                        ControlFlow::Continue(stored) => {
                            proof {
                                if spread {
                                    lemma_step_spread(
                                        w2,
                                        params0.spec_escape_distance() as int,
                                        params0.spec_escape_element(),
                                        self.inner,
                                        map2,
                                        dp_map@,
                                        ControlFlow::Continue(stored),
                                        steps2 as int,
                                        jm,
                                    );
                                }
                            }
                            if stored {
                                self.steps = 0;
                            }
                        },
                    }
                    return Some(ControlFlow::Continue(ops));
                }
                let current = self.inner.p.footprint();
                if current < footprint {
                    footprint = current;
                }
                proof {
                    assert((6 - (round + 1)) * j == (6 - round) * j - j) by (nonlinear_arith);
                }
                round = round + 1;
            }
        }
        proof {
            if ops == 1 {
                assert(w_old.first_step(map0, dp_map@, ControlFlow::Continue(s1), *self));
            }
        }
        Some(ControlFlow::Continue(ops))
    }
}

} // verus!
