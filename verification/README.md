# kangaroo_lab_verified

Interval discrete logarithms: given `Q = x G` with `l <= x < h`, recover `x`
with `O(sqrt(h - l))` group operations, and count those operations.

- `src/group`: the prime fields `2^63 - c`, the toy additive group of order
  `2^63 - 25` and a toy elliptic curve `y^2 = x^3 + 3`, behind the
  `KangarooGroup` trait and its laws.
- `src/dlp`: baby-step giant-step (plain, negation map, interleaved),
  Pollard kangaroo (two and four kangaroos), Gaudry-Schost (three sets,
  classes `{P, -P}`, walks with distinguished points), jump tables.
- `src/dlog`: kangaroo solvers with distinguished points and the sampling
  driver, and the Gaudry-Schost simulation.
- `app/`: the command-line experiment, its statistics and the tunings given
  by real numbers.

Every function in `src/` is verified with Verus against its contract; the
calls into `rand` and `num-integer` are the trusted boundary.
