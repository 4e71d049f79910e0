# hexl

Modular arithmetic on 64-bit words, verified with Verus.

- `src/modular.rs`: scalar `multiply_mod`, `power_mod`, `add_mod`, `sub_mod`, `inv_mod`.
- `src/eltwise.rs`: element-wise modular product, sum, difference, reduction and fused multiply-add over slices.
- `src/sums.rs`: modular sums and sums of squares.
- `src/roots.rs`: tables of `(i + 1)^(q - 2) mod q` and of `inv_mod((i + 1) mod q, q)`.
- `src/poly.rs`: cyclic polynomial multiplication modulo `X^n - 1` and `q`.
- `src/number_theory.rs`: primes, Euclid's lemma, the binomial theorem and Fermat's little theorem.
- `src/laws.rs`: properties relating the operations (inverses modulo a prime, round trips, exponent addition, commutativity of the cyclic product).
- `app/lib.rs`: the in-place number-theoretic transforms, which call `incomplete_rexl`.
