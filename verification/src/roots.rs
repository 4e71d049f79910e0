use vstd::prelude::*;
use crate::modular::{power_mod, inv_mod, power_mod_spec, inv_mod_spec, power_mod_fits};

verus! {

/// Returns the table whose entry `i` is `(i + 1)^(modulus - 2) mod modulus`
/// for `i < n`.
pub fn get_roots(n: u64, modulus: u64) -> (roots: Vec<u64>)
    requires
        n <= usize::MAX,
        n == 0 || modulus >= 2,
        forall|i: int|
            0 <= i < n ==> #[trigger] power_mod_fits(
                i + 1,
                (modulus - 2) as nat,
                modulus as int,
            ),
    ensures
        roots@.len() == n,
        forall|i: int|
            0 <= i < n ==> roots@[i] == power_mod_spec(
                i + 1,
                (modulus - 2) as nat,
                modulus as int,
            ),
{
    let len: usize = n as usize;
    let mut roots: Vec<u64> = Vec::new();
    let mut i: usize = 0;
    while i < len
        invariant
            len == n,
            i <= len,
            len > 0 ==> modulus >= 2,
            forall|k: int|
                0 <= k < n ==> #[trigger] power_mod_fits(
                    k + 1,
                    (modulus - 2) as nat,
                    modulus as int,
                ),
            roots@.len() == i,
            forall|k: int|
                0 <= k < i ==> roots@[k] == power_mod_spec(
                    k + 1,
                    (modulus - 2) as nat,
                    modulus as int,
                ),
        decreases len - i,
    {
        let base: u64 = i as u64 + 1;
        assert(power_mod_fits(i + 1, (modulus - 2) as nat, modulus as int));
        let v: u64 = power_mod(base, modulus - 2, modulus);
        roots.push(v);
        i = i + 1;
    }
    roots
}

/// Returns the table whose entry `i` is the value of `inv_mod` at
/// `(i + 1) mod modulus`, for `i < n`.
pub fn get_inv_roots(n: u64, modulus: u64) -> (roots: Vec<u64>)
    requires
        n <= usize::MAX,
        n == 0 || modulus > 0,
        forall|i: int|
            0 <= i < n ==> #[trigger] ((i + 1) % (modulus as int)) == 0 || (modulus >= 2
                && power_mod_fits((i + 1) % (modulus as int), (modulus - 2) as nat, modulus as int)),
    ensures
        roots@.len() == n,
        forall|i: int|
            0 <= i < n ==> roots@[i] == inv_mod_spec((i + 1) % (modulus as int), modulus as int),
{
    let len: usize = n as usize;
    let mut roots: Vec<u64> = Vec::new();
    let mut i: usize = 0;
    while i < len
        invariant
            len == n,
            i <= len,
            len > 0 ==> modulus > 0,
            forall|k: int|
                0 <= k < n ==> #[trigger] ((k + 1) % (modulus as int)) == 0 || (modulus >= 2
                    && power_mod_fits(
                    (k + 1) % (modulus as int),
                    (modulus - 2) as nat,
                    modulus as int,
                )),
            roots@.len() == i,
            forall|k: int|
                0 <= k < i ==> roots@[k] == inv_mod_spec(
                    (k + 1) % (modulus as int),
                    modulus as int,
                ),
        decreases len - i,
    {
        let a: u64 = (i as u64 + 1) % modulus;
        assert(((i + 1) % (modulus as int)) == 0 || (modulus >= 2 && power_mod_fits(
            (i + 1) % (modulus as int),
            (modulus - 2) as nat,
            modulus as int,
        )));
        let v: u64 = inv_mod(a, modulus);
        roots.push(v);
        i = i + 1;
    }
    roots
}

} // verus!
