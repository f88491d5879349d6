//! The integer hash behind the faint canvas weave laid over a painting.
use vstd::prelude::*;

verus! {

/// The 16-bit weave value of pixel (`x`, `y`), coordinates taken modulo 2^32:
/// a multiplicative hash of both coordinates, mixed once more, bits 8 to 23.
pub open spec fn weave_hash(x: u32, y: u32) -> u32 {
    let n0 = x.wrapping_mul(374_761_393u32).wrapping_add(y.wrapping_mul(668_265_263u32));
    let n1 = (n0 ^ (n0 >> 13u32)).wrapping_mul(1_274_126_177u32);
    (n1 >> 8u32) & 0xffffu32
}

/// The weave hash is `n0 = x*374761393 + y*668265263`, then
/// `n1 = (n0 ^ (n0 >> 13)) * 1274126177`, both taken modulo 2^32, and bits 8 to
/// 23 of `n1`: it multiplies and adds modulo 2^32: it wraps, it never
/// saturates or overflows into other bits.
pub proof fn lemma_weave_hash_is_modular(x: u32, y: u32)
    ensures
        ({
            let n0 = (x as int * 374_761_393 + y as int * 668_265_263) % 0x1_0000_0000;
            let a = n0 as u32;
            let n1 = ((a ^ (a >> 13u32)) as int * 1_274_126_177) % 0x1_0000_0000;
            weave_hash(x, y) == ((n1 as u32) >> 8u32) & 0xffffu32
        }),
{
    let m: int = 0x1_0000_0000;
    let xa = x.wrapping_mul(374_761_393u32);
    let yb = y.wrapping_mul(668_265_263u32);
    assert(xa as int == (x as int * 374_761_393) % m);
    assert(yb as int == (y as int * 668_265_263) % m);
    let n0 = xa.wrapping_add(yb);
    assert(n0 as int == (x as int * 374_761_393 + y as int * 668_265_263) % m) by {
        vstd::arithmetic::div_mod::lemma_add_mod_noop(
            x as int * 374_761_393,
            y as int * 668_265_263,
            m,
        );
        vstd::arithmetic::div_mod::lemma_mod_bound(xa as int + yb as int, m);
        if xa as int + yb as int > u32::MAX {
            vstd::arithmetic::div_mod::lemma_mod_sub_multiples_vanish(xa as int + yb as int, m);
            vstd::arithmetic::div_mod::lemma_small_mod((xa as int + yb as int - m) as nat, m as nat);
        } else {
            vstd::arithmetic::div_mod::lemma_small_mod((xa as int + yb as int) as nat, m as nat);
        }
    }
}

/// The weave value of pixel (`x`, `y`): between 0 and 0xffff, so that divided
/// by 0xffff it is a noise value in [0, 1].
pub fn tex_hash(x: usize, y: usize) -> (v: u32)
    ensures
        v == weave_hash(x as u32, y as u32),
        v <= 0xffff,
        ({
            let n0 = ((x as int % 0x1_0000_0000) * 374_761_393 + (y as int % 0x1_0000_0000)
                * 668_265_263) % 0x1_0000_0000;
            let a = n0 as u32;
            let n1 = ((a ^ (a >> 13u32)) as int * 1_274_126_177) % 0x1_0000_0000;
            v == ((n1 as u32) >> 8u32) & 0xffffu32
        }),
{
    proof {
        assert((x as u64) % 0x1_0000_0000u64 == (x as u32) as u64) by (bit_vector);
        assert((y as u64) % 0x1_0000_0000u64 == (y as u32) as u64) by (bit_vector);
        lemma_weave_hash_is_modular(x as u32, y as u32);
    }
    let xs = x as u32;
    let ys = y as u32;
    let n0 = xs.wrapping_mul(374_761_393u32).wrapping_add(ys.wrapping_mul(668_265_263u32));
    let n1 = (n0 ^ (n0 >> 13u32)).wrapping_mul(1_274_126_177u32);
    let v = (n1 >> 8u32) & 0xffffu32;
    assert(((n1 >> 8u32) & 0xffffu32) <= 0xffffu32) by (bit_vector);
    v
}

} // verus!
