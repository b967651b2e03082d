//! Exact integer ratio arithmetic that never leaves `u128`.
use vstd::prelude::*;

verus! {

/// `floor(part * factor / whole)` for `part < whole`, computed without
/// overflow by long multiplication over the bits of `factor`.
pub fn mul_div_floor(part: u128, factor: u64, whole: u128) -> (r: u128)
    requires
        part < whole,
    ensures
        r == (part as int * factor as int) / (whole as int),
{
    let mut q: u128 = 0;
    let mut rem: u128 = 0;
    let mut i: u64 = 64;
    proof {
        assert((factor >> 64u64) == 0) by (bit_vector);
    }
    while i > 0
        invariant
            i <= 64,
            rem < whole,
            part < whole,
            q as int * whole as int + rem as int == part as int * (factor >> i) as int,
            q as int <= (factor >> i) as int,
        decreases i,
    {
        let ghost prev = (factor >> i) as int;
        let ghost q0 = q as int;
        let ghost r0 = rem as int;
        i = i - 1;
        let bit = (factor >> i) & 1;
        proof {
            let j = i;
            assert((factor >> j) == 2 * (factor >> (j + 1) as u64) + ((factor >> j) & 1)) by (bit_vector)
                requires
                    j < 64,
            ;
            assert(((factor >> j) & 1) <= 1) by (bit_vector);
        }
        // doubling: (q, rem) := (2q, 2rem) reduced modulo whole
        if rem >= whole - rem {
            rem = rem - (whole - rem);
            q = 2 * q + 1;
        } else {
            rem = rem + rem;
            q = 2 * q;
        }
        proof {
            assert(q as int * whole as int + rem as int == 2 * (q0 * whole as int + r0)) by (nonlinear_arith)
                requires
                    (q as int == 2 * q0 + 1 && rem as int == 2 * r0 - whole as int) || (q as int == 2
                        * q0 && rem as int == 2 * r0),
            ;
        }
        let ghost q1 = q as int;
        let ghost r1 = rem as int;
        if bit == 1 {
            if rem >= whole - part {
                rem = rem - (whole - part);
                q = q + 1;
            } else {
                rem = rem + part;
            }
        }
        proof {
            assert(q as int * whole as int + rem as int == q1 * whole as int + r1 + bit as int * part as int)
                by (nonlinear_arith)
                requires
                    (bit == 1 && q as int == q1 + 1 && rem as int == r1 + part as int - whole as int)
                        || (bit == 1 && q as int == q1 && rem as int == r1 + part as int) || (bit == 0
                        && q as int == q1 && rem as int == r1),
            ;
            assert(part as int * (factor >> i) as int == 2 * (part as int * prev) + bit as int * part as int)
                by (nonlinear_arith)
                requires
                    (factor >> i) as int == 2 * prev + bit as int,
            ;
            assert(q as int <= (factor >> i) as int) by (nonlinear_arith)
                requires
                    q as int * whole as int + rem as int == part as int * (factor >> i) as int,
                    part < whole,
                    rem >= 0,
                    whole > 0,
            ;
        }
    }
    proof {
        assert((factor >> 0u64) == factor) by (bit_vector);
        vstd::arithmetic::div_mod::lemma_fundamental_div_mod_converse(
            part as int * factor as int,
            whole as int,
            q as int,
            rem as int,
        );
    }
    q
}

} // verus!
