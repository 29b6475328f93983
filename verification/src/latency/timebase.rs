use vstd::prelude::*;

verus! {

/// The host's tick-to-nanosecond ratio: nanoseconds = ticks * numer / denom.
pub struct Timebase {
    numer: u64,
    denom: u64,
}

impl Timebase {
    #[verifier::type_invariant]
    spec fn well_formed(self) -> bool {
        0 < self.numer <= u32::MAX && 0 < self.denom <= u32::MAX
    }

    /// The ratio's numerator.
    pub closed spec fn numer_of(self) -> nat {
        self.numer as nat
    }

    /// The ratio's denominator.
    pub closed spec fn denom_of(self) -> nat {
        self.denom as nat
    }

    /// The ratio as the system reports it; a zero in either half (no answer)
    /// falls back to one tick per nanosecond.
    pub fn from_raw(numer: u32, denom: u32) -> (tb: Timebase)
        ensures
            numer == 0 || denom == 0 ==> tb.numer_of() == 1 && tb.denom_of() == 1,
            numer != 0 && denom != 0 ==> tb.numer_of() == numer && tb.denom_of() == denom,
    {
        if numer == 0 || denom == 0 {
            Timebase { numer: 1, denom: 1 }
        } else {
            Timebase { numer: numer as u64, denom: denom as u64 }
        }
    }
}

/// Converts a tick count to nanoseconds: the product is taken in 128 bits,
/// divided, and the quotient kept to its low 64 bits as a signed number.
pub fn mach_to_ns(ticks: u64, tb: &Timebase) -> (ns: i64)
    ensures
        ns == ((ticks as nat * tb.numer_of()) / tb.denom_of()) as i64,
{
    proof {
        use_type_invariant(tb);
    }
    let n = tb.numer;
    let d = tb.denom;
    assert((ticks as nat) * (n as nat) <= u128::MAX) by (nonlinear_arith)
        requires
            ticks <= u64::MAX,
            n <= u32::MAX,
    ;
    let wide: u128 = (ticks as u128) * (n as u128);
    let q: u128 = wide / (d as u128);
    q as i64
}

} // verus!
