use vstd::prelude::*;

verus! {

/// A 32-bit timer reading.  The hardware counter wraps, so instants only
/// support wraparound-aware comparison.
pub struct InstantShort(u32);

impl View for InstantShort {
    type V = u32;

    closed spec fn view(&self) -> u32 {
        self.0
    }
}

/// The wrapped distance from `a` forward to `b` on the 32-bit circle.
pub open spec fn wrapped_distance(a: u32, b: u32) -> int {
    if b >= a {
        b - a
    } else {
        b - a + 0x1_0000_0000
    }
}

impl InstantShort {
    /// An instant for the raw counter value `t`.
    pub fn new(t: u32) -> (r: InstantShort)
        ensures
            r@ == t,
    {
        InstantShort(t)
    }

    /// Whether `self` lies after `other` on the wrapping 32-bit clock:
    /// the distance forward from `self` to `other` crosses the half-way
    /// point of the circle.
    pub fn after(&self, other: &InstantShort) -> (r: bool)
        ensures
            r == (wrapped_distance(self@, other@) >= 0x8000_0000),
    {
        let d = other.0.wrapping_sub(self.0);
        proof {
            assert((d & 0x8000_0000u32 != 0) == (d >= 0x8000_0000u32)) by (bit_vector);
        }
        d & 0x8000_0000 != 0
    }

    /// The instant `rhs` ticks later, wrapping around.
    pub fn plus_ticks(&self, rhs: u32) -> (r: InstantShort)
        ensures
            wrapped_distance(self@, r@) == rhs || rhs == 0x1_0000_0000 - wrapped_distance(
                r@,
                self@,
            ),
    {
        InstantShort(self.0.wrapping_add(rhs))
    }

    /// The raw counter value.
    pub fn value(&self) -> (r: u32)
        ensures
            r == self@,
    {
        self.0
    }
}

/// A full 64-bit timer reading, wide enough never to wrap in practice.
pub struct InstantFull(u64);

impl View for InstantFull {
    type V = u64;

    closed spec fn view(&self) -> u64 {
        self.0
    }
}

impl InstantFull {
    /// An instant for the raw counter value `t`.
    pub fn new(t: u64) -> (r: InstantFull)
        ensures
            r@ == t,
    {
        InstantFull(t)
    }

    /// The raw counter value.
    pub fn value(&self) -> (r: u64)
        ensures
            r == self@,
    {
        self.0
    }
}

/// The argument pair of the `uptime` reply for a full 64-bit clock
/// reading: the high and low 32-bit halves.
pub fn get_uptime(clock: &InstantFull) -> (r: (u32, u32))
    ensures
        r.0 as int * 0x1_0000_0000 + r.1 as int == clock@,
{
    let c: u64 = clock.value();
    proof {
        assert((c >> 32u64) < 0x1_0000_0000 && (c & 0xFFFF_FFFF) < 0x1_0000_0000 && ((c >> 32u64)
            * 0x1_0000_0000 + (c & 0xFFFF_FFFF) == c)) by (bit_vector);
    }
    (((c >> 32u64) as u32), ((c & 0xFFFF_FFFF) as u32))
}

/// The argument of the `clock` reply for a low 32-bit clock reading.
pub fn get_clock(clock: &InstantShort) -> (r: u32)
    ensures
        r == clock@,
{
    clock.value()
}

} // verus!
