use vstd::prelude::*;

use crate::math_error::MathError;

verus! {

/// Number of ticks in one full turn of the default phase ring.
pub const TAU_TICKS_DEFAULT: u16 = 4096;

/// Integer phase ring for additive-only kernels.
#[derive(Debug, Clone, Copy, PartialEq, Eq)]
pub struct PhaseTicks {
    tick: u16,
    tau_ticks: u16,
}

/// What a phase is: a position on a ring of `tau` ticks.
pub struct PhaseTicksView {
    pub tick: nat,
    pub tau: nat,
}

impl View for PhaseTicks {
    type V = PhaseTicksView;

    closed spec fn view(&self) -> PhaseTicksView {
        PhaseTicksView { tick: self.tick as nat, tau: self.tau_ticks as nat }
    }
}

/// Number of single steps forward that lead from `from` to `to` on a ring of `tau` ticks.
pub open spec fn forward_arc(from: int, to: int, tau: int) -> int {
    (to - from) % tau
}

/// The shorter of the two ways round the ring between two positions.
pub open spec fn ring_arc(a: int, b: int, tau: int) -> int {
    let f = forward_arc(a, b, tau);
    let g = forward_arc(b, a, tau);
    if f <= g { f } else { g }
}

impl PhaseTicks {
    /// A phase lies on a ring of at least one tick, strictly below its length.
    #[verifier::type_invariant]
    pub open spec fn wf(self) -> bool {
        self@.tau > 0 && self@.tick < self@.tau
    }

    /// Builds the phase `tick` on a ring of `tau_ticks` ticks, reduced into the ring.
    pub fn new(tick: u16, tau_ticks: u16) -> (r: Result<Self, MathError>)
        ensures
            tau_ticks == 0 ==> r == Err::<Self, MathError>(
                MathError::InvalidConfig("tau_ticks must be > 0"),
            ),
            tau_ticks > 0 ==> (r matches Ok(p) && p@.tick == tick % tau_ticks && p@.tau
                == tau_ticks),
    {
        if tau_ticks == 0 {
            return Err(MathError::InvalidConfig("tau_ticks must be > 0"));
        }
        Ok(Self { tick: tick % tau_ticks, tau_ticks })
    }

    /// The position on the ring.
    pub fn tick(self) -> (t: u16)
        ensures
            t == self@.tick,
            t < self@.tau,
    {
        proof {
            use_type_invariant(self);
        }
        self.tick
    }

    /// The number of ticks in a full turn.
    pub fn tau_ticks(self) -> (t: u16)
        ensures
            t == self@.tau,
            t > 0,
    {
        proof {
            use_type_invariant(self);
        }
        self.tau_ticks
    }

    /// Advances the phase by `delta` single steps, wrapping at the end of the ring.
    pub fn add_ticks(self, delta: u16) -> (r: Self)
        ensures
            r@.tau == self@.tau,
            r@.tick == (self@.tick + delta) % (self@.tau as int),
    {
        proof {
            use_type_invariant(self);
        }
        let tau = self.tau_ticks;
        let mut t = self.tick;
        let mut d = delta;
        while d > 0
            invariant
                0 < tau,
                t < tau,
                (t + d) % (tau as int) == (self.tick + delta) % (tau as int),
            decreases d,
        {
            let ghost before = t + d;
            t = t + 1;
            if t >= tau {
                t = 0;
                proof {
                    vstd::arithmetic::div_mod::lemma_mod_add_multiples_vanish(
                        (t + d - 1) as int,
                        tau as int,
                    );
                }
            }
            d -= 1;
        }
        proof {
            vstd::arithmetic::div_mod::lemma_small_mod(t as nat, tau as nat);
        }
        Self { tick: t, tau_ticks: tau }
    }

    /// Counts single steps from `self` to `target`, one way round the ring.
    fn steps_forward(self, target: u16) -> (n: u16)
        requires
            self.wf(),
            target < self@.tau,
        ensures
            n == forward_arc(self@.tick as int, target as int, self@.tau as int),
    {
        let tau = self.tau_ticks;
        let start = self.tick;
        let mut t = start;
        let mut n = 0u16;
        proof {
            vstd::arithmetic::div_mod::lemma_small_mod(0, tau as nat);
        }
        while t != target
            invariant
                0 < tau,
                t < tau,
                target < tau,
                start < tau,
                n == forward_arc(start as int, t as int, tau as int),
                n + forward_arc(t as int, target as int, tau as int) == forward_arc(
                    start as int,
                    target as int,
                    tau as int,
                ),
            decreases forward_arc(t as int, target as int, tau as int),
        {
            proof {
                lemma_forward_step(start as int, t as int, tau as int);
                lemma_forward_step(start as int, target as int, tau as int);
                lemma_forward_step(t as int, target as int, tau as int);
                lemma_forward_pos(t as int, target as int, tau as int);
                lemma_forward_next(t as int, target as int, tau as int);
                lemma_forward_inc(start as int, t as int, tau as int);
            }
            t = t + 1;
            if t >= tau {
                t = 0;
            }
            n = n + 1;
        }
        n
    }

    /// Counts single steps from `self` to `target`, the other way round the ring.
    fn steps_backward(self, target: u16) -> (n: u16)
        requires
            self.wf(),
            target < self@.tau,
        ensures
            n == forward_arc(target as int, self@.tick as int, self@.tau as int),
    {
        let tau = self.tau_ticks;
        let start = self.tick;
        let mut u = start;
        let mut n = 0u16;
        proof {
            vstd::arithmetic::div_mod::lemma_small_mod(0, tau as nat);
        }
        while u != target
            invariant
                0 < tau,
                u < tau,
                target < tau,
                start < tau,
                n == forward_arc(u as int, start as int, tau as int),
                n + forward_arc(target as int, u as int, tau as int) == forward_arc(
                    target as int,
                    start as int,
                    tau as int,
                ),
            decreases forward_arc(target as int, u as int, tau as int),
        {
            let ghost prev = u;
            proof {
                lemma_forward_step(u as int, start as int, tau as int);
                lemma_forward_step(target as int, start as int, tau as int);
                lemma_forward_pos(target as int, u as int, tau as int);
                lemma_backward_inc(u as int, start as int, tau as int);
            }
            if u == 0 {
                u = tau - 1;
            } else {
                u -= 1;
            }
            proof {
                lemma_forward_step(u as int, start as int, tau as int);
                lemma_forward_pos(target as int, prev as int, tau as int);
                lemma_forward_step(target as int, u as int, tau as int);
                lemma_backward_next(target as int, prev as int, tau as int);
            }
            n = n + 1;
        }
        n
    }

    /// The number of ticks between two phases of one ring, the shorter way round.
    pub fn shortest_arc(self, other: Self) -> (r: Result<u16, MathError>)
        ensures
            self@.tau != other@.tau ==> r == Err::<u16, MathError>(
                MathError::DomainViolation("mismatched tau domain"),
            ),
            self@.tau == other@.tau ==> r == Ok::<u16, MathError>(
                ring_arc(self@.tick as int, other@.tick as int, self@.tau as int) as u16,
            ),
    {
        proof {
            use_type_invariant(self);
            use_type_invariant(other);
        }
        if self.tau_ticks != other.tau_ticks {
            return Err(MathError::DomainViolation("mismatched tau domain"));
        }
        let forward = self.steps_forward(other.tick);
        let backward = self.steps_backward(other.tick);
        if forward <= backward {
            Ok(forward)
        } else {
            Ok(backward)
        }
    }
}

proof fn lemma_forward_step(a: int, b: int, tau: int)
    requires
        0 <= a < tau,
        0 <= b < tau,
    ensures
        0 <= forward_arc(a, b, tau) < tau,
        b >= a ==> forward_arc(a, b, tau) == b - a,
        b < a ==> forward_arc(a, b, tau) == b - a + tau,
{
    if b >= a {
        vstd::arithmetic::div_mod::lemma_small_mod((b - a) as nat, tau as nat);
    } else {
        vstd::arithmetic::div_mod::lemma_mod_add_multiples_vanish(b - a, tau);
        vstd::arithmetic::div_mod::lemma_small_mod((b - a + tau) as nat, tau as nat);
    }
}

proof fn lemma_forward_inc(start: int, t: int, tau: int)
    requires
        0 <= start < tau,
        0 <= t < tau,
        forward_arc(start, t, tau) + 1 < tau,
    ensures
        ({
            let nt = if t + 1 >= tau { 0 } else { t + 1 };
            forward_arc(start, nt, tau) == forward_arc(start, t, tau) + 1
        }),
{
    let nt = if t + 1 >= tau { 0 } else { t + 1 };
    lemma_forward_step(start, t, tau);
    lemma_forward_step(start, nt, tau);
}

proof fn lemma_backward_inc(u: int, start: int, tau: int)
    requires
        0 <= start < tau,
        0 <= u < tau,
        forward_arc(u, start, tau) + 1 < tau,
    ensures
        ({
            let nu = if u == 0 { tau - 1 } else { u - 1 };
            forward_arc(nu, start, tau) == forward_arc(u, start, tau) + 1
        }),
{
    let nu = if u == 0 { tau - 1 } else { u - 1 };
    lemma_forward_step(u, start, tau);
    lemma_forward_step(nu, start, tau);
}

proof fn lemma_forward_pos(a: int, b: int, tau: int)
    requires
        0 <= a < tau,
        0 <= b < tau,
        a != b,
    ensures
        forward_arc(a, b, tau) > 0,
{
    lemma_forward_step(a, b, tau);
}

proof fn lemma_forward_next(t: int, target: int, tau: int)
    requires
        0 <= t < tau,
        0 <= target < tau,
        t != target,
    ensures
        ({
            let nt = if t + 1 >= tau { 0 } else { t + 1 };
            forward_arc(nt, target, tau) == forward_arc(t, target, tau) - 1
        }),
{
    let nt = if t + 1 >= tau { 0 } else { t + 1 };
    lemma_forward_step(t, target, tau);
    lemma_forward_step(nt, target, tau);
}

proof fn lemma_backward_next(target: int, u: int, tau: int)
    requires
        0 <= u < tau,
        0 <= target < tau,
        u != target,
    ensures
        ({
            let nu = if u == 0 { tau - 1 } else { u - 1 };
            forward_arc(target, nu, tau) == forward_arc(target, u, tau) - 1
        }),
{
    let nu = if u == 0 { tau - 1 } else { u - 1 };
    lemma_forward_step(target, u, tau);
    lemma_forward_step(target, nu, tau);
}

/// The distance between two phases does not depend on which of them one starts from.
pub proof fn lemma_shortest_arc_symmetric(a: int, b: int, tau: int)
    requires
        tau > 0,
    ensures
        ring_arc(a, b, tau) == ring_arc(b, a, tau),
{
}

/// Two phases of one ring are never more than half a turn apart, and are zero
/// ticks apart exactly when they coincide.
pub proof fn lemma_shortest_arc_bounds(a: int, b: int, tau: int)
    requires
        0 <= a < tau,
        0 <= b < tau,
    ensures
        0 <= ring_arc(a, b, tau),
        2 * ring_arc(a, b, tau) <= tau,
        ring_arc(a, b, tau) == 0 <==> a == b,
{
    lemma_forward_step(a, b, tau);
    lemma_forward_step(b, a, tau);
}

/// Stepping forward `x` ticks and then `y` ticks lands where stepping `x + y` ticks does.
pub proof fn lemma_add_ticks_composes(tick: int, tau: int, x: int, y: int)
    requires
        tau > 0,
    ensures
        ((tick + x) % tau + y) % tau == (tick + (x + y)) % tau,
{
    vstd::arithmetic::div_mod::lemma_add_mod_noop_right(y, tick + x, tau);
}

/// Integer accumulator that distributes quanta over repeated steps
/// without division in the hot path.
#[derive(Debug, Clone, Copy, PartialEq, Eq)]
pub struct RemainderAccumulator {
    carry: i64,
    slots: i64,
}

/// What an accumulator holds: the quanta carried over, and the slot size.
pub struct AccumulatorView {
    pub carry: int,
    pub slots: int,
}

impl View for RemainderAccumulator {
    type V = AccumulatorView;

    closed spec fn view(&self) -> AccumulatorView {
        AccumulatorView { carry: self.carry as int, slots: self.slots as int }
    }
}

/// What one push hands out of a carried amount `c`: whole slots of a non-negative amount.
pub open spec fn push_output(c: int, slots: int) -> int {
    if c >= 0 {
        c / slots
    } else {
        0
    }
}

/// What one push leaves carried of an amount `c`.
pub open spec fn push_carry(c: int, slots: int) -> int {
    if c >= 0 {
        c % slots
    } else {
        c
    }
}

impl RemainderAccumulator {
    /// The slot size is positive.
    #[verifier::type_invariant]
    pub open spec fn wf(self) -> bool {
        self@.slots > 0
    }

    /// Builds an empty accumulator that hands out one quantum per `slots` pushed.
    pub fn new(slots: i64) -> (r: Result<Self, MathError>)
        ensures
            slots <= 0 ==> r == Err::<Self, MathError>(
                MathError::InvalidConfig("slots must be > 0"),
            ),
            slots > 0 ==> (r matches Ok(a) && a@.carry == 0 && a@.slots == slots),
    {
        if slots <= 0 {
            return Err(MathError::InvalidConfig("slots must be > 0"));
        }
        Ok(Self { carry: 0, slots })
    }

    /// The quanta carried over.
    pub fn carry(self) -> (c: i64)
        ensures
            c == self@.carry,
    {
        self.carry
    }

    /// The slot size.
    pub fn slots(self) -> (s: i64)
        ensures
            s == self@.slots,
            s > 0,
    {
        proof {
            use_type_invariant(self);
        }
        self.slots
    }

    /// Pushes integer input and returns integer output amount for this step.
    /// Uses only addition/subtraction/comparison in the update path.
    pub fn push(&mut self, input: i64) -> (out: i64)
        requires
            i64::MIN <= old(self)@.carry + input <= i64::MAX,
        ensures
            final(self)@.slots == old(self)@.slots,
            out == push_output(old(self)@.carry + input, old(self)@.slots),
            final(self)@.carry == push_carry(old(self)@.carry + input, old(self)@.slots),
            out * old(self)@.slots + final(self)@.carry == old(self)@.carry + input,
    {
        proof {
            use_type_invariant(&*self);
        }
        let ghost c: int = self.carry + input;
        let slots = self.slots;
        let mut carry = self.carry + input;
        let mut out = 0i64;
        while carry >= slots
            invariant
                slots > 0,
                out >= 0,
                c >= 0 ==> carry >= 0,
                c < 0 ==> carry == c && out == 0,
                out * slots + carry == c,
                carry <= c,
                c <= i64::MAX,
            decreases carry,
        {
            proof {
                vstd::arithmetic::mul::lemma_mul_is_distributive_add_other_way(
                    slots as int,
                    out as int,
                    1,
                );
                assert(out <= out * slots) by (nonlinear_arith)
                    requires
                        out >= 0,
                        slots > 0,
                ;
            }
            carry = carry - slots;
            out = out + 1;
        }
        proof {
            if c >= 0 {
                vstd::arithmetic::div_mod::lemma_fundamental_div_mod_converse(
                    c,
                    slots as int,
                    out as int,
                    carry as int,
                );
            }
        }
        self.carry = carry;
        out
    }
}

/// One push of a non-negative amount hands out its whole slots and carries
/// less than one slot; a negative amount is carried untouched and hands out
/// nothing.
pub proof fn lemma_push_splits_into_slots(c: int, slots: int)
    requires
        slots > 0,
    ensures
        push_output(c, slots) * slots + push_carry(c, slots) == c,
        c >= 0 ==> 0 <= push_carry(c, slots) < slots,
        c >= 0 ==> push_output(c, slots) >= 0,
        c < 0 ==> push_output(c, slots) == 0,
{
    if c >= 0 {
        vstd::arithmetic::div_mod::lemma_fundamental_div_mod(c, slots);
        vstd::arithmetic::div_mod::lemma_mod_pos_bound(c, slots);
        vstd::arithmetic::div_mod::lemma_div_pos_is_pos(c, slots);
        let q = c / slots;
        assert(push_output(c, slots) == q);
        assert(q * slots == slots * q) by (nonlinear_arith);
    }
}

/// Pushing one amount after another hands out, in all, the whole slots of
/// the sum, and carries its remainder, when nothing carried is negative.
pub proof fn lemma_push_twice(carry: int, slots: int, x: int, y: int)
    requires
        slots > 0,
        carry >= 0,
        x >= 0,
        y >= 0,
    ensures
        push_output(carry + x, slots) + push_output(push_carry(carry + x, slots) + y, slots)
            == push_output(carry + x + y, slots),
        push_carry(push_carry(carry + x, slots) + y, slots) == push_carry(carry + x + y, slots),
{
    let c1 = carry + x;
    let q1 = c1 / slots;
    let r1 = c1 % slots;
    vstd::arithmetic::div_mod::lemma_fundamental_div_mod(c1, slots);
    vstd::arithmetic::div_mod::lemma_mod_pos_bound(c1, slots);
    let c2 = r1 + y;
    let q2 = c2 / slots;
    let r2 = c2 % slots;
    vstd::arithmetic::div_mod::lemma_fundamental_div_mod(c2, slots);
    vstd::arithmetic::div_mod::lemma_mod_pos_bound(c2, slots);
    assert(carry + x + y == (q1 + q2) * slots + r2) by (nonlinear_arith)
        requires
            c1 == slots * q1 + r1,
            c2 == slots * q2 + r2,
            c2 == r1 + y,
            c1 == carry + x,
    ;
    vstd::arithmetic::div_mod::lemma_fundamental_div_mod_converse(
        carry + x + y,
        slots,
        q1 + q2,
        r2,
    );
}

} // verus!
