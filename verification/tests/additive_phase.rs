use pi_unitary::additive::{PhaseTicks, RemainderAccumulator, TAU_TICKS_DEFAULT};
use pi_unitary::math_error::MathError;

#[test]
fn phase_ticks_wrap_additively() {
    let p = PhaseTicks::new(7, 8).expect("valid phase");
    let q = p.add_ticks(3);
    assert_eq!(q.tick(), 2);
}

#[test]
fn shortest_arc_is_symmetric() {
    let a = PhaseTicks::new(1, 16).expect("valid phase");
    let b = PhaseTicks::new(15, 16).expect("valid phase");
    let dab = a.shortest_arc(b).expect("same domain");
    let dba = b.shortest_arc(a).expect("same domain");
    assert_eq!(dab, 2);
    assert_eq!(dab, dba);
}

#[test]
fn remainder_accumulator_distributes_without_division() {
    let mut acc = RemainderAccumulator::new(3).expect("valid slots");
    let mut out = 0;
    for _ in 0..10 {
        out += acc.push(1);
    }
    assert_eq!(out, 3);
    assert_eq!(acc.carry(), 1);
}

#[test]
fn phase_ticks_rejects_zero_ring() {
    assert_eq!(
        PhaseTicks::new(0, 0),
        Err(MathError::InvalidConfig("tau_ticks must be > 0"))
    );
}

#[test]
fn phase_ticks_new_reduces_tick_onto_ring() {
    assert_eq!(PhaseTicks::new(8, 8).unwrap().tick(), 0);
    assert_eq!(PhaseTicks::new(20, 8).unwrap().tick(), 4);
    assert_eq!(PhaseTicks::new(7, 8).unwrap().tick(), 7);
}

#[test]
fn phase_ticks_keeps_its_ring() {
    let p = PhaseTicks::new(5, 12).unwrap();
    assert_eq!(p.tick(), 5);
    assert_eq!(p.tau_ticks(), 12);
    let q = p.add_ticks(100);
    assert_eq!(q.tau_ticks(), 12);
    assert_eq!(q.tick(), (5 + 100) % 12);
}

#[test]
fn add_ticks_composes() {
    let p = PhaseTicks::new(3, TAU_TICKS_DEFAULT).unwrap();
    let once = p.add_ticks(4000).add_ticks(200);
    assert_eq!(once.tick(), (3 + 4000 + 200) % 4096);
    assert_eq!(p.add_ticks(4200 % 4096).tick(), once.tick());
}

#[test]
fn add_ticks_on_a_full_turn_is_identity() {
    let p = PhaseTicks::new(9, 16).unwrap();
    assert_eq!(p.add_ticks(16), p);
}

#[test]
fn shortest_arc_rejects_different_rings() {
    let a = PhaseTicks::new(1, 16).unwrap();
    let b = PhaseTicks::new(1, 32).unwrap();
    assert_eq!(
        a.shortest_arc(b),
        Err(MathError::DomainViolation("mismatched tau domain"))
    );
}

#[test]
fn shortest_arc_takes_the_short_way_and_is_bounded() {
    let a = PhaseTicks::new(0, 4096).unwrap();
    let b = PhaseTicks::new(2048, 4096).unwrap();
    assert_eq!(a.shortest_arc(b), Ok(2048));
    let c = PhaseTicks::new(4095, 4096).unwrap();
    assert_eq!(a.shortest_arc(c), Ok(1));
    assert_eq!(c.shortest_arc(c), Ok(0));
    let d = PhaseTicks::new(100, 4096).unwrap();
    assert_eq!(a.shortest_arc(d), Ok(100));
}

#[test]
fn remainder_accumulator_rejects_nonpositive_slots() {
    assert_eq!(
        RemainderAccumulator::new(0),
        Err(MathError::InvalidConfig("slots must be > 0"))
    );
    assert_eq!(
        RemainderAccumulator::new(-3),
        Err(MathError::InvalidConfig("slots must be > 0"))
    );
}

#[test]
fn remainder_accumulator_push_twice_equals_sum() {
    let mut a = RemainderAccumulator::new(4).unwrap();
    let first = a.push(7);
    let second = a.push(6);
    assert_eq!(first, 1);
    assert_eq!(second, 2);
    assert_eq!(a.carry(), 1);
    assert_eq!(a.slots(), 4);
    assert_eq!(first + second, (7 + 6) / 4);
}

#[test]
fn math_error_messages() {
    assert_eq!(MathError::DivideByZero.message(), "divide by zero");
    assert_eq!(
        MathError::DomainViolation("x").message(),
        "domain violation: x"
    );
    assert_eq!(
        MathError::InvalidConfig("y").message(),
        "invalid configuration: y"
    );
}
