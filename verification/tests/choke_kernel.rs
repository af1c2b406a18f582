use pi_unitary::choke_additive::{AdditiveChokeKernel, ChokeNode, ChokePhase, ResponseChannel};
use pi_unitary::choke_schema::{
    pathway_id_for, pathway_name, phase_id_from_phase, phase_name, PATHWAY_CATASTROPHIC_COLLAPSE,
    PATHWAY_CHOKE_SHELL_STRUCTURING, PATHWAY_DEPRESSION_CONSUMPTION, PATHWAY_FREE_POOL,
    PATHWAY_RADIATIVE_RELEASE, PHASE_COHERENCE, PHASE_DISSOLUTION, PHASE_DRIFT, PHASE_FORMATION,
    PHASE_FREE, PHASE_LIFTOFF,
};
use pi_unitary::math_error::MathError;

#[test]
fn choke_node_enters_lifecycle_with_sustained_drive() {
    let mut k = AdditiveChokeKernel::new(1).expect("kernel");
    k.set_target_phase(1).expect("target");

    for _ in 0..12 {
        k.step(&[1]).expect("step");
    }

    let node = k.nodes()[0];
    assert!(node.phase != ChokePhase::Free);
    assert!(node.coherence > 0);
}

#[test]
fn coherence_decays_outside_alignment_window() {
    let mut k = AdditiveChokeKernel::new(1).expect("kernel");
    k.set_target_phase(0).expect("target");

    for _ in 0..8 {
        k.step(&[1]).expect("step");
    }
    let before = k.nodes()[0].coherence;

    k.set_target_phase(2048).expect("retarget");
    for _ in 0..8 {
        k.step(&[0]).expect("step");
    }

    let after = k.nodes()[0].coherence;
    assert!(after < before);
}

#[test]
fn energy_never_negative() {
    let mut k = AdditiveChokeKernel::new(2).expect("kernel");
    for _ in 0..40 {
        k.step(&[0, 0]).expect("step");
    }
    for n in k.nodes() {
        assert!(n.energy >= 0);
    }
}

#[test]
fn kernel_rejects_zero_nodes() {
    assert!(matches!(
        AdditiveChokeKernel::new(0),
        Err(MathError::InvalidConfig("node_count must be > 0"))
    ));
    assert!(matches!(
        AdditiveChokeKernel::new_with_channel(0, ResponseChannel::RadiativeBiased),
        Err(MathError::InvalidConfig("node_count must be > 0"))
    ));
}

#[test]
fn kernel_starts_with_fresh_nodes() {
    let k = AdditiveChokeKernel::new(3).unwrap();
    assert_eq!(k.nodes().len(), 3);
    let fresh = ChokeNode::new().unwrap();
    for n in k.nodes() {
        assert_eq!(*n, fresh);
    }
    assert_eq!(fresh.phase, ChokePhase::Free);
    assert_eq!(fresh.phase_tick.tick(), 0);
    assert_eq!(fresh.phase_tick.tau_ticks(), 4096);
    assert_eq!(k.channel(), ResponseChannel::TrapBiased);
    let r = AdditiveChokeKernel::new_with_channel(2, ResponseChannel::RadiativeBiased).unwrap();
    assert_eq!(r.channel(), ResponseChannel::RadiativeBiased);
}

#[test]
fn step_rejects_drive_of_wrong_length() {
    let mut k = AdditiveChokeKernel::new(2).unwrap();
    let before: Vec<ChokeNode> = k.nodes().to_vec();
    assert_eq!(
        k.step(&[1]),
        Err(MathError::DomainViolation("drive length mismatch"))
    );
    assert_eq!(k.nodes().to_vec(), before);
}

#[test]
fn single_driven_step_exact_values() {
    let mut k = AdditiveChokeKernel::new(1).unwrap();
    k.set_target_phase(1).unwrap();
    k.step(&[1]).unwrap();
    let n = k.nodes()[0];
    assert_eq!(n.phase_tick.tick(), 1);
    assert_eq!(n.energy, 1);
    assert_eq!(n.coherence, 4);
    assert_eq!(n.phase, ChokePhase::Formation);
}

#[test]
fn undriven_node_stays_free() {
    let mut k = AdditiveChokeKernel::new(1).unwrap();
    for _ in 0..100 {
        k.step(&[0]).unwrap();
    }
    let n = k.nodes()[0];
    assert_eq!(n.phase, ChokePhase::Free);
    assert_eq!(n.coherence, 0);
    assert_eq!(n.energy, 0);
    assert_eq!(n.phase_tick.tick(), 100);
}

#[test]
fn phase_names_match_contract() {
    assert_eq!(phase_name(PHASE_FREE), "free");
    assert_eq!(phase_name(PHASE_FORMATION), "formation");
    assert_eq!(phase_name(PHASE_LIFTOFF), "liftoff");
    assert_eq!(phase_name(PHASE_COHERENCE), "coherence");
    assert_eq!(phase_name(PHASE_DRIFT), "drift");
    assert_eq!(phase_name(PHASE_DISSOLUTION), "dissolution");
}

#[test]
fn dissolution_pathway_obeys_energy_coherence_relation() {
    assert_eq!(
        pathway_id_for(PHASE_DISSOLUTION, 10, 5),
        PATHWAY_CATASTROPHIC_COLLAPSE
    );
    assert_eq!(
        pathway_id_for(PHASE_DISSOLUTION, 4, 5),
        PATHWAY_RADIATIVE_RELEASE
    );
}

#[test]
fn unknown_ids_have_fallback_names() {
    assert_eq!(phase_name(6), "unknown");
    assert_eq!(phase_name(u32::MAX), "unknown");
    assert_eq!(pathway_name(5), "unknown");
    assert_eq!(pathway_id_for(99, 10, 0), PATHWAY_FREE_POOL);
}

#[test]
fn pathways_by_phase() {
    assert_eq!(pathway_id_for(PHASE_FREE, 3, 3), PATHWAY_FREE_POOL);
    assert_eq!(pathway_id_for(PHASE_FORMATION, 3, 3), PATHWAY_DEPRESSION_CONSUMPTION);
    assert_eq!(pathway_id_for(PHASE_LIFTOFF, 3, 3), PATHWAY_DEPRESSION_CONSUMPTION);
    assert_eq!(pathway_id_for(PHASE_COHERENCE, 3, 3), PATHWAY_CHOKE_SHELL_STRUCTURING);
    assert_eq!(pathway_id_for(PHASE_DRIFT, 3, 3), PATHWAY_CHOKE_SHELL_STRUCTURING);
    assert_eq!(pathway_id_for(PHASE_DISSOLUTION, 5, 5), PATHWAY_RADIATIVE_RELEASE);
    assert_eq!(pathway_name(PATHWAY_FREE_POOL), "free_pool");
    assert_eq!(pathway_name(PATHWAY_DEPRESSION_CONSUMPTION), "depression_consumption");
    assert_eq!(pathway_name(PATHWAY_CHOKE_SHELL_STRUCTURING), "choke_shell_structuring");
    assert_eq!(pathway_name(PATHWAY_RADIATIVE_RELEASE), "radiative_release");
    assert_eq!(pathway_name(PATHWAY_CATASTROPHIC_COLLAPSE), "catastrophic_collapse");
}

#[test]
fn phase_ids_are_distinct_and_round_trip_names() {
    let phases = [
        ChokePhase::Free,
        ChokePhase::Formation,
        ChokePhase::LiftOff,
        ChokePhase::Coherence,
        ChokePhase::Drift,
        ChokePhase::Dissolution,
    ];
    let names = ["free", "formation", "liftoff", "coherence", "drift", "dissolution"];
    for (i, p) in phases.iter().enumerate() {
        assert_eq!(phase_id_from_phase(*p), i as u32);
        assert_eq!(phase_name(phase_id_from_phase(*p)), names[i]);
    }
}

fn allowed_edge(p: ChokePhase, q: ChokePhase) -> bool {
    match p {
        ChokePhase::Free => matches!(q, ChokePhase::Free | ChokePhase::Formation),
        ChokePhase::Formation => {
            matches!(q, ChokePhase::Formation | ChokePhase::LiftOff | ChokePhase::Free)
        }
        ChokePhase::LiftOff => {
            matches!(q, ChokePhase::LiftOff | ChokePhase::Coherence | ChokePhase::Dissolution)
        }
        ChokePhase::Coherence => {
            matches!(q, ChokePhase::Coherence | ChokePhase::Drift | ChokePhase::Dissolution)
        }
        ChokePhase::Drift => matches!(q, ChokePhase::Drift | ChokePhase::Dissolution),
        ChokePhase::Dissolution => matches!(q, ChokePhase::Dissolution | ChokePhase::Free),
    }
}

#[test]
fn lifecycle_moves_only_along_its_edges() {
    let mut k = AdditiveChokeKernel::new(4).unwrap();
    k.set_target_phase(3).unwrap();
    let mut seen_late = false;
    for t in 0..600usize {
        let drive: Vec<i64> = (0..4)
            .map(|n| if t < 200 && (t + n) % (n + 1) == 0 { 2 } else { 0 })
            .collect();
        let before: Vec<ChokeNode> = k.nodes().to_vec();
        k.step(&drive).unwrap();
        for (b, a) in before.iter().zip(k.nodes()) {
            assert!(allowed_edge(b.phase, a.phase), "{:?} -> {:?}", b.phase, a.phase);
            assert!(a.energy >= 0 && a.coherence >= 0);
            assert_eq!(
                a.promoted,
                matches!(
                    a.phase,
                    ChokePhase::LiftOff | ChokePhase::Coherence | ChokePhase::Drift | ChokePhase::Dissolution
                )
            );
            if a.phase != ChokePhase::Free && a.phase != ChokePhase::Formation {
                seen_late = true;
            }
        }
    }
    assert!(seen_late);
}

fn settle_bound(n: &ChokeNode) -> i64 {
    n.energy.max((n.coherence + 1) / 2) + 6
}

fn is_settled(n: &ChokeNode) -> bool {
    n.phase == ChokePhase::Free
        && n.energy == 0
        && n.coherence == 0
        && !n.promoted
        && n.dissolution_ticks == 0
}

#[test]
fn zero_drive_settles_within_bound_and_stays() {
    let mut k = AdditiveChokeKernel::new(3).unwrap();
    k.set_target_phase(2).unwrap();
    for t in 0..40usize {
        let drive: Vec<i64> = (0..3).map(|n| if (t + n) % 2 == 0 { 3 } else { 0 }).collect();
        k.step(&drive).unwrap();
    }
    let bound = k.nodes().iter().map(settle_bound).max().unwrap();
    assert!(k.nodes().iter().any(|n| !is_settled(n)));
    for s in 0..bound {
        if s % 7 == 3 {
            k.set_target_phase((s * 311) as u16).unwrap();
        }
        k.step(&[0, 0, 0]).unwrap();
        for n in k.nodes() {
            assert!(n.phase == ChokePhase::Dissolution || n.dissolution_ticks == 0);
        }
    }
    assert!(k.nodes().iter().all(is_settled));
    for _ in 0..50 {
        k.step(&[0, 0, 0]).unwrap();
        assert!(k.nodes().iter().all(is_settled));
    }
}

#[test]
fn undriven_fresh_nodes_stay_at_rest() {
    let mut k = AdditiveChokeKernel::new(2).unwrap();
    for _ in 0..40 {
        k.step(&[0, 0]).unwrap();
    }
    for n in k.nodes() {
        assert!(is_settled(n));
    }
}
