use vstd::prelude::*;

use crate::additive::{forward_arc, ring_arc, PhaseTicks, TAU_TICKS_DEFAULT};
use crate::math_error::MathError;

verus! {

/// Lifecycle of a choke node.
#[derive(Debug, Clone, Copy, PartialEq, Eq, Structural)]
pub enum ChokePhase {
    /// Unconstrained background state with no trapped shell energy.
    Free,
    /// Early shell accumulation around a forming choke.
    Formation,
    /// Shell has enough constrained STE to detach from free background.
    LiftOff,
    /// Shell-trapped choke is stable and strongly self-reinforcing.
    Coherence,
    /// Stable choke begins losing constraint and slips toward release.
    Drift,
    /// Constrained STE is being released back into free state.
    Dissolution,
}

/// The response channel a kernel is configured for; it is recorded with the
/// kernel and does not change how a node steps.
#[derive(Debug, Clone, Copy, PartialEq, Eq, Structural)]
pub enum ResponseChannel {
    TrapBiased,
    RadiativeBiased,
}

/// Half-width, in ticks, of the window round the target phase in which drive builds coherence.
pub const ALIGN_WINDOW_TICKS: u16 = 24;

/// Ticks a node's phase advances per step.
pub const PHASE_STEP: u16 = 1;

/// Coherence gained per aligned, driven step.
pub const COHERENCE_GAIN: i64 = 4;

/// Coherence lost per step outside the window or without drive.
pub const COHERENCE_LOSS: i64 = 2;

/// Coherence at which a forming choke lifts off.
pub const LIFT_THRESHOLD: i64 = 1;

/// Coherence at which a lifted choke becomes coherent.
pub const COHERENT_THRESHOLD: i64 = 48;

/// Coherence at or below which a coherent choke drifts.
pub const DRIFT_THRESHOLD: i64 = 10;

/// Steps a node is held in dissolution once it enters it.
pub const DISSOLUTION_HOLD_TICKS: i64 = 6;

/// A single node of the choke kernel.
#[derive(Debug, Clone, Copy, PartialEq, Eq)]
pub struct ChokeNode {
    pub phase_tick: PhaseTicks,
    pub coherence: i64,
    pub energy: i64,
    pub dissolution_ticks: i64,
    pub promoted: bool,
    pub phase: ChokePhase,
}

/// A node as plain values: its phase position and ring, and its counters.
pub struct NodeView {
    pub tick: nat,
    pub tau: nat,
    pub coherence: int,
    pub energy: int,
    pub dissolution_ticks: int,
    pub promoted: bool,
    pub phase: ChokePhase,
}

impl View for ChokeNode {
    type V = NodeView;

    open spec fn view(&self) -> NodeView {
        NodeView {
            tick: self.phase_tick@.tick,
            tau: self.phase_tick@.tau,
            coherence: self.coherence as int,
            energy: self.energy as int,
            dissolution_ticks: self.dissolution_ticks as int,
            promoted: self.promoted,
            phase: self.phase,
        }
    }
}

/// The phases reached only after lift-off: the late stages of the lifecycle.
pub open spec fn is_late_phase(p: ChokePhase) -> bool {
    p == ChokePhase::LiftOff || p == ChokePhase::Coherence || p == ChokePhase::Drift || p
        == ChokePhase::Dissolution
}

/// What every node of a kernel satisfies: non-negative counters, a
/// dissolution count only while dissolving and never above the hold,
/// `promoted` exactly in the late phases, and some energy or coherence in
/// every phase between free and dissolution.
pub open spec fn node_wf(v: NodeView) -> bool {
    &&& v.tau == TAU_TICKS_DEFAULT
    &&& v.tick < v.tau
    &&& v.coherence >= 0
    &&& v.energy >= 0
    &&& 0 <= v.dissolution_ticks <= DISSOLUTION_HOLD_TICKS
    &&& v.promoted == is_late_phase(v.phase)
    &&& v.phase != ChokePhase::Dissolution ==> v.dissolution_ticks == 0
    &&& v.phase != ChokePhase::Free && v.phase != ChokePhase::Dissolution ==> (v.energy > 0
        || v.coherence > 0)
}

/// The node a kernel starts with.
pub open spec fn fresh_node(v: NodeView) -> bool {
    &&& v.tick == 0
    &&& v.tau == TAU_TICKS_DEFAULT
    &&& v.coherence == 0
    &&& v.energy == 0
    &&& v.dissolution_ticks == 0
    &&& !v.promoted
    &&& v.phase == ChokePhase::Free
}

/// Next lifecycle phase from the current phase and the node's counters.
pub open spec fn next_phase(
    current: ChokePhase,
    coherence: int,
    energy: int,
    dissolution_ticks: int,
    promoted: bool,
    lift_threshold: int,
    coherent_threshold: int,
    drift_threshold: int,
) -> ChokePhase {
    if energy <= 0 && coherence <= 0 {
        if current == ChokePhase::Free || !promoted || (current == ChokePhase::Dissolution
            && dissolution_ticks <= 0) {
            ChokePhase::Free
        } else {
            ChokePhase::Dissolution
        }
    } else {
        match current {
            ChokePhase::Free => ChokePhase::Formation,
            ChokePhase::Formation => if coherence >= lift_threshold {
                ChokePhase::LiftOff
            } else {
                ChokePhase::Formation
            },
            ChokePhase::LiftOff => if coherence >= coherent_threshold {
                ChokePhase::Coherence
            } else {
                ChokePhase::LiftOff
            },
            ChokePhase::Coherence => if coherence <= drift_threshold {
                ChokePhase::Drift
            } else {
                ChokePhase::Coherence
            },
            ChokePhase::Drift => if coherence <= 0 {
                ChokePhase::Dissolution
            } else {
                ChokePhase::Drift
            },
            ChokePhase::Dissolution => if energy <= 0 && dissolution_ticks <= 0 {
                ChokePhase::Free
            } else {
                ChokePhase::Dissolution
            },
        }
    }
}

/// Phase position after one step.
pub open spec fn stepped_tick(v: NodeView) -> nat {
    ((v.tick + PHASE_STEP) % (v.tau as int)) as nat
}

/// Coherence after one step with drive `input` towards `target`.
pub open spec fn stepped_coherence(v: NodeView, input: int, target: nat) -> int {
    if ring_arc(stepped_tick(v) as int, target as int, v.tau as int) <= ALIGN_WINDOW_TICKS
        && input > 0 {
        v.coherence + COHERENCE_GAIN
    } else if v.coherence > 0 {
        if v.coherence - COHERENCE_LOSS < 0 {
            0
        } else {
            v.coherence - COHERENCE_LOSS
        }
    } else {
        v.coherence
    }
}

/// Energy after one step with drive `input`: drive adds, rest and dissolution leak.
pub open spec fn stepped_energy(v: NodeView, input: int) -> int {
    let e1 = if input > 0 { v.energy + input } else { v.energy };
    let e2 = if input == 0 && e1 > 0 { e1 - 1 } else { e1 };
    if v.phase == ChokePhase::Dissolution && e2 > 0 {
        e2 - 1
    } else {
        e2
    }
}

/// Dissolution hold counter after the step's count-down, before reclassification.
pub open spec fn counted_down(v: NodeView) -> int {
    if v.phase == ChokePhase::Dissolution && v.dissolution_ticks > 0 {
        v.dissolution_ticks - 1
    } else {
        v.dissolution_ticks
    }
}

/// One step of one node with drive `input` towards the target phase `target`.
pub open spec fn node_step(v: NodeView, input: int, target: nat) -> NodeView {
    let coherence = stepped_coherence(v, input, target);
    let energy = stepped_energy(v, input);
    let dt = counted_down(v);
    let next = next_phase(
        v.phase,
        coherence,
        energy,
        dt,
        v.promoted,
        LIFT_THRESHOLD as int,
        COHERENT_THRESHOLD as int,
        DRIFT_THRESHOLD as int,
    );
    let dt2 = if next == ChokePhase::Dissolution && v.phase != ChokePhase::Dissolution {
        DISSOLUTION_HOLD_TICKS as int
    } else {
        dt
    };
    let promoted = if is_late_phase(next) {
        true
    } else {
        v.promoted
    };
    NodeView {
        tick: stepped_tick(v),
        tau: v.tau,
        coherence,
        energy,
        dissolution_ticks: if next == ChokePhase::Free {
            0
        } else {
            dt2
        },
        promoted: if next == ChokePhase::Free {
            false
        } else {
            promoted
        },
        phase: next,
    }
}

/// The phases a node may move to from `p` in one step.
pub open spec fn lifecycle_edge(p: ChokePhase, q: ChokePhase) -> bool {
    match p {
        ChokePhase::Free => q == ChokePhase::Free || q == ChokePhase::Formation,
        ChokePhase::Formation => q == ChokePhase::Formation || q == ChokePhase::LiftOff || q
            == ChokePhase::Free,
        ChokePhase::LiftOff => q == ChokePhase::LiftOff || q == ChokePhase::Coherence || q
            == ChokePhase::Dissolution,
        ChokePhase::Coherence => q == ChokePhase::Coherence || q == ChokePhase::Drift || q
            == ChokePhase::Dissolution,
        ChokePhase::Drift => q == ChokePhase::Drift || q == ChokePhase::Dissolution,
        ChokePhase::Dissolution => q == ChokePhase::Dissolution || q == ChokePhase::Free,
    }
}

/// A step keeps every node's invariant: energy and coherence never go
/// negative, a node is marked promoted exactly in the late phases, only a
/// dissolving node holds a dissolution count, and a node between free and
/// dissolution always holds some energy or coherence.
pub proof fn lemma_node_step_wf(v: NodeView, input: int, target: nat)
    requires
        node_wf(v),
    ensures
        node_wf(node_step(v, input, target)),
{
    vstd::arithmetic::div_mod::lemma_mod_pos_bound((v.tick + PHASE_STEP) as int, v.tau as int);
}

/// A step moves a node only forward through the lifecycle, or into
/// dissolution on collapse; the late phases return to free only through
/// dissolution.
pub proof fn lemma_node_step_lifecycle(v: NodeView, input: int, target: nat)
    requires
        node_wf(v),
    ensures
        lifecycle_edge(v.phase, node_step(v, input, target).phase),
        is_late_phase(v.phase) && v.phase != ChokePhase::Dissolution ==> node_step(
            v,
            input,
            target,
        ).phase != ChokePhase::Free,
{
}

/// Without fresh, aligned drive, a node's coherence never grows, and it
/// falls while positive.
pub proof fn lemma_coherence_decays_unaligned(v: NodeView, input: int, target: nat)
    requires
        node_wf(v),
        input <= 0 || ring_arc(stepped_tick(v) as int, target as int, v.tau as int)
            > ALIGN_WINDOW_TICKS,
    ensures
        node_step(v, input, target).coherence <= v.coherence,
        v.coherence > 0 ==> node_step(v, input, target).coherence < v.coherence,
{
}

/// What one step does to a node, in plain numbers. The phase advances one
/// tick round the ring of 4096. Coherence gains 4 when the drive is
/// positive and the new tick lies within 24 ticks of the target either way
/// round; otherwise it loses 2, never going below zero. Energy takes a
/// positive drive, relaxes by one when undriven, and leaks one more while
/// dissolving. The phase moves by the lifecycle thresholds: a free node with
/// anything stored starts forming, formation lifts off at coherence 1,
/// lift-off turns coherent at 48, a coherent node drifts once its coherence
/// is 10 or less, a drifting node dissolves when its coherence is gone, and
/// a dissolving node frees once its energy is spent and its hold has run
/// out. A node left with nothing falls back to free if it never lifted off
/// (or its hold has run out), and otherwise dissolves. Entering dissolution
/// starts a hold of 6 steps, which counts down by one per dissolving step.
pub proof fn lemma_node_step_rules(v: NodeView, input: int, target: nat)
    requires
        node_wf(v),
        target < 4096,
    ensures
        ({
            let r = node_step(v, input, target);
            let t = (v.tick + 1) % 4096;
            let aligned = input > 0 && ((target - t) % 4096 <= 24 || (t - target) % 4096 <= 24);
            let e1 = if input > 0 {
                v.energy + input
            } else if input == 0 && v.energy > 0 {
                v.energy - 1
            } else {
                v.energy
            };
            &&& r.tick == t
            &&& r.tau == 4096
            &&& aligned ==> r.coherence == v.coherence + 4
            &&& !aligned ==> r.coherence == if v.coherence >= 2 {
                v.coherence - 2
            } else {
                0
            }
            &&& r.energy == if v.phase == ChokePhase::Dissolution && e1 > 0 {
                e1 - 1
            } else {
                e1
            }
            &&& r.energy <= 0 && r.coherence <= 0 ==> r.phase == if v.phase == ChokePhase::Free
                || v.phase == ChokePhase::Formation || (v.phase == ChokePhase::Dissolution
                && v.dissolution_ticks <= 1) {
                ChokePhase::Free
            } else {
                ChokePhase::Dissolution
            }
            &&& (r.energy > 0 || r.coherence > 0) ==> r.phase == match v.phase {
                ChokePhase::Free => ChokePhase::Formation,
                ChokePhase::Formation => if r.coherence >= 1 {
                    ChokePhase::LiftOff
                } else {
                    ChokePhase::Formation
                },
                ChokePhase::LiftOff => if r.coherence >= 48 {
                    ChokePhase::Coherence
                } else {
                    ChokePhase::LiftOff
                },
                ChokePhase::Coherence => if r.coherence <= 10 {
                    ChokePhase::Drift
                } else {
                    ChokePhase::Coherence
                },
                ChokePhase::Drift => if r.coherence <= 0 {
                    ChokePhase::Dissolution
                } else {
                    ChokePhase::Drift
                },
                ChokePhase::Dissolution => if r.energy <= 0 && v.dissolution_ticks <= 1 {
                    ChokePhase::Free
                } else {
                    ChokePhase::Dissolution
                },
            }
            &&& r.phase == ChokePhase::Dissolution && v.phase != ChokePhase::Dissolution
                ==> r.dissolution_ticks == 6
            &&& r.phase == ChokePhase::Dissolution && v.phase == ChokePhase::Dissolution
                ==> r.dissolution_ticks == if v.dissolution_ticks > 0 {
                v.dissolution_ticks - 1
            } else {
                0
            }
            &&& r.phase != ChokePhase::Dissolution ==> r.dissolution_ticks == 0
            &&& r.promoted == (r.phase == ChokePhase::LiftOff || r.phase == ChokePhase::Coherence
                || r.phase == ChokePhase::Drift || r.phase == ChokePhase::Dissolution)
        }),
{
    lemma_node_step_wf(v, input, target);
}

/// A coherent node whose coherence after the step is positive but at most
/// 10 drifts; one whose coherence stays above 10 remains coherent.
pub proof fn lemma_coherent_node_drifts(v: NodeView, input: int, target: nat)
    requires
        node_wf(v),
        target < 4096,
        v.phase == ChokePhase::Coherence,
    ensures
        0 < node_step(v, input, target).coherence <= 10 ==> node_step(v, input, target).phase
            == ChokePhase::Drift,
        node_step(v, input, target).coherence > 10 ==> node_step(v, input, target).phase
            == ChokePhase::Coherence,
{
    lemma_node_step_rules(v, input, target);
}

/// A node at rest: free, empty and with no counts left.
pub open spec fn settled(v: NodeView) -> bool {
    &&& v.phase == ChokePhase::Free
    &&& v.energy == 0
    &&& v.coherence == 0
    &&& !v.promoted
    &&& v.dissolution_ticks == 0
}

/// Steps within which an undriven node comes to rest: the larger of its
/// energy and half its coherence (rounded up), plus the dissolution hold.
pub open spec fn settle_bound(v: NodeView) -> int {
    let half = (v.coherence + 1) / 2;
    (if v.energy >= half {
        v.energy
    } else {
        half
    }) + DISSOLUTION_HOLD_TICKS
}

/// A node after undriven steps towards the given targets, one per step.
pub open spec fn zero_steps(v: NodeView, targets: Seq<nat>) -> NodeView
    decreases targets.len(),
{
    if targets.len() == 0 {
        v
    } else {
        node_step(zero_steps(v, targets.drop_last()), 0, targets.last())
    }
}

/// Steps an undriven node still needs before it is at rest.
spec fn settle_potential(v: NodeView) -> int {
    if v.energy > 0 || v.coherence > 0 {
        settle_bound(v)
    } else if v.phase == ChokePhase::Dissolution {
        if v.dissolution_ticks > 0 {
            v.dissolution_ticks
        } else {
            1
        }
    } else {
        0
    }
}

proof fn lemma_zero_step_potential(v: NodeView, target: nat)
    requires
        node_wf(v),
    ensures
        settle_potential(v) >= 0,
        settle_potential(v) <= settle_bound(v),
        settle_potential(v) == 0 ==> settled(v),
        settle_potential(v) > 0 ==> settle_potential(node_step(v, 0, target)) <= settle_potential(v)
            - 1,
        settle_potential(v) == 0 ==> settle_potential(node_step(v, 0, target)) == 0,
{
    lemma_node_step_wf(v, 0, target);
}

/// Undriven steps bring every node to rest within `settle_bound` steps, and
/// a node at rest stays at rest, whatever the targets.
pub proof fn lemma_zero_drive_settles_node(v: NodeView, targets: Seq<nat>)
    requires
        node_wf(v),
    ensures
        node_wf(zero_steps(v, targets)),
        targets.len() >= settle_bound(v) ==> settled(zero_steps(v, targets)),
        settled(v) ==> settled(zero_steps(v, targets)),
{
    lemma_zero_drive_potential(v, targets);
    lemma_zero_step_potential(v, 0);
    lemma_zero_step_potential(zero_steps(v, targets), 0);
}

proof fn lemma_zero_drive_potential(v: NodeView, targets: Seq<nat>)
    requires
        node_wf(v),
    ensures
        node_wf(zero_steps(v, targets)),
        settle_potential(zero_steps(v, targets)) <= if settle_potential(v) >= targets.len() {
            settle_potential(v) - targets.len()
        } else {
            0
        },
    decreases targets.len(),
{
    lemma_zero_step_potential(v, 0);
    if targets.len() > 0 {
        let prev = targets.drop_last();
        lemma_zero_drive_potential(v, prev);
        let w = zero_steps(v, prev);
        lemma_zero_step_potential(w, targets.last());
        lemma_node_step_wf(w, 0, targets.last());
        lemma_zero_step_potential(node_step(w, 0, targets.last()), 0);
    }
}

/// Every lane driven with zero.
pub open spec fn zero_drive(n: nat) -> Seq<i64> {
    Seq::new(n, |i: int| 0i64)
}

/// A kernel's nodes after undriven steps towards the given targets.
pub open spec fn kernel_zero_steps(nodes: Seq<NodeView>, targets: Seq<nat>) -> Seq<NodeView>
    decreases targets.len(),
{
    if targets.len() == 0 {
        nodes
    } else {
        let prev = kernel_zero_steps(nodes, targets.drop_last());
        nodes_step(prev, zero_drive(prev.len()), targets.last())
    }
}

proof fn lemma_kernel_zero_steps_lanes(nodes: Seq<NodeView>, targets: Seq<nat>)
    ensures
        kernel_zero_steps(nodes, targets).len() == nodes.len(),
        forall|i: int|
            0 <= i < nodes.len() ==> #[trigger] kernel_zero_steps(nodes, targets)[i] == zero_steps(
                nodes[i],
                targets,
            ),
    decreases targets.len(),
{
    if targets.len() > 0 {
        lemma_kernel_zero_steps_lanes(nodes, targets.drop_last());
    }
}

/// Once a kernel's drive stays zero, every node comes to rest (free, empty,
/// with no counts) within the largest `settle_bound` of its nodes, and the
/// nodes at rest stay at rest on every further undriven step.
pub proof fn lemma_zero_drive_settles(nodes: Seq<NodeView>, targets: Seq<nat>)
    requires
        forall|i: int| 0 <= i < nodes.len() ==> node_wf(#[trigger] nodes[i]),
    ensures
        kernel_zero_steps(nodes, targets).len() == nodes.len(),
        forall|i: int|
            0 <= i < nodes.len() && settle_bound(nodes[i]) <= targets.len() ==> settled(
                #[trigger] kernel_zero_steps(nodes, targets)[i],
            ),
        forall|i: int|
            0 <= i < nodes.len() && settled(nodes[i]) ==> settled(
                #[trigger] kernel_zero_steps(nodes, targets)[i],
            ),
{
    lemma_kernel_zero_steps_lanes(nodes, targets);
    assert forall|i: int| 0 <= i < nodes.len() implies (settle_bound(nodes[i]) <= targets.len()
        ==> settled(#[trigger] kernel_zero_steps(nodes, targets)[i])) && (settled(nodes[i])
        ==> settled(kernel_zero_steps(nodes, targets)[i])) by {
        lemma_zero_drive_settles_node(nodes[i], targets);
    }
}

/// The lifecycle classifier.
fn classify_phase(
    current: ChokePhase,
    coherence: i64,
    energy: i64,
    dissolution_ticks: i64,
    promoted: bool,
    lift_threshold: i64,
    coherent_threshold: i64,
    drift_threshold: i64,
) -> (r: ChokePhase)
    ensures
        r == next_phase(
            current,
            coherence as int,
            energy as int,
            dissolution_ticks as int,
            promoted,
            lift_threshold as int,
            coherent_threshold as int,
            drift_threshold as int,
        ),
{
    // Hard collapse rule: once both coherence and energy are depleted,
    // only previously promoted nodes are allowed a bounded dissolution release.
    if energy <= 0 && coherence <= 0 {
        if current == ChokePhase::Free {
            return ChokePhase::Free;
        }
        if !promoted {
            return ChokePhase::Free;
        }
        if current == ChokePhase::Dissolution && dissolution_ticks <= 0 {
            return ChokePhase::Free;
        }
        return ChokePhase::Dissolution;
    }
    match current {
        ChokePhase::Free => {
            if coherence > 0 || energy > 0 {
                ChokePhase::Formation
            } else {
                ChokePhase::Free
            }
        },
        ChokePhase::Formation => {
            if coherence >= lift_threshold {
                ChokePhase::LiftOff
            } else {
                ChokePhase::Formation
            }
        },
        ChokePhase::LiftOff => {
            if coherence >= coherent_threshold {
                ChokePhase::Coherence
            } else {
                ChokePhase::LiftOff
            }
        },
        ChokePhase::Coherence => {
            if coherence <= drift_threshold {
                ChokePhase::Drift
            } else {
                ChokePhase::Coherence
            }
        },
        ChokePhase::Drift => {
            if coherence <= 0 {
                ChokePhase::Dissolution
            } else {
                ChokePhase::Drift
            }
        },
        ChokePhase::Dissolution => {
            if energy <= 0 && dissolution_ticks <= 0 {
                ChokePhase::Free
            } else {
                ChokePhase::Dissolution
            }
        },
    }
}

impl ChokeNode {
    /// A free node at phase zero with nothing stored.
    pub fn new() -> (r: Result<Self, MathError>)
        ensures
            r matches Ok(n) && fresh_node(n@),
    {
        let phase_tick = match PhaseTicks::new(0, TAU_TICKS_DEFAULT) {
            Ok(p) => p,
            Err(e) => return Err(e),
        };
        Ok(
            Self {
                phase_tick,
                coherence: 0,
                energy: 0,
                dissolution_ticks: 0,
                promoted: false,
                phase: ChokePhase::Free,
            },
        )
    }
}

/// Additive-only choke lifecycle kernel.
///
/// Hot-path updates use only addition/subtraction/comparison and typed phase ring operations.
///
/// Ontology contract:
/// - Forward lifecycle (`Free -> ... -> Dissolution`) models choke formation and shell entrapment.
/// - `Dissolution` models constrained STE release and is the only late-stage path back to `Free`.
#[derive(Debug, Clone)]
pub struct AdditiveChokeKernel {
    nodes: Vec<ChokeNode>,
    target_phase: PhaseTicks,
    channel: ResponseChannel,
}

/// A kernel as plain values: its nodes, its target phase and its channel.
pub struct KernelView {
    pub nodes: Seq<NodeView>,
    pub target: nat,
    pub target_tau: nat,
    pub channel: ResponseChannel,
}

impl View for AdditiveChokeKernel {
    type V = KernelView;

    closed spec fn view(&self) -> KernelView {
        KernelView {
            nodes: self.nodes@.map_values(|n: ChokeNode| n@),
            target: self.target_phase@.tick,
            target_tau: self.target_phase@.tau,
            channel: self.channel,
        }
    }
}

/// One step of every node with the drive of its own lane.
pub open spec fn nodes_step(nodes: Seq<NodeView>, drive: Seq<i64>, target: nat) -> Seq<
    NodeView,
> {
    Seq::new(nodes.len(), |i: int| node_step(nodes[i], drive[i] as int, target))
}

/// Whether one step of `nodes` with `drive` stays within the range of the counters.
pub open spec fn step_fits(nodes: Seq<NodeView>, drive: Seq<i64>) -> bool {
    forall|i: int|
        0 <= i < nodes.len() && i < drive.len() ==> {
            &&& nodes[i].energy + drive[i] <= i64::MAX
            &&& nodes[i].coherence + COHERENCE_GAIN <= i64::MAX
        }
}

impl AdditiveChokeKernel {
    /// What every kernel satisfies.
    pub open spec fn wf(&self) -> bool {
        &&& self@.nodes.len() > 0
        &&& self@.target_tau == TAU_TICKS_DEFAULT
        &&& self@.target < TAU_TICKS_DEFAULT
        &&& forall|i: int| 0 <= i < self@.nodes.len() ==> node_wf(#[trigger] self@.nodes[i])
    }

    /// A kernel of `node_count` free nodes on the trap-biased channel.
    pub fn new(node_count: usize) -> (r: Result<Self, MathError>)
        ensures
            node_count == 0 ==> r == Err::<Self, MathError>(
                MathError::InvalidConfig("node_count must be > 0"),
            ),
            node_count > 0 ==> (r matches Ok(k) && k.wf() && k@.nodes.len() == node_count
                && k@.target == 0 && k@.channel == ResponseChannel::TrapBiased && forall|i: int|
                0 <= i < node_count ==> fresh_node(#[trigger] k@.nodes[i])),
    {
        Self::new_with_channel(node_count, ResponseChannel::TrapBiased)
    }

    /// A kernel of `node_count` free nodes on the given channel.
    pub fn new_with_channel(node_count: usize, channel: ResponseChannel) -> (r: Result<
        Self,
        MathError,
    >)
        ensures
            node_count == 0 ==> r == Err::<Self, MathError>(
                MathError::InvalidConfig("node_count must be > 0"),
            ),
            node_count > 0 ==> (r matches Ok(k) && k.wf() && k@.nodes.len() == node_count
                && k@.target == 0 && k@.channel == channel && forall|i: int|
                0 <= i < node_count ==> fresh_node(#[trigger] k@.nodes[i])),
    {
        if node_count == 0 {
            return Err(MathError::InvalidConfig("node_count must be > 0"));
        }
        let mut nodes: Vec<ChokeNode> = Vec::with_capacity(node_count);
        let mut i: usize = 0;
        while i < node_count
            invariant
                i <= node_count,
                nodes@.len() == i,
                forall|j: int| 0 <= j < i ==> fresh_node(#[trigger] nodes@[j]@),
            decreases node_count - i,
        {
            let n = match ChokeNode::new() {
                Ok(n) => n,
                Err(e) => return Err(e),
            };
            nodes.push(n);
            i += 1;
        }
        let target_phase = match PhaseTicks::new(0, TAU_TICKS_DEFAULT) {
            Ok(p) => p,
            Err(e) => return Err(e),
        };
        let k = Self { nodes, target_phase, channel };
        assert forall|j: int| 0 <= j < node_count implies fresh_node(#[trigger] k@.nodes[j])
            && node_wf(k@.nodes[j]) by {
            assert(k@.nodes[j] == nodes@[j]@);
        }
        Ok(k)
    }

    /// The nodes, in lane order.
    pub fn nodes(&self) -> (r: &[ChokeNode])
        ensures
            r@.len() == self@.nodes.len(),
            forall|i: int| 0 <= i < r@.len() ==> #[trigger] r@[i]@ == self@.nodes[i],
    {
        self.nodes.as_slice()
    }

    /// The channel the kernel was built for.
    pub fn channel(&self) -> (c: ResponseChannel)
        ensures
            c == self@.channel,
    {
        self.channel
    }

    /// Moves the target phase to `tick`, reduced into the default ring.
    pub fn set_target_phase(&mut self, tick: u16) -> (r: Result<(), MathError>)
        requires
            old(self).wf(),
        ensures
            r is Ok,
            final(self).wf(),
            final(self)@.nodes == old(self)@.nodes,
            final(self)@.channel == old(self)@.channel,
            final(self)@.target == tick % TAU_TICKS_DEFAULT,
    {
        self.target_phase = match PhaseTicks::new(tick, TAU_TICKS_DEFAULT) {
            Ok(p) => p,
            Err(e) => return Err(e),
        };
        Ok(())
    }

    /// Advances every node one step with the drive of its lane.
    pub fn step(&mut self, drive: &[i64]) -> (r: Result<(), MathError>)
        requires
            old(self).wf(),
            drive@.len() == old(self)@.nodes.len() ==> step_fits(old(self)@.nodes, drive@),
        ensures
            final(self).wf(),
            final(self)@.target == old(self)@.target,
            final(self)@.channel == old(self)@.channel,
            drive@.len() != old(self)@.nodes.len() ==> r == Err::<(), MathError>(
                MathError::DomainViolation("drive length mismatch"),
            ) && final(self)@ == old(self)@,
            drive@.len() == old(self)@.nodes.len() ==> r is Ok && final(self)@.nodes
                =~= nodes_step(old(self)@.nodes, drive@, old(self)@.target),
    {
        if drive.len() != self.nodes.len() {
            return Err(MathError::DomainViolation("drive length mismatch"));
        }
        let ghost old_nodes = self@.nodes;
        let ghost target = self@.target;
        let ghost channel = self.channel;
        let n = self.nodes.len();
        let mut idx: usize = 0;
        while idx < n
            invariant
                n == self.nodes@.len(),
                n == drive@.len(),
                n == old_nodes.len(),
                idx <= n,
                self.target_phase@.tick == target,
                self.channel == channel,
                self.target_phase@.tau == TAU_TICKS_DEFAULT,
                target < TAU_TICKS_DEFAULT,
                step_fits(old_nodes, drive@),
                forall|j: int| 0 <= j < n ==> node_wf(#[trigger] old_nodes[j]),
                forall|j: int|
                    0 <= j < idx ==> #[trigger] self.nodes@[j]@ == node_step(
                        old_nodes[j],
                        drive@[j] as int,
                        target,
                    ),
                forall|j: int| idx <= j < n ==> #[trigger] self.nodes@[j]@ == old_nodes[j],
            decreases n - idx,
        {
            let mut node = self.nodes[idx];
            assert(node@ == old_nodes[idx as int]);
            let input = drive[idx];
            if input > 0 {
                node.energy += input;
            }
            node.phase_tick = node.phase_tick.add_ticks(PHASE_STEP);
            let arc = match node.phase_tick.shortest_arc(self.target_phase) {
                Ok(a) => a,
                Err(e) => return Err(e),
            };
            if arc <= ALIGN_WINDOW_TICKS && input > 0 {
                node.coherence += COHERENCE_GAIN;
            } else if node.coherence > 0 {
                node.coherence -= COHERENCE_LOSS;
                if node.coherence < 0 {
                    node.coherence = 0;
                }
            }
            // Background energy relaxation when no fresh drive is present.
            if input == 0 && node.energy > 0 {
                node.energy -= 1;
            }
            // Energy leak when coherence is low; additive, one quantum per tick.
            if node.phase == ChokePhase::Dissolution && node.energy > 0 {
                node.energy -= 1;
            }
            if node.phase == ChokePhase::Dissolution && node.dissolution_ticks > 0 {
                node.dissolution_ticks -= 1;
            }
            let next_phase = classify_phase(
                node.phase,
                node.coherence,
                node.energy,
                node.dissolution_ticks,
                node.promoted,
                LIFT_THRESHOLD,
                COHERENT_THRESHOLD,
                DRIFT_THRESHOLD,
            );
            if next_phase == ChokePhase::Dissolution && node.phase != ChokePhase::Dissolution {
                node.dissolution_ticks = DISSOLUTION_HOLD_TICKS;
            }
            if next_phase == ChokePhase::LiftOff || next_phase == ChokePhase::Coherence
                || next_phase == ChokePhase::Drift || next_phase == ChokePhase::Dissolution {
                node.promoted = true;
            }
            if next_phase == ChokePhase::Free {
                node.promoted = false;
                node.dissolution_ticks = 0;
            }
            node.phase = next_phase;
            proof {
                lemma_node_step_wf(old_nodes[idx as int], input as int, target);
            }
            self.nodes.set(idx, node);
            idx += 1;
        }
        proof {
            let stepped = nodes_step(old_nodes, drive@, target);
            assert forall|j: int| 0 <= j < n implies #[trigger] self@.nodes[j] == stepped[j]
                && node_wf(self@.nodes[j]) by {
                lemma_node_step_wf(old_nodes[j], drive@[j] as int, target);
            }
        }
        Ok(())
    }
}

} // verus!
