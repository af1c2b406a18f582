use vstd::prelude::*;

verus! {

/// Whether a bond channel is at rest (equilibrium fill) or its two shells
/// overlap (near-field interaction).
#[derive(Debug, Clone, Copy, PartialEq, Eq, Structural)]
pub enum ChannelRegime {
    Equilibrium,
    ShellInteraction,
}

/// The class of an annihilation, from the mildest to the most violent.
#[derive(Debug, Clone, Copy, PartialEq, Eq, Structural)]
pub enum AnnihilationClass {
    Heat,
    Light,
    Gamma,
    Cavitation,
}

/// What a node does to an attraction wave that reaches it.
#[derive(Debug, Clone, Copy, PartialEq, Eq, Structural)]
pub enum InteractionKind {
    Transparent,
    Relay,
    Capture,
}

/// The lifecycle of a micro-vortex: formation, lift-off, coherence, drift,
/// dissolution.
#[derive(Debug, Clone, Copy, PartialEq, Eq, Structural)]
pub enum ChokePhase {
    Formation,
    LiftOff,
    Coherence,
    Drift,
    Dissolution,
}

/// The number that stands for a parcel's choke phase in exported arrays:
/// 0 for a parcel without a choke, then 1 to 5 along the lifecycle.
pub open spec fn choke_phase_number(p: Option<ChokePhase>) -> u8 {
    match p {
        None => 0,
        Some(ChokePhase::Formation) => 1,
        Some(ChokePhase::LiftOff) => 2,
        Some(ChokePhase::Coherence) => 3,
        Some(ChokePhase::Drift) => 4,
        Some(ChokePhase::Dissolution) => 5,
    }
}

/// The exported number of a parcel's choke phase.
pub fn choke_phase_code(p: Option<ChokePhase>) -> (c: u8)
    ensures
        c == choke_phase_number(p),
{
    match p {
        None => 0,
        Some(ChokePhase::Formation) => 1,
        Some(ChokePhase::LiftOff) => 2,
        Some(ChokePhase::Coherence) => 3,
        Some(ChokePhase::Drift) => 4,
        Some(ChokePhase::Dissolution) => 5,
    }
}

/// Distinct phases have distinct numbers, and only a parcel without a choke
/// gets 0.
pub proof fn lemma_choke_phase_code_injective(a: Option<ChokePhase>, b: Option<ChokePhase>)
    ensures
        choke_phase_number(a) == choke_phase_number(b) <==> a == b,
        choke_phase_number(a) == 0 <==> a is None,
        choke_phase_number(a) <= 5,
{
}

/// The sector layout shared by every parcel of a simulation.
pub struct Graph {
    /// Sectors per parcel: two hemispheres' worth.
    pub total_sectors: usize,
}

impl Graph {
    /// The layout for `sectors_per_hemisphere` sectors in each hemisphere.
    pub fn new(sectors_per_hemisphere: usize) -> (g: Self)
        requires
            2 * sectors_per_hemisphere <= usize::MAX,
        ensures
            g.total_sectors == 2 * sectors_per_hemisphere,
    {
        Graph { total_sectors: sectors_per_hemisphere * 2 }
    }
}

} // verus!
