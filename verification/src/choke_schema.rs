use vstd::prelude::*;

use crate::choke_additive::ChokePhase;

verus! {

/// Ticks in one turn of the phase ring, as a word of the node record.
pub const TAU_TICKS_DEFAULT_U32: u32 = 4096;

/// Words in one node record of a snapshot payload.
pub const GPU_CHOKE_NODE_WORDS: usize = 8;

/// Bytes in one node record of a snapshot payload.
pub const GPU_CHOKE_NODE_BYTES: usize = GPU_CHOKE_NODE_WORDS * 4;

pub const PHASE_FREE: u32 = 0;
pub const PHASE_FORMATION: u32 = 1;
pub const PHASE_LIFTOFF: u32 = 2;
pub const PHASE_COHERENCE: u32 = 3;
pub const PHASE_DRIFT: u32 = 4;
pub const PHASE_DISSOLUTION: u32 = 5;

pub const PATHWAY_FREE_POOL: u32 = 0;
pub const PATHWAY_DEPRESSION_CONSUMPTION: u32 = 1;
pub const PATHWAY_CHOKE_SHELL_STRUCTURING: u32 = 2;
pub const PATHWAY_RADIATIVE_RELEASE: u32 = 3;
pub const PATHWAY_CATASTROPHIC_COLLAPSE: u32 = 4;

/// The record code of each lifecycle phase.
pub open spec fn phase_code(phase: ChokePhase) -> u32 {
    match phase {
        ChokePhase::Free => PHASE_FREE,
        ChokePhase::Formation => PHASE_FORMATION,
        ChokePhase::LiftOff => PHASE_LIFTOFF,
        ChokePhase::Coherence => PHASE_COHERENCE,
        ChokePhase::Drift => PHASE_DRIFT,
        ChokePhase::Dissolution => PHASE_DISSOLUTION,
    }
}

/// The name of each phase code; codes outside the schema are "unknown".
pub open spec fn phase_label(phase_id: u32) -> Seq<char> {
    if phase_id == PHASE_FREE {
        "free"@
    } else if phase_id == PHASE_FORMATION {
        "formation"@
    } else if phase_id == PHASE_LIFTOFF {
        "liftoff"@
    } else if phase_id == PHASE_COHERENCE {
        "coherence"@
    } else if phase_id == PHASE_DRIFT {
        "drift"@
    } else if phase_id == PHASE_DISSOLUTION {
        "dissolution"@
    } else {
        "unknown"@
    }
}

/// The energy pathway of a node in phase `phase_id` holding `energy` and `coherence`.
pub open spec fn pathway_code(phase_id: u32, energy: int, coherence: int) -> u32 {
    if phase_id == PHASE_FREE {
        PATHWAY_FREE_POOL
    } else if phase_id == PHASE_FORMATION || phase_id == PHASE_LIFTOFF {
        PATHWAY_DEPRESSION_CONSUMPTION
    } else if phase_id == PHASE_COHERENCE || phase_id == PHASE_DRIFT {
        PATHWAY_CHOKE_SHELL_STRUCTURING
    } else if phase_id == PHASE_DISSOLUTION {
        if energy > coherence {
            PATHWAY_CATASTROPHIC_COLLAPSE
        } else {
            PATHWAY_RADIATIVE_RELEASE
        }
    } else {
        PATHWAY_FREE_POOL
    }
}

/// The name of each pathway code; codes outside the schema are "unknown".
pub open spec fn pathway_label(pathway_id: u32) -> Seq<char> {
    if pathway_id == PATHWAY_FREE_POOL {
        "free_pool"@
    } else if pathway_id == PATHWAY_DEPRESSION_CONSUMPTION {
        "depression_consumption"@
    } else if pathway_id == PATHWAY_CHOKE_SHELL_STRUCTURING {
        "choke_shell_structuring"@
    } else if pathway_id == PATHWAY_RADIATIVE_RELEASE {
        "radiative_release"@
    } else if pathway_id == PATHWAY_CATASTROPHIC_COLLAPSE {
        "catastrophic_collapse"@
    } else {
        "unknown"@
    }
}

/// The record code of a lifecycle phase.
pub fn phase_id_from_phase(phase: ChokePhase) -> (id: u32)
    ensures
        id == phase_code(phase),
{
    match phase {
        ChokePhase::Free => PHASE_FREE,
        ChokePhase::Formation => PHASE_FORMATION,
        ChokePhase::LiftOff => PHASE_LIFTOFF,
        ChokePhase::Coherence => PHASE_COHERENCE,
        ChokePhase::Drift => PHASE_DRIFT,
        ChokePhase::Dissolution => PHASE_DISSOLUTION,
    }
}

/// The name of a phase code.
pub fn phase_name(phase_id: u32) -> (name: &'static str)
    ensures
        name@ == phase_label(phase_id),
{
    if phase_id == PHASE_FREE {
        "free"
    } else if phase_id == PHASE_FORMATION {
        "formation"
    } else if phase_id == PHASE_LIFTOFF {
        "liftoff"
    } else if phase_id == PHASE_COHERENCE {
        "coherence"
    } else if phase_id == PHASE_DRIFT {
        "drift"
    } else if phase_id == PHASE_DISSOLUTION {
        "dissolution"
    } else {
        "unknown"
    }
}

/// The energy pathway of a node: free pool, depression consumption while
/// forming, shell structuring while coherent, and in dissolution a
/// catastrophic collapse when energy exceeds coherence, else radiative release.
pub fn pathway_id_for(phase_id: u32, energy: i64, coherence: i64) -> (id: u32)
    ensures
        id == pathway_code(phase_id, energy as int, coherence as int),
{
    if phase_id == PHASE_FREE {
        PATHWAY_FREE_POOL
    } else if phase_id == PHASE_FORMATION || phase_id == PHASE_LIFTOFF {
        PATHWAY_DEPRESSION_CONSUMPTION
    } else if phase_id == PHASE_COHERENCE || phase_id == PHASE_DRIFT {
        PATHWAY_CHOKE_SHELL_STRUCTURING
    } else if phase_id == PHASE_DISSOLUTION {
        if energy > coherence {
            PATHWAY_CATASTROPHIC_COLLAPSE
        } else {
            PATHWAY_RADIATIVE_RELEASE
        }
    } else {
        PATHWAY_FREE_POOL
    }
}

/// The name of a pathway code.
pub fn pathway_name(pathway_id: u32) -> (name: &'static str)
    ensures
        name@ == pathway_label(pathway_id),
{
    if pathway_id == PATHWAY_FREE_POOL {
        "free_pool"
    } else if pathway_id == PATHWAY_DEPRESSION_CONSUMPTION {
        "depression_consumption"
    } else if pathway_id == PATHWAY_CHOKE_SHELL_STRUCTURING {
        "choke_shell_structuring"
    } else if pathway_id == PATHWAY_RADIATIVE_RELEASE {
        "radiative_release"
    } else if pathway_id == PATHWAY_CATASTROPHIC_COLLAPSE {
        "catastrophic_collapse"
    } else {
        "unknown"
    }
}

/// Every phase has its own code, and the code names its phase: the codes
/// are a faithful encoding of the lifecycle.
pub proof fn lemma_phase_code_injective(p: ChokePhase, q: ChokePhase)
    ensures
        phase_code(p) == phase_code(q) ==> p == q,
        phase_code(p) <= PHASE_DISSOLUTION,
        phase_label(phase_code(p)) != "unknown"@,
{
    reveal_strlit("unknown");
    reveal_strlit("free");
    reveal_strlit("formation");
    reveal_strlit("liftoff");
    reveal_strlit("coherence");
    reveal_strlit("drift");
    reveal_strlit("dissolution");
    assert(phase_label(phase_code(p))[0] != "unknown"@[0]);
}

/// Every pathway of a schema phase is a named pathway.
pub proof fn lemma_pathway_known(phase_id: u32, energy: int, coherence: int)
    ensures
        pathway_code(phase_id, energy, coherence) <= PATHWAY_CATASTROPHIC_COLLAPSE,
        pathway_label(pathway_code(phase_id, energy, coherence)) != "unknown"@,
{
    reveal_strlit("unknown");
    reveal_strlit("free_pool");
    reveal_strlit("depression_consumption");
    reveal_strlit("choke_shell_structuring");
    reveal_strlit("radiative_release");
    reveal_strlit("catastrophic_collapse");
    assert(pathway_label(pathway_code(phase_id, energy, coherence))[0] != "unknown"@[0]);
}

} // verus!
