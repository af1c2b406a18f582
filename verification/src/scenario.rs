use vstd::prelude::*;

use crate::additive::TAU_TICKS_DEFAULT;
use crate::choke_additive::{
    fresh_node,
    node_step,
    node_wf,
    nodes_step,
    AdditiveChokeKernel,
    ChokeNode,
    ChokePhase,
    NodeView,
    ResponseChannel,
    COHERENCE_GAIN,
};
use crate::choke_schema::{pathway_code, pathway_label, phase_code, phase_label};
use crate::math_error::MathError;
use crate::text::{decimal, push_decimal, push_signed_decimal, push_str, signed_decimal};

verus! {

/// Longest run a scenario can make before the node counters could leave their range.
pub const MAX_SCENARIO_TICKS: u64 = 34_000_000_000_000_000;

/// The configuration of a choke scenario run.
#[derive(Debug, Clone)]
pub struct ChokeScenarioConfig {
    pub ticks: usize,
    pub nodes: usize,
    pub target_tick: u16,
    pub channel: ResponseChannel,
    pub generation_depth: u8,
    pub calm_factor_pct: u8,
}

impl Default for ChokeScenarioConfig {
    fn default() -> (cfg: Self)
        ensures
            cfg.ticks == 256,
            cfg.nodes == 4,
            cfg.target_tick == 0,
            cfg.channel == ResponseChannel::TrapBiased,
            cfg.generation_depth == 0,
            cfg.calm_factor_pct == 100,
    {
        Self {
            ticks: 256,
            nodes: 4,
            target_tick: 0,
            channel: ResponseChannel::TrapBiased,
            generation_depth: 0,
            calm_factor_pct: 100,
        }
    }
}

/// One row of a scenario trace: one node after one tick.
#[derive(Debug, Clone, Copy, PartialEq, Eq)]
pub struct ChokeTraceRow {
    pub tick: usize,
    pub node: usize,
    pub drive: i64,
    pub phase_tick: u16,
    pub coherence: i64,
    pub energy: i64,
    pub phase: &'static str,
    pub pathway: &'static str,
}

/// The CSV line of a row, in the order of the header.
pub open spec fn csv_line(r: ChokeTraceRow) -> Seq<char> {
    decimal(r.tick as nat) + ","@ + decimal(r.node as nat) + ","@ + signed_decimal(r.drive as int)
        + ","@ + decimal(r.phase_tick as nat) + ","@ + signed_decimal(r.coherence as int) + ","@
        + signed_decimal(r.energy as int) + ","@ + r.phase@ + ","@ + r.pathway@
}

impl ChokeTraceRow {
    /// Names of the columns of a trace.
    pub fn csv_header() -> (h: &'static str)
        ensures
            h@ == "tick,node,drive,phase_tick,coherence,energy,phase,pathway"@,
    {
        "tick,node,drive,phase_tick,coherence,energy,phase,pathway"
    }

    /// The row as one CSV line, without line break.
    pub fn to_csv_line(self) -> (line: String)
        ensures
            line@ == csv_line(self),
    {
        let mut s = String::new();
        push_decimal(&mut s, self.tick as u128);
        push_str(&mut s, ",");
        push_decimal(&mut s, self.node as u128);
        push_str(&mut s, ",");
        push_signed_decimal(&mut s, self.drive);
        push_str(&mut s, ",");
        push_decimal(&mut s, self.phase_tick as u128);
        push_str(&mut s, ",");
        push_signed_decimal(&mut s, self.coherence);
        push_str(&mut s, ",");
        push_signed_decimal(&mut s, self.energy);
        push_str(&mut s, ",");
        push_str(&mut s, self.phase);
        push_str(&mut s, ",");
        push_str(&mut s, self.pathway);
        proof {
            assert(s@ =~= csv_line(self));
        }
        s
    }
}

/// The trace label of a node's phase: the schema name of its phase code.
fn phase_name(node: ChokeNode) -> (name: &'static str)
    ensures
        name@ == phase_label(phase_code(node.phase)),
{
    match node.phase {
        ChokePhase::Free => "free",
        ChokePhase::Formation => "formation",
        ChokePhase::LiftOff => "liftoff",
        ChokePhase::Coherence => "coherence",
        ChokePhase::Drift => "drift",
        ChokePhase::Dissolution => "dissolution",
    }
}

/// The trace label of a node's pathway: the schema name of its pathway code.
fn pathway_name(node: ChokeNode) -> (name: &'static str)
    ensures
        name@ == pathway_label(
            pathway_code(phase_code(node.phase), node.energy as int, node.coherence as int),
        ),
{
    match node.phase {
        ChokePhase::Free => "free_pool",
        ChokePhase::Formation | ChokePhase::LiftOff => "depression_consumption",
        ChokePhase::Coherence | ChokePhase::Drift => "choke_shell_structuring",
        ChokePhase::Dissolution => {
            if node.energy > node.coherence {
                "catastrophic_collapse"
            } else {
                "radiative_release"
            }
        },
    }
}

/// The deterministic pulse schedule of lane `node` at `tick`: three
/// overlapping pulse trains of periods 29, 37 and 43 in successive windows.
pub open spec fn pulse_drive(tick: int, node: int) -> int {
    if tick < 256 && (tick + node) % 29 == 0 {
        1
    } else if 96 <= tick < 320 && (tick + 2 * node) % 37 == 0 {
        1
    } else if 224 <= tick < 448 && (tick + 3 * node) % 43 == 0 {
        1
    } else {
        0
    }
}

/// How many times `v` can be halved before it drops below two.
pub open spec fn halvings(v: nat) -> nat
    decreases v,
{
    if v >= 2 {
        1 + halvings(v / 2)
    } else {
        0
    }
}

/// `x` held to the range `[lo, hi]`.
pub open spec fn clamp(x: int, lo: int, hi: int) -> int {
    if x < lo {
        lo
    } else if x > hi {
        hi
    } else {
        x
    }
}

/// The baseline load of a target phase: none below the first viable gate at
/// tick 128, else one more step for each doubling above it, raised by the
/// generation depth and scaled down by the calm percentage, at least one.
pub open spec fn baseline_load(target_tick: int, generation_depth: int, calm_factor_pct: int) -> int {
    if target_tick < 128 {
        0
    } else {
        let step = 1 + halvings((target_tick / 128) as nat);
        let scaled = ((step + generation_depth) * clamp(calm_factor_pct, 1, 100)) / 100;
        if scaled > 0 {
            scaled
        } else {
            1
        }
    }
}

/// The baseline pulse of lane `node` at `tick`: the baseline load, once per
/// period of four ticks plus one per full ten percent of calm.
pub open spec fn baseline_pulse_drive(tick: int, node: int, baseline: int, calm_factor_pct: int) -> int {
    if baseline <= 0 {
        0
    } else if (tick + node) % (4 + clamp(calm_factor_pct, 1, 100) / 10) == 0 {
        baseline
    } else {
        0
    }
}

/// The drive of lane `node` at `tick` in a scenario.
pub open spec fn lane_drive(cfg: ChokeScenarioConfig, tick: int, node: int) -> int {
    pulse_drive(tick, node) + baseline_pulse_drive(
        tick,
        node,
        baseline_load(cfg.target_tick as int, cfg.generation_depth as int, cfg.calm_factor_pct as int),
        cfg.calm_factor_pct as int,
    )
}

/// The drive of every lane at `tick`.
pub open spec fn drives_at(cfg: ChokeScenarioConfig, tick: int) -> Seq<i64> {
    Seq::new(cfg.nodes as nat, |i: int| lane_drive(cfg, tick, i) as i64)
}

/// The scenario's nodes after `t` ticks.
pub open spec fn nodes_after(cfg: ChokeScenarioConfig, t: nat) -> Seq<NodeView>
    decreases t,
{
    if t == 0 {
        Seq::new(
            cfg.nodes as nat,
            |i: int|
                NodeView {
                    tick: 0,
                    tau: TAU_TICKS_DEFAULT as nat,
                    coherence: 0,
                    energy: 0,
                    dissolution_ticks: 0,
                    promoted: false,
                    phase: ChokePhase::Free,
                },
        )
    } else {
        nodes_step(
            nodes_after(cfg, (t - 1) as nat),
            drives_at(cfg, t - 1),
            (cfg.target_tick % TAU_TICKS_DEFAULT) as nat,
        )
    }
}

/// Row `k` of the trace of a scenario: node `k % nodes` after tick `k / nodes`.
pub open spec fn trace_row_matches(cfg: ChokeScenarioConfig, k: int, r: ChokeTraceRow) -> bool {
    let t = k / cfg.nodes as int;
    let i = k % cfg.nodes as int;
    let v = nodes_after(cfg, (t + 1) as nat)[i];
    &&& r.tick == t
    &&& r.node == i
    &&& r.drive == lane_drive(cfg, t, i)
    &&& r.phase_tick == v.tick
    &&& r.coherence == v.coherence
    &&& r.energy == v.energy
    &&& r.phase@ == phase_label(phase_code(v.phase))
    &&& r.pathway@ == pathway_label(pathway_code(phase_code(v.phase), v.energy, v.coherence))
}

/// Whether a scenario stays within the machine's integers: every index and
/// counter of the run fits.
pub open spec fn scenario_fits(cfg: ChokeScenarioConfig) -> bool {
    &&& cfg.ticks * cfg.nodes <= usize::MAX
    &&& cfg.ticks + 3 * cfg.nodes <= usize::MAX
    &&& cfg.ticks <= MAX_SCENARIO_TICKS
}

impl ChokeScenarioConfig {
    /// Whether a run of this configuration stays within the machine's
    /// integers: its row count and its drive indices fit a `usize`, and its
    /// length does not pass `MAX_SCENARIO_TICKS`.
    pub fn fits(&self) -> (b: bool)
        ensures
            b == scenario_fits(*self),
    {
        let t = self.ticks;
        let n = self.nodes;
        let product_fits = n == 0 || t <= usize::MAX / n;
        proof {
            let m = usize::MAX as int;
            if n > 0 {
                assert(t <= m / (n as int) <==> t * n <= m) by (nonlinear_arith)
                    requires
                        n > 0,
                        t >= 0,
                        m >= 0,
                ;
            }
            assert(n <= (m - t) / 3 <==> t + 3 * n <= m) by (nonlinear_arith)
                requires
                    t <= m,
                    n >= 0,
            ;
        }
        product_fits && n <= (usize::MAX - t) / 3 && (t as u64) <= MAX_SCENARIO_TICKS
    }
}

/// Deterministic additive drive schedule for choke lifecycle testing.
fn drive_for(tick: usize, node: usize) -> (d: i64)
    requires
        tick + 3 * node <= usize::MAX,
    ensures
        d == pulse_drive(tick as int, node as int),
{
    // Multi-lane deterministic pulses across many nodes to produce
    // formation, drift, and dissolution occupancy in trace windows.
    if tick < 256 && (tick + node) % 29 == 0 {
        return 1;
    }
    if tick >= 96 && tick < 320 && (tick + node + node) % 37 == 0 {
        return 1;
    }
    if tick >= 224 && tick < 448 && (tick + node + node + node) % 43 == 0 {
        return 1;
    }
    0i64
}

fn clamp_pct(x: u8) -> (c: u8)
    ensures
        c == clamp(x as int, 1, 100),
{
    if x < 1 {
        1
    } else if x > 100 {
        100
    } else {
        x
    }
}

proof fn lemma_halvings_small_k(v: nat, k: nat)
    requires
        v < pow2_of(k + 1),
    ensures
        halvings(v) <= k,
    decreases v,
{
    if v >= 2 {
        if k == 0 {
            assert(pow2_of(1) == 2 * pow2_of(0));
        } else {
            assert(pow2_of(k + 1) == 2 * pow2_of(k));
            lemma_halvings_small_k(v / 2, (k - 1) as nat);
        }
    }
}

/// Two to the power `k`.
pub open spec fn pow2_of(k: nat) -> nat
    decreases k,
{
    if k == 0 {
        1
    } else {
        2 * pow2_of((k - 1) as nat)
    }
}

/// The halvings of a larger number are never fewer.
proof fn lemma_halvings_monotone(a: nat, b: nat)
    requires
        a <= b,
    ensures
        halvings(a) <= halvings(b),
    decreases b,
{
    if a >= 2 {
        lemma_halvings_monotone(a / 2, b / 2);
    }
}

/// The baseline load respects its gate and nesting: none below tick 128, at
/// least one from it on, and never less for a later target tick or a deeper
/// generation at the same calm.
pub proof fn lemma_baseline_load_threshold_and_nesting(
    t1: int,
    t2: int,
    d1: int,
    d2: int,
    calm_factor_pct: int,
)
    requires
        0 <= t1 <= t2,
        0 <= d1 <= d2,
    ensures
        t1 < 128 ==> baseline_load(t1, d1, calm_factor_pct) == 0,
        t1 >= 128 ==> baseline_load(t1, d1, calm_factor_pct) >= 1,
        t1 >= 128 ==> baseline_load(t1, d1, calm_factor_pct) <= baseline_load(
            t2,
            d2,
            calm_factor_pct,
        ),
{
    if t1 >= 128 {
        let c = clamp(calm_factor_pct, 1, 100);
        assert(t1 / 128 <= t2 / 128) by (nonlinear_arith)
            requires
                0 <= t1 <= t2,
        ;
        lemma_halvings_monotone((t1 / 128) as nat, (t2 / 128) as nat);
        let r1 = 1 + halvings((t1 / 128) as nat) + d1;
        let r2 = 1 + halvings((t2 / 128) as nat) + d2;
        assert((r1 * c) / 100 <= (r2 * c) / 100) by (nonlinear_arith)
            requires
                0 <= r1 <= r2,
                1 <= c <= 100,
        ;
    }
}

/// `v` lies in `[2^h, 2^(h+1))` exactly when it halves `h` times.
proof fn lemma_halvings_exact(v: nat, h: nat)
    requires
        pow2_of(h) <= v < pow2_of(h + 1),
    ensures
        halvings(v) == h,
    decreases h,
{
    if h == 0 {
        assert(pow2_of(1) == 2 * pow2_of(0));
    } else {
        let p = pow2_of((h - 1) as nat);
        assert(pow2_of(h) == 2 * p);
        assert(pow2_of(h + 1) == 2 * pow2_of(h));
        lemma_pow2_pos((h - 1) as nat);
        assert(p <= v / 2 < 2 * p) by (nonlinear_arith)
            requires
                2 * p <= v < 4 * p,
                p >= 1,
        ;
        lemma_halvings_exact(v / 2, (h - 1) as nat);
    }
}

proof fn lemma_pow2_pos(h: nat)
    ensures
        pow2_of(h) >= 1,
    decreases h,
{
    if h > 0 {
        lemma_pow2_pos((h - 1) as nat);
    }
}

/// The baseline load at a target tick in the `h`-th doubling above 128
/// (that is, `128 * 2^h <= tick < 128 * 2^(h+1)`) is one step per doubling
/// plus one, plus the generation depth, times the calm percentage held to
/// 1..100, over 100, and at least one.
pub proof fn lemma_baseline_load_value(target_tick: int, generation_depth: int, calm_factor_pct: int, h: nat)
    requires
        128 <= target_tick,
        pow2_of(h) <= target_tick / 128 < pow2_of(h + 1),
    ensures
        ({
            let calm = if calm_factor_pct < 1 {
                1
            } else if calm_factor_pct > 100 {
                100
            } else {
                calm_factor_pct
            };
            let scaled = ((1 + h + generation_depth) * calm) / 100;
            baseline_load(target_tick, generation_depth, calm_factor_pct) == if scaled > 0 {
                scaled
            } else {
                1
            }
        }),
{
    lemma_halvings_exact((target_tick / 128) as nat, h);
}

/// The scenario drive of lane `n` at tick `t`: 1 from each pulse train
/// that fires (period 29 before tick 256, period 37 over ticks 96..320 on
/// `t + 2n`, period 43 over ticks 224..448 on `t + 3n`, the trains not
/// adding up), plus the baseline load once per period of four ticks and one
/// per full ten percent of calm, when that load is positive.
pub proof fn lemma_lane_drive_schedule(cfg: ChokeScenarioConfig, t: int, n: int)
    requires
        0 <= t,
        0 <= n,
    ensures
        ({
            let c = cfg.calm_factor_pct as int;
            let calm = if c < 1 {
                1
            } else if c > 100 {
                100
            } else {
                c
            };
            let load = baseline_load(cfg.target_tick as int, cfg.generation_depth as int, c);
            let pulse: int = if (t < 256 && (t + n) % 29 == 0) || (96 <= t < 320 && (t + 2 * n)
                % 37 == 0) || (224 <= t < 448 && (t + 3 * n) % 43 == 0) {
                1
            } else {
                0
            };
            lane_drive(cfg, t, n) == pulse + if load > 0 && (t + n) % (4 + calm / 10) == 0 {
                load
            } else {
                0
            }
        }),
{
}

/// The drive column of a scenario trace follows that schedule: row `k` is
/// lane `k % nodes` at tick `k / nodes`.
pub proof fn lemma_trace_drive_column(cfg: ChokeScenarioConfig, k: int, r: ChokeTraceRow)
    requires
        cfg.nodes > 0,
        0 <= k,
        trace_row_matches(cfg, k, r),
    ensures
        r.tick == k / cfg.nodes as int,
        r.node == k % cfg.nodes as int,
        r.drive == lane_drive(cfg, k / cfg.nodes as int, k % cfg.nodes as int),
        (224 <= r.tick < 448 && (r.tick + 3 * r.node) % 43 == 0) ==> r.drive >= 1,
        (96 <= r.tick < 320 && (r.tick + 2 * r.node) % 37 == 0) ==> r.drive >= 1,
        (r.tick < 256 && (r.tick + r.node) % 29 == 0) ==> r.drive >= 1,
{
    lemma_baseline_load_bound(cfg.target_tick, cfg.generation_depth, cfg.calm_factor_pct);
    lemma_lane_drive_schedule(cfg, k / cfg.nodes as int, k % cfg.nodes as int);
}

/// The baseline load is small: at most 264 quanta.
pub proof fn lemma_baseline_load_bound(target_tick: u16, generation_depth: u8, calm_factor_pct: u8)
    ensures
        0 <= baseline_load(target_tick as int, generation_depth as int, calm_factor_pct as int)
            <= 264,
{
    if target_tick >= 128 {
        let v = (target_tick / 128) as nat;
        reveal_with_fuel(pow2_of, 10);
        lemma_halvings_small_k(v, 8);
        let step = 1 + halvings(v);
        let raw = step + generation_depth;
        let calm = clamp(calm_factor_pct as int, 1, 100);
        assert(raw * calm <= raw * 100) by (nonlinear_arith)
            requires
                raw >= 0,
                calm <= 100,
        ;
        assert((raw * calm) / 100 <= raw) by (nonlinear_arith)
            requires
                raw * calm <= raw * 100,
                raw >= 0,
                calm >= 1,
        ;
    }
}

/// Baseline load for a target tick: zero below the first viable gate at
/// 128; above it, one step per doubling, plus the generation depth, scaled
/// by the calm percentage and never below one.
pub fn baseline_load_stepup(target_tick: u16, generation_depth: u8, calm_factor_pct: u8) -> (b: i64)
    ensures
        b == baseline_load(target_tick as int, generation_depth as int, calm_factor_pct as int),
{
    if target_tick < 128 {
        return 0;
    }
    // Step-up by powers of two above the first viable gate at 128.
    let mut step: i64 = 1;
    let mut v: u16 = target_tick / 128;
    proof {
        reveal_with_fuel(pow2_of, 10);
        lemma_halvings_small_k((target_tick / 128) as nat, 8);
    }
    while v >= 2
        invariant
            1 <= step <= 9,
            v <= 511,
            step + halvings(v as nat) == 1 + halvings((target_tick / 128) as nat),
            halvings((target_tick / 128) as nat) <= 8,
        decreases v,
    {
        step += 1;
        v /= 2;
    }
    let raw = step + generation_depth as i64;
    let calm = clamp_pct(calm_factor_pct) as i64;
    assert(raw * calm <= 264 * 100) by (nonlinear_arith)
        requires
            0 <= raw <= 264,
            1 <= calm <= 100,
    ;
    let scaled = (raw * calm) / 100;
    if scaled > 0 {
        scaled
    } else {
        1
    }
}

/// The baseline pulse of lane `node` at `tick`.
fn baseline_pulse(tick: usize, node: usize, baseline: i64, calm_factor_pct: u8) -> (p: i64)
    requires
        tick + node <= usize::MAX,
    ensures
        p == baseline_pulse_drive(tick as int, node as int, baseline as int, calm_factor_pct as int),
{
    if baseline <= 0 {
        return 0;
    }
    // Calmer environments inject baseline load less frequently.
    let period = 4usize + (clamp_pct(calm_factor_pct) / 10) as usize;
    if (tick + node) % period == 0 {
        baseline
    } else {
        0
    }
}

/// Runs a choke kernel for `cfg.ticks` ticks under the scenario drive and
/// returns one row per node per tick, tick by tick, lane by lane.
pub fn run_choke_scenario(cfg: ChokeScenarioConfig) -> (r: Result<Vec<ChokeTraceRow>, MathError>)
    requires
        cfg.ticks > 0 && cfg.nodes > 0 ==> scenario_fits(cfg),
    ensures
        cfg.ticks == 0 ==> r == Err::<Vec<ChokeTraceRow>, MathError>(
            MathError::InvalidConfig("ticks must be > 0"),
        ),
        cfg.ticks > 0 && cfg.nodes == 0 ==> r == Err::<Vec<ChokeTraceRow>, MathError>(
            MathError::InvalidConfig("nodes must be > 0"),
        ),
        cfg.ticks > 0 && cfg.nodes > 0 ==> (r matches Ok(rows) && rows@.len() == cfg.ticks
            * cfg.nodes && forall|k: int|
            0 <= k < rows@.len() ==> trace_row_matches(cfg, k, #[trigger] rows@[k])),
{
    if cfg.ticks == 0 {
        return Err(MathError::InvalidConfig("ticks must be > 0"));
    }
    if cfg.nodes == 0 {
        return Err(MathError::InvalidConfig("nodes must be > 0"));
    }
    let mut kernel = match AdditiveChokeKernel::new_with_channel(cfg.nodes, cfg.channel) {
        Ok(k) => k,
        Err(e) => return Err(e),
    };
    match kernel.set_target_phase(cfg.target_tick) {
        Ok(()) => {},
        Err(e) => return Err(e),
    }
    let baseline = baseline_load_stepup(cfg.target_tick, cfg.generation_depth, cfg.calm_factor_pct);
    proof {
        lemma_baseline_load_bound(cfg.target_tick, cfg.generation_depth, cfg.calm_factor_pct);
        assert(kernel@.nodes =~= nodes_after(cfg, 0));
    }
    let mut rows: Vec<ChokeTraceRow> = Vec::new();
    let mut drive: Vec<i64> = Vec::new();
    let mut i: usize = 0;
    while i < cfg.nodes
        invariant
            i <= cfg.nodes,
            drive@.len() == i,
        decreases cfg.nodes - i,
    {
        drive.push(0);
        i += 1;
    }
    let ghost target = (cfg.target_tick % TAU_TICKS_DEFAULT) as nat;
    let mut tick: usize = 0;
    while tick < cfg.ticks
        invariant
            scenario_fits(cfg),
            cfg.ticks > 0,
            cfg.nodes > 0,
            tick <= cfg.ticks,
            kernel.wf(),
            target == (cfg.target_tick % TAU_TICKS_DEFAULT) as nat,
            kernel@.target == target,
            kernel@.nodes == nodes_after(cfg, tick as nat),
            kernel@.nodes.len() == cfg.nodes,
            drive@.len() == cfg.nodes,
            baseline == baseline_load(
                cfg.target_tick as int,
                cfg.generation_depth as int,
                cfg.calm_factor_pct as int,
            ),
            0 <= baseline <= 264,
            forall|j: int|
                0 <= j < cfg.nodes ==> #[trigger] kernel@.nodes[j].energy <= 265 * tick
                    && kernel@.nodes[j].coherence <= COHERENCE_GAIN * tick,
            rows@.len() == tick * cfg.nodes,
            forall|k: int| 0 <= k < rows@.len() ==> trace_row_matches(cfg, k, #[trigger] rows@[k]),
        decreases cfg.ticks - tick,
    {
        proof {
            assert(tick + 3 * cfg.nodes <= usize::MAX);
        }
        fill_drive(&mut drive, &cfg, tick, baseline);
        proof {
            lemma_counters_bounded(kernel@.nodes, drive@, target, tick as nat);
        }
        let ghost before = kernel@.nodes;
        match kernel.step(drive.as_slice()) {
            Ok(()) => {},
            Err(e) => return Err(e),
        }
        proof {
            lemma_nodes_after_next(cfg, tick as nat);
            assert(kernel@.nodes == nodes_after(cfg, (tick + 1) as nat));
            lemma_scenario_nodes_wf(cfg, (tick + 1) as nat);
        }
        append_rows(&mut rows, &cfg, tick, kernel.nodes(), drive.as_slice());
        tick += 1;
    }
    Ok(rows)
}

proof fn lemma_counters_bounded(nodes: Seq<NodeView>, drive: Seq<i64>, target: nat, t: nat)
    requires
        nodes.len() == drive.len(),
        t < MAX_SCENARIO_TICKS,
        forall|j: int|
            0 <= j < nodes.len() ==> #[trigger] nodes[j].energy <= 265 * t && nodes[j].coherence
                <= COHERENCE_GAIN * t,
        forall|j: int| 0 <= j < nodes.len() ==> node_wf(#[trigger] nodes[j]),
        forall|j: int| 0 <= j < drive.len() ==> 0 <= #[trigger] drive[j] <= 265,
    ensures
        crate::choke_additive::step_fits(nodes, drive),
        forall|j: int|
            0 <= j < nodes.len() ==> #[trigger] nodes_step(nodes, drive, target)[j].energy <= 265
                * (t + 1) && nodes_step(nodes, drive, target)[j].coherence <= COHERENCE_GAIN * (t
                + 1),
{
    assert forall|j: int|
        0 <= j < nodes.len() implies #[trigger] nodes_step(nodes, drive, target)[j].energy <= 265
        * (t + 1) && nodes_step(nodes, drive, target)[j].coherence <= COHERENCE_GAIN * (t + 1) by {
        assert(nodes_step(nodes, drive, target)[j] == node_step(nodes[j], drive[j] as int, target));
        assert(node_wf(nodes[j]));
        assert(0 <= drive[j] <= 265);
    }
}

proof fn lemma_nodes_after_next(cfg: ChokeScenarioConfig, t: nat)
    ensures
        nodes_after(cfg, t + 1) == nodes_step(
            nodes_after(cfg, t),
            drives_at(cfg, t as int),
            (cfg.target_tick % TAU_TICKS_DEFAULT) as nat,
        ),
{
    assert((t + 1) as nat != 0);
    assert(((t + 1) as nat - 1) as nat == t);
}

/// Sets the drive of every lane for `tick`.
fn fill_drive(drive: &mut Vec<i64>, cfg: &ChokeScenarioConfig, tick: usize, baseline: i64)
    requires
        scenario_fits(*cfg),
        tick < cfg.ticks,
        old(drive)@.len() == cfg.nodes,
        baseline == baseline_load(
            cfg.target_tick as int,
            cfg.generation_depth as int,
            cfg.calm_factor_pct as int,
        ),
        0 <= baseline <= 264,
    ensures
        final(drive)@ == drives_at(*cfg, tick as int),
        forall|j: int| 0 <= j < cfg.nodes ==> 0 <= #[trigger] final(drive)@[j] <= 265,
{
    let mut i: usize = 0;
    while i < cfg.nodes
        invariant
            scenario_fits(*cfg),
            tick < cfg.ticks,
            i <= cfg.nodes,
            drive@.len() == cfg.nodes,
            baseline == baseline_load(
                cfg.target_tick as int,
                cfg.generation_depth as int,
                cfg.calm_factor_pct as int,
            ),
            0 <= baseline <= 264,
            forall|j: int| 0 <= j < i ==> #[trigger] drive@[j] == lane_drive(*cfg, tick as int, j),
            forall|j: int| 0 <= j < i ==> 0 <= #[trigger] drive@[j] <= 265,
        decreases cfg.nodes - i,
    {
        let d = drive_for(tick, i) + baseline_pulse(tick, i, baseline, cfg.calm_factor_pct);
        drive.set(i, d);
        i += 1;
    }
    assert(drive@ =~= drives_at(*cfg, tick as int));
}

/// Appends the rows of every node after `tick`.
fn append_rows(
    rows: &mut Vec<ChokeTraceRow>,
    cfg: &ChokeScenarioConfig,
    tick: usize,
    nodes: &[ChokeNode],
    drive: &[i64],
)
    requires
        scenario_fits(*cfg),
        tick < cfg.ticks,
        cfg.nodes > 0,
        nodes@.len() == cfg.nodes,
        nodes_after(*cfg, (tick + 1) as nat).len() == cfg.nodes,
        forall|j: int| 0 <= j < nodes@.len() ==> #[trigger] nodes@[j]@ == nodes_after(*cfg, (tick + 1) as nat)[j],
        drive@ == drives_at(*cfg, tick as int),
        forall|j: int| 0 <= j < cfg.nodes ==> 0 <= #[trigger] drive@[j] <= 265,
        old(rows)@.len() == tick * cfg.nodes,
        forall|k: int| 0 <= k < old(rows)@.len() ==> trace_row_matches(*cfg, k, #[trigger] old(rows)@[k]),
    ensures
        final(rows)@.len() == (tick + 1) * cfg.nodes,
        forall|k: int| 0 <= k < final(rows)@.len() ==> trace_row_matches(*cfg, k, #[trigger] final(rows)@[k]),
{
    let mut n: usize = 0;
    while n < nodes.len()
        invariant
            scenario_fits(*cfg),
            tick < cfg.ticks,
            cfg.nodes > 0,
            nodes@.len() == cfg.nodes,
            nodes_after(*cfg, (tick + 1) as nat).len() == cfg.nodes,
            forall|j: int| 0 <= j < nodes@.len() ==> #[trigger] nodes@[j]@ == nodes_after(*cfg, (tick + 1) as nat)[j],
            drive@ == drives_at(*cfg, tick as int),
            forall|j: int| 0 <= j < cfg.nodes ==> 0 <= #[trigger] drive@[j] <= 265,
            n <= nodes@.len(),
            rows@.len() == tick * cfg.nodes + n,
            forall|k: int| 0 <= k < rows@.len() ==> trace_row_matches(*cfg, k, #[trigger] rows@[k]),
        decreases nodes@.len() - n,
    {
        let node = nodes[n];
        let row = ChokeTraceRow {
            tick,
            node: n,
            drive: drive[n],
            phase_tick: node.phase_tick.tick(),
            coherence: node.coherence,
            energy: node.energy,
            phase: phase_name(node),
            pathway: pathway_name(node),
        };
        proof {
            lemma_row_index(tick as int, n as int, cfg.nodes as int);
            lemma_baseline_load_bound(cfg.target_tick, cfg.generation_depth, cfg.calm_factor_pct);
            assert(node@ == nodes_after(*cfg, (tick + 1) as nat)[n as int]);
            assert(drive@[n as int] == lane_drive(*cfg, tick as int, n as int));
            assert(trace_row_matches(*cfg, tick * cfg.nodes + n, row));
        }
        rows.push(row);
        n += 1;
    }
    assert((tick + 1) * cfg.nodes == tick * cfg.nodes + cfg.nodes) by (nonlinear_arith);
}

proof fn lemma_row_index(t: int, i: int, n: int)
    requires
        0 <= t,
        0 <= i < n,
    ensures
        (t * n + i) / n == t,
        (t * n + i) % n == i,
{
    vstd::arithmetic::div_mod::lemma_fundamental_div_mod_converse(t * n + i, n, t, i);
}

/// Two rows that carry the same values.
pub open spec fn same_row(a: ChokeTraceRow, b: ChokeTraceRow) -> bool {
    &&& a.tick == b.tick
    &&& a.node == b.node
    &&& a.drive == b.drive
    &&& a.phase_tick == b.phase_tick
    &&& a.coherence == b.coherence
    &&& a.energy == b.energy
    &&& a.phase@ == b.phase@
    &&& a.pathway@ == b.pathway@
}

/// A scenario trace is a function of its configuration: two runs of one
/// configuration give the same rows.
pub proof fn lemma_scenario_deterministic(
    cfg: ChokeScenarioConfig,
    a: Seq<ChokeTraceRow>,
    b: Seq<ChokeTraceRow>,
)
    requires
        cfg.nodes > 0,
        a.len() == b.len(),
        forall|k: int| 0 <= k < a.len() ==> trace_row_matches(cfg, k, #[trigger] a[k]),
        forall|k: int| 0 <= k < b.len() ==> trace_row_matches(cfg, k, #[trigger] b[k]),
    ensures
        forall|k: int| 0 <= k < a.len() ==> same_row(#[trigger] a[k], b[k]),
{
    assert forall|k: int| 0 <= k < a.len() implies same_row(#[trigger] a[k], b[k]) by {
        assert(trace_row_matches(cfg, k, a[k]));
        assert(trace_row_matches(cfg, k, b[k]));
    }
}

/// Every node of a scenario keeps the kernel's node invariant at every tick.
pub proof fn lemma_scenario_nodes_wf(cfg: ChokeScenarioConfig, t: nat)
    ensures
        nodes_after(cfg, t).len() == cfg.nodes,
        forall|i: int| 0 <= i < cfg.nodes ==> node_wf(#[trigger] nodes_after(cfg, t)[i]),
    decreases t,
{
    if t > 0 {
        lemma_scenario_nodes_wf(cfg, (t - 1) as nat);
        let prev = nodes_after(cfg, (t - 1) as nat);
        assert forall|i: int| 0 <= i < cfg.nodes implies node_wf(#[trigger] nodes_after(cfg, t)[i]) by {
            crate::choke_additive::lemma_node_step_wf(
                prev[i],
                drives_at(cfg, t - 1)[i] as int,
                (cfg.target_tick % TAU_TICKS_DEFAULT) as nat,
            );
        }
    }
}

} // verus!
