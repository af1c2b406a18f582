use pi_unitary::choke_additive::ResponseChannel;
use pi_unitary::math_error::MathError;
use pi_unitary::recursive::AdditiveFractalKernel;
use pi_unitary::scenario::{baseline_load_stepup, run_choke_scenario, ChokeScenarioConfig, ChokeTraceRow};

#[test]
fn additive_kernel_conserves_with_feedback_sink() {
    let mut k = AdditiveFractalKernel::new(5).expect("valid kernel");
    k.seed_root(64);

    let total0 = k.total_quanta();
    for _ in 0..50 {
        k.step();
    }
    let total1 = k.total_quanta();

    assert!(total1 <= total0);
    assert!(total1 >= 0);
}

#[test]
fn recursive_levels_receive_flow() {
    let mut k = AdditiveFractalKernel::new(4).expect("valid kernel");
    k.seed_root(12);
    k.step();

    let mut lvl1_total = 0;
    for &q in &k.levels()[1] {
        lvl1_total += q;
    }
    assert_eq!(lvl1_total, 12);
}

#[test]
fn fractal_kernel_rejects_shallow_depth() {
    assert!(matches!(
        AdditiveFractalKernel::new(1),
        Err(MathError::InvalidConfig("depth must be >= 2"))
    ));
    assert!(matches!(
        AdditiveFractalKernel::new(0),
        Err(MathError::InvalidConfig("depth must be >= 2"))
    ));
}

#[test]
fn fractal_kernel_level_widths_double() {
    let k = AdditiveFractalKernel::new(4).unwrap();
    assert_eq!(k.depth(), 4);
    let widths: Vec<usize> = k.levels().iter().map(|l| l.len()).collect();
    assert_eq!(widths, vec![1, 2, 4, 8]);
    assert_eq!(k.total_quanta(), 0);
    assert_eq!(k.phase().tick(), 0);
}

#[test]
fn fractal_split_alternates_children() {
    let mut k = AdditiveFractalKernel::new(4).unwrap();
    k.seed_root(12);
    k.step();
    assert_eq!(k.levels()[1], vec![6, 6]);
    assert_eq!(k.levels()[0], vec![0]);
    assert_eq!(k.phase().tick(), 1);
    k.seed_root(3);
    assert_eq!(k.levels()[0], vec![3]);
    k.seed_root(-5);
    k.seed_root(0);
    assert_eq!(k.levels()[0], vec![3]);
}

#[test]
fn fractal_deepest_level_feeds_back_through_accumulator() {
    let mut k = AdditiveFractalKernel::new(2).unwrap();
    k.seed_root(8);
    k.step();
    assert_eq!(k.levels()[0], vec![2]);
    assert_eq!(k.levels()[1], vec![0, 0]);
    assert_eq!(k.total_quanta(), 2);
}

#[test]
fn fractal_total_never_grows() {
    let mut k = AdditiveFractalKernel::new(3).unwrap();
    k.seed_root(37);
    let mut last = k.total_quanta();
    for _ in 0..30 {
        k.step();
        let now = k.total_quanta();
        assert!(now <= last);
        last = now;
    }
}

#[test]
fn scenario_is_deterministic() {
    let cfg = ChokeScenarioConfig {
        ticks: 32,
        nodes: 3,
        target_tick: 1,
        channel: ResponseChannel::TrapBiased,
        generation_depth: 0,
        calm_factor_pct: 100,
    };
    let a = run_choke_scenario(cfg.clone()).expect("run a");
    let b = run_choke_scenario(cfg).expect("run b");
    assert_eq!(a, b);
}

#[test]
fn scenario_emits_expected_row_count() {
    let cfg = ChokeScenarioConfig {
        ticks: 10,
        nodes: 2,
        target_tick: 0,
        channel: ResponseChannel::TrapBiased,
        generation_depth: 0,
        calm_factor_pct: 100,
    };
    let rows = run_choke_scenario(cfg).expect("rows");
    assert_eq!(rows.len(), 20);
}

#[test]
fn baseline_load_stepup_respects_threshold_and_nesting() {
    assert_eq!(baseline_load_stepup(64, 2, 100), 0);
    assert_eq!(baseline_load_stepup(128, 0, 100), 1);
    assert_eq!(baseline_load_stepup(128, 2, 100), 3);
    assert_eq!(baseline_load_stepup(256, 2, 50), 2);
}

#[test]
fn baseline_load_stepup_edges() {
    assert_eq!(baseline_load_stepup(127, 9, 100), 0);
    assert_eq!(baseline_load_stepup(4095, 0, 100), 5);
    assert_eq!(baseline_load_stepup(4095, 0, 0), 1);
    assert_eq!(baseline_load_stepup(u16::MAX, 255, 200), 9 + 255);
}

#[test]
fn scenario_rejects_empty_runs() {
    let mut cfg = ChokeScenarioConfig::default();
    cfg.ticks = 0;
    assert_eq!(
        run_choke_scenario(cfg.clone()),
        Err(MathError::InvalidConfig("ticks must be > 0"))
    );
    cfg.ticks = 5;
    cfg.nodes = 0;
    assert_eq!(
        run_choke_scenario(cfg),
        Err(MathError::InvalidConfig("nodes must be > 0"))
    );
}

#[test]
fn scenario_first_row_exact() {
    let cfg = ChokeScenarioConfig {
        ticks: 1,
        nodes: 1,
        target_tick: 0,
        channel: ResponseChannel::TrapBiased,
        generation_depth: 0,
        calm_factor_pct: 100,
    };
    let rows = run_choke_scenario(cfg).unwrap();
    assert_eq!(
        rows,
        vec![ChokeTraceRow {
            tick: 0,
            node: 0,
            drive: 1,
            phase_tick: 1,
            coherence: 4,
            energy: 1,
            phase: "formation",
            pathway: "depression_consumption",
        }]
    );
    assert_eq!(rows[0].to_csv_line(), "0,0,1,1,4,1,formation,depression_consumption");
}

#[test]
fn scenario_rows_are_ordered_tick_then_node() {
    let cfg = ChokeScenarioConfig { ticks: 4, nodes: 3, ..ChokeScenarioConfig::default() };
    let rows = run_choke_scenario(cfg).unwrap();
    for (k, r) in rows.iter().enumerate() {
        assert_eq!(r.tick, k / 3);
        assert_eq!(r.node, k % 3);
    }
}

#[test]
fn default_config_and_header() {
    let cfg = ChokeScenarioConfig::default();
    assert_eq!(cfg.ticks, 256);
    assert_eq!(cfg.nodes, 4);
    assert_eq!(cfg.target_tick, 0);
    assert_eq!(cfg.channel, ResponseChannel::TrapBiased);
    assert_eq!(cfg.generation_depth, 0);
    assert_eq!(cfg.calm_factor_pct, 100);
    assert!(cfg.fits());
    assert_eq!(
        ChokeTraceRow::csv_header(),
        "tick,node,drive,phase_tick,coherence,energy,phase,pathway"
    );
}

#[test]
fn csv_line_of_negative_values() {
    let r = ChokeTraceRow {
        tick: 12,
        node: 3,
        drive: -7,
        phase_tick: 4095,
        coherence: 0,
        energy: -1,
        phase: "drift",
        pathway: "choke_shell_structuring",
    };
    assert_eq!(r.to_csv_line(), "12,3,-7,4095,0,-1,drift,choke_shell_structuring");
}

#[test]
fn baseline_load_never_drops_with_target_or_depth() {
    for calm in [0u8, 1, 37, 50, 100, 250] {
        for t in (128u16..=4096).step_by(97) {
            for d in 0u8..6 {
                let here = baseline_load_stepup(t, d, calm);
                assert!(here >= 1);
                assert!(here <= baseline_load_stepup(t, d + 1, calm));
                assert!(here <= baseline_load_stepup(t + 97, d, calm));
            }
        }
        assert_eq!(baseline_load_stepup(127, 5, calm), 0);
    }
}
