use pi_unitary::choke_additive::ResponseChannel;
use pi_unitary::cli::{
    parse_channel_arg, parse_u16_arg, parse_u32_arg, parse_u64_arg, parse_u8_arg, parse_unsigned_text,
    parse_usize_arg,
};
use pi_unitary::engine_kinds::{choke_phase_code, ChokePhase, Graph};
use pi_unitary::gpu_tools::{
    fill_payload, initial_node_words, node_count_for, pingpong_params_words, workgroup_count,
    xorshift64, NODE_SEED, PAYLOAD_SEED,
};

fn s(v: &str) -> String {
    v.to_string()
}

#[test]
fn unsigned_text_follows_std_parse() {
    for text in ["0", "7", "+12", "00042", "255", "256", "", "+", "-1", " 1", "1 ", "1a", "٣", "+-1"] {
        let ours = parse_unsigned_text(text, u8::MAX as u128).map(|v| v as u8);
        assert_eq!(ours, text.parse::<u8>().ok(), "text {:?}", text);
    }
    for text in ["18446744073709551615", "18446744073709551616", "+9", "99999999999999999999999"] {
        let ours = parse_unsigned_text(text, u64::MAX as u128).map(|v| v as u64);
        assert_eq!(ours, text.parse::<u64>().ok(), "text {:?}", text);
    }
}

#[test]
fn count_options_need_a_positive_value() {
    assert_eq!(parse_usize_arg(Some(&s("12")), 4), 12);
    assert_eq!(parse_usize_arg(Some(&s("0")), 4), 4);
    assert_eq!(parse_usize_arg(Some(&s("x")), 4), 4);
    assert_eq!(parse_usize_arg(None, 4), 4);
    assert_eq!(parse_u64_arg(Some(&s("+5")), 1), 5);
    assert_eq!(parse_u64_arg(Some(&s("0")), 1), 1);
    assert_eq!(parse_u32_arg(Some(&s("4294967295")), 9), 4294967295);
    assert_eq!(parse_u32_arg(Some(&s("4294967296")), 9), 9);
    assert_eq!(parse_u32_arg(Some(&s("0")), 9), 9);
}

#[test]
fn small_options_accept_zero() {
    assert_eq!(parse_u16_arg(Some(&s("0")), 7), 0);
    assert_eq!(parse_u16_arg(Some(&s("65535")), 7), 65535);
    assert_eq!(parse_u16_arg(Some(&s("65536")), 7), 7);
    assert_eq!(parse_u16_arg(None, 7), 7);
    assert_eq!(parse_u8_arg(Some(&s("0")), 100), 0);
    assert_eq!(parse_u8_arg(Some(&s("256")), 100), 100);
    assert_eq!(parse_u8_arg(Some(&s("-3")), 100), 100);
}

#[test]
fn channel_keywords() {
    let trap = ResponseChannel::TrapBiased;
    let rad = ResponseChannel::RadiativeBiased;
    for w in ["trap", "trap-biased", "electron", "electron-like", "  TRAP ", "Electron-Like\n"] {
        assert_eq!(parse_channel_arg(Some(&s(w)), rad), trap, "{:?}", w);
    }
    for w in ["radiative", "radiative-biased", "photon", "photon-like", "\tPhoton\u{3000}"] {
        assert_eq!(parse_channel_arg(Some(&s(w)), trap), rad, "{:?}", w);
    }
    assert_eq!(parse_channel_arg(Some(&s("neutrino")), trap), trap);
    assert_eq!(parse_channel_arg(Some(&s("tr ap")), rad), rad);
    assert_eq!(parse_channel_arg(Some(&s("")), rad), rad);
    assert_eq!(parse_channel_arg(None, rad), rad);
}

fn reference_xorshift(state: &mut u64) -> u64 {
    *state ^= *state << 13;
    *state ^= *state >> 7;
    *state ^= *state << 17;
    *state
}

#[test]
fn xorshift_matches_reference_steps() {
    let mut a = NODE_SEED;
    let mut b = NODE_SEED;
    for _ in 0..100 {
        assert_eq!(xorshift64(&mut a), reference_xorshift(&mut b));
        assert_eq!(a, b);
        assert_ne!(a, 0);
    }
    let mut one = 1u64;
    assert_eq!(xorshift64(&mut one), 1082269761);
}

#[test]
fn fill_payload_matches_reference_words() {
    for len in [0usize, 1, 7, 8, 9, 64, 70] {
        let mut buf = vec![0u8; len];
        let mut state = PAYLOAD_SEED;
        fill_payload(&mut buf, 5, 9, &mut state);

        let mut expect = vec![0u8; len];
        let mut ref_state = PAYLOAD_SEED;
        let mut i = 0;
        while i < len {
            let v = reference_xorshift(&mut ref_state) ^ 5u64.rotate_left(17) ^ 9u64.rotate_left(3);
            let bytes = v.to_le_bytes();
            let take = (len - i).min(8);
            expect[i..i + take].copy_from_slice(&bytes[..take]);
            i += take;
        }
        assert_eq!(buf, expect);
        assert_eq!(state, ref_state);
    }
}

#[test]
fn pingpong_node_sizing() {
    assert_eq!(node_count_for(10, 0), 10);
    assert_eq!(node_count_for(0, 320), 10);
    assert_eq!(node_count_for(0, 31), 1);
    assert_eq!(node_count_for(0, 0), 1);
    assert_eq!(workgroup_count(0), 1);
    assert_eq!(workgroup_count(64), 1);
    assert_eq!(workgroup_count(65), 2);
    assert_eq!(workgroup_count(1000), 16);
    assert_eq!(pingpong_params_words(0, 5, 7, 2), vec![1, 5, 7, 2]);
    assert_eq!(pingpong_params_words(u32::MAX as u64, 5, 7, 2), vec![0, 5, 7, 2]);
}

#[test]
fn initial_words_follow_seed() {
    let w = initial_node_words(3);
    assert_eq!(w.len(), 24);
    let mut state = NODE_SEED;
    for idx in 0..3usize {
        let v = reference_xorshift(&mut state);
        assert_eq!(w[idx * 8], idx as u32 % 4096);
        assert_eq!(w[idx * 8 + 1], (v as u32) & 3);
        assert_eq!(w[idx * 8 + 2], ((v >> 16) as u32) & 3);
        for k in 3..8 {
            assert_eq!(w[idx * 8 + k], 0);
        }
    }
    assert_eq!(initial_node_words(0), vec![0]);
}

#[test]
fn engine_phase_codes() {
    assert_eq!(choke_phase_code(None), 0);
    assert_eq!(choke_phase_code(Some(ChokePhase::Formation)), 1);
    assert_eq!(choke_phase_code(Some(ChokePhase::LiftOff)), 2);
    assert_eq!(choke_phase_code(Some(ChokePhase::Coherence)), 3);
    assert_eq!(choke_phase_code(Some(ChokePhase::Drift)), 4);
    assert_eq!(choke_phase_code(Some(ChokePhase::Dissolution)), 5);
    assert_eq!(Graph::new(6).total_sectors, 12);
}
