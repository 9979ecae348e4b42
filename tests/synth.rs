use wavesynth::{
    generate, make_saw_wave, make_sine_wave, make_square_wave, make_triangle_wave, get_frequency_from_key, key_event, NoteEvent, Synth, WaveType, AMPLITUDE_ONE,
    TABLE_SIZE,
};

const ONE: i32 = AMPLITUDE_ONE;

#[test]
fn sine_table_has_size_range_and_starts_at_zero() {
    let t = generate(WaveType::Sine, 1024);
    assert_eq!(t.len(), 1024);
    assert!(t.iter().all(|&v| -ONE <= v && v <= ONE));
    assert_eq!(t[0], 0);
    assert_eq!(t[256], ONE);
    assert_eq!(t[512], 0);
    assert_eq!(t[768], -ONE);
    assert_eq!(t[100], 9660458);
    assert_eq!(t[128], 11863283);
}

#[test]
fn sine_table_is_close_to_sine() {
    let t = generate(WaveType::Sine, 1024);
    for (i, &v) in t.iter().enumerate() {
        let exact = (2.0 * std::f64::consts::PI * i as f64 / 1024.0).sin();
        let got = v as f64 / ONE as f64;
        assert!((got - exact).abs() < 1e-5, "sample {}", i);
    }
}

#[test]
fn small_sine_table() {
    assert_eq!(generate(WaveType::Sine, 4), vec![0, ONE, 0, -ONE]);
}

#[test]
fn square_values_are_plus_or_minus_one() {
    for n in [1, 2, 7, 1024] {
        let t = generate(WaveType::Square, n);
        assert_eq!(t.len(), n as usize);
        assert!(t.iter().all(|&v| v == ONE || v == -ONE));
    }
    assert_eq!(generate(WaveType::Square, 4), vec![ONE, ONE, ONE, -ONE]);
}

#[test]
fn triangle_values() {
    let t = generate(WaveType::Triangle, 8);
    assert_eq!(t, vec![-ONE, -ONE / 2, 0, ONE / 2, ONE, ONE / 2, 0, -ONE / 2]);
    assert_eq!(generate(WaveType::Triangle, 1), vec![ONE]);
    assert_eq!(generate(WaveType::Triangle, 5).len(), 5);
}

#[test]
fn saw_values() {
    assert_eq!(generate(WaveType::Saw, 4), vec![ONE, ONE / 2, 0, -ONE / 2]);
    let t = generate(WaveType::Saw, 1024);
    assert!(t.iter().all(|&v| -ONE < v && v <= ONE));
}

#[test]
fn new_synth_is_silent_sine() {
    let s = Synth::new();
    assert_eq!(s.voice_count(), 0);
    assert_eq!(s.wave_table, generate(WaveType::Sine, TABLE_SIZE));
}

#[test]
fn on_twice_keeps_one_voice() {
    let mut s = Synth::new();
    s.on(440000);
    s.on(440000);
    assert_eq!(s.voice_count(), 1);
}

#[test]
fn off_within_tolerance_removes_voice() {
    let mut s = Synth::new();
    s.on(440000);
    s.off(440050);
    assert_eq!(s.voice_count(), 0);
}

#[test]
fn off_outside_tolerance_keeps_voice() {
    let mut s = Synth::new();
    s.on(440000);
    s.off(441000);
    assert_eq!(s.voice_count(), 1);
}

#[test]
fn off_tolerance_boundary() {
    let mut s = Synth::new();
    s.on(440000);
    s.off(440100);
    assert_eq!(s.voice_count(), 1);
    s.off(439900);
    assert_eq!(s.voice_count(), 1);
    s.off(440099);
    assert_eq!(s.voice_count(), 0);
}

#[test]
fn on_exact_off_tolerant_asymmetry() {
    let mut s = Synth::new();
    s.on(440000);
    s.on(440050);
    assert_eq!(s.voice_count(), 2);
    s.off(440020);
    assert_eq!(s.voice_count(), 0);
}

#[test]
fn off_without_match_is_no_op() {
    let mut s = Synth::new();
    s.off(440000);
    assert_eq!(s.voice_count(), 0);
    s.on(261630);
    s.on(440000);
    s.off(440000);
    assert_eq!(s.voice_count(), 1);
    assert_eq!(s.voices[0].freq, 261630);
}

#[test]
fn render_without_voices_is_silent() {
    for len in [0usize, 1, 7, 512] {
        let mut s = Synth::new();
        let mut buf = vec![123; len];
        s.render(&mut buf, 2, 48000);
        assert!(buf.iter().all(|&v| v == 0));
    }
}

#[test]
fn full_period_step_wraps_to_zero() {
    let mut s = Synth::new();
    s.on(48000 * 1000);
    let out = s.render_sample(48000);
    assert_eq!(out, 0);
    assert_eq!(s.voices[0].phase, 0);
}

#[test]
fn change_wave_and_back_restores_table() {
    let mut s = Synth::new();
    let initial = s.wave_table.clone();
    s.change_wave(WaveType::Square);
    assert_eq!(s.wave_table, generate(WaveType::Square, TABLE_SIZE));
    s.change_wave(WaveType::Sine);
    assert_eq!(s.wave_table, initial);
}

#[test]
fn change_wave_keeps_phases() {
    let mut s = Synth::new();
    s.on(440000);
    s.render_sample(48000);
    let phase = s.voices[0].phase;
    s.change_wave(WaveType::Saw);
    assert_eq!(s.voices[0].phase, phase);
}

#[test]
fn render_mixes_and_normalises() {
    let mut s = Synth::new();
    s.change_wave(WaveType::Square);
    s.on(440000);
    assert_eq!(s.render_sample(48000), 5033164);
    let mut s = Synth::new();
    s.change_wave(WaveType::Square);
    s.on(440000);
    s.on(220000);
    assert_eq!(s.render_sample(48000), 5033164);
}

#[test]
fn render_fills_frames_and_advances_phase() {
    let mut s = Synth::new();
    s.on(440000);
    let mut buf = vec![7; 5];
    s.render(&mut buf, 2, 48000);
    assert_eq!(buf, vec![0, 0, 277806, 277806, 554766]);
    assert_eq!(s.voices[0].phase, 118111599);
}

#[test]
fn lerp_interpolates() {
    let t = vec![0, 100, -100];
    assert_eq!(Synth::get_lerp(&t, 1u64 << 31), 50);
    assert_eq!(Synth::get_lerp(&t, 1u64 << 32), 100);
    assert_eq!(Synth::get_lerp(&t, (1u64 << 32) + (1u64 << 30)), 50);
    assert_eq!(Synth::get_lerp(&t, 2u64 << 32), -100);
    assert_eq!(Synth::get_lerp(&t, 0), 0);
}

#[test]
fn keys_map_to_notes() {
    assert_eq!(get_frequency_from_key('h'), Some(440000));
    assert_eq!(get_frequency_from_key('a'), Some(261630));
    assert_eq!(get_frequency_from_key('p'), Some(622250));
    assert_eq!(get_frequency_from_key('r'), None);
    assert_eq!(get_frequency_from_key('i'), None);
}

#[test]
fn key_events() {
    assert_eq!(key_event('h', true, false), NoteEvent::On(440000));
    assert_eq!(key_event('h', true, true), NoteEvent::Nothing);
    assert_eq!(key_event('h', false, false), NoteEvent::Off(440000));
    assert_eq!(key_event('z', true, false), NoteEvent::Nothing);
}

#[test]
fn sine_is_close_to_sine_for_other_sizes() {
    for n in [1, 3, 7, 1000, 4096] {
        let t = make_sine_wave(n);
        assert_eq!(t.len(), n as usize);
        assert_eq!(t[0], 0);
        for (i, &v) in t.iter().enumerate() {
            let exact = (2.0 * std::f64::consts::PI * i as f64 / n as f64).sin();
            assert!((v as f64 / ONE as f64 - exact).abs() < 1e-5, "size {} sample {}", n, i);
        }
    }
}

#[test]
fn generators_agree_with_generate() {
    for n in [1, 2, 5, 1024] {
        assert_eq!(make_sine_wave(n), generate(WaveType::Sine, n));
        assert_eq!(make_square_wave(n), generate(WaveType::Square, n));
        assert_eq!(make_triangle_wave(n), generate(WaveType::Triangle, n));
        assert_eq!(make_saw_wave(n), generate(WaveType::Saw, n));
    }
}
