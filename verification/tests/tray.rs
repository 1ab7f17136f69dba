use gpu_arbiter::state::{ArbiterState, State, UnitStatus, UnixTime};
use gpu_arbiter::tray::{color_for, dot_icon, state_label, tooltip_text, transition_message};

#[test]
fn dot_is_round() {
    let d = dot_icon(1, 2, 3);
    assert_eq!(d.len(), 22 * 22 * 4);
    for y in 0..22usize {
        for x in 0..22usize {
            let dx = x as f32 - 10.5;
            let dy = y as f32 - 10.5;
            let inside = (dx * dx + dy * dy).sqrt() <= 9.5;
            let k = (y * 22 + x) * 4;
            assert_eq!(d[k], if inside { 0xff } else { 0 }, "{x} {y}");
            assert_eq!(&d[k + 1..k + 4], &[1, 2, 3]);
        }
    }
}

#[test]
fn states_have_colours_and_words() {
    assert_eq!(color_for(Some(State::Gaming)), (0x4C, 0xAF, 0x50));
    assert_eq!(color_for(Some(State::Evicting)), (0xFF, 0x98, 0x00));
    assert_eq!(color_for(Some(State::Available)), (0x21, 0x96, 0xF3));
    assert_eq!(color_for(None), (0x9E, 0x9E, 0x9E));
    assert_eq!(state_label(State::Gaming), "Gaming");
    assert_eq!(state_label(State::Available), "Available");
    assert_eq!(state_label(State::Evicting), "Evicting");
}

#[test]
fn tooltip_tells_what_is_known() {
    let mut s = ArbiterState::new(UnixTime { secs: 0, nanos: 0 });
    s.gpu_vram_used_mb = 1;
    s.gpu_vram_total_mb = 2;
    s.units = vec![UnitStatus {
        unit: "ollama.service".into(),
        running: Some(true),
        models: vec!["a".into(), "b".into()],
        vram_mb: None,
        held: false,
    }];
    let snap = s.snapshot();
    assert_eq!(
        tooltip_text(Some(&snap), Some("x")),
        "State: Available\nVRAM: 1 / 2 MiB used\nOllama: running (a, b)\nSince: 1970-01-01T00:00:00Z\nDaemon: v0.1.0"
    );
    assert_eq!(tooltip_text(None, Some("gone")), "gpu-arbiter unreachable\ngone");
    assert_eq!(tooltip_text(None, None), "gpu-arbiter: starting…");
}

#[test]
fn changes_are_told() {
    let m = transition_message(State::Available, State::Gaming).unwrap();
    assert_eq!(m.summary, "GPU: Gaming");
    assert!(!m.critical);
    let m = transition_message(State::Gaming, State::Available).unwrap();
    assert_eq!(m.summary, "GPU: Available");
    let m = transition_message(State::Available, State::Evicting).unwrap();
    assert!(m.critical);
    assert!(transition_message(State::Evicting, State::Gaming).is_none());
    assert!(transition_message(State::Gaming, State::Gaming).is_none());
}
