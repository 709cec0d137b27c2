use telemetry_dash::metric::{derive_metric, CpuMetric, IDLE_CEILING};
use telemetry_dash::state::{input_producer_step, Action, AppState, Config, Event, Key, Phase};
use telemetry_dash::telemetry::{encode_frame, TelemetryPacket};

/// The percentage a metric displays as, computed the way the gauge does.
fn as_percent(m: CpuMetric) -> f64 {
    m.scaled as f64 / IDLE_CEILING as f64
}

fn frame_with_idle(idle_counter: u32) -> Vec<u8> {
    encode_frame(&TelemetryPacket {
        idle_counter,
        x_bits: 1.5f32.to_bits(),
        y_bits: (-2.5f32).to_bits(),
    })
}

#[test]
fn metric_at_ceiling_is_exactly_zero() {
    let m = derive_metric(64_000_000);
    assert_eq!(m.scaled, 0);
    assert_eq!(as_percent(m), 0.0);
}

#[test]
fn metric_at_zero_counter_is_exactly_hundred() {
    let m = derive_metric(0);
    assert_eq!(as_percent(m), 100.0);
    assert_eq!(m.whole_percent(), 100);
}

#[test]
fn metric_above_ceiling_saturates_at_hundred() {
    let m = derive_metric(70_000_000);
    assert_eq!(as_percent(m), 100.0);
}

#[test]
fn metric_is_monotone_and_bounded() {
    let samples = [0u32, 1, 1_000, 32_000_000, 63_999_999, 64_000_000];
    let mut last = f64::INFINITY;
    for idle in samples {
        let p = as_percent(derive_metric(idle));
        assert!((0.0..=100.0).contains(&p));
        assert!(p <= last);
        last = p;
    }
    // Strictly below the ceiling the metric stays strictly positive.
    assert!(as_percent(derive_metric(63_999_999)) > 0.0);
}

#[test]
fn metric_half_way() {
    let m = derive_metric(32_000_000);
    assert_eq!(as_percent(m), 50.0);
    assert_eq!(m.whole_percent(), 50);
}

#[test]
fn telemetry_updates_on_good_frame_and_sticks_on_bad() {
    let mut state = AppState::new();
    assert!(state.latest.is_none());

    let good = frame_with_idle(64_000_000);
    assert!(state.apply_frame(&good));
    let shown = state.latest.unwrap();
    assert_eq!(shown.idle_counter, 64_000_000);
    assert_eq!(f32::from_bits(shown.x_bits), 1.5);
    assert_eq!(f32::from_bits(shown.y_bits), -2.5);
    assert_eq!(as_percent(state.metric.unwrap()), 0.0);

    // A block whose first run is cut short by a sentinel must not disturb
    // the displayed values.
    let mut bad = good.clone();
    bad[3] = 0;
    assert!(!state.apply_frame(&bad));
    assert_eq!(state.latest.unwrap(), shown);
    assert_eq!(as_percent(state.metric.unwrap()), 0.0);

    let idle = frame_with_idle(0);
    assert!(state.apply_frame(&idle));
    assert_eq!(as_percent(state.metric.unwrap()), 100.0);
}

#[test]
fn typing_backspace_and_submit() {
    let cfg = Config::default();
    let mut state = AppState::new();
    for c in ['a', 'b', 'c'] {
        let a = state.handle_event(Event::Input(Key::Char(c)), &cfg);
        assert!(matches!(a, Action::Render));
    }
    assert_eq!(state.input, vec!['a', 'b', 'c']);

    let a = state.handle_event(Event::Input(Key::Backspace), &cfg);
    assert!(matches!(a, Action::Render));
    assert_eq!(state.input, vec!['a', 'b']);

    let a = state.handle_event(Event::Input(Key::Char('\n')), &cfg);
    match a {
        Action::Transmit(line) => assert_eq!(line, vec!['a', 'b']),
        other => panic!("expected a transmit, got {:?}", other),
    }
    assert!(state.input.is_empty());
    assert_eq!(state.messages, vec![vec!['a', 'b']]);
    assert_eq!(state.phase, Phase::Running);
}

#[test]
fn backspace_on_empty_buffer_is_a_no_op() {
    let cfg = Config::default();
    let mut state = AppState::new();
    let a = state.handle_event(Event::Input(Key::Backspace), &cfg);
    assert!(matches!(a, Action::Render));
    assert!(state.input.is_empty());
    assert!(state.messages.is_empty());
}

#[test]
fn submit_twice_logs_both_lines() {
    let cfg = Config::default();
    let mut state = AppState::new();
    state.handle_event(Event::Input(Key::Char('x')), &cfg);
    state.handle_event(Event::Input(Key::Char('\n')), &cfg);
    state.handle_event(Event::Input(Key::Char('y')), &cfg);
    state.handle_event(Event::Input(Key::Char('\n')), &cfg);
    assert_eq!(state.messages, vec![vec!['x'], vec!['y']]);
    assert!(state.input.is_empty());
}

#[test]
fn exit_key_moves_to_exiting() {
    let cfg = Config::default();
    let mut state = AppState::new();
    state.handle_event(Event::Input(Key::Char('h')), &cfg);
    let a = state.handle_event(Event::Input(Key::Char('q')), &cfg);
    assert!(matches!(a, Action::Exit));
    assert_eq!(state.phase, Phase::Exiting);
    // The buffer and log are left as they were.
    assert_eq!(state.input, vec!['h']);
    assert!(state.messages.is_empty());
}

#[test]
fn ticks_and_other_keys_change_nothing() {
    let cfg = Config::default();
    let mut state = AppState::new();
    state.handle_event(Event::Input(Key::Char('z')), &cfg);
    let a = state.handle_event(Event::Tick, &cfg);
    assert!(matches!(a, Action::Render));
    let a = state.handle_event(Event::Input(Key::Other), &cfg);
    assert!(matches!(a, Action::Render));
    assert_eq!(state.input, vec!['z']);
    assert_eq!(state.phase, Phase::Running);
}

#[test]
fn input_producer_stops_after_exit_key() {
    let cfg = Config::default();
    let (ev, keep_running) = input_producer_step(Key::Char('a'), &cfg);
    assert_eq!(ev, Event::Input(Key::Char('a')));
    assert!(keep_running);
    let (ev, keep_running) = input_producer_step(Key::Char('q'), &cfg);
    assert_eq!(ev, Event::Input(Key::Char('q')));
    assert!(!keep_running);
    let (_, keep_running) = input_producer_step(Key::Backspace, &cfg);
    assert!(keep_running);
}

#[test]
fn default_config_matches_reference() {
    let cfg = Config::default();
    assert_eq!(cfg.exit_key, 'q');
    assert_eq!(cfg.tick_millis, 250);
}
