use omen_fan::curve::CurveTable;
use omen_fan::governor::Action;
use omen_fan::governor::Event;
use omen_fan::governor::Phase;
use omen_fan::governor::ThermalGovernor;
use omen_fan::governor::combined_sample;
use omen_fan::governor::on_event;

fn reference_table() -> CurveTable {
    CurveTable::from_config(
        &vec![(40, 45), (46, 50), (51, 55), (56, 60), (61, 70), (71, 100)],
        &vec![10, 20, 40, 60, 80, 100],
    )
    .unwrap()
}

#[test]
fn combined_sample_is_the_hotter_sensor() {
    assert_eq!(combined_sample(40, 60), 60);
    assert_eq!(combined_sample(60, 40), 60);
    assert_eq!(combined_sample(50, 50), 50);
}

#[test]
fn steady_cool_window_selects_idle_band() {
    // A steady window at 30 degrees: band 0, duty pair (5, 5).
    let mut g = ThermalGovernor::new(reference_table(), 30);
    let duty = g.step(30);
    assert_eq!(g.state.index, 0);
    assert_eq!(duty, Some((5, 5)));
    assert_eq!((g.state.low_threshold, g.state.high_threshold), (40, 45));
}

#[test]
fn steady_hot_window_selects_top_band() {
    // A steady window at 80 degrees: band 5, duty pair (55, 57).
    let mut g = ThermalGovernor::new(reference_table(), 80);
    let duty = g.step(80);
    assert_eq!(g.state.index, 5);
    assert_eq!(duty, Some((55, 57)));
    assert_eq!((g.state.low_threshold, g.state.high_threshold), (71, 100));
}

#[test]
fn single_hot_sample_reevaluates_band() {
    // Window [44,44,44,44] at band 0 with thresholds (40,45); one sample
    // of 46 pushes the window maximum past the high threshold and the
    // re-evaluation lands on band 1.
    let mut g = ThermalGovernor::new(reference_table(), 30);
    assert_eq!(g.step(30), Some((5, 5)));
    for _ in 0..4 {
        let duty = g.step(44);
        assert_eq!(g.state.index, 0); // inside the deadzone: no change
        assert_eq!(duty, None);
    }
    let duty = g.step(46);
    assert_eq!(g.state.index, 1);
    assert_eq!(duty, Some((11, 11)));
    assert_eq!((g.state.low_threshold, g.state.high_threshold), (46, 50));
}

#[test]
fn samples_inside_band_never_change_index() {
    // Hysteresis: once in a band, samples whose window stays within the
    // band's thresholds leave the index alone.
    let mut g = ThermalGovernor::new(reference_table(), 53);
    g.step(53);
    let settled = g.state.index;
    let (low, high) = (g.state.low_threshold, g.state.high_threshold);
    for t in [low, high, low + 1, high - 1, (low + high) / 2] {
        // Flush the window with in-band samples, stepping each time.
        for _ in 0..4 {
            assert_eq!(g.step(t), None);
            assert_eq!(g.state.index, settled);
        }
    }
}

#[test]
fn monotone_sweep_visits_every_band_in_order() {
    let mut g = ThermalGovernor::new(reference_table(), 30);
    let mut visited: Vec<usize> = Vec::new();
    let mut t: u8 = 30;
    while t <= 105 {
        g.step(t);
        if visited.last() != Some(&g.state.index) {
            visited.push(g.state.index);
        }
        t += 1;
    }
    assert_eq!(visited, vec![0, 1, 2, 3, 4, 5]);
}

#[test]
fn cool_maximum_overrides_higher_band() {
    // Once even the window maximum is at or below the first band's lower
    // bound, the index drops to 0, whatever band was held before.
    let mut g = ThermalGovernor::new(reference_table(), 80);
    g.step(80);
    assert_eq!(g.state.index, 5);
    for _ in 0..3 {
        g.step(30);
        assert_eq!(g.state.index, 5); // a lingering 80 keeps the band
    }
    g.step(30);
    assert_eq!(g.state.index, 0);
}

#[test]
fn hot_minimum_forces_top_band() {
    let mut g = ThermalGovernor::new(reference_table(), 100);
    g.step(100);
    assert_eq!(g.state.index, 5);
}

#[test]
fn lifecycle_shuts_down_once_and_exits() {
    let (p, a) = on_event(Phase::Running, Event::TerminationSignal);
    assert_eq!((p, a), (Phase::ShuttingDown, Action::ReleaseControl));
    // A racing second trigger is absorbed.
    let (p, a) = on_event(p, Event::FatalError);
    assert_eq!((p, a), (Phase::ShuttingDown, Action::Continue));
    let (p, a) = on_event(p, Event::ReleaseCompleted);
    assert_eq!((p, a), (Phase::Terminated, Action::Exit));
}

#[test]
fn fatal_error_also_releases() {
    let (p, a) = on_event(Phase::Running, Event::FatalError);
    assert_eq!((p, a), (Phase::ShuttingDown, Action::ReleaseControl));
}
