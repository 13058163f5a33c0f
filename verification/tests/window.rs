use omen_fan::window::SampleWindow;
use omen_fan::window::WINDOW_DEPTH;

#[test]
fn fresh_window_repeats_the_first_sample() {
    let w = SampleWindow::new(37);
    assert_eq!(w.min(), 37);
    assert_eq!(w.max(), 37);
    assert_eq!(w.samples.len(), WINDOW_DEPTH);
}

#[test]
fn push_evicts_the_oldest_sample() {
    let mut w = SampleWindow::new(10);
    w.push(20);
    assert_eq!(w.min(), 10);
    assert_eq!(w.max(), 20);
    w.push(30);
    w.push(40);
    w.push(50);
    // All four seed values have been evicted; the window is [20,30,40,50].
    assert_eq!(w.min(), 20);
    assert_eq!(w.max(), 50);
    w.push(60);
    // Now the 20 is gone as well.
    assert_eq!(w.min(), 30);
    assert_eq!(w.max(), 60);
}

#[test]
fn min_and_max_scan_the_whole_window() {
    let mut w = SampleWindow::new(80);
    w.push(75);
    w.push(90);
    w.push(60);
    assert_eq!(w.min(), 60);
    assert_eq!(w.max(), 90);
}
