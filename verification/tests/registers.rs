use omen_fan::governor::Action;
use omen_fan::governor::Event;
use omen_fan::governor::Phase;
use omen_fan::governor::on_event;
use omen_fan::registers::BIOS_DISABLE_CODE;
use omen_fan::registers::BIOS_ENABLE_CODE;
use omen_fan::registers::BIOS_OFFSET;
use omen_fan::registers::BiosControlGuard;
use omen_fan::registers::PERFORMANCE_OFFSET;
use omen_fan::registers::PerfMode;
use omen_fan::registers::TIMER_OFFSET;
use omen_fan::registers::apply_plan;
use omen_fan::registers::performance_plan;
use omen_fan::registers::release_plan;

fn fresh_regs() -> Vec<u8> {
    vec![0xAA; 256]
}

#[test]
fn acquire_disables_bios_and_resets_timer() {
    let mut guard = BiosControlGuard::new();
    assert!(!guard.owned);
    let plan = guard.acquire();
    assert!(guard.owned);
    let mut regs = fresh_regs();
    apply_plan(&mut regs, &plan);
    assert_eq!(regs[BIOS_OFFSET], BIOS_DISABLE_CODE);
    assert_eq!(regs[TIMER_OFFSET], 0);
}

#[test]
fn release_twice_equals_release_once() {
    let mut guard = BiosControlGuard::new();
    let _ = guard.acquire();
    let mut once = fresh_regs();
    apply_plan(&mut once, &guard.release());
    let mut twice = once.clone();
    apply_plan(&mut twice, &guard.release());
    assert_eq!(once, twice);
    assert!(!guard.owned);
}

#[test]
fn release_without_acquire_is_harmless() {
    let mut guard = BiosControlGuard::new();
    let plan = guard.release();
    let mut regs = fresh_regs();
    apply_plan(&mut regs, &plan);
    assert_eq!(regs[BIOS_OFFSET], BIOS_ENABLE_CODE);
    assert!(!guard.owned);
}

#[test]
fn signal_during_run_restores_bios_and_leaves_timer() {
    // The governor runs with native control disabled; the watchdog-timer
    // register has since moved on.
    let mut regs = fresh_regs();
    let mut guard = BiosControlGuard::new();
    apply_plan(&mut regs, &guard.acquire());
    regs[TIMER_OFFSET] = 42;
    // A termination signal arrives; the watcher runs the release writes.
    let (phase, action) = on_event(Phase::Running, Event::TerminationSignal);
    assert_eq!(phase, Phase::ShuttingDown);
    assert_eq!(action, Action::ReleaseControl);
    apply_plan(&mut regs, &release_plan());
    assert_eq!(regs[BIOS_OFFSET], BIOS_ENABLE_CODE);
    assert_eq!(regs[TIMER_OFFSET], 42); // release never touches the timer
}

#[test]
fn release_touches_no_other_register() {
    let mut regs = fresh_regs();
    apply_plan(&mut regs, &release_plan());
    for (i, v) in regs.iter().enumerate() {
        if i == BIOS_OFFSET {
            assert_eq!(*v, BIOS_ENABLE_CODE);
        } else {
            assert_eq!(*v, 0xAA);
        }
    }
}

#[test]
fn performance_plan_selects_mode_then_resets_timer() {
    let mut regs = fresh_regs();
    apply_plan(&mut regs, &performance_plan(PerfMode::Performance));
    assert_eq!(regs[PERFORMANCE_OFFSET], 0x31);
    assert_eq!(regs[TIMER_OFFSET], 0);
    let mut regs = fresh_regs();
    apply_plan(&mut regs, &performance_plan(PerfMode::Powersave));
    assert_eq!(regs[PERFORMANCE_OFFSET], 0x30);
    assert_eq!(regs[TIMER_OFFSET], 0);
}

#[test]
fn writes_past_the_file_end_are_ignored() {
    let mut regs = vec![1, 2, 3];
    apply_plan(&mut regs, &release_plan());
    assert_eq!(regs, vec![1, 2, 3]);
}
