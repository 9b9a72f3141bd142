use frostbyte_core::governor::{
    boost_value, powercfg_activate_args, powercfg_write_args, BoostAction, GovernorState, PowerGovernor,
    PROCTHROTTLEMAX_GUID, SUB_PROCESSOR_GUID,
};

#[test]
fn clamps_when_hot_on_ac() {
    let mut g = PowerGovernor::default();
    assert_eq!(g.current_state(), GovernorState::Normal);
    assert_eq!(g.evaluate_thermals(Some(879), true), BoostAction::Unchanged);
    assert_eq!(g.evaluate_thermals(Some(880), true), BoostAction::SetBoost(false));
    assert_eq!(g.finish_boost_change(false, true), Some(true));
    assert_eq!(g.current_state(), GovernorState::CoolingClamped);
}

#[test]
fn never_acts_on_battery_manual_mode_or_without_reading() {
    let mut g = PowerGovernor::default();
    assert_eq!(g.evaluate_thermals(Some(990), false), BoostAction::Unchanged);
    assert_eq!(g.evaluate_thermals(None, true), BoostAction::Unchanged);
    g.set_auto_cool(false);
    assert!(!g.is_auto_cool_enabled());
    assert_eq!(g.evaluate_thermals(Some(990), true), BoostAction::Unchanged);
    assert_eq!(g.current_state(), GovernorState::Normal);
}

#[test]
fn restores_after_required_cool_ticks_only() {
    let mut g = PowerGovernor::new(880, 650, 3, true);
    g.record_turbo_boost(false);
    assert_eq!(g.current_state(), GovernorState::CoolingClamped);
    assert_eq!(g.evaluate_thermals(Some(600), true), BoostAction::Unchanged);
    assert_eq!(g.evaluate_thermals(Some(640), true), BoostAction::Unchanged);
    // a warm reading resets the count
    assert_eq!(g.evaluate_thermals(Some(700), true), BoostAction::Unchanged);
    assert_eq!(g.consecutive_cool_ticks(), 0);
    assert_eq!(g.evaluate_thermals(Some(650), true), BoostAction::Unchanged);
    assert_eq!(g.evaluate_thermals(Some(650), true), BoostAction::Unchanged);
    assert_eq!(g.evaluate_thermals(Some(650), true), BoostAction::SetBoost(true));
    // the change failed: nothing changes and the next cool tick asks again
    assert_eq!(g.finish_boost_change(true, false), None);
    assert_eq!(g.current_state(), GovernorState::CoolingClamped);
    assert_eq!(g.evaluate_thermals(Some(500), true), BoostAction::SetBoost(true));
    assert_eq!(g.finish_boost_change(true, true), Some(false));
    assert_eq!(g.current_state(), GovernorState::Normal);
    assert_eq!(g.consecutive_cool_ticks(), 0);
}

#[test]
fn threshold_settings() {
    let mut g = PowerGovernor::default();
    assert_eq!(g.high_temp_threshold(), 880);
    g.set_high_temp_threshold(750);
    assert_eq!(g.high_temp_threshold(), 750);
    assert_eq!(g.evaluate_thermals(Some(760), true), BoostAction::SetBoost(false));
}

#[test]
fn powercfg_arguments() {
    assert_eq!(boost_value(true), 100);
    assert_eq!(boost_value(false), 99);
    let args = powercfg_write_args(false);
    assert_eq!(args, vec!["/setacvalueindex", "SCHEME_CURRENT", SUB_PROCESSOR_GUID, PROCTHROTTLEMAX_GUID, "99"]);
    assert_eq!(powercfg_write_args(true)[4], "100");
    assert_eq!(powercfg_activate_args(), vec!["/setactive", "SCHEME_CURRENT"]);
}

#[test]
fn readings_the_governor_ignores_do_not_break_the_cool_streak() {
    let mut g = PowerGovernor::new(880, 650, 3, true);
    g.record_turbo_boost(false);
    assert_eq!(g.evaluate_thermals(Some(600), true), BoostAction::Unchanged);
    // on battery or without a reading the governor does nothing at all
    assert_eq!(g.evaluate_thermals(Some(950), false), BoostAction::Unchanged);
    assert_eq!(g.evaluate_thermals(None, true), BoostAction::Unchanged);
    assert_eq!(g.consecutive_cool_ticks(), 1);
    assert_eq!(g.evaluate_thermals(Some(600), true), BoostAction::Unchanged);
    // a hot reading while clamped never asks to clamp again
    assert_eq!(g.evaluate_thermals(Some(990), true), BoostAction::Unchanged);
    assert_eq!(g.consecutive_cool_ticks(), 0);
    assert_eq!(g.evaluate_thermals(Some(600), true), BoostAction::Unchanged);
    assert_eq!(g.evaluate_thermals(Some(600), true), BoostAction::Unchanged);
    assert_eq!(g.evaluate_thermals(Some(600), true), BoostAction::SetBoost(true));
}
