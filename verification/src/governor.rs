//! The thermal governor: clamps Turbo Boost (maximum processor state 99%)
//! when the CPU runs hot and restores it once the temperature has stayed
//! safe for enough consecutive ticks. Temperatures are in tenths of a degree
//! Celsius.
//!
//! Changing the power scheme is the caller's work: `evaluate_thermals` says
//! which change to make, and the caller reports the outcome with
//! `finish_boost_change` (or `record_turbo_boost` for a manual change).
use vstd::prelude::*;
use crate::text::{decimal, decimal_string};

verus! {

/// The GUID of the processor power-settings subgroup.
pub const SUB_PROCESSOR_GUID: &'static str = "54533251-82be-4824-96c1-47b60b740d00";

/// The GUID of the maximum processor state setting (PROCTHROTTLEMAX).
pub const PROCTHROTTLEMAX_GUID: &'static str = "bc5038f7-23e0-4960-96da-33abaf5935ec";

#[derive(Debug, Clone, Copy, PartialEq, Eq, Structural)]
pub enum GovernorState {
    Normal,
    CoolingClamped,
}

/// What the caller is asked to do after an evaluation.
#[derive(Debug, Clone, Copy, PartialEq, Eq, Structural)]
pub enum BoostAction {
    Unchanged,
    /// Enable (`true`) or disable (`false`) Turbo Boost.
    SetBoost(bool),
}

/// The governor's state and settings.
pub struct GovernorView {
    pub state: GovernorState,
    pub high_temp_threshold_tenths: i32,
    pub cool_temp_threshold_tenths: i32,
    pub consecutive_cool_ticks: u32,
    pub required_cool_ticks: u32,
    pub auto_cool_enabled: bool,
}

/// Whether an evaluation of `g` would count one more cool tick past the
/// range of `u32`.
pub open spec fn step_overflows(g: GovernorView, temp: Option<i32>, is_ac_online: bool) -> bool {
    &&& g.auto_cool_enabled
    &&& is_ac_online
    &&& temp is Some
    &&& g.state == GovernorState::CoolingClamped
    &&& temp->0 <= g.cool_temp_threshold_tenths
    &&& g.consecutive_cool_ticks == u32::MAX
}

/// One evaluation: the governor afterwards and the change it asks for.
pub open spec fn governor_step(g: GovernorView, temp: Option<i32>, is_ac_online: bool) -> (GovernorView, BoostAction) {
    if !g.auto_cool_enabled || temp is None || !is_ac_online {
        (g, BoostAction::Unchanged)
    } else {
        let t = temp->0;
        match g.state {
            GovernorState::Normal => {
                if t >= g.high_temp_threshold_tenths {
                    (g, BoostAction::SetBoost(false))
                } else {
                    (g, BoostAction::Unchanged)
                }
            },
            GovernorState::CoolingClamped => {
                if t <= g.cool_temp_threshold_tenths {
                    let ticks = (g.consecutive_cool_ticks + 1) as u32;
                    let g2 = GovernorView { consecutive_cool_ticks: ticks, ..g };
                    if ticks >= g.required_cool_ticks {
                        (g2, BoostAction::SetBoost(true))
                    } else {
                        (g2, BoostAction::Unchanged)
                    }
                } else {
                    (GovernorView { consecutive_cool_ticks: 0, ..g }, BoostAction::Unchanged)
                }
            },
        }
    }
}

/// The state after a successful change of Turbo Boost.
pub open spec fn state_for_boost(enabled: bool) -> GovernorState {
    if enabled {
        GovernorState::Normal
    } else {
        GovernorState::CoolingClamped
    }
}

/// The maximum processor state for a Turbo Boost setting: 100% keeps boost
/// available, 99% disables it.
pub open spec fn boost_percent(enabled: bool) -> u32 {
    if enabled {
        100
    } else {
        99
    }
}

pub fn boost_value(enabled: bool) -> (r: u32)
    ensures
        r == boost_percent(enabled),
{
    if enabled {
        100
    } else {
        99
    }
}

/// The arguments of `powercfg` that write the maximum processor state for
/// AC power.
pub fn powercfg_write_args(enabled: bool) -> (r: Vec<String>)
    ensures
        r@.len() == 5,
        r@[0]@ == "/setacvalueindex"@,
        r@[1]@ == "SCHEME_CURRENT"@,
        r@[2]@ == SUB_PROCESSOR_GUID@,
        r@[3]@ == PROCTHROTTLEMAX_GUID@,
        r@[4]@ == decimal(boost_percent(enabled) as nat),
{
    let mut r: Vec<String> = Vec::new();
    r.push(String::from_str("/setacvalueindex"));
    r.push(String::from_str("SCHEME_CURRENT"));
    r.push(String::from_str(SUB_PROCESSOR_GUID));
    r.push(String::from_str(PROCTHROTTLEMAX_GUID));
    r.push(decimal_string(boost_value(enabled)));
    r
}

/// The arguments of `powercfg` that activate the changed scheme.
pub fn powercfg_activate_args() -> (r: Vec<String>)
    ensures
        r@.len() == 2,
        r@[0]@ == "/setactive"@,
        r@[1]@ == "SCHEME_CURRENT"@,
{
    let mut r: Vec<String> = Vec::new();
    r.push(String::from_str("/setactive"));
    r.push(String::from_str("SCHEME_CURRENT"));
    r
}

pub struct PowerGovernor {
    state: GovernorState,
    high_temp_threshold_tenths: i32,
    cool_temp_threshold_tenths: i32,
    consecutive_cool_ticks: u32,
    required_cool_ticks: u32,
    auto_cool_enabled: bool,
}

impl View for PowerGovernor {
    type V = GovernorView;

    closed spec fn view(&self) -> GovernorView {
        GovernorView {
            state: self.state,
            high_temp_threshold_tenths: self.high_temp_threshold_tenths,
            cool_temp_threshold_tenths: self.cool_temp_threshold_tenths,
            consecutive_cool_ticks: self.consecutive_cool_ticks,
            required_cool_ticks: self.required_cool_ticks,
            auto_cool_enabled: self.auto_cool_enabled,
        }
    }
}

impl PowerGovernor {
    pub fn new(
        high_temp_threshold_tenths: i32,
        cool_temp_threshold_tenths: i32,
        required_cool_ticks: u32,
        auto_cool_enabled: bool,
    ) -> (r: PowerGovernor)
        ensures
            r@ == (GovernorView {
                state: GovernorState::Normal,
                high_temp_threshold_tenths,
                cool_temp_threshold_tenths,
                consecutive_cool_ticks: 0,
                required_cool_ticks,
                auto_cool_enabled,
            }),
    {
        PowerGovernor {
            state: GovernorState::Normal,
            high_temp_threshold_tenths,
            cool_temp_threshold_tenths,
            consecutive_cool_ticks: 0,
            required_cool_ticks,
            auto_cool_enabled,
        }
    }

    pub fn current_state(&self) -> (r: GovernorState)
        ensures
            r == self@.state,
    {
        self.state
    }

    pub fn set_auto_cool(&mut self, enabled: bool)
        ensures
            final(self)@ == (GovernorView { auto_cool_enabled: enabled, ..old(self)@ }),
    {
        self.auto_cool_enabled = enabled;
    }

    pub fn is_auto_cool_enabled(&self) -> (r: bool)
        ensures
            r == self@.auto_cool_enabled,
    {
        self.auto_cool_enabled
    }

    pub fn set_high_temp_threshold(&mut self, threshold_tenths: i32)
        ensures
            final(self)@ == (GovernorView { high_temp_threshold_tenths: threshold_tenths, ..old(self)@ }),
    {
        self.high_temp_threshold_tenths = threshold_tenths;
    }

    pub fn high_temp_threshold(&self) -> (r: i32)
        ensures
            r == self@.high_temp_threshold_tenths,
    {
        self.high_temp_threshold_tenths
    }

    /// The number of consecutive safe readings counted while clamped.
    pub fn consecutive_cool_ticks(&self) -> (r: u32)
        ensures
            r == self@.consecutive_cool_ticks,
    {
        self.consecutive_cool_ticks
    }

    /// Records a successful change of Turbo Boost: enabled means the normal
    /// state, disabled the clamped one.
    pub fn record_turbo_boost(&mut self, enabled: bool)
        ensures
            final(self)@ == (GovernorView { state: state_for_boost(enabled), ..old(self)@ }),
    {
        self.state = if enabled {
            GovernorState::Normal
        } else {
            GovernorState::CoolingClamped
        };
    }

    /// Whether `evaluate_thermals` can count this reading: false only when
    /// the count of consecutive cool ticks would pass `u32::MAX`.
    pub fn evaluation_fits(&self, current_temp_tenths: Option<i32>, is_ac_online: bool) -> (r: bool)
        ensures
            r == !step_overflows(self@, current_temp_tenths, is_ac_online),
    {
        match current_temp_tenths {
            Some(t) => !(self.auto_cool_enabled && is_ac_online && self.state == GovernorState::CoolingClamped
                && t <= self.cool_temp_threshold_tenths && self.consecutive_cool_ticks == u32::MAX),
            None => true,
        }
    }

    /// Evaluates the current temperature and says whether Turbo Boost
    /// should change. The governor only acts in automatic mode, with a
    /// reading, on AC power.
    pub fn evaluate_thermals(&mut self, current_temp_tenths: Option<i32>, is_ac_online: bool) -> (r: BoostAction)
        requires
            !step_overflows(old(self)@, current_temp_tenths, is_ac_online),
        ensures
            (final(self)@, r) == governor_step(old(self)@, current_temp_tenths, is_ac_online),
    {
        // In manual mode the governor never intervenes
        if !self.auto_cool_enabled {
            return BoostAction::Unchanged;
        }
        let temp = match current_temp_tenths {
            Some(t) => t,
            None => {
                return BoostAction::Unchanged;
            },
        };
        // Only govern when plugged in
        if !is_ac_online {
            return BoostAction::Unchanged;
        }
        match self.state {
            GovernorState::Normal => {
                if temp >= self.high_temp_threshold_tenths {
                    BoostAction::SetBoost(false)
                } else {
                    BoostAction::Unchanged
                }
            },
            GovernorState::CoolingClamped => {
                if temp <= self.cool_temp_threshold_tenths {
                    self.consecutive_cool_ticks = self.consecutive_cool_ticks + 1;
                    if self.consecutive_cool_ticks >= self.required_cool_ticks {
                        BoostAction::SetBoost(true)
                    } else {
                        BoostAction::Unchanged
                    }
                } else {
                    self.consecutive_cool_ticks = 0;
                    BoostAction::Unchanged
                }
            },
        }
    }

    /// Takes the outcome of a change that `evaluate_thermals` asked for.
    /// Returns `Some(true)` when boost was clamped, `Some(false)` when it was
    /// restored, `None` when the change failed.
    pub fn finish_boost_change(&mut self, enabled: bool, succeeded: bool) -> (r: Option<bool>)
        ensures
            succeeded ==> r == Some(!enabled) && final(self)@ == (GovernorView {
                state: state_for_boost(enabled),
                consecutive_cool_ticks: 0,
                ..old(self)@
            }),
            !succeeded ==> r is None && final(self)@ == old(self)@,
    {
        if succeeded {
            self.record_turbo_boost(enabled);
            self.consecutive_cool_ticks = 0;
            Some(!enabled)
        } else {
            None
        }
    }
}

impl Default for PowerGovernor {
    /// Clamp at 88.0°C, restore after 5 ticks at or below 65.0°C, automatic.
    fn default() -> (r: PowerGovernor)
        ensures
            r@ == (GovernorView {
                state: GovernorState::Normal,
                high_temp_threshold_tenths: 880,
                cool_temp_threshold_tenths: 650,
                consecutive_cool_ticks: 0,
                required_cool_ticks: 5,
                auto_cool_enabled: true,
            }),
    {
        PowerGovernor::new(880, 650, 5, true)
    }
}

/// The governor after a run of evaluations whose requested changes were not
/// carried out.
pub open spec fn run_governor(g: GovernorView, readings: Seq<(Option<i32>, bool)>) -> GovernorView
    decreases readings.len(),
{
    if readings.len() == 0 {
        g
    } else {
        let prev = run_governor(g, readings.drop_last());
        governor_step(prev, readings.last().0, readings.last().1).0
    }
}

/// Evaluations never change the state or the settings; they only count cool
/// ticks, at most one per evaluation.
proof fn lemma_run_keeps_state(g: GovernorView, readings: Seq<(Option<i32>, bool)>)
    ensures
        run_governor(g, readings).state == g.state,
        run_governor(g, readings).required_cool_ticks == g.required_cool_ticks,
        run_governor(g, readings).auto_cool_enabled == g.auto_cool_enabled,
        run_governor(g, readings).high_temp_threshold_tenths == g.high_temp_threshold_tenths,
        run_governor(g, readings).cool_temp_threshold_tenths == g.cool_temp_threshold_tenths,
        g.consecutive_cool_ticks + readings.len() <= u32::MAX ==> run_governor(g, readings).consecutive_cool_ticks <= g.consecutive_cool_ticks + readings.len(),
    decreases readings.len(),
{
    if readings.len() > 0 {
        lemma_run_keeps_state(g, readings.drop_last());
    }
}

/// Hysteresis: once boost has been clamped, the governor does not ask to
/// restore it before `required_cool_ticks` evaluations have passed, whatever
/// the readings.
pub proof fn law_no_restore_before_required_cool_ticks(g: GovernorView, readings: Seq<(Option<i32>, bool)>)
    requires
        g.state == GovernorState::CoolingClamped,
        g.consecutive_cool_ticks == 0,
        readings.len() < g.required_cool_ticks,
    ensures
        forall|k: int| 0 <= k < readings.len() ==> governor_step(
            run_governor(g, #[trigger] readings.take(k)),
            readings[k].0,
            readings[k].1,
        ).1 == BoostAction::Unchanged,
{
    assert forall|k: int| 0 <= k < readings.len() implies governor_step(
        run_governor(g, #[trigger] readings.take(k)),
        readings[k].0,
        readings[k].1,
    ).1 == BoostAction::Unchanged by {
        lemma_run_keeps_state(g, readings.take(k));
    }
}

/// Boost is only ever clamped in automatic mode, on AC power, from the
/// normal state, with a reading at or above the high threshold; and only
/// ever restored from the clamped state after a reading at or below the cool
/// threshold that completes `required_cool_ticks` consecutive cool ticks.
pub proof fn law_changes_only_when_warranted(g: GovernorView, temp: Option<i32>, is_ac_online: bool)
    ensures
        governor_step(g, temp, is_ac_online).1 == BoostAction::SetBoost(false) ==> {
            &&& g.auto_cool_enabled && is_ac_online && temp is Some
            &&& g.state == GovernorState::Normal
            &&& temp->0 >= g.high_temp_threshold_tenths
        },
        governor_step(g, temp, is_ac_online).1 == BoostAction::SetBoost(true) ==> {
            &&& g.auto_cool_enabled && is_ac_online && temp is Some
            &&& g.state == GovernorState::CoolingClamped
            &&& temp->0 <= g.cool_temp_threshold_tenths
            &&& governor_step(g, temp, is_ac_online).0.consecutive_cool_ticks >= g.required_cool_ticks
        },
{
}

/// Whether the governor acts on a reading at all: automatic mode, on AC
/// power, with a temperature.
pub open spec fn governed(g: GovernorView, reading: (Option<i32>, bool)) -> bool {
    g.auto_cool_enabled && reading.1 && reading.0 is Some
}

/// The run of consecutive cool governed readings at the end of `readings`:
/// readings the governor does not act on leave it as it is, a cool one adds
/// one and a hot one ends it.
pub open spec fn cool_streak(g: GovernorView, readings: Seq<(Option<i32>, bool)>) -> nat
    decreases readings.len(),
{
    if readings.len() == 0 {
        0
    } else if !governed(g, readings.last()) {
        cool_streak(g, readings.drop_last())
    } else if readings.last().0->0 <= g.cool_temp_threshold_tenths {
        cool_streak(g, readings.drop_last()) + 1
    } else {
        0
    }
}

proof fn lemma_cool_streak(g: GovernorView, readings: Seq<(Option<i32>, bool)>)
    requires
        g.state == GovernorState::CoolingClamped,
        g.consecutive_cool_ticks == 0,
        readings.len() <= u32::MAX,
    ensures
        run_governor(g, readings).consecutive_cool_ticks == cool_streak(g, readings),
        cool_streak(g, readings) <= readings.len(),
    decreases readings.len(),
{
    if readings.len() > 0 {
        lemma_cool_streak(g, readings.drop_last());
        lemma_run_keeps_state(g, readings.drop_last());
    }
}

/// Restoring boost after clamping: starting from a fresh clamp, the
/// governor counts exactly the consecutive cool governed readings (a hot one
/// starts the count again), never asks to clamp again while clamped, and
/// asks to restore boost on a reading exactly when that reading is governed,
/// at or below the cool threshold, and completes `required_cool_ticks`
/// consecutive cool readings. The evaluation itself leaves the governor
/// clamped; only a successful change reported to `finish_boost_change`
/// returns it to the normal state.
pub proof fn law_restore_exactly_after_required_cool_ticks(
    g: GovernorView,
    readings: Seq<(Option<i32>, bool)>,
    temp: Option<i32>,
    is_ac_online: bool,
)
    requires
        g.state == GovernorState::CoolingClamped,
        g.consecutive_cool_ticks == 0,
        readings.len() < u32::MAX,
    ensures
        run_governor(g, readings).consecutive_cool_ticks == cool_streak(g, readings),
        governor_step(run_governor(g, readings), temp, is_ac_online).1 != BoostAction::SetBoost(false),
        governor_step(run_governor(g, readings), temp, is_ac_online).0.state == GovernorState::CoolingClamped,
        governor_step(run_governor(g, readings), temp, is_ac_online).1 == BoostAction::SetBoost(true) <==> {
            &&& governed(g, (temp, is_ac_online))
            &&& temp->0 <= g.cool_temp_threshold_tenths
            &&& cool_streak(g, readings.push((temp, is_ac_online))) >= g.required_cool_ticks
        },
{
    lemma_cool_streak(g, readings);
    lemma_run_keeps_state(g, readings);
    let all = readings.push((temp, is_ac_online));
    assert(all.drop_last() =~= readings);
    assert(all.last() == (temp, is_ac_online));
}

} // verus!
