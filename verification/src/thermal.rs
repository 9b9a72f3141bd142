//! Thermal telemetry: which sensors to read, how raw readings become
//! temperatures, and how they combine into a [`ThermalSnapshot`].
//!
//! The sensors themselves (ACPI thermal zones, `nvidia-smi`, the power
//! status) are read by the caller, which asks `gpu_action` and
//! `reads_cpu_zone` first and hands the readings to `sample`.
use vstd::prelude::*;
use crate::types::ThermalSnapshot;

verus! {

/// What to do about the discrete GPU this tick.
#[derive(Debug, Clone, Copy, PartialEq, Eq, Structural)]
pub enum GpuAction {
    /// GPU monitoring is off, or `nvidia-smi` is known to be missing: run nothing.
    Skip,
    /// Availability is unknown: run `nvidia-smi --help` once and report it.
    Probe,
    /// Query the metrics.
    Query,
}

/// GPU metrics as `nvidia-smi` reported them: temperature in tenths of a
/// degree, power in tenths of a watt, utilization in tenths of a percent,
/// graphics clock in MHz.
#[derive(Debug, Clone, Copy, PartialEq, Eq, Structural)]
pub struct GpuMetrics {
    pub temp_tenths: Option<i32>,
    pub power_tenths_w: Option<i32>,
    pub utilization_tenths: Option<i32>,
    pub clock_mhz: Option<u32>,
}

/// AC line and battery state.
#[derive(Debug, Clone, Copy, PartialEq, Eq, Structural)]
pub struct PowerStatus {
    pub is_ac_online: bool,
    pub battery_percent: Option<u8>,
}

pub open spec fn is_digit(c: char) -> bool {
    '0' <= c <= '9'
}

pub open spec fn all_digits(s: Seq<char>) -> bool {
    forall|i: int| 0 <= i < s.len() ==> is_digit(#[trigger] s[i])
}

/// The number that the decimal digits `s` spell.
pub open spec fn digits_value(s: Seq<char>) -> nat
    decreases s.len(),
{
    if s.len() == 0 {
        0
    } else {
        digits_value(s.drop_last()) * 10 + ((s.last() as u32) - 48) as nat
    }
}

/// `str::parse::<u32>`: an optional `+` and at least one digit, in range.
pub open spec fn parse_u32(s: Seq<char>) -> Option<u32> {
    let b = if s.len() > 0 && s[0] == '+' {
        s.drop_first()
    } else {
        s
    };
    if b.len() > 0 && all_digits(b) && digits_value(b) <= u32::MAX {
        Some(digits_value(b) as u32)
    } else {
        None
    }
}

/// The index of the first `.` in `s`, or its length.
pub open spec fn dot_index(s: Seq<char>) -> int
    decreases s.len(),
{
    if s.len() == 0 {
        0
    } else if s[0] == '.' {
        0
    } else {
        1 + dot_index(s.drop_first())
    }
}

/// A decimal number in tenths, rounded half up on its magnitude: an
/// optional sign, digits, an optional `.` and more digits, at least one
/// digit in all. `None` when the text is not such a number or its value
/// leaves the range of `i32`. This is the plain decimal form `nvidia-smi`
/// prints; exponents (`1e2`) and the words `inf`, `infinity` and `NaN`,
/// which a float parse would take, are not numbers here.
pub open spec fn parse_tenths(s: Seq<char>) -> Option<i32> {
    let neg = s.len() > 0 && s[0] == '-';
    let b = if s.len() > 0 && (s[0] == '-' || s[0] == '+') {
        s.drop_first()
    } else {
        s
    };
    let d = dot_index(b);
    let ip = b.take(d);
    let fp = if d < b.len() {
        b.skip(d + 1)
    } else {
        Seq::empty()
    };
    let mag: int = digits_value(ip) * 10 + (if fp.len() > 0 {
        (fp[0] as u32) - 48
    } else {
        0
    }) + (if fp.len() > 1 && fp[1] >= '5' {
        1int
    } else {
        0
    });
    let v = if neg {
        -mag
    } else {
        mag
    };
    if all_digits(ip) && all_digits(fp) && ip.len() + fp.len() > 0 && i32::MIN <= v <= i32::MAX {
        Some(v as i32)
    } else {
        None
    }
}

/// The fields of one line of output, split at every comma and trimmed.
pub open spec fn comma_fields(s: Seq<char>) -> Seq<Seq<char>>
    decreases s.len(),
{
    if s.len() == 0 {
        seq![Seq::empty()]
    } else {
        let prev = comma_fields(s.drop_last());
        if s.last() == ',' {
            prev.push(Seq::empty())
        } else {
            prev.update(prev.len() - 1, prev.last().push(s.last()))
        }
    }
}

/// The GPU metrics in the output of
/// `nvidia-smi --query-gpu=temperature.gpu,power.draw,utilization.gpu,clocks.current.graphics --format=csv,noheader,nounits`:
/// the trimmed text split at commas, each field trimmed, the first three read
/// as decimals in tenths, the fourth as a whole number.
pub open spec fn gpu_metrics_of(text: Seq<char>) -> GpuMetrics {
    let f = comma_fields(crate::text::trim_ws(text)).map_values(|x: Seq<char>| crate::text::trim_ws(x));
    GpuMetrics {
        temp_tenths: if f.len() > 0 { parse_tenths(f[0]) } else { None },
        power_tenths_w: if f.len() > 1 { parse_tenths(f[1]) } else { None },
        utilization_tenths: if f.len() > 2 { parse_tenths(f[2]) } else { None },
        clock_mhz: if f.len() > 3 { parse_u32(f[3]) } else { None },
    }
}

/// A thermal-zone counter value in Celsius tenths, when it is a plausible
/// CPU or motherboard temperature: 20.0°C to 115.0°C, judged on the exact
/// value. The value is given in thousandths of the counter's unit: tenths of
/// a kelvin for the high precision counter (0°C is 2732), kelvins for the
/// standard one (0°C is 273.15).
pub open spec fn zone_celsius_tenths(milli: i64, high_precision: bool) -> Option<int> {
    if high_precision {
        let d = milli - 2_732_000;
        if 200_000 <= d <= 1_150_000 {
            Some(d / 1000)
        } else {
            None
        }
    } else {
        let d = milli - 273_150;
        if 20_000 <= d <= 115_000 {
            Some(d / 100)
        } else {
            None
        }
    }
}

/// A plausible CPU temperature in tenths: 20.0°C to 115.0°C.
pub open spec fn plausible(c: int) -> bool {
    200 <= c <= 1150
}

/// The highest plausible temperature among the counter values of the zones.
pub open spec fn hottest_zone(values: Seq<i64>, high_precision: bool) -> Option<int>
    decreases values.len(),
{
    if values.len() == 0 {
        None
    } else {
        let prev = hottest_zone(values.drop_last(), high_precision);
        match zone_celsius_tenths(values.last(), high_precision) {
            Some(c) => match prev {
                Some(m) => Some(if c > m { c } else { m }),
                None => Some(c),
            },
            None => prev,
        }
    }
}

/// The CPU temperature from the thermal zones: the high precision counter
/// first, the standard one if that gives nothing.
pub open spec fn zone_temperature(high_precision: Option<Seq<i64>>, standard: Option<Seq<i64>>) -> Option<int> {
    let hp = match high_precision {
        Some(v) => hottest_zone(v, true),
        None => None,
    };
    if hp is Some {
        hp
    } else {
        match standard {
            Some(v) => hottest_zone(v, false),
            None => None,
        }
    }
}

/// The power status from `GetSystemPowerStatus`: AC online when the line
/// status is 1, battery percent when at most 100; on failure AC online and no
/// battery figure.
pub open spec fn power_status_of(succeeded: bool, ac_line_status: u8, battery_life_percent: u8) -> PowerStatus {
    if succeeded {
        PowerStatus {
            is_ac_online: ac_line_status == 1,
            battery_percent: if battery_life_percent <= 100 { Some(battery_life_percent) } else { None },
        }
    } else {
        PowerStatus { is_ac_online: true, battery_percent: None }
    }
}

pub fn power_status(succeeded: bool, ac_line_status: u8, battery_life_percent: u8) -> (r: PowerStatus)
    ensures
        r == power_status_of(succeeded, ac_line_status, battery_life_percent),
{
    if succeeded {
        PowerStatus {
            is_ac_online: ac_line_status == 1,
            battery_percent: if battery_life_percent <= 100 {
                Some(battery_life_percent)
            } else {
                None
            },
        }
    } else {
        PowerStatus { is_ac_online: true, battery_percent: None }
    }
}

/// Settings and the remembered availability of `nvidia-smi`.
pub struct ThermalProvider {
    nvidia_smi_available: Option<bool>,
    cpu_temp_monitoring: bool,
    gpu_temp_monitoring: bool,
    gpu_monitoring: bool,
}

/// The provider's settings and knowledge.
/// What a provider in the state `v` does about the GPU: nothing with GPU
/// monitoring off; otherwise probe for `nvidia-smi` until a probe has been
/// recorded, then query it only if it was found.
pub open spec fn gpu_action_for(v: ThermalProviderView) -> GpuAction {
    if !v.gpu_monitoring {
        GpuAction::Skip
    } else {
        match v.nvidia_smi_available {
            None => GpuAction::Probe,
            Some(true) => GpuAction::Query,
            Some(false) => GpuAction::Skip,
        }
    }
}

pub struct ThermalProviderView {
    pub nvidia_smi_available: Option<bool>,
    pub cpu_temp_monitoring: bool,
    pub gpu_temp_monitoring: bool,
    pub gpu_monitoring: bool,
}

impl View for ThermalProvider {
    type V = ThermalProviderView;

    closed spec fn view(&self) -> ThermalProviderView {
        ThermalProviderView {
            nvidia_smi_available: self.nvidia_smi_available,
            cpu_temp_monitoring: self.cpu_temp_monitoring,
            gpu_temp_monitoring: self.gpu_temp_monitoring,
            gpu_monitoring: self.gpu_monitoring,
        }
    }
}

/// What a sample reports from the readings under these settings.
pub open spec fn thermal_snapshot_of(
    v: ThermalProviderView,
    power: PowerStatus,
    gpu: GpuMetrics,
    cpu_zone_tenths: Option<i32>,
) -> ThermalSnapshot {
    let g = if v.gpu_monitoring {
        gpu
    } else {
        GpuMetrics { temp_tenths: None, power_tenths_w: None, utilization_tenths: None, clock_mhz: None }
    };
    let zone = if v.cpu_temp_monitoring && cpu_zone_tenths is Some && plausible(cpu_zone_tenths->0 as int) {
        cpu_zone_tenths
    } else {
        None
    };
    let cpu = if v.cpu_temp_monitoring && zone is None && g.temp_tenths is Some {
        let t = g.temp_tenths->0 + 40;
        if t < 200 {
            None
        } else {
            Some(if t < 990 { t as i32 } else { 990i32 })
        }
    } else {
        zone
    };
    ThermalSnapshot {
        cpu_package_temp_tenths: cpu,
        max_core_temp_tenths: cpu,
        gpu_temp_tenths: if v.gpu_temp_monitoring { g.temp_tenths } else { None },
        gpu_power_tenths_w: g.power_tenths_w,
        gpu_utilization_tenths: g.utilization_tenths,
        gpu_clock_mhz: g.clock_mhz,
        is_ac_online: power.is_ac_online,
        battery_percent: power.battery_percent,
    }
}

impl ThermalProvider {
    /// The settings of a new provider.
    pub open spec fn new_view() -> ThermalProviderView {
        ThermalProviderView {
            nvidia_smi_available: None,
            cpu_temp_monitoring: true,
            gpu_temp_monitoring: true,
            gpu_monitoring: true,
        }
    }

    /// All monitoring on; nothing known about `nvidia-smi` yet (probing at
    /// construction would wake a switchable GPU before the user's
    /// preference applies).
    pub fn new() -> (r: ThermalProvider)
        ensures
            r@ == (ThermalProviderView {
                nvidia_smi_available: None,
                cpu_temp_monitoring: true,
                gpu_temp_monitoring: true,
                gpu_monitoring: true,
            }),
    {
        ThermalProvider {
            nvidia_smi_available: None,
            cpu_temp_monitoring: true,
            gpu_temp_monitoring: true,
            gpu_monitoring: true,
        }
    }

    /// Enables or disables CPU package temperature sampling.
    pub fn set_cpu_temp_monitoring(&mut self, enabled: bool)
        ensures
            final(self)@ == (ThermalProviderView { cpu_temp_monitoring: enabled, ..old(self)@ }),
    {
        self.cpu_temp_monitoring = enabled;
    }

    pub fn is_cpu_temp_monitoring(&self) -> (r: bool)
        ensures
            r == self@.cpu_temp_monitoring,
    {
        self.cpu_temp_monitoring
    }

    /// Enables or disables discrete GPU temperature reporting; the other GPU
    /// metrics keep reporting.
    pub fn set_gpu_temp_monitoring(&mut self, enabled: bool)
        ensures
            final(self)@ == (ThermalProviderView { gpu_temp_monitoring: enabled, ..old(self)@ }),
    {
        self.gpu_temp_monitoring = enabled;
    }

    pub fn is_gpu_temp_monitoring(&self) -> (r: bool)
        ensures
            r == self@.gpu_temp_monitoring,
    {
        self.gpu_temp_monitoring
    }

    /// Master switch for all discrete GPU telemetry.
    pub fn set_gpu_monitoring(&mut self, enabled: bool)
        ensures
            final(self)@ == (ThermalProviderView { gpu_monitoring: enabled, ..old(self)@ }),
    {
        self.gpu_monitoring = enabled;
    }

    pub fn is_gpu_monitoring(&self) -> (r: bool)
        ensures
            r == self@.gpu_monitoring,
    {
        self.gpu_monitoring
    }

    /// Whether `nvidia-smi` is known to be present, absent, or not yet probed.
    pub fn nvidia_smi_available(&self) -> (r: Option<bool>)
        ensures
            r == self@.nvidia_smi_available,
    {
        self.nvidia_smi_available
    }

    /// Records the outcome of probing for `nvidia-smi`.
    pub fn record_nvidia_smi_probe(&mut self, available: bool)
        ensures
            final(self)@ == (ThermalProviderView { nvidia_smi_available: Some(available), ..old(self)@ }),
    {
        self.nvidia_smi_available = Some(available);
    }

    /// What to do about the GPU this tick. With GPU monitoring off nothing
    /// runs, not even the availability probe.
    pub fn gpu_action(&self) -> (r: GpuAction)
        ensures
            r == gpu_action_for(self@),
    {
        if !self.gpu_monitoring {
            return GpuAction::Skip;
        }
        match self.nvidia_smi_available {
            None => GpuAction::Probe,
            Some(true) => GpuAction::Query,
            Some(false) => GpuAction::Skip,
        }
    }

    /// Whether the thermal zones are read this tick.
    pub fn reads_cpu_zone(&self) -> (r: bool)
        ensures
            r == self@.cpu_temp_monitoring,
    {
        self.cpu_temp_monitoring
    }

    /// Combines one tick's readings. GPU metrics count only while GPU
    /// monitoring is on, the zone temperature only while CPU temperature
    /// monitoring is on and only when it is plausible (20.0°C to 115.0°C).
    /// When the zones give nothing, the GPU temperature plus 4.0°C, capped
    /// at 99.0°C, stands in for the CPU package if that is at least 20.0°C.
    pub fn sample(&self, power: PowerStatus, gpu: GpuMetrics, cpu_zone_tenths: Option<i32>) -> (r: ThermalSnapshot)
        ensures
            r == thermal_snapshot_of(self@, power, gpu, cpu_zone_tenths),
    {
        let g = if self.gpu_monitoring {
            gpu
        } else {
            GpuMetrics { temp_tenths: None, power_tenths_w: None, utilization_tenths: None, clock_mhz: None }
        };
        let zone = match cpu_zone_tenths {
            Some(z) if self.cpu_temp_monitoring && 200 <= z && z <= 1150 => Some(z),
            _ => None,
        };
        let cpu = if self.cpu_temp_monitoring && zone.is_none() && g.temp_tenths.is_some() {
            let t = g.temp_tenths.unwrap();
            if t < 160 {
                None
            } else if t < 950 {
                Some(t + 40)
            } else {
                Some(990i32)
            }
        } else {
            zone
        };
        let gpu_temp = if self.gpu_temp_monitoring {
            g.temp_tenths
        } else {
            None
        };
        ThermalSnapshot {
            cpu_package_temp_tenths: cpu,
            max_core_temp_tenths: cpu,
            gpu_temp_tenths: gpu_temp,
            gpu_power_tenths_w: g.power_tenths_w,
            gpu_utilization_tenths: g.utilization_tenths,
            gpu_clock_mhz: g.clock_mhz,
            is_ac_online: power.is_ac_online,
            battery_percent: power.battery_percent,
        }
    }
}

impl Default for ThermalProvider {
    fn default() -> (r: ThermalProvider)
        ensures
            r@ == (ThermalProviderView {
                nvidia_smi_available: None,
                cpu_temp_monitoring: true,
                gpu_temp_monitoring: true,
                gpu_monitoring: true,
            }),
    {
        ThermalProvider::new()
    }
}

/// With GPU monitoring off, no GPU process is ever started and every GPU
/// metric is silent, whatever the readings; with CPU temperature monitoring
/// off, no CPU temperature is reported.
pub proof fn law_monitoring_switches_silence_readings(
    v: ThermalProviderView,
    power: PowerStatus,
    gpu: GpuMetrics,
    cpu_zone_tenths: Option<i32>,
)
    ensures
        !v.gpu_monitoring ==> {
            let s = thermal_snapshot_of(v, power, gpu, cpu_zone_tenths);
            &&& s.gpu_temp_tenths is None && s.gpu_power_tenths_w is None
            &&& s.gpu_utilization_tenths is None && s.gpu_clock_mhz is None
        },
        !v.gpu_temp_monitoring ==> thermal_snapshot_of(v, power, gpu, cpu_zone_tenths).gpu_temp_tenths is None,
        !v.cpu_temp_monitoring ==> {
            let s = thermal_snapshot_of(v, power, gpu, cpu_zone_tenths);
            s.cpu_package_temp_tenths is None && s.max_core_temp_tenths is None
        },
{
}

/// `nvidia-smi` is probed at most once: after a probe is recorded, however
/// the monitoring switches are set, the provider only queries it (if found)
/// or skips the GPU.
pub proof fn law_probe_at_most_once(
    v: ThermalProviderView,
    available: bool,
    cpu_temp_monitoring: bool,
    gpu_temp_monitoring: bool,
    gpu_monitoring: bool,
)
    ensures
        gpu_action_for(ThermalProviderView {
            nvidia_smi_available: Some(available),
            cpu_temp_monitoring,
            gpu_temp_monitoring,
            gpu_monitoring,
        }) == if gpu_monitoring && available {
            GpuAction::Query
        } else {
            GpuAction::Skip
        },
{
}

/// Every CPU temperature a sample reports lies between 20.0°C and 115.0°C,
/// whatever the readings.
pub proof fn law_cpu_temperature_is_plausible(
    v: ThermalProviderView,
    power: PowerStatus,
    gpu: GpuMetrics,
    cpu_zone_tenths: Option<i32>,
)
    ensures
        thermal_snapshot_of(v, power, gpu, cpu_zone_tenths).cpu_package_temp_tenths matches Some(t) ==> plausible(t as int),
        thermal_snapshot_of(v, power, gpu, cpu_zone_tenths).max_core_temp_tenths matches Some(t) ==> plausible(t as int),
{
}

proof fn lemma_digits_value_monotone(s: Seq<char>, k: int)
    requires
        0 <= k <= s.len(),
    ensures
        digits_value(s.take(k)) <= digits_value(s),
    decreases s.len(),
{
    if k < s.len() {
        assert(s.drop_last().take(k) =~= s.take(k));
        lemma_digits_value_monotone(s.drop_last(), k);
    } else {
        assert(s.take(k) =~= s);
    }
}

/// The value of the digits `s`, when all are digits and the value is at
/// most `cap`.
fn digits_value_capped(s: &str, cap: u64) -> (r: Option<u64>)
    requires
        cap <= 0x1000_0000_0000,
    ensures
        r matches Some(v) ==> all_digits(s@) && v == digits_value(s@) && v <= cap,
        r is None ==> !all_digits(s@) || digits_value(s@) > cap,
{
    let n = s.unicode_len();
    let mut v: u64 = 0;
    let mut k: usize = 0;
    while k < n
        invariant
            n == s@.len(),
            k <= n,
            cap <= 0x1000_0000_0000,
            all_digits(s@.take(k as int)),
            v == digits_value(s@.take(k as int)),
            v <= cap,
        decreases n - k,
    {
        let c = s.get_char(k);
        assert(s@.take(k + 1).drop_last() =~= s@.take(k as int));
        assert(s@.take(k + 1).last() == c);
        if !('0' <= c && c <= '9') {
            assert(!is_digit(s@[k as int]));
            return None;
        }
        let d = (c as u32 - 48) as u64;
        let nv = v * 10 + d;
        assert(all_digits(s@.take(k + 1))) by {
            assert forall|i: int| 0 <= i < k + 1 implies is_digit(#[trigger] s@.take(k + 1)[i]) by {
                if i < k {
                    assert(s@.take(k + 1)[i] == s@.take(k as int)[i]);
                }
            }
        }
        if nv > cap {
            proof {
                lemma_digits_value_monotone(s@, k + 1);
            }
            return None;
        }
        v = nv;
        k = k + 1;
    }
    assert(s@.take(n as int) =~= s@);
    Some(v)
}

/// `str::parse::<u32>`.
pub fn parse_u32_str(s: &str) -> (r: Option<u32>)
    ensures
        r == parse_u32(s@),
{
    let n = s.unicode_len();
    let b = if n > 0 && s.get_char(0) == '+' {
        s.substring_char(1, n)
    } else {
        s
    };
    assert(n > 0 && s@[0] == '+' ==> b@ =~= s@.drop_first());
    if b.unicode_len() == 0 {
        return None;
    }
    match digits_value_capped(b, 0xffff_ffff) {
        Some(v) => Some(v as u32),
        None => None,
    }
}

/// Whether every character of `s` is a decimal digit.
fn all_digits_str(s: &str) -> (r: bool)
    ensures
        r == all_digits(s@),
{
    let n = s.unicode_len();
    let mut k: usize = 0;
    while k < n
        invariant
            n == s@.len(),
            k <= n,
            forall|i: int| 0 <= i < k ==> is_digit(#[trigger] s@[i]),
        decreases n - k,
    {
        let c = s.get_char(k);
        if !('0' <= c && c <= '9') {
            return false;
        }
        k = k + 1;
    }
    true
}

/// The index of the first `.` in `s`, or its length.
fn find_dot(s: &str) -> (r: usize)
    ensures
        r as int == dot_index(s@),
        r <= s@.len(),
        r < s@.len() ==> s@[r as int] == '.',
{
    let n = s.unicode_len();
    let mut k: usize = 0;
    assert(s@.skip(0) =~= s@);
    while k < n && s.get_char(k) != '.'
        invariant
            n == s@.len(),
            k <= n,
            dot_index(s@) == k + dot_index(s@.skip(k as int)),
        decreases n - k,
    {
        assert(s@.skip(k as int).drop_first() =~= s@.skip(k + 1));
        assert(s@.skip(k as int)[0] == s@[k as int]);
        k = k + 1;
    }
    if k < n {
        assert(s@.skip(k as int)[0] == s@[k as int]);
    }
    k
}

/// A plain decimal number in tenths, rounded half up on its magnitude
/// (no exponent, no `inf` or `NaN`).
pub fn parse_tenths_str(s: &str) -> (r: Option<i32>)
    ensures
        r == parse_tenths(s@),
{
    let n = s.unicode_len();
    let signed = n > 0 && (s.get_char(0) == '-' || s.get_char(0) == '+');
    let neg = n > 0 && s.get_char(0) == '-';
    let b = if signed {
        s.substring_char(1, n)
    } else {
        s
    };
    assert(signed ==> b@ =~= s@.drop_first());
    let bn = b.unicode_len();
    let d = find_dot(b);
    let ip = b.substring_char(0, d);
    assert(ip@ =~= b@.take(d as int));
    let fp = if d < bn {
        b.substring_char(d + 1, bn)
    } else {
        b.substring_char(bn, bn)
    };
    assert(fp@ =~= (if (d as int) < b@.len() { b@.skip(d + 1) } else { Seq::<char>::empty() }));
    if ip.unicode_len() + fp.unicode_len() == 0 {
        return None;
    }
    let iv = match digits_value_capped(ip, 1_000_000_000) {
        Some(v) => v,
        None => {
            proof {
                if all_digits(fp@) && fp@.len() > 0 {
                    assert(is_digit(fp@[0]));
                }
            }
            return None;
        },
    };
    let fn_ = fp.unicode_len();
    if !all_digits_str(fp) {
        return None;
    }
    let first: u64 = if fn_ > 0 {
        (fp.get_char(0) as u32 - 48) as u64
    } else {
        0
    };
    let up: u64 = if fn_ > 1 && fp.get_char(1) >= '5' {
        1
    } else {
        0
    };
    let mag: u64 = iv * 10 + first + up;
    if neg {
        if mag > 2_147_483_648 {
            None
        } else {
            Some((0 - (mag as i64)) as i32)
        }
    } else {
        if mag > 2_147_483_647 {
            None
        } else {
            Some(mag as i32)
        }
    }
}

/// Splits `s` at every comma.
fn split_commas(s: &str) -> (r: Vec<String>)
    ensures
        r@.map_values(|x: String| x@) == comma_fields(s@),
{
    let n = s.unicode_len();
    let mut fields: Vec<String> = Vec::new();
    let mut cur = String::new();
    let mut k: usize = 0;
    assert(s@.take(0) =~= Seq::<char>::empty());
    assert(fields@.map_values(|x: String| x@).push(cur@) =~= comma_fields(s@.take(0)));
    while k < n
        invariant
            n == s@.len(),
            k <= n,
            fields@.map_values(|x: String| x@).push(cur@) == comma_fields(s@.take(k as int)),
        decreases n - k,
    {
        let c = s.get_char(k);
        let ghost prev = fields@.map_values(|x: String| x@).push(cur@);
        assert(s@.take(k + 1).drop_last() =~= s@.take(k as int));
        assert(s@.take(k + 1).last() == c);
        if c == ',' {
            let done = cur;
            fields.push(done);
            cur = String::new();
            assert(fields@.map_values(|x: String| x@).push(cur@) =~= prev.push(Seq::<char>::empty()));
        } else {
            crate::text::push_char(&mut cur, c);
            assert(fields@.map_values(|x: String| x@).push(cur@) =~= prev.update(prev.len() - 1, prev.last().push(c)));
        }
        k = k + 1;
    }
    assert(s@.take(n as int) =~= s@);
    let ghost before = fields@.map_values(|x: String| x@);
    fields.push(cur);
    assert(fields@.map_values(|x: String| x@) =~= before.push(cur@));
    fields
}

/// Reads the GPU metrics from one run of `nvidia-smi`.
pub fn parse_gpu_metrics(text: &str) -> (r: GpuMetrics)
    ensures
        r == gpu_metrics_of(text@),
{
    let t = crate::text::trim_str(text);
    let fields = split_commas(t);
    let ghost f = comma_fields(t@).map_values(|x: Seq<char>| crate::text::trim_ws(x));
    assert(f.len() == fields@.len()) by {
        assert(fields@.map_values(|x: String| x@).len() == fields@.len());
    }
    proof {
        assert forall|i: int| 0 <= i < fields@.len() implies #[trigger] f[i] == crate::text::trim_ws(fields@[i]@) by {
            assert(fields@.map_values(|x: String| x@)[i] == fields@[i]@);
        }
    }
    let temp = if fields.len() > 0 {
        parse_tenths_str(crate::text::trim_str(fields[0].as_str()))
    } else {
        None
    };
    let power = if fields.len() > 1 {
        parse_tenths_str(crate::text::trim_str(fields[1].as_str()))
    } else {
        None
    };
    let util = if fields.len() > 2 {
        parse_tenths_str(crate::text::trim_str(fields[2].as_str()))
    } else {
        None
    };
    let clock = if fields.len() > 3 {
        parse_u32_str(crate::text::trim_str(fields[3].as_str()))
    } else {
        None
    };
    GpuMetrics { temp_tenths: temp, power_tenths_w: power, utilization_tenths: util, clock_mhz: clock }
}

/// The temperature of one thermal-zone counter value, if it is a plausible
/// reading.
fn zone_value(milli: i64, high_precision: bool) -> (r: Option<i32>)
    ensures
        r matches Some(c) ==> zone_celsius_tenths(milli, high_precision) == Some(c as int) && plausible(c as int),
        r is None ==> zone_celsius_tenths(milli, high_precision) is None,
{
    if high_precision {
        if 2_932_000 <= milli && milli <= 3_882_000 {
            Some(((milli - 2_732_000) / 1000) as i32)
        } else {
            None
        }
    } else {
        if 293_150 <= milli && milli <= 388_150 {
            Some(((milli - 273_150) / 100) as i32)
        } else {
            None
        }
    }
}

/// The highest plausible temperature among the counter values.
pub fn hottest_zone_temp(values: &[i64], high_precision: bool) -> (r: Option<i32>)
    ensures
        r matches Some(c) ==> hottest_zone(values@, high_precision) == Some(c as int) && plausible(c as int),
        r is None ==> hottest_zone(values@, high_precision) is None,
{
    let mut best: Option<i32> = None;
    let mut k: usize = 0;
    while k < values.len()
        invariant
            k <= values@.len(),
            best matches Some(c) ==> hottest_zone(values@.take(k as int), high_precision) == Some(c as int) && plausible(c as int),
            best is None ==> hottest_zone(values@.take(k as int), high_precision) is None,
        decreases values@.len() - k,
    {
        assert(values@.take(k + 1).drop_last() =~= values@.take(k as int));
        assert(values@.take(k + 1).last() == values@[k as int]);
        match zone_value(values[k], high_precision) {
            Some(c) => {
                best = match best {
                    Some(m) => Some(if c > m { c } else { m }),
                    None => Some(c),
                };
            },
            None => {},
        }
        k = k + 1;
    }
    assert(values@.take(values@.len() as int) =~= values@);
    best
}

/// The CPU temperature from the thermal zones: the high precision counter's
/// values first, the standard counter's if those give nothing.
pub fn zone_temperature_of(high_precision: Option<&[i64]>, standard: Option<&[i64]>) -> (r: Option<i32>)
    ensures
        r matches Some(c) ==> zone_temperature(
            match high_precision { Some(v) => Some(v@), None => None },
            match standard { Some(v) => Some(v@), None => None },
        ) == Some(c as int),
        r is None ==> zone_temperature(
            match high_precision { Some(v) => Some(v@), None => None },
            match standard { Some(v) => Some(v@), None => None },
        ) is None,
{
    let hp = match high_precision {
        Some(v) => hottest_zone_temp(v, true),
        None => None,
    };
    if hp.is_some() {
        hp
    } else {
        match standard {
            Some(v) => hottest_zone_temp(v, false),
            None => None,
        }
    }
}

/// The zone temperature is the hottest plausible zone: every zone whose
/// counter value converts to a plausible temperature is at most the
/// result, the result is the temperature of one of them, and without any
/// there is no result.
pub proof fn law_hottest_zone_is_the_maximum(values: Seq<i64>, high_precision: bool)
    ensures
        forall|i: int| 0 <= i < values.len() && (#[trigger] zone_celsius_tenths(values[i], high_precision)) is Some
            ==> hottest_zone(values, high_precision) is Some
            && hottest_zone(values, high_precision)->0 >= zone_celsius_tenths(values[i], high_precision)->0,
        hottest_zone(values, high_precision) is Some ==> exists|i: int| 0 <= i < values.len()
            && #[trigger] zone_celsius_tenths(values[i], high_precision) == hottest_zone(values, high_precision),
        hottest_zone(values, high_precision) is None ==> forall|i: int| 0 <= i < values.len()
            ==> (#[trigger] zone_celsius_tenths(values[i], high_precision)) is None,
    decreases values.len(),
{
    if values.len() > 0 {
        let rest = values.drop_last();
        let n = values.len() - 1;
        law_hottest_zone_is_the_maximum(rest, high_precision);
        assert(values[n] == values.last());
        assert forall|i: int| 0 <= i < rest.len() implies values[i] == rest[i] by {}
        if hottest_zone(values, high_precision) is Some {
            let m = hottest_zone(values, high_precision);
            if m == zone_celsius_tenths(values[n], high_precision) {
                assert(zone_celsius_tenths(values[n], high_precision) == m);
            } else {
                let i = choose|i: int| 0 <= i < rest.len() && #[trigger] zone_celsius_tenths(rest[i], high_precision) == hottest_zone(rest, high_precision);
                assert(values[i] == rest[i]);
            }
        }
        assert forall|i: int| 0 <= i < values.len() && (#[trigger] zone_celsius_tenths(values[i], high_precision)) is Some
            implies hottest_zone(values, high_precision) is Some
            && hottest_zone(values, high_precision)->0 >= zone_celsius_tenths(values[i], high_precision)->0 by {
            if i < n {
                assert(values[i] == rest[i]);
                assert(zone_celsius_tenths(rest[i], high_precision) is Some);
            }
        }
        assert forall|i: int| 0 <= i < values.len() && hottest_zone(values, high_precision) is None
            implies (#[trigger] zone_celsius_tenths(values[i], high_precision)) is None by {
            if i < n {
                assert(values[i] == rest[i]);
                assert(zone_celsius_tenths(rest[i], high_precision) is None);
            }
        }
    }
}

/// With CPU temperature monitoring on, a plausible zone reading (20.0°C to
/// 115.0°C) is the CPU package and hottest-core temperature, whatever the
/// GPU reports: the GPU stand-in counts only when the zones give nothing.
pub proof fn law_plausible_zone_reading_is_the_cpu_temperature(
    v: ThermalProviderView,
    power: PowerStatus,
    gpu: GpuMetrics,
    zone_tenths: i32,
)
    requires
        v.cpu_temp_monitoring,
        200 <= zone_tenths <= 1150,
    ensures
        thermal_snapshot_of(v, power, gpu, Some(zone_tenths)).cpu_package_temp_tenths == Some(zone_tenths),
        thermal_snapshot_of(v, power, gpu, Some(zone_tenths)).max_core_temp_tenths == Some(zone_tenths),
{
}

} // verus!
