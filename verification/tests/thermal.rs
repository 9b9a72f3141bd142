use frostbyte_core::thermal::{
    hottest_zone_temp, parse_gpu_metrics, parse_tenths_str, parse_u32_str, power_status,
    zone_temperature_of, GpuAction, GpuMetrics, PowerStatus,
};
use frostbyte_core::ThermalProvider;

fn some_gpu() -> GpuMetrics {
    GpuMetrics { temp_tenths: Some(520), power_tenths_w: Some(151), utilization_tenths: Some(30), clock_mhz: Some(1350) }
}

fn on_ac() -> PowerStatus {
    PowerStatus { is_ac_online: true, battery_percent: Some(80) }
}

#[test]
fn test_temp_monitoring_toggles_suppress_readings() {
    let mut provider = ThermalProvider::new();
    assert!(provider.is_cpu_temp_monitoring());
    assert!(provider.is_gpu_temp_monitoring());

    provider.set_cpu_temp_monitoring(false);
    provider.set_gpu_temp_monitoring(false);

    let snapshot = provider.sample(on_ac(), some_gpu(), Some(650));
    assert!(snapshot.cpu_package_temp_tenths.is_none(), "CPU temp must be suppressed while monitoring is off");
    assert!(snapshot.max_core_temp_tenths.is_none(), "Max core temp must be suppressed while monitoring is off");
    assert!(snapshot.gpu_temp_tenths.is_none(), "GPU temp must be suppressed while monitoring is off");

    provider.set_cpu_temp_monitoring(true);
    provider.set_gpu_temp_monitoring(true);
    assert!(provider.is_cpu_temp_monitoring());
    assert!(provider.is_gpu_temp_monitoring());
}

#[test]
fn test_gpu_off_never_probes_nvidia_smi() {
    let mut provider = ThermalProvider::new();
    assert!(provider.nvidia_smi_available().is_none(), "constructing a provider must not probe the GPU");

    provider.set_gpu_monitoring(false);
    assert_eq!(provider.gpu_action(), GpuAction::Skip);
    let snapshot = provider.sample(on_ac(), some_gpu(), None);

    assert!(provider.nvidia_smi_available().is_none(), "sampling with GPU monitoring off must not probe nvidia-smi");
    assert!(snapshot.gpu_temp_tenths.is_none());

    println!("CPU temp with the GPU untouched: {:?}", snapshot.cpu_package_temp_tenths);
}

#[test]
fn test_gpu_monitoring_master_switch_silences_all_gpu_metrics() {
    let mut provider = ThermalProvider::new();
    assert!(provider.is_gpu_monitoring());

    provider.set_gpu_monitoring(false);
    // The temperature toggle stays on: the master switch alone must silence everything.
    assert!(provider.is_gpu_temp_monitoring());

    let snapshot = provider.sample(on_ac(), some_gpu(), Some(600));
    assert!(snapshot.gpu_temp_tenths.is_none(), "GPU temp must be silent");
    assert!(snapshot.gpu_power_tenths_w.is_none(), "GPU power must be silent");
    assert!(snapshot.gpu_utilization_tenths.is_none(), "GPU utilization must be silent");
    assert!(snapshot.gpu_clock_mhz.is_none(), "GPU clock must be silent");

    // Power status is unrelated to the GPU query and must keep working.
    assert!(snapshot.is_ac_online);
}

#[test]
fn test_thermal_provider_real_temperature() {
    let provider = ThermalProvider::new();
    // High precision zone counters in thousandths of tenths of a kelvin: 95.0°C and 45.3°C.
    let zones = [3_682_000i64, 3_185_000];
    let zone = zone_temperature_of(Some(&zones[..]), None);
    let snapshot = provider.sample(power_status(true, 1, 77), GpuMetrics { temp_tenths: None, power_tenths_w: None, utilization_tenths: None, clock_mhz: None }, zone);
    println!("Sampled thermals: {:?}", snapshot);

    if let Some(temp) = snapshot.cpu_package_temp_tenths {
        println!("Detected CPU Package Temp: {:.1}°C", temp as f64 / 10.0);
        assert!((200..=1150).contains(&temp), "CPU temperature should be in plausible range");
    }
    assert_eq!(snapshot.cpu_package_temp_tenths, Some(950));
}

#[test]
fn gpu_probe_sequence() {
    let mut provider = ThermalProvider::default();
    assert_eq!(provider.gpu_action(), GpuAction::Probe);
    provider.record_nvidia_smi_probe(true);
    assert_eq!(provider.gpu_action(), GpuAction::Query);
    provider.record_nvidia_smi_probe(false);
    assert_eq!(provider.gpu_action(), GpuAction::Skip);
}

#[test]
fn gpu_temperature_stands_in_for_missing_zones() {
    let provider = ThermalProvider::new();
    let s = provider.sample(on_ac(), some_gpu(), None);
    assert_eq!(s.cpu_package_temp_tenths, Some(560));
    assert_eq!(s.max_core_temp_tenths, Some(560));
    assert_eq!(s.gpu_temp_tenths, Some(520));
    let hot = GpuMetrics { temp_tenths: Some(970), ..some_gpu() };
    assert_eq!(provider.sample(on_ac(), hot, None).cpu_package_temp_tenths, Some(990));
    // a zone reading wins over the GPU
    assert_eq!(provider.sample(on_ac(), some_gpu(), Some(701)).cpu_package_temp_tenths, Some(701));
    // with only the GPU temperature report off, the fallback still works
    let mut p2 = ThermalProvider::new();
    p2.set_gpu_temp_monitoring(false);
    let s2 = p2.sample(on_ac(), some_gpu(), None);
    assert_eq!(s2.cpu_package_temp_tenths, Some(560));
    assert_eq!(s2.gpu_temp_tenths, None);
    assert_eq!(s2.gpu_power_tenths_w, Some(151));
}

#[test]
fn nvidia_smi_output_parsing() {
    let m = parse_gpu_metrics("45, 15.12, 3, 1350\n");
    assert_eq!(m, GpuMetrics { temp_tenths: Some(450), power_tenths_w: Some(151), utilization_tenths: Some(30), clock_mhz: Some(1350) });
    let m = parse_gpu_metrics(" 52, 15.15, [N/A], 210");
    assert_eq!(m, GpuMetrics { temp_tenths: Some(520), power_tenths_w: Some(152), utilization_tenths: None, clock_mhz: Some(210) });
    let m = parse_gpu_metrics("garbage");
    assert_eq!(m, GpuMetrics { temp_tenths: None, power_tenths_w: None, utilization_tenths: None, clock_mhz: None });
    // two GPUs: the fourth field runs into the next line and is not a number
    let m = parse_gpu_metrics("45, 15.1, 3, 1350\n50, 20.0, 7, 1400");
    assert_eq!(m.clock_mhz, None);
    assert_eq!(m.temp_tenths, Some(450));
}

#[test]
fn number_parsing() {
    assert_eq!(parse_tenths_str("98.5"), Some(985));
    assert_eq!(parse_tenths_str("-3.26"), Some(-33));
    assert_eq!(parse_tenths_str("+.5"), Some(5));
    assert_eq!(parse_tenths_str("7."), Some(70));
    assert_eq!(parse_tenths_str("."), None);
    assert_eq!(parse_tenths_str(""), None);
    assert_eq!(parse_tenths_str("1.2.3"), None);
    assert_eq!(parse_tenths_str("99999999999"), None);
    assert_eq!(parse_u32_str("+42"), Some(42));
    assert_eq!(parse_u32_str("4294967295"), Some(u32::MAX));
    assert_eq!(parse_u32_str("4294967296"), None);
    assert_eq!(parse_u32_str("-1"), None);
    assert_eq!(parse_u32_str("+"), None);
}

#[test]
fn thermal_zone_conversion() {
    // standard counter in thousandths of a kelvin: 368 K is 94.8°C
    assert_eq!(hottest_zone_temp(&[368_000, 300_000], false), Some(948));
    // implausible readings are ignored
    assert_eq!(hottest_zone_temp(&[2_000_000, 4_500_000], true), None);
    assert_eq!(hottest_zone_temp(&[], true), None);
    // high precision first, standard as fallback
    assert_eq!(zone_temperature_of(Some(&[1_000][..]), Some(&[330_000][..])), Some(568));
}

#[test]
fn power_status_conversion() {
    assert_eq!(power_status(true, 1, 80), PowerStatus { is_ac_online: true, battery_percent: Some(80) });
    assert_eq!(power_status(true, 0, 255), PowerStatus { is_ac_online: false, battery_percent: None });
    assert_eq!(power_status(false, 0, 50), PowerStatus { is_ac_online: true, battery_percent: None });
}

#[test]
fn zone_readings_outside_the_plausible_range_are_ignored() {
    // 125.0°C in the high precision counter is outside 20.0..=115.0
    assert_eq!(hottest_zone_temp(&[3_982_000], true), None);
    // 115.0°C is the upper edge, 115.1°C is past it
    assert_eq!(hottest_zone_temp(&[388_150], false), Some(1150));
    assert_eq!(hottest_zone_temp(&[388_250], false), None);
    // 125.05°C is rejected, not truncated to a tenth first
    assert_eq!(hottest_zone_temp(&[3_982_500], true), None);
    let provider = ThermalProvider::new();
    // a zone value handed in outside the range gives way to the GPU stand-in
    assert_eq!(provider.sample(on_ac(), some_gpu(), Some(1200)).cpu_package_temp_tenths, Some(560));
    // a GPU stand-in under 20.0°C is no CPU temperature
    let cold = GpuMetrics { temp_tenths: Some(100), ..some_gpu() };
    assert_eq!(provider.sample(on_ac(), cold, None).cpu_package_temp_tenths, None);
    let cool = GpuMetrics { temp_tenths: Some(160), ..some_gpu() };
    assert_eq!(provider.sample(on_ac(), cool, None).cpu_package_temp_tenths, Some(200));
}

#[test]
fn nvidia_smi_is_probed_at_most_once() {
    let mut provider = ThermalProvider::new();
    assert_eq!(provider.gpu_action(), GpuAction::Probe);
    provider.record_nvidia_smi_probe(false);
    for (gpu, cpu, gpu_temp) in [(true, true, true), (false, true, true), (true, false, false)] {
        provider.set_gpu_monitoring(gpu);
        provider.set_cpu_temp_monitoring(cpu);
        provider.set_gpu_temp_monitoring(gpu_temp);
        assert_eq!(provider.gpu_action(), GpuAction::Skip);
    }
}

#[test]
fn only_plain_decimals_are_numbers() {
    assert_eq!(parse_tenths_str("1e2"), None);
    assert_eq!(parse_tenths_str("inf"), None);
    assert_eq!(parse_tenths_str("NaN"), None);
    assert_eq!(parse_tenths_str("100"), Some(1000));
}
