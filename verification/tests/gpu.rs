use asterveil::gpu::{extract_fan_index, is_auto_fan_value, parse_gpu_rows, resolve_power_value};

#[test]
fn resolves_power_presets() {
    assert_eq!(
        resolve_power_value("eco", "350", "100", "500").unwrap(),
        "100"
    );
    assert_eq!(
        resolve_power_value("balanced", "350", "100", "500").unwrap(),
        "300"
    );
    assert_eq!(
        resolve_power_value("default", "350", "100", "500").unwrap(),
        "350"
    );
    assert_eq!(
        resolve_power_value("max", "350", "100", "500").unwrap(),
        "500"
    );
}

#[test]
fn clamps_numeric_power_values() {
    assert_eq!(
        resolve_power_value("50", "350", "100", "500").unwrap(),
        "100"
    );
    assert_eq!(
        resolve_power_value("600", "350", "100", "500").unwrap(),
        "500"
    );
}

#[test]
fn extracts_fan_indices() {
    assert_eq!(extract_fan_index("    [0] [fan:0] (Fan 0)"), Some(0));
    assert_eq!(extract_fan_index("    [1] [fan:12] (Fan 12)"), Some(12));
    assert_eq!(extract_fan_index("no fan here"), None);
}

#[test]
fn parses_gpu_rows() {
    let output = "\
0, NVIDIA GeForce RTX 3090, 68, 91, 1890, 62, 54, 18432, 24576, 275.00 W, 350.00 W, 350.00 W, 100.00 W, 500.00 W\n\
1, NVIDIA GeForce RTX 3090, 59, 72, 1710, 48, 43, 12288, 24576, 210.00 W, 350.00 W, 350.00 W, 100.00 W, 500.00 W\n";
    let gpus = parse_gpu_rows(output).unwrap();
    assert_eq!(gpus.len(), 2);
    assert_eq!(gpus[0].index, 0);
    assert_eq!(gpus[1].index, 1);
    assert_eq!(gpus[0].name, "NVIDIA GeForce RTX 3090");
    assert_eq!(gpus[0].temperature_c, "68");
    assert_eq!(gpus[0].gpu_utilization_pct, "91");
    assert_eq!(gpus[0].graphics_clock_mhz, "1890");
    assert_eq!(gpus[0].fan_speed_pct, "62");
    assert_eq!(gpus[0].memory_used_mib, "18432");
}

#[test]
fn handles_fan_default_values() {
    assert!(is_auto_fan_value("default"));
    assert!(is_auto_fan_value("auto"));
    assert!(!is_auto_fan_value("100"));
}
