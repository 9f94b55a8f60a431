use asterveil::gpu::{
    extract_fan_index, fan_listing_command, format_percent, gpu_index_listing_command,
    gpu_inventory_command, is_auto_fan_value, parse_gpu_rows, query_gpu_fan_state,
    set_all_fans, set_manual_fan_control, set_power_limit, GpuError,
};

#[test]
fn fan_index_edge_cases() {
    assert_eq!(extract_fan_index("[fan:7]"), Some(7));
    assert_eq!(extract_fan_index("[fan:]"), None);
    assert_eq!(extract_fan_index("[fan:3"), None);
    assert_eq!(extract_fan_index("[fan:x] [fan:4]"), None);
    assert_eq!(extract_fan_index("[fan:99999999999]"), None);
    assert_eq!(extract_fan_index("[fan:+5]"), Some(5));
}

#[test]
fn fan_index_round_trip() {
    for n in [0u32, 9, 10, 4_294_967_295] {
        assert_eq!(extract_fan_index(&format!("[fan:{n}]")), Some(n));
    }
}

#[test]
fn percent_formatting() {
    assert_eq!(format_percent("62"), "62%");
    assert_eq!(format_percent("N/A"), "N/A");
    assert_eq!(format_percent("n/A"), "N/A");
    assert_eq!(format_percent("[N/A]"), "[N/A]%");
}

#[test]
fn auto_fan_values() {
    assert!(is_auto_fan_value("  AUTO \n"));
    assert!(is_auto_fan_value("Default"));
    assert!(!is_auto_fan_value("auto mode"));
    assert!(!is_auto_fan_value(""));
}

#[test]
fn gpu_rows_skip_short_lines_and_reject_bad_indices() {
    let gpus = parse_gpu_rows("header\n0, A, 1, 2, 3, 4, 5, 6, 7, 8, 9, 10, 11, 12\r\n").unwrap();
    assert_eq!(gpus.len(), 1);
    assert_eq!(gpus[0].name, "A");
    assert_eq!(gpus[0].max_w, "12");
    assert_eq!(gpus[0].fan_control_state, None);
    assert_eq!(
        parse_gpu_rows("x, A, 1, 2, 3, 4, 5, 6, 7, 8, 9, 10, 11, 12").unwrap_err(),
        GpuError::InvalidGpuIndex
    );
    assert_eq!(parse_gpu_rows("").unwrap().len(), 0);
}

fn args(v: &[String]) -> Vec<&str> {
    v.iter().map(|s| s.as_str()).collect()
}

#[test]
fn command_lines() {
    let c = gpu_inventory_command();
    assert_eq!(c.program, "nvidia-smi");
    assert_eq!(args(&c.args)[1], "--format=csv,noheader,nounits");
    let c = query_gpu_fan_state(":1", 3);
    assert_eq!(c.program, "nvidia-settings");
    assert_eq!(args(&c.args), vec!["-c", ":1", "-q", "[gpu:3]/GPUFanControlState", "-t"]);
    let c = set_power_limit(2, "250");
    assert_eq!(c.program, "sudo");
    assert_eq!(args(&c.args), vec!["-n", "nvidia-smi", "-i", "2", "-pl", "250"]);
    let c = gpu_index_listing_command();
    assert_eq!(args(&c.args), vec!["--query-gpu=index", "--format=csv,noheader,nounits"]);
    let c = fan_listing_command(":0");
    assert_eq!(args(&c.args), vec!["-c", ":0", "-q", "fans"]);
}

#[test]
fn manual_fan_control_targets_listed_gpus() {
    let c = set_manual_fan_control(":0", "0\n 1 \n\nx\n2\n", &vec![2, 1], true);
    assert_eq!(c.program, "sudo");
    assert_eq!(c.display.as_deref(), Some(":0"));
    assert_eq!(
        args(&c.args),
        vec![
            "-n",
            "nvidia-settings",
            "-c",
            ":0",
            "-a",
            "[gpu:1]/GPUFanControlState=1",
            "-a",
            "[gpu:2]/GPUFanControlState=1"
        ]
    );
    let c = set_manual_fan_control(":0", "0\n", &vec![0], false);
    assert_eq!(args(&c.args)[5], "[gpu:0]/GPUFanControlState=0");
}

#[test]
fn all_fans_speed_and_no_fans() {
    let c = set_all_fans(":0", "    [0] [fan:0] (Fan 0)\n    [1] [fan:12] (Fan 12)\n", 60).unwrap();
    assert_eq!(
        args(&c.args),
        vec![
            "-n",
            "nvidia-settings",
            "-c",
            ":0",
            "-a",
            "[fan:0]/GPUTargetFanSpeed=60",
            "-a",
            "[fan:12]/GPUTargetFanSpeed=60"
        ]
    );
    assert_eq!(set_all_fans(":0", "no fans", 60).unwrap_err(), GpuError::NoFans);
}
