use openlcd::hwmon::{
    cpu_sensor_score, disk_sensor_score, select_cpu_sensor, select_disk_sensor, temperature_input_channel,
    temperature_label_file, HwmonSensors, TemperatureSensor,
};

fn sensor(driver: &str, label: Option<&str>, input: &str) -> TemperatureSensor {
    TemperatureSensor { hwmon_name: driver.to_owned(), label: label.map(|l| l.to_owned()), input_path: input.to_owned() }
}

#[test]
fn display_names_join_driver_and_label() {
    assert_eq!(sensor("coretemp", Some("Package id 0"), "a").display_name(), "coretemp: Package id 0");
    assert_eq!(sensor("nvme", None, "b").display_name(), "nvme");
}

#[test]
fn reads_channel_numbers_from_input_files() {
    assert_eq!(temperature_input_channel("temp1_input"), Some(1));
    assert_eq!(temperature_input_channel("temp12_input"), Some(12));
    assert_eq!(temperature_input_channel("temp+3_input"), Some(3));
    assert_eq!(temperature_input_channel("temp_input"), None);
    assert_eq!(temperature_input_channel("temp1_label"), None);
    assert_eq!(temperature_input_channel("fan1_input"), None);
    assert_eq!(temperature_input_channel("tempx_input"), None);
    assert_eq!(temperature_input_channel("temp99999999999_input"), None);
    assert_eq!(temperature_label_file(7), "temp7_label");
}

#[test]
fn scores_cpu_and_disk_sensors() {
    assert_eq!(cpu_sensor_score(&sensor("coretemp", Some("Package id 0"), "a")), 180);
    assert_eq!(cpu_sensor_score(&sensor("k10temp", Some("Tctl"), "a")), 175);
    assert_eq!(cpu_sensor_score(&sensor("coretemp", Some("Core 0"), "a")), 130);
    assert_eq!(cpu_sensor_score(&sensor("CoreTemp", None, "a")), 100);
    assert_eq!(cpu_sensor_score(&sensor("acpitz", Some("CPU die"), "a")), 110);
    assert_eq!(cpu_sensor_score(&sensor("nvme", Some("Composite"), "a")), 0);
    assert_eq!(disk_sensor_score(&sensor("nvme", Some("Composite"), "a")), 130);
    assert_eq!(disk_sensor_score(&sensor("drivetemp", None, "a")), 100);
    assert_eq!(disk_sensor_score(&sensor("acpitz", Some("Disk bay"), "a")), 30);
    assert_eq!(disk_sensor_score(&sensor("coretemp", Some("Core 0"), "a")), 0);
}

#[test]
fn selects_the_highest_scoring_sensor() {
    let sensors = vec![
        sensor("coretemp", Some("Core 0"), "core0"),
        sensor("coretemp", Some("Package id 0"), "package"),
        sensor("nvme", Some("Composite"), "nvme"),
        sensor("coretemp", Some("Core 1"), "core1"),
    ];
    assert_eq!(select_cpu_sensor(&sensors).unwrap().input_path, "package");
    assert_eq!(select_disk_sensor(&sensors).unwrap().input_path, "nvme");
}

#[test]
fn later_sensor_wins_a_tie_and_zero_scores_select_nothing() {
    let sensors = vec![sensor("coretemp", Some("Core 0"), "first"), sensor("coretemp", Some("Core 1"), "second")];
    assert_eq!(select_cpu_sensor(&sensors).unwrap().input_path, "second");
    let unrelated = vec![sensor("acpitz", None, "x"), sensor("iwlwifi", Some("wifi"), "y")];
    assert!(select_cpu_sensor(&unrelated).is_none());
    assert!(select_disk_sensor(&unrelated).is_none());
    assert!(select_cpu_sensor(&[]).is_none());
}

#[test]
fn default_sensor_set_is_empty() {
    assert!(HwmonSensors::default().temperatures.is_empty());
}
