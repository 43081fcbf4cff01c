use std::path::PathBuf;
use system_monitor::models::sensors::{
    FanInfo, FanInfos, FanVelocity, Sensor, ThermalInfo, ThermalInfos,
};
use system_monitor::utils::sensors::{
    detected_fans, detected_temperatures, parse_sensor_value, HwmonChip, SensorFiles,
};

fn sensor(label: &str, max: Option<u32>) -> Sensor {
    Sensor { path: PathBuf::from(format!("/sys/{}", label)), label: label.to_string(), max }
}

fn files(input: &str, label: Option<&str>, max: Option<&str>) -> SensorFiles {
    SensorFiles {
        input: PathBuf::from(input),
        label: label.map(|s| s.to_string()),
        max: max.map(|s| s.to_string()),
    }
}

#[test]
fn sensor_values() {
    assert_eq!(parse_sensor_value("45000\n"), Ok(45000));
    assert_eq!(
        parse_sensor_value("abc"),
        Err("Erreur conversion: invalid digit found in string".to_string())
    );
    assert_eq!(
        parse_sensor_value("  \n"),
        Err("Erreur conversion: cannot parse integer from empty string".to_string())
    );
    assert_eq!(
        parse_sensor_value("99999999999"),
        Err("Erreur conversion: number too large to fit in target type".to_string())
    );
}

#[test]
fn fans_first_readings_keep_raw_speed() {
    let readings = vec![
        (sensor("fan1", Some(5000)), Ok(1200)),
        (sensor("fan2", None), Err("Erreur E/S".to_string())),
        (sensor("fan3", None), Ok(800)),
    ];
    let f = FanInfos::new(&readings);
    assert_eq!(f.fans.len(), 2);
    assert_eq!(f.fans[0].id, "fan1");
    assert_eq!(f.fans[0].velocity, FanVelocity::Rpm(1200));
    assert_eq!(f.fans[0].history, [FanVelocity::Zero; 9]);
    assert_eq!(f.fans[1].id, "fan3");
}

#[test]
fn fans_updates_relative_to_max() {
    let readings = vec![(sensor("fan1", Some(5000)), Ok(1200))];
    let mut f = FanInfos::new(&readings);
    let next = vec![
        (sensor("fan1", Some(5000)), Ok(2500)),
        (sensor("fan9", None), Ok(300)),
    ];
    f.update(&next);
    assert_eq!(f.fans.len(), 2);
    let v = FanVelocity::PercentOfMax { rpm: 2500, max: 5000 };
    assert_eq!(f.fans[0].velocity, v);
    assert_eq!(f.fans[0].history[8], v);
    assert_eq!(f.fans[0].history[7], FanVelocity::Zero);
    assert_eq!(f.fans[1].id, "fan9");
    assert_eq!(f.fans[1].velocity, FanVelocity::Zero);
}

#[test]
fn fans_are_never_dropped() {
    let mut f = FanInfos::new(&vec![(sensor("a", None), Ok(1)), (sensor("b", None), Ok(2))]);
    f.update(&vec![(sensor("b", None), Err("x".to_string()))]);
    f.update(&vec![]);
    let ids: Vec<&str> = f.fans.iter().map(|x| x.id.as_str()).collect();
    assert_eq!(ids, vec!["a", "b"]);
}

#[test]
fn thermals_first_then_degrees() {
    let mut t = ThermalInfos::new(&vec![(sensor("Core 0", None), Ok(45500))]);
    assert_eq!(t.thermals[0].state, 45500);
    t.update(&vec![
        (sensor("Core 0", None), Ok(47999)),
        (sensor("Core 1", None), Ok(250000)),
    ]);
    assert_eq!(t.thermals.len(), 2);
    assert_eq!(t.thermals[0].state, 47);
    assert_eq!(t.thermals[0].history, [0, 0, 0, 0, 0, 0, 0, 0, 47]);
    assert_eq!(t.thermals[1].state, 100);
    t.update(&vec![(sensor("Core 1", None), Ok(999))]);
    assert_eq!(t.thermals[1].state, 0);
    assert_eq!(t.thermals[0].id, "Core 0");
}

#[test]
fn sensor_histories_keep_last_nine() {
    let mut f = FanInfo::new("f".to_string(), FanVelocity::Rpm(1));
    let mut t = ThermalInfo::new("t".to_string(), 1);
    for i in 0..20u32 {
        f.update(FanVelocity::Rpm(i));
        t.update(i);
    }
    assert_eq!(t.history, [11, 12, 13, 14, 15, 16, 17, 18, 19]);
    assert_eq!(f.history[0], FanVelocity::Rpm(11));
    assert_eq!(f.velocity, FanVelocity::Rpm(19));
}

#[test]
fn temperature_sensors_of_processor_chips() {
    let chips = vec![
        HwmonChip {
            name: Some("coretemp\n".to_string()),
            temps: vec![
                files("/h0/temp1_input", Some("Package id 0\n"), None),
                files("/h0/temp2_input", Some("Core 0\n"), None),
                files("/h0/temp3_input", None, None),
                files("/h0/temp4_input", Some("CPU\n"), None),
            ],
            fans: vec![],
        },
        HwmonChip {
            name: Some("acpitz\n".to_string()),
            temps: vec![files("/h1/temp1_input", Some("Core 9"), None)],
            fans: vec![],
        },
        HwmonChip {
            name: Some("k10temp-pci\n".to_string()),
            temps: vec![files("/h2/temp1_input", Some("Tctl CPU"), None)],
            fans: vec![],
        },
        HwmonChip { name: None, temps: vec![files("/h3/temp1_input", Some("Core 1"), None)], fans: vec![] },
    ];
    let found = detected_temperatures(&chips);
    let labels: Vec<&str> = found.iter().map(|s| s.label.as_str()).collect();
    assert_eq!(labels, vec!["Core 0", "CPU", "Tctl CPU"]);
    assert_eq!(found[0].path, PathBuf::from("/h0/temp2_input"));
    assert_eq!(found[2].path, PathBuf::from("/h2/temp1_input"));
    assert!(found.iter().all(|s| s.max.is_none()));
}

#[test]
fn unlabelled_temperature_sensor_is_named_after_its_number() {
    let chips = vec![HwmonChip {
        name: Some("coretemp".to_string()),
        temps: vec![files("/h0/temp1_input", Some("  "), None)],
        fans: vec![],
    }];
    // "Cœur 1" names no core in the sense of the filter, so it is not kept.
    assert!(detected_temperatures(&chips).is_empty());
}

#[test]
fn fans_of_all_chips() {
    let chips = vec![
        HwmonChip {
            name: None,
            temps: vec![],
            fans: vec![
                files("/h0/fan1_input", Some(" CPU Fan \n"), Some("5000\n")),
                files("/h0/fan2_input", None, Some("fast")),
            ],
        },
        HwmonChip { name: Some("x".to_string()), temps: vec![], fans: vec![files("/h1/fan1_input", Some("  "), None)] },
    ];
    let found = detected_fans(&chips);
    assert_eq!(found.len(), 3);
    assert_eq!(found[0].label, "CPU Fan");
    assert_eq!(found[0].max, Some(5000));
    assert_eq!(found[1].label, "Ventilateur 2");
    assert_eq!(found[1].max, None);
    assert_eq!(found[1].path, PathBuf::from("/h0/fan2_input"));
    assert_eq!(found[2].label, "");
}
