use system_monitor::utils::process::refresh_needed;
use system_monitor::utils::read::{get_mount_usage, mount_usage_is_defined, DiskSpace};

fn disk(mount: &str, total: u64, available: u64) -> DiskSpace {
    DiskSpace { mount_point: mount.to_string(), total_space: total, available_space: available }
}

#[test]
fn root_and_separate_home() {
    let disks = vec![
        disk("/boot", 500, 100),
        disk("/", 1000, 400),
        disk("/home", 2000, 1500),
        disk("/home/user", 10, 0),
    ];
    assert_eq!(get_mount_usage(&disks), (600, Some(500)));
}

#[test]
fn home_on_the_root_file_system() {
    assert_eq!(get_mount_usage(&vec![disk("/", 100, 40)]), (60, None));
}

#[test]
fn disks_on_one_mount_point_add_up() {
    let disks = vec![disk("/", 100, 40), disk("/", 900, 0), disk("/home", 50, 50)];
    assert_eq!(get_mount_usage(&disks), (960, Some(0)));
}

#[test]
fn no_counted_disk() {
    assert_eq!(get_mount_usage(&vec![disk("/mnt", 5, 1)]), (0, None));
    assert_eq!(get_mount_usage(&vec![]), (0, None));
}

#[test]
fn mount_usage_defined() {
    assert!(mount_usage_is_defined(&vec![disk("/", 100, 40), disk("/mnt", 1, 2)]));
    assert!(!mount_usage_is_defined(&vec![disk("/home", 1, 2)]));
    assert!(!mount_usage_is_defined(&vec![disk("/", u64::MAX, 0), disk("/", 1, 0)]));
    assert!(mount_usage_is_defined(&vec![disk("/", u64::MAX, 0), disk("/home", 1, 0)]));
}

#[test]
fn refresh_after_two_seconds() {
    assert!(!refresh_needed(0));
    assert!(!refresh_needed(2_000_000_000));
    assert!(refresh_needed(2_000_000_001));
}
