use system_monitor::models::system::SystemInfo;

#[test]
fn system_from_readings() {
    let s = SystemInfo::new(
        "linux".to_string(),
        Some("alice".to_string()),
        Some("host\n".to_string()),
        Some("model name\t: CPU Z\n"),
    );
    assert_eq!(s.os_type, "linux");
    assert_eq!(s.user, "alice");
    assert_eq!(s.hostname, "host\n");
    assert_eq!(s.cpu_model, "CPU Z");
    assert_eq!(s.get_total_tasks(), 0);
}

#[test]
fn unknown_where_nothing_could_be_read() {
    let s = SystemInfo::new("linux".to_string(), None, None, None);
    assert_eq!(s.user, "unknown");
    assert_eq!(s.hostname, "unknown");
    assert_eq!(s.cpu_model, "unknown");
}

#[test]
fn task_count() {
    let mut s = SystemInfo::default();
    assert_eq!(s.get_total_tasks(), 0);
    s.set_tastks(42);
    assert_eq!(s.get_total_tasks(), 42);
    assert_eq!(s.total_tasks, 42);
}
