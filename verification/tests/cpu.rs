use system_monitor::models::cpu::{CoreInfo, CoreStats, CpuInfo};

const STAT_1: &str = "cpu  10 0 10 80 0 0 0 0 0 0\n\
cpu0 100 0 100 800 0 0 0 0 0 0\n\
cpu1 50 5 45 400 0 0 0 0 0 0\n\
intr 12345\n";

const STAT_2: &str = "cpu  20 0 20 160 0 0 0 0 0 0\n\
cpu0 150 0 150 900 0 0 0 0 0 0\n\
cpu1 50 5 45 500 0 0 0 0 0 0\n";

fn reading(id: &str, c: [u64; 8]) -> CoreInfo {
    CoreInfo::new(id.to_string(), c[0], c[1], c[2], c[3], c[4], c[5], c[6], c[7])
}

#[test]
fn parses_core_lines_only() {
    let cores = CpuInfo::parse_proc_stat(STAT_1);
    assert_eq!(cores.len(), 2);
    assert_eq!(cores[0].id, "cpu0");
    assert_eq!(cores[0].user, 100);
    assert_eq!(cores[0].idle, 800);
    assert_eq!(cores[1].id, "cpu1");
    assert_eq!(cores[1].nice, 5);
}

#[test]
fn skips_words_that_are_not_numbers_and_short_lines() {
    let cores = CpuInfo::parse_proc_stat("cpu0 1 x 2 3 4 5 6 7 8\ncpu1 1 2 3\ncpux 1 2 3 4 5 6 7 8\ncpu\n");
    assert_eq!(cores.len(), 1);
    assert_eq!(cores[0].nice, 2);
    assert_eq!(cores[0].steal, 8);
}

#[test]
fn new_counts_cores() {
    let cpu = CpuInfo::new("Model X".to_string(), STAT_1);
    assert_eq!(cpu.model, "Model X");
    assert_eq!(cpu.number_of_cores, 2);
    assert!(cpu.stats.is_empty());
}

#[test]
fn usage_between_readings() {
    let a = reading("cpu0", [100, 0, 100, 800, 0, 0, 0, 0]);
    let b = reading("cpu0", [150, 0, 150, 900, 0, 0, 0, 0]);
    assert_eq!(a.calculate_cpu_usage(&b), 50);
    assert_eq!(a.calculate_cpu_usage(&a), 0);
    let c = reading("cpu0", [129, 0, 0, 871, 0, 0, 0, 0]);
    let d = reading("cpu0", [100, 0, 0, 800, 0, 0, 0, 0]);
    assert_eq!(d.calculate_cpu_usage(&c), 29);
    let busy = reading("cpu0", [200, 0, 100, 800, 0, 0, 0, 0]);
    assert_eq!(a.calculate_cpu_usage(&busy), 100);
    let idle_drop = reading("cpu0", [0, 0, 0, 0, 0, 0, 0, 0]);
    assert_eq!(a.calculate_cpu_usage(&idle_drop), 0);
}

#[test]
fn usage_defined_only_without_overflow() {
    let a = reading("cpu0", [10, 0, 0, 0, 0, 0, 0, 0]);
    let b = reading("cpu0", [0, 0, 0, 20, 0, 0, 0, 0]);
    assert!(!a.usage_is_defined(&b));
    let big = reading("cpu0", [u64::MAX, 1, 0, 0, 0, 0, 0, 0]);
    assert!(!a.usage_is_defined(&big));
    assert!(a.usage_is_defined(&a));
}

#[test]
fn update_stats_adds_then_updates_usages() {
    let mut cpu = CpuInfo::new("m".to_string(), STAT_1);
    cpu.update_stats(STAT_2);
    assert_eq!(cpu.stats.len(), 2);
    assert_eq!(cpu.stats[0].id, "CPU1");
    assert_eq!(cpu.stats[0].usage, 50);
    assert_eq!(cpu.stats[0].history, [0; 9]);
    assert_eq!(cpu.stats[1].id, "CPU2");
    assert_eq!(cpu.stats[1].usage, 0);
    assert_eq!(cpu.cores[0].user, 150);
    cpu.update_stats(STAT_1);
    assert_eq!(cpu.stats[0].usage, 0);
    assert_eq!(cpu.stats[0].history, [0, 0, 0, 0, 0, 0, 0, 0, 0]);
    cpu.update_stats(STAT_2);
    assert_eq!(cpu.stats[0].history, [0, 0, 0, 0, 0, 0, 0, 0, 50]);
}

#[test]
fn update_stats_skips_cores_without_previous_reading() {
    let mut cpu = CpuInfo::new("m".to_string(), "cpu0 1 1 1 1 1 1 1 1\n");
    cpu.update_stats("cpu7 1 1 1 1 1 1 1 1\ncpu0 2 1 1 1 1 1 1 1\n");
    assert_eq!(cpu.stats.len(), 1);
    assert_eq!(cpu.stats[0].id, "CPU1");
    assert_eq!(cpu.stats[0].usage, 100);
    assert_eq!(cpu.cores.len(), 2);
}

#[test]
fn stats_are_never_dropped() {
    let mut cpu = CpuInfo::new("m".to_string(), STAT_1);
    cpu.update_stats(STAT_2);
    cpu.update_stats("");
    assert_eq!(cpu.stats.len(), 2);
    assert_eq!(cpu.stats[1].id, "CPU2");
    assert!(cpu.cores.is_empty());
}

#[test]
fn history_keeps_last_nine_readings() {
    let mut s = CoreStats::new("CPU1".to_string(), 3);
    for u in 1..=12u32 {
        s.update(u);
    }
    assert_eq!(s.usage, 12);
    assert_eq!(s.history, [4, 5, 6, 7, 8, 9, 10, 11, 12]);
    let mut t = CoreStats::new("CPU2".to_string(), 0);
    t.update(7);
    t.update(8);
    assert_eq!(t.history, [0, 0, 0, 0, 0, 0, 0, 7, 8]);
}
