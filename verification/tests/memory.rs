use system_monitor::models::memory::MemoryInfo;
use system_monitor::utils::parser::{parse_cpu_model, parse_memory_line};

const MEMINFO: &str = "MemTotal:       16000000 kB\n\
MemFree:         1000000 kB\n\
MemAvailable:    6000000 kB\n\
Buffers:          100000 kB\n\
SwapTotal:       2000000 kB\n\
SwapFree:        1500000 kB\n";

#[test]
fn reads_memory_amounts() {
    let mut m = MemoryInfo::new();
    m.update(MEMINFO);
    assert_eq!(m.ram_total, 16000000);
    assert_eq!(m.ram_used, 10000000);
    assert_eq!(m.swap_total, 2000000);
    assert_eq!(m.swap_used, 500000);
    assert_eq!(m.disk_used, 0);
    assert_eq!(m.disk_total, 0);
}

#[test]
fn used_amount_uses_the_total_known_so_far() {
    let mut m = MemoryInfo::new();
    let text = "MemAvailable: 0 kB\nMemTotal: 100 kB\n";
    assert!(m.update_fits(text));
    m.update(text);
    assert_eq!(m.ram_total, 100);
    assert_eq!(m.ram_used, 0);
    assert!(m.update_fits("MemAvailable: 40 kB\n"));
    m.update("MemAvailable: 40 kB\n");
    assert_eq!(m.ram_used, 60);
}

#[test]
fn amount_over_the_total_does_not_fit() {
    let m = MemoryInfo::new();
    assert!(!m.update_fits("MemAvailable: 5 kB\nMemTotal: 100 kB\n"));
    assert!(!m.update_fits("SwapTotal: 10 kB\nSwapFree: 11 kB\n"));
    assert!(m.update_fits(MEMINFO));
    let mut n = MemoryInfo::new();
    n.update("MemTotal: 4 kB\n");
    assert!(n.update_fits("MemAvailable: 4 kB\n"));
    assert!(!n.update_fits("MemAvailable: 5 kB\n"));
}

#[test]
fn default_is_all_zero() {
    let m = MemoryInfo::default();
    assert_eq!((m.ram_used, m.ram_total, m.swap_used, m.swap_total), (0, 0, 0, 0));
}

#[test]
fn memory_line_values() {
    assert_eq!(parse_memory_line("MemTotal:       16000000 kB"), 16000000);
    assert_eq!(parse_memory_line("MemTotal:"), 0);
    assert_eq!(parse_memory_line("MemTotal: abc kB"), 0);
}

#[test]
fn cpu_model_names() {
    let info = "processor\t: 0\nvendor_id\t: GenuineIntel\nmodel name\t: Intel(R) Core(TM) i7  \nmodel name\t: Other\n";
    assert_eq!(parse_cpu_model(info), "Intel(R) Core(TM) i7");
    assert_eq!(parse_cpu_model("model name\t:no space"), "");
    assert_eq!(parse_cpu_model("nothing here\n"), "");
    assert_eq!(parse_cpu_model("model name: a: b\n"), "a");
}

#[test]
fn second_reading_of_the_same_text_changes_nothing() {
    let mut m = MemoryInfo::new();
    m.update(MEMINFO);
    let once = (m.ram_used, m.ram_total, m.swap_used, m.swap_total);
    m.update(MEMINFO);
    assert_eq!((m.ram_used, m.ram_total, m.swap_used, m.swap_total), once);
    assert!(m.ram_used <= m.ram_total);
    assert!(m.swap_used <= m.swap_total);
}
