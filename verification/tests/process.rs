use system_monitor::models::process::{ProcessInfo, ProcessList, TaskStats};

fn named(pid: u32, name: &str) -> ProcessInfo<f32> {
    let mut p = ProcessInfo::<f32>::new(pid);
    p.update(&format!("Name:\t{}\nState:\tS (sleeping)\n", name), Some((1.5, 2.5)));
    p
}

#[test]
fn state_codes() {
    let codes = [
        ("R", TaskStats::Running, "running"),
        ("S", TaskStats::Sleeping, "sleeping"),
        ("D", TaskStats::DiskSleep, "disk sleep"),
        ("T", TaskStats::Stopped, "stopped"),
        ("t", TaskStats::TracingStop, "tracing stop"),
        ("Z", TaskStats::Zombie, "zombie"),
        ("X", TaskStats::Dead, "dead"),
        ("K", TaskStats::WakeKill, "wakekill"),
        ("W", TaskStats::Waking, "waking"),
        ("P", TaskStats::Parked, "parked"),
        ("I", TaskStats::Idle, "idle"),
        ("L", TaskStats::Locked, "locked"),
        ("U", TaskStats::Uninterruptible, "uninterruptible"),
    ];
    for (code, state, name) in codes {
        assert_eq!(TaskStats::from_code(code), Some(state.clone()));
        assert_eq!(code.parse::<TaskStats>(), Ok(state.clone()));
        assert_eq!(state.to_string(), name);
    }
    assert_eq!(TaskStats::from_code("RS"), None);
    assert_eq!(TaskStats::from_code(""), None);
    assert_eq!("r".parse::<TaskStats>(), Err(()));
    assert_eq!(TaskStats::default(), TaskStats::Stopped);
}

#[test]
fn new_process() {
    let p = ProcessInfo::<f32>::new(7);
    assert_eq!(p.pid, 7);
    assert_eq!(p.name, "");
    assert_eq!(p.state, TaskStats::Stopped);
    assert_eq!(p.cpu_usage, 0.0);
    assert_eq!(p.mem_usage, 0.0);
}

#[test]
fn status_gives_name_and_state() {
    let mut p = ProcessInfo::<f32>::new(1);
    p.update("Name:\tsystemd\nUmask:\t0000\nState:\tS (sleeping)\nTgid:\t1\n", Some((3.0, 4.0)));
    assert_eq!(p.name, "systemd");
    assert_eq!(p.state, TaskStats::Sleeping);
    assert_eq!(p.cpu_usage, 3.0);
    assert_eq!(p.mem_usage, 4.0);
    p.update("Name:\tkworker/0:1 extra\nState:\t?\n", None);
    assert_eq!(p.name, "kworker/0:1");
    assert_eq!(p.state, TaskStats::Stopped);
    assert_eq!(p.cpu_usage, 3.0);
    p.update("Name:\n", None);
    assert_eq!(p.name, "");
}

#[test]
fn list_counts_tasks() {
    let mut l = ProcessList::new(vec![named(1, "init"), named(2, "bash")]);
    assert_eq!(l.total_tasks, 2);
    l.update(vec![named(3, "vim")]);
    assert_eq!(l.total_tasks, 1);
    assert_eq!(l.tasks[0].pid, 3);
    let d = ProcessList::<f32>::default();
    assert_eq!(d.total_tasks, 0);
    assert!(d.tasks.is_empty());
}

#[test]
fn filter_ignores_case() {
    let l = ProcessList::new(vec![named(1, "Firefox"), named(2, "bash"), named(3, "firewalld")]);
    let found: Vec<u32> = l.filter_by_name("FIRE").iter().map(|p| p.pid).collect();
    assert_eq!(found, vec![1, 3]);
    let found: Vec<u32> = l.filter_by_name("").iter().map(|p| p.pid).collect();
    assert_eq!(found, vec![1, 2, 3]);
    let found: Vec<u32> = l.filter_by_name("zsh").iter().map(|p| p.pid).collect();
    assert!(found.is_empty());
    let all = l.filter_by_name("sH");
    assert_eq!(all.len(), 1);
    assert_eq!(all[0].name, "bash");
    assert_eq!(all[0].cpu_usage, 1.5);
    assert_eq!(all[0].mem_usage, 2.5);
}

#[test]
fn filter_finds_exactly_the_matching_processes() {
    let l = ProcessList::new(vec![named(1, "ÉCRAN"), named(2, "écran-2"), named(3, "xterm")]);
    let found: Vec<u32> = l.filter_by_name("Écran").iter().map(|p| p.pid).collect();
    assert_eq!(found, vec![1, 2]);
}
