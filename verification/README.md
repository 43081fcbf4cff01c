# system_monitor

A system monitor for Linux. The library (`src/`, verified with Verus) reads
the kernel's text interfaces and keeps the monitor's state:

- `models::cpu` — per-core counters of `/proc/stat`, usage between two
  readings, usage histories of the last nine readings;
- `models::memory` — RAM and swap amounts of `/proc/meminfo`;
- `models::network` — interface counters of `/proc/net/dev`;
- `models::process` — task states, `/proc/<pid>/status`, search by name;
- `models::sensors` — fan and temperature readings and their histories;
- `models::system` — OS, user, host, processor model, task count;
- `utils::text` — `lines`, `split_whitespace`, `trim`, `contains`, `split`,
  integer `parse` and decimal formatting, specified over `Seq<char>`;
- `utils::process` — when cached process measurements are refreshed;
- `utils::parser`, `utils::sensors`, `utils::read` — field extraction,
  hwmon sensor selection, disk space used on `/` and `/home`.

`app/` is the program around it: it reads the files, asks `sysinfo` for
process usage and disk space, and prints what the library computes.
