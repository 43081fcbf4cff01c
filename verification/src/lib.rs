//! A system monitor library: the parsing of the kernel's text interfaces
//! (`/proc/stat`, `/proc/meminfo`, `/proc/net/dev`, `/proc/<pid>/status`,
//! `/proc/cpuinfo`, `/sys/class/hwmon`) and the bookkeeping that turns
//! successive readings into the data shown by the monitor.
pub mod models;
pub mod utils;
