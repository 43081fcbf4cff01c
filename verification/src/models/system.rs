//! What the monitor shows of the system as a whole.
use vstd::prelude::*;
use crate::utils::parser::{parse_cpu_model, cpu_model_of};

verus! {

/// The operating system, the user, the host, the number of tasks and the
/// processor model.
#[derive(Clone)]
pub struct SystemInfo {
    pub os_type: String,
    pub user: String,
    pub hostname: String,
    pub total_tasks: u32,
    pub cpu_model: String,
}

impl SystemInfo {
    /// The system described by the name of the operating system, the user's
    /// name, the text of `/etc/hostname` and that of `/proc/cpuinfo`, each
    /// where it could be had: `unknown` stands for what could not; no tasks
    /// are counted yet.
    pub fn new(
        os_type: String,
        user: Option<String>,
        hostname: Option<String>,
        cpuinfo: Option<&str>,
    ) -> (r: Self)
        ensures
            r.os_type == os_type,
            r.user@ == (match user {
                Some(u) => u@,
                None => "unknown"@,
            }),
            r.hostname@ == (match hostname {
                Some(h) => h@,
                None => "unknown"@,
            }),
            r.cpu_model@ == (match cpuinfo {
                Some(c) => cpu_model_of(c@),
                None => "unknown"@,
            }),
            r.total_tasks == 0,
    {
        let user = match user {
            Some(u) => u,
            None => String::from_str("unknown"),
        };
        let hostname = match hostname {
            Some(h) => h,
            None => String::from_str("unknown"),
        };
        let cpu_model = match cpuinfo {
            Some(content) => parse_cpu_model(content),
            None => String::from_str("unknown"),
        };
        SystemInfo { os_type, user, hostname, total_tasks: 0, cpu_model }
    }

    pub fn set_tastks(&mut self, tasks: u32)
        ensures
            final(self).total_tasks == tasks,
            final(self).os_type == old(self).os_type,
            final(self).user == old(self).user,
            final(self).hostname == old(self).hostname,
            final(self).cpu_model == old(self).cpu_model,
    {
        self.total_tasks = tasks;
    }

    pub fn get_total_tasks(&self) -> (r: u32)
        ensures
            r == self.total_tasks,
    {
        self.total_tasks
    }
}

impl Default for SystemInfo {
    fn default() -> (r: Self)
        ensures
            r.os_type@.len() == 0,
            r.user@.len() == 0,
            r.hostname@.len() == 0,
            r.total_tasks == 0,
            r.cpu_model@.len() == 0,
    {
        SystemInfo {
            os_type: String::new(),
            user: String::new(),
            hostname: String::new(),
            total_tasks: 0,
            cpu_model: String::new(),
        }
    }
}

} // verus!
