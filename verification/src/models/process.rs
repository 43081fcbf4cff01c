//! Processes: their state codes, what `/proc/<pid>/status` says of them, and
//! the search by name.
use vstd::prelude::*;
use crate::utils::text::{
    chars_of, split_lines, lines_of, split_whitespace, words_of, has_prefix, starts_with,
    contains_seq, contains, string_of, char_views,
};

verus! {

/// The state of a task, as the one-letter codes of `/proc/<pid>/status` give it.
#[derive(Debug, Clone, Copy, PartialEq, Eq, Structural, Hash)]
pub enum TaskStats {
    Running,
    Sleeping,
    DiskSleep,
    Stopped,
    TracingStop,
    Zombie,
    Dead,
    WakeKill,
    Waking,
    Parked,
    Idle,
    Locked,
    Uninterruptible,
}

/// A process: its id, its name, its state, and the CPU and memory usage
/// measured for it (in a unit that the caller chooses, such as percent).
#[derive(Clone)]
pub struct ProcessInfo<U> {
    pub pid: u32,
    pub name: String,
    pub state: TaskStats,
    pub cpu_usage: U,
    pub mem_usage: U,
}

/// The processes of the system, and how many there are.
#[derive(Clone)]
pub struct ProcessList<U> {
    pub tasks: Vec<ProcessInfo<U>>,
    pub total_tasks: u32,
}

/// The state that a one-letter code names: `R`, `S`, `D`, `T`, `t`, `Z`,
/// `X`, `K`, `W`, `P`, `I`, `L`, `U`; any other text names none.
pub open spec fn state_of_code(s: Seq<char>) -> Option<TaskStats> {
    if s.len() != 1 {
        None
    } else {
        let c = s[0];
        if c == 'R' {
            Some(TaskStats::Running)
        } else if c == 'S' {
            Some(TaskStats::Sleeping)
        } else if c == 'D' {
            Some(TaskStats::DiskSleep)
        } else if c == 'T' {
            Some(TaskStats::Stopped)
        } else if c == 't' {
            Some(TaskStats::TracingStop)
        } else if c == 'Z' {
            Some(TaskStats::Zombie)
        } else if c == 'X' {
            Some(TaskStats::Dead)
        } else if c == 'K' {
            Some(TaskStats::WakeKill)
        } else if c == 'W' {
            Some(TaskStats::Waking)
        } else if c == 'P' {
            Some(TaskStats::Parked)
        } else if c == 'I' {
            Some(TaskStats::Idle)
        } else if c == 'L' {
            Some(TaskStats::Locked)
        } else if c == 'U' {
            Some(TaskStats::Uninterruptible)
        } else {
            None
        }
    }
}

impl TaskStats {
    /// The name under which a state is shown.
    pub open spec fn name(self) -> Seq<char> {
        match self {
            TaskStats::Running => "running"@,
            TaskStats::Sleeping => "sleeping"@,
            TaskStats::DiskSleep => "disk sleep"@,
            TaskStats::Stopped => "stopped"@,
            TaskStats::TracingStop => "tracing stop"@,
            TaskStats::Zombie => "zombie"@,
            TaskStats::Dead => "dead"@,
            TaskStats::WakeKill => "wakekill"@,
            TaskStats::Waking => "waking"@,
            TaskStats::Parked => "parked"@,
            TaskStats::Idle => "idle"@,
            TaskStats::Locked => "locked"@,
            TaskStats::Uninterruptible => "uninterruptible"@,
        }
    }

    /// The name under which the state is shown.
    pub fn to_string(&self) -> (r: String)
        ensures
            r@ == self.name(),
    {
        match self {
            TaskStats::Running => String::from_str("running"),
            TaskStats::Sleeping => String::from_str("sleeping"),
            TaskStats::DiskSleep => String::from_str("disk sleep"),
            TaskStats::Stopped => String::from_str("stopped"),
            TaskStats::TracingStop => String::from_str("tracing stop"),
            TaskStats::Zombie => String::from_str("zombie"),
            TaskStats::Dead => String::from_str("dead"),
            TaskStats::WakeKill => String::from_str("wakekill"),
            TaskStats::Waking => String::from_str("waking"),
            TaskStats::Parked => String::from_str("parked"),
            TaskStats::Idle => String::from_str("idle"),
            TaskStats::Locked => String::from_str("locked"),
            TaskStats::Uninterruptible => String::from_str("uninterruptible"),
        }
    }

    /// The state that a one-letter code names, if any.
    pub fn from_code(s: &str) -> (r: Option<TaskStats>)
        ensures
            r == state_of_code(s@),
    {
        let cs = chars_of(s);
        Self::from_chars(&cs)
    }

    /// The state that a one-letter code names, if any.
    pub fn from_chars(cs: &Vec<char>) -> (r: Option<TaskStats>)
        ensures
            r == state_of_code(cs@),
    {
        if cs.len() != 1 {
            return None;
        }
        let c = cs[0];
        if c == 'R' {
            Some(TaskStats::Running)
        } else if c == 'S' {
            Some(TaskStats::Sleeping)
        } else if c == 'D' {
            Some(TaskStats::DiskSleep)
        } else if c == 'T' {
            Some(TaskStats::Stopped)
        } else if c == 't' {
            Some(TaskStats::TracingStop)
        } else if c == 'Z' {
            Some(TaskStats::Zombie)
        } else if c == 'X' {
            Some(TaskStats::Dead)
        } else if c == 'K' {
            Some(TaskStats::WakeKill)
        } else if c == 'W' {
            Some(TaskStats::Waking)
        } else if c == 'P' {
            Some(TaskStats::Parked)
        } else if c == 'I' {
            Some(TaskStats::Idle)
        } else if c == 'L' {
            Some(TaskStats::Locked)
        } else if c == 'U' {
            Some(TaskStats::Uninterruptible)
        } else {
            None
        }
    }
}

impl Default for TaskStats {
    fn default() -> (r: Self)
        ensures
            r == TaskStats::Stopped,
    {
        TaskStats::Stopped
    }
}

impl core::str::FromStr for TaskStats {
    type Err = ();

    /// The state that a one-letter code names, or `Err(())` for any other text.
    fn from_str(s: &str) -> (r: Result<Self, Self::Err>)
        ensures
            r == (match state_of_code(s@) {
                Some(t) => Ok::<TaskStats, ()>(t),
                None => Err::<TaskStats, ()>(()),
            }),
    {
        match Self::from_code(s) {
            Some(t) => Ok(t),
            None => Err(()),
        }
    }
}

/// What `str::to_lowercase` returns for a text: its Unicode lowercase mapping.
pub uninterp spec fn lowercase(s: Seq<char>) -> Seq<char>;

/// Calls `str::to_lowercase`. Its result depends on the text alone and is
/// named `lowercase`; what the Unicode mapping does to each character is not
/// stated here.
#[verifier::external_body]
fn to_lowercase(s: &str) -> (r: String)
    ensures
        r@ == lowercase(s@),
{
    s.to_lowercase()
}

/// The second word of a line, or nothing.
pub open spec fn second_word(line: Seq<char>) -> Seq<char> {
    let w = words_of(line);
    if w.len() >= 2 {
        w[1]
    } else {
        seq![]
    }
}

/// The name and state of a process after one line of `/proc/<pid>/status`:
/// a `Name:` line gives the name (its second word), a `State:` line gives
/// the state (its second word read as a code, `Stopped` if it is none).
pub open spec fn status_step(ns: (Seq<char>, TaskStats), line: Seq<char>) -> (Seq<char>, TaskStats) {
    if starts_with(line, "Name:"@) {
        (second_word(line), ns.1)
    } else if starts_with(line, "State:"@) {
        (
            ns.0,
            match state_of_code(second_word(line)) {
                Some(t) => t,
                None => TaskStats::Stopped,
            },
        )
    } else {
        ns
    }
}

/// The name and state after the lines `ls`, in order.
pub open spec fn status_after(ns: (Seq<char>, TaskStats), ls: Seq<Seq<char>>) -> (
    Seq<char>,
    TaskStats,
)
    decreases ls.len(),
{
    if ls.len() == 0 {
        ns
    } else {
        status_step(status_after(ns, ls.drop_last()), ls.last())
    }
}

/// After the lines of a status text, the name is the second whitespace word
/// of the last `Name:` line, character for character as it stands there (no
/// case is changed), or nothing when that line has a single word.
pub proof fn law_status_name(ns: (Seq<char>, TaskStats), ls: Seq<Seq<char>>, i: int)
    requires
        0 <= i < ls.len(),
        starts_with(ls[i], "Name:"@),
        forall|j: int| i < j < ls.len() ==> !starts_with(#[trigger] ls[j], "Name:"@),
    ensures
        status_after(ns, ls).0 == (if words_of(ls[i]).len() >= 2 {
            words_of(ls[i])[1]
        } else {
            Seq::<char>::empty()
        }),
    decreases ls.len(),
{
    if i < ls.len() - 1 {
        let p = ls.drop_last();
        assert forall|j: int| i < j < p.len() implies !starts_with(#[trigger] p[j], "Name:"@) by {
            assert(p[j] == ls[j]);
        }
        assert(!starts_with(ls[ls.len() - 1], "Name:"@));
        law_status_name(ns, p, i);
    }
}

/// A status text without a `Name:` line leaves the name as it was.
pub proof fn law_status_name_kept(ns: (Seq<char>, TaskStats), ls: Seq<Seq<char>>)
    requires
        forall|j: int| 0 <= j < ls.len() ==> !starts_with(#[trigger] ls[j], "Name:"@),
    ensures
        status_after(ns, ls).0 == ns.0,
    decreases ls.len(),
{
    if ls.len() > 0 {
        let p = ls.drop_last();
        assert forall|j: int| 0 <= j < p.len() implies !starts_with(#[trigger] p[j], "Name:"@) by {
            assert(p[j] == ls[j]);
        }
        assert(!starts_with(ls[ls.len() - 1], "Name:"@));
        law_status_name_kept(ns, p);
    }
}

/// After the lines of a status text, the state is the one that the second
/// word of the last `State:` line names as a code (`Stopped` when it names
/// none, or when that line has a single word).
pub proof fn law_status_state(ns: (Seq<char>, TaskStats), ls: Seq<Seq<char>>, i: int)
    requires
        0 <= i < ls.len(),
        starts_with(ls[i], "State:"@),
        forall|j: int| i < j < ls.len() ==> !starts_with(#[trigger] ls[j], "State:"@),
    ensures
        status_after(ns, ls).1 == (match state_of_code(
            if words_of(ls[i]).len() >= 2 {
                words_of(ls[i])[1]
            } else {
                Seq::<char>::empty()
            },
        ) {
            Some(t) => t,
            None => TaskStats::Stopped,
        }),
    decreases ls.len(),
{
    if i < ls.len() - 1 {
        let p = ls.drop_last();
        assert forall|j: int| i < j < p.len() implies !starts_with(#[trigger] p[j], "State:"@) by {
            assert(p[j] == ls[j]);
        }
        assert(!starts_with(ls[ls.len() - 1], "State:"@));
        law_status_state(ns, p, i);
    } else {
        reveal_strlit("Name:");
        reveal_strlit("State:");
        assert(ls[i][0] == "State:"@[0]);
        assert(!starts_with(ls[i], "Name:"@)) by {
            if starts_with(ls[i], "Name:"@) {
                assert(ls[i][0] == "Name:"@[0]);
            }
        }
    }
}

/// The processes of `ts` whose lowercase name holds the lowercase query `q`,
/// in order.
pub open spec fn matching<U>(ts: Seq<ProcessInfo<U>>, q: Seq<char>) -> Seq<ProcessInfo<U>>
    decreases ts.len(),
{
    if ts.len() == 0 {
        seq![]
    } else {
        let prev = matching(ts.drop_last(), q);
        if contains(lowercase(ts.last().name@), q) {
            prev.push(ts.last())
        } else {
            prev
        }
    }
}

/// A search by name finds exactly the processes whose lowercase name holds
/// the query: each process found is one of the list and matches, each
/// process of the list that matches is found, and the search finds no more
/// processes than the list holds.
pub proof fn law_filter_exact<U>(ts: Seq<ProcessInfo<U>>, q: Seq<char>)
    ensures
        matching(ts, q).len() <= ts.len(),
        forall|i: int|
            0 <= i < matching(ts, q).len() ==> ts.contains(#[trigger] matching(ts, q)[i])
                && contains(lowercase(matching(ts, q)[i].name@), q),
        forall|i: int|
            0 <= i < ts.len() && contains(lowercase(ts[i].name@), q) ==> matching(ts, q).contains(
                #[trigger] ts[i],
            ),
    decreases ts.len(),
{
    if ts.len() > 0 {
        let p = ts.drop_last();
        law_filter_exact(p, q);
        let m = matching(p, q);
        assert forall|i: int| 0 <= i < matching(ts, q).len() implies ts.contains(
            #[trigger] matching(ts, q)[i],
        ) && contains(lowercase(matching(ts, q)[i].name@), q) by {
            if i < m.len() {
                assert(matching(ts, q)[i] == m[i]);
                let j = choose|j: int| 0 <= j < p.len() && p[j] == m[i];
                assert(ts[j] == p[j]);
            } else {
                assert(matching(ts, q)[i] == ts.last());
                assert(ts[ts.len() - 1] == ts.last());
            }
        }
        assert forall|i: int| 0 <= i < ts.len() && contains(lowercase(ts[i].name@), q) implies matching(
            ts,
            q,
        ).contains(#[trigger] ts[i]) by {
            if i < p.len() {
                assert(ts[i] == p[i]);
                let j = choose|j: int| 0 <= j < m.len() && m[j] == p[i];
                assert(matching(ts, q)[j] == m[j]);
            } else {
                assert(ts[i] == ts.last());
                assert(matching(ts, q)[m.len() as int] == ts.last());
            }
        }
    }
}

/// The second word of a line, or nothing.
fn second_word_of(line: &Vec<char>) -> (r: Vec<char>)
    ensures
        r@ == second_word(line@),
{
    let mut words = split_whitespace(line);
    assert(char_views(words@).len() == words@.len());
    if words.len() >= 2 {
        let w = words.remove(1);
        w
    } else {
        Vec::new()
    }
}

impl<U: Copy + Default> ProcessInfo<U> {
    /// The process `pid`, with no name yet, in the `Stopped` state, and both
    /// usages at `U::default()`.
    pub fn new(pid: u32) -> (r: Self)
        ensures
            r.pid == pid,
            r.name@ == Seq::<char>::empty(),
            r.state == TaskStats::Stopped,
            call_ensures(U::default, (), r.cpu_usage),
            r.cpu_usage == r.mem_usage,
    {
        let zero = U::default();
        ProcessInfo {
            pid,
            name: String::new(),
            state: TaskStats::Stopped,
            cpu_usage: zero,
            mem_usage: zero,
        }
    }

    /// A copy of the process.
    pub fn duplicate(&self) -> (r: Self)
        ensures
            r == *self,
    {
        ProcessInfo {
            pid: self.pid,
            name: self.name.clone(),
            state: self.state,
            cpu_usage: self.cpu_usage,
            mem_usage: self.mem_usage,
        }
    }

    /// The process after a reading of its `/proc/<pid>/status` text, and of
    /// its CPU and memory usage when they could be measured.
    pub fn update(&mut self, status: &str, usage: Option<(U, U)>)
        ensures
            final(self).pid == old(self).pid,
            (final(self).name@, final(self).state) == status_after(
                (old(self).name@, old(self).state),
                lines_of(status@),
            ),
            match usage {
                Some((c, m)) => final(self).cpu_usage == c && final(self).mem_usage == m,
                None => final(self).cpu_usage == old(self).cpu_usage && final(self).mem_usage
                    == old(self).mem_usage,
            },
    {
        let cs = chars_of(status);
        let lines = split_lines(&cs);
        let ghost ls = char_views(lines@);
        let name_key = chars_of("Name:");
        let state_key = chars_of("State:");
        let mut i: usize = 0;
        while i < lines.len()
            invariant
                i <= lines.len(),
                ls == char_views(lines@),
                name_key@ == "Name:"@,
                state_key@ == "State:"@,
                self.pid == old(self).pid,
                self.cpu_usage == old(self).cpu_usage,
                self.mem_usage == old(self).mem_usage,
                (self.name@, self.state) == status_after(
                    (old(self).name@, old(self).state),
                    ls.take(i as int),
                ),
            decreases lines.len() - i,
        {
            assert(ls.take(i + 1).drop_last() =~= ls.take(i as int));
            assert(ls.take(i + 1).last() == lines@[i as int]@);
            let line = &lines[i];
            if has_prefix(line, &name_key) {
                let w = second_word_of(line);
                self.name = string_of(&w);
            } else if has_prefix(line, &state_key) {
                let w = second_word_of(line);
                self.state = match TaskStats::from_chars(&w) {
                    Some(t) => t,
                    None => TaskStats::default(),
                };
            }
            i += 1;
        }
        assert(ls.take(i as int) =~= ls);
        match usage {
            Some((c, m)) => {
                self.cpu_usage = c;
                self.mem_usage = m;
            },
            None => {},
        }
    }
}

impl<U: Copy + Default> ProcessList<U> {
    /// The list of the processes `tasks`.
    pub fn new(tasks: Vec<ProcessInfo<U>>) -> (r: Self)
        ensures
            r.tasks@ == tasks@,
            r.total_tasks == tasks@.len() as u32,
    {
        let total_tasks = tasks.len() as u32;
        ProcessList { tasks, total_tasks }
    }

    /// The processes become `new_tasks`.
    pub fn update(&mut self, new_tasks: Vec<ProcessInfo<U>>)
        ensures
            final(self).tasks@ == new_tasks@,
            final(self).total_tasks == new_tasks@.len() as u32,
    {
        self.total_tasks = new_tasks.len() as u32;
        self.tasks = new_tasks;
    }

    /// The processes whose name holds `query`, ignoring case (all of them
    /// for an empty query), in order.
    pub fn filter_by_name(&self, query: &str) -> (r: Vec<ProcessInfo<U>>)
        ensures
            query@.len() == 0 ==> r@ == self.tasks@,
            query@.len() > 0 ==> r@ == matching(self.tasks@, lowercase(query@)),
    {
        let mut out: Vec<ProcessInfo<U>> = Vec::new();
        let n = self.tasks.len();
        if query.is_empty() {
            let mut i: usize = 0;
            while i < n
                invariant
                    i <= n,
                    n == self.tasks@.len(),
                    out@ == self.tasks@.take(i as int),
                decreases n - i,
            {
                out.push(self.tasks[i].duplicate());
                i += 1;
                assert(out@ =~= self.tasks@.take(i as int));
            }
            assert(self.tasks@.take(i as int) =~= self.tasks@);
            return out;
        }
        let q = to_lowercase(query);
        let qc = chars_of(q.as_str());
        let mut i: usize = 0;
        while i < n
            invariant
                i <= n,
                n == self.tasks@.len(),
                qc@ == lowercase(query@),
                out@ == matching(self.tasks@.take(i as int), qc@),
            decreases n - i,
        {
            assert(self.tasks@.take(i + 1).drop_last() =~= self.tasks@.take(i as int));
            let t = &self.tasks[i];
            let lname = to_lowercase(t.name.as_str());
            let lc = chars_of(lname.as_str());
            if contains_seq(&lc, &qc) {
                out.push(t.duplicate());
            }
            i += 1;
        }
        assert(self.tasks@.take(i as int) =~= self.tasks@);
        out
    }
}

impl<U: Copy + Default> Default for ProcessList<U> {
    fn default() -> (r: Self)
        ensures
            r.tasks@.len() == 0,
            r.total_tasks == 0,
    {
        ProcessList { tasks: Vec::new(), total_tasks: 0 }
    }
}

} // verus!
