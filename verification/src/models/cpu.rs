//! Processor counters (`/proc/stat`) and per-core usage with its history.
use vstd::prelude::*;
use crate::utils::text::{string_of, chars_of, push_decimal, decimal, split_lines, lines_of, split_whitespace, words_of, has_prefix, starts_with, is_ascii_digit, parse_u64, parse_uint_of, char_views, IntErrorKind, lemma_parse_uint_bound};

verus! {

/// The time counters of one core, as the `cpuN` lines of `/proc/stat` give
/// them (in clock ticks).
#[derive(Default, Clone, Debug)]
pub struct CoreInfo {
    pub id: String,
    pub user: u64,
    pub nice: u64,
    pub system: u64,
    pub idle: u64,
    pub iowait: u64,
    pub irq: u64,
    pub softirq: u64,
    pub steal: u64,
}

/// The usage of one core, with the last nine readings (oldest first).
#[derive(Default, Clone, Debug)]
pub struct CoreStats {
    pub id: String,
    pub usage: u32,
    pub history: [u32; 9],
}

/// The processor: its model, its cores' last counters, and their usage.
#[derive(Default, Clone)]
pub struct CpuInfo {
    pub model: String,
    pub number_of_cores: u32,
    pub cores: Vec<CoreInfo>,
    pub stats: Vec<CoreStats>,
}

/// How many readings a history keeps.
pub open spec fn history_len() -> nat {
    9
}

/// A history after one more reading: the oldest one leaves, `v` comes last.
pub open spec fn shifted<T>(h: Seq<T>, v: T) -> Seq<T> {
    h.drop_first().push(v)
}

/// A history after the readings `vs`, in order.
pub open spec fn shifted_all<T>(h: Seq<T>, vs: Seq<T>) -> Seq<T>
    decreases vs.len(),
{
    if vs.len() == 0 {
        h
    } else {
        shifted(shifted_all(h, vs.drop_last()), vs.last())
    }
}

/// A history holds the last nine readings: after the readings `vs` (no more
/// than nine), it still has nine entries, the last ones are `vs` in order,
/// and before them come the newest entries it had.
pub proof fn law_history_window<T>(h: Seq<T>, vs: Seq<T>)
    requires
        h.len() == history_len(),
        vs.len() <= history_len(),
    ensures
        shifted_all(h, vs).len() == history_len(),
        shifted_all(h, vs).subrange(history_len() - vs.len(), history_len() as int) == vs,
        shifted_all(h, vs).subrange(0, history_len() - vs.len()) == h.subrange(
            vs.len() as int,
            history_len() as int,
        ),
    decreases vs.len(),
{
    if vs.len() > 0 {
        let p = vs.drop_last();
        law_history_window(h, p);
        let a = shifted_all(h, p);
        let b = shifted(a, vs.last());
        assert(b.subrange(history_len() - vs.len(), history_len() as int) =~= vs) by {
            assert forall|j: int| 0 <= j < vs.len() implies b[history_len() - vs.len() + j]
                == vs[j] by {
                if j < vs.len() - 1 {
                    assert(b[history_len() - vs.len() + j] == a[history_len() - p.len() + j]);
                    assert(a.subrange(history_len() - p.len(), history_len() as int)[j] == p[j]);
                }
            }
        }
        assert(b.subrange(0, history_len() - vs.len()) =~= h.subrange(
            vs.len() as int,
            history_len() as int,
        )) by {
            assert forall|i: int| 0 <= i < history_len() - vs.len() implies b[i] == h[vs.len() + i] by {
                assert(b[i] == a[i + 1]);
                assert(a.subrange(0, history_len() - p.len())[i + 1] == a[i + 1]);
            }
        }
    }
}

impl CoreInfo {
    /// The eight counters, in the order of `/proc/stat`.
    pub open spec fn counters(&self) -> Seq<u64> {
        seq![
            self.user,
            self.nice,
            self.system,
            self.idle,
            self.iowait,
            self.irq,
            self.softirq,
            self.steal,
        ]
    }

    /// Ticks spent idle or waiting for I/O.
    pub open spec fn idle_time(&self) -> int {
        self.idle + self.iowait
    }

    /// All ticks.
    pub open spec fn total_time(&self) -> int {
        self.user + self.nice + self.system + self.idle + self.iowait + self.irq + self.softirq
            + self.steal
    }

    /// The growth of the total ticks from `self` to `cur` (none if they shrank).
    pub open spec fn delta_total(&self, cur: &CoreInfo) -> int {
        if cur.total_time() >= self.total_time() {
            cur.total_time() - self.total_time()
        } else {
            0
        }
    }

    /// The growth of the idle ticks from `self` to `cur` (none if they shrank).
    pub open spec fn delta_idle(&self, cur: &CoreInfo) -> int {
        if cur.idle_time() >= self.idle_time() {
            cur.idle_time() - self.idle_time()
        } else {
            0
        }
    }

    /// Whether the usage between two readings is computed without an
    /// arithmetic overflow: both totals fit in a `u64`, and unless no time
    /// passed, the idle ticks did not grow more than all ticks.
    pub open spec fn usage_defined(&self, cur: &CoreInfo) -> bool {
        &&& self.total_time() <= u64::MAX
        &&& cur.total_time() <= u64::MAX
        &&& self.delta_total(cur) != 0 ==> self.delta_idle(cur) <= self.delta_total(cur)
    }

    /// The share of the ticks between `self` and `cur` that were not idle, in
    /// whole percent rounded down (0 when no tick passed).
    pub open spec fn usage_percent(&self, cur: &CoreInfo) -> int {
        let dt = self.delta_total(cur);
        if dt == 0 {
            0
        } else {
            (dt - self.delta_idle(cur)) * 100 / dt
        }
    }

    pub fn new(
        id: String,
        user: u64,
        nice: u64,
        system: u64,
        idle: u64,
        iowait: u64,
        irq: u64,
        softirq: u64,
        steal: u64,
    ) -> (r: Self)
        ensures
            r.id == id,
            r.counters() == seq![user, nice, system, idle, iowait, irq, softirq, steal],
    {
        CoreInfo { id, user, nice, system, idle, iowait, irq, softirq, steal }
    }

    /// The usage of the core between the reading `self` and the later
    /// reading `current`, in whole percent rounded down. The value is exact:
    /// the busy ticks times 100, divided by all ticks. A computation in
    /// binary floating point, such as `(busy as f64 / total as f64 *
    /// 100.0).floor()`, can give one less (28 for 29 busy ticks of 100).
    pub fn calculate_cpu_usage(&self, current: &CoreInfo) -> (r: u32)
        requires
            self.usage_defined(current),
        ensures
            r == self.usage_percent(current),
            r <= 100,
    {
        let prev_idle = self.idle + self.iowait;
        let curr_idle = current.idle + current.iowait;
        let prev_total = self.user + self.nice + self.system + prev_idle + self.irq + self.softirq
            + self.steal;
        let curr_total = current.user + current.nice + current.system + curr_idle + current.irq
            + current.softirq + current.steal;
        let delta_total = curr_total.saturating_sub(prev_total);
        let delta_idle = curr_idle.saturating_sub(prev_idle);
        if delta_total == 0 {
            return 0;
        }
        let busy = (delta_total - delta_idle) as u128;
        let total = delta_total as u128;
        let pct = busy * 100 / total;
        proof {
            lemma_percent_bound(busy as int, total as int);
        }
        pct as u32
    }

    /// Whether the usage of this core is defined for the next reading.
    pub fn usage_is_defined(&self, current: &CoreInfo) -> (b: bool)
        ensures
            b == self.usage_defined(current),
    {
        let prev_idle = self.idle as u128 + self.iowait as u128;
        let curr_idle = current.idle as u128 + current.iowait as u128;
        let prev_total = self.user as u128 + self.nice as u128 + self.system as u128 + prev_idle
            + self.irq as u128 + self.softirq as u128 + self.steal as u128;
        let curr_total = current.user as u128 + current.nice as u128 + current.system as u128
            + curr_idle + current.irq as u128 + current.softirq as u128 + current.steal as u128;
        if prev_total > u64::MAX as u128 || curr_total > u64::MAX as u128 {
            return false;
        }
        let dt = if curr_total >= prev_total { curr_total - prev_total } else { 0 };
        let di = if curr_idle >= prev_idle { curr_idle - prev_idle } else { 0 };
        dt == 0 || di <= dt
    }
}

proof fn lemma_percent_bound(busy: int, total: int)
    requires
        0 <= busy <= total,
        total > 0,
    ensures
        0 <= busy * 100 / total <= 100,
{
    assert(busy * 100 <= total * 100) by (nonlinear_arith)
        requires
            0 <= busy <= total,
    ;
    assert(busy * 100 / total <= total * 100 / total) by (nonlinear_arith)
        requires
            0 <= busy * 100 <= total * 100,
            total > 0,
    ;
    assert(total * 100 / total == 100) by (nonlinear_arith)
        requires
            total > 0,
    ;
    assert(0 <= busy * 100 / total) by (nonlinear_arith)
        requires
            0 <= busy,
            total > 0,
    ;
}

/// Whether no counter of the reading `cur` is below that of the earlier
/// reading `prev`.
pub open spec fn counters_grew(prev: CoreInfo, cur: CoreInfo) -> bool {
    &&& prev.user <= cur.user
    &&& prev.nice <= cur.nice
    &&& prev.system <= cur.system
    &&& prev.idle <= cur.idle
    &&& prev.iowait <= cur.iowait
    &&& prev.irq <= cur.irq
    &&& prev.softirq <= cur.softirq
    &&& prev.steal <= cur.steal
}

/// The ticks between two readings that the core spent working: in user
/// mode, niced, in the kernel, serving interrupts and soft interrupts, and
/// stolen by the hypervisor.
pub open spec fn busy_ticks(prev: CoreInfo, cur: CoreInfo) -> int {
    (cur.user - prev.user) + (cur.nice - prev.nice) + (cur.system - prev.system) + (cur.irq
        - prev.irq) + (cur.softirq - prev.softirq) + (cur.steal - prev.steal)
}

/// The ticks between two readings that the core spent idle or waiting for
/// I/O.
pub open spec fn waiting_ticks(prev: CoreInfo, cur: CoreInfo) -> int {
    (cur.idle - prev.idle) + (cur.iowait - prev.iowait)
}

/// Between two readings whose counters did not go back, the usage is the
/// busy ticks (user, nice, system, irq, softirq, steal) times 100 divided by
/// all ticks, rounded down; only idle and iowait ticks count as idle, and
/// the usage is 0 when no tick passed.
pub proof fn law_usage_of_ticks(prev: CoreInfo, cur: CoreInfo)
    requires
        counters_grew(prev, cur),
    ensures
        prev.usage_percent(&cur) == (if busy_ticks(prev, cur) + waiting_ticks(prev, cur) == 0 {
            0
        } else {
            busy_ticks(prev, cur) * 100 / (busy_ticks(prev, cur) + waiting_ticks(prev, cur))
        }),
{
}

/// When only the busy counters (user, nice, system, irq, softirq, steal)
/// moved between two readings, the usage is 100; when only idle and iowait
/// moved, it is 0.
pub proof fn law_usage_extremes(prev: CoreInfo, cur: CoreInfo)
    requires
        counters_grew(prev, cur),
    ensures
        waiting_ticks(prev, cur) == 0 && busy_ticks(prev, cur) > 0 ==> prev.usage_percent(&cur)
            == 100,
        busy_ticks(prev, cur) == 0 ==> prev.usage_percent(&cur) == 0,
{
    law_usage_of_ticks(prev, cur);
    let b = busy_ticks(prev, cur);
    if waiting_ticks(prev, cur) == 0 && b > 0 {
        assert(b * 100 / b == 100) by (nonlinear_arith)
            requires
                b > 0,
        ;
    }
    if b == 0 && waiting_ticks(prev, cur) != 0 {
        let t = waiting_ticks(prev, cur);
        assert(0int * 100 / t == 0) by (nonlinear_arith)
            requires
                t > 0,
        ;
    }
}

impl View for CoreStats {
    type V = (Seq<char>, u32, Seq<u32>);

    /// The usage of a core as its name, its last usage and its history.
    open spec fn view(&self) -> (Seq<char>, u32, Seq<u32>) {
        (self.id@, self.usage, self.history@)
    }
}

/// The views of a sequence of core usages.
pub open spec fn stat_views(ss: Seq<CoreStats>) -> Seq<(Seq<char>, u32, Seq<u32>)> {
    ss.map_values(|s: CoreStats| s@)
}

/// A history of nine zeros.
pub open spec fn zero_history() -> Seq<u32> {
    Seq::new(history_len(), |i: int| 0u32)
}

impl CoreStats {
    /// The usage of a core at its first reading; the history holds zeros.
    pub fn new(id: String, usage: u32) -> (r: Self)
        ensures
            r.id == id,
            r.usage == usage,
            r.history@ == zero_history(),
    {
        let r = CoreStats { id, usage, history: [0u32; 9] };
        assert(r.history@ =~= zero_history());
        r
    }

    /// One more reading: it becomes the usage and the newest history entry.
    pub fn update(&mut self, new_usage: u32)
        ensures
            final(self).id == old(self).id,
            final(self).usage == new_usage,
            final(self).history@ == shifted(old(self).history@, new_usage),
    {
        let h = self.history;
        self.usage = new_usage;
        self.history = [h[1], h[2], h[3], h[4], h[5], h[6], h[7], h[8], new_usage];
        assert(self.history@ =~= shifted(h@, new_usage));
    }
}

/// The values, in order, of the words that `str::parse::<u64>` accepts.
pub open spec fn numbers_of(words: Seq<Seq<char>>) -> Seq<u64>
    decreases words.len(),
{
    if words.len() == 0 {
        seq![]
    } else {
        let prev = numbers_of(words.drop_last());
        match parse_uint_of(words.last(), u64::MAX as nat) {
            Ok(v) => prev.push(v as u64),
            Err(_) => prev,
        }
    }
}

/// The core that a line of `/proc/stat` describes, as its name and its first
/// eight counters: the line starts with `cpu` and a digit, and at least eight
/// of the words after the name are numbers.
pub open spec fn core_of_line(line: Seq<char>) -> Option<(Seq<char>, Seq<u64>)> {
    if starts_with(line, "cpu"@) && line.len() > 3 && is_ascii_digit(line[3]) {
        let w = words_of(line);
        let id = if w.len() > 0 { w[0] } else { seq![] };
        let nums = if w.len() > 0 { numbers_of(w.drop_first()) } else { seq![] };
        if nums.len() >= 8 {
            Some((id, nums.take(8)))
        } else {
            None
        }
    } else {
        None
    }
}

/// Whether a line of `/proc/stat` is a full line of a core: it starts with
/// `cpu` and a digit, and its name is followed by at least eight words that
/// are all numbers.
pub open spec fn full_core_line(line: Seq<char>) -> bool {
    let w = words_of(line);
    &&& starts_with(line, "cpu"@)
    &&& line.len() > 3
    &&& is_ascii_digit(line[3])
    &&& w.len() >= 9
    &&& forall|k: int| 1 <= k <= 8 ==> (#[trigger] parse_uint_of(w[k], u64::MAX as nat)) is Ok
}

/// The value that word `k` of a line reads as, `str::parse::<u64>` taken as
/// it is.
pub open spec fn word_reads_as(line: Seq<char>, k: int, v: u64) -> bool {
    parse_uint_of(words_of(line)[k], u64::MAX as nat) == Ok::<nat, IntErrorKind>(v as nat)
}

proof fn lemma_numbers_append(a: Seq<Seq<char>>, b: Seq<Seq<char>>)
    ensures
        numbers_of(a + b) == numbers_of(a) + numbers_of(b),
    decreases b.len(),
{
    if b.len() == 0 {
        assert(a + b =~= a);
        assert(numbers_of(a) + numbers_of(b) =~= numbers_of(a));
    } else {
        lemma_numbers_append(a, b.drop_last());
        assert((a + b).drop_last() =~= a + b.drop_last());
        assert((a + b).last() == b.last());
        let p = numbers_of(a);
        let q = numbers_of(b.drop_last());
        match parse_uint_of(b.last(), u64::MAX as nat) {
            Ok(v) => {
                assert((p + q).push(v as u64) =~= p + q.push(v as u64));
            },
            Err(_) => {},
        }
    }
}

proof fn lemma_numbers_all(a: Seq<Seq<char>>)
    requires
        forall|k: int| 0 <= k < a.len() ==> (#[trigger] parse_uint_of(a[k], u64::MAX as nat)) is Ok,
    ensures
        numbers_of(a).len() == a.len(),
        forall|k: int|
            0 <= k < a.len() ==> parse_uint_of(a[k], u64::MAX as nat) == Ok::<nat, IntErrorKind>(
                #[trigger] numbers_of(a)[k] as nat,
            ),
    decreases a.len(),
{
    if a.len() > 0 {
        let p = a.drop_last();
        assert forall|k: int| 0 <= k < p.len() implies (#[trigger] parse_uint_of(
            p[k],
            u64::MAX as nat,
        )) is Ok by {
            assert(p[k] == a[k]);
        }
        lemma_numbers_all(p);
        assert(parse_uint_of(a[a.len() - 1], u64::MAX as nat) is Ok);
        lemma_parse_uint_bound(a.last(), u64::MAX as nat);
        assert forall|k: int| 0 <= k < a.len() implies parse_uint_of(a[k], u64::MAX as nat)
            == Ok::<nat, IntErrorKind>(#[trigger] numbers_of(a)[k] as nat) by {
            if k < p.len() {
                assert(a[k] == p[k]);
            }
        }
    }
}

/// A full line of a core is a core: its name is the first word, and its
/// counters are the eight words after it, in the order of `/proc/stat`:
/// user, nice, system, idle, iowait, irq, softirq, steal.
pub proof fn law_core_line_counters(line: Seq<char>)
    requires
        full_core_line(line),
    ensures
        core_of_line(line) is Some,
        core_of_line(line).unwrap().0 == words_of(line)[0],
        core_of_line(line).unwrap().1.len() == 8,
        forall|k: int|
            0 <= k < 8 ==> #[trigger] word_reads_as(line, k + 1, core_of_line(line).unwrap().1[k]),
{
    let w = words_of(line);
    let x = w.drop_first();
    assert forall|k: int| 0 <= k < 8 implies (#[trigger] parse_uint_of(
        x.take(8)[k],
        u64::MAX as nat,
    )) is Ok by {
        assert(x.take(8)[k] == w[k + 1]);
        assert(parse_uint_of(w[k + 1], u64::MAX as nat) is Ok);
    }
    lemma_numbers_all(x.take(8));
    assert(x =~= x.take(8) + x.skip(8));
    lemma_numbers_append(x.take(8), x.skip(8));
    let nums = numbers_of(x);
    assert(nums.take(8) =~= numbers_of(x.take(8)));
    assert forall|k: int| 0 <= k < 8 implies #[trigger] word_reads_as(
        line,
        k + 1,
        core_of_line(line).unwrap().1[k],
    ) by {
        assert(x.take(8)[k] == w[k + 1]);
        assert(core_of_line(line).unwrap().1[k] == numbers_of(x.take(8))[k]);
    }
}

/// Each core read from a full line of `/proc/stat` carries that line's
/// first word as its name and the line's counters field by field: `user`
/// is the second word, `nice` the third, `system` the fourth, `idle` the
/// fifth, `iowait` the sixth, `irq` the seventh, `softirq` the eighth and
/// `steal` the ninth.
pub proof fn law_core_fields(line: Seq<char>, c: CoreInfo)
    requires
        full_core_line(line),
        core_of_line(line) == Some(core_view(c)),
    ensures
        c.id@ == words_of(line)[0],
        word_reads_as(line, 1, c.user),
        word_reads_as(line, 2, c.nice),
        word_reads_as(line, 3, c.system),
        word_reads_as(line, 4, c.idle),
        word_reads_as(line, 5, c.iowait),
        word_reads_as(line, 6, c.irq),
        word_reads_as(line, 7, c.softirq),
        word_reads_as(line, 8, c.steal),
{
    law_core_line_counters(line);
    let cs = c.counters();
    assert(word_reads_as(line, 0int + 1, cs[0]));
    assert(word_reads_as(line, 1int + 1, cs[1]));
    assert(word_reads_as(line, 2int + 1, cs[2]));
    assert(word_reads_as(line, 3int + 1, cs[3]));
    assert(word_reads_as(line, 4int + 1, cs[4]));
    assert(word_reads_as(line, 5int + 1, cs[5]));
    assert(word_reads_as(line, 6int + 1, cs[6]));
    assert(word_reads_as(line, 7int + 1, cs[7]));
}

/// The cores that the lines of `/proc/stat` describe, in order.
pub open spec fn cores_of(lines: Seq<Seq<char>>) -> Seq<(Seq<char>, Seq<u64>)>
    decreases lines.len(),
{
    if lines.len() == 0 {
        seq![]
    } else {
        let prev = cores_of(lines.drop_last());
        match core_of_line(lines.last()) {
            Some(c) => prev.push(c),
            None => prev,
        }
    }
}

/// The cores of a text made of two runs of lines are the cores of the first
/// run followed by those of the second: cores keep the order of their lines,
/// and a line's core does not depend on the lines around it.
pub proof fn law_cores_in_line_order(a: Seq<Seq<char>>, b: Seq<Seq<char>>)
    ensures
        cores_of(a + b) == cores_of(a) + cores_of(b),
    decreases b.len(),
{
    if b.len() == 0 {
        assert(a + b =~= a);
        assert(cores_of(a) + cores_of(b) =~= cores_of(a));
    } else {
        law_cores_in_line_order(a, b.drop_last());
        assert((a + b).drop_last() =~= a + b.drop_last());
        assert((a + b).last() == b.last());
        let p = cores_of(a);
        let q = cores_of(b.drop_last());
        match core_of_line(b.last()) {
            Some(c) => {
                assert((p + q).push(c) =~= p + q.push(c));
            },
            None => {},
        }
    }
}

/// A single full line of a core gives exactly one core.
pub proof fn law_one_core_line(line: Seq<char>)
    requires
        full_core_line(line),
    ensures
        cores_of(seq![line]).len() == 1,
        Some(cores_of(seq![line])[0]) == core_of_line(line),
{
    law_core_line_counters(line);
    let one = seq![line];
    assert(one.drop_last() =~= Seq::<Seq<char>>::empty());
    assert(one.last() == line);
    assert(cores_of(one.drop_last()) =~= Seq::<(Seq<char>, Seq<u64>)>::empty());
    assert(cores_of(one) =~= seq![core_of_line(line).unwrap()]);
}

/// The view of the counters of a core: its name and its eight counters.
pub open spec fn core_view(c: CoreInfo) -> (Seq<char>, Seq<u64>) {
    (c.id@, c.counters())
}

/// The views of a sequence of cores.
pub open spec fn core_views(cs: Seq<CoreInfo>) -> Seq<(Seq<char>, Seq<u64>)> {
    cs.map_values(|c: CoreInfo| core_view(c))
}

/// The core that `line` describes, if it is a line of a core.
fn core_from_line(line: &Vec<char>, cpu: &Vec<char>) -> (r: Option<CoreInfo>)
    requires
        cpu@ == "cpu"@,
    ensures
        match r {
            Some(c) => core_of_line(line@) == Some(core_view(c)),
            None => core_of_line(line@) is None,
        },
{
    if !(has_prefix(line, cpu) && line.len() > 3 && '0' <= line[3] && line[3] <= '9') {
        return None;
    }
    let words = split_whitespace(line);
    let ghost w = char_views(words@);
    if words.len() == 0 {
        return None;
    }
    let mut nums: Vec<u64> = Vec::new();
    let mut j: usize = 1;
    while j < words.len()
        invariant
            1 <= j <= words.len(),
            w == char_views(words@),
            nums@ == numbers_of(w.drop_first().take(j - 1)),
        decreases words.len() - j,
    {
        let ghost before = w.drop_first().take(j - 1);
        assert(w.drop_first().take(j as int).drop_last() =~= before);
        assert(w.drop_first().take(j as int).last() == words@[j as int]@);
        match parse_u64(&words[j]) {
            Ok(v) => {
                nums.push(v);
            },
            Err(_) => {},
        }
        j += 1;
    }
    assert(w.drop_first().take(j - 1) =~= w.drop_first());
    if nums.len() < 8 {
        return None;
    }
    let id = string_of(&words[0]);
    let c = CoreInfo::new(
        id,
        nums[0],
        nums[1],
        nums[2],
        nums[3],
        nums[4],
        nums[5],
        nums[6],
        nums[7],
    );
    assert(c.counters() =~= nums@.take(8));
    Some(c)
}

impl CpuInfo {
    /// The cores that the text of `/proc/stat` describes, in order.
    pub fn parse_proc_stat(content: &str) -> (r: Vec<CoreInfo>)
        ensures
            core_views(r@) == cores_of(lines_of(content@)),
    {
        let cs = chars_of(content);
        let lines = split_lines(&cs);
        let ghost ls = char_views(lines@);
        let cpu = chars_of("cpu");
        let mut cores: Vec<CoreInfo> = Vec::new();
        let mut i: usize = 0;
        while i < lines.len()
            invariant
                i <= lines.len(),
                ls == char_views(lines@),
                cpu@ == "cpu"@,
                core_views(cores@) == cores_of(ls.take(i as int)),
            decreases lines.len() - i,
        {
            assert(ls.take(i + 1).drop_last() =~= ls.take(i as int));
            assert(ls.take(i + 1).last() == lines@[i as int]@);
            let ghost before = core_views(cores@);
            match core_from_line(&lines[i], &cpu) {
                Some(c) => {
                    cores.push(c);
                    assert(core_views(cores@) =~= before.push(core_view(c)));
                },
                None => {},
            }
            i += 1;
        }
        assert(ls.take(i as int) =~= ls);
        cores
    }
}

/// The index of the first core at or after `k` named `id`, or -1.
pub open spec fn first_named(cs: Seq<CoreInfo>, id: Seq<char>, k: int) -> int
    decreases cs.len() - k,
{
    if k < 0 || k >= cs.len() {
        -1
    } else if cs[k].id@ == id {
        k
    } else {
        first_named(cs, id, k + 1)
    }
}

/// For each core of the new reading `cur` that the previous reading `prev`
/// names too (its first core of that name), in order: its usage since then,
/// or `None` where computing it would overflow.
pub open spec fn usage_readings(prev: Seq<CoreInfo>, cur: Seq<CoreInfo>) -> Seq<Option<u32>>
    decreases cur.len(),
{
    if cur.len() == 0 {
        seq![]
    } else {
        let r = usage_readings(prev, cur.drop_last());
        let c = cur.last();
        let k = first_named(prev, c.id@, 0);
        if k < 0 {
            r
        } else if prev[k].usage_defined(&c) {
            r.push(Some(prev[k].usage_percent(&c) as u32))
        } else {
            r.push(None)
        }
    }
}

/// The name of the `n`-th core's usage: `CPU` and the number.
pub open spec fn core_stat_name(n: nat) -> Seq<char> {
    "CPU"@ + decimal(n)
}

/// The usages after the readings `us`: the `i`-th reading (when there is one)
/// updates the `i`-th usage, or is appended as a new usage named
/// `CPU{i + 1}` when there are no more than `i` usages.
pub open spec fn stats_after(
    stats: Seq<(Seq<char>, u32, Seq<u32>)>,
    us: Seq<Option<u32>>,
) -> Seq<(Seq<char>, u32, Seq<u32>)>
    decreases us.len(),
{
    if us.len() == 0 {
        stats
    } else {
        let s = stats_after(stats, us.drop_last());
        let i = us.len() - 1;
        match us.last() {
            None => s,
            Some(u) => if i < s.len() {
                s.update(i, (s[i].0, u, shifted(s[i].2, u)))
            } else {
                s.push((core_stat_name((i + 1) as nat), u, zero_history()))
            },
        }
    }
}

/// A reading never drops nor renames a core's usage: the usages after the
/// readings `us` start with the usages there were, under the same names.
pub proof fn law_stats_kept(stats: Seq<(Seq<char>, u32, Seq<u32>)>, us: Seq<Option<u32>>)
    ensures
        stats_after(stats, us).len() >= stats.len(),
        forall|i: int| 0 <= i < stats.len() ==> #[trigger] stats_after(stats, us)[i].0 == stats[i].0,
    decreases us.len(),
{
    if us.len() > 0 {
        law_stats_kept(stats, us.drop_last());
    }
}

/// When every core has a reading, the `k`-th reading goes to the `k`-th
/// usage: the usages then number as many as the larger of the usages there
/// were and the readings, the `k`-th usage holds the `k`-th reading, the
/// usages there were keep their names, and a usage added for the `k`-th
/// reading is named `CPU{k + 1}`.
pub proof fn law_readings_in_order(stats: Seq<(Seq<char>, u32, Seq<u32>)>, us: Seq<Option<u32>>)
    requires
        forall|k: int| 0 <= k < us.len() ==> (#[trigger] us[k]) is Some,
    ensures
        stats_after(stats, us).len() == if stats.len() >= us.len() {
            stats.len()
        } else {
            us.len()
        },
        forall|k: int|
            0 <= k < us.len() ==> us[k] == Some(#[trigger] stats_after(stats, us)[k].1),
        forall|k: int|
            0 <= k < stats_after(stats, us).len() ==> #[trigger] stats_after(stats, us)[k].0 == if k
                < stats.len() {
                stats[k].0
            } else {
                core_stat_name((k + 1) as nat)
            },
    decreases us.len(),
{
    if us.len() > 0 {
        let p = us.drop_last();
        assert forall|k: int| 0 <= k < p.len() implies (#[trigger] p[k]) is Some by {
            assert(p[k] == us[k]);
        }
        law_readings_in_order(stats, p);
        let sp = stats_after(stats, p);
        let i = us.len() - 1;
        assert(us[i] is Some);
        assert(us.last() == us[i]);
        let r = stats_after(stats, us);
        assert forall|k: int| 0 <= k < us.len() implies us[k] == Some(#[trigger] r[k].1) by {
            if k < i {
                assert(us[k] == p[k]);
                assert(p[k] == Some(sp[k].1));
            }
        }
        assert forall|k: int| 0 <= k < r.len() implies #[trigger] r[k].0 == if k < stats.len() {
            stats[k].0
        } else {
            core_stat_name((k + 1) as nat)
        } by {
            if k < sp.len() {
                assert(r[k].0 == sp[k].0);
            }
        }
    }
}

impl CpuInfo {
    /// The processor `model`, with the cores that the text of `/proc/stat`
    /// describes and no usage yet.
    pub fn new(model: String, stat: &str) -> (r: Self)
        ensures
            r.model == model,
            core_views(r.cores@) == cores_of(lines_of(stat@)),
            r.number_of_cores == r.cores@.len() as u32,
            r.stats@.len() == 0,
    {
        let cores = Self::parse_proc_stat(stat);
        CpuInfo { model, number_of_cores: cores.len() as u32, cores, stats: Vec::new() }
    }

    /// A new reading of `/proc/stat`: the usage of each core since the
    /// previous reading goes into its usage and history, and the new counters
    /// replace the previous ones.
    pub fn update_stats(&mut self, stat: &str)
        ensures
            final(self).model == old(self).model,
            final(self).number_of_cores == old(self).number_of_cores,
            core_views(final(self).cores@) == cores_of(lines_of(stat@)),
            stat_views(final(self).stats@) == stats_after(
                stat_views(old(self).stats@),
                usage_readings(old(self).cores@, final(self).cores@),
            ),
    {
        let new_cores = Self::parse_proc_stat(stat);
        let mut usages: Vec<Option<u32>> = Vec::new();
        let mut j: usize = 0;
        while j < new_cores.len()
            invariant
                j <= new_cores.len(),
                usages@ == usage_readings(self.cores@, new_cores@.take(j as int)),
            decreases new_cores.len() - j,
        {
            assert(new_cores@.take(j + 1).drop_last() =~= new_cores@.take(j as int));
            let cur = &new_cores[j];
            let mut k: usize = 0;
            while k < self.cores.len() && self.cores[k].id != cur.id
                invariant
                    k <= self.cores.len(),
                    first_named(self.cores@, cur.id@, 0) == first_named(
                        self.cores@,
                        cur.id@,
                        k as int,
                    ),
                decreases self.cores.len() - k,
            {
                k += 1;
            }
            if k < self.cores.len() {
                let prev = &self.cores[k];
                if prev.usage_is_defined(cur) {
                    usages.push(Some(prev.calculate_cpu_usage(cur)));
                } else {
                    usages.push(None);
                }
            }
            j += 1;
        }
        assert(new_cores@.take(j as int) =~= new_cores@);
        let ghost old_stats = stat_views(self.stats@);
        let mut i: usize = 0;
        while i < usages.len()
            invariant
                i <= usages.len(),
                self.model == old(self).model,
                self.number_of_cores == old(self).number_of_cores,
                stat_views(self.stats@) == stats_after(old_stats, usages@.take(i as int)),
            decreases usages.len() - i,
        {
            assert(usages@.take(i + 1).drop_last() =~= usages@.take(i as int));
            let ghost before = stat_views(self.stats@);
            match usages[i] {
                Some(usage) => {
                    if i < self.stats.len() {
                        let ghost si = self.stats@[i as int];
                        self.stats[i].update(usage);
                        assert(stat_views(self.stats@) =~= before.update(
                            i as int,
                            (si.id@, usage, shifted(si.history@, usage)),
                        ));
                    } else {
                        let mut id = String::from_str("CPU");
                        push_decimal(&mut id, (i + 1) as u64);
                        self.stats.push(CoreStats::new(id, usage));
                        assert(stat_views(self.stats@) =~= before.push(
                            (core_stat_name((i + 1) as nat), usage, zero_history()),
                        ));
                    }
                },
                None => {},
            }
            i += 1;
        }
        assert(usages@.take(i as int) =~= usages@);
        self.cores = new_cores;
    }
}

} // verus!
