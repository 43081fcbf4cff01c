//! Memory amounts read from `/proc/meminfo`, in whole kB.
use vstd::prelude::*;
use crate::utils::text::{chars_of, split_lines, lines_of, has_prefix, starts_with, char_views};
use crate::utils::parser::{memory_value, memory_value_of};

verus! {

/// The used and total amounts of memory, swap and disk.
#[derive(Debug, Clone)]
pub struct MemoryInfo {
    pub ram_used: u64,
    pub ram_total: u64,
    pub swap_used: u64,
    pub swap_total: u64,
    pub disk_used: u64,
    pub disk_total: u64,
}

/// The amounts (RAM used, RAM total, swap used, swap total) after one line of
/// `/proc/meminfo`: `MemTotal:` sets the RAM total, `MemAvailable:` sets the
/// RAM used to the RAM total known so far minus the amount available,
/// `SwapTotal:` sets the swap total, `SwapFree:` sets the swap used to the
/// swap total known so far minus the amount free; other lines change nothing.
pub open spec fn meminfo_step(m: (u64, u64, u64, u64), line: Seq<char>) -> (u64, u64, u64, u64) {
    let v = memory_value_of(line);
    if starts_with(line, "MemTotal:"@) {
        (m.0, v, m.2, m.3)
    } else if starts_with(line, "MemAvailable:"@) {
        ((m.1 - v) as u64, m.1, m.2, m.3)
    } else if starts_with(line, "SwapTotal:"@) {
        (m.0, m.1, m.2, v)
    } else if starts_with(line, "SwapFree:"@) {
        (m.0, m.1, (m.3 - v) as u64, m.3)
    } else {
        m
    }
}

/// Whether a line subtracts no more than the total it is subtracted from:
/// the amount of a `MemAvailable:` line is at most the RAM total known so
/// far, that of a `SwapFree:` line at most the swap total known so far.
pub open spec fn step_fits(m: (u64, u64, u64, u64), line: Seq<char>) -> bool {
    &&& sets_ram_used(line) ==> memory_value_of(line) <= m.1
    &&& sets_swap_used(line) ==> memory_value_of(line) <= m.3
}

/// Whether each line of `ls`, read in order from the amounts `m`,
/// subtracts no more than the total it is subtracted from.
pub open spec fn meminfo_fits(m: (u64, u64, u64, u64), ls: Seq<Seq<char>>) -> bool
    decreases ls.len(),
{
    if ls.len() == 0 {
        true
    } else {
        meminfo_fits(m, ls.drop_last()) && step_fits(meminfo_after(m, ls.drop_last()), ls.last())
    }
}

proof fn lemma_fits_prefix(m: (u64, u64, u64, u64), ls: Seq<Seq<char>>, k: int)
    requires
        0 <= k <= ls.len(),
        meminfo_fits(m, ls),
    ensures
        meminfo_fits(m, ls.take(k)),
    decreases ls.len() - k,
{
    if k == ls.len() {
        assert(ls.take(k) =~= ls);
    } else {
        lemma_fits_prefix(m, ls, k + 1);
        assert(ls.take(k + 1).drop_last() =~= ls.take(k));
    }
}

/// The amounts after the lines `ls`, in order.
pub open spec fn meminfo_after(m: (u64, u64, u64, u64), ls: Seq<Seq<char>>) -> (
    u64,
    u64,
    u64,
    u64,
)
    decreases ls.len(),
{
    if ls.len() == 0 {
        m
    } else {
        meminfo_step(meminfo_after(m, ls.drop_last()), ls.last())
    }
}

/// Whether a line of `/proc/meminfo` sets the RAM total.
pub open spec fn sets_ram_total(l: Seq<char>) -> bool {
    starts_with(l, "MemTotal:"@)
}

/// Whether a line of `/proc/meminfo` sets the RAM used.
pub open spec fn sets_ram_used(l: Seq<char>) -> bool {
    !sets_ram_total(l) && starts_with(l, "MemAvailable:"@)
}

/// Whether a line of `/proc/meminfo` sets the swap total.
pub open spec fn sets_swap_total(l: Seq<char>) -> bool {
    !sets_ram_total(l) && !sets_ram_used(l) && starts_with(l, "SwapTotal:"@)
}

/// Whether a line of `/proc/meminfo` sets the swap used.
pub open spec fn sets_swap_used(l: Seq<char>) -> bool {
    !sets_ram_total(l) && !sets_ram_used(l) && !sets_swap_total(l) && starts_with(
        l,
        "SwapFree:"@,
    )
}

pub open spec fn has_ram_total(ls: Seq<Seq<char>>) -> bool {
    exists|i: int| 0 <= i < ls.len() && #[trigger] sets_ram_total(ls[i])
}

pub open spec fn has_ram_used(ls: Seq<Seq<char>>) -> bool {
    exists|i: int| 0 <= i < ls.len() && #[trigger] sets_ram_used(ls[i])
}

pub open spec fn has_swap_total(ls: Seq<Seq<char>>) -> bool {
    exists|i: int| 0 <= i < ls.len() && #[trigger] sets_swap_total(ls[i])
}

pub open spec fn has_swap_used(ls: Seq<Seq<char>>) -> bool {
    exists|i: int| 0 <= i < ls.len() && #[trigger] sets_swap_used(ls[i])
}

/// Whether each `MemAvailable:` line comes after a `MemTotal:` line, and
/// each `SwapFree:` line after a `SwapTotal:` line.
pub open spec fn totals_come_first(ls: Seq<Seq<char>>) -> bool {
    &&& forall|j: int|
        0 <= j < ls.len() && #[trigger] sets_ram_used(ls[j]) ==> has_ram_total(ls.take(j))
    &&& forall|j: int|
        0 <= j < ls.len() && #[trigger] sets_swap_used(ls[j]) ==> has_swap_total(ls.take(j))
}

/// Whether no `MemTotal:` line comes after a `MemAvailable:` line, and no
/// `SwapTotal:` line after a `SwapFree:` line.
pub open spec fn no_total_after_used(ls: Seq<Seq<char>>) -> bool {
    &&& forall|i: int, j: int|
        0 <= i < j < ls.len() && #[trigger] sets_ram_used(ls[i]) ==> !#[trigger] sets_ram_total(
            ls[j],
        )
    &&& forall|i: int, j: int|
        0 <= i < j < ls.len() && #[trigger] sets_swap_used(ls[i]) ==> !#[trigger] sets_swap_total(
            ls[j],
        )
}

proof fn lemma_has_prefix_of(ls: Seq<Seq<char>>)
    requires
        ls.len() > 0,
    ensures
        has_ram_total(ls) && !sets_ram_total(ls.last()) ==> has_ram_total(ls.drop_last()),
        has_ram_used(ls) && !sets_ram_used(ls.last()) ==> has_ram_used(ls.drop_last()),
        has_swap_total(ls) && !sets_swap_total(ls.last()) ==> has_swap_total(ls.drop_last()),
        has_swap_used(ls) && !sets_swap_used(ls.last()) ==> has_swap_used(ls.drop_last()),
        !has_ram_total(ls) ==> !has_ram_total(ls.drop_last()) && !sets_ram_total(ls.last()),
        !has_ram_used(ls) ==> !has_ram_used(ls.drop_last()) && !sets_ram_used(ls.last()),
        !has_swap_total(ls) ==> !has_swap_total(ls.drop_last()) && !sets_swap_total(ls.last()),
        !has_swap_used(ls) ==> !has_swap_used(ls.drop_last()) && !sets_swap_used(ls.last()),
{
    let p = ls.drop_last();
    let n = ls.len() - 1;
    assert(ls[n] == ls.last());
    if has_ram_total(ls) && !sets_ram_total(ls.last()) {
        let i = choose|i: int| 0 <= i < ls.len() && #[trigger] sets_ram_total(ls[i]);
        assert(p[i] == ls[i]);
    }
    if has_ram_used(ls) && !sets_ram_used(ls.last()) {
        let i = choose|i: int| 0 <= i < ls.len() && #[trigger] sets_ram_used(ls[i]);
        assert(p[i] == ls[i]);
    }
    if has_swap_total(ls) && !sets_swap_total(ls.last()) {
        let i = choose|i: int| 0 <= i < ls.len() && #[trigger] sets_swap_total(ls[i]);
        assert(p[i] == ls[i]);
    }
    if has_swap_used(ls) && !sets_swap_used(ls.last()) {
        let i = choose|i: int| 0 <= i < ls.len() && #[trigger] sets_swap_used(ls[i]);
        assert(p[i] == ls[i]);
    }
    assert forall|i: int| 0 <= i < p.len() implies p[i] == ls[i] by {}
}

/// An amount that no line sets keeps the value it had.
proof fn lemma_unset_amounts(m: (u64, u64, u64, u64), ls: Seq<Seq<char>>)
    ensures
        !has_ram_used(ls) ==> meminfo_after(m, ls).0 == m.0,
        !has_ram_total(ls) ==> meminfo_after(m, ls).1 == m.1,
        !has_swap_used(ls) ==> meminfo_after(m, ls).2 == m.2,
        !has_swap_total(ls) ==> meminfo_after(m, ls).3 == m.3,
    decreases ls.len(),
{
    if ls.len() > 0 {
        lemma_has_prefix_of(ls);
        lemma_unset_amounts(m, ls.drop_last());
    }
}

/// A total that some line sets does not depend on the amounts before.
proof fn lemma_set_totals(m1: (u64, u64, u64, u64), m2: (u64, u64, u64, u64), ls: Seq<Seq<char>>)
    ensures
        has_ram_total(ls) ==> meminfo_after(m1, ls).1 == meminfo_after(m2, ls).1,
        has_swap_total(ls) ==> meminfo_after(m1, ls).3 == meminfo_after(m2, ls).3,
    decreases ls.len(),
{
    if ls.len() > 0 {
        lemma_has_prefix_of(ls);
        lemma_set_totals(m1, m2, ls.drop_last());
    }
}

proof fn lemma_take_prefix(ls: Seq<Seq<char>>)
    requires
        ls.len() > 0,
        totals_come_first(ls),
    ensures
        totals_come_first(ls.drop_last()),
        sets_ram_used(ls.last()) ==> has_ram_total(ls.drop_last()),
        sets_swap_used(ls.last()) ==> has_swap_total(ls.drop_last()),
{
    let p = ls.drop_last();
    let n = ls.len() - 1;
    assert(ls[n] == ls.last());
    assert(ls.take(n) =~= p);
    assert forall|j: int| 0 <= j < p.len() && #[trigger] sets_ram_used(p[j]) implies has_ram_total(
        p.take(j),
    ) by {
        assert(p[j] == ls[j]);
        assert(p.take(j) =~= ls.take(j));
    }
    assert forall|j: int| 0 <= j < p.len() && #[trigger] sets_swap_used(p[j]) implies has_swap_total(
        p.take(j),
    ) by {
        assert(p[j] == ls[j]);
        assert(p.take(j) =~= ls.take(j));
    }
}

/// A used amount that some line sets does not depend on the amounts
/// before, when each such line comes after a line setting its total.
proof fn lemma_set_useds(m1: (u64, u64, u64, u64), m2: (u64, u64, u64, u64), ls: Seq<Seq<char>>)
    requires
        totals_come_first(ls),
    ensures
        has_ram_used(ls) ==> meminfo_after(m1, ls).0 == meminfo_after(m2, ls).0,
        has_swap_used(ls) ==> meminfo_after(m1, ls).2 == meminfo_after(m2, ls).2,
    decreases ls.len(),
{
    if ls.len() > 0 {
        lemma_has_prefix_of(ls);
        lemma_take_prefix(ls);
        lemma_set_useds(m1, m2, ls.drop_last());
        lemma_set_totals(m1, m2, ls.drop_last());
    }
}

/// Reading the same `/proc/meminfo` text twice gives what reading it once
/// gives, when each `MemAvailable:` line comes after a `MemTotal:` line and
/// each `SwapFree:` line after a `SwapTotal:` line.
pub proof fn law_meminfo_update_settles(m: (u64, u64, u64, u64), ls: Seq<Seq<char>>)
    requires
        totals_come_first(ls),
    ensures
        meminfo_after(meminfo_after(m, ls), ls) == meminfo_after(m, ls),
{
    let r = meminfo_after(m, ls);
    lemma_unset_amounts(m, ls);
    lemma_unset_amounts(r, ls);
    lemma_set_totals(m, r, ls);
    lemma_set_useds(m, r, ls);
}

/// After reading a `/proc/meminfo` text that sets the RAM used (the swap
/// used), it is at most the RAM total (the swap total), when no line sets
/// that total after a line setting its used amount.
pub proof fn law_used_within_total(m: (u64, u64, u64, u64), ls: Seq<Seq<char>>)
    requires
        no_total_after_used(ls),
        meminfo_fits(m, ls),
    ensures
        has_ram_used(ls) ==> meminfo_after(m, ls).0 <= meminfo_after(m, ls).1,
        has_swap_used(ls) ==> meminfo_after(m, ls).2 <= meminfo_after(m, ls).3,
    decreases ls.len(),
{
    if ls.len() > 0 {
        let p = ls.drop_last();
        let n = ls.len() - 1;
        assert(ls[n] == ls.last());
        assert forall|i: int, j: int|
            0 <= i < j < p.len() && #[trigger] sets_ram_used(p[i]) implies !#[trigger] sets_ram_total(
            p[j],
        ) by {
            assert(p[i] == ls[i] && p[j] == ls[j]);
        }
        assert forall|i: int, j: int|
            0 <= i < j < p.len() && #[trigger] sets_swap_used(p[i]) implies !#[trigger] sets_swap_total(
            p[j],
        ) by {
            assert(p[i] == ls[i] && p[j] == ls[j]);
        }
        lemma_has_prefix_of(ls);
        law_used_within_total(m, p);
        if has_ram_used(p) && sets_ram_total(ls.last()) {
            let i = choose|i: int| 0 <= i < p.len() && #[trigger] sets_ram_used(p[i]);
            assert(p[i] == ls[i]);
            assert(sets_ram_total(ls[n]));
        }
        if has_swap_used(p) && sets_swap_total(ls.last()) {
            let i = choose|i: int| 0 <= i < p.len() && #[trigger] sets_swap_used(p[i]);
            assert(p[i] == ls[i]);
            assert(sets_swap_total(ls[n]));
        }
    }
}

/// The RAM total after a `/proc/meminfo` text is the amount of its last
/// `MemTotal:` line, and the swap total that of its last `SwapTotal:` line.
pub proof fn law_totals_from_last_lines(m: (u64, u64, u64, u64), ls: Seq<Seq<char>>, i: int)
    requires
        0 <= i < ls.len(),
    ensures
        sets_ram_total(ls[i]) && (forall|j: int| i < j < ls.len() ==> !sets_ram_total(#[trigger] ls[j]))
            ==> meminfo_after(m, ls).1 == memory_value_of(ls[i]),
        sets_swap_total(ls[i]) && (forall|j: int|
            i < j < ls.len() ==> !sets_swap_total(#[trigger] ls[j])) ==> meminfo_after(m, ls).3
            == memory_value_of(ls[i]),
    decreases ls.len(),
{
    if i < ls.len() - 1 {
        let p = ls.drop_last();
        let n = ls.len() - 1;
        assert(ls[n] == ls.last());
        assert forall|j: int| i < j < p.len() implies p[j] == ls[j] by {}
        law_totals_from_last_lines(m, p, i);
    }
}

/// After a `/proc/meminfo` text, the RAM used plus the amount of the last
/// `MemAvailable:` line is the RAM total, when no `MemTotal:` line follows
/// that line; likewise the swap used plus the amount of the last
/// `SwapFree:` line is the swap total, when no `SwapTotal:` line follows it.
pub proof fn law_used_plus_free_is_total(m: (u64, u64, u64, u64), ls: Seq<Seq<char>>, i: int)
    requires
        0 <= i < ls.len(),
        meminfo_fits(m, ls),
    ensures
        sets_ram_used(ls[i]) && (forall|j: int|
            i < j < ls.len() ==> !sets_ram_used(#[trigger] ls[j]) && !sets_ram_total(ls[j]))
            ==> meminfo_after(m, ls).0 + memory_value_of(ls[i]) == meminfo_after(m, ls).1,
        sets_swap_used(ls[i]) && (forall|j: int|
            i < j < ls.len() ==> !sets_swap_used(#[trigger] ls[j]) && !sets_swap_total(ls[j]))
            ==> meminfo_after(m, ls).2 + memory_value_of(ls[i]) == meminfo_after(m, ls).3,
    decreases ls.len(),
{
    let p = ls.drop_last();
    let n = ls.len() - 1;
    assert(ls[n] == ls.last());
    if i < n {
        assert forall|j: int| i < j < p.len() implies p[j] == ls[j] by {}
        law_used_plus_free_is_total(m, p, i);
    }
}

impl MemoryInfo {
    /// The amounts that `/proc/meminfo` gives: RAM used, RAM total, swap used,
    /// swap total.
    pub open spec fn amounts(&self) -> (u64, u64, u64, u64) {
        (self.ram_used, self.ram_total, self.swap_used, self.swap_total)
    }

    /// All amounts at zero.
    pub fn new() -> (r: Self)
        ensures
            r.amounts() == (0u64, 0u64, 0u64, 0u64),
            r.disk_used == 0,
            r.disk_total == 0,
    {
        MemoryInfo {
            ram_used: 0,
            ram_total: 0,
            swap_used: 0,
            swap_total: 0,
            disk_used: 0,
            disk_total: 0,
        }
    }

    /// The amounts after reading the text of `/proc/meminfo`, line by line;
    /// the disk amounts stay. Each amount available or free is subtracted
    /// from the total known at that line, so it may not exceed it.
    pub fn update(&mut self, meminfo: &str)
        requires
            meminfo_fits(old(self).amounts(), lines_of(meminfo@)),
        ensures
            final(self).amounts() == meminfo_after(old(self).amounts(), lines_of(meminfo@)),
            final(self).disk_used == old(self).disk_used,
            final(self).disk_total == old(self).disk_total,
    {
        let cs = chars_of(meminfo);
        let lines = split_lines(&cs);
        let ghost ls = char_views(lines@);
        let mem_total = chars_of("MemTotal:");
        let mem_available = chars_of("MemAvailable:");
        let swap_total = chars_of("SwapTotal:");
        let swap_free = chars_of("SwapFree:");
        let mut i: usize = 0;
        while i < lines.len()
            invariant
                i <= lines.len(),
                ls == char_views(lines@),
                mem_total@ == "MemTotal:"@,
                mem_available@ == "MemAvailable:"@,
                swap_total@ == "SwapTotal:"@,
                swap_free@ == "SwapFree:"@,
                self.amounts() == meminfo_after(old(self).amounts(), ls.take(i as int)),
                meminfo_fits(old(self).amounts(), ls),
                self.disk_used == old(self).disk_used,
                self.disk_total == old(self).disk_total,
            decreases lines.len() - i,
        {
            assert(ls.take(i + 1).drop_last() =~= ls.take(i as int));
            assert(ls.take(i + 1).last() == lines@[i as int]@);
            proof {
                lemma_fits_prefix(old(self).amounts(), ls, i + 1);
            }
            let line = &lines[i];
            if has_prefix(line, &mem_total) {
                self.ram_total = memory_value(line);
            } else if has_prefix(line, &mem_available) {
                self.ram_used = self.ram_total - memory_value(line);
            } else if has_prefix(line, &swap_total) {
                self.swap_total = memory_value(line);
            } else if has_prefix(line, &swap_free) {
                self.swap_used = self.swap_total - memory_value(line);
            }
            i += 1;
        }
        assert(ls.take(i as int) =~= ls);
    }
}

impl MemoryInfo {
    /// Whether reading the text of `/proc/meminfo` subtracts no amount
    /// available or free from a smaller total.
    pub fn update_fits(&self, meminfo: &str) -> (b: bool)
        ensures
            b == meminfo_fits(self.amounts(), lines_of(meminfo@)),
    {
        let cs = chars_of(meminfo);
        let lines = split_lines(&cs);
        let ghost ls = char_views(lines@);
        let ghost m = self.amounts();
        let mem_total = chars_of("MemTotal:");
        let mem_available = chars_of("MemAvailable:");
        let swap_total = chars_of("SwapTotal:");
        let swap_free = chars_of("SwapFree:");
        let mut ram_used = self.ram_used;
        let mut ram_total = self.ram_total;
        let mut swap_used = self.swap_used;
        let mut swap_total_v = self.swap_total;
        let mut i: usize = 0;
        while i < lines.len()
            invariant
                i <= lines.len(),
                ls == char_views(lines@),
                mem_total@ == "MemTotal:"@,
                mem_available@ == "MemAvailable:"@,
                swap_total@ == "SwapTotal:"@,
                swap_free@ == "SwapFree:"@,
                ls == lines_of(meminfo@),
                m == self.amounts(),
                (ram_used, ram_total, swap_used, swap_total_v) == meminfo_after(m, ls.take(i as int)),
                meminfo_fits(m, ls.take(i as int)),
            decreases lines.len() - i,
        {
            assert(ls.take(i + 1).drop_last() =~= ls.take(i as int));
            assert(ls.take(i + 1).last() == lines@[i as int]@);
            let line = &lines[i];
            if has_prefix(line, &mem_total) {
                ram_total = memory_value(line);
            } else if has_prefix(line, &mem_available) {
                let v = memory_value(line);
                if v > ram_total {
                    proof {
                        assert(!step_fits(meminfo_after(m, ls.take(i as int)), ls[i as int]));
                        assert(!meminfo_fits(m, ls.take(i + 1)));
                        if meminfo_fits(m, ls) {
                            lemma_fits_prefix(m, ls, i + 1);
                        }
                    }
                    return false;
                }
                ram_used = ram_total - v;
            } else if has_prefix(line, &swap_total) {
                swap_total_v = memory_value(line);
            } else if has_prefix(line, &swap_free) {
                let v = memory_value(line);
                if v > swap_total_v {
                    proof {
                        assert(!step_fits(meminfo_after(m, ls.take(i as int)), ls[i as int]));
                        assert(!meminfo_fits(m, ls.take(i + 1)));
                        if meminfo_fits(m, ls) {
                            lemma_fits_prefix(m, ls, i + 1);
                        }
                    }
                    return false;
                }
                swap_used = swap_total_v - v;
            }
            i += 1;
        }
        assert(ls.take(i as int) =~= ls);
        true
    }
}

impl Default for MemoryInfo {
    fn default() -> (r: Self)
        ensures
            r.amounts() == (0u64, 0u64, 0u64, 0u64),
            r.disk_used == 0,
            r.disk_total == 0,
    {
        MemoryInfo::new()
    }
}

} // verus!
