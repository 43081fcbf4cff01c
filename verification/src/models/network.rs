//! Interface counters read from `/proc/net/dev`.
use vstd::prelude::*;
use crate::utils::text::{
    chars_of, split_lines, lines_of, split_whitespace, words_of, contains_seq, contains,
    parse_u64, parse_uint_of, char_views,
};

verus! {

/// The eight counters of one direction of an interface.
pub struct NetData {
    pub bytes: u64,
    pub packets: u64,
    pub errs: u64,
    pub drop: u64,
    pub fifo: u64,
    pub frame_or_colls: u64,
    pub compressed: u64,
    pub multicast_or_carrier: u64,
}

/// A network interface and its received and transmitted counters.
pub struct InterfaceStats {
    pub name: String,
    pub ipv4: Option<String>,
    pub rx: NetData,
    pub tx: NetData,
}

/// The value of a word as `str::parse::<u64>` reads it, or 0.
pub open spec fn counter_of(word: Seq<char>) -> u64 {
    match parse_uint_of(word, u64::MAX as nat) {
        Ok(v) => v as u64,
        Err(_) => 0,
    }
}

/// The counters that the eight words `w[at..at + 8]` give.
pub open spec fn counters_at(w: Seq<Seq<char>>, at: int) -> Seq<u64> {
    Seq::new(8, |j: int| counter_of(w[at + j]))
}

/// Counters read from the words `w[at..at + 8]` carry them field by field,
/// in the order of `/proc/net/dev`: `bytes` is word `at`, `packets` the
/// next, then `errs`, `drop`, `fifo`, `frame_or_colls`, `compressed` and
/// `multicast_or_carrier`.
pub proof fn law_netdata_fields(d: NetData, w: Seq<Seq<char>>, at: int)
    requires
        0 <= at,
        at + 8 <= w.len(),
        d.counters() == counters_at(w, at),
    ensures
        d.bytes == counter_of(w[at]),
        d.packets == counter_of(w[at + 1]),
        d.errs == counter_of(w[at + 2]),
        d.drop == counter_of(w[at + 3]),
        d.fifo == counter_of(w[at + 4]),
        d.frame_or_colls == counter_of(w[at + 5]),
        d.compressed == counter_of(w[at + 6]),
        d.multicast_or_carrier == counter_of(w[at + 7]),
{
    assert(d.counters()[0] == d.bytes);
    assert(d.counters()[1] == d.packets);
    assert(d.counters()[2] == d.errs);
    assert(d.counters()[3] == d.drop);
    assert(d.counters()[4] == d.fifo);
    assert(d.counters()[5] == d.frame_or_colls);
    assert(d.counters()[6] == d.compressed);
    assert(d.counters()[7] == d.multicast_or_carrier);
}

/// On the line of an interface (its name, then the received and the
/// transmitted counters), the received counters are words 1 to 8 and the
/// transmitted ones words 9 to 16: the received `drop` is word 4 and its
/// `fifo` word 5, the transmitted `drop` word 12 and its `fifo` word 13.
pub proof fn law_interface_words(rx: NetData, tx: NetData, w: Seq<Seq<char>>)
    requires
        w.len() >= 17,
        rx.counters() == counters_at(w, 1),
        tx.counters() == counters_at(w, 9),
    ensures
        rx.bytes == counter_of(w[1]),
        rx.packets == counter_of(w[2]),
        rx.errs == counter_of(w[3]),
        rx.drop == counter_of(w[4]),
        rx.fifo == counter_of(w[5]),
        rx.frame_or_colls == counter_of(w[6]),
        rx.compressed == counter_of(w[7]),
        rx.multicast_or_carrier == counter_of(w[8]),
        tx.bytes == counter_of(w[9]),
        tx.packets == counter_of(w[10]),
        tx.errs == counter_of(w[11]),
        tx.drop == counter_of(w[12]),
        tx.fifo == counter_of(w[13]),
        tx.frame_or_colls == counter_of(w[14]),
        tx.compressed == counter_of(w[15]),
        tx.multicast_or_carrier == counter_of(w[16]),
{
    law_netdata_fields(rx, w, 1);
    law_netdata_fields(tx, w, 9);
}

/// The index of the first line at or after `k` that holds `name`, or -1.
pub open spec fn first_line_holding(ls: Seq<Seq<char>>, name: Seq<char>, k: int) -> int
    decreases ls.len() - k,
{
    if k < 0 || k >= ls.len() {
        -1
    } else if contains(ls[k], name) {
        k
    } else {
        first_line_holding(ls, name, k + 1)
    }
}

/// The index of the first line that holds `name`, if any.
fn first_holding(lines: &Vec<Vec<char>>, name: &Vec<char>) -> (r: Option<usize>)
    ensures
        match r {
            Some(k) => k < lines@.len() && first_line_holding(char_views(lines@), name@, 0) == k,
            None => first_line_holding(char_views(lines@), name@, 0) == -1,
        },
{
    let ghost ls = char_views(lines@);
    let mut i: usize = 0;
    while i < lines.len()
        invariant
            i <= lines.len(),
            ls == char_views(lines@),
            first_line_holding(ls, name@, 0) == first_line_holding(ls, name@, i as int),
        decreases lines.len() - i,
    {
        assert(ls[i as int] == lines@[i as int]@);
        if contains_seq(&lines[i], name) {
            return Some(i);
        }
        i += 1;
    }
    None
}

impl NetData {
    /// The eight counters, in the order of `/proc/net/dev`.
    pub open spec fn counters(&self) -> Seq<u64> {
        seq![
            self.bytes,
            self.packets,
            self.errs,
            self.drop,
            self.fifo,
            self.frame_or_colls,
            self.compressed,
            self.multicast_or_carrier,
        ]
    }

    /// The counters that the words `stats[at..at + 8]` give; a word that is
    /// not a number counts as 0.
    fn from_slice(stats: &Vec<Vec<char>>, at: usize) -> (r: Self)
        requires
            at + 8 <= stats@.len(),
        ensures
            r.counters() == counters_at(char_views(stats@), at as int),
    {
        let n = stats.len();
        let r = NetData {
            bytes: Self::counter(&stats[at]),
            packets: Self::counter(&stats[at + 1]),
            errs: Self::counter(&stats[at + 2]),
            drop: Self::counter(&stats[at + 3]),
            fifo: Self::counter(&stats[at + 4]),
            frame_or_colls: Self::counter(&stats[at + 5]),
            compressed: Self::counter(&stats[at + 6]),
            multicast_or_carrier: Self::counter(&stats[at + 7]),
        };
        assert(r.counters() =~= counters_at(char_views(stats@), at as int));
        r
    }

    /// The value of a counter word, or 0.
    fn counter(word: &Vec<char>) -> (r: u64)
        ensures
            r == counter_of(word@),
    {
        match parse_u64(word) {
            Ok(v) => v,
            Err(_) => 0,
        }
    }
}

impl Default for NetData {
    fn default() -> (r: Self)
        ensures
            r.counters() == Seq::new(8, |j: int| 0u64),
    {
        let r = NetData {
            bytes: 0,
            packets: 0,
            errs: 0,
            drop: 0,
            fifo: 0,
            frame_or_colls: 0,
            compressed: 0,
            multicast_or_carrier: 0,
        };
        assert(r.counters() =~= Seq::new(8, |j: int| 0u64));
        r
    }
}

impl InterfaceStats {
    /// The interface `name`, with no address and all counters at zero.
    pub fn new(name: String) -> (r: Self)
        ensures
            r.name == name,
            r.ipv4 is None,
            r.rx.counters() == Seq::new(8, |j: int| 0u64),
            r.tx.counters() == Seq::new(8, |j: int| 0u64),
    {
        InterfaceStats { name, ipv4: None, rx: NetData::default(), tx: NetData::default() }
    }

    /// A new reading of `/proc/net/dev`: on the first line that holds the
    /// interface's name, when it has at least 17 words, words 1 to 8 give the
    /// received counters and words 9 to 16 the transmitted ones; otherwise
    /// nothing changes.
    pub fn update(&mut self, netdev: &str)
        ensures
            final(self).name == old(self).name,
            final(self).ipv4 == old(self).ipv4,
            ({
                let ls = lines_of(netdev@);
                let k = first_line_holding(ls, old(self).name@, 0);
                if k >= 0 && words_of(ls[k]).len() >= 17 {
                    &&& final(self).rx.counters() == counters_at(words_of(ls[k]), 1)
                    &&& final(self).tx.counters() == counters_at(words_of(ls[k]), 9)
                } else {
                    &&& final(self).rx == old(self).rx
                    &&& final(self).tx == old(self).tx
                }
            }),
    {
        let cs = chars_of(netdev);
        let lines = split_lines(&cs);
        let name = chars_of(self.name.as_str());
        match first_holding(&lines, &name) {
            None => {},
            Some(k) => {
                let stats = split_whitespace(&lines[k]);
                if stats.len() >= 17 {
                    self.update_rx(&stats);
                    self.update_tx(&stats);
                }
            },
        }
    }

    fn update_rx(&mut self, stats: &Vec<Vec<char>>)
        requires
            17 <= stats@.len(),
        ensures
            final(self).rx.counters() == counters_at(char_views(stats@), 1),
            final(self).name == old(self).name,
            final(self).ipv4 == old(self).ipv4,
            final(self).tx == old(self).tx,
    {
        self.rx = NetData::from_slice(stats, 1);
    }

    fn update_tx(&mut self, stats: &Vec<Vec<char>>)
        requires
            17 <= stats@.len(),
        ensures
            final(self).tx.counters() == counters_at(char_views(stats@), 9),
            final(self).name == old(self).name,
            final(self).ipv4 == old(self).ipv4,
            final(self).rx == old(self).rx,
    {
        self.tx = NetData::from_slice(stats, 9);
    }
}

} // verus!
