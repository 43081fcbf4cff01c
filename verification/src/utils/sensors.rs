//! Which files of `/sys/class/hwmon` are the processor's temperature sensors
//! and the fans, with their labels; and the reading of a sensor's value.
use vstd::prelude::*;
use std::path::PathBuf;
use crate::models::sensors::Sensor;
use crate::utils::text::{
    chars_of, string_of, trim, trim_of, has_prefix, starts_with, same_chars, contains_seq, contains,
    push_decimal, decimal, parse_u32, parse_uint_of,
};

verus! {

/// The files of one sensor of a chip: its input file, and the text of its
/// label and of its highest value where such files could be read.
pub struct SensorFiles {
    pub input: PathBuf,
    pub label: Option<String>,
    pub max: Option<String>,
}

/// A chip of `/sys/class/hwmon`: the text of its `name` file where it could
/// be read, and its temperature and fan sensors, numbered from 1 in order.
pub struct HwmonChip {
    pub name: Option<String>,
    pub temps: Vec<SensorFiles>,
    pub fans: Vec<SensorFiles>,
}

/// Calls `PathBuf::clone`, whose result equals the path it copies.
#[verifier::external_body]
fn clone_path(p: &PathBuf) -> (r: PathBuf)
    ensures
        r == *p,
{
    p.clone()
}

/// The text of an optional string.
pub open spec fn opt_view(o: Option<String>) -> Option<Seq<char>> {
    match o {
        Some(s) => Some(s@),
        None => None,
    }
}

/// A sensor as its path, its label and its highest value.
pub open spec fn sensor_view(s: Sensor) -> (PathBuf, Seq<char>, Option<u32>) {
    (s.path, s.label@, s.max)
}

/// The views of a sequence of sensors.
pub open spec fn sensor_views(ss: Seq<Sensor>) -> Seq<(PathBuf, Seq<char>, Option<u32>)> {
    ss.map_values(|s: Sensor| sensor_view(s))
}

/// Whether a chip's name (trimmed) is `coretemp` or starts with `k10temp`.
pub open spec fn is_cpu_chip(name: Option<Seq<char>>) -> bool {
    match name {
        Some(n) => trim_of(n) == "coretemp"@ || starts_with(trim_of(n), "k10temp"@),
        None => false,
    }
}

/// The label of the `n`-th temperature sensor: its label file's text,
/// trimmed, or `Cœur n` when that is empty or could not be read.
pub open spec fn temperature_label(n: nat, label: Option<Seq<char>>) -> Seq<char> {
    let t = match label {
        Some(l) => trim_of(l),
        None => seq![],
    };
    if t.len() == 0 {
        "Cœur "@ + decimal(n)
    } else {
        t
    }
}

/// Whether a temperature label names a processor core: it holds `Core` or `CPU`.
pub open spec fn is_cpu_label(l: Seq<char>) -> bool {
    contains(l, "Core"@) || contains(l, "CPU"@)
}

/// The processor temperature sensors among the sensors of one chip.
pub open spec fn chip_temperatures(files: Seq<SensorFiles>) -> Seq<(PathBuf, Seq<char>, Option<u32>)>
    decreases files.len(),
{
    if files.len() == 0 {
        seq![]
    } else {
        let prev = chip_temperatures(files.drop_last());
        let f = files.last();
        let l = temperature_label(files.len(), opt_view(f.label));
        if is_cpu_label(l) {
            prev.push((f.input, l, None))
        } else {
            prev
        }
    }
}

/// The processor temperature sensors of the chips whose name is that of a
/// processor sensor chip, in order.
pub open spec fn temperature_sensors(chips: Seq<HwmonChip>) -> Seq<(PathBuf, Seq<char>, Option<u32>)>
    decreases chips.len(),
{
    if chips.len() == 0 {
        seq![]
    } else {
        let c = chips.last();
        temperature_sensors(chips.drop_last()) + if is_cpu_chip(opt_view(c.name)) {
            chip_temperatures(c.temps@)
        } else {
            seq![]
        }
    }
}

/// The label of the `n`-th fan: its label file's text, or `Ventilateur n`
/// when it could not be read; trimmed.
pub open spec fn fan_label(n: nat, label: Option<Seq<char>>) -> Seq<char> {
    trim_of(
        match label {
            Some(l) => l,
            None => "Ventilateur "@ + decimal(n),
        },
    )
}

/// The highest speed of a fan: the text of its `max` file, trimmed, read as
/// a `u32`; none when it could not be read or is not such a number.
pub open spec fn fan_max(max: Option<Seq<char>>) -> Option<u32> {
    match max {
        Some(m) => match parse_uint_of(trim_of(m), u32::MAX as nat) {
            Ok(v) => Some(v as u32),
            Err(_) => None,
        },
        None => None,
    }
}

/// The fans of one chip.
pub open spec fn chip_fans(files: Seq<SensorFiles>) -> Seq<(PathBuf, Seq<char>, Option<u32>)>
    decreases files.len(),
{
    if files.len() == 0 {
        seq![]
    } else {
        let f = files.last();
        chip_fans(files.drop_last()).push(
            (f.input, fan_label(files.len(), opt_view(f.label)), fan_max(opt_view(f.max))),
        )
    }
}

/// The fans of all chips, in order.
pub open spec fn fan_sensors(chips: Seq<HwmonChip>) -> Seq<(PathBuf, Seq<char>, Option<u32>)>
    decreases chips.len(),
{
    if chips.len() == 0 {
        seq![]
    } else {
        fan_sensors(chips.drop_last()) + chip_fans(chips.last().fans@)
    }
}

/// Each fan file of a chip is one fan, in order: the `k`-th fan comes from
/// the `k`-th file, takes its input path, is labelled as fan number `k + 1`
/// (its label file's text, or `Ventilateur k + 1`), and has that file's
/// highest speed.
pub proof fn law_chip_fans_in_order(files: Seq<SensorFiles>)
    ensures
        chip_fans(files).len() == files.len(),
        forall|k: int|
            0 <= k < files.len() ==> #[trigger] chip_fans(files)[k] == (
                files[k].input,
                fan_label((k + 1) as nat, opt_view(files[k].label)),
                fan_max(opt_view(files[k].max)),
            ),
    decreases files.len(),
{
    if files.len() > 0 {
        let p = files.drop_last();
        law_chip_fans_in_order(p);
        assert forall|k: int| 0 <= k < files.len() implies #[trigger] chip_fans(files)[k] == (
            files[k].input,
            fan_label((k + 1) as nat, opt_view(files[k].label)),
            fan_max(opt_view(files[k].max)),
        ) by {
            if k < p.len() {
                assert(files[k] == p[k]);
                assert(chip_fans(files)[k] == chip_fans(p)[k]);
            }
        }
    }
}

/// The fans of two runs of chips are the fans of the first run followed by
/// those of the second: no chip's fans are dropped or reordered.
pub proof fn law_fans_of_chips(a: Seq<HwmonChip>, b: Seq<HwmonChip>)
    ensures
        fan_sensors(a + b) == fan_sensors(a) + fan_sensors(b),
    decreases b.len(),
{
    if b.len() == 0 {
        assert(a + b =~= a);
        assert(fan_sensors(a) + fan_sensors(b) =~= fan_sensors(a));
    } else {
        law_fans_of_chips(a, b.drop_last());
        assert((a + b).drop_last() =~= a + b.drop_last());
        assert((a + b).last() == b.last());
        let x = fan_sensors(a);
        let y = fan_sensors(b.drop_last());
        let z = chip_fans(b.last().fans@);
        assert((x + y) + z =~= x + (y + z));
    }
}

/// Every temperature sensor found is a processor one: its label holds
/// `Core` or `CPU`, and it has no highest value.
pub proof fn law_temperatures_are_cpu(chips: Seq<HwmonChip>)
    ensures
        forall|k: int|
            0 <= k < temperature_sensors(chips).len() ==> is_cpu_label(
                #[trigger] temperature_sensors(chips)[k].1,
            ) && temperature_sensors(chips)[k].2 is None,
    decreases chips.len(),
{
    if chips.len() > 0 {
        let p = chips.drop_last();
        law_temperatures_are_cpu(p);
        let c = chips.last();
        lemma_chip_temperatures_cpu(c.temps@);
        let x = temperature_sensors(p);
        let y = if is_cpu_chip(opt_view(c.name)) {
            chip_temperatures(c.temps@)
        } else {
            seq![]
        };
        assert(temperature_sensors(chips) == x + y);
        assert forall|k: int| 0 <= k < temperature_sensors(chips).len() implies is_cpu_label(
            #[trigger] temperature_sensors(chips)[k].1,
        ) && temperature_sensors(chips)[k].2 is None by {
            if k < x.len() {
                assert(temperature_sensors(chips)[k] == x[k]);
            } else {
                let j = k - x.len();
                assert(temperature_sensors(chips)[k] == y[j]);
                if is_cpu_chip(opt_view(c.name)) {
                    assert(y[j] == chip_temperatures(c.temps@)[j]);
                }
            }
        }
    }
}

proof fn lemma_chip_temperatures_cpu(files: Seq<SensorFiles>)
    ensures
        forall|k: int|
            0 <= k < chip_temperatures(files).len() ==> is_cpu_label(
                #[trigger] chip_temperatures(files)[k].1,
            ) && chip_temperatures(files)[k].2 is None,
    decreases files.len(),
{
    if files.len() > 0 {
        lemma_chip_temperatures_cpu(files.drop_last());
    }
}

/// What reading a sensor's text gives: the trimmed text as a `u32`, or the
/// message `Erreur conversion: ` and why it is not one.
pub open spec fn sensor_value_of(content: Seq<char>) -> Result<u32, Seq<char>> {
    match parse_uint_of(trim_of(content), u32::MAX as nat) {
        Ok(v) => Ok(v as u32),
        Err(e) => Err("Erreur conversion: "@ + e.message_of()),
    }
}

/// The value in a sensor file's text.
pub fn parse_sensor_value(content: &str) -> (r: Result<u32, String>)
    ensures
        match r {
            Ok(v) => sensor_value_of(content@) == Ok::<u32, Seq<char>>(v),
            Err(m) => sensor_value_of(content@) == Err::<u32, Seq<char>>(m@),
        },
{
    let cs = chars_of(content);
    let t = trim(&cs);
    match parse_u32(&t) {
        Ok(v) => Ok(v),
        Err(e) => {
            let mut m = String::from_str("Erreur conversion: ");
            let msg = e.message();
            m.append(msg.as_str());
            Err(m)
        },
    }
}

/// Whether a chip's name is that of a processor sensor chip.
fn cpu_chip(name: &Option<String>) -> (b: bool)
    ensures
        b == is_cpu_chip(opt_view(*name)),
{
    match name {
        None => false,
        Some(n) => {
            let cs = chars_of(n.as_str());
            let t = trim(&cs);
            let coretemp = chars_of("coretemp");
            let k10temp = chars_of("k10temp");
            same_chars(&t, &coretemp) || has_prefix(&t, &k10temp)
        },
    }
}

/// The label of the `n`-th temperature sensor.
fn temp_label(n: u64, label: &Option<String>) -> (r: String)
    ensures
        r@ == temperature_label(n as nat, opt_view(*label)),
{
    let t = match label {
        Some(l) => {
            let cs = chars_of(l.as_str());
            trim(&cs)
        },
        None => Vec::new(),
    };
    if t.len() == 0 {
        let mut s = String::from_str("Cœur ");
        push_decimal(&mut s, n);
        s
    } else {
        string_of(&t)
    }
}

/// The label of the `n`-th fan.
fn fan_label_of(n: u64, label: &Option<String>) -> (r: String)
    ensures
        r@ == fan_label(n as nat, opt_view(*label)),
{
    let cs = match label {
        Some(l) => chars_of(l.as_str()),
        None => {
            let mut s = String::from_str("Ventilateur ");
            push_decimal(&mut s, n);
            chars_of(s.as_str())
        },
    };
    let t = trim(&cs);
    string_of(&t)
}

/// The highest speed of a fan.
fn fan_max_of(max: &Option<String>) -> (r: Option<u32>)
    ensures
        r == fan_max(opt_view(*max)),
{
    match max {
        None => None,
        Some(m) => {
            let cs = chars_of(m.as_str());
            let t = trim(&cs);
            match parse_u32(&t) {
                Ok(v) => Some(v),
                Err(_) => None,
            }
        },
    }
}

/// The processor temperature sensors of the chips: on a chip named
/// `coretemp` or `k10temp…`, each sensor whose label names a core (or the
/// processor); without a highest value.
pub fn detected_temperatures(chips: &Vec<HwmonChip>) -> (r: Vec<Sensor>)
    ensures
        sensor_views(r@) == temperature_sensors(chips@),
{
    let core = chars_of("Core");
    let cpu = chars_of("CPU");
    let mut out: Vec<Sensor> = Vec::new();
    let mut i: usize = 0;
    while i < chips.len()
        invariant
            i <= chips.len(),
            core@ == "Core"@,
            cpu@ == "CPU"@,
            sensor_views(out@) == temperature_sensors(chips@.take(i as int)),
        decreases chips.len() - i,
    {
        assert(chips@.take(i + 1).drop_last() =~= chips@.take(i as int));
        assert(chips@.take(i + 1).last() == chips@[i as int]);
        let ghost before = sensor_views(out@);
        let chip = &chips[i];
        if cpu_chip(&chip.name) {
            let mut j: usize = 0;
            while j < chip.temps.len()
                invariant
                    j <= chip.temps.len(),
                    chip == &chips@[i as int],
                    core@ == "Core"@,
                    cpu@ == "CPU"@,
                    sensor_views(out@) == before + chip_temperatures(chip.temps@.take(j as int)),
                decreases chip.temps.len() - j,
            {
                assert(chip.temps@.take(j + 1).drop_last() =~= chip.temps@.take(j as int));
                assert(chip.temps@.take(j + 1).last() == chip.temps@[j as int]);
                let ghost mid = sensor_views(out@);
                let files = &chip.temps[j];
                let label = temp_label((j + 1) as u64, &files.label);
                let lc = chars_of(label.as_str());
                if contains_seq(&lc, &core) || contains_seq(&lc, &cpu) {
                    let s = Sensor { path: clone_path(&files.input), label, max: None };
                    out.push(s);
                    assert(sensor_views(out@) =~= mid.push(sensor_view(s)));
                }
                j += 1;
            }
            assert(chip.temps@.take(j as int) =~= chip.temps@);
        } else {
            assert(sensor_views(out@) =~= before + seq![]);
        }
        i += 1;
    }
    assert(chips@.take(i as int) =~= chips@);
    out
}

/// The fans of the chips: every fan sensor, with its label and its highest
/// speed when the chip gives it.
pub fn detected_fans(chips: &Vec<HwmonChip>) -> (r: Vec<Sensor>)
    ensures
        sensor_views(r@) == fan_sensors(chips@),
{
    let mut out: Vec<Sensor> = Vec::new();
    let mut i: usize = 0;
    while i < chips.len()
        invariant
            i <= chips.len(),
            sensor_views(out@) == fan_sensors(chips@.take(i as int)),
        decreases chips.len() - i,
    {
        assert(chips@.take(i + 1).drop_last() =~= chips@.take(i as int));
        assert(chips@.take(i + 1).last() == chips@[i as int]);
        let ghost before = sensor_views(out@);
        let chip = &chips[i];
        let mut j: usize = 0;
        while j < chip.fans.len()
            invariant
                j <= chip.fans.len(),
                chip == &chips@[i as int],
                sensor_views(out@) == before + chip_fans(chip.fans@.take(j as int)),
            decreases chip.fans.len() - j,
        {
            assert(chip.fans@.take(j + 1).drop_last() =~= chip.fans@.take(j as int));
            assert(chip.fans@.take(j + 1).last() == chip.fans@[j as int]);
            let ghost mid = sensor_views(out@);
            let files = &chip.fans[j];
            let label = fan_label_of((j + 1) as u64, &files.label);
            let max = fan_max_of(&files.max);
            let s = Sensor { path: clone_path(&files.input), label, max };
            out.push(s);
            assert(sensor_views(out@) =~= mid.push(sensor_view(s)));
            j += 1;
        }
        assert(chip.fans@.take(j as int) =~= chip.fans@);
        i += 1;
    }
    assert(chips@.take(i as int) =~= chips@);
    out
}

} // verus!
