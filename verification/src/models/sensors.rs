//! Temperature and fan sensors, and the readings kept for each.
use vstd::prelude::*;
use std::path::PathBuf;
use crate::models::cpu::{shifted, history_len};

verus! {

#[verifier::external_type_specification]
#[verifier::external_body]
pub struct ExPathBuf(std::path::PathBuf);

/// A sensor file of `/sys/class/hwmon`, its label, and for a fan its
/// highest speed when the chip gives one.
pub struct Sensor {
    pub path: PathBuf,
    pub label: String,
    pub max: Option<u32>,
}

/// The velocity shown for a fan: a speed read as it is (in RPM), a speed as
/// a share of the fan's highest speed (`rpm / max * 100` percent), or zero.
#[derive(Debug, Clone, Copy, PartialEq, Eq, Structural)]
pub enum FanVelocity {
    Rpm(u32),
    PercentOfMax { rpm: u32, max: u32 },
    Zero,
}

/// A fan, its last velocity, and the last nine (oldest first).
#[derive(Debug, Default, Clone)]
pub struct FanInfo {
    pub id: String,
    pub velocity: FanVelocity,
    pub history: [FanVelocity; 9],
}

/// A temperature sensor, its last state, and the last nine (oldest first).
#[derive(Debug, Default, Clone)]
pub struct ThermalInfo {
    pub id: String,
    pub state: u32,
    pub history: [u32; 9],
}

#[derive(Debug, Default, Clone)]
pub struct FanInfos {
    pub fans: Vec<FanInfo>,
}

#[derive(Debug, Default, Clone)]
pub struct ThermalInfos {
    pub thermals: Vec<ThermalInfo>,
}

impl Default for FanVelocity {
    fn default() -> (r: Self)
        ensures
            r == FanVelocity::Zero,
    {
        FanVelocity::Zero
    }
}

/// A history of nine zero velocities.
pub open spec fn zero_velocities() -> Seq<FanVelocity> {
    Seq::new(history_len(), |i: int| FanVelocity::Zero)
}

/// A history of nine zero states.
pub open spec fn zero_states() -> Seq<u32> {
    Seq::new(history_len(), |i: int| 0u32)
}

impl View for FanInfo {
    type V = (Seq<char>, FanVelocity, Seq<FanVelocity>);

    /// A fan as its name, its last velocity and its history.
    open spec fn view(&self) -> (Seq<char>, FanVelocity, Seq<FanVelocity>) {
        (self.id@, self.velocity, self.history@)
    }
}

impl View for ThermalInfo {
    type V = (Seq<char>, u32, Seq<u32>);

    /// A temperature sensor as its name, its last state and its history.
    open spec fn view(&self) -> (Seq<char>, u32, Seq<u32>) {
        (self.id@, self.state, self.history@)
    }
}

impl FanInfo {
    /// The fan `id` at its first reading; the history holds zeros.
    pub fn new(id: String, velocity: FanVelocity) -> (r: Self)
        ensures
            r.id == id,
            r.velocity == velocity,
            r.history@ == zero_velocities(),
    {
        let z = FanVelocity::Zero;
        let r = FanInfo { id, velocity, history: [z, z, z, z, z, z, z, z, z] };
        assert(r.history@ =~= zero_velocities());
        r
    }

    /// One more reading: it becomes the velocity and the newest history entry.
    pub fn update(&mut self, velocity: FanVelocity)
        ensures
            final(self).id == old(self).id,
            final(self).velocity == velocity,
            final(self).history@ == shifted(old(self).history@, velocity),
    {
        let h = self.history;
        self.velocity = velocity;
        self.history = [h[1], h[2], h[3], h[4], h[5], h[6], h[7], h[8], velocity];
        assert(self.history@ =~= shifted(h@, velocity));
    }
}

impl ThermalInfo {
    /// The sensor `id` at its first reading; the history holds zeros.
    pub fn new(id: String, state: u32) -> (r: Self)
        ensures
            r.id == id,
            r.state == state,
            r.history@ == zero_states(),
    {
        let r = ThermalInfo { id, state, history: [0u32; 9] };
        assert(r.history@ =~= zero_states());
        r
    }

    /// One more reading: it becomes the state and the newest history entry.
    pub fn update(&mut self, new_state: u32)
        ensures
            final(self).id == old(self).id,
            final(self).state == new_state,
            final(self).history@ == shifted(old(self).history@, new_state),
    {
        let h = self.history;
        self.state = new_state;
        self.history = [h[1], h[2], h[3], h[4], h[5], h[6], h[7], h[8], new_state];
        assert(self.history@ =~= shifted(h@, new_state));
    }
}

/// The views of a sequence of fans.
pub open spec fn fan_views(fs: Seq<FanInfo>) -> Seq<(Seq<char>, FanVelocity, Seq<FanVelocity>)> {
    fs.map_values(|f: FanInfo| f@)
}

/// The views of a sequence of temperature sensors.
pub open spec fn thermal_views(ts: Seq<ThermalInfo>) -> Seq<(Seq<char>, u32, Seq<u32>)> {
    ts.map_values(|t: ThermalInfo| t@)
}

/// The index of the first entry at or after `k` named `id`, or -1.
pub open spec fn first_with_id<A, B>(es: Seq<(Seq<char>, A, B)>, id: Seq<char>, k: int) -> int
    decreases es.len() - k,
{
    if k < 0 || k >= es.len() {
        -1
    } else if es[k].0 == id {
        k
    } else {
        first_with_id(es, id, k + 1)
    }
}

proof fn lemma_first_with_id<A, B>(es: Seq<(Seq<char>, A, B)>, id: Seq<char>, k: int)
    requires
        0 <= k,
    ensures
        -1 <= first_with_id(es, id, k) < es.len(),
        first_with_id(es, id, k) >= 0 ==> es[first_with_id(es, id, k)].0 == id,
    decreases es.len() - k,
{
    if k < es.len() && es[k].0 != id {
        lemma_first_with_id(es, id, k + 1);
    }
}

/// The velocity that a reading gives a known fan: the speed as a share of
/// the fan's highest speed when the chip gives one, else zero.
pub open spec fn relative_velocity(rpm: u32, max: Option<u32>) -> FanVelocity {
    match max {
        Some(m) => FanVelocity::PercentOfMax { rpm, max: m },
        None => FanVelocity::Zero,
    }
}

/// The fans found at the first readings: one per sensor that could be
/// read, with its speed as it is.
pub open spec fn fans_at_start(rs: Seq<(Sensor, Result<u32, String>)>) -> Seq<
    (Seq<char>, FanVelocity, Seq<FanVelocity>),
>
    decreases rs.len(),
{
    if rs.len() == 0 {
        seq![]
    } else {
        let prev = fans_at_start(rs.drop_last());
        match rs.last().1 {
            Ok(v) => prev.push((rs.last().0.label@, FanVelocity::Rpm(v), zero_velocities())),
            Err(_) => prev,
        }
    }
}

/// The fans after the readings `rs`, in order: a reading that could be read
/// updates the first fan of its label, or adds a fan when there is none.
pub open spec fn fans_after(
    fans: Seq<(Seq<char>, FanVelocity, Seq<FanVelocity>)>,
    rs: Seq<(Sensor, Result<u32, String>)>,
) -> Seq<(Seq<char>, FanVelocity, Seq<FanVelocity>)>
    decreases rs.len(),
{
    if rs.len() == 0 {
        fans
    } else {
        let f = fans_after(fans, rs.drop_last());
        let r = rs.last();
        match r.1 {
            Ok(v) => {
                let vel = relative_velocity(v, r.0.max);
                let k = first_with_id(f, r.0.label@, 0);
                if k >= 0 {
                    f.update(k, (f[k].0, vel, shifted(f[k].2, vel)))
                } else {
                    f.push((r.0.label@, vel, zero_velocities()))
                }
            },
            Err(_) => f,
        }
    }
}

/// The degrees Celsius of a reading in millidegrees, rounded down, at most 100.
pub open spec fn degrees(v: u32) -> u32 {
    if v / 1000 <= 100 {
        (v / 1000) as u32
    } else {
        100
    }
}

/// A reading of at most 100 degrees (below 101000 millidegrees) shows as its
/// whole degrees, rounded down: `d * 1000 <= v < d * 1000 + 1000`; only a
/// reading of 101 degrees or more is capped, at 100.
pub proof fn law_degrees(v: u32)
    ensures
        v < 101000 ==> degrees(v) * 1000 <= v < degrees(v) * 1000 + 1000,
        v >= 101000 ==> degrees(v) == 100,
        degrees(v) <= 100,
{
}

/// The temperature sensors found at the first readings: one per sensor that
/// could be read, with its reading as it is.
pub open spec fn thermals_at_start(rs: Seq<(Sensor, Result<u32, String>)>) -> Seq<
    (Seq<char>, u32, Seq<u32>),
>
    decreases rs.len(),
{
    if rs.len() == 0 {
        seq![]
    } else {
        let prev = thermals_at_start(rs.drop_last());
        match rs.last().1 {
            Ok(v) => prev.push((rs.last().0.label@, v, zero_states())),
            Err(_) => prev,
        }
    }
}

/// The temperature sensors after the readings `rs`, in order: a reading that
/// could be read updates the first sensor of its label with its degrees, or
/// adds a sensor when there is none.
pub open spec fn thermals_after(
    ts: Seq<(Seq<char>, u32, Seq<u32>)>,
    rs: Seq<(Sensor, Result<u32, String>)>,
) -> Seq<(Seq<char>, u32, Seq<u32>)>
    decreases rs.len(),
{
    if rs.len() == 0 {
        ts
    } else {
        let t = thermals_after(ts, rs.drop_last());
        let r = rs.last();
        match r.1 {
            Ok(v) => {
                let d = degrees(v);
                let k = first_with_id(t, r.0.label@, 0);
                if k >= 0 {
                    t.update(k, (t[k].0, d, shifted(t[k].2, d)))
                } else {
                    t.push((r.0.label@, d, zero_states()))
                }
            },
            Err(_) => t,
        }
    }
}

/// New readings never drop nor rename a fan: the fans after the readings
/// `rs` start with the fans there were, under the same names.
pub proof fn law_fans_kept(
    fans: Seq<(Seq<char>, FanVelocity, Seq<FanVelocity>)>,
    rs: Seq<(Sensor, Result<u32, String>)>,
)
    ensures
        fans_after(fans, rs).len() >= fans.len(),
        forall|i: int| 0 <= i < fans.len() ==> #[trigger] fans_after(fans, rs)[i].0 == fans[i].0,
    decreases rs.len(),
{
    if rs.len() > 0 {
        law_fans_kept(fans, rs.drop_last());
        lemma_first_with_id(fans_after(fans, rs.drop_last()), rs.last().0.label@, 0);
    }
}

/// New readings never drop nor rename a temperature sensor: the sensors
/// after the readings `rs` start with the sensors there were, under the
/// same names.
pub proof fn law_thermals_kept(
    ts: Seq<(Seq<char>, u32, Seq<u32>)>,
    rs: Seq<(Sensor, Result<u32, String>)>,
)
    ensures
        thermals_after(ts, rs).len() >= ts.len(),
        forall|i: int| 0 <= i < ts.len() ==> #[trigger] thermals_after(ts, rs)[i].0 == ts[i].0,
    decreases rs.len(),
{
    if rs.len() > 0 {
        law_thermals_kept(ts, rs.drop_last());
        lemma_first_with_id(thermals_after(ts, rs.drop_last()), rs.last().0.label@, 0);
    }
}

/// The degrees Celsius of a reading in millidegrees, rounded down, at most 100.
pub fn to_degrees(v: u32) -> (r: u32)
    ensures
        r == degrees(v),
        r <= 100,
        v < 101000 ==> r * 1000 <= v < r * 1000 + 1000,
        v >= 101000 ==> r == 100,
{
    let d = v / 1000;
    if d <= 100 {
        d
    } else {
        100
    }
}

impl FanInfos {
    /// The fans of the first readings of the fan sensors (each with the text
    /// of its file read as a number, or why it could not be).
    pub fn new(readings: &Vec<(Sensor, Result<u32, String>)>) -> (r: Self)
        ensures
            fan_views(r.fans@) == fans_at_start(readings@),
    {
        let mut fans: Vec<FanInfo> = Vec::new();
        let mut i: usize = 0;
        while i < readings.len()
            invariant
                i <= readings.len(),
                fan_views(fans@) == fans_at_start(readings@.take(i as int)),
            decreases readings.len() - i,
        {
            assert(readings@.take(i + 1).drop_last() =~= readings@.take(i as int));
            assert(readings@.take(i + 1).last() == readings@[i as int]);
            let ghost before = fan_views(fans@);
            match &readings[i].1 {
                Ok(value) => {
                    let id = readings[i].0.label.clone();
                    let f = FanInfo::new(id, FanVelocity::Rpm(*value));
                    fans.push(f);
                    assert(fan_views(fans@) =~= before.push(f@));
                },
                Err(_) => {},
            }
            i += 1;
        }
        assert(readings@.take(i as int) =~= readings@);
        FanInfos { fans }
    }

    /// New readings of the fan sensors: each one that could be read updates
    /// the fan of its label, or adds one.
    pub fn update(&mut self, readings: &Vec<(Sensor, Result<u32, String>)>)
        ensures
            fan_views(final(self).fans@) == fans_after(fan_views(old(self).fans@), readings@),
    {
        let mut i: usize = 0;
        while i < readings.len()
            invariant
                i <= readings.len(),
                fan_views(self.fans@) == fans_after(
                    fan_views(old(self).fans@),
                    readings@.take(i as int),
                ),
            decreases readings.len() - i,
        {
            assert(readings@.take(i + 1).drop_last() =~= readings@.take(i as int));
            assert(readings@.take(i + 1).last() == readings@[i as int]);
            let ghost before = fan_views(self.fans@);
            match &readings[i].1 {
                Ok(value) => {
                    let sensor = &readings[i].0;
                    let vel = match sensor.max {
                        Some(max) => FanVelocity::PercentOfMax { rpm: *value, max },
                        None => FanVelocity::Zero,
                    };
                    let mut k: usize = 0;
                    while k < self.fans.len() && self.fans[k].id != sensor.label
                        invariant
                            k <= self.fans.len(),
                            before == fan_views(self.fans@),
                            first_with_id(before, sensor.label@, 0) == first_with_id(
                                before,
                                sensor.label@,
                                k as int,
                            ),
                        decreases self.fans.len() - k,
                    {
                        k += 1;
                    }
                    if k < self.fans.len() {
                        let ghost fk = self.fans@[k as int];
                        self.fans[k].update(vel);
                        assert(fan_views(self.fans@) =~= before.update(
                            k as int,
                            (fk.id@, vel, shifted(fk.history@, vel)),
                        ));
                    } else {
                        let f = FanInfo::new(sensor.label.clone(), vel);
                        self.fans.push(f);
                        assert(fan_views(self.fans@) =~= before.push(f@));
                    }
                },
                Err(_) => {},
            }
            i += 1;
        }
        assert(readings@.take(i as int) =~= readings@);
    }
}

impl ThermalInfos {
    /// The temperature sensors of the first readings (each with the text of
    /// its file read as a number, or why it could not be).
    pub fn new(readings: &Vec<(Sensor, Result<u32, String>)>) -> (r: Self)
        ensures
            thermal_views(r.thermals@) == thermals_at_start(readings@),
    {
        let mut thermals: Vec<ThermalInfo> = Vec::new();
        let mut i: usize = 0;
        while i < readings.len()
            invariant
                i <= readings.len(),
                thermal_views(thermals@) == thermals_at_start(readings@.take(i as int)),
            decreases readings.len() - i,
        {
            assert(readings@.take(i + 1).drop_last() =~= readings@.take(i as int));
            assert(readings@.take(i + 1).last() == readings@[i as int]);
            let ghost before = thermal_views(thermals@);
            match &readings[i].1 {
                Ok(value) => {
                    let t = ThermalInfo::new(readings[i].0.label.clone(), *value);
                    thermals.push(t);
                    assert(thermal_views(thermals@) =~= before.push(t@));
                },
                Err(_) => {},
            }
            i += 1;
        }
        assert(readings@.take(i as int) =~= readings@);
        ThermalInfos { thermals }
    }

    /// New readings of the temperature sensors: each one that could be read
    /// updates the sensor of its label with its degrees, or adds one.
    pub fn update(&mut self, readings: &Vec<(Sensor, Result<u32, String>)>)
        ensures
            thermal_views(final(self).thermals@) == thermals_after(
                thermal_views(old(self).thermals@),
                readings@,
            ),
    {
        let mut i: usize = 0;
        while i < readings.len()
            invariant
                i <= readings.len(),
                thermal_views(self.thermals@) == thermals_after(
                    thermal_views(old(self).thermals@),
                    readings@.take(i as int),
                ),
            decreases readings.len() - i,
        {
            assert(readings@.take(i + 1).drop_last() =~= readings@.take(i as int));
            assert(readings@.take(i + 1).last() == readings@[i as int]);
            let ghost before = thermal_views(self.thermals@);
            match &readings[i].1 {
                Ok(value) => {
                    let sensor = &readings[i].0;
                    let d = to_degrees(*value);
                    let mut k: usize = 0;
                    while k < self.thermals.len() && self.thermals[k].id != sensor.label
                        invariant
                            k <= self.thermals.len(),
                            before == thermal_views(self.thermals@),
                            first_with_id(before, sensor.label@, 0) == first_with_id(
                                before,
                                sensor.label@,
                                k as int,
                            ),
                        decreases self.thermals.len() - k,
                    {
                        k += 1;
                    }
                    if k < self.thermals.len() {
                        let ghost tk = self.thermals@[k as int];
                        self.thermals[k].update(d);
                        assert(thermal_views(self.thermals@) =~= before.update(
                            k as int,
                            (tk.id@, d, shifted(tk.history@, d)),
                        ));
                    } else {
                        let t = ThermalInfo::new(sensor.label.clone(), d);
                        self.thermals.push(t);
                        assert(thermal_views(self.thermals@) =~= before.push(t@));
                    }
                },
                Err(_) => {},
            }
            i += 1;
        }
        assert(readings@.take(i as int) =~= readings@);
    }
}

} // verus!
