//! Temperature sensors of the Linux hwmon interface: naming them, reading
//! channel numbers from file names, and choosing the CPU and disk sensors.
use vstd::prelude::*;

use crate::text::{
    ascii_lower, chars_equal, chars_of, contains_chars, contains_seq, parse_u32, parse_u32_spec,
    push_str, to_ascii_lowercase,
};

verus! {

/// One temperature channel: the driver's name, the channel's label if it
/// has one, and the file its value is read from.
#[derive(Debug)]
pub struct TemperatureSensor {
    pub hwmon_name: String,
    pub label: Option<String>,
    pub input_path: String,
}

impl Clone for TemperatureSensor {
    fn clone(&self) -> (copy: TemperatureSensor)
        ensures
            copy == *self,
    {
        TemperatureSensor {
            hwmon_name: self.hwmon_name.clone(),
            label: match &self.label {
                Some(label) => Some(label.clone()),
                None => None,
            },
            input_path: self.input_path.clone(),
        }
    }
}

/// The temperature sensors found on the machine.
#[derive(Debug)]
pub struct HwmonSensors {
    pub temperatures: Vec<TemperatureSensor>,
}

impl Default for HwmonSensors {
    fn default() -> (sensors: HwmonSensors)
        ensures
            sensors.temperatures@ == Seq::<TemperatureSensor>::empty(),
    {
        HwmonSensors { temperatures: Vec::new() }
    }
}

/// `driver: label`, or the driver's name alone for an unlabelled channel.
pub open spec fn sensor_display_name(sensor: TemperatureSensor) -> Seq<char> {
    match sensor.label {
        Some(label) => sensor.hwmon_name@ + ": "@ + label@,
        None => sensor.hwmon_name@,
    }
}

impl TemperatureSensor {
    /// A name for menus and reports.
    pub fn display_name(&self) -> (name: String)
        ensures
            name@ == sensor_display_name(*self),
    {
        match &self.label {
            Some(label) => {
                let mut name = self.hwmon_name.clone();
                push_str(&mut name, ": ");
                push_str(&mut name, label.as_str());
                name
            },
            None => self.hwmon_name.clone(),
        }
    }
}

/// The channel number of a `temp<N>_input` file name.
pub open spec fn input_channel(file_name: Seq<char>) -> Option<u32> {
    if file_name.len() >= 10 && file_name.take(4) == "temp"@ && file_name.skip(
        file_name.len() - 6,
    ) == "_input"@ {
        parse_u32_spec(file_name.subrange(4, file_name.len() - 6))
    } else {
        None
    }
}

/// The channel number of a `temp<N>_input` file, `None` for other files.
pub fn temperature_input_channel(file_name: &str) -> (channel: Option<u32>)
    ensures
        channel == input_channel(file_name@),
{
    proof {
        reveal_strlit("temp");
        reveal_strlit("_input");
    }
    let chars = chars_of(file_name);
    let n = chars.len();
    if n < 10 {
        return None;
    }
    let prefix = chars_of("temp");
    let suffix = chars_of("_input");
    let mut head: Vec<char> = Vec::new();
    let mut tail: Vec<char> = Vec::new();
    let mut middle: Vec<char> = Vec::new();
    let mut i: usize = 0;
    while i < n
        invariant
            i <= n,
            n == chars@.len(),
            n >= 10,
            head@ == chars@.take(if i < 4 { i as int } else { 4 }),
            middle@ == if i <= 4 { Seq::empty() } else { chars@.subrange(4, if i < n - 6 { i as int } else { n - 6 }) },
            tail@ == if i <= n - 6 { Seq::empty() } else { chars@.subrange(n - 6, i as int) },
        decreases n - i,
    {
        if i < 4 {
            head.push(chars[i]);
        } else if i < n - 6 {
            middle.push(chars[i]);
        } else {
            tail.push(chars[i]);
        }
        i = i + 1;
        assert(head@ =~= chars@.take(if i < 4 { i as int } else { 4 }));
        assert(middle@ =~= if i <= 4 { Seq::empty() } else { chars@.subrange(4, if i < n - 6 { i as int } else { n - 6 }) });
        assert(tail@ =~= if i <= n - 6 { Seq::empty() } else { chars@.subrange(n - 6, i as int) });
    }
    assert(tail@ =~= chars@.skip(n - 6));
    if !chars_equal(head.as_slice(), prefix.as_slice()) || !chars_equal(tail.as_slice(), suffix.as_slice()) {
        return None;
    }
    parse_u32(middle.as_slice())
}

/// Driver names of CPU temperature sensors.
pub open spec fn is_cpu_driver(driver: Seq<char>) -> bool {
    driver == "coretemp"@ || driver == "k10temp"@ || driver == "zenpower"@ || driver
        == "peci_cputemp"@ || driver == "cpu_thermal"@
}

/// How well a channel stands for the CPU's temperature, from its lower-cased
/// driver name and label: a CPU driver, then labels naming the package,
/// Tctl, Tdie, the CPU, a die or a core.
pub open spec fn cpu_score(driver: Seq<char>, label: Seq<char>) -> u32 {
    ((if is_cpu_driver(driver) { 100int } else { 0int }) + (if contains_seq(label, "package"@) {
        80int
    } else {
        0int
    }) + (if contains_seq(label, "tctl"@) { 75int } else { 0int }) + (if contains_seq(
        label,
        "tdie"@,
    ) {
        70int
    } else {
        0int
    }) + (if contains_seq(label, "cpu"@) { 60int } else { 0int }) + (if contains_seq(
        label,
        "die"@,
    ) {
        50int
    } else {
        0int
    }) + (if contains_seq(label, "core"@) { 30int } else { 0int })) as u32
}

/// How well a channel stands for a disk's temperature: the drivetemp and
/// nvme drivers, then labels naming a composite sensor, a drive or a disk.
pub open spec fn disk_score(driver: Seq<char>, label: Seq<char>) -> u32 {
    ((if driver == "drivetemp"@ { 100int } else { 0int }) + (if driver == "nvme"@ {
        90int
    } else {
        0int
    }) + (if contains_seq(label, "composite"@) { 40int } else { 0int }) + (if contains_seq(
        label,
        "drive"@,
    ) || contains_seq(label, "disk"@) {
        30int
    } else {
        0int
    })) as u32
}

/// The label text of a sensor (empty when it has none).
pub open spec fn label_text(sensor: TemperatureSensor) -> Seq<char> {
    match sensor.label {
        Some(label) => label@,
        None => Seq::empty(),
    }
}

/// The CPU score of a sensor.
pub open spec fn sensor_cpu_score(sensor: TemperatureSensor) -> u32 {
    cpu_score(ascii_lower(sensor.hwmon_name@), ascii_lower(label_text(sensor)))
}

/// The disk score of a sensor.
pub open spec fn sensor_disk_score(sensor: TemperatureSensor) -> u32 {
    disk_score(ascii_lower(sensor.hwmon_name@), ascii_lower(label_text(sensor)))
}

/// Whether `lower` (a lower-cased text) contains the literal `needle`.
fn contains_literal(lower: &Vec<char>, needle: &str) -> (found: bool)
    ensures
        found == contains_seq(lower@, needle@),
{
    let n = chars_of(needle);
    contains_chars(lower.as_slice(), n.as_slice())
}

/// Whether `lower` equals the literal `text`.
fn equals_literal(lower: &Vec<char>, text: &str) -> (equal: bool)
    ensures
        equal == (lower@ == text@),
{
    let t = chars_of(text);
    chars_equal(lower.as_slice(), t.as_slice())
}

/// The lower-cased label of a sensor.
fn lower_label(sensor: &TemperatureSensor) -> (lower: Vec<char>)
    ensures
        lower@ == ascii_lower(label_text(*sensor)),
{
    match &sensor.label {
        Some(label) => to_ascii_lowercase(label.as_str()),
        None => {
            let lower = to_ascii_lowercase("");
            proof {
                reveal_strlit("");
            }
            lower
        },
    }
}

/// The CPU score of a sensor.
pub fn cpu_sensor_score(sensor: &TemperatureSensor) -> (score: u32)
    ensures
        score == sensor_cpu_score(*sensor),
{
    let driver = to_ascii_lowercase(sensor.hwmon_name.as_str());
    let label = lower_label(sensor);
    let mut score: u32 = 0;
    if equals_literal(&driver, "coretemp") || equals_literal(&driver, "k10temp") || equals_literal(
        &driver,
        "zenpower",
    ) || equals_literal(&driver, "peci_cputemp") || equals_literal(&driver, "cpu_thermal") {
        score = score + 100;
    }
    if contains_literal(&label, "package") {
        score = score + 80;
    }
    if contains_literal(&label, "tctl") {
        score = score + 75;
    }
    if contains_literal(&label, "tdie") {
        score = score + 70;
    }
    if contains_literal(&label, "cpu") {
        score = score + 60;
    }
    if contains_literal(&label, "die") {
        score = score + 50;
    }
    if contains_literal(&label, "core") {
        score = score + 30;
    }
    score
}

/// The disk score of a sensor.
pub fn disk_sensor_score(sensor: &TemperatureSensor) -> (score: u32)
    ensures
        score == sensor_disk_score(*sensor),
{
    let driver = to_ascii_lowercase(sensor.hwmon_name.as_str());
    let label = lower_label(sensor);
    let mut score: u32 = 0;
    if equals_literal(&driver, "drivetemp") {
        score = score + 100;
    }
    if equals_literal(&driver, "nvme") {
        score = score + 90;
    }
    if contains_literal(&label, "composite") {
        score = score + 40;
    }
    if contains_literal(&label, "drive") || contains_literal(&label, "disk") {
        score = score + 30;
    }
    score
}

/// The score of a sensor for the CPU (`for_cpu`) or for a disk.
pub open spec fn role_score(for_cpu: bool, sensor: TemperatureSensor) -> u32 {
    if for_cpu {
        sensor_cpu_score(sensor)
    } else {
        sensor_disk_score(sensor)
    }
}

/// The index of the sensor with the highest positive score; among equal
/// scores the later one.
pub open spec fn best_by(sensors: Seq<TemperatureSensor>, for_cpu: bool) -> Option<int>
    decreases sensors.len(),
{
    if sensors.len() == 0 {
        None
    } else {
        let last = sensors.len() - 1;
        let s = role_score(for_cpu, sensors[last]);
        match best_by(sensors.drop_last(), for_cpu) {
            None => if s > 0 { Some(last) } else { None },
            Some(b) => if s > 0 && s >= role_score(for_cpu, sensors[b]) { Some(last) } else { Some(b) },
        }
    }
}

proof fn lemma_best_by_in_range(sensors: Seq<TemperatureSensor>, for_cpu: bool)
    ensures
        match best_by(sensors, for_cpu) {
            Some(b) => 0 <= b < sensors.len() && role_score(for_cpu, sensors[b]) > 0,
            None => true,
        },
    decreases sensors.len(),
{
    if sensors.len() > 0 {
        lemma_best_by_in_range(sensors.drop_last(), for_cpu);
    }
}

/// The chosen sensor has a positive score and no sensor scores higher;
/// none is chosen exactly when every sensor scores zero.
pub proof fn law_selected_sensor_scores_highest(sensors: Seq<TemperatureSensor>, for_cpu: bool)
    ensures
        match best_by(sensors, for_cpu) {
            Some(b) => {
                &&& 0 <= b < sensors.len()
                &&& role_score(for_cpu, sensors[b]) > 0
                &&& forall|j: int|
                    0 <= j < sensors.len() ==> #[trigger] role_score(for_cpu, sensors[j])
                        <= role_score(for_cpu, sensors[b])
            },
            None => forall|j: int|
                0 <= j < sensors.len() ==> #[trigger] role_score(for_cpu, sensors[j]) == 0,
        },
    decreases sensors.len(),
{
    if sensors.len() > 0 {
        let rest = sensors.drop_last();
        law_selected_sensor_scores_highest(rest, for_cpu);
        assert forall|j: int| 0 <= j < rest.len() implies rest[j] == sensors[j] by {}
    }
}

fn role_sensor_score(for_cpu: bool, sensor: &TemperatureSensor) -> (score: u32)
    ensures
        score == role_score(for_cpu, *sensor),
{
    if for_cpu {
        cpu_sensor_score(sensor)
    } else {
        disk_sensor_score(sensor)
    }
}

fn select_sensor(sensors: &[TemperatureSensor], for_cpu: bool) -> (best: Option<&TemperatureSensor>)
    ensures
        match best_by(sensors@, for_cpu) {
            Some(i) => best == Some(&sensors@[i]),
            None => best is None,
        },
{
    let mut best: Option<usize> = None;
    let mut best_score: u32 = 0;
    let mut i: usize = 0;
    while i < sensors.len()
        invariant
            i <= sensors@.len(),
            match best_by(sensors@.take(i as int), for_cpu) {
                Some(b) => best == Some(b as usize),
                None => best is None,
            },
            match best {
                Some(b) => b < i && best_score == role_score(for_cpu, sensors@[b as int]),
                None => true,
            },
        decreases sensors.len() - i,
    {
        let score = role_sensor_score(for_cpu, &sensors[i]);
        proof {
            lemma_best_by_in_range(sensors@.take(i as int), for_cpu);
            assert(sensors@.take(i + 1).drop_last() =~= sensors@.take(i as int));
            assert(sensors@.take(i + 1)[i as int] == sensors@[i as int]);
            match best {
                Some(b) => {
                    assert(sensors@.take(i + 1)[b as int] == sensors@[b as int]);
                },
                None => {},
            }
        }
        if score > 0 && (best.is_none() || score >= best_score) {
            best = Some(i);
            best_score = score;
        }
        i = i + 1;
    }
    proof {
        lemma_best_by_in_range(sensors@, for_cpu);
    }
    assert(sensors@.take(sensors@.len() as int) =~= sensors@);
    match best {
        Some(b) => Some(&sensors[b]),
        None => None,
    }
}

/// The sensor that best stands for the CPU: the one with the highest
/// positive CPU score, the later one among equals, `None` when no sensor
/// scores.
pub fn select_cpu_sensor(sensors: &[TemperatureSensor]) -> (best: Option<&TemperatureSensor>)
    ensures
        match best_by(sensors@, true) {
            Some(i) => best == Some(&sensors@[i]),
            None => best is None,
        },
{
    select_sensor(sensors, true)
}

/// The sensor that best stands for a disk, chosen as for the CPU by the
/// disk score.
pub fn select_disk_sensor(sensors: &[TemperatureSensor]) -> (best: Option<&TemperatureSensor>)
    ensures
        match best_by(sensors@, false) {
            Some(i) => best == Some(&sensors@[i]),
            None => best is None,
        },
{
    select_sensor(sensors, false)
}

/// The name of the label file of channel `channel`: `temp<N>_label`.
pub open spec fn label_file_name(channel: u32) -> Seq<char> {
    "temp"@ + crate::text::decimal(channel as nat) + "_label"@
}

/// The label file of a temperature channel.
pub fn temperature_label_file(channel: u32) -> (name: String)
    ensures
        name@ == label_file_name(channel),
{
    let mut name = String::new();
    push_str(&mut name, "temp");
    crate::text::push_decimal(&mut name, channel as u64);
    push_str(&mut name, "_label");
    assert(name@ =~= label_file_name(channel));
    name
}

/// A sensor of a known CPU driver (coretemp, k10temp, zenpower,
/// peci_cputemp or cpu_thermal, in any letter case) scores at least 100 for
/// the CPU, whatever its label.
pub proof fn law_cpu_drivers_score(sensor: TemperatureSensor)
    requires
        ({
            let driver = ascii_lower(sensor.hwmon_name@);
            driver == "coretemp"@ || driver == "k10temp"@ || driver == "zenpower"@ || driver
                == "peci_cputemp"@ || driver == "cpu_thermal"@
        }),
    ensures
        role_score(true, sensor) >= 100,
{
}

/// A sensor of a disk driver (drivetemp or nvme, in any letter case) scores
/// at least 90 for a disk, whatever its label.
pub proof fn law_disk_drivers_score(sensor: TemperatureSensor)
    requires
        ascii_lower(sensor.hwmon_name@) == "drivetemp"@ || ascii_lower(sensor.hwmon_name@)
            == "nvme"@,
    ensures
        role_score(false, sensor) >= 90,
{
    reveal_strlit("drivetemp");
    reveal_strlit("nvme");
}

/// Whenever the sensors include one of a known CPU driver, a CPU sensor is
/// chosen, and it scores at least as high as that one.
pub proof fn law_cpu_driver_means_cpu_sensor(sensors: Seq<TemperatureSensor>, k: int)
    requires
        0 <= k < sensors.len(),
        ({
            let driver = ascii_lower(sensors[k].hwmon_name@);
            driver == "coretemp"@ || driver == "k10temp"@ || driver == "zenpower"@ || driver
                == "peci_cputemp"@ || driver == "cpu_thermal"@
        }),
    ensures
        best_by(sensors, true) matches Some(b) && role_score(true, sensors[b]) >= 100,
{
    law_cpu_drivers_score(sensors[k]);
    law_selected_sensor_scores_highest(sensors, true);
    assert(role_score(true, sensors[k]) > 0);
}

/// Each cue in a sensor's label (compared in lower case) raises its CPU
/// score by at least its weight: package 80, Tctl 75, Tdie 70, CPU 60,
/// die 50, core 30; and its disk score: composite 40, drive or disk 30.
pub proof fn law_label_cues_score(sensor: TemperatureSensor)
    ensures
        contains_seq(ascii_lower(label_text(sensor)), "package"@) ==> role_score(true, sensor) >= 80,
        contains_seq(ascii_lower(label_text(sensor)), "tctl"@) ==> role_score(true, sensor) >= 75,
        contains_seq(ascii_lower(label_text(sensor)), "tdie"@) ==> role_score(true, sensor) >= 70,
        contains_seq(ascii_lower(label_text(sensor)), "cpu"@) ==> role_score(true, sensor) >= 60,
        contains_seq(ascii_lower(label_text(sensor)), "die"@) ==> role_score(true, sensor) >= 50,
        contains_seq(ascii_lower(label_text(sensor)), "core"@) ==> role_score(true, sensor) >= 30,
        contains_seq(ascii_lower(label_text(sensor)), "composite"@) ==> role_score(false, sensor)
            >= 40,
        contains_seq(ascii_lower(label_text(sensor)), "drive"@) || contains_seq(
            ascii_lower(label_text(sensor)),
            "disk"@,
        ) ==> role_score(false, sensor) >= 30,
{
}

} // verus!
