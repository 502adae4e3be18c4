//! Temperatures, voltages and fan speeds, read from what `sensors -u` prints, or named from
//! the hwmon files of sysfs.
use vstd::prelude::*;
use crate::text::{
    seqs_of, trim, lines, starts_with, ends_with, contains, find, trim_end_char, trim_end_str,
    lower_ascii, to_chars, from_chars, trim_chars, lines_chars, find_chars, starts_with_str,
    ends_with_chars, contains_str, trim_end_char_chars, trim_end_str_chars, lower_ascii_chars,
    slice_chars, chars_eq, copy_chars, append_chars, lemma_find, occurs_at, is_digit,
};

verus! {

/// The number of leading ASCII digits of `s`.
pub open spec fn lead_digits(s: Seq<char>) -> nat
    decreases s.len(),
{
    if s.len() > 0 && is_digit(s[0]) {
        1 + lead_digits(s.drop_first())
    } else {
        0
    }
}

/// `s` without one leading `'+'` or `'-'`.
pub open spec fn unsigned_part(s: Seq<char>) -> Seq<char> {
    if s.len() > 0 && (s[0] == '+' || s[0] == '-') {
        s.drop_first()
    } else {
        s
    }
}

/// An exponent after `e`: an optional sign, then at least one digit and nothing else.
pub open spec fn exponent_text(e: Seq<char>) -> bool {
    let d = unsigned_part(e);
    d.len() > 0 && lead_digits(d) == d.len()
}

/// Digits, an optional `.` and digits, at least one digit in all, then an optional exponent.
pub open spec fn decimal_text(b: Seq<char>) -> bool {
    let i = lead_digits(b);
    let r1 = b.skip(i as int);
    let has_dot = r1.len() > 0 && r1[0] == '.';
    let j = if has_dot {
        lead_digits(r1.drop_first())
    } else {
        0
    };
    let r2 = if has_dot {
        r1.drop_first().skip(j as int)
    } else {
        r1
    };
    i + j >= 1 && (r2.len() == 0 || ((r2[0] == 'e' || r2[0] == 'E') && exponent_text(
        r2.drop_first(),
    )))
}

/// Text that `str::parse::<f64>` accepts: an optional sign, then a decimal number or, in any
/// case of ASCII letters, `inf`, `infinity` or `nan`.
pub open spec fn float_text(s: Seq<char>) -> bool {
    let b = unsigned_part(s);
    b.len() > 0 && (decimal_text(b) || lower_ascii(b) == "inf"@ || lower_ascii(b)
        == "infinity"@ || lower_ascii(b) == "nan"@)
}

/// The unit that a sensor's name implies: `C` for a `temp`, `RPM` for a `fan`, `V` for an `in`.
pub open spec fn unit_of(name: Seq<char>) -> Seq<char> {
    if contains(name, "temp"@) {
        "C"@
    } else if contains(name, "fan"@) {
        "RPM"@
    } else if contains(name, "in"@) {
        "V"@
    } else {
        Seq::empty()
    }
}

/// A reading whose value is still text: a sensor's name, the value as printed, and its unit.
pub struct SensorSample {
    pub name: String,
    pub raw_value: String,
    pub unit: String,
}

pub struct SampleView {
    pub name: Seq<char>,
    pub raw_value: Seq<char>,
    pub unit: Seq<char>,
}

impl View for SensorSample {
    type V = SampleView;

    open spec fn view(&self) -> SampleView {
        SampleView { name: self.name@, raw_value: self.raw_value@, unit: self.unit@ }
    }
}

pub open spec fn samples_of(v: Seq<SensorSample>) -> Seq<SampleView> {
    v.map_values(|s: SensorSample| s@)
}

/// The state of a pass over `sensors -u` output.
pub struct SensorScan {
    pub chip: Seq<char>,
    pub samples: Seq<SampleView>,
}

/// One line: an unindented non-blank line names the chip (without trailing colons); an
/// indented `name_input: value` line whose value reads as a number gives a reading named
/// `chip_name`; every other line is passed over.
pub open spec fn sensor_step(st: SensorScan, line: Seq<char>) -> SensorScan {
    let t = trim(line);
    if !(line.len() > 0 && line[0] == ' ') && t.len() > 0 {
        SensorScan { chip: trim_end_char(t, ':'), samples: st.samples }
    } else if ends_with(t, ":"@) {
        st
    } else {
        let pos = find(t, "_input:"@);
        if pos < 0 {
            st
        } else {
            let name = st.chip + "_"@ + trim(t.take(pos));
            let v = trim(t.skip(pos + 7));
            if float_text(v) {
                SensorScan {
                    chip: st.chip,
                    samples: st.samples.push(SampleView { name: name, raw_value: v, unit: unit_of(name) }),
                }
            } else {
                st
            }
        }
    }
}

pub open spec fn sensor_scan(ls: Seq<Seq<char>>) -> SensorScan
    decreases ls.len(),
{
    if ls.len() == 0 {
        SensorScan { chip: Seq::empty(), samples: Seq::empty() }
    } else {
        sensor_step(sensor_scan(ls.drop_last()), ls.last())
    }
}

/// A line that names a chip: not indented with a space, and not blank.
pub open spec fn is_chip_line(line: Seq<char>) -> bool {
    !(line.len() > 0 && line[0] == ' ') && trim(line).len() > 0
}

proof fn lemma_sensor_scan_split(a: Seq<Seq<char>>, b: Seq<Seq<char>>)
    requires
        b.len() >= 1,
        is_chip_line(b[0]),
    ensures
        sensor_scan(a + b) == (SensorScan {
            chip: sensor_scan(b).chip,
            samples: sensor_scan(a).samples + sensor_scan(b).samples,
        }),
    decreases b.len(),
{
    if b.len() == 1 {
        assert((a + b).drop_last() == a);
        assert((a + b).last() == b[0]);
        assert(b.drop_last() == Seq::<Seq<char>>::empty());
        assert(sensor_scan(b.drop_last()) == SensorScan { chip: Seq::empty(), samples: Seq::empty() });
        assert(b.last() == b[0]);
        assert(sensor_scan(a).samples + Seq::<SampleView>::empty() == sensor_scan(a).samples);
    } else {
        lemma_sensor_scan_split(a, b.drop_last());
        assert((a + b).drop_last() == a + b.drop_last());
        assert((a + b).last() == b.last());
        let d = sensor_scan(a).samples;
        let e = sensor_scan(b.drop_last());
        let l = b.last();
        assert(sensor_scan(a + b) == sensor_step(SensorScan { chip: e.chip, samples: d + e.samples }, l));
        assert(sensor_scan(b) == sensor_step(e, l));
        let t = trim(l);
        let pos = find(t, "_input:"@);
        let name = e.chip + "_"@ + trim(t.take(pos));
        let v = trim(t.skip(pos + 7));
        assert((d + e.samples).push(SampleView { name: name, raw_value: v, unit: unit_of(name) })
            == d + e.samples.push(SampleView { name: name, raw_value: v, unit: unit_of(name) }));
    }
}

/// Each chip's readings come from its own lines alone: the readings of two runs of lines, the
/// second starting with a chip line, are those of the first, then those of the second.
pub proof fn lemma_sensor_samples_append(a: Seq<Seq<char>>, b: Seq<Seq<char>>)
    requires
        b.len() >= 1,
        is_chip_line(b[0]),
    ensures
        sensor_scan(a + b).samples == sensor_scan(a).samples + sensor_scan(b).samples,
{
    lemma_sensor_scan_split(a, b);
}

/// The readings that `sensors -u` output gives.
pub open spec fn sensors_u_samples(text: Seq<char>) -> Seq<SampleView> {
    sensor_scan(lines(text)).samples
}

/// Every lm-sensors reading has a value that reads as a number, and a unit that is `C`,
/// `RPM`, `V` or nothing.
pub proof fn lemma_samples(ls: Seq<Seq<char>>)
    ensures
        forall|i: int|
            0 <= i < sensor_scan(ls).samples.len() ==> {
                let s = #[trigger] sensor_scan(ls).samples[i];
                &&& float_text(s.raw_value)
                &&& (s.unit == "C"@ || s.unit == "RPM"@ || s.unit == "V"@ || s.unit.len() == 0)
            },
    decreases ls.len(),
{
    if ls.len() > 0 {
        lemma_samples(ls.drop_last());
        let init = sensor_scan(ls.drop_last()).samples;
        assert forall|i: int| 0 <= i < sensor_scan(ls).samples.len() implies {
            let s = #[trigger] sensor_scan(ls).samples[i];
            &&& float_text(s.raw_value)
            &&& (s.unit == "C"@ || s.unit == "RPM"@ || s.unit == "V"@ || s.unit.len() == 0)
        } by {
            if i < init.len() {
                assert(sensor_scan(ls).samples[i] == init[i]);
            }
        }
    }
}

fn lead_digits_exec(s: &Vec<char>, from: usize) -> (res: usize)
    requires
        from <= s@.len(),
    ensures
        from + res <= s@.len(),
        res as nat == lead_digits(s@.skip(from as int)),
{
    let n = s.len();
    let mut i: usize = from;
    while i < n && '0' <= s[i] && s[i] <= '9'
        invariant
            from <= i <= n == s@.len(),
            lead_digits(s@.skip(from as int)) == (i - from) + lead_digits(s@.skip(i as int)),
        decreases n - i,
    {
        assert(s@.skip(i as int).drop_first() == s@.skip(i + 1));
        i = i + 1;
    }
    i - from
}

fn exponent_text_exec(e: &Vec<char>) -> (res: bool)
    ensures
        res == exponent_text(e@),
{
    let from: usize = if e.len() > 0 && (e[0] == '+' || e[0] == '-') {
        1
    } else {
        0
    };
    assert(e@.skip(from as int) == unsigned_part(e@));
    let k = lead_digits_exec(e, from);
    e.len() - from > 0 && k == e.len() - from
}

fn decimal_text_exec(b: &Vec<char>) -> (res: bool)
    ensures
        res == decimal_text(b@),
{
    let n = b.len();
    assert(b@.skip(0) == b@);
    let i = lead_digits_exec(b, 0);
    let ghost r1 = b@.skip(i as int);
    let has_dot = i < n && b[i] == '.';
    let mut j: usize = 0;
    let mut p: usize = i;
    if has_dot {
        assert(r1.drop_first() == b@.skip(i + 1));
        j = lead_digits_exec(b, i + 1);
        p = i + 1 + j;
        assert(r1.drop_first().skip(j as int) == b@.skip(p as int));
    }
    if i + j < 1 {
        return false;
    }
    if p == n {
        return true;
    }
    if b[p] == 'e' || b[p] == 'E' {
        let rest = slice_chars(b, p + 1, n);
        assert(rest@ == b@.skip(p as int).drop_first());
        exponent_text_exec(&rest)
    } else {
        false
    }
}

/// Whether `str::parse::<f64>` accepts the text.
pub fn float_text_exec(s: &Vec<char>) -> (res: bool)
    ensures
        res == float_text(s@),
{
    let b = if s.len() > 0 && (s[0] == '+' || s[0] == '-') {
        slice_chars(s, 1, s.len())
    } else {
        copy_chars(s)
    };
    assert(b@ == unsigned_part(s@));
    if b.len() == 0 {
        return false;
    }
    if decimal_text_exec(&b) {
        return true;
    }
    let l = lower_ascii_chars(&b);
    chars_eq(&l, &to_chars("inf")) || chars_eq(&l, &to_chars("infinity")) || chars_eq(
        &l,
        &to_chars("nan"),
    )
}

fn unit_exec(name: &Vec<char>) -> (res: String)
    ensures
        res@ == unit_of(name@),
{
    if contains_str(name, "temp") {
        String::from_str("C")
    } else if contains_str(name, "fan") {
        String::from_str("RPM")
    } else if contains_str(name, "in") {
        String::from_str("V")
    } else {
        String::new()
    }
}

/// The readings that `sensors -u` output gives.
pub fn parse_sensors_u(text: &str) -> (res: Vec<SensorSample>)
    ensures
        samples_of(res@) == sensors_u_samples(text@),
{
    let chars = to_chars(text);
    let ls = lines_chars(&chars);
    let ghost lv = seqs_of(ls@);
    let mut chip: Vec<char> = Vec::new();
    let mut res: Vec<SensorSample> = Vec::new();
    let n = ls.len();
    let pat = to_chars("_input:");
    assert(lv.take(0) == Seq::<Seq<char>>::empty());
    assert(samples_of(res@) =~= Seq::<SampleView>::empty());
    for i in 0..n
        invariant
            n == ls@.len(),
            lv == seqs_of(ls@),
            lv == lines(text@),
            pat@ == "_input:"@,
            sensor_scan(lv.take(i as int)) == (SensorScan { chip: chip@, samples: samples_of(res@) }),
    {
        assert(lv.take(i + 1).drop_last() == lv.take(i as int));
        assert(lv.take(i + 1).last() == ls@[i as int]@);
        let ghost st0 = sensor_scan(lv.take(i as int));
        let line = &ls[i];
        let t = trim_chars(line);
        let indented = line.len() > 0 && line[0] == ' ';
        if !indented && t.len() > 0 {
            chip = trim_end_char_chars(&t, ':');
        } else if ends_with_chars(&t, &to_chars(":")) {
        } else {
            match find_chars(&t, &pat) {
                None => {},
                Some(pos) => {
                    proof {
                        lemma_find(t@, pat@);
                        assert(occurs_at(t@, pat@, pos as int));
                    }
                    assert(pos + 7 <= t@.len()) by {
                        reveal_strlit("_input:");
                    }
                    let mut name = copy_chars(&chip);
                    append_chars(&mut name, &to_chars("_"));
                    append_chars(&mut name, &trim_chars(&slice_chars(&t, 0, pos)));
                    assert(t@.subrange(0, pos as int) == t@.take(pos as int));
                    let v = trim_chars(&slice_chars(&t, pos + 7, t.len()));
                    assert(t@.subrange(pos + 7, t@.len() as int) == t@.skip(pos + 7));
                    if float_text_exec(&v) {
                        let s = SensorSample {
                            name: from_chars(&name),
                            raw_value: from_chars(&v),
                            unit: unit_exec(&name),
                        };
                        let ghost before = samples_of(res@);
                        let ghost sv = s@;
                        res.push(s);
                        assert(samples_of(res@) =~= before.push(sv));
                    }
                },
            }
        }
        assert(sensor_scan(lv.take(i + 1)) == sensor_step(st0, lv[i as int]));
    }
    assert(lv.take(n as int) == lv);
    res
}

/// The lm-sensors readings, from what `sensors -u` printed where it succeeded.
pub fn collect_sensors(sensors_output: Option<&str>) -> (res: Vec<SensorSample>)
    ensures
        samples_of(res@) == match sensors_output {
            Some(t) => sensors_u_samples(t@),
            None => Seq::empty(),
        },
{
    match sensors_output {
        Some(t) => parse_sensors_u(t),
        None => {
            let v: Vec<SensorSample> = Vec::new();
            assert(samples_of(v@) =~= Seq::<SampleView>::empty());
            v
        },
    }
}

/// A hwmon input file, named: `chip_sensor` (chip trimmed, `_input` suffixes dropped), its
/// unit by the sensor's prefix, and whether its value is in thousandths (temperatures).
pub struct HwmonSensor {
    pub name: String,
    pub unit: String,
    pub milli: bool,
}

pub struct HwmonView {
    pub name: Seq<char>,
    pub unit: Seq<char>,
    pub milli: bool,
}

impl View for HwmonSensor {
    type V = HwmonView;

    open spec fn view(&self) -> HwmonView {
        HwmonView { name: self.name@, unit: self.unit@, milli: self.milli }
    }
}

/// The unit that a hwmon sensor's prefix implies.
pub open spec fn hwmon_unit(sensor: Seq<char>) -> Seq<char> {
    if starts_with(sensor, "temp"@) {
        "C"@
    } else if starts_with(sensor, "fan"@) {
        "RPM"@
    } else if starts_with(sensor, "in"@) {
        "V"@
    } else {
        Seq::empty()
    }
}

/// The sensor that a hwmon file is, for a file whose name ends with `_input`.
pub open spec fn hwmon_spec(chip: Seq<char>, file: Seq<char>) -> Option<HwmonView> {
    if ends_with(file, "_input"@) {
        let sensor = trim_end_str(file, "_input"@);
        Some(
            HwmonView {
                name: trim(chip) + "_"@ + sensor,
                unit: hwmon_unit(sensor),
                milli: starts_with(sensor, "temp"@),
            },
        )
    } else {
        None
    }
}

/// The sensor that hwmon file `file` of a chip whose `name` file holds `chip` is, if any.
pub fn hwmon_sensor(chip: &str, file: &str) -> (res: Option<HwmonSensor>)
    ensures
        match res {
            Some(h) => hwmon_spec(chip@, file@) == Some(h@),
            None => hwmon_spec(chip@, file@) is None,
        },
{
    let f = to_chars(file);
    if !ends_with_chars(&f, &to_chars("_input")) {
        return None;
    }
    let sensor = trim_end_str_chars(&f, "_input");
    let mut name = trim_chars(&to_chars(chip));
    append_chars(&mut name, &to_chars("_"));
    append_chars(&mut name, &sensor);
    let unit = if starts_with_str(&sensor, "temp") {
        String::from_str("C")
    } else if starts_with_str(&sensor, "fan") {
        String::from_str("RPM")
    } else if starts_with_str(&sensor, "in") {
        String::from_str("V")
    } else {
        String::new()
    };
    Some(HwmonSensor { name: from_chars(&name), unit: unit, milli: starts_with_str(&sensor, "temp") })
}

} // verus!
