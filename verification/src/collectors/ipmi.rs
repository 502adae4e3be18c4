//! The BMC: firmware, sensors and event log, read from what `ipmitool mc info`,
//! `ipmitool sensor list` and `ipmitool sel list` print.
use vstd::prelude::*;
use crate::text::{
    seqs_of, trim, lines, split_on, lemma_split_on_plain, lemma_split_on_join, lemma_split_where_len, char_is, lemma_join_split, starts_with, contains, contains_ignore_case, colon_value,
    join, to_chars, from_chars, trim_chars, lines_chars, split_chars, starts_with_str,
    contains_str, contains_ignore_case_str, colon_value_exec, join_chars, copy_chars,
};
use crate::models::{
    IpmiInfo, IpmiSensor, IpmiSensorView, SelEntry, SelView, ipmi_sensors_of, sel_of,
};

verus! {

/// The value of the first line that holds `Firmware Revision`, or nothing.
pub open spec fn bmc_firmware(ls: Seq<Seq<char>>) -> Seq<char>
    decreases ls.len(),
{
    if ls.len() == 0 {
        Seq::empty()
    } else if contains(ls[0], "Firmware Revision"@) {
        colon_value(ls[0])
    } else {
        bmc_firmware(ls.drop_first())
    }
}

/// A row of `ipmitool sensor list`: at least four `|`-separated fields, of which the first is
/// the name, the second the value and the fourth the status, each trimmed.
pub open spec fn sensor_row(l: Seq<char>) -> Option<IpmiSensorView> {
    let p = split_on(l, '|');
    if p.len() >= 4 {
        Some(IpmiSensorView { name: trim(p[0]), value: trim(p[1]), unit: Seq::empty(), status: trim(p[3]) })
    } else {
        None
    }
}

pub open spec fn sensor_rows(ls: Seq<Seq<char>>) -> Seq<IpmiSensorView>
    decreases ls.len(),
{
    if ls.len() == 0 {
        Seq::empty()
    } else {
        let init = sensor_rows(ls.drop_last());
        match sensor_row(ls.last()) {
            Some(s) => init.push(s),
            None => init,
        }
    }
}

/// The sensors of two runs of lines are those of the first, then those of the second: each line gives its own row, wherever it stands.
pub proof fn lemma_sensor_rows_append(a: Seq<Seq<char>>, b: Seq<Seq<char>>)
    ensures
        sensor_rows(a + b) == sensor_rows(a) + sensor_rows(b),
    decreases b.len(),
{
    if b.len() == 0 {
        assert(a + b == a);
        assert(sensor_rows(a) + sensor_rows(b) == sensor_rows(a));
    } else {
        lemma_sensor_rows_append(a, b.drop_last());
        assert((a + b).drop_last() == a + b.drop_last());
        assert((a + b).last() == b.last());
        assert((sensor_rows(a) + sensor_rows(b.drop_last())).push(sensor_rows(b).last()) == sensor_rows(a) + sensor_rows(b.drop_last()).push(sensor_rows(b).last()));
    }
}

/// Four fields joined by `|`.
pub open spec fn four_fields(f0: Seq<char>, f1: Seq<char>, f2: Seq<char>, f3: Seq<char>) -> Seq<char> {
    f0 + seq!['|'] + f1 + seq!['|'] + f2 + seq!['|'] + f3
}

/// A row's first field is the name, its second the value and its fourth the status, each
/// trimmed, whatever columns follow the fourth; a row of three fields is no sensor.
pub proof fn lemma_sensor_columns(
    f0: Seq<char>,
    f1: Seq<char>,
    f2: Seq<char>,
    f3: Seq<char>,
    rest: Seq<char>,
)
    requires
        forall|i: int| 0 <= i < f0.len() ==> f0[i] != '|',
        forall|i: int| 0 <= i < f1.len() ==> f1[i] != '|',
        forall|i: int| 0 <= i < f2.len() ==> f2[i] != '|',
        forall|i: int| 0 <= i < f3.len() ==> f3[i] != '|',
    ensures
        sensor_row(four_fields(f0, f1, f2, f3)) == Some(
            IpmiSensorView { name: trim(f0), value: trim(f1), unit: Seq::empty(), status: trim(f3) },
        ),
        sensor_row(four_fields(f0, f1, f2, f3) + seq!['|'] + rest) == sensor_row(
            four_fields(f0, f1, f2, f3),
        ),
        sensor_row(f0 + seq!['|'] + f1 + seq!['|'] + f2) is None,
{
    lemma_split_on_plain(f0, '|');
    lemma_split_on_plain(f1, '|');
    lemma_split_on_plain(f2, '|');
    lemma_split_on_plain(f3, '|');
    let a1 = f0 + seq!['|'] + f1;
    let a2 = a1 + seq!['|'] + f2;
    let a3 = a2 + seq!['|'] + f3;
    lemma_split_on_join(f0, f1, '|');
    lemma_split_on_join(a1, f2, '|');
    lemma_split_on_join(a2, f3, '|');
    lemma_split_on_join(a3, rest, '|');
    lemma_split_where_len(rest, char_is('|'));
    assert(split_on(a1, '|') == seq![f0, f1]);
    assert(split_on(a2, '|') == seq![f0, f1, f2]);
    assert(split_on(a3, '|') == seq![f0, f1, f2, f3]);
    assert(a3 == four_fields(f0, f1, f2, f3));
    let p = split_on(a3 + seq!['|'] + rest, '|');
    assert(p[0] == f0 && p[1] == f1 && p[3] == f3);
}

/// `str::splitn(n, c)`: at most `n` pieces, the last one holding the rest of `s`.
pub open spec fn splitn_on(s: Seq<char>, n: nat, c: char) -> Seq<Seq<char>> {
    let p = split_on(s, c);
    if p.len() <= n {
        p
    } else {
        p.take(n - 1).push(join(p.skip(n - 1), seq![c]))
    }
}

/// Five fields joined by `|`, then a sixth after one more `|`.
pub open spec fn six_fields(
    f0: Seq<char>,
    f1: Seq<char>,
    f2: Seq<char>,
    f3: Seq<char>,
    f4: Seq<char>,
    rest: Seq<char>,
) -> Seq<char> {
    f0 + seq!['|'] + f1 + seq!['|'] + f2 + seq!['|'] + f3 + seq!['|'] + f4 + seq!['|'] + rest
}

/// An event row's fields are, in order, its id, date, time, type and sensor, and all that
/// follows the fifth `|` is the event, `|` included, each trimmed.
pub proof fn lemma_sel_columns(
    f0: Seq<char>,
    f1: Seq<char>,
    f2: Seq<char>,
    f3: Seq<char>,
    f4: Seq<char>,
    rest: Seq<char>,
)
    requires
        forall|i: int| 0 <= i < f0.len() ==> f0[i] != '|',
        forall|i: int| 0 <= i < f1.len() ==> f1[i] != '|',
        forall|i: int| 0 <= i < f2.len() ==> f2[i] != '|',
        forall|i: int| 0 <= i < f3.len() ==> f3[i] != '|',
        forall|i: int| 0 <= i < f4.len() ==> f4[i] != '|',
    ensures
        ({
            let l = six_fields(f0, f1, f2, f3, f4, rest);
            trim(l).len() > 0 && !starts_with(l, "SEL"@) ==> sel_row(l) == Some(
                SelView {
                    id: trim(f0),
                    date: trim(f1),
                    time: trim(f2),
                    sensor: trim(f4),
                    event: trim(rest),
                    severity: severity_of(l),
                },
            )
        }),
{
    lemma_split_on_plain(f0, '|');
    lemma_split_on_plain(f1, '|');
    lemma_split_on_plain(f2, '|');
    lemma_split_on_plain(f3, '|');
    lemma_split_on_plain(f4, '|');
    let a1 = f0 + seq!['|'] + f1;
    let a2 = a1 + seq!['|'] + f2;
    let a3 = a2 + seq!['|'] + f3;
    let a4 = a3 + seq!['|'] + f4;
    lemma_split_on_join(f0, f1, '|');
    lemma_split_on_join(a1, f2, '|');
    lemma_split_on_join(a2, f3, '|');
    lemma_split_on_join(a3, f4, '|');
    lemma_split_on_join(a4, rest, '|');
    lemma_split_where_len(rest, char_is('|'));
    lemma_join_split(rest, '|');
    assert(split_on(a1, '|') == seq![f0, f1]);
    assert(split_on(a2, '|') == seq![f0, f1, f2]);
    assert(split_on(a3, '|') == seq![f0, f1, f2, f3]);
    assert(split_on(a4, '|') == seq![f0, f1, f2, f3, f4]);
    let l = a4 + seq!['|'] + rest;
    assert(l == six_fields(f0, f1, f2, f3, f4, rest));
    let sp = split_on(l, '|');
    let r = split_on(rest, '|');
    assert(sp == seq![f0, f1, f2, f3, f4] + r);
    let p = splitn_on(l, 6, '|');
    if sp.len() <= 6 {
        assert(r.len() == 1);
        assert(p[5] == r[0]);
        assert(join(r, seq!['|']) == r[0]);
    } else {
        assert(sp.skip(5) == r);
        assert(p[5] == join(r, seq!['|']));
    }
    assert(p[5] == rest);
    assert(p[0] == f0 && p[1] == f1 && p[2] == f2 && p[4] == f4);
}

/// The severity of an event line: `critical` or `warning` where the line names one
/// (case aside), else `info`.
pub open spec fn severity_of(l: Seq<char>) -> Seq<char> {
    if contains_ignore_case(l, "critical"@) {
        "critical"@
    } else if contains_ignore_case(l, "warning"@) {
        "warning"@
    } else {
        "info"@
    }
}

/// A row of `ipmitool sel list`: not blank, not starting with `SEL`, and with at least five of
/// its at most six `|`-separated fields: id, date, time, (type), sensor, and the event.
pub open spec fn sel_row(l: Seq<char>) -> Option<SelView> {
    let p = splitn_on(l, 6, '|');
    if trim(l).len() == 0 || starts_with(l, "SEL"@) || p.len() < 5 {
        None
    } else {
        Some(
            SelView {
                id: trim(p[0]),
                date: trim(p[1]),
                time: trim(p[2]),
                sensor: trim(p[4]),
                event: if p.len() > 5 {
                    trim(p[5])
                } else {
                    Seq::empty()
                },
                severity: severity_of(l),
            },
        )
    }
}

pub open spec fn sel_rows(ls: Seq<Seq<char>>) -> Seq<SelView>
    decreases ls.len(),
{
    if ls.len() == 0 {
        Seq::empty()
    } else {
        let init = sel_rows(ls.drop_last());
        match sel_row(ls.last()) {
            Some(e) => init.push(e),
            None => init,
        }
    }
}

/// The events of two runs of lines are those of the first, then those of the second: each line gives its own event, wherever it stands.
pub proof fn lemma_sel_rows_append(a: Seq<Seq<char>>, b: Seq<Seq<char>>)
    ensures
        sel_rows(a + b) == sel_rows(a) + sel_rows(b),
    decreases b.len(),
{
    if b.len() == 0 {
        assert(a + b == a);
        assert(sel_rows(a) + sel_rows(b) == sel_rows(a));
    } else {
        lemma_sel_rows_append(a, b.drop_last());
        assert((a + b).drop_last() == a + b.drop_last());
        assert((a + b).last() == b.last());
        assert((sel_rows(a) + sel_rows(b.drop_last())).push(sel_rows(b).last()) == sel_rows(a) + sel_rows(b.drop_last()).push(sel_rows(b).last()));
    }
}

/// Every event's severity is `critical`, `warning` or `info`.
pub proof fn lemma_sel_severity(ls: Seq<Seq<char>>)
    ensures
        forall|i: int|
            0 <= i < sel_rows(ls).len() ==> {
                let s = #[trigger] sel_rows(ls)[i].severity;
                s == "critical"@ || s == "warning"@ || s == "info"@
            },
    decreases ls.len(),
{
    if ls.len() > 0 {
        lemma_sel_severity(ls.drop_last());
        let init = sel_rows(ls.drop_last());
        assert forall|i: int| 0 <= i < sel_rows(ls).len() implies {
            let s = #[trigger] sel_rows(ls)[i].severity;
            s == "critical"@ || s == "warning"@ || s == "info"@
        } by {
            if i < init.len() {
                assert(sel_rows(ls)[i] == init[i]);
            }
        }
    }
}

fn firmware_exec(ls: &Vec<Vec<char>>) -> (res: String)
    ensures
        res@ == bmc_firmware(seqs_of(ls@)),
{
    let ghost lv = seqs_of(ls@);
    let n = ls.len();
    assert(lv.skip(0) == lv);
    for i in 0..n
        invariant
            n == ls@.len(),
            lv == seqs_of(ls@),
            bmc_firmware(lv) == bmc_firmware(lv.skip(i as int)),
    {
        assert(lv.skip(i as int)[0] == ls@[i as int]@);
        assert(lv.skip(i as int).drop_first() == lv.skip(i + 1));
        if contains_str(&ls[i], "Firmware Revision") {
            return colon_value_exec(&ls[i]);
        }
    }
    assert(lv.skip(n as int).len() == 0);
    String::new()
}

fn sensor_row_exec(l: &Vec<char>) -> (res: Option<IpmiSensor>)
    ensures
        match res {
            Some(s) => sensor_row(l@) == Some(s@),
            None => sensor_row(l@) is None,
        },
{
    let p = split_chars(l, '|');
    if p.len() >= 4 {
        assert(p@[0]@ == seqs_of(p@)[0]);
        assert(p@[1]@ == seqs_of(p@)[1]);
        assert(p@[3]@ == seqs_of(p@)[3]);
        Some(
            IpmiSensor {
                name: from_chars(&trim_chars(&p[0])),
                value: from_chars(&trim_chars(&p[1])),
                unit: String::new(),
                status: from_chars(&trim_chars(&p[3])),
            },
        )
    } else {
        None
    }
}

/// `str::splitn(n, c)`.
fn splitn_chars(l: &Vec<char>, n: usize, c: char) -> (res: Vec<Vec<char>>)
    requires
        n >= 1,
    ensures
        seqs_of(res@) == splitn_on(l@, n as nat, c),
{
    let p = split_chars(l, c);
    let ghost pv = seqs_of(p@);
    if p.len() <= n {
        return p;
    }
    let mut res: Vec<Vec<char>> = Vec::new();
    for i in 0..n - 1
        invariant
            pv == seqs_of(p@),
            p@.len() > n >= 1,
            seqs_of(res@) == pv.take(i as int),
    {
        let ghost before = seqs_of(res@);
        res.push(copy_chars(&p[i]));
        assert(seqs_of(res@) =~= before.push(pv[i as int]));
        assert(pv.take(i + 1) == pv.take(i as int).push(pv[i as int]));
    }
    let mut tail: Vec<Vec<char>> = Vec::new();
    let m = p.len();
    for i in n - 1..m
        invariant
            pv == seqs_of(p@),
            m == p@.len(),
            pv.len() == m,
            n >= 1,
            n - 1 <= i <= m,
            seqs_of(tail@) == pv.subrange(n - 1, i as int),
    {
        let ghost before = seqs_of(tail@);
        tail.push(copy_chars(&p[i]));
        assert(seqs_of(tail@) =~= before.push(pv[i as int]));
        assert(pv.subrange(n - 1, i + 1) =~= pv.subrange(n - 1, i as int).push(pv[i as int]));
    }
    assert(pv.subrange(n - 1, m as int) == pv.skip(n - 1));
    let sep: Vec<char> = vec![c];
    let sep_str = from_chars(&sep);
    let rest = join_chars(&tail, sep_str.as_str());
    assert(sep@ == seq![c]);
    let ghost before = seqs_of(res@);
    res.push(rest);
    assert(seqs_of(res@) =~= before.push(join(pv.skip(n - 1), seq![c])));
    res
}

fn severity_exec(l: &Vec<char>) -> (res: String)
    ensures
        res@ == severity_of(l@),
{
    if contains_ignore_case_str(l, "critical") {
        String::from_str("critical")
    } else if contains_ignore_case_str(l, "warning") {
        String::from_str("warning")
    } else {
        String::from_str("info")
    }
}

fn sel_row_exec(l: &Vec<char>) -> (res: Option<SelEntry>)
    ensures
        match res {
            Some(e) => sel_row(l@) == Some(e@),
            None => sel_row(l@) is None,
        },
{
    let t = trim_chars(l);
    if t.len() == 0 || starts_with_str(l, "SEL") {
        return None;
    }
    let p = splitn_chars(l, 6, '|');
    if p.len() < 5 {
        return None;
    }
    assert(p@[0]@ == seqs_of(p@)[0]);
    assert(p@[1]@ == seqs_of(p@)[1]);
    assert(p@[2]@ == seqs_of(p@)[2]);
    assert(p@[4]@ == seqs_of(p@)[4]);
    let event = if p.len() > 5 {
        assert(p@[5]@ == seqs_of(p@)[5]);
        from_chars(&trim_chars(&p[5]))
    } else {
        String::new()
    };
    Some(
        SelEntry {
            id: from_chars(&trim_chars(&p[0])),
            date: from_chars(&trim_chars(&p[1])),
            time: from_chars(&trim_chars(&p[2])),
            sensor: from_chars(&trim_chars(&p[4])),
            event: event,
            severity: severity_exec(l),
        },
    )
}

fn sensor_rows_exec(ls: &Vec<Vec<char>>) -> (res: Vec<IpmiSensor>)
    ensures
        ipmi_sensors_of(res@) == sensor_rows(seqs_of(ls@)),
{
    let ghost lv = seqs_of(ls@);
    let n = ls.len();
    let mut res: Vec<IpmiSensor> = Vec::new();
    assert(lv.take(0) == Seq::<Seq<char>>::empty());
    assert(ipmi_sensors_of(res@) =~= Seq::<IpmiSensorView>::empty());
    for i in 0..n
        invariant
            n == ls@.len(),
            lv == seqs_of(ls@),
            ipmi_sensors_of(res@) == sensor_rows(lv.take(i as int)),
    {
        assert(lv.take(i + 1).drop_last() == lv.take(i as int));
        assert(lv.take(i + 1).last() == ls@[i as int]@);
        match sensor_row_exec(&ls[i]) {
            Some(s) => {
                let ghost before = ipmi_sensors_of(res@);
                let ghost sv = s@;
                res.push(s);
                assert(ipmi_sensors_of(res@) =~= before.push(sv));
            },
            None => {},
        }
    }
    assert(lv.take(n as int) == lv);
    res
}

fn sel_rows_exec(ls: &Vec<Vec<char>>) -> (res: Vec<SelEntry>)
    ensures
        sel_of(res@) == sel_rows(seqs_of(ls@)),
{
    let ghost lv = seqs_of(ls@);
    let n = ls.len();
    let mut res: Vec<SelEntry> = Vec::new();
    assert(lv.take(0) == Seq::<Seq<char>>::empty());
    assert(sel_of(res@) =~= Seq::<SelView>::empty());
    for i in 0..n
        invariant
            n == ls@.len(),
            lv == seqs_of(ls@),
            sel_of(res@) == sel_rows(lv.take(i as int)),
    {
        assert(lv.take(i + 1).drop_last() == lv.take(i as int));
        assert(lv.take(i + 1).last() == ls@[i as int]@);
        match sel_row_exec(&ls[i]) {
            Some(e) => {
                let ghost before = sel_of(res@);
                let ghost ev = e@;
                res.push(e);
                assert(sel_of(res@) =~= before.push(ev));
            },
            None => {},
        }
    }
    assert(lv.take(n as int) == lv);
    res
}

pub open spec fn opt_lines(t: Option<&str>) -> Seq<Seq<char>> {
    match t {
        Some(s) => lines(s@),
        None => Seq::empty(),
    }
}

fn opt_lines_exec(t: Option<&str>) -> (res: Vec<Vec<char>>)
    ensures
        seqs_of(res@) == opt_lines(t),
{
    match t {
        Some(s) => lines_chars(&to_chars(s)),
        None => {
            let v: Vec<Vec<char>> = Vec::new();
            assert(seqs_of(v@) =~= Seq::<Seq<char>>::empty());
            v
        },
    }
}

/// The BMC summary from what `ipmitool mc info`, `sensor list` and `sel list` printed (each
/// where it succeeded). Without `mc info` there is no BMC: nothing else is read.
pub fn collect_ipmi(mc_info: Option<&str>, sensor_list: Option<&str>, sel_list: Option<&str>) -> (res: IpmiInfo)
    ensures
        res.available == mc_info is Some,
        res.bmc_firmware@ == if mc_info is Some {
            bmc_firmware(opt_lines(mc_info))
        } else {
            Seq::empty()
        },
        ipmi_sensors_of(res.sensors@) == if mc_info is Some {
            sensor_rows(opt_lines(sensor_list))
        } else {
            Seq::empty()
        },
        sel_of(res.sel_entries@) == if mc_info is Some {
            sel_rows(opt_lines(sel_list))
        } else {
            Seq::empty()
        },
{
    if mc_info.is_none() {
        let res = IpmiInfo {
            available: false,
            bmc_firmware: String::new(),
            sensors: Vec::new(),
            sel_entries: Vec::new(),
        };
        assert(ipmi_sensors_of(res.sensors@) =~= Seq::<IpmiSensorView>::empty());
        assert(sel_of(res.sel_entries@) =~= Seq::<SelView>::empty());
        return res;
    }
    let info_lines = opt_lines_exec(mc_info);
    let sensor_lines = opt_lines_exec(sensor_list);
    let sel_lines = opt_lines_exec(sel_list);
    IpmiInfo {
        available: true,
        bmc_firmware: firmware_exec(&info_lines),
        sensors: sensor_rows_exec(&sensor_lines),
        sel_entries: sel_rows_exec(&sel_lines),
    }
}

} // verus!
