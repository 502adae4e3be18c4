//! Disks and their SMART data, read from what `smartctl --scan` and `smartctl --all` print.
use vstd::prelude::*;
use crate::text::{
    seqs_of, trim, lines, words, starts_with, trim_end_non_digits, trim_start_str,
    join, to_chars, from_chars, trim_chars, lines_chars, words_chars, starts_with_str,
    trim_end_non_digits_chars, trim_start_str_chars, join_chars,
    slice_chars, colon_value, colon_value_exec,
};
use crate::num::{parse_unsigned, parse_i32, parse_unsigned_exec, parse_i32_exec};
use crate::models::{
    StorageDevice, SmartAttribute, DiskView, AttributeView, attributes_of, strings_of, disks_of,
};

verus! {

/// The first word of `s`, or nothing.
pub open spec fn first_word(s: Seq<char>) -> Seq<char> {
    if words(s).len() > 0 {
        words(s)[0]
    } else {
        Seq::empty()
    }
}

/// The devices that a `smartctl --scan` listing names: of each line, its first word,
/// where that word begins with `/dev/`.
pub open spec fn scan_devices_spec(ls: Seq<Seq<char>>) -> Seq<Seq<char>>
    decreases ls.len(),
{
    if ls.len() == 0 {
        Seq::empty()
    } else {
        let init = scan_devices_spec(ls.drop_last());
        let dev = first_word(ls.last());
        if dev.len() > 0 && starts_with(dev, "/dev/"@) {
            init.push(dev)
        } else {
            init
        }
    }
}

/// The devices of two runs of scan lines are those of the first, then those of the second.
pub proof fn lemma_scan_devices_append(a: Seq<Seq<char>>, b: Seq<Seq<char>>)
    ensures
        scan_devices_spec(a + b) == scan_devices_spec(a) + scan_devices_spec(b),
    decreases b.len(),
{
    if b.len() == 0 {
        assert(a + b == a);
        assert(scan_devices_spec(a) + scan_devices_spec(b) == scan_devices_spec(a));
    } else {
        lemma_scan_devices_append(a, b.drop_last());
        assert((a + b).drop_last() == a + b.drop_last());
        assert((a + b).last() == b.last());
        assert((scan_devices_spec(a) + scan_devices_spec(b.drop_last())).push(scan_devices_spec(b).last()) == scan_devices_spec(a) + scan_devices_spec(b.drop_last()).push(scan_devices_spec(b).last()));
    }
}

/// The counter at the end of a line: its last word read as a `u64` (0 where it is not one),
/// or `old` when the line has no word.
pub open spec fn last_word_count(t: Seq<char>, old: u64) -> u64 {
    let w = words(t);
    if w.len() > 0 {
        match parse_unsigned(w.last(), 10, u64::MAX as nat) {
            Some(v) => v as u64,
            None => 0,
        }
    } else {
        old
    }
}

/// A word read as a temperature: without trailing non-digits, an `i32` strictly between 0 and 120.
pub open spec fn temperature_word(w: Seq<char>) -> Option<i32> {
    match parse_i32(trim_end_non_digits(w)) {
        Some(t) => if 0 < t && t < 120 {
            Some(t as i32)
        } else {
            None
        },
        None => None,
    }
}

/// The first word that reads as a temperature.
pub open spec fn first_temperature(ws: Seq<Seq<char>>) -> Option<i32>
    decreases ws.len(),
{
    if ws.len() == 0 {
        None
    } else {
        match temperature_word(ws[0]) {
            Some(t) => Some(t),
            None => first_temperature(ws.drop_first()),
        }
    }
}

/// What one trimmed line of `smartctl --all` sets in the disk's identity and counters.
pub open spec fn smart_header_step(d: DiskView, t: Seq<char>) -> DiskView {
    if starts_with(t, "Device Model:"@) || starts_with(t, "Model Family:"@) {
        DiskView { model: colon_value(t), ..d }
    } else if starts_with(t, "Serial Number:"@) {
        DiskView { serial: colon_value(t), ..d }
    } else if starts_with(t, "Firmware Version:"@) {
        DiskView { firmware: colon_value(t), ..d }
    } else if starts_with(t, "User Capacity:"@) {
        DiskView { capacity_human: colon_value(t), ..d }
    } else if starts_with(t, "SMART overall-health"@) {
        DiskView { smart_health: colon_value(t), ..d }
    } else if starts_with(t, "Power_On_Hours"@) {
        DiskView { power_on_hours: last_word_count(t, d.power_on_hours), ..d }
    } else if starts_with(t, "Power_Cycle_Count"@) {
        DiskView { power_cycle_count: last_word_count(t, d.power_cycle_count), ..d }
    } else if starts_with(t, "Temperature"@) {
        match first_temperature(words(t)) {
            Some(x) => DiskView { temperature: x, ..d },
            None => d,
        }
    } else {
        d
    }
}

/// A word read as a `u8`, or 0.
pub open spec fn byte_or_zero(w: Seq<char>, radix: nat) -> u8 {
    match parse_unsigned(w, radix, 255) {
        Some(v) => v as u8,
        None => 0,
    }
}

/// A row of the attribute table: at least ten words, of which the first is the id in
/// hexadecimal (after leading `0x`), then name, flag, value, worst, threshold, and from the
/// tenth word on the raw value, joined with single spaces.
pub open spec fn attribute_line(t: Seq<char>) -> Option<AttributeView> {
    let p = words(t);
    if p.len() >= 10 {
        Some(
            AttributeView {
                id: byte_or_zero(trim_start_str(p[0], "0x"@), 16),
                name: p[1],
                value: byte_or_zero(p[3], 10),
                worst: byte_or_zero(p[4], 10),
                threshold: byte_or_zero(p[5], 10),
                raw: join(p.skip(9), " "@),
                flag: p[2],
                status: "ok"@,
            },
        )
    } else {
        None
    }
}

/// The state of a pass over `smartctl --all` output.
pub struct SmartScan {
    pub disk: DiskView,
    pub in_attributes: bool,
    pub attrs: Seq<AttributeView>,
}

pub open spec fn disk_start(dev: Seq<char>) -> DiskView {
    DiskView {
        device: dev,
        model: Seq::empty(),
        serial: Seq::empty(),
        firmware: Seq::empty(),
        capacity_human: Seq::empty(),
        smart_health: Seq::empty(),
        smart_attributes: Seq::empty(),
        power_on_hours: 0,
        power_cycle_count: 0,
        temperature: 0,
        notes: Seq::empty(),
    }
}

/// One trimmed line: the identity fields, then the attribute table, which begins after a
/// line that starts with `ID#` and whose rows start with `0x`.
pub open spec fn smart_step(st: SmartScan, t: Seq<char>) -> SmartScan {
    let d = smart_header_step(st.disk, t);
    if starts_with(t, "ID#"@) {
        SmartScan { disk: d, in_attributes: true, attrs: st.attrs }
    } else if st.in_attributes && starts_with(t, "0x"@) {
        match attribute_line(t) {
            Some(a) => SmartScan { disk: d, in_attributes: true, attrs: st.attrs.push(a) },
            None => SmartScan { disk: d, in_attributes: true, attrs: st.attrs },
        }
    } else {
        SmartScan { disk: d, in_attributes: st.in_attributes, attrs: st.attrs }
    }
}

pub open spec fn smart_scan(dev: Seq<char>, ls: Seq<Seq<char>>) -> SmartScan
    decreases ls.len(),
{
    if ls.len() == 0 {
        SmartScan { disk: disk_start(dev), in_attributes: false, attrs: Seq::empty() }
    } else {
        smart_step(smart_scan(dev, ls.drop_last()), trim(ls.last()))
    }
}

/// The disk that `smartctl --all` output describes: the scanned fields and attributes, and a
/// health of `unknown` where no line gave one.
pub open spec fn smart_disk(dev: Seq<char>, text: Seq<char>) -> DiskView {
    let st = smart_scan(dev, lines(text));
    DiskView {
        smart_attributes: st.attrs,
        smart_health: if st.disk.smart_health.len() == 0 {
            "unknown"@
        } else {
            st.disk.smart_health
        },
        ..st.disk
    }
}

proof fn lemma_first_temperature(ws: Seq<Seq<char>>)
    ensures
        first_temperature(ws) matches Some(t) ==> 0 < t < 120,
    decreases ws.len(),
{
    if ws.len() > 0 {
        lemma_first_temperature(ws.drop_first());
    }
}

proof fn lemma_smart_scan(dev: Seq<char>, ls: Seq<Seq<char>>)
    ensures
        smart_scan(dev, ls).disk.device == dev,
        smart_scan(dev, ls).disk.notes.len() == 0,
        smart_scan(dev, ls).disk.temperature == 0 || 0 < smart_scan(dev, ls).disk.temperature < 120,
        forall|i: int|
            0 <= i < smart_scan(dev, ls).attrs.len() ==> #[trigger] smart_scan(dev, ls).attrs[i].status
                == "ok"@,
    decreases ls.len(),
{
    if ls.len() > 0 {
        lemma_smart_scan(dev, ls.drop_last());
        lemma_first_temperature(words(trim(ls.last())));
    }
}

/// What every disk read from `smartctl --all` output has: the device it was asked for, a
/// health that is never empty, a temperature of 0 (none found) or strictly between 0 and 120,
/// no notes, and attributes whose status is `ok`.
pub proof fn lemma_smart_disk(dev: Seq<char>, text: Seq<char>)
    ensures
        smart_disk(dev, text).device == dev,
        smart_disk(dev, text).notes.len() == 0,
        smart_disk(dev, text).smart_health.len() > 0,
        smart_disk(dev, text).temperature == 0 || 0 < smart_disk(dev, text).temperature < 120,
        forall|i: int|
            0 <= i < smart_disk(dev, text).smart_attributes.len() ==> #[trigger] smart_disk(
                dev,
                text,
            ).smart_attributes[i].status == "ok"@,
{
    reveal_strlit("unknown");
    lemma_smart_scan(dev, lines(text));
}

proof fn lemma_scan_devices_spec(ls: Seq<Seq<char>>)
    ensures
        forall|i: int|
            0 <= i < scan_devices_spec(ls).len() ==> starts_with(
                #[trigger] scan_devices_spec(ls)[i],
                "/dev/"@,
            ),
    decreases ls.len(),
{
    if ls.len() > 0 {
        lemma_scan_devices_spec(ls.drop_last());
        let init = scan_devices_spec(ls.drop_last());
        assert forall|i: int| 0 <= i < scan_devices_spec(ls).len() implies starts_with(
            #[trigger] scan_devices_spec(ls)[i],
            "/dev/"@,
        ) by {
            if i < init.len() {
                assert(scan_devices_spec(ls)[i] == init[i]);
            }
        }
    }
}

/// Every device that a scan listing gives names a path under `/dev/`.
pub proof fn lemma_scan_devices(scan: Seq<char>)
    ensures
        forall|i: int|
            0 <= i < scan_devices_spec(lines(scan)).len() ==> starts_with(
                #[trigger] scan_devices_spec(lines(scan))[i],
                "/dev/"@,
            ),
{
    lemma_scan_devices_spec(lines(scan));
}

/// The devices named by a `smartctl --scan` listing.
pub fn scan_devices(scan: &str) -> (res: Vec<String>)
    ensures
        strings_of(res@) == scan_devices_spec(lines(scan@)),
{
    let text = to_chars(scan);
    let ls = lines_chars(&text);
    let ghost lv = seqs_of(ls@);
    let mut res: Vec<String> = Vec::new();
    let n = ls.len();
    assert(lv.take(0) == Seq::<Seq<char>>::empty());
    for i in 0..n
        invariant
            n == ls@.len(),
            lv == seqs_of(ls@),
            lv == lines(scan@),
            strings_of(res@) == scan_devices_spec(lv.take(i as int)),
    {
        assert(lv.take(i + 1).drop_last() == lv.take(i as int));
        assert(lv.take(i + 1).last() == ls@[i as int]@);
        let ws = words_chars(&ls[i]);
        let dev: Vec<char> = if ws.len() > 0 {
            let w = &ws[0];
            assert(ws@[0]@ == seqs_of(ws@)[0]);
            let r = slice_chars(w, 0, w.len());
            assert(w@.subrange(0, w@.len() as int) == w@);
            r
        } else {
            Vec::new()
        };
        if dev.len() > 0 && starts_with_str(&dev, "/dev/") {
            res.push(from_chars(&dev));
        }
        assert(strings_of(res@) == scan_devices_spec(lv.take(i + 1)));
    }
    assert(lv.take(n as int) == lv);
    res
}

fn last_word_count_exec(t: &Vec<char>, old: u64) -> (res: u64)
    ensures
        res == last_word_count(t@, old),
{
    let ws = words_chars(t);
    if ws.len() > 0 {
        assert(ws@[ws.len() - 1]@ == seqs_of(ws@).last());
        match parse_unsigned_exec(&ws[ws.len() - 1], 10, u64::MAX) {
            Some(v) => v,
            None => 0,
        }
    } else {
        old
    }
}

fn temperature_word_exec(w: &Vec<char>) -> (res: Option<i32>)
    ensures
        res == temperature_word(w@),
{
    let d = trim_end_non_digits_chars(w);
    match parse_i32_exec(&d) {
        Some(t) => if 0 < t && t < 120 {
            Some(t)
        } else {
            None
        },
        None => None,
    }
}

fn first_temperature_exec(ws: &Vec<Vec<char>>) -> (res: Option<i32>)
    ensures
        res == first_temperature(seqs_of(ws@)),
{
    let ghost wv = seqs_of(ws@);
    let n = ws.len();
    assert(wv.skip(0) == wv);
    for i in 0..n
        invariant
            n == ws@.len(),
            wv == seqs_of(ws@),
            first_temperature(wv) == first_temperature(wv.skip(i as int)),
    {
        assert(wv.skip(i as int)[0] == ws@[i as int]@);
        assert(wv.skip(i as int).drop_first() == wv.skip(i + 1));
        match temperature_word_exec(&ws[i]) {
            Some(t) => {
                return Some(t);
            },
            None => {},
        }
    }
    assert(wv.skip(n as int).len() == 0);
    None
}

fn smart_header_exec(d: &mut StorageDevice, t: &Vec<char>)
    ensures
        final(d)@ == smart_header_step(old(d)@, t@),
{
    if starts_with_str(t, "Device Model:") || starts_with_str(t, "Model Family:") {
        d.model = colon_value_exec(t);
    } else if starts_with_str(t, "Serial Number:") {
        d.serial = colon_value_exec(t);
    } else if starts_with_str(t, "Firmware Version:") {
        d.firmware = colon_value_exec(t);
    } else if starts_with_str(t, "User Capacity:") {
        d.capacity_human = colon_value_exec(t);
    } else if starts_with_str(t, "SMART overall-health") {
        d.smart_health = colon_value_exec(t);
    } else if starts_with_str(t, "Power_On_Hours") {
        d.power_on_hours = last_word_count_exec(t, d.power_on_hours);
    } else if starts_with_str(t, "Power_Cycle_Count") {
        d.power_cycle_count = last_word_count_exec(t, d.power_cycle_count);
    } else if starts_with_str(t, "Temperature") {
        let ws = words_chars(t);
        match first_temperature_exec(&ws) {
            Some(x) => {
                d.temperature = x;
            },
            None => {},
        }
    }
}

fn byte_or_zero_exec(w: &Vec<char>, radix: u64) -> (res: u8)
    requires
        radix == 10 || radix == 16,
    ensures
        res == byte_or_zero(w@, radix as nat),
{
    match parse_unsigned_exec(w, radix, 255) {
        Some(v) => v as u8,
        None => 0,
    }
}

fn attribute_line_exec(t: &Vec<char>) -> (res: Option<SmartAttribute>)
    ensures
        match res {
            Some(a) => attribute_line(t@) == Some(a@),
            None => attribute_line(t@) is None,
        },
{
    let p = words_chars(t);
    let ghost pv = seqs_of(p@);
    if p.len() < 10 {
        return None;
    }
    let n = p.len();
    let mut tail: Vec<Vec<char>> = Vec::new();
    for i in 9..n
        invariant
            n == p@.len(),
            pv == seqs_of(p@),
            9 <= i <= n,
            seqs_of(tail@) == pv.subrange(9, i as int),
    {
        let w = &p[i];
        tail.push(slice_chars(w, 0, w.len()));
        assert(w@.subrange(0, w@.len() as int) == w@);
        assert(pv.subrange(9, i + 1) == pv.subrange(9, i as int).push(pv[i as int]));
    }
    assert(pv.subrange(9, n as int) == pv.skip(9));
    let id_digits = trim_start_str_chars(&p[0], "0x");
    let raw = join_chars(&tail, " ");
    let a = SmartAttribute {
        id: byte_or_zero_exec(&id_digits, 16),
        name: from_chars(&p[1]),
        value: byte_or_zero_exec(&p[3], 10),
        worst: byte_or_zero_exec(&p[4], 10),
        threshold: byte_or_zero_exec(&p[5], 10),
        raw: from_chars(&raw),
        flag: from_chars(&p[2]),
        status: String::from_str("ok"),
    };
    assert(a@ == attribute_line(t@).unwrap());
    Some(a)
}

/// The disk that `smartctl --all` output describes for device `dev`.
pub fn parse_smart(dev: &str, text: &str) -> (res: StorageDevice)
    ensures
        res@ == smart_disk(dev@, text@),
{
    let chars = to_chars(text);
    let ls = lines_chars(&chars);
    let ghost lv = seqs_of(ls@);
    let mut disk = StorageDevice {
        device: String::from_str(dev),
        model: String::new(),
        serial: String::new(),
        firmware: String::new(),
        capacity_human: String::new(),
        smart_health: String::new(),
        smart_attributes: Vec::new(),
        power_on_hours: 0,
        power_cycle_count: 0,
        temperature: 0,
        notes: Vec::new(),
    };
    let mut in_attributes = false;
    let mut attrs: Vec<SmartAttribute> = Vec::new();
    let n = ls.len();
    assert(lv.take(0) == Seq::<Seq<char>>::empty());
    assert(attributes_of(disk.smart_attributes@) == Seq::<AttributeView>::empty());
    assert(strings_of(disk.notes@) == Seq::<Seq<char>>::empty());
    for i in 0..n
        invariant
            n == ls@.len(),
            lv == seqs_of(ls@),
            lv == lines(text@),
            disk.smart_attributes@.len() == 0,
            smart_scan(dev@, lv.take(i as int)) == (SmartScan {
                disk: disk@,
                in_attributes: in_attributes,
                attrs: attributes_of(attrs@),
            }),
    {
        assert(lv.take(i + 1).drop_last() == lv.take(i as int));
        assert(lv.take(i + 1).last() == ls@[i as int]@);
        let t = trim_chars(&ls[i]);
        let ghost st0 = smart_scan(dev@, lv.take(i as int));
        smart_header_exec(&mut disk, &t);
        assert(disk@ == smart_header_step(st0.disk, trim(lv[i as int])));
        assert(attributes_of(disk.smart_attributes@).len() == disk.smart_attributes@.len());
        if starts_with_str(&t, "ID#") {
            in_attributes = true;
        } else if in_attributes && starts_with_str(&t, "0x") {
            match attribute_line_exec(&t) {
                Some(a) => {
                    let ghost before = attributes_of(attrs@);
                    let ghost av = a@;
                    attrs.push(a);
                    assert(attributes_of(attrs@) =~= before.push(av));
                },
                None => {},
            }
        }
        assert(smart_scan(dev@, lv.take(i + 1)) == smart_step(st0, trim(lv[i as int])));
    }
    assert(lv.take(n as int) == lv);
    disk.smart_attributes = attrs;
    if disk.smart_health.as_str().is_empty() {
        disk.smart_health = String::from_str("unknown");
    }
    disk
}

/// A device from the scan listing and what `smartctl --all` printed for it, where it ran.
pub struct SmartProbe {
    pub device: String,
    pub output: Option<String>,
}

/// The disks of the probes that ran, in order.
pub open spec fn probes_disks(ps: Seq<SmartProbe>) -> Seq<DiskView>
    decreases ps.len(),
{
    if ps.len() == 0 {
        Seq::empty()
    } else {
        let init = probes_disks(ps.drop_last());
        match ps.last().output {
            Some(o) => init.push(smart_disk(ps.last().device@, o@)),
            None => init,
        }
    }
}

/// The disks of two runs of probes are those of the first, then those of the second.
pub proof fn lemma_probes_disks_append(a: Seq<SmartProbe>, b: Seq<SmartProbe>)
    ensures
        probes_disks(a + b) == probes_disks(a) + probes_disks(b),
    decreases b.len(),
{
    if b.len() == 0 {
        assert(a + b == a);
        assert(probes_disks(a) + probes_disks(b) == probes_disks(a));
    } else {
        lemma_probes_disks_append(a, b.drop_last());
        assert((a + b).drop_last() == a + b.drop_last());
        assert((a + b).last() == b.last());
        assert((probes_disks(a) + probes_disks(b.drop_last())).push(probes_disks(b).last()) == probes_disks(a) + probes_disks(b.drop_last()).push(probes_disks(b).last()));
    }
}

/// A disk as every disk read from a scanned device is: its device under `/dev/`, a health
/// that is never empty, a temperature of 0 or strictly between 0 and 120, no notes, and
/// attributes whose status is `ok`.
pub open spec fn sound_disk(d: DiskView) -> bool {
    &&& starts_with(d.device, "/dev/"@)
    &&& d.smart_health.len() > 0
    &&& (d.temperature == 0 || 0 < d.temperature < 120)
    &&& d.notes.len() == 0
    &&& forall|i: int| 0 <= i < d.smart_attributes.len() ==> #[trigger] d.smart_attributes[i].status == "ok"@
}

proof fn lemma_probes_sound(ps: Seq<SmartProbe>)
    requires
        forall|i: int| 0 <= i < ps.len() ==> starts_with(#[trigger] ps[i].device@, "/dev/"@),
    ensures
        forall|j: int| 0 <= j < probes_disks(ps).len() ==> sound_disk(#[trigger] probes_disks(ps)[j]),
    decreases ps.len(),
{
    if ps.len() > 0 {
        let d = ps.drop_last();
        assert forall|i: int| 0 <= i < d.len() implies starts_with(#[trigger] d[i].device@, "/dev/"@) by {
            assert(d[i] == ps[i]);
        }
        lemma_probes_sound(d);
        let init = probes_disks(d);
        let last = ps[ps.len() - 1];
        assert(starts_with(last.device@, "/dev/"@));
        match last.output {
            Some(o) => {
                lemma_smart_disk(last.device@, o@);
                assert forall|j: int| 0 <= j < probes_disks(ps).len() implies sound_disk(
                    #[trigger] probes_disks(ps)[j],
                ) by {
                    if j < init.len() {
                        assert(probes_disks(ps)[j] == init[j]);
                    } else {
                        assert(probes_disks(ps)[j] == smart_disk(last.device@, o@));
                    }
                }
            },
            None => {},
        }
    }
}

/// Every disk that `collect_storage` gives, where each probe is of a device that a
/// `smartctl --scan` listing named, is sound: its device is under `/dev/`, its health is never
/// empty, its temperature is 0 or strictly between 0 and 120, it has no notes, and every
/// attribute's status is `ok`.
pub proof fn lemma_storage_disks(scan: Seq<char>, ps: Seq<SmartProbe>)
    requires
        forall|i: int|
            0 <= i < ps.len() ==> exists|k: int|
                0 <= k < scan_devices_spec(lines(scan)).len() && #[trigger] ps[i].device@
                    == scan_devices_spec(lines(scan))[k],
    ensures
        forall|j: int| 0 <= j < probes_disks(ps).len() ==> sound_disk(#[trigger] probes_disks(ps)[j]),
{
    lemma_scan_devices(scan);
    assert forall|i: int| 0 <= i < ps.len() implies starts_with(#[trigger] ps[i].device@, "/dev/"@) by {
        let k = choose|k: int|
            0 <= k < scan_devices_spec(lines(scan)).len() && #[trigger] ps[i].device@
                == scan_devices_spec(lines(scan))[k];
        assert(starts_with(scan_devices_spec(lines(scan))[k], "/dev/"@));
    }
    lemma_probes_sound(ps);
}

/// Every disk whose `smartctl --all` ran, described from its output.
pub fn collect_storage(probes: &Vec<SmartProbe>) -> (res: Vec<StorageDevice>)
    ensures
        disks_of(res@) == probes_disks(probes@),
{
    let mut res: Vec<StorageDevice> = Vec::new();
    let n = probes.len();
    assert(probes@.take(0) == Seq::<SmartProbe>::empty());
    for i in 0..n
        invariant
            n == probes@.len(),
            disks_of(res@) == probes_disks(probes@.take(i as int)),
    {
        assert(probes@.take(i + 1).drop_last() == probes@.take(i as int));
        assert(probes@.take(i + 1).last() == probes@[i as int]);
        let p = &probes[i];
        match &p.output {
            Some(o) => {
                let d = parse_smart(p.device.as_str(), o.as_str());
                let ghost before = disks_of(res@);
                let ghost dv = d@;
                res.push(d);
                assert(disks_of(res@) =~= before.push(dv));
            },
            None => {},
        }
    }
    assert(probes@.take(n as int) == probes@);
    res
}

} // verus!
