//! The HTML report.
use vstd::prelude::*;
use crate::text::{replace_all, count_char, lemma_count_append, lemma_count_absent, starts_with, contains, occurs_at, lemma_occurs_in_context, to_chars, chars_eq, contains_ignore_case, contains_ignore_case_str};
use crate::num::{dec, dec_int, push_dec, push_dec_i64};
use crate::clock::{time_text_or_empty, time_text, report_pattern};
use crate::models::{
    SystemReport, MemoryDimm, StorageDevice, NetworkInterface, PciDevice, SensorReading,
    IpmiSensor, SelEntry,
};

verus! {

/// The HTML escape of one character: `&`, `<`, `>` and `"` as entities, others as they are.
pub open spec fn escape_char(c: char) -> Seq<char> {
    if c == '&' {
        "&amp;"@
    } else if c == '<' {
        "&lt;"@
    } else if c == '>' {
        "&gt;"@
    } else if c == '"' {
        "&quot;"@
    } else {
        seq![c]
    }
}

/// `s` with each character escaped.
pub open spec fn escape(s: Seq<char>) -> Seq<char>
    decreases s.len(),
{
    if s.len() == 0 {
        Seq::empty()
    } else {
        escape(s.drop_last()) + escape_char(s.last())
    }
}

/// Text with the entities `&amp;`, `&lt;`, `&gt;` and `&quot;` read back as characters,
/// from the left.
pub open spec fn unescape(s: Seq<char>) -> Seq<char>
    decreases s.len(),
{
    if s.len() == 0 {
        s
    } else if starts_with(s, "&amp;"@) && s.len() >= 5 {
        seq!['&'] + unescape(s.skip(5))
    } else if starts_with(s, "&lt;"@) && s.len() >= 4 {
        seq!['<'] + unescape(s.skip(4))
    } else if starts_with(s, "&gt;"@) && s.len() >= 4 {
        seq!['>'] + unescape(s.skip(4))
    } else if starts_with(s, "&quot;"@) && s.len() >= 6 {
        seq!['"'] + unescape(s.skip(6))
    } else {
        seq![s[0]] + unescape(s.drop_first())
    }
}

proof fn lemma_escape_append(a: Seq<char>, b: Seq<char>)
    ensures
        escape(a + b) == escape(a) + escape(b),
    decreases b.len(),
{
    if b.len() == 0 {
        assert(a + b == a);
        assert(escape(a) + escape(b) == escape(a));
    } else {
        lemma_escape_append(a, b.drop_last());
        assert((a + b).drop_last() == a + b.drop_last());
        assert((a + b).last() == b.last());
        assert(escape(a + b) =~= escape(a) + escape(b));
    }
}

proof fn lemma_unescape_char(c: char, x: Seq<char>)
    ensures
        unescape(escape_char(c) + x) == seq![c] + unescape(x),
{
    reveal_strlit("&amp;");
    reveal_strlit("&lt;");
    reveal_strlit("&gt;");
    reveal_strlit("&quot;");
    let e = escape_char(c) + x;
    if c == '&' {
        assert(e.take(5) == "&amp;"@);
        assert(e.skip(5) == x);
    } else if c == '<' {
        assert(e[1] == 'l');
        assert(!starts_with(e, "&amp;"@)) by {
            if starts_with(e, "&amp;"@) {
                assert(e.take(5)[1] == e[1]);
            }
        }
        assert(e.take(4) == "&lt;"@);
        assert(e.skip(4) == x);
    } else if c == '>' {
        assert(!starts_with(e, "&amp;"@)) by {
            if starts_with(e, "&amp;"@) {
                assert(e.take(5)[1] == e[1]);
            }
        }
        assert(!starts_with(e, "&lt;"@)) by {
            if starts_with(e, "&lt;"@) {
                assert(e.take(4)[1] == e[1]);
            }
        }
        assert(e.take(4) == "&gt;"@);
        assert(e.skip(4) == x);
    } else if c == '"' {
        assert(!starts_with(e, "&amp;"@)) by {
            if starts_with(e, "&amp;"@) {
                assert(e.take(5)[1] == e[1]);
            }
        }
        assert(!starts_with(e, "&lt;"@)) by {
            if starts_with(e, "&lt;"@) {
                assert(e.take(4)[1] == e[1]);
            }
        }
        assert(!starts_with(e, "&gt;"@)) by {
            if starts_with(e, "&gt;"@) {
                assert(e.take(4)[1] == e[1]);
            }
        }
        assert(e.take(6) == "&quot;"@);
        assert(e.skip(6) == x);
    } else {
        assert(e[0] == c);
        assert(!starts_with(e, "&amp;"@)) by {
            if starts_with(e, "&amp;"@) {
                assert(e.take(5)[0] == e[0]);
            }
        }
        assert(!starts_with(e, "&lt;"@)) by {
            if starts_with(e, "&lt;"@) {
                assert(e.take(4)[0] == e[0]);
            }
        }
        assert(!starts_with(e, "&gt;"@)) by {
            if starts_with(e, "&gt;"@) {
                assert(e.take(4)[0] == e[0]);
            }
        }
        assert(!starts_with(e, "&quot;"@)) by {
            if starts_with(e, "&quot;"@) {
                assert(e.take(6)[0] == e[0]);
            }
        }
        assert(e.drop_first() == x);
    }
}

/// Escaping loses nothing: reading the entities back gives the original text.
pub proof fn lemma_escape_round_trip(s: Seq<char>)
    ensures
        unescape(escape(s)) == s,
    decreases s.len(),
{
    if s.len() > 0 {
        let c = s[0];
        let t = s.drop_first();
        assert(s == seq![c] + t);
        lemma_escape_append(seq![c], t);
        assert(seq![c].drop_last() == Seq::<char>::empty());
        assert(seq![c].last() == c);
        assert(seq![c].len() == 1);
        assert(escape(seq![c].drop_last()) == Seq::<char>::empty());
        assert(escape(seq![c]) == escape(seq![c].drop_last()) + escape_char(c));
        assert(escape(seq![c]) =~= escape_char(c));
        lemma_unescape_char(c, escape(t));
        lemma_escape_round_trip(t);
    }
}

/// Whether `c` is still an entity once the first `k` of `&quot;`, `&gt;`, `&lt;`, `&amp;`
/// were read back, in that order.
pub open spec fn escaped_at(c: char, k: int) -> bool {
    ||| (c == '"' && k < 1)
    ||| (c == '>' && k < 2)
    ||| (c == '<' && k < 3)
    ||| (c == '&' && k < 4)
}

/// `s` escaped as it stands once the first `k` entities were read back.
pub open spec fn escape_from(s: Seq<char>, k: int) -> Seq<char>
    decreases s.len(),
{
    if s.len() == 0 {
        s
    } else {
        (if escaped_at(s[0], k) {
            escape_char(s[0])
        } else {
            seq![s[0]]
        }) + escape_from(s.drop_first(), k)
    }
}

/// The entity read back at step `k`.
pub open spec fn entity_at(k: int) -> Seq<char> {
    if k == 0 {
        "&quot;"@
    } else if k == 1 {
        "&gt;"@
    } else if k == 2 {
        "&lt;"@
    } else {
        "&amp;"@
    }
}

/// The character that the entity of step `k` stands for.
pub open spec fn raw_at(k: int) -> char {
    if k == 0 {
        '"'
    } else if k == 1 {
        '>'
    } else if k == 2 {
        '<'
    } else {
        '&'
    }
}

proof fn lemma_replace_plain(u: Seq<char>, t: Seq<char>, pat: Seq<char>, rep: Seq<char>)
    requires
        pat.len() > 0,
        pat[0] == '&',
        forall|i: int| 0 <= i < u.len() ==> u[i] != '&',
    ensures
        replace_all(u + t, pat, rep) == u + replace_all(t, pat, rep),
    decreases u.len(),
{
    if u.len() == 0 {
        assert(u + t == t);
        assert(u + replace_all(t, pat, rep) == replace_all(t, pat, rep));
    } else {
        let s = u + t;
        assert(s[0] == u[0]);
        assert(!starts_with(s, pat)) by {
            if starts_with(s, pat) {
                assert(s.take(pat.len() as int)[0] == s[0]);
            }
        }
        assert(s.drop_first() == u.drop_first() + t);
        lemma_replace_plain(u.drop_first(), t, pat, rep);
        assert(u == seq![u[0]] + u.drop_first());
        assert(replace_all(s, pat, rep) == seq![u[0]] + (u.drop_first() + replace_all(t, pat, rep)));
        assert(seq![u[0]] + (u.drop_first() + replace_all(t, pat, rep)) == u + replace_all(
            t,
            pat,
            rep,
        ));
    }
}

proof fn lemma_replace_step(s: Seq<char>, k: int)
    requires
        0 <= k < 4,
    ensures
        replace_all(escape_from(s, k), entity_at(k), seq![raw_at(k)]) == escape_from(s, k + 1),
    decreases s.len(),
{
    reveal_strlit("&amp;");
    reveal_strlit("&lt;");
    reveal_strlit("&gt;");
    reveal_strlit("&quot;");
    let pat = entity_at(k);
    let rep = seq![raw_at(k)];
    if s.len() > 0 {
        let c = s[0];
        let t = escape_from(s.drop_first(), k);
        lemma_replace_step(s.drop_first(), k);
        let e = escape_from(s, k);
        if escaped_at(c, k) && c == raw_at(k) {
            assert(escape_char(c) == pat);
            assert(e == pat + t);
            assert(e.take(pat.len() as int) == pat);
            assert(e.skip(pat.len() as int) == t);
            assert(!escaped_at(c, k + 1));
        } else if !escaped_at(c, k) {
            assert(c != '&');
            assert(e == seq![c] + t);
            lemma_replace_plain(seq![c], t, pat, rep);
        } else {
            let x = escape_char(c);
            assert(escaped_at(c, k + 1));
            assert(e == x + t);
            assert(x[0] == '&');
            assert(x[1] != pat[1]);
            assert(!starts_with(e, pat)) by {
                if starts_with(e, pat) {
                    assert(e.take(pat.len() as int)[1] == e[1]);
                }
            }
            assert(e.drop_first() == x.drop_first() + t);
            lemma_replace_plain(x.drop_first(), t, pat, rep);
            assert(x == seq![x[0]] + x.drop_first());
            assert(replace_all(e, pat, rep) == seq!['&'] + (x.drop_first() + replace_all(
                t,
                pat,
                rep,
            )));
            assert(replace_all(e, pat, rep) == x + replace_all(t, pat, rep));
        }
    }
}

proof fn lemma_escape_from_ends(s: Seq<char>)
    ensures
        escape_from(s, 0) == escape(s),
        escape_from(s, 4) == s,
    decreases s.len(),
{
    if s.len() > 0 {
        let c = s[0];
        let t = s.drop_first();
        lemma_escape_from_ends(t);
        assert(s == seq![c] + t);
        lemma_escape_append(seq![c], t);
        assert(seq![c].drop_last() == Seq::<char>::empty());
        assert(escape(seq![c]) == escape(seq![c].drop_last()) + escape_char(c));
        assert(escape(seq![c]) =~= escape_char(c));
        assert(escape_from(s, 4) == seq![c] + t);
    }
}

/// Escaping loses nothing by the usual decoding either: replacing `&quot;`, then `&gt;`,
/// then `&lt;`, then `&amp;` by the characters they stand for gives the original text.
pub proof fn lemma_escape_replace_chain(s: Seq<char>)
    ensures
        replace_all(
            replace_all(
                replace_all(replace_all(escape(s), "&quot;"@, "\""@), "&gt;"@, ">"@),
                "&lt;"@,
                "<"@,
            ),
            "&amp;"@,
            "&"@,
        ) == s,
{
    reveal_strlit("\"");
    reveal_strlit(">");
    reveal_strlit("<");
    reveal_strlit("&");
    lemma_escape_from_ends(s);
    lemma_replace_step(s, 0);
    lemma_replace_step(s, 1);
    lemma_replace_step(s, 2);
    lemma_replace_step(s, 3);
    assert("\""@ == seq![raw_at(0)]);
    assert(">"@ == seq![raw_at(1)]);
    assert("<"@ == seq![raw_at(2)]);
    assert("&"@ == seq![raw_at(3)]);
}

/// Escaped text holds no `<`, `>` or `"`: it cannot open a tag or close an attribute.
pub proof fn lemma_escape_no_markup(s: Seq<char>)
    ensures
        forall|i: int|
            0 <= i < escape(s).len() ==> #[trigger] escape(s)[i] != '<' && escape(s)[i] != '>'
                && escape(s)[i] != '"',
    decreases s.len(),
{
    reveal_strlit("&amp;");
    reveal_strlit("&lt;");
    reveal_strlit("&gt;");
    reveal_strlit("&quot;");
    if s.len() > 0 {
        lemma_escape_no_markup(s.drop_last());
        let a = escape(s.drop_last());
        let b = escape_char(s.last());
        assert(escape(s) == a + b);
        assert forall|i: int| 0 <= i < escape(s).len() implies #[trigger] escape(s)[i] != '<'
            && escape(s)[i] != '>' && escape(s)[i] != '"' by {
            if i >= a.len() {
                assert(escape(s)[i] == b[i - a.len()]);
            } else {
                assert(escape(s)[i] == a[i]);
            }
        }
    }
}

fn push_escaped(out: &mut String, s: &str)
    ensures
        final(out)@ == old(out)@ + escape(s@),
{
    let v = to_chars(s);
    let n = v.len();
    assert(v@.take(0) == Seq::<char>::empty());
    for i in 0..n
        invariant
            n == v@.len(),
            v@ == s@,
            out@ == old(out)@ + escape(v@.take(i as int)),
    {
        let c = v[i];
        if c == '&' {
            out.append("&amp;");
        } else if c == '<' {
            out.append("&lt;");
        } else if c == '>' {
            out.append("&gt;");
        } else if c == '"' {
            out.append("&quot;");
        } else {
            out.push(c);
        }
        assert(v@.take(i + 1).drop_last() == v@.take(i as int));
        assert(v@.take(i + 1).last() == c);
        assert(out@ =~= old(out)@ + escape(v@.take(i + 1)));
    }
    assert(v@.take(n as int) == v@);
}

/// `s` with `&`, `<`, `>` and `"` written as HTML entities.
pub fn html_escape(s: &str) -> (res: String)
    ensures
        res@ == escape(s@),
{
    let mut out = String::new();
    push_escaped(&mut out, s);
    assert(out@ =~= escape(s@));
    out
}

/// A table row with a heading cell and a value cell, both escaped.
pub open spec fn row(label: Seq<char>, value: Seq<char>) -> Seq<char> {
    "<tr><th>"@ + escape(label) + "</th><td>"@ + escape(value) + "</td></tr>"@
}

fn push_row(out: &mut String, label: &str, value: &str)
    ensures
        final(out)@ == old(out)@ + row(label@, value@),
{
    out.append("<tr><th>");
    push_escaped(out, label);
    out.append("</th><td>");
    push_escaped(out, value);
    out.append("</td></tr>");
    assert(out@ =~= old(out)@ + row(label@, value@));
}

/// A table row with a heading cell and a value cell, both escaped.
pub fn table_row(label: &str, value: &str) -> (res: String)
    ensures
        res@ == row(label@, value@),
{
    let mut out = String::new();
    push_row(&mut out, label, value);
    assert(out@ =~= row(label@, value@));
    out
}

fn push_row_dec(out: &mut String, label: &str, value: u64)
    ensures
        final(out)@ == old(out)@ + row(label@, dec(value as nat)),
{
    let mut v = String::new();
    push_dec(&mut v, value);
    assert(v@ =~= dec(value as nat));
    push_row(out, label, v.as_str());
}

#[verifier::opaque]
pub open spec fn html_head(r: SystemReport, time: Seq<char>) -> Seq<char> {
    let s = r.system_info;
    "<!DOCTYPE html><html><head><meta charset='utf-8'/><title>Hardware Report</title>"@
        + "<style>"@ + "body{font-family:Arial,Helvetica,sans-serif;margin:40px;color:#222;}"@
        + "h1{border-bottom:2px solid #333;padding-bottom:8px;}"@
        + "h2{color:#444;margin-top:30px;border-bottom:1px solid #ccc;padding-bottom:4px;}"@
        + "table{width:100%;border-collapse:collapse;margin-top:8px;}"@
        + "th,td{padding:8px 12px;text-align:left;border-bottom:1px solid #ddd;}"@
        + "th{background:#f5f5f5;font-weight:600;}"@
        + ".ok{color:green;}.warn{color:orange;}.critical{color:red;}"@
        + ".header-box{background:#2c3e50;color:#fff;padding:20px;border-radius:6px;}"@
        + ".header-box h1{margin:0;color:#fff;border:none;}"@
        + ".meta{color:#bdc3c7;margin-top:6px;}"@ + "</style></head><body>"@
        + "<div class='header-box'>"@ + "<h1>"@ + escape(s.manufacturer@) + " "@ + escape(
        s.product_name@,
    ) + "</h1>"@ + "<div class='meta'>Serial: "@ + escape(s.serial_number@) + " | Scan: "@ + time
        + "</div>"@ + "</div>"@
}

#[verifier::opaque]
pub open spec fn html_bios_cpu(r: SystemReport) -> Seq<char> {
    let b = r.bios;
    let c = r.cpu;
    "<h2>BIOS</h2><table>"@ + row("Vendor"@, b.vendor@) + row("Version"@, b.version@) + row(
        "Date"@,
        b.date@,
    ) + "</table>"@ + "<h2>CPU</h2><table>"@ + row("Model"@, c.model_name@) + row(
        "Sockets"@,
        dec(c.sockets as nat),
    ) + row("Cores"@, dec(c.cores as nat)) + row("Threads"@, dec(c.threads as nat)) + row(
        "Architecture"@,
        c.architecture@,
    ) + "</table>"@
}

pub open spec fn dimm_html(d: MemoryDimm) -> Seq<char> {
    "<tr><td>"@ + escape(d.locator@) + "</td><td>"@ + escape(d.size_human@) + "</td><td>"@ + dec(
        d.speed_mhz as nat,
    ) + " MHz</td><td>"@ + escape(d.memory_type@) + "</td><td>"@ + escape(d.part_number@)
        + "</td><td>"@ + escape(d.serial_number@) + "</td></tr>"@
}

pub open spec fn dimms_html(ds: Seq<MemoryDimm>) -> Seq<char>
    decreases ds.len(),
{
    if ds.len() == 0 {
        Seq::empty()
    } else {
        dimms_html(ds.drop_last()) + dimm_html(ds.last())
    }
}

#[verifier::opaque]
pub open spec fn html_memory(r: SystemReport) -> Seq<char> {
    "<h2>Memory</h2>"@ + "<p><strong>Total:</strong> "@ + r.memory.total_human@ + "</p>"@ + (
    if r.memory.dimms@.len() > 0 {
        "<table><tr><th>Locator</th><th>Size</th><th>Speed</th><th>Type</th><th>Part Number</th><th>Serial</th></tr>"@
            + dimms_html(r.memory.dimms@) + "</table>"@
    } else {
        Seq::empty()
    })
}

/// The class of a disk's health: `ok` where it says `passed` (case aside), else `warn`.
pub open spec fn health_class(h: Seq<char>) -> Seq<char> {
    if contains_ignore_case(h, "passed"@) {
        "ok"@
    } else {
        "warn"@
    }
}

#[verifier::opaque]
pub open spec fn disk_html(d: StorageDevice) -> Seq<char> {
    disk_html_title(d) + disk_html_table(d)
}

pub open spec fn disk_html_title(d: StorageDevice) -> Seq<char> {
    "<h3>"@ + escape(d.device@) + " <span class='"@ + health_class(d.smart_health@) + "'>["@
        + escape(d.smart_health@) + "]</span></h3>"@
}

pub open spec fn disk_html_table(d: StorageDevice) -> Seq<char> {
    "<table>"@ + row("Model"@, d.model@) + row(
        "Serial"@,
        d.serial@,
    ) + row("Firmware"@, d.firmware@) + row("Capacity"@, d.capacity_human@) + row(
        "Temperature"@,
        dec_int(d.temperature as int) + " C"@,
    ) + row("Power On Hours"@, dec(d.power_on_hours as nat)) + row(
        "Power Cycles"@,
        dec(d.power_cycle_count as nat),
    ) + "</table>"@
}

pub open spec fn disks_html(ds: Seq<StorageDevice>) -> Seq<char>
    decreases ds.len(),
{
    if ds.len() == 0 {
        Seq::empty()
    } else {
        disks_html(ds.drop_last()) + disk_html(ds.last())
    }
}

pub open spec fn nic_html(n: NetworkInterface) -> Seq<char> {
    "<tr><td>"@ + escape(n.name@) + "</td><td>"@ + escape(n.mac_address@) + "</td><td>"@ + escape(
        n.driver@,
    ) + "</td><td>"@ + dec(n.speed_mbps as nat) + " Mbps</td><td>"@ + escape(n.duplex@)
        + "</td></tr>"@
}

pub open spec fn nics_html(ns: Seq<NetworkInterface>) -> Seq<char>
    decreases ns.len(),
{
    if ns.len() == 0 {
        Seq::empty()
    } else {
        nics_html(ns.drop_last()) + nic_html(ns.last())
    }
}

pub open spec fn pci_html(d: PciDevice) -> Seq<char> {
    "<tr><td>"@ + escape(d.slot@) + "</td><td>"@ + escape(d.class@) + "</td><td>"@ + escape(
        d.vendor@,
    ) + "</td><td>"@ + escape(d.device@) + "</td><td>"@ + escape(d.kernel_driver@)
        + "</td></tr>"@
}

pub open spec fn pcis_html(ds: Seq<PciDevice>) -> Seq<char>
    decreases ds.len(),
{
    if ds.len() == 0 {
        Seq::empty()
    } else {
        pcis_html(ds.drop_last()) + pci_html(ds.last())
    }
}

pub open spec fn sensor_html(s: SensorReading) -> Seq<char> {
    "<tr><td>"@ + escape(s.name@) + "</td><td>"@ + escape(s.value@) + "</td><td>"@ + escape(s.unit@)
        + "</td><td>"@ + escape(s.status@) + "</td></tr>"@
}

pub open spec fn sensors_html(ss: Seq<SensorReading>) -> Seq<char>
    decreases ss.len(),
{
    if ss.len() == 0 {
        Seq::empty()
    } else {
        sensors_html(ss.drop_last()) + sensor_html(ss.last())
    }
}

pub open spec fn html_devices(r: SystemReport) -> Seq<char> {
    "<h2>Storage</h2>"@ + disks_html(r.storage@) + html_other_devices(r)
}

#[verifier::opaque]
pub open spec fn html_other_devices(r: SystemReport) -> Seq<char> {
    "<h2>Network</h2><table><tr><th>Interface</th><th>MAC</th><th>Driver</th><th>Speed</th><th>Duplex</th></tr>"@
        + nics_html(r.network@) + "</table>"@
        + "<h2>PCI Devices</h2><table><tr><th>Slot</th><th>Class</th><th>Vendor</th><th>Device</th><th>Driver</th></tr>"@
        + pcis_html(r.pci_devices@) + "</table>"@
        + "<h2>Sensors</h2><table><tr><th>Name</th><th>Value</th><th>Unit</th><th>Status</th></tr>"@
        + sensors_html(r.sensors@) + "</table>"@
}

pub open spec fn ipmi_sensor_html(s: IpmiSensor) -> Seq<char> {
    "<tr><td>"@ + escape(s.name@) + "</td><td>"@ + escape(s.value@) + "</td><td>"@ + escape(
        s.status@,
    ) + "</td></tr>"@
}

pub open spec fn ipmi_sensors_html(ss: Seq<IpmiSensor>) -> Seq<char>
    decreases ss.len(),
{
    if ss.len() == 0 {
        Seq::empty()
    } else {
        ipmi_sensors_html(ss.drop_last()) + ipmi_sensor_html(ss.last())
    }
}

/// The class of an event's severity: `critical`, `warn` for `warning`, else `ok`.
pub open spec fn severity_class(s: Seq<char>) -> Seq<char> {
    if s == "critical"@ {
        "critical"@
    } else if s == "warning"@ {
        "warn"@
    } else {
        "ok"@
    }
}

pub open spec fn sel_html(e: SelEntry) -> Seq<char> {
    "<tr><td>"@ + escape(e.id@) + "</td><td>"@ + escape(e.date@) + " "@ + escape(e.time@)
        + "</td><td>"@ + escape(e.sensor@) + "</td><td>"@ + escape(e.event@) + "</td><td class='"@
        + severity_class(e.severity@) + "'>"@ + escape(e.severity@) + "</td></tr>"@
}

pub open spec fn sels_html(es: Seq<SelEntry>) -> Seq<char>
    decreases es.len(),
{
    if es.len() == 0 {
        Seq::empty()
    } else {
        sels_html(es.drop_last()) + sel_html(es.last())
    }
}

#[verifier::opaque]
pub open spec fn html_ipmi(r: SystemReport) -> Seq<char> {
    let i = r.ipmi;
    "<h2>IPMI</h2>"@ + (if i.available {
        html_bmc(r)
    } else {
        "<p>IPMI not available on this system.</p>"@
    }) + "<hr/><p style='color:#888;font-size:12px;'>Generated by Hardware Agent USB</p>"@
        + "</body></html>"@
}

/// The BMC's firmware, sensors and event log, where there is a BMC.
pub open spec fn html_bmc(r: SystemReport) -> Seq<char> {
    let i = r.ipmi;
        "<p><strong>BMC Firmware:</strong> "@ + escape(i.bmc_firmware@) + "</p>"@ + (
        if i.sensors@.len() > 0 {
            "<table><tr><th>Sensor</th><th>Value</th><th>Status</th></tr>"@ + ipmi_sensors_html(
                i.sensors@,
            ) + "</table>"@
        } else {
            Seq::empty()
        }) + (if i.sel_entries@.len() > 0 {
            "<h3>SEL Log</h3><table><tr><th>ID</th><th>Date</th><th>Sensor</th><th>Event</th><th>Severity</th></tr>"@
                + sels_html(i.sel_entries@) + "</table>"@
        } else {
            Seq::empty()
        })
}

/// The HTML report of `r`, whose scan time is written as `time`.
pub open spec fn html_report(r: SystemReport, time: Seq<char>) -> Seq<char> {
    html_head(r, time) + html_bios_cpu(r) + html_memory(r) + html_devices(r) + html_ipmi(r)
}

/// Escaped text holds neither `<` nor `>`.
pub broadcast proof fn lemma_escape_count(s: Seq<char>, c: char)
    requires
        c == '<' || c == '>',
    ensures
        #[trigger] count_char(escape(s), c) == 0,
{
    lemma_escape_no_markup(s);
    lemma_count_absent(escape(s), c);
}

/// A disk's health class holds neither `<` nor `>`.
pub broadcast proof fn lemma_health_class_count(h: Seq<char>, c: char)
    requires
        c == '<' || c == '>',
    ensures
        #[trigger] count_char(health_class(h), c) == 0,
{
    reveal_strlit("ok");
    reveal_strlit("warn");
    lemma_count_absent(health_class(h), c);
}

/// An event's severity class holds neither `<` nor `>`.
pub broadcast proof fn lemma_severity_class_count(e: Seq<char>, c: char)
    requires
        c == '<' || c == '>',
    ensures
        #[trigger] count_char(severity_class(e), c) == 0,
{
    reveal_strlit("ok");
    reveal_strlit("warn");
    reveal_strlit("critical");
    lemma_count_absent(severity_class(e), c);
}

/// Two DIMMs with the same numbers.
pub open spec fn dimm_numbers_match(x: MemoryDimm, y: MemoryDimm) -> bool {
    x.size_kb == y.size_kb && x.speed_mhz == y.speed_mhz
}

/// Two disks with the same numbers.
pub open spec fn disk_numbers_match(x: StorageDevice, y: StorageDevice) -> bool {
    &&& x.power_on_hours == y.power_on_hours
    &&& x.power_cycle_count == y.power_cycle_count
    &&& x.temperature == y.temperature
}

/// Two interfaces with the same speed and kind.
pub open spec fn nic_numbers_match(x: NetworkInterface, y: NetworkInterface) -> bool {
    x.speed_mbps == y.speed_mbps && x.is_virtual == y.is_virtual
}

/// `r1` and `r2` differ at most in the contents of their text fields, the text of the memory
/// total aside (the report writes that one as it stands): every number and flag, and the
/// length of every list of records, is the same.
pub open spec fn differ_only_in_text(r1: SystemReport, r2: SystemReport) -> bool {
    &&& r1.scan_timestamp == r2.scan_timestamp
    &&& r1.cpu.cores == r2.cpu.cores
    &&& r1.cpu.threads == r2.cpu.threads
    &&& r1.cpu.sockets == r2.cpu.sockets
    &&& r1.memory.total_kb == r2.memory.total_kb
    &&& r1.memory.total_human@ == r2.memory.total_human@
    &&& r1.memory.dimms@.len() == r2.memory.dimms@.len()
    &&& forall|i: int|
        0 <= i < r1.memory.dimms@.len() ==> dimm_numbers_match(
            #[trigger] r1.memory.dimms@[i],
            r2.memory.dimms@[i],
        )
    &&& r1.storage@.len() == r2.storage@.len()
    &&& forall|i: int|
        0 <= i < r1.storage@.len() ==> disk_numbers_match(#[trigger] r1.storage@[i], r2.storage@[i])
    &&& r1.network@.len() == r2.network@.len()
    &&& forall|i: int|
        0 <= i < r1.network@.len() ==> nic_numbers_match(#[trigger] r1.network@[i], r2.network@[i])
    &&& r1.pci_devices@.len() == r2.pci_devices@.len()
    &&& r1.sensors@.len() == r2.sensors@.len()
    &&& r1.ipmi.available == r2.ipmi.available
    &&& r1.ipmi.sensors@.len() == r2.ipmi.sensors@.len()
    &&& r1.ipmi.sel_entries@.len() == r2.ipmi.sel_entries@.len()
}

proof fn lemma_dimms_markup(a: Seq<MemoryDimm>, b: Seq<MemoryDimm>, c: char)
    requires
        c == '<' || c == '>',
        a.len() == b.len(),
        forall|i: int| 0 <= i < a.len() ==> dimm_numbers_match(#[trigger] a[i], b[i]),
    ensures
        count_char(dimms_html(a), c) == count_char(dimms_html(b), c),
    decreases a.len(),
{
    broadcast use lemma_count_append, lemma_escape_count;

    if a.len() > 0 {
        let n = a.len() - 1;
        assert forall|i: int| 0 <= i < n implies dimm_numbers_match(
            #[trigger] a.drop_last()[i],
            b.drop_last()[i],
        ) by {
            assert(dimm_numbers_match(a[i], b[i]));
        }
        lemma_dimms_markup(a.drop_last(), b.drop_last(), c);
        assert(dimm_numbers_match(a[n], b[n]));
    }
}

proof fn lemma_disks_markup(a: Seq<StorageDevice>, b: Seq<StorageDevice>, c: char)
    requires
        c == '<' || c == '>',
        a.len() == b.len(),
        forall|i: int| 0 <= i < a.len() ==> disk_numbers_match(#[trigger] a[i], b[i]),
    ensures
        count_char(disks_html(a), c) == count_char(disks_html(b), c),
    decreases a.len(),
{
    broadcast use lemma_count_append, lemma_escape_count, lemma_health_class_count;

    if a.len() > 0 {
        let n = a.len() - 1;
        assert forall|i: int| 0 <= i < n implies disk_numbers_match(
            #[trigger] a.drop_last()[i],
            b.drop_last()[i],
        ) by {
            assert(disk_numbers_match(a[i], b[i]));
        }
        lemma_disks_markup(a.drop_last(), b.drop_last(), c);
        let x = a.last();
        let y = b.last();
        assert(disk_numbers_match(a[n], b[n]));
        reveal(disk_html);
        assert(count_char(disk_html(x), c) == count_char(disk_html(y), c));
    }
}

proof fn lemma_nics_markup(a: Seq<NetworkInterface>, b: Seq<NetworkInterface>, c: char)
    requires
        c == '<' || c == '>',
        a.len() == b.len(),
        forall|i: int| 0 <= i < a.len() ==> nic_numbers_match(#[trigger] a[i], b[i]),
    ensures
        count_char(nics_html(a), c) == count_char(nics_html(b), c),
    decreases a.len(),
{
    broadcast use lemma_count_append, lemma_escape_count;

    if a.len() > 0 {
        let n = a.len() - 1;
        assert forall|i: int| 0 <= i < n implies nic_numbers_match(
            #[trigger] a.drop_last()[i],
            b.drop_last()[i],
        ) by {
            assert(nic_numbers_match(a[i], b[i]));
        }
        lemma_nics_markup(a.drop_last(), b.drop_last(), c);
        assert(nic_numbers_match(a[n], b[n]));
    }
}

proof fn lemma_pcis_markup(a: Seq<PciDevice>, b: Seq<PciDevice>, c: char)
    requires
        c == '<' || c == '>',
        a.len() == b.len(),
    ensures
        count_char(pcis_html(a), c) == count_char(pcis_html(b), c),
    decreases a.len(),
{
    broadcast use lemma_count_append, lemma_escape_count;

    if a.len() > 0 {
        lemma_pcis_markup(a.drop_last(), b.drop_last(), c);
    }
}

proof fn lemma_sensors_markup(a: Seq<SensorReading>, b: Seq<SensorReading>, c: char)
    requires
        c == '<' || c == '>',
        a.len() == b.len(),
    ensures
        count_char(sensors_html(a), c) == count_char(sensors_html(b), c),
    decreases a.len(),
{
    broadcast use lemma_count_append, lemma_escape_count;

    if a.len() > 0 {
        lemma_sensors_markup(a.drop_last(), b.drop_last(), c);
    }
}

proof fn lemma_ipmi_sensors_markup(a: Seq<IpmiSensor>, b: Seq<IpmiSensor>, c: char)
    requires
        c == '<' || c == '>',
        a.len() == b.len(),
    ensures
        count_char(ipmi_sensors_html(a), c) == count_char(ipmi_sensors_html(b), c),
    decreases a.len(),
{
    broadcast use lemma_count_append, lemma_escape_count;

    if a.len() > 0 {
        lemma_ipmi_sensors_markup(a.drop_last(), b.drop_last(), c);
    }
}

proof fn lemma_sels_markup(a: Seq<SelEntry>, b: Seq<SelEntry>, c: char)
    requires
        c == '<' || c == '>',
        a.len() == b.len(),
    ensures
        count_char(sels_html(a), c) == count_char(sels_html(b), c),
    decreases a.len(),
{
    broadcast use lemma_count_append, lemma_escape_count, lemma_severity_class_count;

    if a.len() > 0 {
        lemma_sels_markup(a.drop_last(), b.drop_last(), c);
    }
}

proof fn lemma_head_markup(r1: SystemReport, r2: SystemReport, time: Seq<char>, c: char)
    requires
        c == '<' || c == '>',
    ensures
        count_char(html_head(r1, time), c) == count_char(html_head(r2, time), c),
{
    broadcast use lemma_count_append, lemma_escape_count;

    reveal(html_head);
}

proof fn lemma_bios_cpu_markup(r1: SystemReport, r2: SystemReport, c: char)
    requires
        c == '<' || c == '>',
        differ_only_in_text(r1, r2),
    ensures
        count_char(html_bios_cpu(r1), c) == count_char(html_bios_cpu(r2), c),
{
    broadcast use lemma_count_append, lemma_escape_count;

    reveal(html_bios_cpu);
}

proof fn lemma_memory_markup(r1: SystemReport, r2: SystemReport, c: char)
    requires
        c == '<' || c == '>',
        differ_only_in_text(r1, r2),
    ensures
        count_char(html_memory(r1), c) == count_char(html_memory(r2), c),
{
    broadcast use lemma_count_append;

    reveal(html_memory);
    lemma_dimms_markup(r1.memory.dimms@, r2.memory.dimms@, c);
}

proof fn lemma_devices_markup(r1: SystemReport, r2: SystemReport, c: char)
    requires
        c == '<' || c == '>',
        differ_only_in_text(r1, r2),
    ensures
        count_char(html_devices(r1), c) == count_char(html_devices(r2), c),
{
    broadcast use lemma_count_append;

    lemma_disks_markup(r1.storage@, r2.storage@, c);
    lemma_other_devices_markup(r1, r2, c);
}

proof fn lemma_other_devices_markup(r1: SystemReport, r2: SystemReport, c: char)
    requires
        c == '<' || c == '>',
        differ_only_in_text(r1, r2),
    ensures
        count_char(html_other_devices(r1), c) == count_char(html_other_devices(r2), c),
{
    broadcast use lemma_count_append;

    reveal(html_other_devices);
    lemma_nics_markup(r1.network@, r2.network@, c);
    lemma_pcis_markup(r1.pci_devices@, r2.pci_devices@, c);
    lemma_sensors_markup(r1.sensors@, r2.sensors@, c);
}

proof fn lemma_ipmi_markup(r1: SystemReport, r2: SystemReport, c: char)
    requires
        c == '<' || c == '>',
        differ_only_in_text(r1, r2),
    ensures
        count_char(html_ipmi(r1), c) == count_char(html_ipmi(r2), c),
{
    broadcast use lemma_count_append, lemma_escape_count;

    reveal(html_ipmi);
    lemma_ipmi_sensors_markup(r1.ipmi.sensors@, r2.ipmi.sensors@, c);
    lemma_sels_markup(r1.ipmi.sel_entries@, r2.ipmi.sel_entries@, c);
}

proof fn lemma_report_markup(r1: SystemReport, r2: SystemReport, time: Seq<char>, c: char)
    requires
        c == '<' || c == '>',
        differ_only_in_text(r1, r2),
    ensures
        count_char(html_report(r1, time), c) == count_char(html_report(r2, time), c),
{
    broadcast use lemma_count_append;

    lemma_head_markup(r1, r2, time, c);
    lemma_bios_cpu_markup(r1, r2, c);
    lemma_memory_markup(r1, r2, c);
    lemma_devices_markup(r1, r2, c);
    lemma_ipmi_markup(r1, r2, c);
}

/// Report data never adds or removes markup: two reports whose data differ only in the
/// contents of their text fields hold as many `<` and as many `>` as each other.
pub proof fn lemma_html_markup_fixed(r1: SystemReport, r2: SystemReport, time: Seq<char>)
    requires
        differ_only_in_text(r1, r2),
    ensures
        count_char(html_report(r1, time), '<') == count_char(html_report(r2, time), '<'),
        count_char(html_report(r1, time), '>') == count_char(html_report(r2, time), '>'),
{
    lemma_report_markup(r1, r2, time, '<');
    lemma_report_markup(r1, r2, time, '>');
}

proof fn lemma_disks_html_has(ds: Seq<StorageDevice>, i: int)
    requires
        0 <= i < ds.len(),
    ensures
        exists|k: int| occurs_at(disks_html(ds), disk_html(ds[i]), k),
    decreases ds.len(),
{
    let init = disks_html(ds.drop_last());
    let last = disk_html(ds.last());
    if i == ds.len() - 1 {
        assert(last.subrange(0, last.len() as int) =~= last);
        lemma_occurs_in_context(init, last, Seq::empty(), last, 0);
        assert(init + last + Seq::<char>::empty() =~= disks_html(ds));
        assert(occurs_at(disks_html(ds), disk_html(ds[i]), init.len() as int));
    } else {
        lemma_disks_html_has(ds.drop_last(), i);
        assert(ds.drop_last()[i] == ds[i]);
        let k = choose|k: int| occurs_at(init, disk_html(ds[i]), k);
        lemma_occurs_in_context(Seq::empty(), init, last, disk_html(ds[i]), k);
        assert(Seq::<char>::empty() + init + last =~= disks_html(ds));
        assert(occurs_at(disks_html(ds), disk_html(ds[i]), k));
    }
}

/// The HTML report lists every disk of the scan.
pub proof fn lemma_html_lists_every_disk(r: SystemReport, time: Seq<char>, i: int)
    requires
        0 <= i < r.storage@.len(),
    ensures
        contains(html_report(r, time), disk_html(r.storage@[i])),
{
    lemma_disks_html_has(r.storage@, i);
    let p = disk_html(r.storage@[i]);
    let k = choose|k: int| occurs_at(disks_html(r.storage@), p, k);
    let a = html_head(r, time) + html_bios_cpu(r) + html_memory(r) + "<h2>Storage</h2>"@;
    let b = html_other_devices(r) + html_ipmi(r);
    lemma_occurs_in_context(a, disks_html(r.storage@), b, p, k);
    assert(a + disks_html(r.storage@) + b =~= html_report(r, time));
    assert(occurs_at(html_report(r, time), p, a.len() + k));
}

fn write_head(out: &mut String, r: &SystemReport, time: &str)
    ensures
        final(out)@ == old(out)@ + html_head(*r, time@),
{
    let s = &r.system_info;
    out.append("<!DOCTYPE html><html><head><meta charset='utf-8'/><title>Hardware Report</title>");
    out.append("<style>");
    out.append("body{font-family:Arial,Helvetica,sans-serif;margin:40px;color:#222;}");
    out.append("h1{border-bottom:2px solid #333;padding-bottom:8px;}");
    out.append("h2{color:#444;margin-top:30px;border-bottom:1px solid #ccc;padding-bottom:4px;}");
    out.append("table{width:100%;border-collapse:collapse;margin-top:8px;}");
    out.append("th,td{padding:8px 12px;text-align:left;border-bottom:1px solid #ddd;}");
    out.append("th{background:#f5f5f5;font-weight:600;}");
    out.append(".ok{color:green;}.warn{color:orange;}.critical{color:red;}");
    out.append(".header-box{background:#2c3e50;color:#fff;padding:20px;border-radius:6px;}");
    out.append(".header-box h1{margin:0;color:#fff;border:none;}");
    out.append(".meta{color:#bdc3c7;margin-top:6px;}");
    out.append("</style></head><body>");
    out.append("<div class='header-box'>");
    out.append("<h1>");
    push_escaped(out, s.manufacturer.as_str());
    out.append(" ");
    push_escaped(out, s.product_name.as_str());
    out.append("</h1>");
    out.append("<div class='meta'>Serial: ");
    push_escaped(out, s.serial_number.as_str());
    out.append(" | Scan: ");
    out.append(time);
    out.append("</div>");
    out.append("</div>");
    reveal(html_head);
    assert(out@ =~= old(out)@ + html_head(*r, time@));
}

#[verifier::rlimit(30)]
fn write_bios_cpu(out: &mut String, r: &SystemReport)
    ensures
        final(out)@ == old(out)@ + html_bios_cpu(*r),
{
    let b = &r.bios;
    let c = &r.cpu;
    out.append("<h2>BIOS</h2><table>");
    push_row(out, "Vendor", b.vendor.as_str());
    push_row(out, "Version", b.version.as_str());
    push_row(out, "Date", b.date.as_str());
    out.append("</table>");
    out.append("<h2>CPU</h2><table>");
    push_row(out, "Model", c.model_name.as_str());
    push_row_dec(out, "Sockets", c.sockets as u64);
    push_row_dec(out, "Cores", c.cores as u64);
    push_row_dec(out, "Threads", c.threads as u64);
    push_row(out, "Architecture", c.architecture.as_str());
    out.append("</table>");
    reveal(html_bios_cpu);
    assert(out@ =~= old(out)@ + html_bios_cpu(*r));
}

fn push_dimm(out: &mut String, d: &MemoryDimm)
    ensures
        final(out)@ == old(out)@ + dimm_html(*d),
{
    out.append("<tr><td>");
    push_escaped(out, d.locator.as_str());
    out.append("</td><td>");
    push_escaped(out, d.size_human.as_str());
    out.append("</td><td>");
    push_dec(out, d.speed_mhz as u64);
    out.append(" MHz</td><td>");
    push_escaped(out, d.memory_type.as_str());
    out.append("</td><td>");
    push_escaped(out, d.part_number.as_str());
    out.append("</td><td>");
    push_escaped(out, d.serial_number.as_str());
    out.append("</td></tr>");
    assert(out@ =~= old(out)@ + dimm_html(*d));
}

fn push_dimms(out: &mut String, ds: &Vec<MemoryDimm>)
    ensures
        final(out)@ == old(out)@ + dimms_html(ds@),
{
    let n = ds.len();
    assert(ds@.take(0) == Seq::<MemoryDimm>::empty());
    for i in 0..n
        invariant
            n == ds@.len(),
            out@ == old(out)@ + dimms_html(ds@.take(i as int)),
    {
        push_dimm(out, &ds[i]);
        assert(ds@.take(i + 1).drop_last() == ds@.take(i as int));
        assert(ds@.take(i + 1).last() == ds@[i as int]);
        assert(out@ =~= old(out)@ + dimms_html(ds@.take(i + 1)));
    }
    assert(ds@.take(n as int) == ds@);
}

fn write_memory(out: &mut String, r: &SystemReport)
    ensures
        final(out)@ == old(out)@ + html_memory(*r),
{
    out.append("<h2>Memory</h2>");
    out.append("<p><strong>Total:</strong> ");
    out.append(r.memory.total_human.as_str());
    out.append("</p>");
    if r.memory.dimms.len() > 0 {
        out.append(
            "<table><tr><th>Locator</th><th>Size</th><th>Speed</th><th>Type</th><th>Part Number</th><th>Serial</th></tr>",
        );
        push_dimms(out, &r.memory.dimms);
        out.append("</table>");
    }
    reveal(html_memory);
    assert(out@ =~= old(out)@ + html_memory(*r));
}

fn push_disk(out: &mut String, d: &StorageDevice)
    ensures
        final(out)@ == old(out)@ + disk_html(*d),
{
    push_disk_title(out, d);
    push_disk_table(out, d);
    reveal(disk_html);
    assert(out@ =~= old(out)@ + disk_html(*d));
}

fn push_disk_title(out: &mut String, d: &StorageDevice)
    ensures
        final(out)@ == old(out)@ + disk_html_title(*d),
{
    out.append("<h3>");
    push_escaped(out, d.device.as_str());
    out.append(" <span class='");
    if contains_ignore_case_str(&to_chars(d.smart_health.as_str()), "passed") {
        out.append("ok");
    } else {
        out.append("warn");
    }
    out.append("'>[");
    push_escaped(out, d.smart_health.as_str());
    out.append("]</span></h3>");
    assert(out@ =~= old(out)@ + disk_html_title(*d));
}

fn push_disk_table(out: &mut String, d: &StorageDevice)
    ensures
        final(out)@ == old(out)@ + disk_html_table(*d),
{
    out.append("<table>");
    push_row(out, "Model", d.model.as_str());
    push_row(out, "Serial", d.serial.as_str());
    push_row(out, "Firmware", d.firmware.as_str());
    push_row(out, "Capacity", d.capacity_human.as_str());
    let mut t = String::new();
    push_dec_i64(&mut t, d.temperature as i64);
    t.append(" C");
    assert(t@ =~= dec_int(d.temperature as int) + " C"@);
    push_row(out, "Temperature", t.as_str());
    push_row_dec(out, "Power On Hours", d.power_on_hours);
    push_row_dec(out, "Power Cycles", d.power_cycle_count);
    out.append("</table>");
    assert(out@ =~= old(out)@ + disk_html_table(*d));
}

fn push_disks(out: &mut String, ds: &Vec<StorageDevice>)
    ensures
        final(out)@ == old(out)@ + disks_html(ds@),
{
    let n = ds.len();
    assert(ds@.take(0) == Seq::<StorageDevice>::empty());
    for i in 0..n
        invariant
            n == ds@.len(),
            out@ == old(out)@ + disks_html(ds@.take(i as int)),
    {
        push_disk(out, &ds[i]);
        assert(ds@.take(i + 1).drop_last() == ds@.take(i as int));
        assert(ds@.take(i + 1).last() == ds@[i as int]);
        assert(out@ =~= old(out)@ + disks_html(ds@.take(i + 1)));
    }
    assert(ds@.take(n as int) == ds@);
}

fn push_nic(out: &mut String, x: &NetworkInterface)
    ensures
        final(out)@ == old(out)@ + nic_html(*x),
{
    out.append("<tr><td>");
    push_escaped(out, x.name.as_str());
    out.append("</td><td>");
    push_escaped(out, x.mac_address.as_str());
    out.append("</td><td>");
    push_escaped(out, x.driver.as_str());
    out.append("</td><td>");
    push_dec(out, x.speed_mbps);
    out.append(" Mbps</td><td>");
    push_escaped(out, x.duplex.as_str());
    out.append("</td></tr>");
    assert(out@ =~= old(out)@ + nic_html(*x));
}

fn push_nics(out: &mut String, ns: &Vec<NetworkInterface>)
    ensures
        final(out)@ == old(out)@ + nics_html(ns@),
{
    let n = ns.len();
    assert(ns@.take(0) == Seq::<NetworkInterface>::empty());
    for i in 0..n
        invariant
            n == ns@.len(),
            out@ == old(out)@ + nics_html(ns@.take(i as int)),
    {
        push_nic(out, &ns[i]);
        assert(ns@.take(i + 1).drop_last() == ns@.take(i as int));
        assert(ns@.take(i + 1).last() == ns@[i as int]);
        assert(out@ =~= old(out)@ + nics_html(ns@.take(i + 1)));
    }
    assert(ns@.take(n as int) == ns@);
}

fn push_pci(out: &mut String, x: &PciDevice)
    ensures
        final(out)@ == old(out)@ + pci_html(*x),
{
    out.append("<tr><td>");
    push_escaped(out, x.slot.as_str());
    out.append("</td><td>");
    push_escaped(out, x.class.as_str());
    out.append("</td><td>");
    push_escaped(out, x.vendor.as_str());
    out.append("</td><td>");
    push_escaped(out, x.device.as_str());
    out.append("</td><td>");
    push_escaped(out, x.kernel_driver.as_str());
    out.append("</td></tr>");
    assert(out@ =~= old(out)@ + pci_html(*x));
}

fn push_pcis(out: &mut String, ps: &Vec<PciDevice>)
    ensures
        final(out)@ == old(out)@ + pcis_html(ps@),
{
    let n = ps.len();
    assert(ps@.take(0) == Seq::<PciDevice>::empty());
    for i in 0..n
        invariant
            n == ps@.len(),
            out@ == old(out)@ + pcis_html(ps@.take(i as int)),
    {
        push_pci(out, &ps[i]);
        assert(ps@.take(i + 1).drop_last() == ps@.take(i as int));
        assert(ps@.take(i + 1).last() == ps@[i as int]);
        assert(out@ =~= old(out)@ + pcis_html(ps@.take(i + 1)));
    }
    assert(ps@.take(n as int) == ps@);
}

fn push_sensor(out: &mut String, x: &SensorReading)
    ensures
        final(out)@ == old(out)@ + sensor_html(*x),
{
    out.append("<tr><td>");
    push_escaped(out, x.name.as_str());
    out.append("</td><td>");
    push_escaped(out, x.value.as_str());
    out.append("</td><td>");
    push_escaped(out, x.unit.as_str());
    out.append("</td><td>");
    push_escaped(out, x.status.as_str());
    out.append("</td></tr>");
    assert(out@ =~= old(out)@ + sensor_html(*x));
}

fn push_sensors(out: &mut String, ss: &Vec<SensorReading>)
    ensures
        final(out)@ == old(out)@ + sensors_html(ss@),
{
    let n = ss.len();
    assert(ss@.take(0) == Seq::<SensorReading>::empty());
    for i in 0..n
        invariant
            n == ss@.len(),
            out@ == old(out)@ + sensors_html(ss@.take(i as int)),
    {
        push_sensor(out, &ss[i]);
        assert(ss@.take(i + 1).drop_last() == ss@.take(i as int));
        assert(ss@.take(i + 1).last() == ss@[i as int]);
        assert(out@ =~= old(out)@ + sensors_html(ss@.take(i + 1)));
    }
    assert(ss@.take(n as int) == ss@);
}

fn write_devices(out: &mut String, r: &SystemReport)
    ensures
        final(out)@ == old(out)@ + html_devices(*r),
{
    out.append("<h2>Storage</h2>");
    push_disks(out, &r.storage);
    out.append(
        "<h2>Network</h2><table><tr><th>Interface</th><th>MAC</th><th>Driver</th><th>Speed</th><th>Duplex</th></tr>",
    );
    push_nics(out, &r.network);
    out.append("</table>");
    out.append(
        "<h2>PCI Devices</h2><table><tr><th>Slot</th><th>Class</th><th>Vendor</th><th>Device</th><th>Driver</th></tr>",
    );
    push_pcis(out, &r.pci_devices);
    out.append("</table>");
    out.append(
        "<h2>Sensors</h2><table><tr><th>Name</th><th>Value</th><th>Unit</th><th>Status</th></tr>",
    );
    push_sensors(out, &r.sensors);
    out.append("</table>");
    reveal(html_other_devices);
    assert(out@ =~= old(out)@ + html_devices(*r));
}

fn push_ipmi_sensor(out: &mut String, x: &IpmiSensor)
    ensures
        final(out)@ == old(out)@ + ipmi_sensor_html(*x),
{
    out.append("<tr><td>");
    push_escaped(out, x.name.as_str());
    out.append("</td><td>");
    push_escaped(out, x.value.as_str());
    out.append("</td><td>");
    push_escaped(out, x.status.as_str());
    out.append("</td></tr>");
    assert(out@ =~= old(out)@ + ipmi_sensor_html(*x));
}

fn push_ipmi_sensors(out: &mut String, ss: &Vec<IpmiSensor>)
    ensures
        final(out)@ == old(out)@ + ipmi_sensors_html(ss@),
{
    let n = ss.len();
    assert(ss@.take(0) == Seq::<IpmiSensor>::empty());
    for i in 0..n
        invariant
            n == ss@.len(),
            out@ == old(out)@ + ipmi_sensors_html(ss@.take(i as int)),
    {
        push_ipmi_sensor(out, &ss[i]);
        assert(ss@.take(i + 1).drop_last() == ss@.take(i as int));
        assert(ss@.take(i + 1).last() == ss@[i as int]);
        assert(out@ =~= old(out)@ + ipmi_sensors_html(ss@.take(i + 1)));
    }
    assert(ss@.take(n as int) == ss@);
}

fn push_severity_class(out: &mut String, sev: &str)
    ensures
        final(out)@ == old(out)@ + severity_class(sev@),
{
    let v = to_chars(sev);
    if chars_eq(&v, &to_chars("critical")) {
        out.append("critical");
    } else if chars_eq(&v, &to_chars("warning")) {
        out.append("warn");
    } else {
        out.append("ok");
    }
}

fn push_sel(out: &mut String, x: &SelEntry)
    ensures
        final(out)@ == old(out)@ + sel_html(*x),
{
    out.append("<tr><td>");
    push_escaped(out, x.id.as_str());
    out.append("</td><td>");
    push_escaped(out, x.date.as_str());
    out.append(" ");
    push_escaped(out, x.time.as_str());
    out.append("</td><td>");
    push_escaped(out, x.sensor.as_str());
    out.append("</td><td>");
    push_escaped(out, x.event.as_str());
    out.append("</td><td class='");
    push_severity_class(out, x.severity.as_str());
    out.append("'>");
    push_escaped(out, x.severity.as_str());
    out.append("</td></tr>");
    assert(out@ =~= old(out)@ + sel_html(*x));
}

fn push_sels(out: &mut String, es: &Vec<SelEntry>)
    ensures
        final(out)@ == old(out)@ + sels_html(es@),
{
    let n = es.len();
    assert(es@.take(0) == Seq::<SelEntry>::empty());
    for i in 0..n
        invariant
            n == es@.len(),
            out@ == old(out)@ + sels_html(es@.take(i as int)),
    {
        push_sel(out, &es[i]);
        assert(es@.take(i + 1).drop_last() == es@.take(i as int));
        assert(es@.take(i + 1).last() == es@[i as int]);
        assert(out@ =~= old(out)@ + sels_html(es@.take(i + 1)));
    }
    assert(es@.take(n as int) == es@);
}

fn write_ipmi(out: &mut String, r: &SystemReport)
    ensures
        final(out)@ == old(out)@ + html_ipmi(*r),
{
    let i = &r.ipmi;
    out.append("<h2>IPMI</h2>");
    if i.available {
        write_bmc(out, r);
    } else {
        out.append("<p>IPMI not available on this system.</p>");
    }
    out.append("<hr/><p style='color:#888;font-size:12px;'>Generated by Hardware Agent USB</p>");
    out.append("</body></html>");
    reveal(html_ipmi);
    assert(out@ =~= old(out)@ + html_ipmi(*r));
}

fn write_bmc(out: &mut String, r: &SystemReport)
    ensures
        final(out)@ == old(out)@ + html_bmc(*r),
{
    let i = &r.ipmi;
    {
        out.append("<p><strong>BMC Firmware:</strong> ");
        push_escaped(out, i.bmc_firmware.as_str());
        out.append("</p>");
        if i.sensors.len() > 0 {
            out.append("<table><tr><th>Sensor</th><th>Value</th><th>Status</th></tr>");
            push_ipmi_sensors(out, &i.sensors);
            out.append("</table>");
        }
        if i.sel_entries.len() > 0 {
            out.append(
                "<h3>SEL Log</h3><table><tr><th>ID</th><th>Date</th><th>Sensor</th><th>Event</th><th>Severity</th></tr>",
            );
            push_sels(out, &i.sel_entries);
            out.append("</table>");
        }
    }
    assert(out@ =~= old(out)@ + html_bmc(*r));
}

/// The HTML report of `r`, with its scan time already written as `time`.
pub fn render_html(r: &SystemReport, time: &str) -> (res: String)
    ensures
        res@ == html_report(*r, time@),
{
    let mut out = String::new();
    write_head(&mut out, r, time);
    write_bios_cpu(&mut out, r);
    write_memory(&mut out, r);
    write_devices(&mut out, r);
    write_ipmi(&mut out, r);
    assert(out@ =~= html_report(*r, time@));
    out
}

/// The HTML report of `r`, its scan time written as `%Y-%m-%d %H:%M:%S UTC`.
pub fn generate_html(r: &SystemReport) -> (res: String)
    ensures
        res@ == html_report(
            *r,
            time_text_or_empty(r.scan_timestamp as int, "%Y-%m-%d %H:%M:%S UTC"@),
        ),
{
    let t = time_text(r.scan_timestamp, report_pattern());
    render_html(r, t.as_str())
}

} // verus!
