//! Where the reports go and what they are called.
use vstd::prelude::*;
use crate::text::{seqs_of, lines, words, starts_with, to_chars, from_chars, lines_chars, words_chars, starts_with_str};
use crate::num::{dec, push_dec};
use crate::clock::{time_text_or_empty, time_text, report_pattern, file_pattern};

verus! {

/// The serial number that names the report files: the system's, or `unknown` where it is empty.
pub open spec fn serial_label(serial: Seq<char>) -> Seq<char> {
    if serial.len() == 0 {
        "unknown"@
    } else {
        serial
    }
}

pub fn report_serial(serial: &str) -> (res: String)
    ensures
        res@ == serial_label(serial@),
{
    if serial.is_empty() {
        String::from_str("unknown")
    } else {
        String::from_str(serial)
    }
}

/// `Report_Server_<serial>_<stamp>`.
pub open spec fn base_name_spec(serial: Seq<char>, stamp: Seq<char>) -> Seq<char> {
    "Report_Server_"@ + serial_label(serial) + "_"@ + stamp
}

/// The base name of the report files, from the system's serial number and a time stamp.
pub fn base_name_from(serial: &str, stamp: &str) -> (res: String)
    ensures
        res@ == base_name_spec(serial@, stamp@),
{
    let mut s = String::from_str("Report_Server_");
    let label = report_serial(serial);
    s.append(label.as_str());
    s.append("_");
    s.append(stamp);
    s
}

/// The base name of the report files for a scan at `now` (seconds since the Unix epoch).
pub fn report_base_name(serial: &str, now: i64) -> (res: String)
    ensures
        res@ == base_name_spec(serial@, time_text_or_empty(now as int, "%Y-%m-%d_%H-%M-%S"@)),
{
    let stamp = time_text(now, file_pattern());
    base_name_from(serial, stamp.as_str())
}

/// `base` with the extension `ext` (without its dot).
pub fn file_name(base: &str, ext: &str) -> (res: String)
    ensures
        res@ == base@ + "."@ + ext@,
{
    let mut s = String::from_str(base);
    s.append(".");
    s.append(ext);
    s
}

/// The text of the completion note.
pub open spec fn completion_spec(
    time: Seq<char>,
    serial: Seq<char>,
    disks: nat,
    sensors: nat,
    txt_name: Seq<char>,
    pdf_name: Seq<char>,
) -> Seq<char> {
    "SCAN COMPLETATO\nTimestamp: "@ + time + "\nSerial: "@ + serial + "\nDischi rilevati: "@ + dec(
        disks,
    ) + "\nSensori rilevati: "@ + dec(sensors) + "\nFile generati:\n  - "@ + txt_name
        + "\n  - "@ + pdf_name + "\n"@
}

/// The completion note from its parts, the time already written.
pub fn completion_from(
    time: &str,
    serial: &str,
    disks: u64,
    sensors: u64,
    txt_name: &str,
    pdf_name: &str,
) -> (res: String)
    ensures
        res@ == completion_spec(time@, serial@, disks as nat, sensors as nat, txt_name@, pdf_name@),
{
    let mut s = String::from_str("SCAN COMPLETATO\nTimestamp: ");
    s.append(time);
    s.append("\nSerial: ");
    s.append(serial);
    s.append("\nDischi rilevati: ");
    push_dec(&mut s, disks);
    s.append("\nSensori rilevati: ");
    push_dec(&mut s, sensors);
    s.append("\nFile generati:\n  - ");
    s.append(txt_name);
    s.append("\n  - ");
    s.append(pdf_name);
    s.append("\n");
    s
}

/// The completion note for a scan finished at `now` (seconds since the Unix epoch).
pub fn completion_text(
    now: i64,
    serial: &str,
    disks: u64,
    sensors: u64,
    txt_name: &str,
    pdf_name: &str,
) -> (res: String)
    ensures
        res@ == completion_spec(
            time_text_or_empty(now as int, "%Y-%m-%d %H:%M:%S UTC"@),
            serial@,
            disks as nat,
            sensors as nat,
            txt_name@,
            pdf_name@,
        ),
{
    let t = time_text(now, report_pattern());
    completion_from(t.as_str(), serial, disks, sensors, txt_name, pdf_name)
}

/// The mount points of `/proc/mounts` lines that mount a `/dev/sd*` or `/dev/sr*` device
/// anywhere but under `/boot`: candidates for the USB stick, in order.
pub open spec fn mount_candidates_spec(ls: Seq<Seq<char>>) -> Seq<Seq<char>>
    decreases ls.len(),
{
    if ls.len() == 0 {
        Seq::empty()
    } else {
        let init = mount_candidates_spec(ls.drop_last());
        let p = words(ls.last());
        if p.len() >= 2 && (starts_with(p[0], "/dev/sd"@) || starts_with(p[0], "/dev/sr"@))
            && !starts_with(p[1], "/boot"@) {
            init.push(p[1])
        } else {
            init
        }
    }
}

/// The candidates of two runs of mount lines are those of the first, then those of the second.
pub proof fn lemma_mount_candidates_append(a: Seq<Seq<char>>, b: Seq<Seq<char>>)
    ensures
        mount_candidates_spec(a + b) == mount_candidates_spec(a) + mount_candidates_spec(b),
    decreases b.len(),
{
    if b.len() == 0 {
        assert(a + b == a);
        assert(mount_candidates_spec(a) + mount_candidates_spec(b) == mount_candidates_spec(a));
    } else {
        lemma_mount_candidates_append(a, b.drop_last());
        assert((a + b).drop_last() == a + b.drop_last());
        assert((a + b).last() == b.last());
        assert((mount_candidates_spec(a) + mount_candidates_spec(b.drop_last())).push(mount_candidates_spec(b).last()) == mount_candidates_spec(a) + mount_candidates_spec(b.drop_last()).push(mount_candidates_spec(b).last()));
    }
}

/// The candidate mount points that the contents of `/proc/mounts` name.
pub fn mount_candidates(mounts: &str) -> (res: Vec<String>)
    ensures
        res@.map_values(|s: String| s@) == mount_candidates_spec(lines(mounts@)),
{
    let chars = to_chars(mounts);
    let ls = lines_chars(&chars);
    let ghost lv = seqs_of(ls@);
    let mut res: Vec<String> = Vec::new();
    let n = ls.len();
    assert(lv.take(0) == Seq::<Seq<char>>::empty());
    assert(res@.map_values(|s: String| s@) =~= Seq::<Seq<char>>::empty());
    for i in 0..n
        invariant
            n == ls@.len(),
            lv == seqs_of(ls@),
            lv == lines(mounts@),
            res@.map_values(|s: String| s@) == mount_candidates_spec(lv.take(i as int)),
    {
        assert(lv.take(i + 1).drop_last() == lv.take(i as int));
        assert(lv.take(i + 1).last() == ls@[i as int]@);
        let p = words_chars(&ls[i]);
        if p.len() >= 2 {
            assert(p@[0]@ == seqs_of(p@)[0]);
            assert(p@[1]@ == seqs_of(p@)[1]);
            if (starts_with_str(&p[0], "/dev/sd") || starts_with_str(&p[0], "/dev/sr"))
                && !starts_with_str(&p[1], "/boot") {
                let m = from_chars(&p[1]);
                let ghost before = res@.map_values(|s: String| s@);
                let ghost mv = m@;
                res.push(m);
                assert(res@.map_values(|s: String| s@) =~= before.push(mv));
            }
        }
    }
    assert(lv.take(n as int) == lv);
    res
}

} // verus!
