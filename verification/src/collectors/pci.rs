//! PCI functions, read from what `lspci -nnk` prints, or from sysfs where it printed nothing.
use vstd::prelude::*;
use crate::text::{
    seqs_of, trim, lines, split_on, starts_with, contains, find, rfind_char, second_piece,
    colon_value, to_chars, from_chars, trim_chars, lines_chars, split_chars, starts_with_str,
    find_chars, rfind_char_exec, second_piece_chars, colon_value_exec, slice_chars, lemma_find, occurs_at,
};
use crate::models::{PciDevice, PciView, pci_of, strings_of};

verus! {

/// The text between the last `'['` of `s` and the first `']'` after it.
pub open spec fn bracket_inner(s: Seq<char>) -> Option<Seq<char>> {
    let open = rfind_char(s, '[');
    if open < 0 {
        None
    } else {
        let close = find(s.skip(open), seq![']']);
        if close < 0 {
            None
        } else {
            Some(s.subrange(open + 1, open + close))
        }
    }
}

/// A device line of `lspci -nnk` (trimmed): the slot up to the first space, then
/// `[vendor:device]` from the last bracket.
pub open spec fn pci_header(t: Seq<char>) -> PciView {
    let pos = find(t, seq![' ']);
    if pos < 0 {
        PciView::empty()
    } else {
        let slot = t.take(pos);
        match bracket_inner(t.skip(pos)) {
            Some(ids) => {
                let c = find(ids, seq![':']);
                if c < 0 {
                    PciView { slot: slot, ..PciView::empty() }
                } else {
                    PciView { slot: slot, vendor: ids.take(c), device: ids.skip(c + 1), ..PciView::empty() }
                }
            },
            None => PciView { slot: slot, ..PciView::empty() },
        }
    }
}

/// A line that starts a device: not indented with a tab, and holding a `':'`.
pub open spec fn is_device_line(line: Seq<char>) -> bool {
    !(line.len() > 0 && line[0] == '\t') && contains(line, seq![':'])
}

/// The state of a pass over `lspci -nnk` output.
pub struct PciScan {
    pub devices: Seq<PciView>,
    pub cur: PciView,
}

/// What one line does: a device line closes the current device (kept when it has a slot)
/// and opens another; the indented lines fill in subsystem, driver, modules and class.
pub open spec fn pci_step(st: PciScan, line: Seq<char>) -> PciScan {
    let t = trim(line);
    let c = st.cur;
    if is_device_line(line) {
        PciScan {
            devices: if c.slot.len() > 0 {
                st.devices.push(c)
            } else {
                st.devices
            },
            cur: pci_header(t),
        }
    } else if starts_with(t, "Subsystem:"@) {
        match bracket_inner(t) {
            Some(x) => PciScan { devices: st.devices, cur: PciView { subsystem: x, ..c } },
            None => st,
        }
    } else if starts_with(t, "Kernel driver in use:"@) {
        PciScan { devices: st.devices, cur: PciView { kernel_driver: colon_value(t), ..c } }
    } else if starts_with(t, "Kernel modules:"@) {
        PciScan {
            devices: st.devices,
            cur: PciView {
                kernel_modules: split_on(second_piece(t, ':'), ',').map_values(
                    |m: Seq<char>| trim(m),
                ),
                ..c
            },
        }
    } else if starts_with(t, "Class "@) {
        PciScan { devices: st.devices, cur: PciView { class: colon_value(t), ..c } }
    } else {
        st
    }
}

pub open spec fn pci_scan(ls: Seq<Seq<char>>) -> PciScan
    decreases ls.len(),
{
    if ls.len() == 0 {
        PciScan { devices: Seq::empty(), cur: PciView::empty() }
    } else {
        pci_step(pci_scan(ls.drop_last()), ls.last())
    }
}

/// The devices that lines of `lspci -nnk` output list: each one that got a slot, in order.
pub open spec fn pci_devices_in(ls: Seq<Seq<char>>) -> Seq<PciView> {
    let st = pci_scan(ls);
    if st.cur.slot.len() > 0 {
        st.devices.push(st.cur)
    } else {
        st.devices
    }
}

/// The devices that `lspci -nnk` output lists: each one that got a slot, in order.
pub open spec fn lspci_devices(text: Seq<char>) -> Seq<PciView> {
    pci_devices_in(lines(text))
}

/// A device line's slot is all that comes before its first space.
pub proof fn lemma_pci_slot(slot: Seq<char>, rest: Seq<char>)
    requires
        forall|i: int| 0 <= i < slot.len() ==> slot[i] != ' ',
    ensures
        pci_header(slot + seq![' '] + rest).slot == slot,
{
    let t = slot + seq![' '] + rest;
    lemma_find(t, seq![' ']);
    assert(occurs_at(t, seq![' '], slot.len() as int)) by {
        assert(t.subrange(slot.len() as int, slot.len() + 1int) =~= seq![' ']);
    }
    let k = find(t, seq![' ']);
    assert(k == slot.len()) by {
        if k < slot.len() {
            assert(t.subrange(k, k + 1)[0] == t[k]);
            assert(t[k] == slot[k]);
        }
    }
    assert(t.take(k) =~= slot);
}

proof fn lemma_pci_scan_split(a: Seq<Seq<char>>, b: Seq<Seq<char>>)
    requires
        b.len() >= 1,
        is_device_line(b[0]),
    ensures
        pci_scan(a + b) == (PciScan {
            devices: pci_devices_in(a) + pci_scan(b).devices,
            cur: pci_scan(b).cur,
        }),
    decreases b.len(),
{
    if b.len() == 1 {
        assert((a + b).drop_last() == a);
        assert((a + b).last() == b[0]);
        assert(b.drop_last() == Seq::<Seq<char>>::empty());
        assert(pci_scan(b.drop_last()) == PciScan { devices: Seq::empty(), cur: PciView::empty() });
        assert(b.last() == b[0]);
        assert(pci_scan(b) == pci_step(PciScan { devices: Seq::empty(), cur: PciView::empty() }, b[0]));
        assert(PciView::empty().slot.len() == 0);
        assert(pci_devices_in(a) + Seq::<PciView>::empty() == pci_devices_in(a));
    } else {
        lemma_pci_scan_split(a, b.drop_last());
        assert((a + b).drop_last() == a + b.drop_last());
        assert((a + b).last() == b.last());
        let d = pci_devices_in(a);
        let e = pci_scan(b.drop_last());
        let l = b.last();
        assert(pci_scan(a + b) == pci_step(PciScan { devices: d + e.devices, cur: e.cur }, l));
        assert(pci_scan(b) == pci_step(e, l));
        if is_device_line(l) {
            assert((d + e.devices).push(e.cur) == d + e.devices.push(e.cur));
        }
    }
}

/// Each device of `lspci -nnk` output is read from its own lines alone: the devices of two
/// runs of lines, the second starting with a device line, are those of the first, then those
/// of the second.
pub proof fn lemma_pci_devices_append(a: Seq<Seq<char>>, b: Seq<Seq<char>>)
    requires
        b.len() >= 1,
        is_device_line(b[0]),
    ensures
        pci_devices_in(a + b) == pci_devices_in(a) + pci_devices_in(b),
{
    lemma_pci_scan_split(a, b);
    let d = pci_devices_in(a);
    let st = pci_scan(b);
    assert((d + st.devices).push(st.cur) == d + st.devices.push(st.cur));
}

proof fn lemma_pci_scan(ls: Seq<Seq<char>>)
    ensures
        forall|i: int|
            0 <= i < pci_scan(ls).devices.len() ==> #[trigger] pci_scan(ls).devices[i].slot.len() > 0,
    decreases ls.len(),
{
    if ls.len() > 0 {
        lemma_pci_scan(ls.drop_last());
        let init = pci_scan(ls.drop_last()).devices;
        assert forall|i: int| 0 <= i < pci_scan(ls).devices.len() implies #[trigger] pci_scan(
            ls,
        ).devices[i].slot.len() > 0 by {
            if i < init.len() {
                assert(pci_scan(ls).devices[i] == init[i]);
            }
        }
    }
}

/// Every device that `lspci -nnk` output gives has a slot.
pub proof fn lemma_lspci_slots(text: Seq<char>)
    ensures
        forall|i: int|
            0 <= i < lspci_devices(text).len() ==> #[trigger] lspci_devices(text)[i].slot.len() > 0,
{
    lemma_pci_scan(lines(text));
    let st = pci_scan(lines(text));
    assert forall|i: int| 0 <= i < lspci_devices(text).len() implies #[trigger] lspci_devices(
        text,
    )[i].slot.len() > 0 by {
        if i < st.devices.len() {
            assert(lspci_devices(text)[i] == st.devices[i]);
        }
    }
}

fn bracket_inner_exec(s: &Vec<char>) -> (res: Option<Vec<char>>)
    ensures
        match res {
            Some(x) => bracket_inner(s@) == Some(x@),
            None => bracket_inner(s@) is None,
        },
{
    match rfind_char_exec(s, '[') {
        None => None,
        Some(open) => {
            proof {
                lemma_rfind_bound(s@, '[');
            }
            let after = slice_chars(s, open, s.len());
            assert(after@ == s@.skip(open as int));
            let close_pat = vec![']'];
            assert(close_pat@ == seq![']']);
            match find_chars(&after, &close_pat) {
                None => None,
                Some(close) => {
                    proof {
                        lemma_find(after@, close_pat@);
                    }
                    Some(slice_chars(s, open + 1, open + close))
                },
            }
        },
    }
}

pub proof fn lemma_rfind_bound(s: Seq<char>, c: char)
    ensures
        -1 <= rfind_char(s, c) < s.len(),
        rfind_char(s, c) >= 0 ==> s[rfind_char(s, c)] == c,
    decreases s.len(),
{
    if s.len() > 0 && s.last() != c {
        lemma_rfind_bound(s.drop_last(), c);
    }
}

fn pci_header_exec(t: &Vec<char>) -> (res: PciDevice)
    ensures
        res@ == pci_header(t@),
{
    let mut d = PciDevice::empty();
    let sp = vec![' '];
    assert(sp@ == seq![' ']);
    match find_chars(t, &sp) {
        None => d,
        Some(pos) => {
            proof {
                lemma_find(t@, sp@);
            }
            let slot = slice_chars(t, 0, pos);
            let rest = slice_chars(t, pos, t.len());
            assert(slot@ == t@.take(pos as int));
            assert(rest@ == t@.skip(pos as int));
            d.slot = from_chars(&slot);
            match bracket_inner_exec(&rest) {
                None => d,
                Some(ids) => {
                    let colon = vec![':'];
                    assert(colon@ == seq![':']);
                    match find_chars(&ids, &colon) {
                        None => d,
                        Some(c) => {
                            proof {
                                lemma_find(ids@, colon@);
                                assert(occurs_at(ids@, colon@, c as int));
                            }
                            assert(c + 1 <= ids@.len());
                            d.vendor = from_chars(&slice_chars(&ids, 0, c));
                            d.device = from_chars(&slice_chars(&ids, c + 1, ids.len()));
                            assert(ids@.subrange(0, c as int) == ids@.take(c as int));
                            assert(ids@.subrange(c + 1, ids@.len() as int) == ids@.skip(c + 1));
                            d
                        },
                    }
                },
            }
        },
    }
}

fn modules_exec(t: &Vec<char>) -> (res: Vec<String>)
    ensures
        strings_of(res@) == split_on(second_piece(t@, ':'), ',').map_values(|m: Seq<char>| trim(m)),
{
    let body = second_piece_chars(t, ':');
    let parts = split_chars(&body, ',');
    let ghost pv = seqs_of(parts@);
    let mut res: Vec<String> = Vec::new();
    let n = parts.len();
    for i in 0..n
        invariant
            n == parts@.len(),
            pv == seqs_of(parts@),
            res@.len() == i,
            forall|j: int| 0 <= j < i ==> #[trigger] res@[j]@ == trim(pv[j]),
    {
        res.push(from_chars(&trim_chars(&parts[i])));
    }
    assert(strings_of(res@) =~= pv.map_values(|m: Seq<char>| trim(m)));
    res
}

/// The devices that `lspci -nnk` output lists.
pub fn parse_lspci(text: &str) -> (res: Vec<PciDevice>)
    ensures
        pci_of(res@) == lspci_devices(text@),
{
    let chars = to_chars(text);
    let ls = lines_chars(&chars);
    let ghost lv = seqs_of(ls@);
    let mut devices: Vec<PciDevice> = Vec::new();
    let mut cur = PciDevice::empty();
    let n = ls.len();
    let colon = vec![':'];
    assert(colon@ == seq![':']);
    assert(lv.take(0) == Seq::<Seq<char>>::empty());
    assert(pci_of(devices@) =~= Seq::<PciView>::empty());
    for i in 0..n
        invariant
            n == ls@.len(),
            lv == seqs_of(ls@),
            lv == lines(text@),
            colon@ == seq![':'],
            pci_scan(lv.take(i as int)) == (PciScan { devices: pci_of(devices@), cur: cur@ }),
    {
        assert(lv.take(i + 1).drop_last() == lv.take(i as int));
        assert(lv.take(i + 1).last() == ls@[i as int]@);
        let ghost st0 = pci_scan(lv.take(i as int));
        let line = &ls[i];
        let t = trim_chars(line);
        let tabbed = line.len() > 0 && line[0] == '\t';
        proof {
            lemma_find(line@, colon@);
        }
        let has_colon = find_chars(line, &colon).is_some();
        if !tabbed && has_colon {
            if !cur.slot.as_str().is_empty() {
                let ghost before = pci_of(devices@);
                let ghost cv = cur@;
                devices.push(cur);
                assert(pci_of(devices@) =~= before.push(cv));
            }
            cur = pci_header_exec(&t);
        } else if starts_with_str(&t, "Subsystem:") {
            match bracket_inner_exec(&t) {
                Some(x) => {
                    cur.subsystem = from_chars(&x);
                },
                None => {},
            }
        } else if starts_with_str(&t, "Kernel driver in use:") {
            cur.kernel_driver = colon_value_exec(&t);
        } else if starts_with_str(&t, "Kernel modules:") {
            cur.kernel_modules = modules_exec(&t);
        } else if starts_with_str(&t, "Class ") {
            cur.class = colon_value_exec(&t);
        }
        assert(pci_scan(lv.take(i + 1)) == pci_step(st0, lv[i as int]));
    }
    assert(lv.take(n as int) == lv);
    if !cur.slot.as_str().is_empty() {
        let ghost before = pci_of(devices@);
        let ghost cv = cur@;
        devices.push(cur);
        assert(pci_of(devices@) =~= before.push(cv));
    }
    devices
}

/// What sysfs holds for one PCI function: its directory name and the raw contents of its
/// `vendor`, `device` and `class` files (empty where unreadable), and its driver's name.
pub struct SysfsPci {
    pub slot: String,
    pub vendor: String,
    pub device: String,
    pub class: String,
    pub driver: String,
}

pub open spec fn sysfs_view(e: SysfsPci) -> PciView {
    PciView {
        slot: e.slot@,
        class: trim(e.class@),
        vendor: trim(e.vendor@),
        device: trim(e.device@),
        subsystem: Seq::empty(),
        kernel_driver: e.driver@,
        kernel_modules: Seq::empty(),
    }
}

/// The devices of the PCI inventory: those that `lspci` listed, or, where it listed none,
/// one for each sysfs entry.
pub open spec fn pci_inventory(lspci: Option<Seq<char>>, sysfs: Seq<SysfsPci>) -> Seq<PciView> {
    let listed = match lspci {
        Some(t) => lspci_devices(t),
        None => Seq::empty(),
    };
    if listed.len() > 0 {
        listed
    } else {
        sysfs.map_values(|e: SysfsPci| sysfs_view(e))
    }
}

/// The PCI inventory from `lspci -nnk` output (where it ran) and the sysfs entries.
pub fn collect_pci(lspci: Option<&str>, sysfs: &Vec<SysfsPci>) -> (res: Vec<PciDevice>)
    ensures
        pci_of(res@) == pci_inventory(
            match lspci {
                Some(t) => Some(t@),
                None => None,
            },
            sysfs@,
        ),
{
    let listed = match lspci {
        Some(t) => parse_lspci(t),
        None => Vec::new(),
    };
    if listed.len() > 0 {
        return listed;
    }
    let mut res: Vec<PciDevice> = Vec::new();
    let n = sysfs.len();
    for i in 0..n
        invariant
            n == sysfs@.len(),
            res@.len() == i,
            forall|j: int| 0 <= j < i ==> #[trigger] res@[j]@ == sysfs_view(sysfs@[j]),
    {
        let e = &sysfs[i];
        let d = PciDevice {
            slot: from_chars(&to_chars(e.slot.as_str())),
            class: from_chars(&trim_chars(&to_chars(e.class.as_str()))),
            vendor: from_chars(&trim_chars(&to_chars(e.vendor.as_str()))),
            device: from_chars(&trim_chars(&to_chars(e.device.as_str()))),
            subsystem: String::new(),
            kernel_driver: from_chars(&to_chars(e.driver.as_str())),
            kernel_modules: Vec::new(),
        };
        assert(strings_of(d.kernel_modules@) =~= Seq::<Seq<char>>::empty());
        res.push(d);
    }
    assert(pci_of(res@) =~= sysfs@.map_values(|e: SysfsPci| sysfs_view(e)));
    res
}

} // verus!
