//! The plain-text report.
use vstd::prelude::*;
use crate::num::{dec, dec_int, push_dec, push_dec_i64};
use crate::text::{contains, occurs_at, lemma_occurs_in_context};
use crate::clock::{time_text_or_empty, time_text, report_pattern};
use crate::models::{
    SystemReport, MemoryDimm, StorageDevice, NetworkInterface, PciDevice, SensorReading,
    IpmiSensor, SelEntry,
};

verus! {

/// `bool` as `Display` writes it.
pub open spec fn bool_text(b: bool) -> Seq<char> {
    if b {
        "true"@
    } else {
        "false"@
    }
}

pub fn push_bool(out: &mut String, b: bool)
    ensures
        final(out)@ == old(out)@ + bool_text(b),
{
    if b {
        out.append("true");
    } else {
        out.append("false");
    }
}

#[verifier::opaque]
pub open spec fn txt_head(r: SystemReport, time: Seq<char>) -> Seq<char> {
    let s = r.system_info;
    "========================================\n"@ + "   HARDWARE AGENT - RAPPORTO SERVER\n"@
        + "========================================\n\n"@ + "Data scansione: "@ + time + "\n"@
        + "Serial Number:   "@ + s.serial_number@ + "\n"@ + "Prodotto:        "@
        + s.manufacturer@ + " "@ + s.product_name@ + "\n"@ + "Versione:        "@ + s.version@
        + "\n"@ + "Asset Tag:       "@ + s.asset_tag@ + "\n"@ + "UUID:            "@ + s.uuid@
        + "\n\n"@
}

#[verifier::opaque]
pub open spec fn txt_bios_cpu(r: SystemReport) -> Seq<char> {
    let b = r.bios;
    let c = r.cpu;
    "--- BIOS ---\n"@ + "Vendor:  "@ + b.vendor@ + "\n"@ + "Version: "@ + b.version@ + "\n"@
        + "Date:    "@ + b.date@ + "\n"@ + "Release: "@ + b.release@ + "\n\n"@ + "--- CPU ---\n"@
        + c.model_name@ + "\n"@ + "Socket: "@ + dec(c.sockets as nat) + " | Core: "@ + dec(
        c.cores as nat,
    ) + " | Thread: "@ + dec(c.threads as nat) + "\n"@ + "Arch:   "@ + c.architecture@
        + " | Vendor: "@ + c.vendor_id@ + "\n\n"@
}

pub open spec fn dimm_txt(d: MemoryDimm) -> Seq<char> {
    "  "@ + d.locator@ + " | "@ + d.size_human@ + " | "@ + dec(d.speed_mhz as nat) + " MHz | "@
        + d.memory_type@ + " | "@ + d.manufacturer@ + " | SN:"@ + d.serial_number@ + "\n"@
}

pub open spec fn dimms_txt(ds: Seq<MemoryDimm>) -> Seq<char>
    decreases ds.len(),
{
    if ds.len() == 0 {
        Seq::empty()
    } else {
        dimms_txt(ds.drop_last()) + dimm_txt(ds.last())
    }
}

#[verifier::opaque]
pub open spec fn txt_memory(r: SystemReport) -> Seq<char> {
    "--- MEMORIA ---\n"@ + "Totale: "@ + r.memory.total_human@ + " ("@ + dec(
        r.memory.total_kb as nat,
    ) + " KB)\n"@ + dimms_txt(r.memory.dimms@) + "\n"@
}

pub open spec fn disk_txt(d: StorageDevice) -> Seq<char> {
    disk_title_txt(d) + disk_ids_txt(d) + disk_counts_txt(d)
}

pub open spec fn disk_title_txt(d: StorageDevice) -> Seq<char> {
    "  "@ + d.device@ + " | "@ + d.model@ + " | "@ + d.capacity_human@ + " | Health: "@
        + d.smart_health@ + "\n"@
}

pub open spec fn disk_ids_txt(d: StorageDevice) -> Seq<char> {
    "    Serial: "@ + d.serial@ + " | Firmware: "@ + d.firmware@ + " | Temp: "@ + dec_int(
        d.temperature as int,
    ) + "C\n"@
}

pub open spec fn disk_counts_txt(d: StorageDevice) -> Seq<char> {
    "    PowerOnHours: "@ + dec(d.power_on_hours as nat) + " | PowerCycles: "@ + dec(
        d.power_cycle_count as nat,
    ) + "\n"@
}

pub open spec fn disks_txt(ds: Seq<StorageDevice>) -> Seq<char>
    decreases ds.len(),
{
    if ds.len() == 0 {
        Seq::empty()
    } else {
        disks_txt(ds.drop_last()) + disk_txt(ds.last())
    }
}

pub open spec fn nic_txt(n: NetworkInterface) -> Seq<char> {
    "  "@ + n.name@ + " | MAC: "@ + n.mac_address@ + " | Driver: "@ + n.driver@ + " | Speed: "@
        + dec(n.speed_mbps as nat) + " Mbps | "@ + n.duplex@ + "\n"@
}

pub open spec fn nics_txt(ns: Seq<NetworkInterface>) -> Seq<char>
    decreases ns.len(),
{
    if ns.len() == 0 {
        Seq::empty()
    } else {
        nics_txt(ns.drop_last()) + nic_txt(ns.last())
    }
}

pub open spec fn pci_txt(d: PciDevice) -> Seq<char> {
    "  "@ + d.slot@ + " | "@ + d.vendor@ + " | "@ + d.device@ + " | Driver: "@ + d.kernel_driver@
        + "\n"@
}

pub open spec fn pcis_txt(ds: Seq<PciDevice>) -> Seq<char>
    decreases ds.len(),
{
    if ds.len() == 0 {
        Seq::empty()
    } else {
        pcis_txt(ds.drop_last()) + pci_txt(ds.last())
    }
}

pub open spec fn sensor_txt(s: SensorReading) -> Seq<char> {
    "  "@ + s.name@ + ": "@ + s.value@ + " "@ + s.unit@ + " | "@ + s.status@ + "\n"@
}

pub open spec fn sensors_txt(ss: Seq<SensorReading>) -> Seq<char>
    decreases ss.len(),
{
    if ss.len() == 0 {
        Seq::empty()
    } else {
        sensors_txt(ss.drop_last()) + sensor_txt(ss.last())
    }
}

pub open spec fn ipmi_sensor_txt(s: IpmiSensor) -> Seq<char> {
    "  "@ + s.name@ + ": "@ + s.value@ + " | "@ + s.status@ + "\n"@
}

pub open spec fn ipmi_sensors_txt(ss: Seq<IpmiSensor>) -> Seq<char>
    decreases ss.len(),
{
    if ss.len() == 0 {
        Seq::empty()
    } else {
        ipmi_sensors_txt(ss.drop_last()) + ipmi_sensor_txt(ss.last())
    }
}

pub open spec fn sel_txt(e: SelEntry) -> Seq<char> {
    "  SEL ["@ + e.id@ + "] "@ + e.date@ + " "@ + e.time@ + " | "@ + e.sensor@ + " | "@ + e.event@
        + " | "@ + e.severity@ + "\n"@
}

pub open spec fn sels_txt(es: Seq<SelEntry>) -> Seq<char>
    decreases es.len(),
{
    if es.len() == 0 {
        Seq::empty()
    } else {
        sels_txt(es.drop_last()) + sel_txt(es.last())
    }
}

pub open spec fn notes_txt(ns: Seq<String>) -> Seq<char>
    decreases ns.len(),
{
    if ns.len() == 0 {
        Seq::empty()
    } else {
        notes_txt(ns.drop_last()) + "  - "@ + ns.last()@ + "\n"@
    }
}

pub open spec fn txt_devices(r: SystemReport) -> Seq<char> {
    "--- STORAGE ---\n"@ + disks_txt(r.storage@) + txt_other_devices(r)
}

#[verifier::opaque]
pub open spec fn txt_other_devices(r: SystemReport) -> Seq<char> {
    "\n"@ + "--- RETE ---\n"@ + nics_txt(r.network@) + "\n"@ + "--- PCI DEVICES ---\n"@ + pcis_txt(
        r.pci_devices@,
    ) + "\n"@ + "--- SENSORI ---\n"@ + sensors_txt(r.sensors@) + "\n"@
}

#[verifier::opaque]
pub open spec fn txt_ipmi_notes(r: SystemReport) -> Seq<char> {
    let i = r.ipmi;
    "--- IPMI ---\n"@ + "Disponibile: "@ + bool_text(i.available) + "\n"@ + (if i.available {
        "BMC Firmware: "@ + i.bmc_firmware@ + "\n"@ + ipmi_sensors_txt(i.sensors@) + sels_txt(
            i.sel_entries@,
        )
    } else {
        Seq::empty()
    }) + "\n"@ + (if r.notes@.len() > 0 {
        "--- NOTE ---\n"@ + notes_txt(r.notes@)
    } else {
        Seq::empty()
    })
}

/// The plain-text report of `r`, whose scan time is written as `time`.
pub open spec fn txt_report(r: SystemReport, time: Seq<char>) -> Seq<char> {
    txt_head(r, time) + txt_bios_cpu(r) + txt_memory(r) + txt_devices(r) + txt_ipmi_notes(r)
}

proof fn lemma_disks_txt_has(ds: Seq<StorageDevice>, i: int)
    requires
        0 <= i < ds.len(),
    ensures
        exists|k: int| occurs_at(disks_txt(ds), disk_txt(ds[i]), k),
    decreases ds.len(),
{
    let init = disks_txt(ds.drop_last());
    let last = disk_txt(ds.last());
    if i == ds.len() - 1 {
        assert(last.subrange(0, last.len() as int) =~= last);
        lemma_occurs_in_context(init, last, Seq::empty(), last, 0);
        assert(init + last + Seq::<char>::empty() =~= disks_txt(ds));
        assert(occurs_at(disks_txt(ds), disk_txt(ds[i]), init.len() as int));
    } else {
        lemma_disks_txt_has(ds.drop_last(), i);
        assert(ds.drop_last()[i] == ds[i]);
        let k = choose|k: int| occurs_at(init, disk_txt(ds[i]), k);
        lemma_occurs_in_context(Seq::empty(), init, last, disk_txt(ds[i]), k);
        assert(Seq::<char>::empty() + init + last =~= disks_txt(ds));
        assert(occurs_at(disks_txt(ds), disk_txt(ds[i]), k));
    }
}

/// The plain-text report lists every disk of the scan.
pub proof fn lemma_txt_lists_every_disk(r: SystemReport, time: Seq<char>, i: int)
    requires
        0 <= i < r.storage@.len(),
    ensures
        contains(txt_report(r, time), disk_txt(r.storage@[i])),
{
    lemma_disks_txt_has(r.storage@, i);
    let p = disk_txt(r.storage@[i]);
    let k = choose|k: int| occurs_at(disks_txt(r.storage@), p, k);
    let a = txt_head(r, time) + txt_bios_cpu(r) + txt_memory(r) + "--- STORAGE ---\n"@;
    let b = txt_other_devices(r) + txt_ipmi_notes(r);
    lemma_occurs_in_context(a, disks_txt(r.storage@), b, p, k);
    assert(a + disks_txt(r.storage@) + b =~= txt_report(r, time));
    assert(occurs_at(txt_report(r, time), p, a.len() + k));
}

fn write_head(out: &mut String, r: &SystemReport, time: &str)
    ensures
        final(out)@ == old(out)@ + txt_head(*r, time@),
{
    let s = &r.system_info;
    out.append("========================================\n");
    out.append("   HARDWARE AGENT - RAPPORTO SERVER\n");
    out.append("========================================\n\n");
    out.append("Data scansione: ");
    out.append(time);
    out.append("\n");
    out.append("Serial Number:   ");
    out.append(s.serial_number.as_str());
    out.append("\n");
    out.append("Prodotto:        ");
    out.append(s.manufacturer.as_str());
    out.append(" ");
    out.append(s.product_name.as_str());
    out.append("\n");
    out.append("Versione:        ");
    out.append(s.version.as_str());
    out.append("\n");
    out.append("Asset Tag:       ");
    out.append(s.asset_tag.as_str());
    out.append("\n");
    out.append("UUID:            ");
    out.append(s.uuid.as_str());
    out.append("\n\n");
    reveal(txt_head);
    assert(out@ =~= old(out)@ + txt_head(*r, time@));
}

fn write_bios_cpu(out: &mut String, r: &SystemReport)
    ensures
        final(out)@ == old(out)@ + txt_bios_cpu(*r),
{
    let b = &r.bios;
    let c = &r.cpu;
    let ghost o0 = out@;
    out.append("--- BIOS ---\n");
    out.append("Vendor:  ");
    out.append(b.vendor.as_str());
    out.append("\n");
    out.append("Version: ");
    out.append(b.version.as_str());
    out.append("\n");
    out.append("Date:    ");
    out.append(b.date.as_str());
    out.append("\n");
    out.append("Release: ");
    out.append(b.release.as_str());
    out.append("\n\n");
    let ghost bios = "--- BIOS ---\n"@ + "Vendor:  "@ + b.vendor@ + "\n"@ + "Version: "@ + b.version@
        + "\n"@ + "Date:    "@ + b.date@ + "\n"@ + "Release: "@ + b.release@ + "\n\n"@;
    assert(out@ =~= o0 + bios);
    let ghost o1 = out@;
    out.append("--- CPU ---\n");
    out.append(c.model_name.as_str());
    out.append("\n");
    out.append("Socket: ");
    push_dec(out, c.sockets as u64);
    out.append(" | Core: ");
    push_dec(out, c.cores as u64);
    out.append(" | Thread: ");
    push_dec(out, c.threads as u64);
    out.append("\n");
    out.append("Arch:   ");
    out.append(c.architecture.as_str());
    out.append(" | Vendor: ");
    out.append(c.vendor_id.as_str());
    out.append("\n\n");
    let ghost cpu = "--- CPU ---\n"@ + c.model_name@ + "\n"@ + "Socket: "@ + dec(c.sockets as nat)
        + " | Core: "@ + dec(c.cores as nat) + " | Thread: "@ + dec(c.threads as nat) + "\n"@
        + "Arch:   "@ + c.architecture@ + " | Vendor: "@ + c.vendor_id@ + "\n\n"@;
    assert(out@ =~= o1 + cpu);
    reveal(txt_bios_cpu);
    assert(out@ =~= old(out)@ + txt_bios_cpu(*r));
}

fn push_dimm(out: &mut String, d: &MemoryDimm)
    ensures
        final(out)@ == old(out)@ + dimm_txt(*d),
{
    out.append("  ");
    out.append(d.locator.as_str());
    out.append(" | ");
    out.append(d.size_human.as_str());
    out.append(" | ");
    push_dec(out, d.speed_mhz as u64);
    out.append(" MHz | ");
    out.append(d.memory_type.as_str());
    out.append(" | ");
    out.append(d.manufacturer.as_str());
    out.append(" | SN:");
    out.append(d.serial_number.as_str());
    out.append("\n");
    assert(out@ =~= old(out)@ + dimm_txt(*d));
}

fn push_dimms(out: &mut String, ds: &Vec<MemoryDimm>)
    ensures
        final(out)@ == old(out)@ + dimms_txt(ds@),
{
    let n = ds.len();
    assert(ds@.take(0) == Seq::<MemoryDimm>::empty());
    for i in 0..n
        invariant
            n == ds@.len(),
            out@ == old(out)@ + dimms_txt(ds@.take(i as int)),
    {
        push_dimm(out, &ds[i]);
        assert(ds@.take(i + 1).drop_last() == ds@.take(i as int));
        assert(ds@.take(i + 1).last() == ds@[i as int]);
        assert(out@ =~= old(out)@ + dimms_txt(ds@.take(i + 1)));
    }
    assert(ds@.take(n as int) == ds@);
}

fn write_memory(out: &mut String, r: &SystemReport)
    ensures
        final(out)@ == old(out)@ + txt_memory(*r),
{
    out.append("--- MEMORIA ---\n");
    out.append("Totale: ");
    out.append(r.memory.total_human.as_str());
    out.append(" (");
    push_dec(out, r.memory.total_kb);
    out.append(" KB)\n");
    push_dimms(out, &r.memory.dimms);
    out.append("\n");
    reveal(txt_memory);
    assert(out@ =~= old(out)@ + txt_memory(*r));
}

fn push_disk(out: &mut String, d: &StorageDevice)
    ensures
        final(out)@ == old(out)@ + disk_txt(*d),
{
    let ghost o = out@;
    out.append("  ");
    out.append(d.device.as_str());
    out.append(" | ");
    out.append(d.model.as_str());
    out.append(" | ");
    out.append(d.capacity_human.as_str());
    out.append(" | Health: ");
    out.append(d.smart_health.as_str());
    out.append("\n");
    assert(out@ =~= o + disk_title_txt(*d));
    let ghost o1 = out@;
    out.append("    Serial: ");
    out.append(d.serial.as_str());
    out.append(" | Firmware: ");
    out.append(d.firmware.as_str());
    out.append(" | Temp: ");
    push_dec_i64(out, d.temperature as i64);
    out.append("C\n");
    assert(out@ =~= o1 + disk_ids_txt(*d));
    let ghost o2 = out@;
    out.append("    PowerOnHours: ");
    push_dec(out, d.power_on_hours);
    out.append(" | PowerCycles: ");
    push_dec(out, d.power_cycle_count);
    out.append("\n");
    assert(out@ =~= o2 + disk_counts_txt(*d));
    assert(out@ =~= old(out)@ + disk_txt(*d));
}

fn push_disks(out: &mut String, ds: &Vec<StorageDevice>)
    ensures
        final(out)@ == old(out)@ + disks_txt(ds@),
{
    let n = ds.len();
    assert(ds@.take(0) == Seq::<StorageDevice>::empty());
    for i in 0..n
        invariant
            n == ds@.len(),
            out@ == old(out)@ + disks_txt(ds@.take(i as int)),
    {
        push_disk(out, &ds[i]);
        assert(ds@.take(i + 1).drop_last() == ds@.take(i as int));
        assert(ds@.take(i + 1).last() == ds@[i as int]);
        assert(out@ =~= old(out)@ + disks_txt(ds@.take(i + 1)));
    }
    assert(ds@.take(n as int) == ds@);
}

fn push_nic(out: &mut String, x: &NetworkInterface)
    ensures
        final(out)@ == old(out)@ + nic_txt(*x),
{
    out.append("  ");
    out.append(x.name.as_str());
    out.append(" | MAC: ");
    out.append(x.mac_address.as_str());
    out.append(" | Driver: ");
    out.append(x.driver.as_str());
    out.append(" | Speed: ");
    push_dec(out, x.speed_mbps);
    out.append(" Mbps | ");
    out.append(x.duplex.as_str());
    out.append("\n");
    assert(out@ =~= old(out)@ + nic_txt(*x));
}

fn push_nics(out: &mut String, ns: &Vec<NetworkInterface>)
    ensures
        final(out)@ == old(out)@ + nics_txt(ns@),
{
    let n = ns.len();
    assert(ns@.take(0) == Seq::<NetworkInterface>::empty());
    for i in 0..n
        invariant
            n == ns@.len(),
            out@ == old(out)@ + nics_txt(ns@.take(i as int)),
    {
        push_nic(out, &ns[i]);
        assert(ns@.take(i + 1).drop_last() == ns@.take(i as int));
        assert(ns@.take(i + 1).last() == ns@[i as int]);
        assert(out@ =~= old(out)@ + nics_txt(ns@.take(i + 1)));
    }
    assert(ns@.take(n as int) == ns@);
}

fn push_pci(out: &mut String, x: &PciDevice)
    ensures
        final(out)@ == old(out)@ + pci_txt(*x),
{
    out.append("  ");
    out.append(x.slot.as_str());
    out.append(" | ");
    out.append(x.vendor.as_str());
    out.append(" | ");
    out.append(x.device.as_str());
    out.append(" | Driver: ");
    out.append(x.kernel_driver.as_str());
    out.append("\n");
    assert(out@ =~= old(out)@ + pci_txt(*x));
}

fn push_pcis(out: &mut String, ps: &Vec<PciDevice>)
    ensures
        final(out)@ == old(out)@ + pcis_txt(ps@),
{
    let n = ps.len();
    assert(ps@.take(0) == Seq::<PciDevice>::empty());
    for i in 0..n
        invariant
            n == ps@.len(),
            out@ == old(out)@ + pcis_txt(ps@.take(i as int)),
    {
        push_pci(out, &ps[i]);
        assert(ps@.take(i + 1).drop_last() == ps@.take(i as int));
        assert(ps@.take(i + 1).last() == ps@[i as int]);
        assert(out@ =~= old(out)@ + pcis_txt(ps@.take(i + 1)));
    }
    assert(ps@.take(n as int) == ps@);
}

fn push_sensor(out: &mut String, x: &SensorReading)
    ensures
        final(out)@ == old(out)@ + sensor_txt(*x),
{
    out.append("  ");
    out.append(x.name.as_str());
    out.append(": ");
    out.append(x.value.as_str());
    out.append(" ");
    out.append(x.unit.as_str());
    out.append(" | ");
    out.append(x.status.as_str());
    out.append("\n");
    assert(out@ =~= old(out)@ + sensor_txt(*x));
}

fn push_sensors(out: &mut String, ss: &Vec<SensorReading>)
    ensures
        final(out)@ == old(out)@ + sensors_txt(ss@),
{
    let n = ss.len();
    assert(ss@.take(0) == Seq::<SensorReading>::empty());
    for i in 0..n
        invariant
            n == ss@.len(),
            out@ == old(out)@ + sensors_txt(ss@.take(i as int)),
    {
        push_sensor(out, &ss[i]);
        assert(ss@.take(i + 1).drop_last() == ss@.take(i as int));
        assert(ss@.take(i + 1).last() == ss@[i as int]);
        assert(out@ =~= old(out)@ + sensors_txt(ss@.take(i + 1)));
    }
    assert(ss@.take(n as int) == ss@);
}

fn write_devices(out: &mut String, r: &SystemReport)
    ensures
        final(out)@ == old(out)@ + txt_devices(*r),
{
    out.append("--- STORAGE ---\n");
    push_disks(out, &r.storage);
    out.append("\n");
    out.append("--- RETE ---\n");
    push_nics(out, &r.network);
    out.append("\n");
    out.append("--- PCI DEVICES ---\n");
    push_pcis(out, &r.pci_devices);
    out.append("\n");
    out.append("--- SENSORI ---\n");
    push_sensors(out, &r.sensors);
    out.append("\n");
    reveal(txt_other_devices);
    assert(out@ =~= old(out)@ + txt_devices(*r));
}

fn push_ipmi_sensor(out: &mut String, x: &IpmiSensor)
    ensures
        final(out)@ == old(out)@ + ipmi_sensor_txt(*x),
{
    out.append("  ");
    out.append(x.name.as_str());
    out.append(": ");
    out.append(x.value.as_str());
    out.append(" | ");
    out.append(x.status.as_str());
    out.append("\n");
    assert(out@ =~= old(out)@ + ipmi_sensor_txt(*x));
}

fn push_ipmi_sensors(out: &mut String, ss: &Vec<IpmiSensor>)
    ensures
        final(out)@ == old(out)@ + ipmi_sensors_txt(ss@),
{
    let n = ss.len();
    assert(ss@.take(0) == Seq::<IpmiSensor>::empty());
    for i in 0..n
        invariant
            n == ss@.len(),
            out@ == old(out)@ + ipmi_sensors_txt(ss@.take(i as int)),
    {
        push_ipmi_sensor(out, &ss[i]);
        assert(ss@.take(i + 1).drop_last() == ss@.take(i as int));
        assert(ss@.take(i + 1).last() == ss@[i as int]);
        assert(out@ =~= old(out)@ + ipmi_sensors_txt(ss@.take(i + 1)));
    }
    assert(ss@.take(n as int) == ss@);
}

fn push_sel(out: &mut String, x: &SelEntry)
    ensures
        final(out)@ == old(out)@ + sel_txt(*x),
{
    out.append("  SEL [");
    out.append(x.id.as_str());
    out.append("] ");
    out.append(x.date.as_str());
    out.append(" ");
    out.append(x.time.as_str());
    out.append(" | ");
    out.append(x.sensor.as_str());
    out.append(" | ");
    out.append(x.event.as_str());
    out.append(" | ");
    out.append(x.severity.as_str());
    out.append("\n");
    assert(out@ =~= old(out)@ + sel_txt(*x));
}

fn push_sels(out: &mut String, es: &Vec<SelEntry>)
    ensures
        final(out)@ == old(out)@ + sels_txt(es@),
{
    let n = es.len();
    assert(es@.take(0) == Seq::<SelEntry>::empty());
    for i in 0..n
        invariant
            n == es@.len(),
            out@ == old(out)@ + sels_txt(es@.take(i as int)),
    {
        push_sel(out, &es[i]);
        assert(es@.take(i + 1).drop_last() == es@.take(i as int));
        assert(es@.take(i + 1).last() == es@[i as int]);
        assert(out@ =~= old(out)@ + sels_txt(es@.take(i + 1)));
    }
    assert(es@.take(n as int) == es@);
}

fn push_notes(out: &mut String, ns: &Vec<String>)
    ensures
        final(out)@ == old(out)@ + notes_txt(ns@),
{
    let n = ns.len();
    assert(ns@.take(0) == Seq::<String>::empty());
    for i in 0..n
        invariant
            n == ns@.len(),
            out@ == old(out)@ + notes_txt(ns@.take(i as int)),
    {
        out.append("  - ");
        out.append(ns[i].as_str());
        out.append("\n");
        assert(ns@.take(i + 1).drop_last() == ns@.take(i as int));
        assert(ns@.take(i + 1).last() == ns@[i as int]);
        assert(out@ =~= old(out)@ + notes_txt(ns@.take(i + 1)));
    }
    assert(ns@.take(n as int) == ns@);
}

fn write_ipmi_notes(out: &mut String, r: &SystemReport)
    ensures
        final(out)@ == old(out)@ + txt_ipmi_notes(*r),
{
    let info = &r.ipmi;
    out.append("--- IPMI ---\n");
    out.append("Disponibile: ");
    push_bool(out, info.available);
    out.append("\n");
    if info.available {
        out.append("BMC Firmware: ");
        out.append(info.bmc_firmware.as_str());
        out.append("\n");
        push_ipmi_sensors(out, &info.sensors);
        push_sels(out, &info.sel_entries);
    }
    out.append("\n");
    if r.notes.len() > 0 {
        out.append("--- NOTE ---\n");
        push_notes(out, &r.notes);
    }
    reveal(txt_ipmi_notes);
    assert(out@ =~= old(out)@ + txt_ipmi_notes(*r));
}

/// The plain-text report of `r`, with its scan time already written as `time`.
pub fn render_txt(r: &SystemReport, time: &str) -> (res: String)
    ensures
        res@ == txt_report(*r, time@),
{
    let mut out = String::new();
    write_head(&mut out, r, time);
    write_bios_cpu(&mut out, r);
    write_memory(&mut out, r);
    write_devices(&mut out, r);
    write_ipmi_notes(&mut out, r);
    assert(out@ =~= txt_report(*r, time@));
    out
}

/// The plain-text report of `r`, its scan time written as `%Y-%m-%d %H:%M:%S UTC`.
pub fn generate_txt(r: &SystemReport) -> (res: String)
    ensures
        res@ == txt_report(
            *r,
            time_text_or_empty(r.scan_timestamp as int, "%Y-%m-%d %H:%M:%S UTC"@),
        ),
{
    let t = time_text(r.scan_timestamp, report_pattern());
    render_txt(r, t.as_str())
}

} // verus!
