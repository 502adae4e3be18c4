//! How the lists of a scan are laid out in the reports: each list is its items' lines or rows,
//! one per item, in the order of the list.
use vstd::prelude::*;
use crate::num::{dec, dec_int};
use crate::text::concat_all;
use vstd::seq_lib::lemma_concat_associative;
use crate::report::txt::{
    txt_report, txt_head, txt_bios_cpu, txt_memory, txt_other_devices, txt_ipmi_notes, bool_text,
    dimms_txt, disks_txt, nics_txt, pcis_txt, sensors_txt, ipmi_sensors_txt, sels_txt, notes_txt,
};
use crate::report::html::{
    html_report, html_head, html_devices, html_bios_cpu, html_memory, html_other_devices, html_ipmi, html_bmc,
    escape, severity_class, disk_html, health_class, row, dimms_html, disks_html, nics_html, pcis_html,
    sensors_html, ipmi_sensors_html, sels_html,
};
use crate::models::{
    SystemReport, MemoryDimm, StorageDevice, NetworkInterface, PciDevice, SensorReading, IpmiSensor, SelEntry,
};

verus! {

/// The memory section of the plain-text report: one line per module, in order.
pub proof fn lemma_dimms_txt_rows(xs: Seq<MemoryDimm>)
    ensures
        dimms_txt(xs) == concat_all(xs.map_values(|d: MemoryDimm| "  "@ + d.locator@ + " | "@ + d.size_human@ + " | "@ + dec(d.speed_mhz as nat) + " MHz | "@ + d.memory_type@ + " | "@ + d.manufacturer@ + " | SN:"@ + d.serial_number@ + "\n"@)),
    decreases xs.len(),
{
    if xs.len() > 0 {
        lemma_dimms_txt_rows(xs.drop_last());
        let f = |d: MemoryDimm| "  "@ + d.locator@ + " | "@ + d.size_human@ + " | "@ + dec(d.speed_mhz as nat) + " MHz | "@ + d.memory_type@ + " | "@ + d.manufacturer@ + " | SN:"@ + d.serial_number@ + "\n"@;
        assert(xs.map_values(f).drop_last() == xs.drop_last().map_values(f));
    }
}

/// The storage section of the plain-text report: three lines per disk, in order.
pub proof fn lemma_disks_txt_rows(xs: Seq<StorageDevice>)
    ensures
        disks_txt(xs) == concat_all(xs.map_values(|d: StorageDevice| "  "@ + d.device@ + " | "@ + d.model@ + " | "@ + d.capacity_human@ + " | Health: "@ + d.smart_health@ + "\n"@ + "    Serial: "@ + d.serial@ + " | Firmware: "@ + d.firmware@ + " | Temp: "@ + dec_int(d.temperature as int) + "C\n"@ + "    PowerOnHours: "@ + dec(d.power_on_hours as nat) + " | PowerCycles: "@ + dec(d.power_cycle_count as nat) + "\n"@)),
    decreases xs.len(),
{
    if xs.len() > 0 {
        lemma_disks_txt_rows(xs.drop_last());
        let f = |d: StorageDevice| "  "@ + d.device@ + " | "@ + d.model@ + " | "@ + d.capacity_human@ + " | Health: "@ + d.smart_health@ + "\n"@ + "    Serial: "@ + d.serial@ + " | Firmware: "@ + d.firmware@ + " | Temp: "@ + dec_int(d.temperature as int) + "C\n"@ + "    PowerOnHours: "@ + dec(d.power_on_hours as nat) + " | PowerCycles: "@ + dec(d.power_cycle_count as nat) + "\n"@;
        assert(xs.map_values(f).drop_last() == xs.drop_last().map_values(f));
    }
}

/// The network section of the plain-text report: one line per interface, in order.
pub proof fn lemma_nics_txt_rows(xs: Seq<NetworkInterface>)
    ensures
        nics_txt(xs) == concat_all(xs.map_values(|n: NetworkInterface| "  "@ + n.name@ + " | MAC: "@ + n.mac_address@ + " | Driver: "@ + n.driver@ + " | Speed: "@ + dec(n.speed_mbps as nat) + " Mbps | "@ + n.duplex@ + "\n"@)),
    decreases xs.len(),
{
    if xs.len() > 0 {
        lemma_nics_txt_rows(xs.drop_last());
        let f = |n: NetworkInterface| "  "@ + n.name@ + " | MAC: "@ + n.mac_address@ + " | Driver: "@ + n.driver@ + " | Speed: "@ + dec(n.speed_mbps as nat) + " Mbps | "@ + n.duplex@ + "\n"@;
        assert(xs.map_values(f).drop_last() == xs.drop_last().map_values(f));
    }
}

/// The PCI section of the plain-text report: one line per device, in order.
pub proof fn lemma_pcis_txt_rows(xs: Seq<PciDevice>)
    ensures
        pcis_txt(xs) == concat_all(xs.map_values(|d: PciDevice| "  "@ + d.slot@ + " | "@ + d.vendor@ + " | "@ + d.device@ + " | Driver: "@ + d.kernel_driver@ + "\n"@)),
    decreases xs.len(),
{
    if xs.len() > 0 {
        lemma_pcis_txt_rows(xs.drop_last());
        let f = |d: PciDevice| "  "@ + d.slot@ + " | "@ + d.vendor@ + " | "@ + d.device@ + " | Driver: "@ + d.kernel_driver@ + "\n"@;
        assert(xs.map_values(f).drop_last() == xs.drop_last().map_values(f));
    }
}

/// The sensor section of the plain-text report: one line per reading, in order.
pub proof fn lemma_sensors_txt_rows(xs: Seq<SensorReading>)
    ensures
        sensors_txt(xs) == concat_all(xs.map_values(|s: SensorReading| "  "@ + s.name@ + ": "@ + s.value@ + " "@ + s.unit@ + " | "@ + s.status@ + "\n"@)),
    decreases xs.len(),
{
    if xs.len() > 0 {
        lemma_sensors_txt_rows(xs.drop_last());
        let f = |s: SensorReading| "  "@ + s.name@ + ": "@ + s.value@ + " "@ + s.unit@ + " | "@ + s.status@ + "\n"@;
        assert(xs.map_values(f).drop_last() == xs.drop_last().map_values(f));
    }
}

/// The BMC sensors of the plain-text report: one line per sensor, in order.
pub proof fn lemma_ipmi_sensors_txt_rows(xs: Seq<IpmiSensor>)
    ensures
        ipmi_sensors_txt(xs) == concat_all(xs.map_values(|s: IpmiSensor| "  "@ + s.name@ + ": "@ + s.value@ + " | "@ + s.status@ + "\n"@)),
    decreases xs.len(),
{
    if xs.len() > 0 {
        lemma_ipmi_sensors_txt_rows(xs.drop_last());
        let f = |s: IpmiSensor| "  "@ + s.name@ + ": "@ + s.value@ + " | "@ + s.status@ + "\n"@;
        assert(xs.map_values(f).drop_last() == xs.drop_last().map_values(f));
    }
}

/// The event log of the plain-text report: one line per event, in order.
pub proof fn lemma_sels_txt_rows(xs: Seq<SelEntry>)
    ensures
        sels_txt(xs) == concat_all(xs.map_values(|e: SelEntry| "  SEL ["@ + e.id@ + "] "@ + e.date@ + " "@ + e.time@ + " | "@ + e.sensor@ + " | "@ + e.event@ + " | "@ + e.severity@ + "\n"@)),
    decreases xs.len(),
{
    if xs.len() > 0 {
        lemma_sels_txt_rows(xs.drop_last());
        let f = |e: SelEntry| "  SEL ["@ + e.id@ + "] "@ + e.date@ + " "@ + e.time@ + " | "@ + e.sensor@ + " | "@ + e.event@ + " | "@ + e.severity@ + "\n"@;
        assert(xs.map_values(f).drop_last() == xs.drop_last().map_values(f));
    }
}

/// The notes of the plain-text report: one line per note, in order.
pub proof fn lemma_notes_txt_rows(xs: Seq<String>)
    ensures
        notes_txt(xs) == concat_all(xs.map_values(|x: String| "  - "@ + x@ + "\n"@)),
    decreases xs.len(),
{
    if xs.len() > 0 {
        lemma_notes_txt_rows(xs.drop_last());
        let f = |x: String| "  - "@ + x@ + "\n"@;
        assert(xs.map_values(f).drop_last() == xs.drop_last().map_values(f));
    }
}

/// The memory table of the HTML report: one row per module, in order.
pub proof fn lemma_dimms_html_rows(xs: Seq<MemoryDimm>)
    ensures
        dimms_html(xs) == concat_all(xs.map_values(|d: MemoryDimm| "<tr><td>"@ + escape(d.locator@) + "</td><td>"@ + escape(d.size_human@) + "</td><td>"@ + dec(d.speed_mhz as nat) + " MHz</td><td>"@ + escape(d.memory_type@) + "</td><td>"@ + escape(d.part_number@) + "</td><td>"@ + escape(d.serial_number@) + "</td></tr>"@)),
    decreases xs.len(),
{
    if xs.len() > 0 {
        lemma_dimms_html_rows(xs.drop_last());
        let f = |d: MemoryDimm| "<tr><td>"@ + escape(d.locator@) + "</td><td>"@ + escape(d.size_human@) + "</td><td>"@ + dec(d.speed_mhz as nat) + " MHz</td><td>"@ + escape(d.memory_type@) + "</td><td>"@ + escape(d.part_number@) + "</td><td>"@ + escape(d.serial_number@) + "</td></tr>"@;
        assert(xs.map_values(f).drop_last() == xs.drop_last().map_values(f));
    }
}

/// The storage part of the HTML report: one block per disk, in order.
pub proof fn lemma_disks_html_rows(xs: Seq<StorageDevice>)
    ensures
        disks_html(xs) == concat_all(xs.map_values(|d: StorageDevice| "<h3>"@ + escape(d.device@) + " <span class='"@ + health_class(d.smart_health@) + "'>["@ + escape(d.smart_health@) + "]</span></h3>"@ + ("<table>"@ + row("Model"@, d.model@) + row("Serial"@, d.serial@) + row("Firmware"@, d.firmware@) + row("Capacity"@, d.capacity_human@) + row("Temperature"@, dec_int(d.temperature as int) + " C"@) + row("Power On Hours"@, dec(d.power_on_hours as nat)) + row("Power Cycles"@, dec(d.power_cycle_count as nat)) + "</table>"@))),
    decreases xs.len(),
{
    reveal(disk_html);
    if xs.len() > 0 {
        lemma_disks_html_rows(xs.drop_last());
        let f = |d: StorageDevice| "<h3>"@ + escape(d.device@) + " <span class='"@ + health_class(d.smart_health@) + "'>["@ + escape(d.smart_health@) + "]</span></h3>"@ + ("<table>"@ + row("Model"@, d.model@) + row("Serial"@, d.serial@) + row("Firmware"@, d.firmware@) + row("Capacity"@, d.capacity_human@) + row("Temperature"@, dec_int(d.temperature as int) + " C"@) + row("Power On Hours"@, dec(d.power_on_hours as nat)) + row("Power Cycles"@, dec(d.power_cycle_count as nat)) + "</table>"@);
        assert(xs.map_values(f).drop_last() == xs.drop_last().map_values(f));
    }
}

/// The network table of the HTML report: one row per interface, in order.
pub proof fn lemma_nics_html_rows(xs: Seq<NetworkInterface>)
    ensures
        nics_html(xs) == concat_all(xs.map_values(|n: NetworkInterface| "<tr><td>"@ + escape(n.name@) + "</td><td>"@ + escape(n.mac_address@) + "</td><td>"@ + escape(n.driver@) + "</td><td>"@ + dec(n.speed_mbps as nat) + " Mbps</td><td>"@ + escape(n.duplex@) + "</td></tr>"@)),
    decreases xs.len(),
{
    if xs.len() > 0 {
        lemma_nics_html_rows(xs.drop_last());
        let f = |n: NetworkInterface| "<tr><td>"@ + escape(n.name@) + "</td><td>"@ + escape(n.mac_address@) + "</td><td>"@ + escape(n.driver@) + "</td><td>"@ + dec(n.speed_mbps as nat) + " Mbps</td><td>"@ + escape(n.duplex@) + "</td></tr>"@;
        assert(xs.map_values(f).drop_last() == xs.drop_last().map_values(f));
    }
}

/// The PCI table of the HTML report: one row per device, in order.
pub proof fn lemma_pcis_html_rows(xs: Seq<PciDevice>)
    ensures
        pcis_html(xs) == concat_all(xs.map_values(|d: PciDevice| "<tr><td>"@ + escape(d.slot@) + "</td><td>"@ + escape(d.class@) + "</td><td>"@ + escape(d.vendor@) + "</td><td>"@ + escape(d.device@) + "</td><td>"@ + escape(d.kernel_driver@) + "</td></tr>"@)),
    decreases xs.len(),
{
    if xs.len() > 0 {
        lemma_pcis_html_rows(xs.drop_last());
        let f = |d: PciDevice| "<tr><td>"@ + escape(d.slot@) + "</td><td>"@ + escape(d.class@) + "</td><td>"@ + escape(d.vendor@) + "</td><td>"@ + escape(d.device@) + "</td><td>"@ + escape(d.kernel_driver@) + "</td></tr>"@;
        assert(xs.map_values(f).drop_last() == xs.drop_last().map_values(f));
    }
}

/// The sensor table of the HTML report: one row per reading, in order.
pub proof fn lemma_sensors_html_rows(xs: Seq<SensorReading>)
    ensures
        sensors_html(xs) == concat_all(xs.map_values(|s: SensorReading| "<tr><td>"@ + escape(s.name@) + "</td><td>"@ + escape(s.value@) + "</td><td>"@ + escape(s.unit@) + "</td><td>"@ + escape(s.status@) + "</td></tr>"@)),
    decreases xs.len(),
{
    if xs.len() > 0 {
        lemma_sensors_html_rows(xs.drop_last());
        let f = |s: SensorReading| "<tr><td>"@ + escape(s.name@) + "</td><td>"@ + escape(s.value@) + "</td><td>"@ + escape(s.unit@) + "</td><td>"@ + escape(s.status@) + "</td></tr>"@;
        assert(xs.map_values(f).drop_last() == xs.drop_last().map_values(f));
    }
}

/// The BMC sensor table of the HTML report: one row per sensor, in order.
pub proof fn lemma_ipmi_sensors_html_rows(xs: Seq<IpmiSensor>)
    ensures
        ipmi_sensors_html(xs) == concat_all(xs.map_values(|s: IpmiSensor| "<tr><td>"@ + escape(s.name@) + "</td><td>"@ + escape(s.value@) + "</td><td>"@ + escape(s.status@) + "</td></tr>"@)),
    decreases xs.len(),
{
    if xs.len() > 0 {
        lemma_ipmi_sensors_html_rows(xs.drop_last());
        let f = |s: IpmiSensor| "<tr><td>"@ + escape(s.name@) + "</td><td>"@ + escape(s.value@) + "</td><td>"@ + escape(s.status@) + "</td></tr>"@;
        assert(xs.map_values(f).drop_last() == xs.drop_last().map_values(f));
    }
}

/// The event table of the HTML report: one row per event, in order.
pub proof fn lemma_sels_html_rows(xs: Seq<SelEntry>)
    ensures
        sels_html(xs) == concat_all(xs.map_values(|e: SelEntry| "<tr><td>"@ + escape(e.id@) + "</td><td>"@ + escape(e.date@) + " "@ + escape(e.time@) + "</td><td>"@ + escape(e.sensor@) + "</td><td>"@ + escape(e.event@) + "</td><td class='"@ + severity_class(e.severity@) + "'>"@ + escape(e.severity@) + "</td></tr>"@)),
    decreases xs.len(),
{
    if xs.len() > 0 {
        lemma_sels_html_rows(xs.drop_last());
        let f = |e: SelEntry| "<tr><td>"@ + escape(e.id@) + "</td><td>"@ + escape(e.date@) + " "@ + escape(e.time@) + "</td><td>"@ + escape(e.sensor@) + "</td><td>"@ + escape(e.event@) + "</td><td class='"@ + severity_class(e.severity@) + "'>"@ + escape(e.severity@) + "</td></tr>"@;
        assert(xs.map_values(f).drop_last() == xs.drop_last().map_values(f));
    }
}

/// The memory section of the plain-text report: its heading, the total, then its modules.
pub proof fn lemma_txt_memory_layout(r: SystemReport, time: Seq<char>)
    ensures
        exists|a: Seq<char>, b: Seq<char>|
            txt_report(r, time) == a + ("--- MEMORIA ---\n"@ + "Totale: "@ + r.memory.total_human@
                + " ("@ + dec(r.memory.total_kb as nat) + " KB)\n"@ + dimms_txt(r.memory.dimms@)
                + "\n"@) + b,
{
    reveal(txt_memory);
    let a = txt_head(r, time) + txt_bios_cpu(r);
    let b = ("--- STORAGE ---\n"@ + disks_txt(r.storage@) + txt_other_devices(r)) + txt_ipmi_notes(r);
    lemma_concat_associative(a + txt_memory(r), "--- STORAGE ---\n"@ + disks_txt(r.storage@) + txt_other_devices(r), txt_ipmi_notes(r));
    assert(txt_report(r, time) == a + txt_memory(r) + b);
}

/// The device sections of the plain-text report, in this order and with nothing between:
/// the storage heading and its disks, then the network heading and its interfaces, the PCI
/// heading and its devices, and the sensor heading and its readings.
pub proof fn lemma_txt_devices_layout(r: SystemReport, time: Seq<char>)
    ensures
        exists|a: Seq<char>, b: Seq<char>|
            txt_report(r, time) == a + ("--- STORAGE ---\n"@ + disks_txt(r.storage@)) + ("\n"@
                + "--- RETE ---\n"@ + nics_txt(r.network@) + "\n"@ + "--- PCI DEVICES ---\n"@
                + pcis_txt(r.pci_devices@) + "\n"@ + "--- SENSORI ---\n"@ + sensors_txt(r.sensors@)
                + "\n"@) + b,
{
    reveal(txt_other_devices);
    let a = txt_head(r, time) + txt_bios_cpu(r) + txt_memory(r);
    let s = "--- STORAGE ---\n"@ + disks_txt(r.storage@);
    let o = txt_other_devices(r);
    lemma_concat_associative(a, s, o);
    assert(txt_report(r, time) == a + s + o + txt_ipmi_notes(r));
}

/// Where there is a BMC, the plain-text report holds its firmware line, its sensors and its
/// events, in this order and with nothing between; where there are notes, the report ends with
/// their heading and the notes.
pub proof fn lemma_txt_ipmi_layout(r: SystemReport, time: Seq<char>)
    ensures
        r.ipmi.available ==> exists|a: Seq<char>, b: Seq<char>|
            txt_report(r, time) == a + ("BMC Firmware: "@ + r.ipmi.bmc_firmware@ + "\n"@
                + ipmi_sensors_txt(r.ipmi.sensors@) + sels_txt(r.ipmi.sel_entries@)) + b,
        r.notes@.len() > 0 ==> exists|a: Seq<char>|
            txt_report(r, time) == a + ("--- NOTE ---\n"@ + notes_txt(r.notes@)),
{
    reveal(txt_ipmi_notes);
    let i = r.ipmi;
    let front = txt_head(r, time) + txt_bios_cpu(r) + txt_memory(r) + (
    "--- STORAGE ---\n"@ + disks_txt(r.storage@) + txt_other_devices(r));
    let bmc = if i.available {
        "BMC Firmware: "@ + i.bmc_firmware@ + "\n"@ + ipmi_sensors_txt(i.sensors@) + sels_txt(
            i.sel_entries@,
        )
    } else {
        Seq::empty()
    };
    let notes = if r.notes@.len() > 0 {
        "--- NOTE ---\n"@ + notes_txt(r.notes@)
    } else {
        Seq::empty()
    };
    let head = "--- IPMI ---\n"@ + "Disponibile: "@ + bool_text(i.available) + "\n"@;
    assert(txt_ipmi_notes(r) == head + bmc + "\n"@ + notes);
    lemma_concat_associative(front, head + bmc + "\n"@, notes);
    assert(txt_report(r, time) == front + (head + bmc + "\n"@) + notes);
    lemma_concat_associative(front, head + bmc, "\n"@);
    lemma_concat_associative(front, head, bmc);
    lemma_concat_associative(front + head + bmc, "\n"@, notes);
    assert(txt_report(r, time) == (front + head) + bmc + ("\n"@ + notes));
}

/// The device part of the HTML report, in this order and with nothing between: the storage
/// heading and its disks, then the network table with its interfaces, the PCI table with its
/// devices and the sensor table with its readings.
pub proof fn lemma_html_devices_layout(r: SystemReport, time: Seq<char>)
    ensures
        exists|a: Seq<char>, b: Seq<char>|
            html_report(r, time) == a + ("<h2>Storage</h2>"@ + disks_html(r.storage@)) + (
            "<h2>Network</h2><table><tr><th>Interface</th><th>MAC</th><th>Driver</th><th>Speed</th><th>Duplex</th></tr>"@
                + nics_html(r.network@) + "</table>"@
                + "<h2>PCI Devices</h2><table><tr><th>Slot</th><th>Class</th><th>Vendor</th><th>Device</th><th>Driver</th></tr>"@
                + pcis_html(r.pci_devices@) + "</table>"@
                + "<h2>Sensors</h2><table><tr><th>Name</th><th>Value</th><th>Unit</th><th>Status</th></tr>"@
                + sensors_html(r.sensors@) + "</table>"@) + b,
{
    reveal(html_other_devices);
    let a = html_head(r, time) + html_bios_cpu(r) + html_memory(r);
    let s = "<h2>Storage</h2>"@ + disks_html(r.storage@);
    let o = html_other_devices(r);
    lemma_concat_associative(a, s, o);
    assert(html_report(r, time) == a + s + o + html_ipmi(r));
}

/// Where there are modules, the HTML report holds the memory table with them.
pub proof fn lemma_html_memory_layout(r: SystemReport, time: Seq<char>)
    ensures
        r.memory.dimms@.len() > 0 ==> exists|a: Seq<char>, b: Seq<char>|
            html_report(r, time) == a + (
            "<table><tr><th>Locator</th><th>Size</th><th>Speed</th><th>Type</th><th>Part Number</th><th>Serial</th></tr>"@
                + dimms_html(r.memory.dimms@) + "</table>"@) + b,
{
    reveal(html_memory);
    if r.memory.dimms@.len() > 0 {
        let hb = html_head(r, time) + html_bios_cpu(r);
        let m = "<h2>Memory</h2>"@ + "<p><strong>Total:</strong> "@ + r.memory.total_human@
            + "</p>"@;
        let t = "<table><tr><th>Locator</th><th>Size</th><th>Speed</th><th>Type</th><th>Part Number</th><th>Serial</th></tr>"@
            + dimms_html(r.memory.dimms@) + "</table>"@;
        let rest = html_devices(r) + html_ipmi(r);
        assert(html_memory(r) == m + t);
        lemma_concat_associative(hb, m, t);
        lemma_concat_associative(hb + m + t, html_devices(r), html_ipmi(r));
        assert(html_report(r, time) == (hb + m) + t + rest);
    }
}

/// Where there is a BMC, the HTML report holds its sensor table with its sensors where it has
/// any, and its event table with its events where it has any.
pub proof fn lemma_html_ipmi_layout(r: SystemReport, time: Seq<char>)
    ensures
        r.ipmi.available && r.ipmi.sensors@.len() > 0 ==> exists|a: Seq<char>, b: Seq<char>|
            html_report(r, time) == a + (
            "<table><tr><th>Sensor</th><th>Value</th><th>Status</th></tr>"@ + ipmi_sensors_html(
                r.ipmi.sensors@,
            ) + "</table>"@) + b,
        r.ipmi.available && r.ipmi.sel_entries@.len() > 0 ==> exists|a: Seq<char>, b: Seq<char>|
            html_report(r, time) == a + (
            "<h3>SEL Log</h3><table><tr><th>ID</th><th>Date</th><th>Sensor</th><th>Event</th><th>Severity</th></tr>"@
                + sels_html(r.ipmi.sel_entries@) + "</table>"@) + b,
{
    reveal(html_ipmi);
    let i = r.ipmi;
    if i.available {
        let front = html_head(r, time) + html_bios_cpu(r) + html_memory(r) + html_devices(r);
        let fw = "<p><strong>BMC Firmware:</strong> "@ + escape(i.bmc_firmware@) + "</p>"@;
        let sens = if i.sensors@.len() > 0 {
            "<table><tr><th>Sensor</th><th>Value</th><th>Status</th></tr>"@ + ipmi_sensors_html(
                i.sensors@,
            ) + "</table>"@
        } else {
            Seq::empty()
        };
        let sels = if i.sel_entries@.len() > 0 {
            "<h3>SEL Log</h3><table><tr><th>ID</th><th>Date</th><th>Sensor</th><th>Event</th><th>Severity</th></tr>"@
                + sels_html(i.sel_entries@) + "</table>"@
        } else {
            Seq::empty()
        };
        let end = "<hr/><p style='color:#888;font-size:12px;'>Generated by Hardware Agent USB</p>"@
            + "</body></html>"@;
        let h = "<h2>IPMI</h2>"@;
        assert(html_bmc(r) == fw + sens + sels);
        assert(html_ipmi(r) == h + (fw + sens + sels) + end);
        assert(html_report(r, time) == front + (h + (fw + sens + sels) + end));
        lemma_concat_associative(front, h + (fw + sens + sels), end);
        lemma_concat_associative(front, h, fw + sens + sels);
        lemma_concat_associative(front + h, fw + sens, sels);
        lemma_concat_associative(front + h, fw, sens);
        let p = front + h + fw;
        assert(html_report(r, time) == p + sens + sels + end);
        lemma_concat_associative(p + sens, sels, end);
        lemma_concat_associative(p, sens, sels + end);
    }
}

} // verus!
