use hwagent::report::html::{generate_html, html_escape, render_html, table_row};
use hwagent::models::{
    BiosInfo, CpuInfo, IpmiInfo, IpmiSensor, MemoryDimm, MemoryInfo, NetworkInterface, PciDevice,
    SelEntry, SensorReading, SmartAttribute, StorageDevice, SystemInfo, SystemReport,
};
use hwagent::output::{completion_text, file_name, report_base_name, report_serial};
use hwagent::report::txt::{generate_txt, render_txt};
use hwagent::clock::{file_pattern, report_pattern, time_text};

fn sample(available: bool, notes: Vec<String>) -> SystemReport {
    SystemReport {
        scan_timestamp: 1_700_000_000,
        system_info: SystemInfo {
            manufacturer: "Dell <Inc.>".to_string(),
            product_name: "PowerEdge \"R640\"".to_string(),
            version: "1".to_string(),
            serial_number: "ABC&123".to_string(),
            sku: "sku".to_string(),
            asset_tag: "tag".to_string(),
            uuid: "uuid".to_string(),
            family: "fam".to_string(),
        },
        bios: BiosInfo {
            vendor: "Dell".to_string(),
            version: "2.1".to_string(),
            date: "01/01/2021".to_string(),
            release: "2.1".to_string(),
        },
        cpu: CpuInfo {
            vendor_id: "GenuineIntel".to_string(),
            model_name: "Xeon".to_string(),
            cores: 8,
            threads: 16,
            sockets: 2,
            architecture: "x86_64".to_string(),
            flags: vec!["fpu".to_string()],
            vulnerabilities: Vec::new(),
        },
        memory: MemoryInfo {
            total_kb: 16318412,
            total_human: "15.6 GB".to_string(),
            dimms: vec![MemoryDimm {
                locator: "DIMM_A1".to_string(),
                size_kb: 16777216,
                size_human: "16 GB".to_string(),
                speed_mhz: 2666,
                manufacturer: "Samsung".to_string(),
                part_number: "M393<x>".to_string(),
                serial_number: "1234".to_string(),
                memory_type: "DDR4".to_string(),
                rank: "2".to_string(),
                status: String::new(),
            }],
        },
        storage: vec![
            StorageDevice {
                device: "/dev/sda".to_string(),
                model: "SSD".to_string(),
                serial: "S1".to_string(),
                firmware: "F1".to_string(),
                capacity_human: "500 GB".to_string(),
                smart_health: "Passed".to_string(),
                smart_attributes: vec![SmartAttribute {
                    id: 9,
                    name: "Power_On_Hours".to_string(),
                    value: 95,
                    worst: 95,
                    threshold: 0,
                    raw: "21000".to_string(),
                    flag: "0x0032".to_string(),
                    status: "ok".to_string(),
                }],
                power_on_hours: 21000,
                power_cycle_count: 77,
                temperature: 36,
                notes: Vec::new(),
            },
            StorageDevice {
                device: "/dev/sdb".to_string(),
                model: String::new(),
                serial: String::new(),
                firmware: String::new(),
                capacity_human: String::new(),
                smart_health: "unknown".to_string(),
                smart_attributes: Vec::new(),
                power_on_hours: 0,
                power_cycle_count: 0,
                temperature: -5,
                notes: Vec::new(),
            },
        ],
        network: vec![NetworkInterface {
            name: "eno1".to_string(),
            mac_address: "aa:bb".to_string(),
            driver: "ixgbe".to_string(),
            speed_mbps: 10000,
            duplex: "full".to_string(),
            is_virtual: false,
        }],
        pci_devices: vec![PciDevice {
            slot: "00:00.0".to_string(),
            class: "Host bridge".to_string(),
            vendor: "8086".to_string(),
            device: "1237".to_string(),
            subsystem: "1af4:1100".to_string(),
            kernel_driver: "virtio-pci".to_string(),
            kernel_modules: vec!["virtio_pci".to_string()],
        }],
        sensors: vec![SensorReading {
            name: "coretemp_temp1".to_string(),
            value: format!("{:.2}", 45.0f64),
            unit: "C".to_string(),
            status: "ok".to_string(),
        }],
        ipmi: IpmiInfo {
            available: available,
            bmc_firmware: "2.45".to_string(),
            sensors: vec![IpmiSensor {
                name: "CPU Temp".to_string(),
                value: "45".to_string(),
                unit: String::new(),
                status: "ok".to_string(),
            }],
            sel_entries: vec![
                SelEntry {
                    id: "1".to_string(),
                    date: "01/02/2024".to_string(),
                    time: "10:11:12".to_string(),
                    sensor: "Temp".to_string(),
                    event: "Upper Critical".to_string(),
                    severity: "critical".to_string(),
                },
                SelEntry {
                    id: "2".to_string(),
                    date: "d".to_string(),
                    time: "t".to_string(),
                    sensor: "Fan".to_string(),
                    event: "Low".to_string(),
                    severity: "warning".to_string(),
                },
                SelEntry {
                    id: "3".to_string(),
                    date: "d".to_string(),
                    time: "t".to_string(),
                    sensor: "PSU".to_string(),
                    event: "ok".to_string(),
                    severity: "info".to_string(),
                },
            ],
        },
        notes: notes,
    }
}

fn esc(s: &str) -> String {
    s.replace('&', "&amp;").replace('<', "&lt;").replace('>', "&gt;").replace('"', "&quot;")
}

fn expected_txt(r: &SystemReport, when: &str) -> String {
    let mut t = String::new();
    t += "========================================\n   HARDWARE AGENT - RAPPORTO SERVER\n========================================\n\n";
    t += &format!("Data scansione: {}\n", when);
    t += &format!("Serial Number:   {}\n", r.system_info.serial_number);
    t += &format!("Prodotto:        {} {}\n", r.system_info.manufacturer, r.system_info.product_name);
    t += &format!("Versione:        {}\n", r.system_info.version);
    t += &format!("Asset Tag:       {}\n", r.system_info.asset_tag);
    t += &format!("UUID:            {}\n\n", r.system_info.uuid);
    t += &format!("--- BIOS ---\nVendor:  {}\nVersion: {}\nDate:    {}\nRelease: {}\n\n", r.bios.vendor, r.bios.version, r.bios.date, r.bios.release);
    t += &format!("--- CPU ---\n{}\nSocket: {} | Core: {} | Thread: {}\nArch:   {} | Vendor: {}\n\n", r.cpu.model_name, r.cpu.sockets, r.cpu.cores, r.cpu.threads, r.cpu.architecture, r.cpu.vendor_id);
    t += &format!("--- MEMORIA ---\nTotale: {} ({} KB)\n", r.memory.total_human, r.memory.total_kb);
    for d in &r.memory.dimms {
        t += &format!("  {} | {} | {} MHz | {} | {} | SN:{}\n", d.locator, d.size_human, d.speed_mhz, d.memory_type, d.manufacturer, d.serial_number);
    }
    t += "\n--- STORAGE ---\n";
    for d in &r.storage {
        t += &format!("  {} | {} | {} | Health: {}\n    Serial: {} | Firmware: {} | Temp: {}C\n    PowerOnHours: {} | PowerCycles: {}\n", d.device, d.model, d.capacity_human, d.smart_health, d.serial, d.firmware, d.temperature, d.power_on_hours, d.power_cycle_count);
    }
    t += "\n--- RETE ---\n";
    for n in &r.network {
        t += &format!("  {} | MAC: {} | Driver: {} | Speed: {} Mbps | {}\n", n.name, n.mac_address, n.driver, n.speed_mbps, n.duplex);
    }
    t += "\n--- PCI DEVICES ---\n";
    for d in &r.pci_devices {
        t += &format!("  {} | {} | {} | Driver: {}\n", d.slot, d.vendor, d.device, d.kernel_driver);
    }
    t += "\n--- SENSORI ---\n";
    for s in &r.sensors {
        t += &format!("  {}: {} {} | {}\n", s.name, s.value, s.unit, s.status);
    }
    t += &format!("\n--- IPMI ---\nDisponibile: {}\n", r.ipmi.available);
    if r.ipmi.available {
        t += &format!("BMC Firmware: {}\n", r.ipmi.bmc_firmware);
        for s in &r.ipmi.sensors {
            t += &format!("  {}: {} | {}\n", s.name, s.value, s.status);
        }
        for e in &r.ipmi.sel_entries {
            t += &format!("  SEL [{}] {} {} | {} | {} | {}\n", e.id, e.date, e.time, e.sensor, e.event, e.severity);
        }
    }
    t += "\n";
    if !r.notes.is_empty() {
        t += "--- NOTE ---\n";
        for n in &r.notes {
            t += &format!("  - {}\n", n);
        }
    }
    t
}

fn row(l: &str, v: &str) -> String {
    format!("<tr><th>{}</th><td>{}</td></tr>", esc(l), esc(v))
}

fn expected_html(r: &SystemReport, when: &str) -> String {
    let mut h = String::new();
    h += "<!DOCTYPE html><html><head><meta charset='utf-8'/><title>Hardware Report</title><style>body{font-family:Arial,Helvetica,sans-serif;margin:40px;color:#222;}h1{border-bottom:2px solid #333;padding-bottom:8px;}h2{color:#444;margin-top:30px;border-bottom:1px solid #ccc;padding-bottom:4px;}table{width:100%;border-collapse:collapse;margin-top:8px;}th,td{padding:8px 12px;text-align:left;border-bottom:1px solid #ddd;}th{background:#f5f5f5;font-weight:600;}.ok{color:green;}.warn{color:orange;}.critical{color:red;}.header-box{background:#2c3e50;color:#fff;padding:20px;border-radius:6px;}.header-box h1{margin:0;color:#fff;border:none;}.meta{color:#bdc3c7;margin-top:6px;}</style></head><body>";
    h += &format!("<div class='header-box'><h1>{} {}</h1><div class='meta'>Serial: {} | Scan: {}</div></div>", esc(&r.system_info.manufacturer), esc(&r.system_info.product_name), esc(&r.system_info.serial_number), when);
    h += &format!("<h2>BIOS</h2><table>{}{}{}</table>", row("Vendor", &r.bios.vendor), row("Version", &r.bios.version), row("Date", &r.bios.date));
    h += &format!("<h2>CPU</h2><table>{}{}{}{}{}</table>", row("Model", &r.cpu.model_name), row("Sockets", &r.cpu.sockets.to_string()), row("Cores", &r.cpu.cores.to_string()), row("Threads", &r.cpu.threads.to_string()), row("Architecture", &r.cpu.architecture));
    h += &format!("<h2>Memory</h2><p><strong>Total:</strong> {}</p>", r.memory.total_human);
    if !r.memory.dimms.is_empty() {
        h += "<table><tr><th>Locator</th><th>Size</th><th>Speed</th><th>Type</th><th>Part Number</th><th>Serial</th></tr>";
        for d in &r.memory.dimms {
            h += &format!("<tr><td>{}</td><td>{}</td><td>{} MHz</td><td>{}</td><td>{}</td><td>{}</td></tr>", esc(&d.locator), esc(&d.size_human), d.speed_mhz, esc(&d.memory_type), esc(&d.part_number), esc(&d.serial_number));
        }
        h += "</table>";
    }
    h += "<h2>Storage</h2>";
    for d in &r.storage {
        let class = if d.smart_health.to_lowercase().contains("passed") { "ok" } else { "warn" };
        h += &format!("<h3>{} <span class='{}'>[{}]</span></h3><table>", esc(&d.device), class, esc(&d.smart_health));
        h += &row("Model", &d.model);
        h += &row("Serial", &d.serial);
        h += &row("Firmware", &d.firmware);
        h += &row("Capacity", &d.capacity_human);
        h += &row("Temperature", &format!("{} C", d.temperature));
        h += &row("Power On Hours", &d.power_on_hours.to_string());
        h += &row("Power Cycles", &d.power_cycle_count.to_string());
        h += "</table>";
    }
    h += "<h2>Network</h2><table><tr><th>Interface</th><th>MAC</th><th>Driver</th><th>Speed</th><th>Duplex</th></tr>";
    for n in &r.network {
        h += &format!("<tr><td>{}</td><td>{}</td><td>{}</td><td>{} Mbps</td><td>{}</td></tr>", esc(&n.name), esc(&n.mac_address), esc(&n.driver), n.speed_mbps, esc(&n.duplex));
    }
    h += "</table><h2>PCI Devices</h2><table><tr><th>Slot</th><th>Class</th><th>Vendor</th><th>Device</th><th>Driver</th></tr>";
    for d in &r.pci_devices {
        h += &format!("<tr><td>{}</td><td>{}</td><td>{}</td><td>{}</td><td>{}</td></tr>", esc(&d.slot), esc(&d.class), esc(&d.vendor), esc(&d.device), esc(&d.kernel_driver));
    }
    h += "</table><h2>Sensors</h2><table><tr><th>Name</th><th>Value</th><th>Unit</th><th>Status</th></tr>";
    for s in &r.sensors {
        h += &format!("<tr><td>{}</td><td>{}</td><td>{}</td><td>{}</td></tr>", esc(&s.name), s.value, esc(&s.unit), esc(&s.status));
    }
    h += "</table><h2>IPMI</h2>";
    if r.ipmi.available {
        h += &format!("<p><strong>BMC Firmware:</strong> {}</p>", esc(&r.ipmi.bmc_firmware));
        if !r.ipmi.sensors.is_empty() {
            h += "<table><tr><th>Sensor</th><th>Value</th><th>Status</th></tr>";
            for s in &r.ipmi.sensors {
                h += &format!("<tr><td>{}</td><td>{}</td><td>{}</td></tr>", esc(&s.name), esc(&s.value), esc(&s.status));
            }
            h += "</table>";
        }
        if !r.ipmi.sel_entries.is_empty() {
            h += "<h3>SEL Log</h3><table><tr><th>ID</th><th>Date</th><th>Sensor</th><th>Event</th><th>Severity</th></tr>";
            for e in &r.ipmi.sel_entries {
                let class = if e.severity == "critical" { "critical" } else if e.severity == "warning" { "warn" } else { "ok" };
                h += &format!("<tr><td>{}</td><td>{} {}</td><td>{}</td><td>{}</td><td class='{}'>{}</td></tr>", esc(&e.id), esc(&e.date), esc(&e.time), esc(&e.sensor), esc(&e.event), class, esc(&e.severity));
            }
            h += "</table>";
        }
    } else {
        h += "<p>IPMI not available on this system.</p>";
    }
    h += "<hr/><p style='color:#888;font-size:12px;'>Generated by Hardware Agent USB</p></body></html>";
    h
}

#[test]
fn txt_report_with_bmc_and_notes() {
    let r = sample(true, vec!["USB stick not found".to_string(), "PDF skipped".to_string()]);
    let got = generate_txt(&r);
    assert_eq!(got, expected_txt(&r, "2023-11-14 22:13:20 UTC"));
    assert!(got.contains("Data scansione: 2023-11-14 22:13:20 UTC\n"));
    assert!(got.contains("    Serial:  | Firmware:  | Temp: -5C\n"));
    assert!(got.contains("  SEL [1] 01/02/2024 10:11:12 | Temp | Upper Critical | critical\n"));
    assert!(got.ends_with("--- NOTE ---\n  - USB stick not found\n  - PDF skipped\n"));
}

#[test]
fn txt_report_without_bmc() {
    let r = sample(false, Vec::new());
    let got = render_txt(&r, "T");
    assert_eq!(got, expected_txt(&r, "T"));
    assert!(got.ends_with("--- IPMI ---\nDisponibile: false\n\n"));
    assert!(!got.contains("BMC Firmware"));
}

#[test]
fn html_report_with_bmc() {
    let r = sample(true, Vec::new());
    let got = generate_html(&r);
    assert_eq!(got, expected_html(&r, "2023-11-14 22:13:20 UTC"));
    assert!(got.contains("<h1>Dell &lt;Inc.&gt; PowerEdge &quot;R640&quot;</h1>"));
    assert!(got.contains("<span class='ok'>[Passed]</span>"));
    assert!(got.contains("<span class='warn'>[unknown]</span>"));
    assert!(got.contains("<td class='warn'>warning</td>"));
}

#[test]
fn html_report_without_bmc() {
    let r = sample(false, Vec::new());
    let got = render_html(&r, "when");
    assert_eq!(got, expected_html(&r, "when"));
    assert!(got.contains("<p>IPMI not available on this system.</p>"));
}

#[test]
fn escaping() {
    assert_eq!(html_escape("a & b < c > d \" e ' f"), "a &amp; b &lt; c &gt; d &quot; e ' f");
    assert_eq!(html_escape("&amp;"), "&amp;amp;");
    assert_eq!(html_escape(""), "");
    for s in ["<script>alert(\"x\")</script>", "plain", "&&<<>>\"\"", "é&ü"] {
        assert_eq!(html_escape(s), esc(s));
        let e = html_escape(s);
        assert!(!e.contains('<') && !e.contains('>') && !e.contains('"'));
        let back = e.replace("&quot;", "\"").replace("&gt;", ">").replace("&lt;", "<").replace("&amp;", "&");
        assert_eq!(back, s);
    }
    assert_eq!(table_row("A&B", "<x>"), "<tr><th>A&amp;B</th><td>&lt;x&gt;</td></tr>");
}

#[test]
fn report_file_names() {
    assert_eq!(report_serial(""), "unknown");
    assert_eq!(report_serial("ABC"), "ABC");
    assert_eq!(report_base_name("ABC123", 1_700_000_000), "Report_Server_ABC123_2023-11-14_22-13-20");
    assert_eq!(report_base_name("", 0), "Report_Server_unknown_1970-01-01_00-00-00");
    assert_eq!(file_name("Report_Server_X_T", "txt"), "Report_Server_X_T.txt");
}

#[test]
fn completion_note() {
    let got = completion_text(1_700_000_000, "ABC", 2, 7, "a.txt", "a.pdf");
    assert_eq!(
        got,
        "SCAN COMPLETATO\nTimestamp: 2023-11-14 22:13:20 UTC\nSerial: ABC\nDischi rilevati: 2\nSensori rilevati: 7\nFile generati:\n  - a.txt\n  - a.pdf\n"
    );
    let far = completion_text(i64::MAX, "S", 0, 0, "t", "p");
    assert!(far.starts_with("SCAN COMPLETATO\nTimestamp: \nSerial: S\n"));
}

fn calendar(secs: i64) -> Option<String> {
    let z = secs.div_euclid(86_400) + 719_468;
    let sod = secs.rem_euclid(86_400);
    let era = z.div_euclid(146_097);
    let doe = z.rem_euclid(146_097);
    let yoe = (doe - doe / 1460 + doe / 36_524 - doe / 146_096) / 365;
    let doy = doe - (365 * yoe + yoe / 4 - yoe / 100);
    let mp = (5 * doy + 2) / 153;
    let d = doy - (153 * mp + 2) / 5 + 1;
    let m = if mp < 10 { mp + 3 } else { mp - 9 };
    let y = yoe + era * 400 + if m <= 2 { 1 } else { 0 };
    if y < -262_143 || y > 262_142 {
        return None;
    }
    let year = if (0..=9999).contains(&y) {
        format!("{:04}", y)
    } else if y > 9999 {
        format!("+{:04}", y)
    } else {
        format!("-{:04}", -y)
    };
    Some(format!(
        "{}-{:02}-{:02} {:02}:{:02}:{:02} UTC",
        year,
        m,
        d,
        sod / 3600,
        sod % 3600 / 60,
        sod % 60
    ))
}

#[test]
fn scan_time_follows_the_calendar() {
    assert_eq!(time_text(0, report_pattern()), "1970-01-01 00:00:00 UTC");
    assert_eq!(time_text(-1, report_pattern()), "1969-12-31 23:59:59 UTC");
    assert_eq!(time_text(951_782_400, report_pattern()), "2000-02-29 00:00:00 UTC");
    assert_eq!(time_text(-62_135_596_801, report_pattern()), "0000-12-31 23:59:59 UTC");
    assert_eq!(time_text(253_402_300_800, report_pattern()), "+10000-01-01 00:00:00 UTC");
    assert_eq!(time_text(1_700_000_000, file_pattern()), "2023-11-14_22-13-20");
    assert_eq!(time_text(i64::MAX, report_pattern()), "");
    assert_eq!(time_text(i64::MIN, report_pattern()), "");
    let mut secs: i64 = -8_400_000_000_000;
    while secs < 8_300_000_000_000 {
        let want = calendar(secs).unwrap_or_default();
        assert_eq!(time_text(secs, report_pattern()), want, "secs = {}", secs);
        secs += 7_777_777_777;
    }
    for secs in [
        8_210_266_876_799i64,
        8_210_266_876_800,
        -8_334_601_228_800,
        -8_334_601_228_801,
        -62_167_219_200,
        -62_167_219_201,
        4_102_444_800,
        951_868_799,
    ] {
        assert_eq!(time_text(secs, report_pattern()), calendar(secs).unwrap_or_default(), "secs = {}", secs);
    }
}

#[test]
fn report_data_adds_no_markup() {
    let plain = sample(true, Vec::new());
    let mut marked = sample(true, Vec::new());
    marked.system_info.manufacturer = "<script>".to_string();
    marked.bios.vendor = "a>b<c".to_string();
    marked.storage[0].model = "<<>>".to_string();
    marked.sensors[0].value = "<b>".to_string();
    marked.ipmi.sel_entries[0].event = "</td>".to_string();
    let a = render_html(&plain, "T");
    let b = render_html(&marked, "T");
    assert_ne!(a, b);
    assert_eq!(a.matches('<').count(), b.matches('<').count());
    assert_eq!(a.matches('>').count(), b.matches('>').count());
    assert!(b.contains("<td>&lt;b&gt;</td>"));
}
