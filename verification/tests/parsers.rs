use hwagent::collectors::dmi::{collect_bios, collect_cpu, collect_memory, collect_system_info, parse_dmidecode_memory};
use hwagent::collectors::ipmi::collect_ipmi;
use hwagent::collectors::network::{collect_network, NetEntry};
use hwagent::output::mount_candidates;
use hwagent::collectors::pci::{collect_pci, parse_lspci, SysfsPci};
use hwagent::collectors::sensors::{collect_sensors, hwmon_sensor, parse_sensors_u};
use hwagent::collectors::smart::{collect_storage, parse_smart, scan_devices, SmartProbe};

const SMART_SATA: &str = "smartctl 7.3 2022-02-28 r5338 [x86_64-linux-6.1.0] (local build)
Copyright (C) 2002-22, Bruce Allen, Christian Franke, www.smartmontools.org

=== START OF INFORMATION SECTION ===
Model Family:     Samsung based SSDs
Device Model:     Samsung SSD 860 EVO 500GB
Serial Number:    S3Z2NB0K123456A
Firmware Version: RVT02B6Q
User Capacity:    500,107,862,016 bytes [500 GB]

=== START OF READ SMART DATA SECTION ===
SMART overall-health self-assessment test result: PASSED

ID# ATTRIBUTE_NAME          FLAG     VALUE WORST THRESH TYPE      UPDATED  WHEN_FAILED RAW_VALUE
  5 Reallocated_Sector_Ct   0x0033   100   100   010    Pre-fail  Always       -       0
0x09 Power_On_Hours 0x0032 095 094 000 Old_age Always - 21000 (12 3)
0x0C Power_Cycle_Count 0x0032 099 099 000 Old_age Always -
Power_On_Hours 0x0032 095 095 000 Old_age Always - 21000
Power_Cycle_Count 0x0032 099 099 000 Old_age Always - 77
Temperature_Celsius 0x0022 064 051 000 Old_age Always - 36 (Min/Max 20/49)
";

#[test]
fn smart_sata_report() {
    let d = parse_smart("/dev/sda", SMART_SATA);
    assert_eq!(d.device, "/dev/sda");
    assert_eq!(d.model, "Samsung SSD 860 EVO 500GB");
    assert_eq!(d.serial, "S3Z2NB0K123456A");
    assert_eq!(d.firmware, "RVT02B6Q");
    assert_eq!(d.capacity_human, "500,107,862,016 bytes [500 GB]");
    assert_eq!(d.smart_health, "PASSED");
    assert_eq!(d.power_on_hours, 21000);
    assert_eq!(d.power_cycle_count, 77);
    assert_eq!(d.temperature, 64);
    assert_eq!(d.smart_attributes.len(), 1);
    let a = &d.smart_attributes[0];
    assert_eq!(a.id, 9);
    assert_eq!(a.name, "Power_On_Hours");
    assert_eq!(a.flag, "0x0032");
    assert_eq!(a.value, 95);
    assert_eq!(a.worst, 94);
    assert_eq!(a.threshold, 0);
    assert_eq!(a.raw, "21000 (12 3)");
    assert_eq!(a.status, "ok");
}

#[test]
fn smart_nvme_report() {
    let text = "Model Number:                       Samsung SSD 970\nSerial Number:                      S4EWNX0N\nFirmware Version:                   2B2QEXM7\nSMART overall-health self-assessment test result: FAILED!\nTemperature:                        35 Celsius\nTemperature Sensor 1:               41 Celsius\n";
    let d = parse_smart("/dev/nvme0", text);
    assert_eq!(d.model, "");
    assert_eq!(d.serial, "S4EWNX0N");
    assert_eq!(d.smart_health, "FAILED!");
    // The later line's first word that reads as a temperature is the `1` of "1:".
    assert_eq!(d.temperature, 1);
    assert_eq!(d.power_on_hours, 0);
}

#[test]
fn smart_health_unknown_when_missing() {
    let d = parse_smart("/dev/sdz", "nothing useful\r\nTemperature: 150 C\n");
    assert_eq!(d.smart_health, "unknown");
    assert_eq!(d.temperature, 0);
    assert!(d.smart_attributes.is_empty());
}

#[test]
fn smart_scan_devices() {
    let scan = "/dev/sda -d sat # /dev/sda [SAT], ATA device\n/dev/nvme0 -d nvme # /dev/nvme0, NVMe device\n\n# comment\ndev/sdx foo\n";
    let devs = scan_devices(scan);
    assert_eq!(devs, vec!["/dev/sda".to_string(), "/dev/nvme0".to_string()]);
}

#[test]
fn storage_skips_probes_that_did_not_run() {
    let probes = vec![
        SmartProbe { device: "/dev/sda".to_string(), output: Some(SMART_SATA.to_string()) },
        SmartProbe { device: "/dev/sdb".to_string(), output: None },
        SmartProbe { device: "/dev/sdc".to_string(), output: Some(String::new()) },
    ];
    let disks = collect_storage(&probes);
    assert_eq!(disks.len(), 2);
    assert_eq!(disks[0].device, "/dev/sda");
    assert_eq!(disks[1].device, "/dev/sdc");
    assert_eq!(disks[1].smart_health, "unknown");
}

const LSPCI: &str = "00:00.0 Host bridge [0600]: Intel Corporation 440FX - 82441FX PMC [Natoma] [8086:1237] (rev 02)
\tSubsystem: Red Hat, Inc. Qemu virtual machine [1af4:1100]
\tKernel driver in use: virtio-pci
\tKernel modules: virtio_pci, foo
00:01.0 ISA bridge [0601]: Intel Corporation 82371SB PIIX3 ISA [Natoma/Triton II] [8086:7000]
\tClass  foo: Bar device
no colon here
";

#[test]
fn lspci_devices() {
    let ds = parse_lspci(LSPCI);
    assert_eq!(ds.len(), 2);
    assert_eq!(ds[0].slot, "00:00.0");
    assert_eq!(ds[0].vendor, "8086");
    assert_eq!(ds[0].device, "1237");
    assert_eq!(ds[0].subsystem, "1af4:1100");
    assert_eq!(ds[0].kernel_driver, "virtio-pci");
    assert_eq!(ds[0].kernel_modules, vec!["virtio_pci".to_string(), "foo".to_string()]);
    assert_eq!(ds[1].slot, "00:01.0");
    assert_eq!(ds[1].vendor, "8086");
    assert_eq!(ds[1].device, "7000");
    assert_eq!(ds[1].class, "Bar device");
    assert_eq!(ds[1].kernel_driver, "");
}

#[test]
fn pci_falls_back_to_sysfs() {
    let sysfs = vec![SysfsPci {
        slot: "0000:00:02.0".to_string(),
        vendor: "0x8086\n".to_string(),
        device: "0x3e92\n".to_string(),
        class: "0x030000\n".to_string(),
        driver: String::new(),
    }];
    let from_lspci = collect_pci(Some(LSPCI), &sysfs);
    assert_eq!(from_lspci.len(), 2);
    let none = collect_pci(None, &sysfs);
    assert_eq!(none.len(), 1);
    assert_eq!(none[0].slot, "0000:00:02.0");
    assert_eq!(none[0].vendor, "0x8086");
    assert_eq!(none[0].device, "0x3e92");
    assert_eq!(none[0].class, "0x030000");
    assert!(none[0].kernel_modules.is_empty());
    let empty = collect_pci(Some("\tnothing\n"), &sysfs);
    assert_eq!(empty.len(), 1);
}

const DMIDECODE: &str = "# dmidecode 3.4
Handle 0x1100, DMI type 17, 40 bytes
Memory Device
\tTotal Width: 72 bits
\tSize: 16 GB
\tLocator: DIMM_A1
\tBank Locator: NODE 1
\tType: DDR4
\tType Detail: Synchronous Registered (Buffered)
\tSpeed: 2666 MT/s
\tManufacturer: Samsung
\tSerial Number: 12345678
\tPart Number: M393A2K43CB2-CTD
\tRank: 2
Handle 0x1101, DMI type 17, 40 bytes
Memory Device
\tSize: 512 MB
\tLocator: DIMM_A2
Handle 0x1102, DMI type 17, 40 bytes
Memory Device
\tSize: No Module Installed
";

#[test]
fn dmidecode_modules() {
    let ds = parse_dmidecode_memory(DMIDECODE);
    assert_eq!(ds.len(), 2);
    assert_eq!(ds[0].locator, "DIMM_A1");
    assert_eq!(ds[0].size_human, "16 GB");
    assert_eq!(ds[0].size_kb, 16 * 1024 * 1024);
    assert_eq!(ds[0].speed_mhz, 2666);
    assert_eq!(ds[0].memory_type, "DDR4");
    assert_eq!(ds[0].manufacturer, "Samsung");
    assert_eq!(ds[0].serial_number, "12345678");
    assert_eq!(ds[0].part_number, "M393A2K43CB2-CTD");
    assert_eq!(ds[0].rank, "2");
    assert_eq!(ds[1].locator, "DIMM_A2");
    assert_eq!(ds[1].size_kb, 512 * 1024);
    assert_eq!(ds[1].speed_mhz, 0);
}

#[test]
fn dimm_size_wraps_like_u64() {
    let text = "Memory Device\nLocator: X\nSize: 18446744073709551615 GB\n";
    let ds = parse_dmidecode_memory(text);
    assert_eq!(ds[0].size_kb, 18446744073709551615u64.wrapping_mul(1048576));
}

#[test]
fn memory_summary() {
    let meminfo = "MemTotal:       16318412 kB\nMemFree:         1234 kB\n";
    let m = collect_memory(Some(meminfo), Some(DMIDECODE));
    assert_eq!(m.total_kb, 16318412);
    assert_eq!(m.total_human, "15.6 GB");
    assert_eq!(m.dimms.len(), 2);
    let none = collect_memory(None, None);
    assert_eq!(none.total_kb, 0);
    assert_eq!(none.total_human, "0 KB");
    assert!(none.dimms.is_empty());
}

const CPUINFO: &str = "processor\t: 0
vendor_id\t: GenuineIntel
model name\t: Intel(R) Xeon(R) CPU E5-2680 v4 @ 2.40GHz
physical id\t: 0
siblings\t: 4
flags\t\t: fpu vme de pse
processor\t: 1
vendor_id\t: GenuineIntel
model name\t: Other name
physical id\t: 0
siblings\t: 4
flags\t\t: fpu vme de pse sse
processor\t: 2
physical id\t: 1
";

#[test]
fn cpu_summary() {
    let c = collect_cpu(Some(CPUINFO), "x86_64");
    assert_eq!(c.vendor_id, "GenuineIntel");
    assert_eq!(c.model_name, "Intel(R) Xeon(R) CPU E5-2680 v4 @ 2.40GHz");
    assert_eq!(c.cores, 3);
    assert_eq!(c.threads, 4);
    assert_eq!(c.sockets, 2);
    assert_eq!(c.architecture, "x86_64");
    assert_eq!(c.flags, vec!["fpu", "vme", "de", "pse", "sse"]);
    assert!(c.vulnerabilities.is_empty());
}

#[test]
fn cpu_defaults() {
    let c = collect_cpu(Some("processor : 0\nprocessor : 1\nsiblings : many\n"), "aarch64");
    assert_eq!(c.cores, 2);
    assert_eq!(c.threads, 2);
    assert_eq!(c.sockets, 1);
    let none = collect_cpu(None, "x86_64");
    assert_eq!(none.cores, 0);
    assert_eq!(none.sockets, 0);
    assert_eq!(none.architecture, "x86_64");
}

#[test]
fn dmi_identity_is_trimmed() {
    let s = collect_system_info(" Dell Inc.\n", "PowerEdge R640\n", "", "ABC123\n", "SKU", "\n", "uuid-1\n", "fam");
    assert_eq!(s.manufacturer, "Dell Inc.");
    assert_eq!(s.product_name, "PowerEdge R640");
    assert_eq!(s.serial_number, "ABC123");
    assert_eq!(s.asset_tag, "");
    assert_eq!(s.uuid, "uuid-1");
    let b = collect_bios("Dell Inc.\n", "2.10.2\n", "02/24/2021\n", "2.10\n");
    assert_eq!(b.vendor, "Dell Inc.");
    assert_eq!(b.version, "2.10.2");
    assert_eq!(b.date, "02/24/2021");
    assert_eq!(b.release, "2.10");
}

#[test]
fn ipmi_unavailable() {
    let i = collect_ipmi(None, Some("A | 1 | x | ok\n"), Some("1 | a | b | c | d | e\n"));
    assert!(!i.available);
    assert_eq!(i.bmc_firmware, "");
    assert!(i.sensors.is_empty());
    assert!(i.sel_entries.is_empty());
}

#[test]
fn ipmi_available() {
    let mc = "Device ID                 : 32\nFirmware Revision         : 2.45\nIPMI Version              : 2.0\n";
    let sensors = "CPU Temp         | 45.000     | degrees C  | ok    | 0.000\nFan1 | 3000 | RPM\nbad line\n";
    let sel = "SEL Information\n   1 | 01/02/2024 | 10:11:12 | Temperature #0x30 | Upper Critical going high | Asserted\n   2 | 01/03/2024 | 11:00:00 | Fan #0x40 | Lower Warning | Deasserted | extra\n   3 | 01/04/2024 | 12:00:00 | Power | Unit\n\n   4 | x | y\n";
    let i = collect_ipmi(Some(mc), Some(sensors), Some(sel));
    assert!(i.available);
    assert_eq!(i.bmc_firmware, "2.45");
    assert_eq!(i.sensors.len(), 1);
    assert_eq!(i.sensors[0].name, "CPU Temp");
    assert_eq!(i.sensors[0].value, "45.000");
    assert_eq!(i.sensors[0].unit, "");
    assert_eq!(i.sensors[0].status, "ok");
    assert_eq!(i.sel_entries.len(), 3);
    let e = &i.sel_entries[0];
    assert_eq!(e.id, "1");
    assert_eq!(e.date, "01/02/2024");
    assert_eq!(e.time, "10:11:12");
    assert_eq!(e.sensor, "Upper Critical going high");
    assert_eq!(e.event, "Asserted");
    assert_eq!(e.severity, "critical");
    assert_eq!(i.sel_entries[1].severity, "warning");
    assert_eq!(i.sel_entries[1].event, "Deasserted | extra");
    assert_eq!(i.sel_entries[2].severity, "info");
    assert_eq!(i.sel_entries[2].event, "");
}

const SENSORS_U: &str = "coretemp-isa-0000
Adapter: ISA adapter
Package id 0:
  temp1_input: 45.000
  temp1_max: 80.000
Core 0:
  temp2_input: 43.000
  temp2_crit_alarm: 0.000

nct6775-isa-0290
in0:
  in0_input: 1.016
fan1:
  fan1_input: 1200.000
  fan2_input: N/A
";

#[test]
fn lm_sensors_readings() {
    let rs = parse_sensors_u(SENSORS_U);
    let got: Vec<(String, String, String)> =
        rs.iter().map(|r| (r.name.clone(), r.raw_value.clone(), r.unit.clone())).collect();
    assert_eq!(
        got,
        vec![
            ("Package id 0_temp1".to_string(), "45.000".to_string(), "C".to_string()),
            ("Core 0_temp2".to_string(), "43.000".to_string(), "C".to_string()),
            ("in0_in0".to_string(), "1.016".to_string(), "V".to_string()),
            ("fan1_fan1".to_string(), "1200.000".to_string(), "RPM".to_string()),
        ]
    );
    assert!(collect_sensors(None).is_empty());
    assert_eq!(collect_sensors(Some(SENSORS_U)).len(), 4);
}

#[test]
fn hwmon_names() {
    let t = hwmon_sensor("coretemp\n", "temp1_input").unwrap();
    assert_eq!(t.name, "coretemp_temp1");
    assert_eq!(t.unit, "C");
    assert!(t.milli);
    let f = hwmon_sensor("nct", "fan2_input").unwrap();
    assert_eq!(f.name, "nct_fan2");
    assert_eq!(f.unit, "RPM");
    assert!(!f.milli);
    let v = hwmon_sensor("nct", "in3_input_input").unwrap();
    assert_eq!(v.name, "nct_in3");
    assert_eq!(v.unit, "V");
    let p = hwmon_sensor("acpi", "power1_input").unwrap();
    assert_eq!(p.unit, "");
    assert!(hwmon_sensor("nct", "temp1_max").is_none());
}

#[test]
fn network_interfaces() {
    let entries = vec![
        NetEntry { name: "lo".to_string(), address: "00:00:00:00:00:00\n".to_string(), has_device: false, driver: String::new(), speed: None, duplex: None },
        NetEntry { name: "eno1".to_string(), address: "aa:bb:cc:dd:ee:ff\n".to_string(), has_device: true, driver: "ixgbe".to_string(), speed: Some("10000\n".to_string()), duplex: Some("full\n".to_string()) },
        NetEntry { name: "br0".to_string(), address: String::new(), has_device: false, driver: String::new(), speed: Some("-1\n".to_string()), duplex: None },
    ];
    let ns = collect_network(&entries);
    assert_eq!(ns.len(), 2);
    assert_eq!(ns[0].name, "eno1");
    assert_eq!(ns[0].mac_address, "aa:bb:cc:dd:ee:ff");
    assert_eq!(ns[0].driver, "ixgbe");
    assert_eq!(ns[0].speed_mbps, 10000);
    assert_eq!(ns[0].duplex, "full");
    assert!(!ns[0].is_virtual);
    assert_eq!(ns[1].speed_mbps, 0);
    assert_eq!(ns[1].duplex, "unknown");
    assert!(ns[1].is_virtual);
}

#[test]
fn usb_mount_candidates() {
    let mounts = "proc /proc proc rw 0 0\n/dev/sda1 /boot/efi vfat rw 0 0\n/dev/sdb1 /media/usb vfat rw 0 0\n/dev/sr0 /run/media/cd iso9660 ro 0 0\n/dev/nvme0n1p1 /mnt ext4 rw 0 0\n/dev/sdc\n";
    assert_eq!(mount_candidates(mounts), vec!["/media/usb".to_string(), "/run/media/cd".to_string()]);
}

#[test]
fn virtual_interfaces_have_no_driver() {
    let entries = vec![
        NetEntry { name: "veth0".to_string(), address: String::new(), has_device: false, driver: "stale".to_string(), speed: None, duplex: None },
        NetEntry { name: "eth0".to_string(), address: String::new(), has_device: true, driver: "e1000".to_string(), speed: None, duplex: None },
    ];
    let ns = collect_network(&entries);
    assert_eq!(ns.len(), 2);
    assert!(ns[0].is_virtual);
    assert_eq!(ns[0].driver, "");
    assert_eq!(ns[1].driver, "e1000");
    assert_ne!(ns[0].name, ns[1].name);
}
