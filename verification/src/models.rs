//! The records that the inventory is made of, each with a view over mathematical values.
use vstd::prelude::*;

verus! {

/// The characters of each string, in order.
pub open spec fn strings_of(v: Seq<String>) -> Seq<Seq<char>> {
    v.map_values(|s: String| s@)
}

#[derive(Debug)]
pub struct SystemInfo {
    pub manufacturer: String,
    pub product_name: String,
    pub version: String,
    pub serial_number: String,
    pub sku: String,
    pub asset_tag: String,
    pub uuid: String,
    pub family: String,
}

#[derive(Debug)]
pub struct BiosInfo {
    pub vendor: String,
    pub version: String,
    pub date: String,
    pub release: String,
}

#[derive(Debug)]
pub struct CpuInfo {
    pub vendor_id: String,
    pub model_name: String,
    pub cores: usize,
    pub threads: usize,
    pub sockets: usize,
    pub architecture: String,
    pub flags: Vec<String>,
    pub vulnerabilities: Vec<String>,
}

/// A processor summary, as values.
pub struct CpuView {
    pub vendor_id: Seq<char>,
    pub model_name: Seq<char>,
    pub cores: usize,
    pub threads: usize,
    pub sockets: usize,
    pub architecture: Seq<char>,
    pub flags: Seq<Seq<char>>,
    pub vulnerabilities: Seq<Seq<char>>,
}

impl View for CpuInfo {
    type V = CpuView;

    open spec fn view(&self) -> CpuView {
        CpuView {
            vendor_id: self.vendor_id@,
            model_name: self.model_name@,
            cores: self.cores,
            threads: self.threads,
            sockets: self.sockets,
            architecture: self.architecture@,
            flags: strings_of(self.flags@),
            vulnerabilities: strings_of(self.vulnerabilities@),
        }
    }
}

#[derive(Debug)]
pub struct MemoryInfo {
    pub total_kb: u64,
    pub total_human: String,
    pub dimms: Vec<MemoryDimm>,
}

#[derive(Debug)]
pub struct MemoryDimm {
    pub locator: String,
    pub size_kb: u64,
    pub size_human: String,
    pub speed_mhz: u32,
    pub manufacturer: String,
    pub part_number: String,
    pub serial_number: String,
    pub memory_type: String,
    pub rank: String,
    pub status: String,
}

/// A memory module, as values.
pub struct DimmView {
    pub locator: Seq<char>,
    pub size_kb: u64,
    pub size_human: Seq<char>,
    pub speed_mhz: u32,
    pub manufacturer: Seq<char>,
    pub part_number: Seq<char>,
    pub serial_number: Seq<char>,
    pub memory_type: Seq<char>,
    pub rank: Seq<char>,
    pub status: Seq<char>,
}

impl DimmView {
    pub open spec fn empty() -> DimmView {
        DimmView {
            locator: Seq::empty(),
            size_kb: 0,
            size_human: Seq::empty(),
            speed_mhz: 0,
            manufacturer: Seq::empty(),
            part_number: Seq::empty(),
            serial_number: Seq::empty(),
            memory_type: Seq::empty(),
            rank: Seq::empty(),
            status: Seq::empty(),
        }
    }
}

impl View for MemoryDimm {
    type V = DimmView;

    open spec fn view(&self) -> DimmView {
        DimmView {
            locator: self.locator@,
            size_kb: self.size_kb,
            size_human: self.size_human@,
            speed_mhz: self.speed_mhz,
            manufacturer: self.manufacturer@,
            part_number: self.part_number@,
            serial_number: self.serial_number@,
            memory_type: self.memory_type@,
            rank: self.rank@,
            status: self.status@,
        }
    }
}

impl MemoryDimm {
    pub fn empty() -> (res: MemoryDimm)
        ensures
            res@ == DimmView::empty(),
    {
        MemoryDimm {
            locator: String::new(),
            size_kb: 0,
            size_human: String::new(),
            speed_mhz: 0,
            manufacturer: String::new(),
            part_number: String::new(),
            serial_number: String::new(),
            memory_type: String::new(),
            rank: String::new(),
            status: String::new(),
        }
    }
}

pub open spec fn dimms_of(v: Seq<MemoryDimm>) -> Seq<DimmView> {
    v.map_values(|d: MemoryDimm| d@)
}

#[derive(Debug)]
pub struct StorageDevice {
    pub device: String,
    pub model: String,
    pub serial: String,
    pub firmware: String,
    pub capacity_human: String,
    pub smart_health: String,
    pub smart_attributes: Vec<SmartAttribute>,
    pub power_on_hours: u64,
    pub power_cycle_count: u64,
    pub temperature: i32,
    pub notes: Vec<String>,
}

#[derive(Debug)]
pub struct SmartAttribute {
    pub id: u8,
    pub name: String,
    pub value: u8,
    pub worst: u8,
    pub threshold: u8,
    pub raw: String,
    pub flag: String,
    pub status: String,
}

/// A SMART attribute, as values.
pub struct AttributeView {
    pub id: u8,
    pub name: Seq<char>,
    pub value: u8,
    pub worst: u8,
    pub threshold: u8,
    pub raw: Seq<char>,
    pub flag: Seq<char>,
    pub status: Seq<char>,
}

impl View for SmartAttribute {
    type V = AttributeView;

    open spec fn view(&self) -> AttributeView {
        AttributeView {
            id: self.id,
            name: self.name@,
            value: self.value,
            worst: self.worst,
            threshold: self.threshold,
            raw: self.raw@,
            flag: self.flag@,
            status: self.status@,
        }
    }
}

pub open spec fn attributes_of(v: Seq<SmartAttribute>) -> Seq<AttributeView> {
    v.map_values(|a: SmartAttribute| a@)
}

/// A disk, as values.
pub struct DiskView {
    pub device: Seq<char>,
    pub model: Seq<char>,
    pub serial: Seq<char>,
    pub firmware: Seq<char>,
    pub capacity_human: Seq<char>,
    pub smart_health: Seq<char>,
    pub smart_attributes: Seq<AttributeView>,
    pub power_on_hours: u64,
    pub power_cycle_count: u64,
    pub temperature: i32,
    pub notes: Seq<Seq<char>>,
}

impl View for StorageDevice {
    type V = DiskView;

    open spec fn view(&self) -> DiskView {
        DiskView {
            device: self.device@,
            model: self.model@,
            serial: self.serial@,
            firmware: self.firmware@,
            capacity_human: self.capacity_human@,
            smart_health: self.smart_health@,
            smart_attributes: attributes_of(self.smart_attributes@),
            power_on_hours: self.power_on_hours,
            power_cycle_count: self.power_cycle_count,
            temperature: self.temperature,
            notes: strings_of(self.notes@),
        }
    }
}

pub open spec fn disks_of(v: Seq<StorageDevice>) -> Seq<DiskView> {
    v.map_values(|d: StorageDevice| d@)
}

#[derive(Debug)]
pub struct NetworkInterface {
    pub name: String,
    pub mac_address: String,
    pub driver: String,
    pub speed_mbps: u64,
    pub duplex: String,
    pub is_virtual: bool,
}

/// A network interface, as values.
pub struct NetView {
    pub name: Seq<char>,
    pub mac_address: Seq<char>,
    pub driver: Seq<char>,
    pub speed_mbps: u64,
    pub duplex: Seq<char>,
    pub is_virtual: bool,
}

impl View for NetworkInterface {
    type V = NetView;

    open spec fn view(&self) -> NetView {
        NetView {
            name: self.name@,
            mac_address: self.mac_address@,
            driver: self.driver@,
            speed_mbps: self.speed_mbps,
            duplex: self.duplex@,
            is_virtual: self.is_virtual,
        }
    }
}

pub open spec fn nets_of(v: Seq<NetworkInterface>) -> Seq<NetView> {
    v.map_values(|n: NetworkInterface| n@)
}

#[derive(Debug)]
pub struct PciDevice {
    pub slot: String,
    pub class: String,
    pub vendor: String,
    pub device: String,
    pub subsystem: String,
    pub kernel_driver: String,
    pub kernel_modules: Vec<String>,
}

/// A PCI function, as values.
pub struct PciView {
    pub slot: Seq<char>,
    pub class: Seq<char>,
    pub vendor: Seq<char>,
    pub device: Seq<char>,
    pub subsystem: Seq<char>,
    pub kernel_driver: Seq<char>,
    pub kernel_modules: Seq<Seq<char>>,
}

impl PciView {
    pub open spec fn empty() -> PciView {
        PciView {
            slot: Seq::empty(),
            class: Seq::empty(),
            vendor: Seq::empty(),
            device: Seq::empty(),
            subsystem: Seq::empty(),
            kernel_driver: Seq::empty(),
            kernel_modules: Seq::empty(),
        }
    }
}

impl View for PciDevice {
    type V = PciView;

    open spec fn view(&self) -> PciView {
        PciView {
            slot: self.slot@,
            class: self.class@,
            vendor: self.vendor@,
            device: self.device@,
            subsystem: self.subsystem@,
            kernel_driver: self.kernel_driver@,
            kernel_modules: strings_of(self.kernel_modules@),
        }
    }
}

impl PciDevice {
    pub fn empty() -> (res: PciDevice)
        ensures
            res@ == PciView::empty(),
    {
        let res = PciDevice {
            slot: String::new(),
            class: String::new(),
            vendor: String::new(),
            device: String::new(),
            subsystem: String::new(),
            kernel_driver: String::new(),
            kernel_modules: Vec::new(),
        };
        assert(strings_of(res.kernel_modules@) == Seq::<Seq<char>>::empty());
        res
    }
}

pub open spec fn pci_of(v: Seq<PciDevice>) -> Seq<PciView> {
    v.map_values(|d: PciDevice| d@)
}

/// A sensor reading; `value` is the reading written with two decimals.
#[derive(Debug)]
pub struct SensorReading {
    pub name: String,
    pub value: String,
    pub unit: String,
    pub status: String,
}

#[derive(Debug)]
pub struct IpmiInfo {
    pub available: bool,
    pub bmc_firmware: String,
    pub sensors: Vec<IpmiSensor>,
    pub sel_entries: Vec<SelEntry>,
}

#[derive(Debug)]
pub struct IpmiSensor {
    pub name: String,
    pub value: String,
    pub unit: String,
    pub status: String,
}

/// A BMC sensor, as values.
pub struct IpmiSensorView {
    pub name: Seq<char>,
    pub value: Seq<char>,
    pub unit: Seq<char>,
    pub status: Seq<char>,
}

impl View for IpmiSensor {
    type V = IpmiSensorView;

    open spec fn view(&self) -> IpmiSensorView {
        IpmiSensorView {
            name: self.name@,
            value: self.value@,
            unit: self.unit@,
            status: self.status@,
        }
    }
}

pub open spec fn ipmi_sensors_of(v: Seq<IpmiSensor>) -> Seq<IpmiSensorView> {
    v.map_values(|s: IpmiSensor| s@)
}

#[derive(Debug)]
pub struct SelEntry {
    pub id: String,
    pub date: String,
    pub time: String,
    pub sensor: String,
    pub event: String,
    pub severity: String,
}

/// An event of the BMC's log, as values.
pub struct SelView {
    pub id: Seq<char>,
    pub date: Seq<char>,
    pub time: Seq<char>,
    pub sensor: Seq<char>,
    pub event: Seq<char>,
    pub severity: Seq<char>,
}

impl View for SelEntry {
    type V = SelView;

    open spec fn view(&self) -> SelView {
        SelView {
            id: self.id@,
            date: self.date@,
            time: self.time@,
            sensor: self.sensor@,
            event: self.event@,
            severity: self.severity@,
        }
    }
}

pub open spec fn sel_of(v: Seq<SelEntry>) -> Seq<SelView> {
    v.map_values(|s: SelEntry| s@)
}

/// Everything that one scan found; `scan_timestamp` is in seconds since the Unix epoch.
#[derive(Debug)]
pub struct SystemReport {
    pub scan_timestamp: i64,
    pub system_info: SystemInfo,
    pub bios: BiosInfo,
    pub cpu: CpuInfo,
    pub memory: MemoryInfo,
    pub storage: Vec<StorageDevice>,
    pub network: Vec<NetworkInterface>,
    pub pci_devices: Vec<PciDevice>,
    pub sensors: Vec<SensorReading>,
    pub ipmi: IpmiInfo,
    pub notes: Vec<String>,
}

impl SystemInfo {
    /// Every text and list empty, every number 0, every flag false.
    pub open spec fn is_empty_value(&self) -> bool {
        &&& self.manufacturer@.len() == 0
        &&& self.product_name@.len() == 0
        &&& self.version@.len() == 0
        &&& self.serial_number@.len() == 0
        &&& self.sku@.len() == 0
        &&& self.asset_tag@.len() == 0
        &&& self.uuid@.len() == 0
        &&& self.family@.len() == 0
    }
}

impl Default for SystemInfo {
    fn default() -> (res: SystemInfo)
        ensures
            res.is_empty_value(),
    {
        SystemInfo {
            manufacturer: String::new(),
            product_name: String::new(),
            version: String::new(),
            serial_number: String::new(),
            sku: String::new(),
            asset_tag: String::new(),
            uuid: String::new(),
            family: String::new(),
        }
    }
}

impl BiosInfo {
    /// Every text and list empty, every number 0, every flag false.
    pub open spec fn is_empty_value(&self) -> bool {
        &&& self.vendor@.len() == 0
        &&& self.version@.len() == 0
        &&& self.date@.len() == 0
        &&& self.release@.len() == 0
    }
}

impl Default for BiosInfo {
    fn default() -> (res: BiosInfo)
        ensures
            res.is_empty_value(),
    {
        BiosInfo {
            vendor: String::new(),
            version: String::new(),
            date: String::new(),
            release: String::new(),
        }
    }
}

impl CpuInfo {
    /// Every text and list empty, every number 0, every flag false.
    pub open spec fn is_empty_value(&self) -> bool {
        &&& self.vendor_id@.len() == 0
        &&& self.model_name@.len() == 0
        &&& self.cores == 0
        &&& self.threads == 0
        &&& self.sockets == 0
        &&& self.architecture@.len() == 0
        &&& self.flags@.len() == 0
        &&& self.vulnerabilities@.len() == 0
    }
}

impl Default for CpuInfo {
    fn default() -> (res: CpuInfo)
        ensures
            res.is_empty_value(),
    {
        CpuInfo {
            vendor_id: String::new(),
            model_name: String::new(),
            cores: 0,
            threads: 0,
            sockets: 0,
            architecture: String::new(),
            flags: Vec::new(),
            vulnerabilities: Vec::new(),
        }
    }
}

impl MemoryInfo {
    /// Every text and list empty, every number 0, every flag false.
    pub open spec fn is_empty_value(&self) -> bool {
        &&& self.total_kb == 0
        &&& self.total_human@.len() == 0
        &&& self.dimms@.len() == 0
    }
}

impl Default for MemoryInfo {
    fn default() -> (res: MemoryInfo)
        ensures
            res.is_empty_value(),
    {
        MemoryInfo {
            total_kb: 0,
            total_human: String::new(),
            dimms: Vec::new(),
        }
    }
}

impl MemoryDimm {
    /// Every text and list empty, every number 0, every flag false.
    pub open spec fn is_empty_value(&self) -> bool {
        &&& self.locator@.len() == 0
        &&& self.size_kb == 0
        &&& self.size_human@.len() == 0
        &&& self.speed_mhz == 0
        &&& self.manufacturer@.len() == 0
        &&& self.part_number@.len() == 0
        &&& self.serial_number@.len() == 0
        &&& self.memory_type@.len() == 0
        &&& self.rank@.len() == 0
        &&& self.status@.len() == 0
    }
}

impl Default for MemoryDimm {
    fn default() -> (res: MemoryDimm)
        ensures
            res.is_empty_value(),
    {
        MemoryDimm {
            locator: String::new(),
            size_kb: 0,
            size_human: String::new(),
            speed_mhz: 0,
            manufacturer: String::new(),
            part_number: String::new(),
            serial_number: String::new(),
            memory_type: String::new(),
            rank: String::new(),
            status: String::new(),
        }
    }
}

impl StorageDevice {
    /// Every text and list empty, every number 0, every flag false.
    pub open spec fn is_empty_value(&self) -> bool {
        &&& self.device@.len() == 0
        &&& self.model@.len() == 0
        &&& self.serial@.len() == 0
        &&& self.firmware@.len() == 0
        &&& self.capacity_human@.len() == 0
        &&& self.smart_health@.len() == 0
        &&& self.smart_attributes@.len() == 0
        &&& self.power_on_hours == 0
        &&& self.power_cycle_count == 0
        &&& self.temperature == 0
        &&& self.notes@.len() == 0
    }
}

impl Default for StorageDevice {
    fn default() -> (res: StorageDevice)
        ensures
            res.is_empty_value(),
    {
        StorageDevice {
            device: String::new(),
            model: String::new(),
            serial: String::new(),
            firmware: String::new(),
            capacity_human: String::new(),
            smart_health: String::new(),
            smart_attributes: Vec::new(),
            power_on_hours: 0,
            power_cycle_count: 0,
            temperature: 0,
            notes: Vec::new(),
        }
    }
}

impl SmartAttribute {
    /// Every text and list empty, every number 0, every flag false.
    pub open spec fn is_empty_value(&self) -> bool {
        &&& self.id == 0
        &&& self.name@.len() == 0
        &&& self.value == 0
        &&& self.worst == 0
        &&& self.threshold == 0
        &&& self.raw@.len() == 0
        &&& self.flag@.len() == 0
        &&& self.status@.len() == 0
    }
}

impl Default for SmartAttribute {
    fn default() -> (res: SmartAttribute)
        ensures
            res.is_empty_value(),
    {
        SmartAttribute {
            id: 0,
            name: String::new(),
            value: 0,
            worst: 0,
            threshold: 0,
            raw: String::new(),
            flag: String::new(),
            status: String::new(),
        }
    }
}

impl NetworkInterface {
    /// Every text and list empty, every number 0, every flag false.
    pub open spec fn is_empty_value(&self) -> bool {
        &&& self.name@.len() == 0
        &&& self.mac_address@.len() == 0
        &&& self.driver@.len() == 0
        &&& self.speed_mbps == 0
        &&& self.duplex@.len() == 0
        &&& !self.is_virtual
    }
}

impl Default for NetworkInterface {
    fn default() -> (res: NetworkInterface)
        ensures
            res.is_empty_value(),
    {
        NetworkInterface {
            name: String::new(),
            mac_address: String::new(),
            driver: String::new(),
            speed_mbps: 0,
            duplex: String::new(),
            is_virtual: false,
        }
    }
}

impl PciDevice {
    /// Every text and list empty, every number 0, every flag false.
    pub open spec fn is_empty_value(&self) -> bool {
        &&& self.slot@.len() == 0
        &&& self.class@.len() == 0
        &&& self.vendor@.len() == 0
        &&& self.device@.len() == 0
        &&& self.subsystem@.len() == 0
        &&& self.kernel_driver@.len() == 0
        &&& self.kernel_modules@.len() == 0
    }
}

impl Default for PciDevice {
    fn default() -> (res: PciDevice)
        ensures
            res.is_empty_value(),
    {
        PciDevice {
            slot: String::new(),
            class: String::new(),
            vendor: String::new(),
            device: String::new(),
            subsystem: String::new(),
            kernel_driver: String::new(),
            kernel_modules: Vec::new(),
        }
    }
}

impl SensorReading {
    /// Every text and list empty, every number 0, every flag false.
    pub open spec fn is_empty_value(&self) -> bool {
        &&& self.name@.len() == 0
        &&& self.value@.len() == 0
        &&& self.unit@.len() == 0
        &&& self.status@.len() == 0
    }
}

impl Default for SensorReading {
    fn default() -> (res: SensorReading)
        ensures
            res.is_empty_value(),
    {
        SensorReading {
            name: String::new(),
            value: String::new(),
            unit: String::new(),
            status: String::new(),
        }
    }
}

impl IpmiInfo {
    /// Every text and list empty, every number 0, every flag false.
    pub open spec fn is_empty_value(&self) -> bool {
        &&& !self.available
        &&& self.bmc_firmware@.len() == 0
        &&& self.sensors@.len() == 0
        &&& self.sel_entries@.len() == 0
    }
}

impl Default for IpmiInfo {
    fn default() -> (res: IpmiInfo)
        ensures
            res.is_empty_value(),
    {
        IpmiInfo {
            available: false,
            bmc_firmware: String::new(),
            sensors: Vec::new(),
            sel_entries: Vec::new(),
        }
    }
}

impl IpmiSensor {
    /// Every text and list empty, every number 0, every flag false.
    pub open spec fn is_empty_value(&self) -> bool {
        &&& self.name@.len() == 0
        &&& self.value@.len() == 0
        &&& self.unit@.len() == 0
        &&& self.status@.len() == 0
    }
}

impl Default for IpmiSensor {
    fn default() -> (res: IpmiSensor)
        ensures
            res.is_empty_value(),
    {
        IpmiSensor {
            name: String::new(),
            value: String::new(),
            unit: String::new(),
            status: String::new(),
        }
    }
}

impl SelEntry {
    /// Every text and list empty, every number 0, every flag false.
    pub open spec fn is_empty_value(&self) -> bool {
        &&& self.id@.len() == 0
        &&& self.date@.len() == 0
        &&& self.time@.len() == 0
        &&& self.sensor@.len() == 0
        &&& self.event@.len() == 0
        &&& self.severity@.len() == 0
    }
}

impl Default for SelEntry {
    fn default() -> (res: SelEntry)
        ensures
            res.is_empty_value(),
    {
        SelEntry {
            id: String::new(),
            date: String::new(),
            time: String::new(),
            sensor: String::new(),
            event: String::new(),
            severity: String::new(),
        }
    }
}

impl SystemReport {
    /// Every text and list empty, every number 0, every flag false.
    pub open spec fn is_empty_value(&self) -> bool {
        &&& self.scan_timestamp == 0
        &&& self.system_info.is_empty_value()
        &&& self.bios.is_empty_value()
        &&& self.cpu.is_empty_value()
        &&& self.memory.is_empty_value()
        &&& self.storage@.len() == 0
        &&& self.network@.len() == 0
        &&& self.pci_devices@.len() == 0
        &&& self.sensors@.len() == 0
        &&& self.ipmi.is_empty_value()
        &&& self.notes@.len() == 0
    }
}

impl Default for SystemReport {
    fn default() -> (res: SystemReport)
        ensures
            res.is_empty_value(),
    {
        SystemReport {
            scan_timestamp: 0,
            system_info: SystemInfo::default(),
            bios: BiosInfo::default(),
            cpu: CpuInfo::default(),
            memory: MemoryInfo::default(),
            storage: Vec::new(),
            network: Vec::new(),
            pci_devices: Vec::new(),
            sensors: Vec::new(),
            ipmi: IpmiInfo::default(),
            notes: Vec::new(),
        }
    }
}

} // verus!
