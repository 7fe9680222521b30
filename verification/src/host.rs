//! Readings of the host: processor load, memory, disks and network
//! interfaces, as plain values, and the source that samples them.
//!
//! The readings come from the `sysinfo` crate, which asks the operating
//! system. What it answers depends on the machine and on the moment, so
//! nothing is claimed about the values: the functions that use a reading are
//! verified for every reading.
use vstd::prelude::*;

verus! {

/// One disk as the operating system lists it.
pub struct DiskReading {
    /// The device name; bytes that are not UTF-8 are replaced.
    pub name: String,
    /// The mount point, by which the disk is found again; bytes that are
    /// not UTF-8 are replaced.
    pub mount_point: String,
    /// Free space, in bytes.
    pub available_space: u64,
    /// Capacity, in bytes.
    pub total_space: u64,
}

/// One network interface with the traffic since the previous refresh.
pub struct NetworkReading {
    /// The interface name.
    pub name: String,
    /// Bytes received since the previous refresh.
    pub received: u64,
    /// Bytes transmitted since the previous refresh.
    pub transmitted: u64,
}

/// Everything one tick reads from the host.
pub struct HostReading {
    /// Average load over all cores, in percent, as the bit pattern of a
    /// double-precision number.
    pub cpu_usage_bits: u64,
    /// Memory in use, in bytes.
    pub used_memory: u64,
    /// Memory installed, in bytes.
    pub total_memory: u64,
    /// The disks, in the order in which they are listed.
    pub disks: Vec<DiskReading>,
    /// The network interfaces, in no particular order.
    pub networks: Vec<NetworkReading>,
}

#[verifier::external_type_specification]
#[verifier::external_body]
pub struct ExSystem(sysinfo::System);

#[verifier::external_type_specification]
#[verifier::external_body]
pub struct ExDisks(sysinfo::Disks);

#[verifier::external_type_specification]
#[verifier::external_body]
pub struct ExNetworks(sysinfo::Networks);

#[verifier::external_type_specification]
#[verifier::external_body]
pub struct ExDisk(sysinfo::Disk);

#[verifier::external_type_specification]
#[verifier::external_body]
pub struct ExNetworkData(sysinfo::NetworkData);

/// `System::new_all` loads everything the system knows. Nothing is claimed
/// about what it finds.
pub assume_specification[ sysinfo::System::new_all ]() -> (system: sysinfo::System);

/// `System::refresh_all` samples processor and memory again. Nothing is
/// claimed about what it finds.
pub assume_specification[ sysinfo::System::refresh_all ](system: &mut sysinfo::System);

/// `System::used_memory`, in bytes, as of the last refresh.
pub assume_specification[ sysinfo::System::used_memory ](system: &sysinfo::System) -> (bytes: u64);

/// `System::total_memory`, in bytes, as of the last refresh.
pub assume_specification[ sysinfo::System::total_memory ](system: &sysinfo::System) -> (bytes: u64);

/// `System::host_name`, if the operating system gives one.
pub assume_specification[ sysinfo::System::host_name ]() -> (name: Option<String>);

/// `Disks::new` is an empty list.
pub assume_specification[ sysinfo::Disks::new ]() -> (disks: sysinfo::Disks);

/// `Disks::refresh` reads the disks again. Nothing is claimed about what it
/// finds.
pub assume_specification[ sysinfo::Disks::refresh ](
    disks: &mut sysinfo::Disks,
    remove_not_listed_disks: bool,
);

/// `Networks::new` is an empty list.
pub assume_specification[ sysinfo::Networks::new ]() -> (networks: sysinfo::Networks);

/// `Networks::refresh` reads the interfaces again. Nothing is claimed about
/// what it finds.
pub assume_specification[ sysinfo::Networks::refresh ](
    networks: &mut sysinfo::Networks,
    remove_not_listed_interfaces: bool,
);

/// `System::global_cpu_usage`, widened to double precision and handed out as
/// its bit pattern. The double-precision type is written as the value type of
/// the gauge that is to hold the number.
#[verifier::external_body]
fn cpu_usage_bits(system: &sysinfo::System) -> (bits: u64) {
    let usage: <prometheus::core::AtomicF64 as prometheus::core::Atomic>::T =
        system.global_cpu_usage().into();
    usage.to_bits()
}

/// `Disks::list`, each disk as plain values: `Disk::name`,
/// `Disk::mount_point`, `Disk::available_space` and `Disk::total_space`.
#[verifier::external_body]
fn disk_readings(disks: &sysinfo::Disks) -> (readings: Vec<DiskReading>) {
    disks.list().iter().map(|disk| DiskReading {
        name: disk.name().to_string_lossy().into_owned(),
        mount_point: disk.mount_point().to_string_lossy().into_owned(),
        available_space: disk.available_space(),
        total_space: disk.total_space(),
    }).collect()
}

/// `Networks::list`, each interface as plain values: its name,
/// `NetworkData::received` and `NetworkData::transmitted`.
#[verifier::external_body]
fn network_readings(networks: &sysinfo::Networks) -> (readings: Vec<NetworkReading>) {
    networks.list().iter().map(|(name, data)| NetworkReading {
        name: name.clone(),
        received: data.received(),
        transmitted: data.transmitted(),
    }).collect()
}

/// The operating-system handles that readings are taken from.
pub struct HostSnapshotSource {
    system: sysinfo::System,
    disks: sysinfo::Disks,
    networks: sysinfo::Networks,
}

impl HostSnapshotSource {
    /// Opens the source, with a first full sample of processor and memory and
    /// empty device lists.
    pub fn new() -> (source: Self) {
        HostSnapshotSource {
            system: sysinfo::System::new_all(),
            disks: sysinfo::Disks::new(),
            networks: sysinfo::Networks::new(),
        }
    }

    /// Lists the disks that are present now, dropping those that are gone.
    pub fn discover_disks(&mut self) -> (disks: Vec<DiskReading>) {
        self.disks.refresh(true);
        disk_readings(&self.disks)
    }

    /// Lists the network interfaces that are present now, dropping those that
    /// are gone.
    pub fn discover_networks(&mut self) -> (networks: Vec<NetworkReading>) {
        self.networks.refresh(true);
        network_readings(&self.networks)
    }

    /// Samples the host: processor and memory, then the disks, then the
    /// interfaces. Devices that have gone stay listed with their last values.
    pub fn sample(&mut self) -> (reading: HostReading) {
        self.system.refresh_all();
        let cpu_usage_bits = cpu_usage_bits(&self.system);
        let used_memory = self.system.used_memory();
        let total_memory = self.system.total_memory();
        self.disks.refresh(false);
        let disks = disk_readings(&self.disks);
        self.networks.refresh(false);
        let networks = network_readings(&self.networks);
        HostReading { cpu_usage_bits, used_memory, total_memory, disks, networks }
    }
}

/// The host name, if the operating system gives one.
pub fn get_hostname() -> (name: Option<String>) {
    sysinfo::System::host_name()
}

} // verus!
