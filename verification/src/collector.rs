//! The collector: it discovers the disks and interfaces of the host once,
//! binds each to a pair of series, and writes a fresh reading into those
//! series on every tick.
use crate::devices::DeviceMap;
use crate::families::{
    all_known, disk_labels, disk_series, host_series, lemma_known_agree, lemma_known_valid,
    network_labels, network_series, new_series,
};
use crate::host::{DiskReading, HostReading, HostSnapshotSource, NetworkReading};
use crate::model::{
    disk_map, disks_applied, initial_view, lemma_disks_applied_shape, lemma_initial_series,
    lemma_initial_view_wf, lemma_networks_applied_shape, lemma_set_value_shape, lemma_shape,
    network_map, networks_applied, numbers_collide, set_value, shape, CollectorView, DiskMetrics,
    NetworkMetrics,
};
use crate::registry::{
    accepts, dimensions_agree, families_of, identities_distinct, number_taken, samples_view,
    MetricRegistry, Sample, SampleView, SeriesDescriptor, SeriesHandle, SeriesKind,
};
use crate::series::{wrapping_sum, RegistryError};
use vstd::prelude::*;

verus! {

/// The label list of the two gauges of a disk.
fn disk_label_list(disk: &DiskReading) -> (labels: Vec<(String, String)>)
    ensures
        labels.deep_view() == disk_labels(*disk),
{
    let mut labels: Vec<(String, String)> = Vec::new();
    labels.push((String::from_str("name"), disk.name.clone()));
    labels.push((String::from_str("mount"), disk.mount_point.clone()));
    assert(labels.deep_view() =~= disk_labels(*disk));
    labels
}

/// The label list of the two counters of a network interface.
fn network_label_list(network: &NetworkReading) -> (labels: Vec<(String, String)>)
    ensures
        labels.deep_view() == network_labels(*network),
{
    let mut labels: Vec<(String, String)> = Vec::new();
    labels.push((String::from_str("name"), network.name.clone()));
    assert(labels.deep_view() =~= network_labels(*network));
    labels
}

/// The empty label list of the series of the host itself.
fn no_labels() -> (labels: Vec<(String, String)>)
    ensures
        labels.deep_view() == Seq::<(Seq<char>, Seq<char>)>::empty(),
{
    let labels: Vec<(String, String)> = Vec::new();
    assert(labels.deep_view() =~= Seq::<(Seq<char>, Seq<char>)>::empty());
    labels
}

/// Registers the series that comes next in `all`, the series that the
/// collector is to hold in the end.
fn register_next(
    registry: &mut MetricRegistry,
    name: &str,
    help: &str,
    labels: Vec<(String, String)>,
    kind: SeriesKind,
    Ghost(all): Ghost<Seq<SampleView>>,
) -> (r: Result<SeriesHandle, RegistryError>)
    requires
        old(registry).wf(),
        all_known(all),
        old(registry)@.len() < all.len(),
        old(registry)@ == all.take(old(registry)@.len() as int),
        all[old(registry)@.len() as int] == new_series(name@, help@, labels.deep_view(), kind),
        !numbers_collide(old(registry)@),
    ensures
        final(registry).wf(),
        match r {
            Ok(handle) => {
                &&& handle == old(registry)@.len()
                &&& final(registry)@ == all.take(handle + 1)
                &&& !numbers_collide(final(registry)@)
            },
            Err(e) => e is AlreadyRegistered && numbers_collide(all),
        },
{
    let ghost held = registry@;
    let ghost n = held.len() as int;
    let ghost new = all[n];
    proof {
        lemma_known_valid(new);
        assert forall|i: int| 0 <= i < n && (#[trigger] held[i]).name == new.name implies held[i].dimensions()
            == new.dimensions() by {
            assert(held[i] == all[i]);
            lemma_known_agree(all[i], new);
        }
        assert(dimensions_agree(held, new));
        assert(accepts(held, new) == !number_taken(held, new));
    }
    let r = registry.register(
        SeriesDescriptor { name: String::from_str(name), help: String::from_str(help), labels, kind },
    );
    proof {
        match r {
            Ok(_) => {
                assert(registry@ =~= all.take(n + 1));
                if numbers_collide(registry@) {
                    let (i, j) = choose|i: int, j: int|
                        0 <= i < j < registry@.len() && (#[trigger] registry@[i]).number() == (
                        #[trigger] registry@[j]).number();
                    if j < n {
                        assert(held[i].number() == held[j].number());
                    } else {
                        assert(held[i].number() == new.number());
                    }
                }
            },
            Err(_) => {
                let i = choose|i: int| 0 <= i < n && (#[trigger] held[i]).number() == new.number();
                assert(held[i] == all[i]);
                assert(all[i].number() == all[n].number());
            },
        }
    }
    r
}

/// Collects host metrics into a fixed set of series.
pub struct Collector {
    registry: MetricRegistry,
    source: HostSnapshotSource,
    cpu_usage: SeriesHandle,
    used_memory: SeriesHandle,
    total_memory: SeriesHandle,
    disk_metrics: DeviceMap<DiskMetrics>,
    network_metrics: DeviceMap<NetworkMetrics>,
}

impl View for Collector {
    type V = CollectorView;

    closed spec fn view(&self) -> CollectorView {
        CollectorView {
            series: self.registry@,
            cpu_usage: self.cpu_usage,
            used_memory: self.used_memory,
            total_memory: self.total_memory,
            disks: self.disk_metrics@,
            networks: self.network_metrics@,
        }
    }
}

impl Collector {
    /// The invariant of the collector: that of its view, of its registry
    /// and of its device maps.
    pub closed spec fn wf(&self) -> bool {
        &&& self.registry.wf()
        &&& self.disk_metrics.wf()
        &&& self.network_metrics.wf()
        &&& self@.wf()
    }

    /// What `wf` says of the view.
    pub proof fn lemma_wf(&self)
        requires
            self.wf(),
        ensures
            self@.wf(),
    {
    }

    /// Constructs the collector on the devices that were discovered:
    /// registers two gauges per disk, then two counters per interface, then
    /// the three series of the host, and remembers which series belong to
    /// which mount point and interface name.
    ///
    /// The construction succeeds exactly when the registry files no two of
    /// these series under one number, as it does with two series of one
    /// identity. The collector is then `initial_view` of the devices.
    #[verifier::spinoff_prover]
    #[verifier::rlimit(40)]
    pub fn with_devices(
        source: HostSnapshotSource,
        disks: &Vec<DiskReading>,
        networks: &Vec<NetworkReading>,
    ) -> (r: Result<Self, RegistryError>)
        ensures
            match r {
                Ok(collector) => {
                    &&& collector.wf()
                    &&& collector@.wf()
                    &&& collector@ == initial_view(disks@, networks@)
                },
                Err(e) => e is AlreadyRegistered,
            },
            r is Ok <==> !numbers_collide(initial_view(disks@, networks@).series),
    {
        let ghost all = initial_view(disks@, networks@).series;
        proof {
            lemma_initial_series(disks@, networks@);
        }
        let mut registry = MetricRegistry::new();
        let mut disk_metrics: DeviceMap<DiskMetrics> = DeviceMap::new();
        assert(registry@ =~= all.take(0));
        let mut i: usize = 0;
        while i < disks.len()
            invariant
                i <= disks.len(),
                all == initial_view(disks@, networks@).series,
                all_known(all),
                all.len() == 2 * disks.len() + 2 * networks.len() + 3,
                registry.wf(),
                disk_metrics.wf(),
                registry@ == all.take(2 * i),
                !numbers_collide(registry@),
                disk_metrics@ == disk_map(disks@.take(i as int), 0),
            decreases disks.len() - i,
        {
            let disk = &disks[i];
            proof {
                lemma_initial_series(disks@, networks@);
                assert(disks@.take(i + 1).drop_last() =~= disks@.take(i as int));
                assert(all[2 * i] == disk_series(disks@[i as int])[0]);
                assert(all[2 * i + 1] == disk_series(disks@[i as int])[1]);
            }
            let free_gauge = match register_next(
                &mut registry,
                "sysinfo_disk_free",
                "Drive free space in bytes",
                disk_label_list(disk),
                SeriesKind::Gauge,
                Ghost(all),
            ) {
                Ok(handle) => handle,
                Err(e) => {
                    return Err(e);
                },
            };
            let total_gauge = match register_next(
                &mut registry,
                "sysinfo_disk_total",
                "Drive total space in bytes",
                disk_label_list(disk),
                SeriesKind::Gauge,
                Ghost(all),
            ) {
                Ok(handle) => handle,
                Err(e) => {
                    return Err(e);
                },
            };
            disk_metrics.insert(disk.mount_point.clone(), DiskMetrics { free_gauge, total_gauge });
            i += 1;
        }
        let mut network_metrics: DeviceMap<NetworkMetrics> = DeviceMap::new();
        let mut j: usize = 0;
        while j < networks.len()
            invariant
                j <= networks.len(),
                all == initial_view(disks@, networks@).series,
                all_known(all),
                all.len() == 2 * disks.len() + 2 * networks.len() + 3,
                registry.wf(),
                network_metrics.wf(),
                registry@ == all.take(2 * disks.len() + 2 * j),
                !numbers_collide(registry@),
                network_metrics@ == network_map(networks@.take(j as int), 2 * disks.len() as int),
            decreases networks.len() - j,
        {
            let network = &networks[j];
            proof {
                lemma_initial_series(disks@, networks@);
                assert(networks@.take(j + 1).drop_last() =~= networks@.take(j as int));
                assert(all[2 * disks.len() + 2 * j] == network_series(networks@[j as int])[0]);
                assert(all[2 * disks.len() + 2 * j + 1] == network_series(networks@[j as int])[1]);
            }
            let received_counter = match register_next(
                &mut registry,
                "sysinfo_network_total_received",
                "Total received network bytes",
                network_label_list(network),
                SeriesKind::Counter,
                Ghost(all),
            ) {
                Ok(handle) => handle,
                Err(e) => {
                    return Err(e);
                },
            };
            let transmitted_counter = match register_next(
                &mut registry,
                "sysinfo_network_total_transmitted",
                "Total transmitted network bytes",
                network_label_list(network),
                SeriesKind::Counter,
                Ghost(all),
            ) {
                Ok(handle) => handle,
                Err(e) => {
                    return Err(e);
                },
            };
            network_metrics.insert(
                network.name.clone(),
                NetworkMetrics { received_counter, transmitted_counter },
            );
            j += 1;
        }
        proof {
            lemma_initial_series(disks@, networks@);
            assert(disks@.take(disks.len() as int) =~= disks@);
            assert(networks@.take(networks.len() as int) =~= networks@);
            assert(all[2 * disks.len() + 2 * networks.len() + 0] == host_series()[0]);
            assert(all[2 * disks.len() + 2 * networks.len() + 1] == host_series()[1]);
            assert(all[2 * disks.len() + 2 * networks.len() + 2] == host_series()[2]);
        }
        let cpu_usage = match register_next(
            &mut registry,
            "sysinfo_cpu_usage",
            "Average CPU usage",
            no_labels(),
            SeriesKind::DoubleGauge,
            Ghost(all),
        ) {
            Ok(handle) => handle,
            Err(e) => {
                return Err(e);
            },
        };
        let used_memory = match register_next(
            &mut registry,
            "sysinfo_memory_used",
            "Used memory in bytes",
            no_labels(),
            SeriesKind::Gauge,
            Ghost(all),
        ) {
            Ok(handle) => handle,
            Err(e) => {
                return Err(e);
            },
        };
        let total_memory = match register_next(
            &mut registry,
            "sysinfo_memory_total",
            "Total memory in bytes",
            no_labels(),
            SeriesKind::Gauge,
            Ghost(all),
        ) {
            Ok(handle) => handle,
            Err(e) => {
                return Err(e);
            },
        };
        let collector = Collector {
            registry,
            source,
            cpu_usage,
            used_memory,
            total_memory,
            disk_metrics,
            network_metrics,
        };
        proof {
            assert(collector.registry@ =~= all);
            collector.registry.lemma_identities_distinct();
            lemma_initial_view_wf(disks@, networks@);
        }
        Ok(collector)
    }

    /// Discovers the disks and interfaces that the host has now and
    /// constructs the collector on them.
    ///
    /// What is discovered depends on the host, so the contract speaks of
    /// some lists of devices; `with_devices` says what is constructed from
    /// given ones. The only failure is that of two series under one number.
    pub fn new() -> (r: Result<Self, RegistryError>)
        ensures
            exists|disks: Seq<DiskReading>, networks: Seq<NetworkReading>|
                match r {
                    Ok(collector) => collector@ == #[trigger] initial_view(disks, networks)
                        && !numbers_collide(initial_view(disks, networks).series),
                    Err(e) => numbers_collide(initial_view(disks, networks).series),
                },
            match r {
                Ok(collector) => collector.wf() && collector@.wf(),
                Err(e) => e is AlreadyRegistered,
            },
    {
        let mut source = HostSnapshotSource::new();
        let disks = source.discover_disks();
        let networks = source.discover_networks();
        Self::with_devices(source, &disks, &networks)
    }

    /// Writes a reading into the series: processor load and memory, then
    /// each disk of the reading whose mount point is followed, then each
    /// interface of the reading that is followed. A device that is not
    /// followed is passed over, and a device that is followed but absent
    /// from the reading keeps its last values. Only values change: the
    /// series, their identities and the devices that are followed stay what
    /// they were at construction.
    pub fn apply(&mut self, reading: &HostReading)
        requires
            old(self).wf(),
        ensures
            final(self).wf(),
            final(self)@.wf(),
            final(self)@ == old(self)@.collected(*reading),
            shape(final(self)@.series) == shape(old(self)@.series),
            final(self)@.disks == old(self)@.disks,
            final(self)@.networks == old(self)@.networks,
    {
        let ghost before = self@;
        proof {
            before.lemma_collected(*reading);
            lemma_set_value_shape(before.series, before.cpu_usage as int, reading.cpu_usage_bits);
            lemma_set_value_shape(
                set_value(before.series, before.cpu_usage as int, reading.cpu_usage_bits),
                before.used_memory as int,
                reading.used_memory,
            );
            lemma_set_value_shape(
                set_value(
                    set_value(before.series, before.cpu_usage as int, reading.cpu_usage_bits),
                    before.used_memory as int,
                    reading.used_memory,
                ),
                before.total_memory as int,
                reading.total_memory,
            );
            lemma_shape(
                set_value(before.series, before.cpu_usage as int, reading.cpu_usage_bits),
                before.series,
            );
            lemma_shape(
                set_value(
                    set_value(before.series, before.cpu_usage as int, reading.cpu_usage_bits),
                    before.used_memory as int,
                    reading.used_memory,
                ),
                before.series,
            );
        }
        self.registry.set(self.cpu_usage, reading.cpu_usage_bits);
        self.registry.set(self.used_memory, reading.used_memory);
        self.registry.set(self.total_memory, reading.total_memory);
        let ghost host = before.host_written(*reading);
        assert(self.registry@ == host);
        let mut i: usize = 0;
        while i < reading.disks.len()
            invariant
                i <= reading.disks.len(),
                before.wf(),
                self.registry.wf(),
                self.disk_metrics.wf(),
                self.network_metrics.wf(),
                shape(host) == shape(before.series),
                self@ == (CollectorView {
                    series: disks_applied(host, before.disks, reading.disks@.take(i as int)),
                    ..before
                }),
            decreases reading.disks.len() - i,
        {
            let disk = &reading.disks[i];
            proof {
                assert(reading.disks@.take(i + 1).drop_last() =~= reading.disks@.take(i as int));
                lemma_shape(host, before.series);
                lemma_disks_applied_shape(host, before.disks, reading.disks@.take(i as int));
                lemma_shape(self.registry@, host);
            }
            match self.disk_metrics.get(&disk.mount_point) {
                Some(metrics) => {
                    let metrics = *metrics;
                    proof {
                        lemma_set_value_shape(
                            self.registry@,
                            metrics.free_gauge as int,
                            disk.available_space,
                        );
                        lemma_shape(
                            set_value(self.registry@, metrics.free_gauge as int, disk.available_space),
                            self.registry@,
                        );
                    }
                    self.registry.set(metrics.free_gauge, disk.available_space);
                    self.registry.set(metrics.total_gauge, disk.total_space);
                },
                None => {},
            }
            i += 1;
        }
        let ghost disks = disks_applied(host, before.disks, reading.disks@);
        proof {
            assert(reading.disks@.take(reading.disks.len() as int) =~= reading.disks@);
            lemma_shape(host, before.series);
            lemma_disks_applied_shape(host, before.disks, reading.disks@);
        }
        let mut j: usize = 0;
        while j < reading.networks.len()
            invariant
                j <= reading.networks.len(),
                before.wf(),
                self.registry.wf(),
                self.disk_metrics.wf(),
                self.network_metrics.wf(),
                shape(disks) == shape(before.series),
                self@ == (CollectorView {
                    series: networks_applied(disks, before.networks, reading.networks@.take(j as int)),
                    ..before
                }),
            decreases reading.networks.len() - j,
        {
            let network = &reading.networks[j];
            proof {
                assert(reading.networks@.take(j + 1).drop_last() =~= reading.networks@.take(j as int));
                lemma_shape(disks, before.series);
                lemma_networks_applied_shape(disks, before.networks, reading.networks@.take(j as int));
                lemma_shape(self.registry@, disks);
            }
            match self.network_metrics.get(&network.name) {
                Some(metrics) => {
                    let metrics = *metrics;
                    proof {
                        let added = wrapping_sum(
                            self.registry@[metrics.received_counter as int].value,
                            network.received,
                        );
                        lemma_set_value_shape(self.registry@, metrics.received_counter as int, added);
                        lemma_shape(
                            set_value(self.registry@, metrics.received_counter as int, added),
                            self.registry@,
                        );
                    }
                    self.registry.increment_by(metrics.received_counter, network.received);
                    self.registry.increment_by(metrics.transmitted_counter, network.transmitted);
                },
                None => {},
            }
            j += 1;
        }
        proof {
            assert(reading.networks@.take(reading.networks.len() as int) =~= reading.networks@);
        }
    }

    /// Samples the host and writes the reading into the series.
    ///
    /// What is read depends on the host, so the contract speaks of some
    /// reading; `apply` says what a given one does.
    pub fn collect(&mut self)
        requires
            old(self).wf(),
        ensures
            final(self).wf(),
            final(self)@.wf(),
            exists|reading: HostReading| final(self)@ == old(self)@.collected(reading),
            shape(final(self)@.series) == shape(old(self)@.series),
            final(self)@.disks == old(self)@.disks,
            final(self)@.networks == old(self)@.networks,
    {
        let reading = self.source.sample();
        self.apply(&reading);
    }

    /// The snapshot: every series with its current value, in registration
    /// order. The collector is not changed, and no two entries share an
    /// identity.
    pub fn gather(&self) -> (samples: Vec<Sample>)
        requires
            self.wf(),
        ensures
            samples_view(samples@) == self@.series,
            identities_distinct(samples_view(samples@)),
    {
        self.registry.gather()
    }

    /// The snapshot as the families that a remote-write encoder takes:
    /// those gathered from the series with their current values. The
    /// collector is not changed.
    pub fn families(&self) -> (families: Vec<prometheus::proto::MetricFamily>)
        requires
            self.wf(),
        ensures
            families@ == families_of(self@.series),
    {
        proof {
            self@.lemma_families_settled();
        }
        self.registry.families()
    }

    /// The number of mount points that are followed.
    pub fn disk_count(&self) -> (n: usize)
        requires
            self.wf(),
        ensures
            self@.disks.dom().finite(),
            n == self@.disks.dom().len(),
    {
        proof {
            self.disk_metrics.lemma_len();
        }
        self.disk_metrics.len()
    }

    /// The number of interfaces that are followed.
    pub fn network_count(&self) -> (n: usize)
        requires
            self.wf(),
        ensures
            self@.networks.dom().finite(),
            n == self@.networks.dom().len(),
    {
        proof {
            self.network_metrics.lemma_len();
        }
        self.network_metrics.len()
    }
}

} // verus!
