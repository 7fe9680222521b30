//! The collector as the contracts see it: which series it holds after
//! construction, what a reading does to them, and what stays as it was.
use crate::families::{
    all_known, disk_series, host_series, is_known, lemma_known_agree, lemma_series_known,
    network_series,
};
use crate::host::{DiskReading, HostReading, NetworkReading};
use crate::registry::{families_settled, identities_distinct, SampleView, SeriesHandle, SeriesKind};
use crate::series::{label_map, wrapping_sum};
use vstd::prelude::*;

verus! {

/// The two gauges of a disk.
#[derive(Clone, Copy)]
pub struct DiskMetrics {
    pub free_gauge: SeriesHandle,
    pub total_gauge: SeriesHandle,
}

/// The two counters of a network interface.
#[derive(Clone, Copy)]
pub struct NetworkMetrics {
    pub received_counter: SeriesHandle,
    pub transmitted_counter: SeriesHandle,
}

/// The series registered for a list of disks, disk by disk.
pub open spec fn disks_series(disks: Seq<DiskReading>) -> Seq<SampleView>
    decreases disks.len(),
{
    if disks.len() == 0 {
        Seq::empty()
    } else {
        disks_series(disks.drop_last()) + disk_series(disks.last())
    }
}

/// The series registered for a list of interfaces, interface by interface.
pub open spec fn networks_series(networks: Seq<NetworkReading>) -> Seq<SampleView>
    decreases networks.len(),
{
    if networks.len() == 0 {
        Seq::empty()
    } else {
        networks_series(networks.drop_last()) + network_series(networks.last())
    }
}

/// The gauges kept for each mount point, when the gauges of the first
/// disk are registered at `base`. A later disk at the same mount point takes
/// the place of an earlier one.
pub open spec fn disk_map(disks: Seq<DiskReading>, base: int) -> Map<Seq<char>, DiskMetrics>
    decreases disks.len(),
{
    if disks.len() == 0 {
        Map::empty()
    } else {
        let at = base + 2 * (disks.len() - 1);
        disk_map(disks.drop_last(), base).insert(
            disks.last().mount_point@,
            DiskMetrics { free_gauge: at as usize, total_gauge: (at + 1) as usize },
        )
    }
}

/// The counters kept for each interface name, when the counters of the
/// first interface are registered at `base`.
pub open spec fn network_map(networks: Seq<NetworkReading>, base: int) -> Map<
    Seq<char>,
    NetworkMetrics,
>
    decreases networks.len(),
{
    if networks.len() == 0 {
        Map::empty()
    } else {
        let at = base + 2 * (networks.len() - 1);
        network_map(networks.drop_last(), base).insert(
            networks.last().name@,
            NetworkMetrics { received_counter: at as usize, transmitted_counter: (at + 1) as usize },
        )
    }
}

/// `series` with the value at `handle` replaced.
pub open spec fn set_value(series: Seq<SampleView>, handle: int, value: u64) -> Seq<SampleView> {
    series.update(handle, SampleView { value, ..series[handle] })
}

/// `series` with `delta` added to the value at `handle`.
pub open spec fn add_value(series: Seq<SampleView>, handle: int, delta: u64) -> Seq<SampleView> {
    set_value(series, handle, wrapping_sum(series[handle].value, delta))
}

/// What the readings of a list of disks do to the series: each disk whose
/// mount point is followed sets its two gauges; the others are passed over.
pub open spec fn disks_applied(
    series: Seq<SampleView>,
    followed: Map<Seq<char>, DiskMetrics>,
    disks: Seq<DiskReading>,
) -> Seq<SampleView>
    decreases disks.len(),
{
    if disks.len() == 0 {
        series
    } else {
        let earlier = disks_applied(series, followed, disks.drop_last());
        let disk = disks.last();
        if followed.contains_key(disk.mount_point@) {
            set_value(
                set_value(earlier, followed[disk.mount_point@].free_gauge as int, disk.available_space),
                followed[disk.mount_point@].total_gauge as int,
                disk.total_space,
            )
        } else {
            earlier
        }
    }
}

/// What the readings of a list of interfaces do to the series: each known
/// interface adds its traffic to its two counters; the others are passed
/// over.
pub open spec fn networks_applied(
    series: Seq<SampleView>,
    followed: Map<Seq<char>, NetworkMetrics>,
    networks: Seq<NetworkReading>,
) -> Seq<SampleView>
    decreases networks.len(),
{
    if networks.len() == 0 {
        series
    } else {
        let earlier = networks_applied(series, followed, networks.drop_last());
        let network = networks.last();
        if followed.contains_key(network.name@) {
            add_value(
                add_value(earlier, followed[network.name@].received_counter as int, network.received),
                followed[network.name@].transmitted_counter as int,
                network.transmitted,
            )
        } else {
            earlier
        }
    }
}

/// A series without its value: what never changes once it is registered.
pub open spec fn unvalued(sample: SampleView) -> SampleView {
    SampleView { value: 0, ..sample }
}

/// The series without their values.
pub open spec fn shape(series: Seq<SampleView>) -> Seq<SampleView> {
    Seq::new(series.len(), |i: int| unvalued(series[i]))
}

/// A collector as the contracts see it.
pub struct CollectorView {
    /// Every series with its current value, in registration order.
    pub series: Seq<SampleView>,
    /// The handle of the processor load gauge.
    pub cpu_usage: SeriesHandle,
    /// The handle of the gauge of memory in use.
    pub used_memory: SeriesHandle,
    /// The handle of the gauge of memory installed.
    pub total_memory: SeriesHandle,
    /// The gauges kept for each mount point.
    pub disks: Map<Seq<char>, DiskMetrics>,
    /// The counters kept for each interface name.
    pub networks: Map<Seq<char>, NetworkMetrics>,
}

impl CollectorView {
    /// Whether `handle` is a series of `kind`.
    pub open spec fn is_kind(self, handle: SeriesHandle, kind: SeriesKind) -> bool {
        handle < self.series.len() && self.series[handle as int].kind == kind
    }

    /// The invariant of a collector: the series are among those that the
    /// exporter registers, no two of them share an identity, every handle
    /// points at a series of its kind, and no two handles point at one
    /// series.
    pub open spec fn wf(self) -> bool {
        &&& identities_distinct(self.series)
        &&& all_known(self.series)
        &&& self.is_kind(self.cpu_usage, SeriesKind::DoubleGauge)
        &&& self.is_kind(self.used_memory, SeriesKind::Gauge)
        &&& self.is_kind(self.total_memory, SeriesKind::Gauge)
        &&& self.used_memory != self.total_memory
        &&& forall|mount: Seq<char>| #[trigger]
            self.disks.contains_key(mount) ==> {
                &&& self.is_kind(self.disks[mount].free_gauge, SeriesKind::Gauge)
                &&& self.is_kind(self.disks[mount].total_gauge, SeriesKind::Gauge)
                &&& self.disks[mount].free_gauge != self.disks[mount].total_gauge
                &&& self.disks[mount].free_gauge != self.used_memory
                &&& self.disks[mount].free_gauge != self.total_memory
                &&& self.disks[mount].total_gauge != self.used_memory
                &&& self.disks[mount].total_gauge != self.total_memory
            }
        &&& forall|name: Seq<char>| #[trigger]
            self.networks.contains_key(name) ==> {
                &&& self.is_kind(self.networks[name].received_counter, SeriesKind::Counter)
                &&& self.is_kind(self.networks[name].transmitted_counter, SeriesKind::Counter)
                &&& self.networks[name].received_counter != self.networks[name].transmitted_counter
            }
        &&& forall|a: Seq<char>, b: Seq<char>|
            a != b && #[trigger] self.disks.contains_key(a) && #[trigger] self.disks.contains_key(b) ==> {
                &&& self.disks[a].free_gauge != self.disks[b].free_gauge
                &&& self.disks[a].free_gauge != self.disks[b].total_gauge
                &&& self.disks[a].total_gauge != self.disks[b].free_gauge
                &&& self.disks[a].total_gauge != self.disks[b].total_gauge
            }
        &&& forall|a: Seq<char>, b: Seq<char>|
            a != b && #[trigger] self.networks.contains_key(a) && #[trigger] self.networks.contains_key(
                b,
            ) ==> {
                &&& self.networks[a].received_counter != self.networks[b].received_counter
                &&& self.networks[a].received_counter != self.networks[b].transmitted_counter
                &&& self.networks[a].transmitted_counter != self.networks[b].received_counter
                &&& self.networks[a].transmitted_counter != self.networks[b].transmitted_counter
            }
    }

    /// In a well-formed collector the series of each name make one family.
    pub proof fn lemma_families_settled(self)
        requires
            self.wf(),
        ensures
            families_settled(self.series),
    {
        assert forall|i: int, j: int|
            0 <= i < self.series.len() && 0 <= j < self.series.len() && (#[trigger] self.series[i]).name
                == (#[trigger] self.series[j]).name implies {
            &&& self.series[i].help == self.series[j].help
            &&& label_map(self.series[i].labels).dom() == label_map(self.series[j].labels).dom()
            &&& self.series[i].kind == self.series[j].kind
        } by {
            lemma_known_agree(self.series[i], self.series[j]);
        }
    }

    /// The collector after a reading was written into its series: processor
    /// and memory first, then the disks, then the interfaces.
    pub open spec fn collected(self, reading: HostReading) -> CollectorView {
        let disks = disks_applied(self.host_written(reading), self.disks, reading.disks@);
        CollectorView { series: networks_applied(disks, self.networks, reading.networks@), ..self }
    }
}

/// The collector right after construction on the given devices: the series
/// of the disks, then those of the interfaces, then those of the host, all
/// at zero.
pub open spec fn initial_view(disks: Seq<DiskReading>, networks: Seq<NetworkReading>) -> CollectorView {
    let host = 2 * disks.len() + 2 * networks.len();
    CollectorView {
        series: disks_series(disks) + networks_series(networks) + host_series(),
        cpu_usage: host as usize,
        used_memory: (host + 1) as usize,
        total_memory: (host + 2) as usize,
        disks: disk_map(disks, 0),
        networks: network_map(networks, 2 * disks.len() as int),
    }
}

/// The series of a list of disks are two gauges per disk.
pub proof fn lemma_disks_series(disks: Seq<DiskReading>)
    ensures
        disks_series(disks).len() == 2 * disks.len(),
        forall|k: int|
            0 <= k < disks_series(disks).len() ==> (#[trigger] disks_series(disks)[k]).kind
                == SeriesKind::Gauge,
    decreases disks.len(),
{
    if disks.len() > 0 {
        lemma_disks_series(disks.drop_last());
    }
}

/// The series of a list of interfaces are two counters per interface.
pub proof fn lemma_networks_series(networks: Seq<NetworkReading>)
    ensures
        networks_series(networks).len() == 2 * networks.len(),
        forall|k: int|
            0 <= k < networks_series(networks).len() ==> (#[trigger] networks_series(networks)[k]).kind
                == SeriesKind::Counter,
    decreases networks.len(),
{
    if networks.len() > 0 {
        lemma_networks_series(networks.drop_last());
    }
}

/// Every mount point of the map is the mount point of one of the disks, and
/// its gauges are the two registered for that disk.
pub proof fn lemma_disk_map(disks: Seq<DiskReading>, base: int)
    ensures
        forall|mount: Seq<char>| #[trigger]
            disk_map(disks, base).contains_key(mount) <==> exists|k: int|
                0 <= k < disks.len() && (#[trigger] disks[k]).mount_point@ == mount,
        forall|mount: Seq<char>| #[trigger]
            disk_map(disks, base).contains_key(mount) ==> exists|k: int|
                0 <= k < disks.len() && (#[trigger] disks[k]).mount_point@ == mount && disk_map(
                    disks,
                    base,
                )[mount] == (DiskMetrics {
                    free_gauge: (base + 2 * k) as usize,
                    total_gauge: (base + 2 * k + 1) as usize,
                }),
    decreases disks.len(),
{
    if disks.len() > 0 {
        let rest = disks.drop_last();
        lemma_disk_map(rest, base);
        assert forall|mount: Seq<char>| #[trigger] disk_map(disks, base).contains_key(mount) implies exists|
            k: int,
        |
            0 <= k < disks.len() && (#[trigger] disks[k]).mount_point@ == mount && disk_map(
                disks,
                base,
            )[mount] == (DiskMetrics {
                free_gauge: (base + 2 * k) as usize,
                total_gauge: (base + 2 * k + 1) as usize,
            }) by {
            if mount == disks.last().mount_point@ {
                assert(disks[disks.len() - 1].mount_point@ == mount);
            } else {
                assert(disk_map(rest, base).contains_key(mount));
                let k = choose|k: int|
                    0 <= k < rest.len() && (#[trigger] rest[k]).mount_point@ == mount && disk_map(
                        rest,
                        base,
                    )[mount] == (DiskMetrics {
                        free_gauge: (base + 2 * k) as usize,
                        total_gauge: (base + 2 * k + 1) as usize,
                    });
                assert(disks[k] == rest[k]);
            }
        }
        assert forall|mount: Seq<char>| #[trigger]
            disk_map(disks, base).contains_key(mount) <==> exists|k: int|
                0 <= k < disks.len() && (#[trigger] disks[k]).mount_point@ == mount by {
            if exists|k: int| 0 <= k < disks.len() && (#[trigger] disks[k]).mount_point@ == mount {
                let k = choose|k: int| 0 <= k < disks.len() && (#[trigger] disks[k]).mount_point@ == mount;
                if k < rest.len() {
                    assert(rest[k] == disks[k]);
                    assert(disk_map(rest, base).contains_key(mount));
                }
                assert(disk_map(disks, base).contains_key(mount));
            }
            if disk_map(disks, base).contains_key(mount) {
                if mount == disks.last().mount_point@ {
                    assert(disks[disks.len() - 1].mount_point@ == mount);
                } else {
                    assert(disk_map(rest, base).contains_key(mount));
                    let k = choose|k: int| 0 <= k < rest.len() && (#[trigger] rest[k]).mount_point@ == mount;
                    assert(disks[k] == rest[k]);
                }
            }
        }
    }
}

/// Every name of the map is the name of one of the interfaces, and its
/// counters are the two registered for that interface.
pub proof fn lemma_network_map(networks: Seq<NetworkReading>, base: int)
    ensures
        forall|name: Seq<char>| #[trigger]
            network_map(networks, base).contains_key(name) <==> exists|k: int|
                0 <= k < networks.len() && (#[trigger] networks[k]).name@ == name,
        forall|name: Seq<char>| #[trigger]
            network_map(networks, base).contains_key(name) ==> exists|k: int|
                0 <= k < networks.len() && (#[trigger] networks[k]).name@ == name && network_map(
                    networks,
                    base,
                )[name] == (NetworkMetrics {
                    received_counter: (base + 2 * k) as usize,
                    transmitted_counter: (base + 2 * k + 1) as usize,
                }),
    decreases networks.len(),
{
    if networks.len() > 0 {
        let rest = networks.drop_last();
        lemma_network_map(rest, base);
        assert forall|name: Seq<char>| #[trigger]
            network_map(networks, base).contains_key(name) implies exists|k: int|
            0 <= k < networks.len() && (#[trigger] networks[k]).name@ == name && network_map(
                networks,
                base,
            )[name] == (NetworkMetrics {
                received_counter: (base + 2 * k) as usize,
                transmitted_counter: (base + 2 * k + 1) as usize,
            }) by {
            if name == networks.last().name@ {
                assert(networks[networks.len() - 1].name@ == name);
            } else {
                assert(network_map(rest, base).contains_key(name));
                let k = choose|k: int|
                    0 <= k < rest.len() && (#[trigger] rest[k]).name@ == name && network_map(
                        rest,
                        base,
                    )[name] == (NetworkMetrics {
                        received_counter: (base + 2 * k) as usize,
                        transmitted_counter: (base + 2 * k + 1) as usize,
                    });
                assert(networks[k] == rest[k]);
            }
        }
        assert forall|name: Seq<char>| #[trigger]
            network_map(networks, base).contains_key(name) <==> exists|k: int|
                0 <= k < networks.len() && (#[trigger] networks[k]).name@ == name by {
            if exists|k: int| 0 <= k < networks.len() && (#[trigger] networks[k]).name@ == name {
                let k = choose|k: int| 0 <= k < networks.len() && (#[trigger] networks[k]).name@ == name;
                if k < rest.len() {
                    assert(rest[k] == networks[k]);
                    assert(network_map(rest, base).contains_key(name));
                }
                assert(network_map(networks, base).contains_key(name));
            }
            if network_map(networks, base).contains_key(name) {
                if name == networks.last().name@ {
                    assert(networks[networks.len() - 1].name@ == name);
                } else {
                    assert(network_map(rest, base).contains_key(name));
                    let k = choose|k: int| 0 <= k < rest.len() && (#[trigger] rest[k]).name@ == name;
                    assert(networks[k] == rest[k]);
                }
            }
        }
    }
}

/// A collector that was constructed on devices whose series have distinct
/// identities is well formed.
pub proof fn lemma_initial_view_wf(disks: Seq<DiskReading>, networks: Seq<NetworkReading>)
    requires
        identities_distinct(initial_view(disks, networks).series),
        2 * disks.len() + 2 * networks.len() + 3 <= usize::MAX,
    ensures
        initial_view(disks, networks).wf(),
{
    let view = initial_view(disks, networks);
    lemma_disks_series(disks);
    lemma_networks_series(networks);
    lemma_disk_map(disks, 0);
    lemma_network_map(networks, 2 * disks.len() as int);
    lemma_initial_series(disks, networks);
    let d = 2 * disks.len() as int;
    let n = 2 * networks.len() as int;
    assert(view.series.len() == d + n + 3);
    assert forall|k: int| 0 <= k < d implies (#[trigger] view.series[k]).kind == SeriesKind::Gauge by {
        assert(view.series[k] == disks_series(disks)[k]);
    }
    assert forall|k: int| d <= k < d + n implies (#[trigger] view.series[k]).kind == SeriesKind::Counter by {
        assert(view.series[k] == networks_series(networks)[k - d]);
    }
    assert(view.series[d + n] == host_series()[0]);
    assert(view.series[d + n + 1] == host_series()[1]);
    assert(view.series[d + n + 2] == host_series()[2]);
}

/// Replacing a value changes neither the number of series nor what they
/// are.
pub proof fn lemma_set_value_shape(series: Seq<SampleView>, handle: int, value: u64)
    requires
        0 <= handle < series.len(),
    ensures
        shape(set_value(series, handle, value)) == shape(series),
        set_value(series, handle, value).len() == series.len(),
{
    assert(shape(set_value(series, handle, value)) =~= shape(series));
}

/// Two lists of series that are the same but for the values have the same
/// length, the same kinds, the same identities and the same help texts.
pub proof fn lemma_shape(a: Seq<SampleView>, b: Seq<SampleView>)
    requires
        shape(a) == shape(b),
    ensures
        a.len() == b.len(),
        forall|i: int|
            0 <= i < a.len() ==> (#[trigger] a[i]).kind == b[i].kind && a[i].id() == b[i].id()
                && a[i].name == b[i].name && a[i].labels == b[i].labels && a[i].help == b[i].help,
        identities_distinct(a) == identities_distinct(b),
        all_known(a) == all_known(b),
{
    assert(shape(a).len() == a.len());
    assert(shape(b).len() == b.len());
    assert forall|i: int| 0 <= i < a.len() implies (#[trigger] a[i]).kind == b[i].kind && a[i].id()
        == b[i].id() && a[i].name == b[i].name && a[i].labels == b[i].labels && a[i].help
        == b[i].help by {
        assert(shape(a)[i] == unvalued(a[i]));
        assert(shape(b)[i] == unvalued(b[i]));
    }
    if all_known(a) {
        assert forall|i: int| 0 <= i < b.len() implies is_known(#[trigger] b[i]) by {
            assert(is_known(a[i]));
        }
    }
    if all_known(b) {
        assert forall|i: int| 0 <= i < a.len() implies is_known(#[trigger] a[i]) by {
            assert(is_known(b[i]));
        }
    }
    if identities_distinct(a) {
        assert forall|i: int, j: int| 0 <= i < j < b.len() implies (#[trigger] b[i]).id() != (
        #[trigger] b[j]).id() by {
            assert(a[i].id() != a[j].id());
        }
    }
    if identities_distinct(b) {
        assert forall|i: int, j: int| 0 <= i < j < a.len() implies (#[trigger] a[i]).id() != (
        #[trigger] a[j]).id() by {
            assert(b[i].id() != b[j].id());
        }
    }
}

/// Whether every handle of the disk map is a series.
pub open spec fn disk_handles_within(followed: Map<Seq<char>, DiskMetrics>, len: nat) -> bool {
    forall|mount: Seq<char>| #[trigger]
        followed.contains_key(mount) ==> followed[mount].free_gauge < len && followed[mount].total_gauge < len
}

/// Whether every handle of the interface map is a series.
pub open spec fn network_handles_within(followed: Map<Seq<char>, NetworkMetrics>, len: nat) -> bool {
    forall|name: Seq<char>| #[trigger]
        followed.contains_key(name) ==> followed[name].received_counter < len
            && followed[name].transmitted_counter < len
}

/// Writing disk readings changes neither the number of series nor what they
/// are.
pub proof fn lemma_disks_applied_shape(
    series: Seq<SampleView>,
    followed: Map<Seq<char>, DiskMetrics>,
    disks: Seq<DiskReading>,
)
    requires
        disk_handles_within(followed, series.len()),
    ensures
        shape(disks_applied(series, followed, disks)) == shape(series),
        disks_applied(series, followed, disks).len() == series.len(),
    decreases disks.len(),
{
    if disks.len() > 0 {
        lemma_disks_applied_shape(series, followed, disks.drop_last());
        let earlier = disks_applied(series, followed, disks.drop_last());
        let disk = disks.last();
        if followed.contains_key(disk.mount_point@) {
            let m = followed[disk.mount_point@];
            let free = set_value(earlier, m.free_gauge as int, disk.available_space);
            lemma_set_value_shape(earlier, m.free_gauge as int, disk.available_space);
            lemma_set_value_shape(free, m.total_gauge as int, disk.total_space);
        }
    }
}

/// Writing interface readings changes neither the number of series nor
/// what they are.
pub proof fn lemma_networks_applied_shape(
    series: Seq<SampleView>,
    followed: Map<Seq<char>, NetworkMetrics>,
    networks: Seq<NetworkReading>,
)
    requires
        network_handles_within(followed, series.len()),
    ensures
        shape(networks_applied(series, followed, networks)) == shape(series),
        networks_applied(series, followed, networks).len() == series.len(),
    decreases networks.len(),
{
    if networks.len() > 0 {
        lemma_networks_applied_shape(series, followed, networks.drop_last());
        let earlier = networks_applied(series, followed, networks.drop_last());
        let network = networks.last();
        if followed.contains_key(network.name@) {
            let m = followed[network.name@];
            let received = add_value(earlier, m.received_counter as int, network.received);
            lemma_set_value_shape(
                earlier,
                m.received_counter as int,
                wrapping_sum(earlier[m.received_counter as int].value, network.received),
            );
            lemma_set_value_shape(
                received,
                m.transmitted_counter as int,
                wrapping_sum(received[m.transmitted_counter as int].value, network.transmitted),
            );
        }
    }
}

impl CollectorView {
    /// The series after processor and memory were written.
    pub open spec fn host_written(self, reading: HostReading) -> Seq<SampleView> {
        set_value(
            set_value(
                set_value(self.series, self.cpu_usage as int, reading.cpu_usage_bits),
                self.used_memory as int,
                reading.used_memory,
            ),
            self.total_memory as int,
            reading.total_memory,
        )
    }

    /// A well-formed collector stays well formed when only values change.
    pub proof fn lemma_wf_by_shape(self, series: Seq<SampleView>)
        requires
            self.wf(),
            shape(series) == shape(self.series),
        ensures
            (CollectorView { series, ..self }).wf(),
    {
        lemma_shape(series, self.series);
    }

    /// Collecting changes values only: the series, their identities and the
    /// devices that are followed stay what they were, and the collector
    /// stays well formed.
    pub proof fn lemma_collected(self, reading: HostReading)
        requires
            self.wf(),
        ensures
            shape(self.collected(reading).series) == shape(self.series),
            self.collected(reading).series.len() == self.series.len(),
            self.collected(reading).disks == self.disks,
            self.collected(reading).networks == self.networks,
            self.collected(reading).wf(),
    {
        let cpu = set_value(self.series, self.cpu_usage as int, reading.cpu_usage_bits);
        let used = set_value(cpu, self.used_memory as int, reading.used_memory);
        let host = set_value(used, self.total_memory as int, reading.total_memory);
        lemma_set_value_shape(self.series, self.cpu_usage as int, reading.cpu_usage_bits);
        lemma_set_value_shape(cpu, self.used_memory as int, reading.used_memory);
        lemma_set_value_shape(used, self.total_memory as int, reading.total_memory);
        assert(host == self.host_written(reading));
        lemma_disks_applied_shape(host, self.disks, reading.disks@);
        let disks = disks_applied(host, self.disks, reading.disks@);
        lemma_networks_applied_shape(disks, self.networks, reading.networks@);
        self.lemma_wf_by_shape(self.collected(reading).series);
    }
}

/// Whether two series of a list are filed under one number by the
/// registry. Two series of one identity always are.
pub open spec fn numbers_collide(series: Seq<SampleView>) -> bool {
    exists|i: int, j: int|
        0 <= i < j < series.len() && (#[trigger] series[i]).number() == (#[trigger] series[j]).number()
}

/// Series whose numbers do not collide have distinct identities.
pub proof fn law_distinct_numbers_distinct_identities(series: Seq<SampleView>)
    requires
        !numbers_collide(series),
    ensures
        identities_distinct(series),
{
    assert forall|i: int, j: int| 0 <= i < j < series.len() implies (#[trigger] series[i]).id() != (
    #[trigger] series[j]).id() by {
        if series[i].id() == series[j].id() {
            assert(series[i].number() == series[j].number());
        }
    }
}

/// The series of disk `k` are at positions `2k` and `2k + 1`.
pub proof fn lemma_disks_series_at(disks: Seq<DiskReading>, k: int)
    requires
        0 <= k < disks.len(),
    ensures
        disks_series(disks).len() == 2 * disks.len(),
        disks_series(disks)[2 * k] == disk_series(disks[k])[0],
        disks_series(disks)[2 * k + 1] == disk_series(disks[k])[1],
    decreases disks.len(),
{
    lemma_disks_series(disks);
    lemma_disks_series(disks.drop_last());
    if k < disks.len() - 1 {
        lemma_disks_series_at(disks.drop_last(), k);
        assert(disks.drop_last()[k] == disks[k]);
    }
}

/// The series of interface `k` are at positions `2k` and `2k + 1`.
pub proof fn lemma_networks_series_at(networks: Seq<NetworkReading>, k: int)
    requires
        0 <= k < networks.len(),
    ensures
        networks_series(networks).len() == 2 * networks.len(),
        networks_series(networks)[2 * k] == network_series(networks[k])[0],
        networks_series(networks)[2 * k + 1] == network_series(networks[k])[1],
    decreases networks.len(),
{
    lemma_networks_series(networks);
    lemma_networks_series(networks.drop_last());
    if k < networks.len() - 1 {
        lemma_networks_series_at(networks.drop_last(), k);
        assert(networks.drop_last()[k] == networks[k]);
    }
}

/// Where the series of each device and of the host stand right after
/// construction, and that all of them are series that the exporter
/// registers.
pub proof fn lemma_initial_series(disks: Seq<DiskReading>, networks: Seq<NetworkReading>)
    ensures
        initial_view(disks, networks).series.len() == 2 * disks.len() + 2 * networks.len() + 3,
        forall|k: int|
            0 <= k < disks.len() ==> {
                &&& initial_view(disks, networks).series[2 * k] == disk_series(#[trigger] disks[k])[0]
                &&& initial_view(disks, networks).series[2 * k + 1] == disk_series(disks[k])[1]
            },
        forall|k: int|
            0 <= k < networks.len() ==> {
                &&& initial_view(disks, networks).series[2 * disks.len() + 2 * k] == network_series(
                    #[trigger] networks[k],
                )[0]
                &&& initial_view(disks, networks).series[2 * disks.len() + 2 * k + 1] == network_series(
                    networks[k],
                )[1]
            },
        forall|k: int|
            0 <= k < 3 ==> initial_view(disks, networks).series[2 * disks.len() + 2 * networks.len() + k]
                == #[trigger] host_series()[k],
        all_known(initial_view(disks, networks).series),
{
    let series = initial_view(disks, networks).series;
    let d = 2 * disks.len() as int;
    let n = 2 * networks.len() as int;
    lemma_disks_series(disks);
    lemma_networks_series(networks);
    assert forall|k: int| 0 <= k < disks.len() implies {
        &&& series[2 * k] == disk_series(#[trigger] disks[k])[0]
        &&& series[2 * k + 1] == disk_series(disks[k])[1]
    } by {
        lemma_disks_series_at(disks, k);
    }
    assert forall|k: int| 0 <= k < networks.len() implies {
        &&& series[d + 2 * k] == network_series(#[trigger] networks[k])[0]
        &&& series[d + 2 * k + 1] == network_series(networks[k])[1]
    } by {
        lemma_networks_series_at(networks, k);
        assert(series[d + 2 * k] == networks_series(networks)[2 * k]);
        assert(series[d + 2 * k + 1] == networks_series(networks)[2 * k + 1]);
    }
    assert forall|i: int| 0 <= i < series.len() implies is_known(
        #[trigger] series[i],
    ) by {
        if i < d {
            let k = i / 2;
            lemma_series_known(disks[k], arbitrary());
            assert(disk_series(disks[k])[0] == series[2 * k]);
            assert(disk_series(disks[k])[1] == series[2 * k + 1]);
            assert(i == 2 * k || i == 2 * k + 1);
        } else if i < d + n {
            let k = (i - d) / 2;
            lemma_series_known(arbitrary(), networks[k]);
            assert(network_series(networks[k])[0] == series[d + 2 * k]);
            assert(network_series(networks[k])[1] == series[d + 2 * k + 1]);
            assert(i == d + 2 * k || i == d + 2 * k + 1);
        } else {
            lemma_series_known(arbitrary(), arbitrary());
            assert(series[i] == host_series()[i - d - n]);
        }
    }
}


} // verus!
