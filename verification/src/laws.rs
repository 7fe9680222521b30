//! What holds of every collector, whatever the host reports.
use crate::model::{
    add_value, disk_handles_within, disk_map, disks_applied, initial_view, lemma_disk_map,
    lemma_disks_applied_shape, lemma_disks_series, lemma_network_map, lemma_networks_applied_shape,
    lemma_networks_series, lemma_networks_series_at, lemma_set_value_shape, lemma_shape,
    network_handles_within, network_map, networks_applied, networks_series, set_value, shape,
    CollectorView, DiskMetrics, NetworkMetrics,
};
use crate::host::{DiskReading, HostReading, NetworkReading};
use crate::registry::{identities_distinct, SampleView, SeriesKind};
use vstd::prelude::*;

verus! {

/// What a list of interface readings adds to the counter at `handle`: the
/// bytes received of every followed interface that counts them there, and
/// the bytes transmitted of every one that counts those there.
pub open spec fn traffic(
    followed: Map<Seq<char>, NetworkMetrics>,
    networks: Seq<NetworkReading>,
    handle: int,
) -> nat
    decreases networks.len(),
{
    if networks.len() == 0 {
        0
    } else {
        let network = networks.last();
        let received: nat = if followed.contains_key(network.name@)
            && followed[network.name@].received_counter == handle {
            network.received as nat
        } else {
            0
        };
        let transmitted: nat = if followed.contains_key(network.name@)
            && followed[network.name@].transmitted_counter == handle {
            network.transmitted as nat
        } else {
            0
        };
        traffic(followed, networks.drop_last(), handle) + received + transmitted
    }
}

/// Disk readings leave a series alone that is no gauge of a followed disk.
pub proof fn lemma_disks_applied_elsewhere(
    series: Seq<SampleView>,
    followed: Map<Seq<char>, DiskMetrics>,
    disks: Seq<DiskReading>,
    handle: int,
)
    requires
        disk_handles_within(followed, series.len()),
        0 <= handle < series.len(),
        forall|mount: Seq<char>| #[trigger]
            followed.contains_key(mount) ==> followed[mount].free_gauge != handle
                && followed[mount].total_gauge != handle,
    ensures
        disks_applied(series, followed, disks)[handle] == series[handle],
    decreases disks.len(),
{
    if disks.len() > 0 {
        lemma_disks_applied_elsewhere(series, followed, disks.drop_last(), handle);
        lemma_disks_applied_shape(series, followed, disks.drop_last());
    }
}

/// Interface readings leave a series alone that is no counter of a followed
/// interface.
pub proof fn lemma_networks_applied_elsewhere(
    series: Seq<SampleView>,
    followed: Map<Seq<char>, NetworkMetrics>,
    networks: Seq<NetworkReading>,
    handle: int,
)
    requires
        network_handles_within(followed, series.len()),
        0 <= handle < series.len(),
        forall|name: Seq<char>| #[trigger]
            followed.contains_key(name) ==> followed[name].received_counter != handle
                && followed[name].transmitted_counter != handle,
    ensures
        networks_applied(series, followed, networks)[handle] == series[handle],
    decreases networks.len(),
{
    if networks.len() > 0 {
        lemma_networks_applied_elsewhere(series, followed, networks.drop_last(), handle);
        lemma_networks_applied_shape(series, followed, networks.drop_last());
    }
}

/// Interface readings add to a counter exactly the traffic that is counted
/// there, as long as the counter has room for it.
pub proof fn lemma_networks_applied_adds(
    series: Seq<SampleView>,
    followed: Map<Seq<char>, NetworkMetrics>,
    networks: Seq<NetworkReading>,
    handle: int,
)
    requires
        network_handles_within(followed, series.len()),
        0 <= handle < series.len(),
        series[handle].value + traffic(followed, networks, handle) <= u64::MAX,
    ensures
        networks_applied(series, followed, networks)[handle].value == series[handle].value + traffic(
            followed,
            networks,
            handle,
        ),
    decreases networks.len(),
{
    if networks.len() > 0 {
        lemma_networks_applied_adds(series, followed, networks.drop_last(), handle);
        lemma_networks_applied_shape(series, followed, networks.drop_last());
        let earlier = networks_applied(series, followed, networks.drop_last());
        let network = networks.last();
        if followed.contains_key(network.name@) {
            let m = followed[network.name@];
            let received = add_value(earlier, m.received_counter as int, network.received);
            assert(received.len() == earlier.len());
        }
    }
}

/// Counters never decrease: a tick adds to every counter exactly the
/// traffic that the reading counts there, so the counter holds at least what
/// it held before, provided it has room for what is added. (A counter is a
/// 64-bit accumulator; one that would pass 2^64 - 1 wraps round.)
pub proof fn law_counters_never_decrease(before: CollectorView, reading: HostReading, handle: int)
    requires
        before.wf(),
        0 <= handle < before.series.len(),
        before.series[handle].kind == SeriesKind::Counter,
        before.series[handle].value + traffic(before.networks, reading.networks@, handle) <= u64::MAX,
    ensures
        before.collected(reading).series[handle].kind == SeriesKind::Counter,
        before.collected(reading).series[handle].value == before.series[handle].value + traffic(
            before.networks,
            reading.networks@,
            handle,
        ),
        before.series[handle].value <= before.collected(reading).series[handle].value,
{
    before.lemma_collected(reading);
    lemma_shape(before.collected(reading).series, before.series);
    let host = before.host_written(reading);
    lemma_host_written(before, reading);
    lemma_shape(host, before.series);
    assert(host[handle] == before.series[handle]);
    lemma_disks_applied_shape(host, before.disks, reading.disks@);
    lemma_disks_applied_elsewhere(host, before.disks, reading.disks@, handle);
    let disks = disks_applied(host, before.disks, reading.disks@);
    lemma_networks_applied_adds(disks, before.networks, reading.networks@, handle);
}

/// The collector after a sequence of ticks, one reading for each.
pub open spec fn after_ticks(view: CollectorView, readings: Seq<HostReading>) -> CollectorView
    decreases readings.len(),
{
    if readings.len() == 0 {
        view
    } else {
        after_ticks(view, readings.drop_last()).collected(readings.last())
    }
}

/// What a sequence of ticks adds to the counter at `handle`.
pub open spec fn traffic_of_ticks(
    followed: Map<Seq<char>, NetworkMetrics>,
    readings: Seq<HostReading>,
    handle: int,
) -> nat
    decreases readings.len(),
{
    if readings.len() == 0 {
        0
    } else {
        traffic_of_ticks(followed, readings.drop_last(), handle) + traffic(
            followed,
            readings.last().networks@,
            handle,
        )
    }
}

/// The first ticks of a sequence add no more than all of them.
proof fn lemma_traffic_of_first_ticks(
    followed: Map<Seq<char>, NetworkMetrics>,
    readings: Seq<HostReading>,
    handle: int,
    i: int,
)
    requires
        0 <= i <= readings.len(),
    ensures
        traffic_of_ticks(followed, readings.take(i), handle) <= traffic_of_ticks(
            followed,
            readings,
            handle,
        ),
    decreases readings.len(),
{
    if i == readings.len() {
        assert(readings.take(i) =~= readings);
    } else {
        assert(readings.drop_last().take(i) =~= readings.take(i));
        lemma_traffic_of_first_ticks(followed, readings.drop_last(), handle, i);
    }
}

/// Counters accumulate: after any sequence of ticks a counter holds what it
/// held before and all the traffic that the readings count there, provided
/// it has room for it. The collector stays well formed and follows the same
/// interfaces throughout.
pub proof fn law_counters_accumulate(before: CollectorView, readings: Seq<HostReading>, handle: int)
    requires
        before.wf(),
        0 <= handle < before.series.len(),
        before.series[handle].kind == SeriesKind::Counter,
        before.series[handle].value + traffic_of_ticks(before.networks, readings, handle) <= u64::MAX,
    ensures
        after_ticks(before, readings).wf(),
        after_ticks(before, readings).networks == before.networks,
        after_ticks(before, readings).series.len() == before.series.len(),
        after_ticks(before, readings).series[handle].kind == SeriesKind::Counter,
        after_ticks(before, readings).series[handle].value == before.series[handle].value
            + traffic_of_ticks(before.networks, readings, handle),
    decreases readings.len(),
{
    if readings.len() > 0 {
        law_counters_accumulate(before, readings.drop_last(), handle);
        let earlier = after_ticks(before, readings.drop_last());
        earlier.lemma_collected(readings.last());
        law_counters_never_decrease(earlier, readings.last(), handle);
    }
}

/// Counters never decrease across any sequence of ticks: what a counter
/// holds after the first `i` ticks it still holds, or more, after the first
/// `j`, for `i` before `j`, provided it has room for the traffic of the
/// whole sequence.
pub proof fn law_counters_never_decrease_over_ticks(
    before: CollectorView,
    readings: Seq<HostReading>,
    handle: int,
    i: int,
    j: int,
)
    requires
        before.wf(),
        0 <= handle < before.series.len(),
        before.series[handle].kind == SeriesKind::Counter,
        before.series[handle].value + traffic_of_ticks(before.networks, readings, handle) <= u64::MAX,
        0 <= i <= j <= readings.len(),
    ensures
        after_ticks(before, readings.take(i)).series.len() == before.series.len(),
        after_ticks(before, readings.take(j)).series.len() == before.series.len(),
        after_ticks(before, readings.take(i)).series[handle].value <= after_ticks(
            before,
            readings.take(j),
        ).series[handle].value,
{
    lemma_traffic_of_first_ticks(before.networks, readings, handle, j);
    lemma_traffic_of_first_ticks(before.networks, readings.take(j), handle, i);
    assert(readings.take(j).take(i) =~= readings.take(i));
    law_counters_accumulate(before, readings.take(i), handle);
    law_counters_accumulate(before, readings.take(j), handle);
}

/// Writing processor and memory changes values only, and exactly three of
/// them.
pub proof fn lemma_host_written(before: CollectorView, reading: HostReading)
    requires
        before.wf(),
    ensures
        shape(before.host_written(reading)) == shape(before.series),
        before.host_written(reading).len() == before.series.len(),
        before.host_written(reading)[before.cpu_usage as int].value == reading.cpu_usage_bits,
        before.host_written(reading)[before.used_memory as int].value == reading.used_memory,
        before.host_written(reading)[before.total_memory as int].value == reading.total_memory,
        forall|handle: int|
            0 <= handle < before.series.len() && handle != before.cpu_usage && handle
                != before.used_memory && handle != before.total_memory
                ==> #[trigger] before.host_written(reading)[handle] == before.series[handle],
{
    let cpu = set_value(before.series, before.cpu_usage as int, reading.cpu_usage_bits);
    let used = set_value(cpu, before.used_memory as int, reading.used_memory);
    lemma_set_value_shape(before.series, before.cpu_usage as int, reading.cpu_usage_bits);
    lemma_set_value_shape(cpu, before.used_memory as int, reading.used_memory);
    lemma_set_value_shape(used, before.total_memory as int, reading.total_memory);
}

/// No stale processor or memory value: once a reading has been collected,
/// the three series of the host hold what the reading says.
pub proof fn law_host_values_current(before: CollectorView, reading: HostReading)
    requires
        before.wf(),
    ensures
        before.collected(reading).series[before.cpu_usage as int].value == reading.cpu_usage_bits,
        before.collected(reading).series[before.used_memory as int].value == reading.used_memory,
        before.collected(reading).series[before.total_memory as int].value == reading.total_memory,
{
    let host = before.host_written(reading);
    lemma_host_written(before, reading);
    lemma_shape(host, before.series);
    lemma_disks_applied_shape(host, before.disks, reading.disks@);
    let disks = disks_applied(host, before.disks, reading.disks@);
    lemma_disks_applied_elsewhere(host, before.disks, reading.disks@, before.cpu_usage as int);
    lemma_disks_applied_elsewhere(host, before.disks, reading.disks@, before.used_memory as int);
    lemma_disks_applied_elsewhere(host, before.disks, reading.disks@, before.total_memory as int);
    lemma_networks_applied_elsewhere(disks, before.networks, reading.networks@, before.cpu_usage as int);
    lemma_networks_applied_elsewhere(disks, before.networks, reading.networks@, before.used_memory as int);
    lemma_networks_applied_elsewhere(disks, before.networks, reading.networks@, before.total_memory as int);
}

/// Whether disk `k` is the only disk of the list at its mount point.
pub open spec fn only_at_mount(disks: Seq<DiskReading>, k: int) -> bool {
    forall|other: int|
        0 <= other < disks.len() && other != k ==> (#[trigger] disks[other]).mount_point@
            != disks[k].mount_point@
}

/// Whether the gauges of the disk map are all different.
pub open spec fn disk_handles_apart(followed: Map<Seq<char>, DiskMetrics>) -> bool {
    &&& forall|mount: Seq<char>| #[trigger]
        followed.contains_key(mount) ==> followed[mount].free_gauge != followed[mount].total_gauge
    &&& forall|a: Seq<char>, b: Seq<char>|
        a != b && #[trigger] followed.contains_key(a) && #[trigger] followed.contains_key(b) ==> {
            &&& followed[a].free_gauge != followed[b].free_gauge
            &&& followed[a].free_gauge != followed[b].total_gauge
            &&& followed[a].total_gauge != followed[b].free_gauge
            &&& followed[a].total_gauge != followed[b].total_gauge
        }
}

/// The gauges of a disk after disk readings were written, if the disk is
/// followed and is the only one of the readings at its mount point.
pub proof fn lemma_disks_applied_at(
    series: Seq<SampleView>,
    followed: Map<Seq<char>, DiskMetrics>,
    disks: Seq<DiskReading>,
    k: int,
)
    requires
        disk_handles_within(followed, series.len()),
        disk_handles_apart(followed),
        0 <= k < disks.len(),
        followed.contains_key(disks[k].mount_point@),
        only_at_mount(disks, k),
    ensures
        disks_applied(series, followed, disks)[followed[disks[k].mount_point@].free_gauge as int].value
            == disks[k].available_space,
        disks_applied(series, followed, disks)[followed[disks[k].mount_point@].total_gauge as int].value
            == disks[k].total_space,
    decreases disks.len(),
{
    let rest = disks.drop_last();
    let own = disks[k].mount_point@;
    lemma_disks_applied_shape(series, followed, rest);
    let earlier = disks_applied(series, followed, rest);
    if k == disks.len() - 1 {
        lemma_set_value_shape(earlier, followed[own].free_gauge as int, disks[k].available_space);
    } else {
        assert(rest[k] == disks[k]);
        assert(only_at_mount(rest, k)) by {
            assert forall|other: int| 0 <= other < rest.len() && other != k implies (
            #[trigger] rest[other]).mount_point@ != rest[k].mount_point@ by {
                assert(rest[other] == disks[other]);
            }
        }
        lemma_disks_applied_at(series, followed, rest, k);
        let last = disks.last();
        assert(last == disks[disks.len() - 1]);
        if followed.contains_key(last.mount_point@) {
            assert(last.mount_point@ != own);
            lemma_set_value_shape(
                earlier,
                followed[last.mount_point@].free_gauge as int,
                last.available_space,
            );
        }
    }
}

/// No stale disk value: once a reading has been collected, the two gauges
/// of a followed disk hold what the reading says of it, provided the
/// reading lists one disk only at that mount point.
pub proof fn law_disk_values_current(before: CollectorView, reading: HostReading, k: int)
    requires
        before.wf(),
        0 <= k < reading.disks@.len(),
        before.disks.contains_key(reading.disks@[k].mount_point@),
        only_at_mount(reading.disks@, k),
    ensures
        ({
            let metrics = before.disks[reading.disks@[k].mount_point@];
            &&& before.collected(reading).series[metrics.free_gauge as int].value
                == reading.disks@[k].available_space
            &&& before.collected(reading).series[metrics.total_gauge as int].value
                == reading.disks@[k].total_space
        }),
{
    let host = before.host_written(reading);
    lemma_host_written(before, reading);
    lemma_shape(host, before.series);
    let metrics = before.disks[reading.disks@[k].mount_point@];
    lemma_disks_applied_shape(host, before.disks, reading.disks@);
    lemma_disks_applied_at(host, before.disks, reading.disks@, k);
    let disks = disks_applied(host, before.disks, reading.disks@);
    lemma_networks_applied_elsewhere(
        disks,
        before.networks,
        reading.networks@,
        metrics.free_gauge as int,
    );
    lemma_networks_applied_elsewhere(
        disks,
        before.networks,
        reading.networks@,
        metrics.total_gauge as int,
    );
}

/// A device that the reading does not list keeps its last values: a series
/// that is neither one of the host nor one of a device of the reading is
/// what it was.
pub proof fn law_absent_device_keeps_values(before: CollectorView, reading: HostReading, handle: int)
    requires
        before.wf(),
        0 <= handle < before.series.len(),
        handle != before.cpu_usage,
        handle != before.used_memory,
        handle != before.total_memory,
        forall|k: int|
            0 <= k < reading.disks@.len() ==> (before.disks.contains_key(
                (#[trigger] reading.disks@[k]).mount_point@,
            ) ==> before.disks[reading.disks@[k].mount_point@].free_gauge != handle
                && before.disks[reading.disks@[k].mount_point@].total_gauge != handle),
        forall|k: int|
            0 <= k < reading.networks@.len() ==> (before.networks.contains_key(
                (#[trigger] reading.networks@[k]).name@,
            ) ==> before.networks[reading.networks@[k].name@].received_counter != handle
                && before.networks[reading.networks@[k].name@].transmitted_counter != handle),
    ensures
        before.collected(reading).series[handle] == before.series[handle],
{
    let host = before.host_written(reading);
    lemma_host_written(before, reading);
    lemma_shape(host, before.series);
    lemma_disks_skipped(host, before.disks, reading.disks@, handle);
    lemma_disks_applied_shape(host, before.disks, reading.disks@);
    let disks = disks_applied(host, before.disks, reading.disks@);
    lemma_networks_skipped(disks, before.networks, reading.networks@, handle);
}

/// Disk readings leave a series alone that is no gauge of a disk they list.
proof fn lemma_disks_skipped(
    series: Seq<SampleView>,
    followed: Map<Seq<char>, DiskMetrics>,
    disks: Seq<DiskReading>,
    handle: int,
)
    requires
        disk_handles_within(followed, series.len()),
        0 <= handle < series.len(),
        forall|k: int|
            0 <= k < disks.len() ==> (followed.contains_key((#[trigger] disks[k]).mount_point@)
                ==> followed[disks[k].mount_point@].free_gauge != handle
                && followed[disks[k].mount_point@].total_gauge != handle),
    ensures
        disks_applied(series, followed, disks)[handle] == series[handle],
    decreases disks.len(),
{
    if disks.len() > 0 {
        let rest = disks.drop_last();
        assert forall|k: int|
            0 <= k < rest.len() && followed.contains_key((#[trigger] rest[k]).mount_point@) implies followed[rest[k].mount_point@].free_gauge
            != handle && followed[rest[k].mount_point@].total_gauge != handle by {
            assert(rest[k] == disks[k]);
        }
        lemma_disks_skipped(series, followed, rest, handle);
        lemma_disks_applied_shape(series, followed, rest);
        assert(disks.last() == disks[disks.len() - 1]);
    }
}

/// Interface readings leave a series alone that is no counter of an
/// interface they list.
proof fn lemma_networks_skipped(
    series: Seq<SampleView>,
    followed: Map<Seq<char>, NetworkMetrics>,
    networks: Seq<NetworkReading>,
    handle: int,
)
    requires
        network_handles_within(followed, series.len()),
        0 <= handle < series.len(),
        forall|k: int|
            0 <= k < networks.len() ==> (followed.contains_key((#[trigger] networks[k]).name@)
                ==> followed[networks[k].name@].received_counter != handle
                && followed[networks[k].name@].transmitted_counter != handle),
    ensures
        networks_applied(series, followed, networks)[handle] == series[handle],
    decreases networks.len(),
{
    if networks.len() > 0 {
        let rest = networks.drop_last();
        assert forall|k: int|
            0 <= k < rest.len() && followed.contains_key((#[trigger] rest[k]).name@) implies followed[rest[k].name@].received_counter
            != handle && followed[rest[k].name@].transmitted_counter != handle by {
            assert(rest[k] == networks[k]);
        }
        lemma_networks_skipped(series, followed, rest, handle);
        lemma_networks_applied_shape(series, followed, rest);
        assert(networks.last() == networks[networks.len() - 1]);
    }
}

/// Whether interface `k` is the only interface of the list under its name.
pub open spec fn only_named(networks: Seq<NetworkReading>, k: int) -> bool {
    forall|other: int|
        0 <= other < networks.len() && other != k ==> (#[trigger] networks[other]).name@
            != networks[k].name@
}

/// Whether the counters of the interface map are all different.
pub open spec fn network_handles_apart(followed: Map<Seq<char>, NetworkMetrics>) -> bool {
    &&& forall|name: Seq<char>| #[trigger]
        followed.contains_key(name) ==> followed[name].received_counter
            != followed[name].transmitted_counter
    &&& forall|a: Seq<char>, b: Seq<char>|
        a != b && #[trigger] followed.contains_key(a) && #[trigger] followed.contains_key(b) ==> {
            &&& followed[a].received_counter != followed[b].received_counter
            &&& followed[a].received_counter != followed[b].transmitted_counter
            &&& followed[a].transmitted_counter != followed[b].received_counter
            &&& followed[a].transmitted_counter != followed[b].transmitted_counter
        }
}

/// What the reading of an interface adds to its own counters, and to no
/// other: the traffic counted at its received counter is what it received,
/// the traffic counted at its transmitted counter what it transmitted, if
/// the interface is followed and is the only one of the readings under its
/// name.
pub proof fn lemma_traffic_of_interface(
    followed: Map<Seq<char>, NetworkMetrics>,
    networks: Seq<NetworkReading>,
    k: int,
)
    requires
        network_handles_apart(followed),
        0 <= k < networks.len(),
        followed.contains_key(networks[k].name@),
        only_named(networks, k),
    ensures
        traffic(followed, networks, followed[networks[k].name@].received_counter as int)
            == networks[k].received,
        traffic(followed, networks, followed[networks[k].name@].transmitted_counter as int)
            == networks[k].transmitted,
    decreases networks.len(),
{
    let rest = networks.drop_last();
    let own = followed[networks[k].name@];
    if k == networks.len() - 1 {
        lemma_traffic_of_others(followed, rest, networks[k].name@, own.received_counter as int);
        lemma_traffic_of_others(followed, rest, networks[k].name@, own.transmitted_counter as int);
    } else {
        assert(rest[k] == networks[k]);
        assert forall|other: int| 0 <= other < rest.len() && other != k implies (
        #[trigger] rest[other]).name@ != rest[k].name@ by {
            assert(rest[other] == networks[other]);
        }
        lemma_traffic_of_interface(followed, rest, k);
        assert(networks.last() == networks[networks.len() - 1]);
    }
}

/// Interfaces under other names count nothing at the counters of `name`.
proof fn lemma_traffic_of_others(
    followed: Map<Seq<char>, NetworkMetrics>,
    networks: Seq<NetworkReading>,
    name: Seq<char>,
    handle: int,
)
    requires
        network_handles_apart(followed),
        followed.contains_key(name),
        handle == followed[name].received_counter || handle == followed[name].transmitted_counter,
        forall|k: int| 0 <= k < networks.len() ==> (#[trigger] networks[k]).name@ != name,
    ensures
        traffic(followed, networks, handle) == 0,
    decreases networks.len(),
{
    if networks.len() > 0 {
        let rest = networks.drop_last();
        assert forall|k: int| 0 <= k < rest.len() implies (#[trigger] rest[k]).name@ != name by {
            assert(rest[k] == networks[k]);
        }
        lemma_traffic_of_others(followed, rest, name, handle);
        assert(networks.last() == networks[networks.len() - 1]);
    }
}

/// No delta is counted twice: once a reading has been collected, the two
/// counters of a followed interface hold what they held before and what
/// the reading says of that interface, provided the reading lists one
/// interface only under that name and the counters have room for it.
pub proof fn law_interface_counted_once(before: CollectorView, reading: HostReading, k: int)
    requires
        before.wf(),
        0 <= k < reading.networks@.len(),
        before.networks.contains_key(reading.networks@[k].name@),
        only_named(reading.networks@, k),
        ({
            let metrics = before.networks[reading.networks@[k].name@];
            &&& before.series[metrics.received_counter as int].value + reading.networks@[k].received
                <= u64::MAX
            &&& before.series[metrics.transmitted_counter as int].value
                + reading.networks@[k].transmitted <= u64::MAX
        }),
    ensures
        ({
            let metrics = before.networks[reading.networks@[k].name@];
            &&& before.collected(reading).series[metrics.received_counter as int].value
                == before.series[metrics.received_counter as int].value
                + reading.networks@[k].received
            &&& before.collected(reading).series[metrics.transmitted_counter as int].value
                == before.series[metrics.transmitted_counter as int].value
                + reading.networks@[k].transmitted
        }),
{
    let metrics = before.networks[reading.networks@[k].name@];
    lemma_traffic_of_interface(before.networks, reading.networks@, k);
    law_counters_never_decrease(before, reading, metrics.received_counter as int);
    law_counters_never_decrease(before, reading, metrics.transmitted_counter as int);
}

/// Series identity is stable: collecting changes no name, no label set and
/// no kind, adds no series and removes none, and leaves the followed
/// devices what they were at construction.
pub proof fn law_identities_stable(before: CollectorView, reading: HostReading)
    requires
        before.wf(),
    ensures
        before.collected(reading).wf(),
        before.collected(reading).series.len() == before.series.len(),
        before.collected(reading).disks == before.disks,
        before.collected(reading).networks == before.networks,
        identities_distinct(before.collected(reading).series),
        forall|handle: int|
            0 <= handle < before.series.len() ==> {
                let after = #[trigger] before.collected(reading).series[handle];
                &&& after.name == before.series[handle].name
                &&& after.labels == before.series[handle].labels
                &&& after.kind == before.series[handle].kind
            },
{
    before.lemma_collected(reading);
    lemma_shape(before.collected(reading).series, before.series);
}

/// The devices are frozen at construction: after any sequence of ticks,
/// whatever the readings list, the collector follows the disks and
/// interfaces it followed before, holds the series it held before, under
/// the identities they had, and no two of them share an identity.
pub proof fn law_devices_frozen(before: CollectorView, readings: Seq<HostReading>)
    requires
        before.wf(),
    ensures
        after_ticks(before, readings).wf(),
        after_ticks(before, readings).disks == before.disks,
        after_ticks(before, readings).networks == before.networks,
        shape(after_ticks(before, readings).series) == shape(before.series),
        after_ticks(before, readings).series.len() == before.series.len(),
        identities_distinct(after_ticks(before, readings).series),
    decreases readings.len(),
{
    if readings.len() > 0 {
        law_devices_frozen(before, readings.drop_last());
        after_ticks(before, readings.drop_last()).lemma_collected(readings.last());
    }
}

/// When no two disks share a mount point, every disk is followed.
pub proof fn lemma_disk_map_len(disks: Seq<DiskReading>, base: int)
    requires
        forall|a: int, b: int|
            0 <= a < b < disks.len() ==> (#[trigger] disks[a]).mount_point@ != (
            #[trigger] disks[b]).mount_point@,
    ensures
        disk_map(disks, base).dom().finite(),
        disk_map(disks, base).dom().len() == disks.len(),
    decreases disks.len(),
{
    if disks.len() > 0 {
        let rest = disks.drop_last();
        assert forall|a: int, b: int| 0 <= a < b < rest.len() implies (#[trigger] rest[a]).mount_point@
            != (#[trigger] rest[b]).mount_point@ by {
            assert(rest[a] == disks[a] && rest[b] == disks[b]);
        }
        lemma_disk_map_len(rest, base);
        lemma_disk_map(rest, base);
        let mount = disks.last().mount_point@;
        assert(!disk_map(rest, base).contains_key(mount)) by {
            if disk_map(rest, base).contains_key(mount) {
                let k = choose|k: int| 0 <= k < rest.len() && (#[trigger] rest[k]).mount_point@ == mount;
                assert(rest[k] == disks[k]);
                assert(disks[k].mount_point@ != disks[disks.len() - 1].mount_point@);
            }
        }
    }
}

/// When no two interfaces share a name, every interface is followed.
pub proof fn lemma_network_map_len(networks: Seq<NetworkReading>, base: int)
    requires
        forall|a: int, b: int|
            0 <= a < b < networks.len() ==> (#[trigger] networks[a]).name@ != (#[trigger] networks[b]).name@,
    ensures
        network_map(networks, base).dom().finite(),
        network_map(networks, base).dom().len() == networks.len(),
    decreases networks.len(),
{
    if networks.len() > 0 {
        let rest = networks.drop_last();
        assert forall|a: int, b: int| 0 <= a < b < rest.len() implies (#[trigger] rest[a]).name@ != (
        #[trigger] rest[b]).name@ by {
            assert(rest[a] == networks[a] && rest[b] == networks[b]);
        }
        lemma_network_map_len(rest, base);
        lemma_network_map(rest, base);
        let name = networks.last().name@;
        assert(!network_map(rest, base).contains_key(name)) by {
            if network_map(rest, base).contains_key(name) {
                let k = choose|k: int| 0 <= k < rest.len() && (#[trigger] rest[k]).name@ == name;
                assert(rest[k] == networks[k]);
                assert(networks[k].name@ != networks[networks.len() - 1].name@);
            }
        }
    }
}

/// The devices followed are those enumerated at construction: the disk map
/// holds the mount points of the disks, the interface map the names of the
/// interfaces, and there are two series for each device besides the three
/// of the host. Every interface is followed; every disk is, when no two
/// disks share a mount point.
pub proof fn law_followed_devices(disks: Seq<DiskReading>, networks: Seq<NetworkReading>)
    requires
        identities_distinct(initial_view(disks, networks).series),
    ensures
        initial_view(disks, networks).series.len() == 2 * disks.len() + 2 * networks.len() + 3,
        forall|mount: Seq<char>| #[trigger]
            initial_view(disks, networks).disks.contains_key(mount) <==> exists|k: int|
                0 <= k < disks.len() && (#[trigger] disks[k]).mount_point@ == mount,
        forall|name: Seq<char>| #[trigger]
            initial_view(disks, networks).networks.contains_key(name) <==> exists|k: int|
                0 <= k < networks.len() && (#[trigger] networks[k]).name@ == name,
        initial_view(disks, networks).networks.dom().finite(),
        initial_view(disks, networks).networks.dom().len() == networks.len(),
        (forall|a: int, b: int|
            0 <= a < b < disks.len() ==> (#[trigger] disks[a]).mount_point@ != (
            #[trigger] disks[b]).mount_point@) ==> initial_view(disks, networks).disks.dom().finite()
            && initial_view(disks, networks).disks.dom().len() == disks.len(),
{
    let view = initial_view(disks, networks);
    lemma_disks_series(disks);
    lemma_networks_series(networks);
    lemma_disk_map(disks, 0);
    lemma_network_map(networks, 2 * disks.len() as int);
    let d = 2 * disks.len() as int;
    assert forall|a: int, b: int| 0 <= a < b < networks.len() implies (#[trigger] networks[a]).name@ != (
    #[trigger] networks[b]).name@ by {
        lemma_networks_series_at(networks, a);
        lemma_networks_series_at(networks, b);
        assert(view.series[d + 2 * a] == networks_series(networks)[2 * a]);
        assert(view.series[d + 2 * b] == networks_series(networks)[2 * b]);
        assert(view.series[d + 2 * a].id() != view.series[d + 2 * b].id());
    }
    lemma_network_map_len(networks, d);
    if forall|a: int, b: int|
        0 <= a < b < disks.len() ==> (#[trigger] disks[a]).mount_point@ != (#[trigger] disks[b]).mount_point@ {
        lemma_disk_map_len(disks, 0);
    }
}

} // verus!
