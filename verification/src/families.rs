//! The series that the exporter registers: two gauges for each disk, two
//! counters for each network interface, and three gauges for the host.
use crate::host::{DiskReading, NetworkReading};
use crate::registry::{SampleView, SeriesKind};
use crate::series::{is_name, is_name_start, label_map};
use vstd::prelude::*;

verus! {

/// The labels of the two gauges of a disk.
pub open spec fn disk_labels(disk: DiskReading) -> Seq<(Seq<char>, Seq<char>)> {
    seq![("name"@, disk.name@), ("mount"@, disk.mount_point@)]
}

/// The labels of the two counters of a network interface.
pub open spec fn network_labels(network: NetworkReading) -> Seq<(Seq<char>, Seq<char>)> {
    seq![("name"@, network.name@)]
}

/// A series that has just been registered.
pub open spec fn new_series(
    name: Seq<char>,
    help: Seq<char>,
    labels: Seq<(Seq<char>, Seq<char>)>,
    kind: SeriesKind,
) -> SampleView {
    SampleView { name, help, labels, kind, value: 0 }
}

/// The two gauges registered for a disk: free space, then capacity.
pub open spec fn disk_series(disk: DiskReading) -> Seq<SampleView> {
    seq![
        new_series(
            "sysinfo_disk_free"@,
            "Drive free space in bytes"@,
            disk_labels(disk),
            SeriesKind::Gauge,
        ),
        new_series(
            "sysinfo_disk_total"@,
            "Drive total space in bytes"@,
            disk_labels(disk),
            SeriesKind::Gauge,
        ),
    ]
}

/// The two counters registered for an interface: received, then transmitted.
pub open spec fn network_series(network: NetworkReading) -> Seq<SampleView> {
    seq![
        new_series(
            "sysinfo_network_total_received"@,
            "Total received network bytes"@,
            network_labels(network),
            SeriesKind::Counter,
        ),
        new_series(
            "sysinfo_network_total_transmitted"@,
            "Total transmitted network bytes"@,
            network_labels(network),
            SeriesKind::Counter,
        ),
    ]
}

/// The three series of the host itself: processor load, memory in use,
/// memory installed. Beside the memory in use the exporter tracks the total
/// that is installed, not what is still available.
pub open spec fn host_series() -> Seq<SampleView> {
    seq![
        new_series("sysinfo_cpu_usage"@, "Average CPU usage"@, Seq::empty(), SeriesKind::DoubleGauge),
        new_series("sysinfo_memory_used"@, "Used memory in bytes"@, Seq::empty(), SeriesKind::Gauge),
        new_series("sysinfo_memory_total"@, "Total memory in bytes"@, Seq::empty(), SeriesKind::Gauge),
    ]
}

/// The label names of a series.
pub open spec fn label_names(series: SampleView) -> Set<Seq<char>> {
    label_map(series.labels).dom()
}

/// Whether a series has the given name, help text, label names and kind.
pub open spec fn is_like(
    series: SampleView,
    name: Seq<char>,
    help: Seq<char>,
    names: Set<Seq<char>>,
    kind: SeriesKind,
) -> bool {
    series.name == name && series.help == help && label_names(series) == names && series.kind == kind
}

/// Whether a series is one of those that the exporter registers, whatever
/// the device.
pub open spec fn is_known(series: SampleView) -> bool {
    ||| is_like(
        series,
        "sysinfo_disk_free"@,
        "Drive free space in bytes"@,
        set!["name"@, "mount"@],
        SeriesKind::Gauge,
    )
    ||| is_like(
        series,
        "sysinfo_disk_total"@,
        "Drive total space in bytes"@,
        set!["name"@, "mount"@],
        SeriesKind::Gauge,
    )
    ||| is_like(
        series,
        "sysinfo_network_total_received"@,
        "Total received network bytes"@,
        set!["name"@],
        SeriesKind::Counter,
    )
    ||| is_like(
        series,
        "sysinfo_network_total_transmitted"@,
        "Total transmitted network bytes"@,
        set!["name"@],
        SeriesKind::Counter,
    )
    ||| is_like(series, "sysinfo_cpu_usage"@, "Average CPU usage"@, Set::empty(), SeriesKind::DoubleGauge)
    ||| is_like(series, "sysinfo_memory_used"@, "Used memory in bytes"@, Set::empty(), SeriesKind::Gauge)
    ||| is_like(series, "sysinfo_memory_total"@, "Total memory in bytes"@, Set::empty(), SeriesKind::Gauge)
}

/// Whether every series of a list is one of those that the exporter
/// registers.
pub open spec fn all_known(series: Seq<SampleView>) -> bool {
    forall|i: int| 0 <= i < series.len() ==> is_known(#[trigger] series[i])
}

/// A text of small letters and underscores is a name.
proof fn lemma_plain_name(text: Seq<char>, colon: bool)
    requires
        text.len() > 0,
        forall|i: int| 0 <= i < text.len() ==> 'a' <= #[trigger] text[i] <= 'z' || text[i] == '_',
    ensures
        is_name(text, colon),
{
}

/// A series that the exporter registers has a well-formed descriptor.
pub proof fn lemma_known_valid(series: SampleView)
    requires
        is_known(series),
    ensures
        series.valid(),
{
    reveal_strlit("sysinfo_disk_free");
    reveal_strlit("sysinfo_disk_total");
    reveal_strlit("sysinfo_network_total_received");
    reveal_strlit("sysinfo_network_total_transmitted");
    reveal_strlit("sysinfo_cpu_usage");
    reveal_strlit("sysinfo_memory_used");
    reveal_strlit("sysinfo_memory_total");
    reveal_strlit("Drive free space in bytes");
    reveal_strlit("Drive total space in bytes");
    reveal_strlit("Total received network bytes");
    reveal_strlit("Total transmitted network bytes");
    reveal_strlit("Average CPU usage");
    reveal_strlit("Used memory in bytes");
    reveal_strlit("Total memory in bytes");
    reveal_strlit("name");
    reveal_strlit("mount");
    lemma_plain_name("sysinfo_disk_free"@, true);
    lemma_plain_name("sysinfo_disk_total"@, true);
    lemma_plain_name("sysinfo_network_total_received"@, true);
    lemma_plain_name("sysinfo_network_total_transmitted"@, true);
    lemma_plain_name("sysinfo_cpu_usage"@, true);
    lemma_plain_name("sysinfo_memory_used"@, true);
    lemma_plain_name("sysinfo_memory_total"@, true);
    lemma_plain_name("name"@, false);
    lemma_plain_name("mount"@, false);
    assert forall|label: Seq<char>| #[trigger]
        label_map(series.labels).contains_key(label) implies is_name(label, false) by {
        assert(label_names(series).contains(label));
    }
}

/// Two series that the exporter registers under one name have the same help
/// text and the same label names, and are of the same kind.
pub proof fn lemma_known_agree(a: SampleView, b: SampleView)
    requires
        is_known(a),
        is_known(b),
        a.name == b.name,
    ensures
        a.help == b.help,
        label_names(a) == label_names(b),
        a.kind == b.kind,
        a.dimensions() == b.dimensions(),
{
    reveal_strlit("sysinfo_disk_free");
    reveal_strlit("sysinfo_disk_total");
    reveal_strlit("sysinfo_network_total_received");
    reveal_strlit("sysinfo_network_total_transmitted");
    reveal_strlit("sysinfo_cpu_usage");
    reveal_strlit("sysinfo_memory_used");
    reveal_strlit("sysinfo_memory_total");
    assert("sysinfo_disk_free"@.len() == 17);
    assert("sysinfo_disk_total"@.len() == 18);
    assert("sysinfo_network_total_received"@.len() == 30);
    assert("sysinfo_network_total_transmitted"@.len() == 33);
    assert("sysinfo_cpu_usage"@.len() == 17);
    assert("sysinfo_memory_used"@.len() == 19);
    assert("sysinfo_memory_total"@.len() == 20);
    assert("sysinfo_disk_free"@[8] == 'd');
    assert("sysinfo_cpu_usage"@[8] == 'c');
}

/// The label names of a disk are `name` and `mount`.
pub proof fn lemma_disk_label_names(disk: DiskReading)
    ensures
        label_map(disk_labels(disk)).dom() == set!["name"@, "mount"@],
{
    let labels = disk_labels(disk);
    assert(labels.drop_last() =~= seq![("name"@, disk.name@)]);
    assert(labels.drop_last().drop_last() =~= Seq::<(Seq<char>, Seq<char>)>::empty());
    reveal_with_fuel(label_map, 3);
    assert(label_map(labels).dom() =~= set!["name"@, "mount"@]);
}

/// The label name of a network interface is `name`.
pub proof fn lemma_network_label_names(network: NetworkReading)
    ensures
        label_map(network_labels(network)).dom() == set!["name"@],
{
    let labels = network_labels(network);
    assert(labels.drop_last() =~= Seq::<(Seq<char>, Seq<char>)>::empty());
    reveal_with_fuel(label_map, 2);
    assert(label_map(labels).dom() =~= set!["name"@]);
}

/// The series of the host have no labels.
pub proof fn lemma_no_label_names()
    ensures
        label_map(Seq::<(Seq<char>, Seq<char>)>::empty()).dom() == Set::<Seq<char>>::empty(),
{
    assert(label_map(Seq::<(Seq<char>, Seq<char>)>::empty()).dom() =~= Set::<Seq<char>>::empty());
}

/// The series of a disk, of a network interface and of the host are among
/// those that the exporter registers.
pub proof fn lemma_series_known(disk: DiskReading, network: NetworkReading)
    ensures
        all_known(disk_series(disk)),
        all_known(network_series(network)),
        all_known(host_series()),
{
    lemma_disk_label_names(disk);
    lemma_network_label_names(network);
    lemma_no_label_names();
}

} // verus!
