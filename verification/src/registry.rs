//! The registry of metric series: registration under a unique identity,
//! type-correct updates, and a snapshot of the current values.
use crate::series::{
    agrees_on, descriptor_id, descriptor_valid, dimension_hash, files_id, fresh_series,
    gathered_families, label_map, series_id, store_counter_value, store_double_bits,
    store_families, store_gauge_value, store_inc_counter, store_new, store_register_counter,
    store_register_double, store_register_gauge, store_set_double, store_set_gauge, store_view,
    with_value, wrapping_sum, RegistryError, SeriesId, SeriesStore, SeriesView, StoreView,
};
use vstd::prelude::*;

verus! {

/// What a series measures and how it is updated.
#[derive(Clone, Copy, Debug, PartialEq, Eq, Structural)]
pub enum SeriesKind {
    /// An integer whose value is replaced on each update.
    Gauge,
    /// An integer that accumulates the increments it is given.
    Counter,
    /// A double-precision number whose value is replaced on each update.
    DoubleGauge,
}

/// What is needed to register a series.
pub struct SeriesDescriptor {
    pub name: String,
    pub help: String,
    pub labels: Vec<(String, String)>,
    pub kind: SeriesKind,
}

/// One series of a snapshot. For a `DoubleGauge` the value is the bit pattern
/// of the number.
#[derive(Debug)]
pub struct Sample {
    pub name: String,
    pub help: String,
    pub labels: Vec<(String, String)>,
    pub kind: SeriesKind,
    pub value: u64,
}

/// A sample as the contracts see it.
pub struct SampleView {
    pub name: Seq<char>,
    pub help: Seq<char>,
    pub labels: Seq<(Seq<char>, Seq<char>)>,
    pub kind: SeriesKind,
    pub value: u64,
}

impl SampleView {
    /// The identity of the series that the sample was taken from.
    pub open spec fn id(self) -> SeriesId {
        series_id(self.name, self.labels)
    }

    /// The number under which the registry files the series.
    pub open spec fn number(self) -> u64 {
        descriptor_id(self.name, label_map(self.labels))
    }

    /// The number by which the registry compares help text and label names.
    pub open spec fn dimensions(self) -> u64 {
        dimension_hash(self.help, label_map(self.labels).dom())
    }

    /// Whether name, help text and label names are well formed.
    pub open spec fn valid(self) -> bool {
        descriptor_valid(self.name, self.help, label_map(self.labels))
    }
}

impl View for Sample {
    type V = SampleView;

    open spec fn view(&self) -> SampleView {
        SampleView {
            name: self.name@,
            help: self.help@,
            labels: self.labels.deep_view(),
            kind: self.kind,
            value: self.value,
        }
    }
}

impl View for SeriesDescriptor {
    type V = SampleView;

    /// The series that the descriptor registers, at zero.
    open spec fn view(&self) -> SampleView {
        SampleView {
            name: self.name@,
            help: self.help@,
            labels: self.labels.deep_view(),
            kind: self.kind,
            value: 0,
        }
    }
}

/// A list of samples as the contracts see it.
pub open spec fn samples_view(samples: Seq<Sample>) -> Seq<SampleView> {
    Seq::new(samples.len(), |i: int| samples[i]@)
}

/// No two series of a snapshot share an identity.
pub open spec fn identities_distinct(samples: Seq<SampleView>) -> bool {
    forall|i: int, j: int|
        0 <= i < j < samples.len() ==> (#[trigger] samples[i]).id() != (#[trigger] samples[j]).id()
}

/// Whether some series of a snapshot has the identity `id`.
pub open spec fn has_identity(samples: Seq<SampleView>, id: SeriesId) -> bool {
    exists|i: int| 0 <= i < samples.len() && (#[trigger] samples[i]).id() == id
}

/// Whether some series of a snapshot is filed under the number of `new`.
pub open spec fn number_taken(samples: Seq<SampleView>, new: SampleView) -> bool {
    exists|i: int| 0 <= i < samples.len() && (#[trigger] samples[i]).number() == new.number()
}

/// Whether the series of a snapshot that have the name of `new` have its
/// help text and label names, as far as the registry tells.
pub open spec fn dimensions_agree(samples: Seq<SampleView>, new: SampleView) -> bool {
    forall|i: int|
        0 <= i < samples.len() && (#[trigger] samples[i]).name == new.name ==> samples[i].dimensions()
            == new.dimensions()
}

/// Whether a registry that holds `samples` accepts `new`: the descriptor is
/// well formed, its number is free, and it agrees with the series of its
/// name.
pub open spec fn accepts(samples: Seq<SampleView>, new: SampleView) -> bool {
    &&& new.valid()
    &&& !number_taken(samples, new)
    &&& dimensions_agree(samples, new)
}

/// A series whose identity is taken is filed under a number that is taken.
pub proof fn lemma_identity_taken(samples: Seq<SampleView>, new: SampleView)
    requires
        has_identity(samples, new.id()),
    ensures
        number_taken(samples, new),
        !accepts(samples, new),
{
    let i = choose|i: int| 0 <= i < samples.len() && (#[trigger] samples[i]).id() == new.id();
    assert(samples[i].number() == new.number());
}

/// A series of a snapshot as the store holds it: its identity, its help
/// text and its value.
pub open spec fn series_of(sample: SampleView) -> SeriesView {
    SeriesView { id: sample.id(), help: sample.help, value: sample.value }
}

/// The series of one kind in a snapshot, in their order.
pub open spec fn kind_part(samples: Seq<SampleView>, kind: SeriesKind) -> Seq<SeriesView>
    decreases samples.len(),
{
    if samples.len() == 0 {
        Seq::empty()
    } else if samples.last().kind == kind {
        kind_part(samples.drop_last(), kind).push(series_of(samples.last()))
    } else {
        kind_part(samples.drop_last(), kind)
    }
}

/// Whether the series of each name make one family: they are of one kind,
/// have one help text and one set of label names, and no two series share an
/// identity.
pub open spec fn families_settled(samples: Seq<SampleView>) -> bool {
    &&& identities_distinct(samples)
    &&& forall|i: int, j: int|
        0 <= i < samples.len() && 0 <= j < samples.len() && (#[trigger] samples[i]).name == (
        #[trigger] samples[j]).name ==> {
            &&& samples[i].help == samples[j].help
            &&& label_map(samples[i].labels).dom() == label_map(samples[j].labels).dom()
            &&& samples[i].kind == samples[j].kind
        }
}

/// The families that are gathered from a snapshot: one for each name, with
/// one metric for each series of that name.
pub open spec fn families_of(samples: Seq<SampleView>) -> Seq<prometheus::proto::MetricFamily> {
    gathered_families(
        kind_part(samples, SeriesKind::Gauge),
        kind_part(samples, SeriesKind::Counter),
        kind_part(samples, SeriesKind::DoubleGauge),
    )
}

/// How many series of a kind a snapshot has depends on the kinds only.
proof fn lemma_kind_part_len(a: Seq<SampleView>, b: Seq<SampleView>, kind: SeriesKind)
    requires
        a.len() == b.len(),
        forall|i: int| 0 <= i < a.len() ==> (#[trigger] a[i]).kind == b[i].kind,
    ensures
        kind_part(a, kind).len() == kind_part(b, kind).len(),
    decreases a.len(),
{
    if a.len() > 0 {
        assert(a.last().kind == b[b.len() - 1].kind);
        assert forall|i: int| 0 <= i < a.drop_last().len() implies (#[trigger] a.drop_last()[i]).kind
            == b.drop_last()[i].kind by {
            assert(a[i].kind == b[i].kind);
        }
        lemma_kind_part_len(a.drop_last(), b.drop_last(), kind);
    }
}

/// Adding a series to a snapshot adds it to the series of its kind.
proof fn lemma_kind_part_push(samples: Seq<SampleView>, new: SampleView, kind: SeriesKind)
    ensures
        kind_part(samples.push(new), kind) == if new.kind == kind {
            kind_part(samples, kind).push(series_of(new))
        } else {
            kind_part(samples, kind)
        },
{
    assert(samples.push(new).drop_last() =~= samples);
}

/// Replacing the value of a series replaces it among the series of its
/// kind, at the place that the series of that kind before it leave.
proof fn lemma_kind_part_set(samples: Seq<SampleView>, handle: int, value: u64, kind: SeriesKind)
    requires
        0 <= handle < samples.len(),
    ensures
        samples[handle].kind == kind ==> kind_part(samples.take(handle), kind).len() < kind_part(
            samples,
            kind,
        ).len(),
        kind_part(samples.update(handle, SampleView { value, ..samples[handle] }), kind) == if samples[handle].kind
            == kind {
            with_value(kind_part(samples, kind), kind_part(samples.take(handle), kind).len() as int, value)
        } else {
            kind_part(samples, kind)
        },
    decreases samples.len(),
{
    let set = samples.update(handle, SampleView { value, ..samples[handle] });
    let rest = samples.drop_last();
    if handle == samples.len() - 1 {
        assert(set.drop_last() =~= rest);
        assert(samples.take(handle) =~= rest);
        if samples[handle].kind == kind {
            assert(kind_part(set, kind) =~= with_value(
                kind_part(samples, kind),
                kind_part(rest, kind).len() as int,
                value,
            ));
        }
    } else {
        lemma_kind_part_set(rest, handle, value, kind);
        assert(set.drop_last() =~= rest.update(handle, SampleView { value, ..rest[handle] }));
        assert(rest.take(handle) =~= samples.take(handle));
        assert(set.last() == samples.last());
        if samples[handle].kind == kind {
            assert(kind_part(set, kind) =~= with_value(
                kind_part(samples, kind),
                kind_part(samples.take(handle), kind).len() as int,
                value,
            ));
        }
    }
}

/// Every series among those of a kind is a series of the snapshot.
proof fn lemma_kind_part_from(samples: Seq<SampleView>, kind: SeriesKind, at: int)
    requires
        0 <= at < kind_part(samples, kind).len(),
    ensures
        exists|i: int|
            0 <= i < samples.len() && (#[trigger] samples[i]).kind == kind && series_of(samples[i])
                == kind_part(samples, kind)[at],
    decreases samples.len(),
{
    let rest = samples.drop_last();
    if samples.last().kind == kind && at == kind_part(rest, kind).len() {
        assert(samples[samples.len() - 1].kind == kind);
    } else {
        lemma_kind_part_from(rest, kind, at);
        let i = choose|i: int|
            0 <= i < rest.len() && (#[trigger] rest[i]).kind == kind && series_of(rest[i]) == kind_part(
                rest,
                kind,
            )[at];
        assert(samples[i] == rest[i]);
    }
}

/// Two series of a settled snapshot that share a name are of one kind and
/// share the help text and the label names.
proof fn lemma_settled_pair(samples: Seq<SampleView>, first: SeriesKind, a: int, second: SeriesKind, b: int)
    requires
        families_settled(samples),
        0 <= a < kind_part(samples, first).len(),
        0 <= b < kind_part(samples, second).len(),
        kind_part(samples, first)[a].id.name == kind_part(samples, second)[b].id.name,
    ensures
        first == second,
        kind_part(samples, first)[a].help == kind_part(samples, second)[b].help,
        kind_part(samples, first)[a].id.labels.dom() == kind_part(samples, second)[b].id.labels.dom(),
{
    lemma_kind_part_from(samples, first, a);
    lemma_kind_part_from(samples, second, b);
    let i = choose|i: int|
        0 <= i < samples.len() && (#[trigger] samples[i]).kind == first && series_of(samples[i])
            == kind_part(samples, first)[a];
    let j = choose|j: int|
        0 <= j < samples.len() && (#[trigger] samples[j]).kind == second && series_of(samples[j])
            == kind_part(samples, second)[b];
    assert(samples[i].name == samples[j].name);
}

/// A copy of a label list.
pub fn clone_labels(labels: &Vec<(String, String)>) -> (copy: Vec<(String, String)>)
    ensures
        copy.deep_view() == labels.deep_view(),
{
    let mut copy: Vec<(String, String)> = Vec::new();
    let mut i: usize = 0;
    while i < labels.len()
        invariant
            i <= labels.len(),
            copy.len() == i,
            forall|j: int| 0 <= j < i ==> (#[trigger] copy[j]).deep_view() == labels[j].deep_view(),
        decreases labels.len() - i,
    {
        copy.push((labels[i].0.clone(), labels[i].1.clone()));
        i += 1;
    }
    assert(copy.deep_view() =~= labels.deep_view());
    copy
}

/// A handle on a registered series: its position in registration order.
pub type SeriesHandle = usize;

/// A registered series: what it was registered with, and where its value is.
struct SeriesEntry {
    name: String,
    help: String,
    labels: Vec<(String, String)>,
    kind: SeriesKind,
    slot: usize,
}

/// The series of `kind` in a store.
pub open spec fn kind_series(store: StoreView, kind: SeriesKind) -> Seq<SeriesView> {
    match kind {
        SeriesKind::Gauge => store.gauges,
        SeriesKind::Counter => store.counters,
        SeriesKind::DoubleGauge => store.doubles,
    }
}

/// The series that were registered, in registration order.
pub struct MetricRegistry {
    store: SeriesStore,
    entries: Vec<SeriesEntry>,
}

impl View for MetricRegistry {
    type V = Seq<SampleView>;

    /// The series with their current values, in registration order.
    closed spec fn view(&self) -> Seq<SampleView> {
        Seq::new(
            self.entries.len() as nat,
            |i: int|
                SampleView {
                    name: self.entries[i].name@,
                    help: self.entries[i].help@,
                    labels: self.entries[i].labels.deep_view(),
                    kind: self.entries[i].kind,
                    value: kind_series(store_view(self.store), self.entries[i].kind)[self.entries[i].slot as int].value,
                },
        )
    }
}

impl MetricRegistry {
    /// Whether entry `i` is the series at position `slot` among those of
    /// `kind`.
    spec fn points_at(&self, i: int, kind: SeriesKind, slot: int) -> bool {
        0 <= i < self.entries.len() && self.entries[i].kind == kind && self.entries[i].slot == slot
    }

    /// Whether some entry is the series at position `slot` among those of
    /// `kind`.
    spec fn is_held(&self, kind: SeriesKind, slot: int) -> bool {
        exists|i: int| #[trigger] self.points_at(i, kind, slot)
    }

    /// The invariant of the registry: every entry points at the series it
    /// was registered as, every series is pointed at by one entry, the
    /// series of each kind stand in the order of the entries, and no two
    /// series share an identity.
    pub closed spec fn wf(&self) -> bool {
        let store = store_view(self.store);
        &&& store.ids_distinct()
        &&& forall|i: int|
            0 <= i < self.entries.len() ==> {
                let e = #[trigger] self.entries[i];
                &&& e.slot < kind_series(store, e.kind).len()
                &&& kind_series(store, e.kind)[e.slot as int].id == series_id(e.name@, e.labels.deep_view())
                &&& kind_series(store, e.kind)[e.slot as int].help == e.help@
            }
        &&& forall|i: int, j: int|
            0 <= i < j < self.entries.len() && (#[trigger] self.entries[i]).kind == (
            #[trigger] self.entries[j]).kind ==> self.entries[i].slot != self.entries[j].slot
        &&& forall|kind: SeriesKind, slot: int|
            0 <= slot < kind_series(store, kind).len() ==> #[trigger] self.is_held(kind, slot)
        &&& store.gauges == kind_part(self@, SeriesKind::Gauge)
        &&& store.counters == kind_part(self@, SeriesKind::Counter)
        &&& store.doubles == kind_part(self@, SeriesKind::DoubleGauge)
        &&& forall|i: int|
            0 <= i < self.entries.len() ==> (#[trigger] self.entries[i]).slot == kind_part(
                self@.take(i),
                self.entries[i].kind,
            ).len()
    }

    /// In a well-formed registry no two series share an identity.
    pub proof fn lemma_identities_distinct(&self)
        requires
            self.wf(),
        ensures
            identities_distinct(self@),
    {
        let store = store_view(self.store);
        assert forall|i: int, j: int| 0 <= i < j < self@.len() implies (#[trigger] self@[i]).id() != (
        #[trigger] self@[j]).id() by {
            let a = self.entries[i];
            let b = self.entries[j];
            assert(kind_series(store, a.kind)[a.slot as int].id == self@[i].id());
            assert(kind_series(store, b.kind)[b.slot as int].id == self@[j].id());
        }
    }

    /// The series of one kind file a number exactly when an entry of that
    /// kind has it.
    proof fn lemma_files(&self, kind: SeriesKind, new: SampleView)
        requires
            self.wf(),
        ensures
            files_id(kind_series(store_view(self.store), kind), new.number()) <==> exists|i: int|
                0 <= i < self@.len() && (#[trigger] self@[i]).kind == kind && self@[i].number()
                    == new.number(),
            agrees_on(kind_series(store_view(self.store), kind), new.name, new.dimensions())
                <==> forall|i: int|
                0 <= i < self@.len() && (#[trigger] self@[i]).kind == kind && self@[i].name == new.name
                    ==> self@[i].dimensions() == new.dimensions(),
    {
        let store = store_view(self.store);
        let series = kind_series(store, kind);
        assert forall|i: int| 0 <= i < self@.len() && (#[trigger] self@[i]).kind == kind implies {
            let e = self.entries[i];
            &&& e.slot < series.len()
            &&& descriptor_id(series[e.slot as int].id.name, series[e.slot as int].id.labels)
                == self@[i].number()
            &&& dimension_hash(series[e.slot as int].help, series[e.slot as int].id.labels.dom())
                == self@[i].dimensions()
            &&& series[e.slot as int].id.name == self@[i].name
        } by {
            let e = self.entries[i];
            assert(e.slot < kind_series(store, e.kind).len());
        }
        if files_id(series, new.number()) {
            let slot = choose|slot: int|
                0 <= slot < series.len() && descriptor_id(
                    (#[trigger] series[slot]).id.name,
                    series[slot].id.labels,
                ) == new.number();
            assert(self.is_held(kind, slot));
            let i = choose|i: int| #[trigger] self.points_at(i, kind, slot);
            assert(self@[i].kind == kind && self@[i].number() == new.number());
        }
        if exists|i: int|
            0 <= i < self@.len() && (#[trigger] self@[i]).kind == kind && self@[i].number()
                == new.number() {
            let i = choose|i: int|
                0 <= i < self@.len() && (#[trigger] self@[i]).kind == kind && self@[i].number()
                    == new.number();
            let slot = self.entries[i].slot as int;
            assert(descriptor_id(series[slot].id.name, series[slot].id.labels) == new.number());
        }
        if agrees_on(series, new.name, new.dimensions()) {
            assert forall|i: int|
                0 <= i < self@.len() && (#[trigger] self@[i]).kind == kind && self@[i].name
                    == new.name implies self@[i].dimensions() == new.dimensions() by {
                let slot = self.entries[i].slot as int;
                assert(series[slot].id.name == new.name);
            }
        }
        if forall|i: int|
            0 <= i < self@.len() && (#[trigger] self@[i]).kind == kind && self@[i].name == new.name
                ==> self@[i].dimensions() == new.dimensions() {
            assert forall|slot: int|
                0 <= slot < series.len() && (#[trigger] series[slot]).id.name
                    == new.name implies dimension_hash(series[slot].help, series[slot].id.labels.dom())
                == new.dimensions() by {
                assert(self.is_held(kind, slot));
                let i = choose|i: int| #[trigger] self.points_at(i, kind, slot);
                assert(self@[i].kind == kind && self@[i].name == new.name);
            }
        }
    }

    /// The store accepts a series exactly when the registry does.
    proof fn lemma_accepts(&self, new: SampleView)
        requires
            self.wf(),
        ensures
            store_view(self.store).id_taken(new.id()) == number_taken(self@, new),
            store_view(self.store).dimensions_agree(new.id(), new.help) == dimensions_agree(self@, new),
            store_view(self.store).accepts(new.id(), new.help) == accepts(self@, new),
    {
        self.lemma_files(SeriesKind::Gauge, new);
        self.lemma_files(SeriesKind::Counter, new);
        self.lemma_files(SeriesKind::DoubleGauge, new);
        let store = store_view(self.store);
        assert(kind_series(store, SeriesKind::Gauge) == store.gauges);
        assert(kind_series(store, SeriesKind::Counter) == store.counters);
        assert(kind_series(store, SeriesKind::DoubleGauge) == store.doubles);
        if number_taken(self@, new) {
            let i = choose|i: int| 0 <= i < self@.len() && (#[trigger] self@[i]).number() == new.number();
            assert(self@[i].kind == self@[i].kind);
        }
        if dimensions_agree(self@, new) {
            assert(store.dimensions_agree(new.id(), new.help));
        }
        if store.dimensions_agree(new.id(), new.help) {
            assert forall|i: int| 0 <= i < self@.len() && (#[trigger] self@[i]).name
                == new.name implies self@[i].dimensions() == new.dimensions() by {
                assert(self@[i].kind == self@[i].kind);
            }
        }
    }

    /// An empty registry.
    pub fn new() -> (registry: Self)
        ensures
            registry.wf(),
            registry@ == Seq::<SampleView>::empty(),
    {
        let registry = MetricRegistry { store: store_new(), entries: Vec::new() };
        assert(registry@ =~= Seq::<SampleView>::empty());
        registry
    }

    /// The number of registered series.
    pub fn len(&self) -> (n: usize)
        ensures
            n == self@.len(),
    {
        self.entries.len()
    }

    /// The kind of a registered series.
    pub fn kind(&self, handle: SeriesHandle) -> (kind: SeriesKind)
        requires
            handle < self@.len(),
        ensures
            kind == self@[handle as int].kind,
    {
        self.entries[handle].kind
    }

    /// Registers a series and hands back its handle.
    ///
    /// The series is registered exactly when the registry accepts it. It is
    /// then the last of the registry and its value is zero; the series
    /// registered earlier are untouched. A series whose identity is taken is
    /// never accepted. When the series is refused the registry is as it was,
    /// and the error is `AlreadyRegistered` exactly when the descriptor is
    /// well formed and its number is taken.
    pub fn register(&mut self, descriptor: SeriesDescriptor) -> (r: Result<SeriesHandle, RegistryError>)
        requires
            old(self).wf(),
        ensures
            final(self).wf(),
            r is Ok <==> accepts(old(self)@, descriptor@),
            match r {
                Ok(handle) => handle == old(self)@.len() && final(self)@ == old(self)@.push(descriptor@),
                Err(e) => final(self)@ == old(self)@ && (e is AlreadyRegistered <==> descriptor@.valid()
                    && number_taken(old(self)@, descriptor@)),
            },
            has_identity(old(self)@, descriptor@.id()) ==> r is Err,
    {
        let ghost before = *self;
        let ghost new = descriptor@;
        proof {
            before.lemma_accepts(new);
            if has_identity(before@, new.id()) {
                lemma_identity_taken(before@, new);
            }
        }
        let registered = match descriptor.kind {
            SeriesKind::Gauge => store_register_gauge(
                &mut self.store,
                descriptor.name.as_str(),
                descriptor.help.as_str(),
                &descriptor.labels,
            ),
            SeriesKind::Counter => store_register_counter(
                &mut self.store,
                descriptor.name.as_str(),
                descriptor.help.as_str(),
                &descriptor.labels,
            ),
            SeriesKind::DoubleGauge => store_register_double(
                &mut self.store,
                descriptor.name.as_str(),
                descriptor.help.as_str(),
                &descriptor.labels,
            ),
        };
        match registered {
            Ok(slot) => {
                let handle = self.entries.len();
                let kind = descriptor.kind;
                self.entries.push(
                    SeriesEntry {
                        name: descriptor.name,
                        help: descriptor.help,
                        labels: descriptor.labels,
                        kind,
                        slot,
                    },
                );
                proof {
                    let old_store = store_view(before.store);
                    let new_store = store_view(self.store);
                    let added = kind_series(new_store, kind);
                    let kept = kind_series(old_store, kind);
                    assert(added == kept.push(fresh_series(new.name, new.help, new.labels)));
                    assert forall|k: SeriesKind| k != kind implies kind_series(new_store, k) == kind_series(
                        old_store,
                        k,
                    ) by {}
                    assert forall|i: int| 0 <= i < before.entries.len() implies {
                        let e = #[trigger] self.entries[i];
                        &&& e == before.entries[i]
                        &&& e.slot < kind_series(new_store, e.kind).len()
                        &&& kind_series(new_store, e.kind)[e.slot as int] == kind_series(
                            old_store,
                            e.kind,
                        )[e.slot as int]
                    } by {}
                    assert(self@ =~= before@.push(new));
                    lemma_kind_part_push(before@, new, SeriesKind::Gauge);
                    lemma_kind_part_push(before@, new, SeriesKind::Counter);
                    lemma_kind_part_push(before@, new, SeriesKind::DoubleGauge);
                    assert forall|i: int| 0 <= i < self.entries.len() implies (
                    #[trigger] self.entries[i]).slot == kind_part(self@.take(i), self.entries[i].kind).len() by {
                        if i < before.entries.len() {
                            assert(self@.take(i) =~= before@.take(i));
                        } else {
                            assert(self@.take(i) =~= before@);
                        }
                    }
                    assert(!old_store.has_id(new.id())) by {
                        if old_store.has_id(new.id()) {
                            assert(old_store.id_taken(new.id()));
                        }
                    }
                    assert(added[kept.len() as int].id == new.id());
                    assert forall|k: int| 0 <= k < kept.len() implies (#[trigger] added[k]) == kept[k] by {}
                    assert(new_store.ids_distinct());
                    assert forall|k: SeriesKind, at: int|
                        0 <= at < kind_series(new_store, k).len() implies #[trigger] self.is_held(k, at) by {
                        if k == kind && at == kept.len() {
                            assert(self.points_at(handle as int, k, at));
                        } else {
                            assert(before.is_held(k, at));
                            let i = choose|i: int| #[trigger] before.points_at(i, k, at);
                            assert(self.entries[i] == before.entries[i]);
                            assert(self.points_at(i, k, at));
                        }
                    }
                }
                Ok(handle)
            },
            Err(e) => {
                proof {
                    let store = store_view(self.store);
                    assert(store == store_view(before.store));
                    assert(self@ =~= before@);
                    assert forall|k: SeriesKind, at: int|
                        0 <= at < kind_series(store, k).len() implies #[trigger] self.is_held(k, at) by {
                        assert(before.is_held(k, at));
                        let i = choose|i: int| #[trigger] before.points_at(i, k, at);
                        assert(self.points_at(i, k, at));
                    }
                }
                Err(e)
            },
        }
    }

    /// Replaces the value of a gauge. For a `DoubleGauge` the value is the bit
    /// pattern of the number. Every other series keeps its value, and every
    /// series keeps its identity.
    pub fn set(&mut self, handle: SeriesHandle, value: u64)
        requires
            old(self).wf(),
            handle < old(self)@.len(),
            old(self)@[handle as int].kind != SeriesKind::Counter,
        ensures
            final(self).wf(),
            final(self)@ == old(self)@.update(
                handle as int,
                SampleView { value, ..old(self)@[handle as int] },
            ),
    {
        let ghost before = *self;
        let slot = self.entries[handle].slot;
        match self.entries[handle].kind {
            SeriesKind::DoubleGauge => store_set_double(&mut self.store, slot, value),
            _ => store_set_gauge(&mut self.store, slot, value),
        }
        proof {
            self.lemma_updated(before, handle as int, value);
        }
    }

    /// Adds `delta` to a counter, as a 64-bit accumulator does. Every other
    /// series keeps its value, and every series keeps its identity.
    pub fn increment_by(&mut self, handle: SeriesHandle, delta: u64)
        requires
            old(self).wf(),
            handle < old(self)@.len(),
            old(self)@[handle as int].kind == SeriesKind::Counter,
        ensures
            final(self).wf(),
            final(self)@ == old(self)@.update(
                handle as int,
                SampleView {
                    value: wrapping_sum(old(self)@[handle as int].value, delta),
                    ..old(self)@[handle as int]
                },
            ),
    {
        let ghost before = *self;
        let slot = self.entries[handle].slot;
        store_inc_counter(&mut self.store, slot, delta);
        proof {
            self.lemma_updated(before, handle as int, wrapping_sum(before@[handle as int].value, delta));
        }
    }

    /// What a write to one slot of the store does to the registry.
    proof fn lemma_updated(&self, before: Self, handle: int, value: u64)
        requires
            before.wf(),
            0 <= handle < before.entries.len(),
            self.entries == before.entries,
            ({
                let e = before.entries[handle];
                let old_store = store_view(before.store);
                let new_store = store_view(self.store);
                &&& kind_series(new_store, e.kind) == with_value(
                    kind_series(old_store, e.kind),
                    e.slot as int,
                    value,
                )
                &&& forall|k: SeriesKind| k != e.kind ==> kind_series(new_store, k) == kind_series(old_store, k)
            }),
        ensures
            self.wf(),
            self@ == before@.update(handle, SampleView { value, ..before@[handle] }),
    {
        let e = before.entries[handle];
        let old_store = store_view(before.store);
        let new_store = store_view(self.store);
        assert(kind_series(new_store, SeriesKind::Gauge).len() == old_store.gauges.len());
        assert(kind_series(new_store, SeriesKind::Counter).len() == old_store.counters.len());
        assert(kind_series(new_store, SeriesKind::DoubleGauge).len() == old_store.doubles.len());
        assert forall|k: SeriesKind, i: int| 0 <= i < kind_series(old_store, k).len() implies (
        #[trigger] kind_series(new_store, k)[i]).id == kind_series(old_store, k)[i].id && kind_series(
            new_store,
            k,
        )[i].help == kind_series(old_store, k)[i].help by {}
        assert(new_store.ids_distinct()) by {
            assert(new_store.gauges == kind_series(new_store, SeriesKind::Gauge));
            assert(new_store.counters == kind_series(new_store, SeriesKind::Counter));
            assert(new_store.doubles == kind_series(new_store, SeriesKind::DoubleGauge));
            assert(old_store.ids_distinct());
        }
        assert forall|i: int| 0 <= i < self.entries.len() implies {
            let f = #[trigger] self.entries[i];
            &&& f.slot < kind_series(new_store, f.kind).len()
            &&& kind_series(new_store, f.kind)[f.slot as int].id == series_id(f.name@, f.labels.deep_view())
            &&& kind_series(new_store, f.kind)[f.slot as int].help == f.help@
        } by {
            let f = before.entries[i];
            assert(f.slot < kind_series(old_store, f.kind).len());
        }
        assert forall|k: SeriesKind, at: int|
            0 <= at < kind_series(new_store, k).len() implies #[trigger] self.is_held(k, at) by {
            assert(before.is_held(k, at));
            let i = choose|i: int| #[trigger] before.points_at(i, k, at);
            assert(self.points_at(i, k, at));
        }
        assert forall|i: int| 0 <= i < self.entries.len() implies (#[trigger] self@[i]) == before@.update(
            handle,
            SampleView { value, ..before@[handle] },
        )[i] by {
            let f = before.entries[i];
            assert(f.slot < kind_series(old_store, f.kind).len());
            if i != handle && f.kind == e.kind {
                if i < handle {
                    assert(before.entries[i].slot != before.entries[handle].slot);
                } else {
                    assert(before.entries[handle].slot != before.entries[i].slot);
                }
            }
        }
        assert(self@ =~= before@.update(handle, SampleView { value, ..before@[handle] }));
        lemma_kind_part_set(before@, handle, value, SeriesKind::Gauge);
        lemma_kind_part_set(before@, handle, value, SeriesKind::Counter);
        lemma_kind_part_set(before@, handle, value, SeriesKind::DoubleGauge);
        assert forall|i: int| 0 <= i < self.entries.len() implies (#[trigger] self.entries[i]).slot
            == kind_part(self@.take(i), self.entries[i].kind).len() by {
            lemma_kind_part_len(self@.take(i), before@.take(i), self.entries[i].kind);
        }
    }

    /// The series of a settled registry make settled families in the store.
    proof fn lemma_store_settled(&self)
        requires
            self.wf(),
            families_settled(self@),
        ensures
            store_view(self.store).families_settled(),
    {
        let store = store_view(self.store);
        let samples = self@;
        assert forall|first: SeriesKind, a: int, second: SeriesKind, b: int|
            0 <= a < kind_part(samples, first).len() && 0 <= b < kind_part(samples, second).len() && (
            #[trigger] kind_part(samples, first)[a]).id.name == (#[trigger] kind_part(
                samples,
                second,
            )[b]).id.name implies first == second && kind_part(samples, first)[a].help == kind_part(
            samples,
            second,
        )[b].help && kind_part(samples, first)[a].id.labels.dom() == kind_part(
            samples,
            second,
        )[b].id.labels.dom() by {
            lemma_settled_pair(samples, first, a, second, b);
        }
    }

    /// The current value of a series. For a `DoubleGauge` it is the bit
    /// pattern of the number.
    pub fn value(&self, handle: SeriesHandle) -> (value: u64)
        requires
            self.wf(),
            handle < self@.len(),
        ensures
            value == self@[handle as int].value,
    {
        let slot = self.entries[handle].slot;
        match self.entries[handle].kind {
            SeriesKind::Gauge => store_gauge_value(&self.store, slot),
            SeriesKind::Counter => store_counter_value(&self.store, slot),
            SeriesKind::DoubleGauge => store_double_bits(&self.store, slot),
        }
    }

    /// The series as the families that a remote-write encoder takes: those
    /// gathered from the snapshot, where the series of each name make one
    /// family. The registry is not changed.
    pub fn families(&self) -> (families: Vec<prometheus::proto::MetricFamily>)
        requires
            self.wf(),
        ensures
            families_settled(self@) ==> families@ == families_of(self@),
    {
        proof {
            if families_settled(self@) {
                self.lemma_store_settled();
            }
        }
        store_families(&self.store)
    }

    /// The snapshot: every series with its current value, in registration
    /// order. The registry is not changed.
    pub fn gather(&self) -> (samples: Vec<Sample>)
        requires
            self.wf(),
        ensures
            samples_view(samples@) == self@,
            identities_distinct(samples_view(samples@)),
    {
        let mut samples: Vec<Sample> = Vec::new();
        let mut i: usize = 0;
        while i < self.entries.len()
            invariant
                self.wf(),
                i <= self.entries.len(),
                samples.len() == i,
                forall|j: int| 0 <= j < i ==> (#[trigger] samples[j])@ == self@[j],
            decreases self.entries.len() - i,
        {
            let value = self.value(i);
            let entry = &self.entries[i];
            samples.push(
                Sample {
                    name: entry.name.clone(),
                    help: entry.help.clone(),
                    labels: clone_labels(&entry.labels),
                    kind: entry.kind,
                    value,
                },
            );
            i += 1;
        }
        proof {
            assert(samples_view(samples@) =~= self@);
            self.lemma_identities_distinct();
        }
        samples
    }
}

} // verus!
