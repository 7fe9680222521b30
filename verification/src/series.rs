//! The metric series of the exporter, held in a Prometheus registry.
//!
//! A series is registered once, under a name and a fixed label set, and keeps
//! that identity for as long as the store lives. Integer gauges, integer
//! counters and double-precision gauges are kept apart, each kind in the
//! order of registration, and a series is written to by its position among
//! those of its kind.
//!
//! The registry and the metric objects come from the `prometheus` crate. They
//! share their values through reference-counted cells, which the verifier
//! cannot follow, so the store is opaque here and everything known about it is
//! stated by the contracts of the functions marked `external_body` below.
use vstd::prelude::*;

verus! {

/// What identifies a series: its name and its label set.
pub struct SeriesId {
    pub name: Seq<char>,
    pub labels: Map<Seq<char>, Seq<char>>,
}

/// A series as the contracts see it: its identity, its help text and its
/// current value.
///
/// The value of a double-precision gauge is the IEEE-754 bit pattern of the
/// number it holds.
pub struct SeriesView {
    pub id: SeriesId,
    pub help: Seq<char>,
    pub value: u64,
}

/// The contents of a store, one sequence per kind, each in registration order.
pub struct StoreView {
    pub gauges: Seq<SeriesView>,
    pub counters: Seq<SeriesView>,
    pub doubles: Seq<SeriesView>,
}

/// The label set that a list of pairs denotes: a later pair replaces an
/// earlier one with the same label name.
pub open spec fn label_map(pairs: Seq<(Seq<char>, Seq<char>)>) -> Map<Seq<char>, Seq<char>>
    decreases pairs.len(),
{
    if pairs.len() == 0 {
        Map::empty()
    } else {
        label_map(pairs.drop_last()).insert(pairs.last().0, pairs.last().1)
    }
}

/// The identity that a name and a list of label pairs give a series.
pub open spec fn series_id(name: Seq<char>, labels: Seq<(Seq<char>, Seq<char>)>) -> SeriesId {
    SeriesId { name, labels: label_map(labels) }
}

/// A series that has just been registered: its value is zero.
pub open spec fn fresh_series(
    name: Seq<char>,
    help: Seq<char>,
    labels: Seq<(Seq<char>, Seq<char>)>,
) -> SeriesView {
    SeriesView { id: series_id(name, labels), help, value: 0 }
}

/// `s[i]` with its value replaced by `value`.
pub open spec fn with_value(s: Seq<SeriesView>, i: int, value: u64) -> Seq<SeriesView> {
    s.update(i, SeriesView { value, ..s[i] })
}

/// The sum of a counter and an increment, as a 64-bit accumulator holds it.
pub open spec fn wrapping_sum(value: u64, delta: u64) -> u64 {
    if value + delta <= u64::MAX {
        (value + delta) as u64
    } else {
        (value + delta - 0x1_0000_0000_0000_0000) as u64
    }
}

/// Whether a character can begin a metric name (`colon` set) or a label name
/// (`colon` clear): a letter of the basic alphabet, an underscore or, in a
/// metric name, a colon.
pub open spec fn is_name_start(c: char, colon: bool) -> bool {
    ||| 'a' <= c <= 'z'
    ||| 'A' <= c <= 'Z'
    ||| c == '_'
    ||| (colon && c == ':')
}

/// Whether a text is a metric name (`colon` set) or a label name (`colon`
/// clear): a first character that can begin one, then such characters and
/// digits.
pub open spec fn is_name(text: Seq<char>, colon: bool) -> bool {
    &&& text.len() > 0
    &&& forall|i: int|
        0 <= i < text.len() ==> is_name_start(#[trigger] text[i], colon) || (i > 0 && '0' <= text[i]
            <= '9')
}

/// Whether a descriptor is well formed: a help text, a metric name, and
/// label names.
pub open spec fn descriptor_valid(
    name: Seq<char>,
    help: Seq<char>,
    labels: Map<Seq<char>, Seq<char>>,
) -> bool {
    &&& help.len() > 0
    &&& is_name(name, true)
    &&& forall|label: Seq<char>| #[trigger] labels.contains_key(label) ==> is_name(label, false)
}

/// The number under which the registry files a descriptor: a hash of the
/// name and of the label values, taken in the order of the label names.
pub uninterp spec fn descriptor_id(name: Seq<char>, labels: Map<Seq<char>, Seq<char>>) -> u64;

/// The number by which the registry tells whether two descriptors of one
/// name have the same help text and the same label names: a hash of the two.
pub uninterp spec fn dimension_hash(help: Seq<char>, label_names: Set<Seq<char>>) -> u64;

/// Whether a series of `series` is filed under the number `id`.
pub open spec fn files_id(series: Seq<SeriesView>, id: u64) -> bool {
    exists|i: int|
        0 <= i < series.len() && descriptor_id(
            (#[trigger] series[i]).id.name,
            series[i].id.labels,
        ) == id
}

/// Whether every series of `series` that is called `name` has the help text
/// and label names that hash to `dimensions`.
pub open spec fn agrees_on(series: Seq<SeriesView>, name: Seq<char>, dimensions: u64) -> bool {
    forall|i: int|
        0 <= i < series.len() && (#[trigger] series[i]).id.name == name ==> dimension_hash(
            series[i].help,
            series[i].id.labels.dom(),
        ) == dimensions
}

/// Whether the series of a list that share a name also share the help text
/// and the label names.
pub open spec fn family_agrees(series: Seq<SeriesView>) -> bool {
    forall|i: int, j: int|
        0 <= i < j < series.len() && (#[trigger] series[i]).id.name == (#[trigger] series[j]).id.name
            ==> series[i].help == series[j].help && series[i].id.labels.dom()
            == series[j].id.labels.dom()
}

/// Whether no series of `a` shares its name with a series of `b`.
pub open spec fn names_apart(a: Seq<SeriesView>, b: Seq<SeriesView>) -> bool {
    forall|i: int, j: int|
        0 <= i < a.len() && 0 <= j < b.len() ==> (#[trigger] a[i]).id.name != (#[trigger] b[j]).id.name
}

impl StoreView {
    /// Whether the series of each name make one family: they are of one
    /// kind, have one help text and one set of label names, and differ in
    /// their label values.
    pub open spec fn families_settled(self) -> bool {
        &&& self.ids_distinct()
        &&& family_agrees(self.gauges)
        &&& family_agrees(self.counters)
        &&& family_agrees(self.doubles)
        &&& names_apart(self.gauges, self.counters)
        &&& names_apart(self.gauges, self.doubles)
        &&& names_apart(self.counters, self.doubles)
    }

    /// Whether some series of the store, of any kind, has the identity `id`.
    pub open spec fn has_id(self, id: SeriesId) -> bool {
        ||| exists|i: int| 0 <= i < self.gauges.len() && (#[trigger] self.gauges[i]).id == id
        ||| exists|i: int| 0 <= i < self.counters.len() && (#[trigger] self.counters[i]).id == id
        ||| exists|i: int| 0 <= i < self.doubles.len() && (#[trigger] self.doubles[i]).id == id
    }

    /// No two series of the store share an identity.
    pub open spec fn ids_distinct(self) -> bool {
        &&& forall|i: int, j: int|
            0 <= i < j < self.gauges.len() ==> (#[trigger] self.gauges[i]).id != (
            #[trigger] self.gauges[j]).id
        &&& forall|i: int, j: int|
            0 <= i < j < self.counters.len() ==> (#[trigger] self.counters[i]).id != (
            #[trigger] self.counters[j]).id
        &&& forall|i: int, j: int|
            0 <= i < j < self.doubles.len() ==> (#[trigger] self.doubles[i]).id != (
            #[trigger] self.doubles[j]).id
        &&& forall|i: int, j: int|
            0 <= i < self.gauges.len() && 0 <= j < self.counters.len() ==> (
            #[trigger] self.gauges[i]).id != (#[trigger] self.counters[j]).id
        &&& forall|i: int, j: int|
            0 <= i < self.gauges.len() && 0 <= j < self.doubles.len() ==> (
            #[trigger] self.gauges[i]).id != (#[trigger] self.doubles[j]).id
        &&& forall|i: int, j: int|
            0 <= i < self.counters.len() && 0 <= j < self.doubles.len() ==> (
            #[trigger] self.counters[i]).id != (#[trigger] self.doubles[j]).id
    }

    /// Whether some series of the store, of any kind, is filed under
    /// `number`.
    pub open spec fn files(self, number: u64) -> bool {
        files_id(self.gauges, number) || files_id(self.counters, number) || files_id(
            self.doubles,
            number,
        )
    }

    /// Whether the series of the store that are called `name` have the
    /// help text and label names that hash to `dimensions`.
    pub open spec fn agrees(self, name: Seq<char>, dimensions: u64) -> bool {
        &&& agrees_on(self.gauges, name, dimensions)
        &&& agrees_on(self.counters, name, dimensions)
        &&& agrees_on(self.doubles, name, dimensions)
    }

    /// Whether some series of the store, of any kind, is filed under the
    /// number of the identity `id`.
    pub open spec fn id_taken(self, id: SeriesId) -> bool {
        self.files(descriptor_id(id.name, id.labels))
    }

    /// Whether the series of the store that are called `id.name` have the
    /// help text `help` and the label names of `id`, as far as the registry
    /// tells.
    pub open spec fn dimensions_agree(self, id: SeriesId, help: Seq<char>) -> bool {
        self.agrees(id.name, dimension_hash(help, id.labels.dom()))
    }

    /// Whether the registry accepts a new series: its descriptor is well
    /// formed, its number is free, and it agrees with the series of its name.
    pub open spec fn accepts(self, id: SeriesId, help: Seq<char>) -> bool {
        &&& descriptor_valid(id.name, help, id.labels)
        &&& !self.id_taken(id)
        &&& self.dimensions_agree(id, help)
    }
}

/// Why a series was not registered.
#[derive(Debug)]
pub enum RegistryError {
    /// The registry holds a series under the number of this one already.
    AlreadyRegistered,
    /// The descriptor was refused for another reason, given in words.
    Rejected(String),
}

/// What registering a series does, when the registry files its descriptor
/// under `number` and its help text and label names hash to `dimensions`:
/// `kind_before` are the series of its kind before, `kind_after` those
/// afterwards.
pub open spec fn registered(
    before: StoreView,
    kind_before: Seq<SeriesView>,
    kind_after: Seq<SeriesView>,
    name: Seq<char>,
    help: Seq<char>,
    labels: Seq<(Seq<char>, Seq<char>)>,
    number: u64,
    dimensions: u64,
    r: Result<usize, RegistryError>,
) -> bool {
    let valid = descriptor_valid(name, help, label_map(labels));
    match r {
        Ok(i) => {
            &&& valid
            &&& !before.files(number)
            &&& before.agrees(name, dimensions)
            &&& i == kind_before.len()
            &&& kind_after == kind_before.push(fresh_series(name, help, labels))
        },
        Err(e) => {
            &&& !(valid && !before.files(number) && before.agrees(name, dimensions))
            &&& kind_after == kind_before
            &&& e is AlreadyRegistered <==> valid && before.files(number)
        },
    }
}

#[verifier::external_type_specification]
#[verifier::external_body]
pub struct ExMetricFamily(prometheus::proto::MetricFamily);

/// A `prometheus::Registry` together with the metric objects registered in
/// it: `GenericGauge<AtomicU64>`, `GenericCounter<AtomicU64>` and `Gauge`.
///
/// The registry holds a clone of every metric object, and a clone shares its
/// value with the object it was made from. The store keeps the two together,
/// so that a write through a metric object and the next gathering of the
/// registry act on one value. The types of the metric objects are generic
/// over a trait of the crate and cannot be declared to the verifier, so the
/// whole store is opaque.
#[verifier::external_body]
pub struct SeriesStore {
    registry: prometheus::Registry,
    gauges: Vec<prometheus::core::GenericGauge<prometheus::core::AtomicU64>>,
    counters: Vec<prometheus::core::GenericCounter<prometheus::core::AtomicU64>>,
    doubles: Vec<prometheus::Gauge>,
}

/// The integer gauges of a store, in the order in which they were registered.
pub uninterp spec fn store_gauges(s: SeriesStore) -> Seq<SeriesView>;

/// The integer counters of a store, in the order in which they were registered.
pub uninterp spec fn store_counters(s: SeriesStore) -> Seq<SeriesView>;

/// The double-precision gauges of a store, in the order in which they were
/// registered.
pub uninterp spec fn store_doubles(s: SeriesStore) -> Seq<SeriesView>;

/// Everything a store holds.
pub open spec fn store_view(s: SeriesStore) -> StoreView {
    StoreView { gauges: store_gauges(s), counters: store_counters(s), doubles: store_doubles(s) }
}

/// `Registry::new`, with no metric object yet: the store is empty.
#[verifier::external_body]
pub(crate) fn store_new() -> (s: SeriesStore)
    ensures
        store_view(s) == (StoreView { gauges: Seq::empty(), counters: Seq::empty(), doubles: Seq::empty() }),
{
    SeriesStore {
        registry: prometheus::Registry::new(),
        gauges: Vec::new(),
        counters: Vec::new(),
        doubles: Vec::new(),
    }
}

/// `GenericGauge::<AtomicU64>::with_opts` on `Opts::new(name, help)` with the
/// labels as constant labels, then `Registry::register` on a clone of the
/// gauge.
///
/// The first succeeds exactly when the descriptor is well formed. The second
/// succeeds exactly when the registry holds no descriptor under the number
/// of this one, and none of this name whose help text and label names hash
/// otherwise; it answers `AlreadyReg` for a number that is taken. When both
/// succeed the gauge is the last integer gauge of the store and its value is
/// zero. When either fails the store is as it was.
#[verifier::external_body]
pub(crate) fn store_register_gauge(
    s: &mut SeriesStore,
    name: &str,
    help: &str,
    labels: &Vec<(String, String)>,
) -> (r: Result<usize, RegistryError>)
    ensures
        registered(
            store_view(*old(s)),
            store_gauges(*old(s)),
            store_gauges(*final(s)),
            name@,
            help@,
            labels.deep_view(),
            descriptor_id(name@, label_map(labels.deep_view())),
            dimension_hash(help@, label_map(labels.deep_view()).dom()),
            r,
        ),
        store_counters(*final(s)) == store_counters(*old(s)),
        store_doubles(*final(s)) == store_doubles(*old(s)),
{
    let mut opts = prometheus::Opts::new(name, help);
    for (k, v) in labels {
        opts = opts.const_label(k, v);
    }
    let made = prometheus::core::GenericGauge::with_opts(opts);
    match made.and_then(|gauge| s.registry.register(Box::new(gauge.clone())).map(|_| gauge)) {
        Ok(gauge) => {
            let i = s.gauges.len();
            s.gauges.push(gauge);
            Ok(i)
        },
        Err(prometheus::Error::AlreadyReg) => Err(RegistryError::AlreadyRegistered),
        Err(other) => Err(RegistryError::Rejected(other.to_string())),
    }
}

/// `GenericCounter::<AtomicU64>::with_opts` on `Opts::new(name, help)` with
/// the labels as constant labels, then `Registry::register` on a clone of the
/// counter. The claims are those of `store_register_gauge`, for the counters.
#[verifier::external_body]
pub(crate) fn store_register_counter(
    s: &mut SeriesStore,
    name: &str,
    help: &str,
    labels: &Vec<(String, String)>,
) -> (r: Result<usize, RegistryError>)
    ensures
        registered(
            store_view(*old(s)),
            store_counters(*old(s)),
            store_counters(*final(s)),
            name@,
            help@,
            labels.deep_view(),
            descriptor_id(name@, label_map(labels.deep_view())),
            dimension_hash(help@, label_map(labels.deep_view()).dom()),
            r,
        ),
        store_gauges(*final(s)) == store_gauges(*old(s)),
        store_doubles(*final(s)) == store_doubles(*old(s)),
{
    let mut opts = prometheus::Opts::new(name, help);
    for (k, v) in labels {
        opts = opts.const_label(k, v);
    }
    let made = prometheus::core::GenericCounter::with_opts(opts);
    match made.and_then(|counter| s.registry.register(Box::new(counter.clone())).map(|_| counter)) {
        Ok(counter) => {
            let i = s.counters.len();
            s.counters.push(counter);
            Ok(i)
        },
        Err(prometheus::Error::AlreadyReg) => Err(RegistryError::AlreadyRegistered),
        Err(other) => Err(RegistryError::Rejected(other.to_string())),
    }
}

/// `Gauge::with_opts` on `Opts::new(name, help)` with the labels as constant
/// labels, then `Registry::register` on a clone of the gauge. The claims are
/// those of `store_register_gauge`, for the double-precision gauges; the
/// value zero is the bit pattern of `0.0`.
#[verifier::external_body]
pub(crate) fn store_register_double(
    s: &mut SeriesStore,
    name: &str,
    help: &str,
    labels: &Vec<(String, String)>,
) -> (r: Result<usize, RegistryError>)
    ensures
        registered(
            store_view(*old(s)),
            store_doubles(*old(s)),
            store_doubles(*final(s)),
            name@,
            help@,
            labels.deep_view(),
            descriptor_id(name@, label_map(labels.deep_view())),
            dimension_hash(help@, label_map(labels.deep_view()).dom()),
            r,
        ),
        store_gauges(*final(s)) == store_gauges(*old(s)),
        store_counters(*final(s)) == store_counters(*old(s)),
{
    let mut opts = prometheus::Opts::new(name, help);
    for (k, v) in labels {
        opts = opts.const_label(k, v);
    }
    let made = prometheus::Gauge::with_opts(opts);
    match made.and_then(|gauge| s.registry.register(Box::new(gauge.clone())).map(|_| gauge)) {
        Ok(gauge) => {
            let i = s.doubles.len();
            s.doubles.push(gauge);
            Ok(i)
        },
        Err(prometheus::Error::AlreadyReg) => Err(RegistryError::AlreadyRegistered),
        Err(other) => Err(RegistryError::Rejected(other.to_string())),
    }
}

/// `GenericGauge::<AtomicU64>::set`: the gauge holds `value`, and nothing else
/// in the store changes.
#[verifier::external_body]
pub(crate) fn store_set_gauge(s: &mut SeriesStore, i: usize, value: u64)
    requires
        i < store_gauges(*old(s)).len(),
    ensures
        store_view(*final(s)) == (StoreView {
            gauges: with_value(store_gauges(*old(s)), i as int, value),
            ..store_view(*old(s))
        }),
{
    s.gauges[i].set(value)
}

/// `GenericCounter::<AtomicU64>::inc_by`: an atomic `fetch_add`, so the
/// counter holds the sum modulo 2^64, and nothing else in the store changes.
#[verifier::external_body]
pub(crate) fn store_inc_counter(s: &mut SeriesStore, i: usize, delta: u64)
    requires
        i < store_counters(*old(s)).len(),
    ensures
        store_view(*final(s)) == (StoreView {
            counters: with_value(
                store_counters(*old(s)),
                i as int,
                wrapping_sum(store_counters(*old(s))[i as int].value, delta),
            ),
            ..store_view(*old(s))
        }),
{
    s.counters[i].inc_by(delta)
}

/// `Gauge::set` on the number whose bit pattern is `bits`: the gauge holds
/// that number, kept as its bit pattern, and nothing else in the store
/// changes.
#[verifier::external_body]
pub(crate) fn store_set_double(s: &mut SeriesStore, i: usize, bits: u64)
    requires
        i < store_doubles(*old(s)).len(),
    ensures
        store_view(*final(s)) == (StoreView {
            doubles: with_value(store_doubles(*old(s)), i as int, bits),
            ..store_view(*old(s))
        }),
{
    s.doubles[i].set(<prometheus::core::AtomicF64 as prometheus::core::Atomic>::T::from_bits(bits))
}

/// `GenericGauge::<AtomicU64>::get`.
#[verifier::external_body]
pub(crate) fn store_gauge_value(s: &SeriesStore, i: usize) -> (value: u64)
    requires
        i < store_gauges(*s).len(),
    ensures
        value == store_gauges(*s)[i as int].value,
{
    s.gauges[i].get()
}

/// `GenericCounter::<AtomicU64>::get`.
#[verifier::external_body]
pub(crate) fn store_counter_value(s: &SeriesStore, i: usize) -> (value: u64)
    requires
        i < store_counters(*s).len(),
    ensures
        value == store_counters(*s)[i as int].value,
{
    s.counters[i].get()
}

/// `Gauge::get`, as the bit pattern of the number.
#[verifier::external_body]
pub(crate) fn store_double_bits(s: &SeriesStore, i: usize) -> (bits: u64)
    requires
        i < store_doubles(*s).len(),
    ensures
        bits == store_doubles(*s)[i as int].value,
{
    s.doubles[i].get().to_bits()
}

/// The families that the registry gathers from given series: one family
/// for each name, in the order of the names, with the name, the help text
/// and the type of its series, and in it one metric for each series, in the
/// order of the label values, with the labels in the order of their names
/// and the value of the series.
pub uninterp spec fn gathered_families(
    gauges: Seq<SeriesView>,
    counters: Seq<SeriesView>,
    doubles: Seq<SeriesView>,
) -> Seq<prometheus::proto::MetricFamily>;

/// `Registry::gather`: the registered metrics as the families that an
/// encoder takes.
///
/// The registry asks every metric object for its family, merges the
/// families of one name into the one it met first, sorts the metrics of each
/// family by their label values and hands the families out in the order of
/// their names. It meets the metric objects in the order of a hash map, so
/// the outcome is claimed only where that order cannot show: where the
/// series of each name are of one kind, with one help text and one set of
/// label names, and no two of them have the same label values. The families
/// are then a function of the series and their values.
#[verifier::external_body]
pub(crate) fn store_families(s: &SeriesStore) -> (families: Vec<prometheus::proto::MetricFamily>)
    ensures
        store_view(*s).families_settled() ==> families@ == gathered_families(
            store_gauges(*s),
            store_counters(*s),
            store_doubles(*s),
        ),
{
    s.registry.gather()
}

} // verus!
