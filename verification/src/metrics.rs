//! What a push needs besides the snapshot: where to send it, how to
//! authenticate, and which labels to attach to every series.
use crate::collector::Collector;
use crate::model::{initial_view, CollectorView};
use crate::config::Auth;
use crate::host::{get_hostname, DiskReading, HostReading, NetworkReading};
use crate::registry::{families_of, identities_distinct, samples_view, Sample};
use crate::series::RegistryError;
use vstd::prelude::*;

verus! {

/// The time after which a request is given up, in seconds.
pub const REQUEST_TIMEOUT_SECONDS: u64 = 10;

/// Why the exporter could not be set up.
#[derive(Debug)]
pub enum MetricsError {
    /// The registry refused a series.
    Collector(RegistryError),
    /// The endpoint is no URL.
    InvalidEndpoint,
    /// The credential cannot stand in a header.
    InvalidCredential,
}

/// Whether a text parses as an absolute URL.
pub uninterp spec fn parses_as_url(text: Seq<char>) -> bool;

/// `Url::parse`, which `reqwest` hands on from the `url` crate: whether the
/// text parses as an absolute URL. The parser reads the text and nothing
/// else.
#[verifier::external_body]
fn url_parses(text: &str) -> (parses: bool)
    ensures
        parses == parses_as_url(text@),
{
    reqwest::Url::parse(text).is_ok()
}

/// The endpoint, once it has been put to the parser: kept if it parsed as a
/// URL, refused if it did not.
pub fn checked_endpoint(endpoint: String, parses: bool) -> (r: Result<String, MetricsError>)
    ensures
        match r {
            Ok(kept) => parses && kept@ == endpoint@,
            Err(e) => !parses && e is InvalidEndpoint,
        },
{
    if parses {
        Ok(endpoint)
    } else {
        Err(MetricsError::InvalidEndpoint)
    }
}

/// The standard base64 text, with padding, of the UTF-8 bytes of a text.
pub uninterp spec fn base64_standard(text: Seq<char>) -> Seq<char>;

/// A character of the standard base64 alphabet, or the padding character.
pub open spec fn is_base64_char(c: char) -> bool {
    ||| 'A' <= c <= 'Z'
    ||| 'a' <= c <= 'z'
    ||| '0' <= c <= '9'
    ||| c == '+'
    ||| c == '/'
    ||| c == '='
}

/// `Engine::encode` of `base64::prelude::BASE64_STANDARD` on the bytes of
/// the text: its base64 text, made of alphabet and padding characters only.
#[verifier::external_body]
fn base64_encode(text: &str) -> (encoded: String)
    ensures
        encoded@ == base64_standard(text@),
        forall|i: int| 0 <= i < encoded@.len() ==> is_base64_char(#[trigger] encoded@[i]),
{
    base64::Engine::encode(&base64::prelude::BASE64_STANDARD, text)
}

/// Whether a character can stand in a header value: no control character
/// but the tab.
pub open spec fn header_char_valid(c: char) -> bool {
    (c as u32 >= 32 && c as u32 != 127) || c as u32 == 9
}

/// Whether a text can stand as a header value.
pub open spec fn header_value_valid(value: Seq<char>) -> bool {
    forall|i: int| 0 <= i < value.len() ==> header_char_valid(#[trigger] value[i])
}

/// Whether a text can stand as a header value.
pub fn is_valid_header_value(value: &str) -> (valid: bool)
    ensures
        valid == header_value_valid(value@),
{
    let n = value.unicode_len();
    let mut i: usize = 0;
    while i < n
        invariant
            n == value@.len(),
            i <= n,
            forall|j: int| 0 <= j < i ==> header_char_valid(#[trigger] value@[j]),
        decreases n - i,
    {
        let c = value.get_char(i);
        let code = c as u32;
        if !((code >= 32 && code != 127) || code == 9) {
            return false;
        }
        i += 1;
    }
    true
}

/// The text that authenticates with user name and password.
pub open spec fn basic_authorization(username: Seq<char>, password: Seq<char>) -> Seq<char> {
    "Basic "@ + base64_standard(username + ":"@ + password)
}

/// The text that authenticates with a token.
pub open spec fn bearer_authorization(token: Seq<char>) -> Seq<char> {
    "Bearer "@ + token
}

/// The value of the `Authorization` header for a way to authenticate.
pub open spec fn authorization_text(auth: Auth) -> Seq<char> {
    match auth {
        Auth::Basic { username, password } => basic_authorization(username@, password@),
        Auth::Bearer { token } => bearer_authorization(token@),
    }
}

/// The value of the `Authorization` header, if there is to be one.
pub open spec fn authorization_value(auth: Option<Auth>) -> Option<Seq<char>> {
    match auth {
        Some(auth) => Some(authorization_text(auth)),
        None => None,
    }
}

/// Whether the credential, if there is one, can stand in a header.
pub open spec fn credential_valid(auth: Option<Auth>) -> bool {
    match auth {
        Some(auth) => header_value_valid(authorization_text(auth)),
        None => true,
    }
}

/// User name and password can always stand in a header, whatever they are:
/// what is sent is their base64 text.
proof fn lemma_basic_always_valid(username: Seq<char>, password: Seq<char>)
    requires
        forall|i: int|
            0 <= i < base64_standard(username + ":"@ + password).len() ==> is_base64_char(
                #[trigger] base64_standard(username + ":"@ + password)[i],
            ),
    ensures
        header_value_valid(basic_authorization(username, password)),
{
    reveal_strlit("Basic ");
    let encoded = base64_standard(username + ":"@ + password);
    let value = basic_authorization(username, password);
    assert forall|i: int| 0 <= i < value.len() implies header_char_valid(#[trigger] value[i]) by {
        if i >= 6 {
            assert(value[i] == encoded[i - 6]);
            assert(is_base64_char(encoded[i - 6]));
        }
    }
}

/// The header value for user name and password, from the base64 text of
/// the two.
pub fn basic_header(encoded: &str) -> (value: String)
    ensures
        value@ == "Basic "@ + encoded@,
{
    String::from_str("Basic ").concat(encoded)
}

/// The header value for a token: an error if it cannot stand in a header.
pub fn bearer_header(token: &str) -> (r: Result<String, MetricsError>)
    ensures
        match r {
            Ok(value) => value@ == bearer_authorization(token@),
            Err(e) => e is InvalidCredential,
        },
        r is Ok <==> header_value_valid(bearer_authorization(token@)),
{
    let value = String::from_str("Bearer ").concat(token);
    if is_valid_header_value(value.as_str()) {
        Ok(value)
    } else {
        Err(MetricsError::InvalidCredential)
    }
}

/// The value of the `Authorization` header: none without a credential, the
/// text of the credential if it can stand in a header, an error if it
/// cannot. User name and password are never refused.
pub fn authorization_header(auth: &Option<Auth>) -> (r: Result<Option<String>, MetricsError>)
    ensures
        match r {
            Ok(Some(value)) => authorization_value(*auth) == Some(value@),
            Ok(None) => *auth is None,
            Err(e) => e is InvalidCredential,
        },
        r is Ok <==> credential_valid(*auth),
        *auth matches Some(Auth::Basic { .. }) ==> r is Ok,
{
    match auth {
        None => Ok(None),
        Some(Auth::Basic { username, password }) => {
            let credential = username.clone().concat(":").concat(password.as_str());
            let encoded = base64_encode(credential.as_str());
            proof {
                lemma_basic_always_valid(username@, password@);
            }
            Ok(Some(basic_header(encoded.as_str())))
        },
        Some(Auth::Bearer { token }) => match bearer_header(token.as_str()) {
            Ok(value) => Ok(Some(value)),
            Err(e) => Err(e),
        },
    }
}

/// Whether a label list has a label of the given name.
pub open spec fn has_label(labels: Seq<(Seq<char>, Seq<char>)>, name: Seq<char>) -> bool {
    exists|i: int| 0 <= i < labels.len() && (#[trigger] labels[i]).0 == name
}

/// The labels attached to every series: those that are configured, in
/// their order, and after them the host name under `hostname`, if a host
/// name is known and no label of that name is configured.
pub open spec fn static_label_set(
    labels: Option<Seq<(Seq<char>, Seq<char>)>>,
    hostname: Option<Seq<char>>,
) -> Seq<(Seq<char>, Seq<char>)> {
    let configured = match labels {
        Some(labels) => labels,
        None => Seq::empty(),
    };
    match hostname {
        Some(hostname) if !has_label(configured, "hostname"@) => configured.push(
            ("hostname"@, hostname),
        ),
        _ => configured,
    }
}

/// Whether a label list has a label of the given name.
pub fn contains_label(labels: &Vec<(String, String)>, name: &String) -> (found: bool)
    ensures
        found == has_label(labels.deep_view(), name@),
{
    let mut i: usize = 0;
    while i < labels.len()
        invariant
            i <= labels.len(),
            forall|j: int| 0 <= j < i ==> (#[trigger] labels.deep_view()[j]).0 != name@,
        decreases labels.len() - i,
    {
        if labels[i].0 == *name {
            assert(labels.deep_view()[i as int].0 == name@);
            return true;
        }
        assert(labels.deep_view()[i as int].0 != name@);
        i += 1;
    }
    false
}

/// The labels attached to every series, from those that are configured and
/// the host name.
pub fn static_labels(labels: Option<Vec<(String, String)>>, hostname: Option<String>) -> (r: Vec<
    (String, String),
>)
    ensures
        r.deep_view() == static_label_set(labels.deep_view(), hostname.deep_view()),
{
    let mut configured: Vec<(String, String)> = match labels {
        Some(labels) => labels,
        None => Vec::new(),
    };
    assert(labels is None ==> configured.deep_view() =~= Seq::<(Seq<char>, Seq<char>)>::empty());
    match hostname {
        Some(hostname) => {
            let key = String::from_str("hostname");
            if !contains_label(&configured, &key) {
                let ghost before = configured.deep_view();
                configured.push((key, hostname));
                assert(configured.deep_view() =~= before.push(("hostname"@, hostname@)));
            }
        },
        None => {},
    }
    configured
}

/// What one tick hands to the push: the series with their values, and the
/// same series as the families that a remote-write encoder takes.
pub struct Snapshot {
    pub samples: Vec<Sample>,
    pub families: Vec<prometheus::proto::MetricFamily>,
}

/// Everything the exporter holds between two pushes.
pub struct Metrics {
    endpoint: String,
    collector: Collector,
    labels: Vec<(String, String)>,
    authorization: Option<String>,
}

/// The exporter as the contracts see it.
pub struct MetricsView {
    /// The URL that snapshots are pushed to.
    pub endpoint: Seq<char>,
    /// The collector.
    pub collector: CollectorView,
    /// The labels attached to every series.
    pub labels: Seq<(Seq<char>, Seq<char>)>,
    /// The value of the `Authorization` header, if there is one.
    pub authorization: Option<Seq<char>>,
}

impl View for Metrics {
    type V = MetricsView;

    closed spec fn view(&self) -> MetricsView {
        MetricsView {
            endpoint: self.endpoint@,
            collector: self.collector@,
            labels: self.labels.deep_view(),
            authorization: self.authorization.deep_view(),
        }
    }
}

impl Metrics {
    /// The invariant of the exporter: that of its collector, an endpoint
    /// that is a URL, and a credential that can stand in a header.
    pub closed spec fn wf(&self) -> bool {
        &&& self.collector.wf()
        &&& self@.collector.wf()
        &&& parses_as_url(self@.endpoint)
        &&& match self@.authorization {
            Some(value) => header_value_valid(value),
            None => true,
        }
    }

    /// Sets the exporter up on a collector and a host name that are given.
    ///
    /// It succeeds exactly when the endpoint is a URL and the credential
    /// can stand in a header, as user name and password always can. The
    /// endpoint is tested first.
    pub fn assemble(
        endpoint: String,
        auth: Option<Auth>,
        labels: Option<Vec<(String, String)>>,
        collector: Collector,
        hostname: Option<String>,
    ) -> (r: Result<Self, MetricsError>)
        requires
            collector.wf(),
        ensures
            match r {
                Ok(metrics) => metrics.wf() && metrics@ == (MetricsView {
                    endpoint: endpoint@,
                    collector: collector@,
                    labels: static_label_set(labels.deep_view(), hostname.deep_view()),
                    authorization: authorization_value(auth),
                }),
                Err(MetricsError::InvalidEndpoint) => !parses_as_url(endpoint@),
                Err(MetricsError::InvalidCredential) => parses_as_url(endpoint@) && !credential_valid(auth),
                Err(MetricsError::Collector(_)) => false,
            },
            r is Ok <==> parses_as_url(endpoint@) && credential_valid(auth),
            auth matches Some(Auth::Basic { .. }) ==> (r is Ok <==> parses_as_url(endpoint@)),
    {
        let parses = url_parses(endpoint.as_str());
        let endpoint = match checked_endpoint(endpoint, parses) {
            Ok(endpoint) => endpoint,
            Err(e) => {
                return Err(e);
            },
        };
        let authorization = match authorization_header(&auth) {
            Ok(value) => value,
            Err(e) => {
                return Err(e);
            },
        };
        let labels = static_labels(labels, hostname);
        proof {
            collector.lemma_wf();
        }
        Ok(Metrics { endpoint, collector, labels, authorization })
    }

    /// Sets the exporter up on this host: discovers its devices, builds the
    /// collector, and asks for the host name.
    ///
    /// The devices and the host name depend on the host. The collector is
    /// built first, so its failure, that of two series under one number,
    /// comes before that of an endpoint that is no URL, and that before a
    /// credential that cannot stand in a header; such an endpoint and such a
    /// credential are always refused. User name and password are never the
    /// reason of a failure.
    pub fn new(endpoint: String, auth: Option<Auth>, labels: Option<Vec<(String, String)>>) -> (r:
        Result<Self, MetricsError>)
        ensures
            match r {
                Ok(metrics) => {
                    &&& metrics.wf()
                    &&& metrics@.endpoint == endpoint@
                    &&& metrics@.authorization == authorization_value(auth)
                    &&& exists|hostname: Option<Seq<char>>|
                        metrics@.labels == static_label_set(labels.deep_view(), hostname)
                    &&& exists|disks: Seq<DiskReading>, networks: Seq<NetworkReading>|
                        metrics@.collector == initial_view(disks, networks)
                },
                Err(MetricsError::InvalidEndpoint) => !parses_as_url(endpoint@),
                Err(MetricsError::InvalidCredential) => parses_as_url(endpoint@) && !credential_valid(auth),
                Err(MetricsError::Collector(e)) => e is AlreadyRegistered,
            },
            !parses_as_url(endpoint@) || !credential_valid(auth) ==> r is Err,
            auth matches Some(Auth::Basic { .. }) ==> !(r matches Err(MetricsError::InvalidCredential)),
    {
        let collector = match Collector::new() {
            Ok(collector) => collector,
            Err(e) => {
                return Err(MetricsError::Collector(e));
            },
        };
        let hostname = get_hostname();
        Self::assemble(endpoint, auth, labels, collector, hostname)
    }

    /// The URL that snapshots are pushed to.
    pub fn endpoint(&self) -> (endpoint: &String)
        requires
            self.wf(),
        ensures
            endpoint@ == self@.endpoint,
            parses_as_url(endpoint@),
    {
        &self.endpoint
    }

    /// The labels attached to every series.
    pub fn labels(&self) -> (labels: &Vec<(String, String)>)
        ensures
            labels.deep_view() == self@.labels,
    {
        &self.labels
    }

    /// The value of the `Authorization` header, if there is to be one. It
    /// can always stand in a header.
    pub fn authorization(&self) -> (value: &Option<String>)
        requires
            self.wf(),
        ensures
            value.deep_view() == self@.authorization,
            value matches Some(text) ==> header_value_valid(text@),
    {
        &self.authorization
    }

    /// Writes a reading into the series and takes the snapshot to push, in
    /// one step: nothing can be gathered between the two.
    pub fn apply_and_gather(&mut self, reading: &HostReading) -> (snapshot: Snapshot)
        requires
            old(self).wf(),
        ensures
            final(self).wf(),
            final(self)@ == (MetricsView {
                collector: old(self)@.collector.collected(*reading),
                ..old(self)@
            }),
            samples_view(snapshot.samples@) == final(self)@.collector.series,
            identities_distinct(samples_view(snapshot.samples@)),
            snapshot.families@ == families_of(final(self)@.collector.series),
    {
        self.collector.apply(reading);
        proof {
            self.collector.lemma_wf();
        }
        Snapshot { samples: self.collector.gather(), families: self.collector.families() }
    }

    /// Samples the host, writes the reading into the series and takes the
    /// snapshot to push, in one step.
    pub fn collect_and_gather(&mut self) -> (snapshot: Snapshot)
        requires
            old(self).wf(),
        ensures
            final(self).wf(),
            exists|reading: HostReading|
                final(self)@.collector == #[trigger] old(self)@.collector.collected(reading),
            final(self)@.endpoint == old(self)@.endpoint,
            final(self)@.labels == old(self)@.labels,
            final(self)@.authorization == old(self)@.authorization,
            samples_view(snapshot.samples@) == final(self)@.collector.series,
            identities_distinct(samples_view(snapshot.samples@)),
            snapshot.families@ == families_of(final(self)@.collector.series),
    {
        self.collector.collect();
        proof {
            self.collector.lemma_wf();
        }
        Snapshot { samples: self.collector.gather(), families: self.collector.families() }
    }
}

} // verus!
