//! The wire data model of the feature catalogue, the control-plane endpoint
//! paths, and the registration and metrics payloads.
use vstd::prelude::*;
use vstd::string::StrSliceExecFns;
use vstd::string::StringExecFns;
use crate::vercmp::Version;

verus! {

// ------------------------------------------------------------- endpoints

/// The base URL with every trailing slash removed.
pub open spec fn spec_trim_trailing_slashes(s: Seq<char>) -> Seq<char>
    decreases s.len(),
{
    if s.len() > 0 && s.last() == '/' {
        spec_trim_trailing_slashes(s.drop_last())
    } else {
        s
    }
}

pub open spec fn spec_features_endpoint(api_url: Seq<char>) -> Seq<char> {
    spec_trim_trailing_slashes(api_url) + "/client/features"@
}

pub open spec fn spec_register_endpoint(api_url: Seq<char>) -> Seq<char> {
    spec_trim_trailing_slashes(api_url) + "/client/register"@
}

pub open spec fn spec_metrics_endpoint(api_url: Seq<char>) -> Seq<char> {
    spec_trim_trailing_slashes(api_url) + "/client/metrics"@
}

fn trim_trailing_slashes(s: &str) -> (r: &str)
    ensures
        r@ == spec_trim_trailing_slashes(s@),
{
    let n = s.unicode_len();
    proof {
        assert(s@.take(n as int) =~= s@);
    }
    let mut end: usize = n;
    while end > 0 && s.get_char(end - 1) == '/'
        invariant
            0 <= end <= n,
            n == s@.len(),
            spec_trim_trailing_slashes(s@) == spec_trim_trailing_slashes(s@.take(end as int)),
        decreases end,
    {
        proof {
            assert(s@.take(end as int).last() == s@[end - 1]);
            assert(s@.take(end as int).drop_last() =~= s@.take(end as int - 1));
        }
        end -= 1;
    }
    proof {
        if end > 0 {
            assert(s@.take(end as int).last() == s@[end - 1]);
        }
        assert(spec_trim_trailing_slashes(s@.take(end as int)) == s@.take(end as int));
    }
    s.substring_char(0, end)
}

/// The URL of the feature catalogue endpoint: the base URL, trailing
/// slashes stripped, plus `/client/features`.
pub fn features_endpoint(api_url: &str) -> (r: String)
    ensures
        r@ == spec_features_endpoint(api_url@),
{
    let mut out: String = trim_trailing_slashes(api_url).to_owned();
    out.append("/client/features");
    out
}

/// Law: a trailing slash on the base URL never changes an endpoint.
pub proof fn lemma_trim_slash_idempotent(api_url: Seq<char>)
    ensures
        spec_trim_trailing_slashes(api_url.push('/')) == spec_trim_trailing_slashes(api_url),
{
    assert(api_url.push('/').last() == '/');
    assert(api_url.push('/').drop_last() =~= api_url);
}

/// Law: the features endpoint of a base URL with a trailing slash equals
/// the endpoint of the base URL without it.
pub proof fn lemma_features_endpoint_trailing_slash(api_url: Seq<char>)
    ensures
        spec_features_endpoint(api_url.push('/')) == spec_features_endpoint(api_url),
{
    lemma_trim_slash_idempotent(api_url);
}

/// Law: the register endpoint of a base URL with a trailing slash equals
/// the endpoint of the base URL without it.
pub proof fn lemma_register_endpoint_trailing_slash(api_url: Seq<char>)
    ensures
        spec_register_endpoint(api_url.push('/')) == spec_register_endpoint(api_url),
{
    lemma_trim_slash_idempotent(api_url);
}

/// Law: the metrics endpoint of a base URL with a trailing slash equals
/// the endpoint of the base URL without it.
pub proof fn lemma_metrics_endpoint_trailing_slash(api_url: Seq<char>)
    ensures
        spec_metrics_endpoint(api_url.push('/')) == spec_metrics_endpoint(api_url),
{
    lemma_trim_slash_idempotent(api_url);
}

// ------------------------------------------------------------ wire model

/// One activation strategy of a feature as it appears on the wire.
pub struct Strategy {
    pub name: String,
    pub parameters: Option<Vec<(String, String)>>,
    pub constraints: Option<Vec<Constraint>>,
}

/// One constraint gating a strategy.
pub struct Constraint {
    pub context_name: String,
    pub inverted: bool,
    pub case_insensitive: bool,
    pub expression: ConstraintExpression,
}

/// The typed payload of a constraint. Numeric values are carried as their
/// decimal literal text; dates as milliseconds since the epoch. An operator
/// this model does not know parses as `Unknown` and always evaluates false.
pub enum ConstraintExpression {
    In { values: Vec<String> },
    NotIn { values: Vec<String> },
    StrContains { values: Vec<String> },
    StrStartsWith { values: Vec<String> },
    StrEndsWith { values: Vec<String> },
    NumEq { value: String },
    NumGT { value: String },
    NumGTE { value: String },
    NumLT { value: String },
    NumLTE { value: String },
    SemverEq { value: Version },
    SemverGT { value: Version },
    SemverLT { value: Version },
    DateAfter { value: i64 },
    DateBefore { value: i64 },
    Unknown,
}

/// One weighted variant of a feature as it appears on the wire.
pub struct VariantDef {
    pub name: String,
    pub weight: u16,
    pub payload: Vec<(String, String)>,
    pub overrides: Option<Vec<VariantOverride>>,
}

/// A variant override: the variant is selected outright when the named
/// context field's value is among `values`.
pub struct VariantOverride {
    pub context_name: String,
    pub values: Vec<String>,
}

/// One feature of the catalogue.
pub struct ClientFeature {
    pub name: String,
    pub enabled: bool,
    pub strategies: Option<Vec<Strategy>>,
    pub variants: Option<Vec<VariantDef>>,
}

/// The feature catalogue document.
pub struct ClientFeatures {
    pub version: u32,
    pub features: Vec<ClientFeature>,
}

// -------------------------------------------------- registration, metrics

/// The one-shot registration payload.
pub struct Registration {
    pub app_name: String,
    pub instance_id: String,
    pub connection_id: String,
    pub sdk_version: String,
    pub strategies: Vec<String>,
    pub started: i64,
    pub interval: u64,
}

impl Registration {
    /// The URL of the registration endpoint.
    pub fn endpoint(api_url: &str) -> (r: String)
        ensures
            r@ == spec_register_endpoint(api_url@),
    {
        let mut out: String = trim_trailing_slashes(api_url).to_owned();
        out.append("/client/register");
        out
    }
}

impl Default for Registration {
    /// An empty registration with the default interval; the caller fills
    /// in identity and start time.
    fn default() -> (r: Registration)
        ensures
            r.app_name@.len() == 0,
            r.instance_id@.len() == 0,
            r.connection_id@.len() == 0,
            r.sdk_version@ == crate::version::spec_sdk_version(),
            r.strategies@.len() == 0,
            r.started == 0,
            r.interval == 15000,
    {
        Registration {
            app_name: String::new(),
            instance_id: String::new(),
            connection_id: String::new(),
            sdk_version: crate::version::get_sdk_version(),
            strategies: Vec::new(),
            started: 0,
            interval: 15000,
        }
    }
}

/// Per-toggle counters of one harvest.
pub struct ToggleMetrics {
    pub name: String,
    pub yes: u64,
    pub no: u64,
    pub variants: Vec<(String, u64)>,
}

/// The counters harvested from one retired snapshot.
pub struct MetricBucket {
    pub start: i64,
    pub stop: i64,
    pub toggles: Vec<ToggleMetrics>,
}

/// The metrics upload payload.
pub struct Metrics {
    pub app_name: String,
    pub instance_id: String,
    pub connection_id: String,
    pub bucket: MetricBucket,
}

impl Metrics {
    /// The URL of the metrics endpoint.
    pub fn endpoint(api_url: &str) -> (r: String)
        ensures
            r@ == spec_metrics_endpoint(api_url@),
    {
        let mut out: String = trim_trailing_slashes(api_url).to_owned();
        out.append("/client/metrics");
        out
    }
}

} // verus!
