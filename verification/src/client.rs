//! The primary interface: a builder, and a client that holds the current
//! compiled snapshot, answers evaluations against it, rotates it when a new
//! catalogue arrives, and prepares the registration and metrics payloads.
//! Transport, clock and randomness stay with the caller: the client takes
//! plain values and timestamps as arguments.
use vstd::prelude::*;
use vstd::string::StringExecFns;
use crate::api::{ClientFeatures, Metrics, Registration};
use crate::context::Context;
use crate::engine::{
    Snapshot,
    SpecFeature,
    compile,
    feature_compiles_to,
    harvest,
    snapshot_wf,
    spec_bump_toggle,
    spec_bump_variant,
    spec_catalogue_ok,
    spec_find_feature,
    spec_harvest_toggle,
    spec_is_enabled_det,
    spec_unknown_feature,
    spec_variant_choice,
};
use crate::context::props_view;
use crate::strutil;

verus! {

/// The variant handed back to callers of `get_variant_str`.
#[derive(Clone, Debug, Default, PartialEq, Eq)]
pub struct Variant {
    pub name: String,
    pub payload: Vec<(String, String)>,
    pub enabled: bool,
    pub feature_enabled: bool,
}

impl Variant {
    /// The sentinel returned when no variant applies.
    pub fn disabled(feature_enabled: bool) -> (r: Variant)
        ensures
            r.name@ == "disabled"@,
            r.payload@.len() == 0,
            !r.enabled,
            r.feature_enabled == feature_enabled,
    {
        Variant {
            name: String::from_str("disabled"),
            payload: Vec::new(),
            enabled: false,
            feature_enabled,
        }
    }
}

/// Builds a client: metric submission, string-keyed features, the poll
/// interval, and the names of host-registered strategies.
pub struct ClientBuilder {
    pub disable_metric_submission: bool,
    pub enable_str_features: bool,
    pub interval: u64,
    pub strategies: Vec<String>,
}

impl Default for ClientBuilder {
    /// Metric submission on, string features off, a 15 second interval.
    fn default() -> (r: ClientBuilder)
        ensures
            !r.disable_metric_submission,
            !r.enable_str_features,
            r.interval == 15000,
            r.strategies@.len() == 0,
    {
        ClientBuilder {
            disable_metric_submission: false,
            enable_str_features: false,
            interval: 15000,
            strategies: Vec::new(),
        }
    }
}

impl ClientBuilder {
    /// Turns metric submission off.
    pub fn disable_metric_submission(self) -> (r: Self)
        ensures
            r.disable_metric_submission,
            r.enable_str_features == self.enable_str_features,
            r.interval == self.interval,
            r.strategies == self.strategies,
    {
        ClientBuilder { disable_metric_submission: true, ..self }
    }

    /// Turns the string-keyed feature API on.
    pub fn enable_string_features(self) -> (r: Self)
        ensures
            r.enable_str_features,
            r.disable_metric_submission == self.disable_metric_submission,
            r.interval == self.interval,
            r.strategies == self.strategies,
    {
        ClientBuilder { enable_str_features: true, ..self }
    }

    /// Sets the poll interval, in milliseconds.
    pub fn interval(self, interval: u64) -> (r: Self)
        ensures
            r.interval == interval,
            r.disable_metric_submission == self.disable_metric_submission,
            r.enable_str_features == self.enable_str_features,
            r.strategies == self.strategies,
    {
        ClientBuilder { interval, ..self }
    }

    /// Registers a custom strategy name, announced to the control plane at
    /// registration. Custom strategy code runs with the host; features
    /// naming a strategy this engine cannot evaluate are skipped at
    /// compile time.
    pub fn strategy(self, name: &str) -> (r: Self)
        ensures
            strutil::strs_view(r.strategies@) == strutil::strs_view(self.strategies@).push(name@),
            r.disable_metric_submission == self.disable_metric_submission,
            r.enable_str_features == self.enable_str_features,
            r.interval == self.interval,
    {
        let mut strategies = self.strategies;
        let ghost pre = strategies@;
        strategies.push(name.to_owned());
        proof {
            assert(strutil::strs_view(strategies@) =~= strutil::strs_view(pre).push(name@));
        }
        ClientBuilder {
            disable_metric_submission: self.disable_metric_submission,
            enable_str_features: self.enable_str_features,
            interval: self.interval,
            strategies,
        }
    }

    /// Builds the client; the connection id is minted fresh.
    pub fn into_client(self, api_url: &str, app_name: &str, instance_id: &str) -> (r: Client)
        ensures
            client_wf(r),
            r.api_url@ == api_url@,
            r.app_name@ == app_name@,
            r.instance_id@ == instance_id@,
            r.connection_id@.len() == 36,
            r.interval == self.interval,
            r.disable_metric_submission == self.disable_metric_submission,
            r.enable_str_features == self.enable_str_features,
            r.strategies == self.strategies,
            r.snapshot is None,
    {
        Client {
            api_url: api_url.to_owned(),
            app_name: app_name.to_owned(),
            instance_id: instance_id.to_owned(),
            connection_id: new_connection_id(),
            interval: self.interval,
            disable_metric_submission: self.disable_metric_submission,
            enable_str_features: self.enable_str_features,
            strategies: self.strategies,
            snapshot: None,
            empty_context: Context::default(),
        }
    }
}

/// Relies on uuid::Uuid::new_v4 and its Display form: a fresh random UUID
/// in the canonical hyphenated form, which is 36 characters long. The
/// value is random, so nothing more is promised of it.
#[verifier::external_body]
fn new_connection_id() -> (r: String)
    ensures
        r@.len() == 36,
{
    uuid::Uuid::new_v4().to_string()
}

/// The client: identity, configuration, and the current snapshot. One
/// client serves many evaluations; the caller rotates the snapshot by
/// handing `memoise` or `poll_cycle` a freshly fetched catalogue.
pub struct Client {
    pub api_url: String,
    pub app_name: String,
    pub instance_id: String,
    pub connection_id: String,
    pub interval: u64,
    pub disable_metric_submission: bool,
    pub enable_str_features: bool,
    pub strategies: Vec<String>,
    pub snapshot: Option<Snapshot>,
    pub empty_context: Context,
}

/// An empty context: what an evaluation without a context uses.
pub open spec fn spec_ctx_empty(ctx: Context) -> bool {
    &&& ctx.user_id is None
    &&& ctx.session_id is None
    &&& ctx.remote_address is None
    &&& ctx.properties@.len() == 0
    &&& ctx.app_name@.len() == 0
    &&& ctx.environment@.len() == 0
    &&& ctx.current_time is None
}

/// The client invariant: any held snapshot is well-formed, and the stored
/// fallback context is empty.
pub open spec fn client_wf(c: Client) -> bool {
    &&& (c.snapshot matches Some(s) ==> snapshot_wf(s))
    &&& spec_ctx_empty(c.empty_context)
}

/// Everything but the snapshot is unchanged.
pub open spec fn client_static_eq(a: Client, b: Client) -> bool {
    &&& a.api_url == b.api_url
    &&& a.app_name == b.app_name
    &&& a.instance_id == b.instance_id
    &&& a.connection_id == b.connection_id
    &&& a.interval == b.interval
    &&& a.disable_metric_submission == b.disable_metric_submission
    &&& a.enable_str_features == b.enable_str_features
    &&& a.strategies == b.strategies
    &&& a.empty_context == b.empty_context
}

/// The context an evaluation uses: the caller's, or the empty fallback.
pub open spec fn spec_ctx_of(context: Option<&Context>, fallback: Context) -> Context {
    match context {
        Some(c) => *c,
        None => fallback,
    }
}

/// The snapshot's features after one toggle evaluation of `name`.
pub open spec fn spec_after_toggle(fs: Seq<SpecFeature>, name: Seq<char>, r: bool) -> Seq<
    SpecFeature,
> {
    let i = spec_find_feature(fs, name);
    if i >= 0 {
        fs.update(i, spec_bump_toggle(fs[i], r))
    } else {
        fs.push(spec_bump_toggle(spec_unknown_feature(name), r))
    }
}

/// The snapshot's features after one variant evaluation of `name`:
/// toggle counter bumped, then the chosen variant's counter (or the
/// disabled-variant counter for `ci == -1`).
pub open spec fn spec_after_variant(
    fs: Seq<SpecFeature>,
    name: Seq<char>,
    enabled: bool,
    ci: int,
) -> Seq<SpecFeature> {
    let i = spec_find_feature(fs, name);
    if i >= 0 {
        fs.update(i, spec_bump_variant(spec_bump_toggle(fs[i], enabled), ci))
    } else {
        fs.push(spec_bump_variant(spec_bump_toggle(spec_unknown_feature(name), enabled), ci))
    }
}

/// The feature `name` resolves to, or the unknown placeholder.
pub open spec fn spec_feature_or_unknown(fs: Seq<SpecFeature>, name: Seq<char>) -> SpecFeature {
    let i = spec_find_feature(fs, name);
    if i >= 0 {
        fs[i]
    } else {
        spec_unknown_feature(name)
    }
}

fn clone_strings(v: &Vec<String>) -> (r: Vec<String>)
    ensures
        r@.len() == v@.len(),
        forall|j: int| 0 <= j < v@.len() ==> #[trigger] r@[j]@ == v@[j]@,
{
    let mut out: Vec<String> = Vec::new();
    let mut i: usize = 0;
    while i < v.len()
        invariant
            0 <= i <= v@.len(),
            out@.len() == i,
            forall|j: int| 0 <= j < i ==> #[trigger] out@[j]@ == v@[j]@,
        decreases v@.len() - i,
    {
        out.push(v[i].clone());
        i += 1;
    }
    out
}

fn clone_pairs(v: &Vec<(String, String)>) -> (r: Vec<(String, String)>)
    ensures
        props_view(r@) == props_view(v@),
{
    let mut out: Vec<(String, String)> = Vec::new();
    let mut i: usize = 0;
    while i < v.len()
        invariant
            0 <= i <= v@.len(),
            out@.len() == i,
            forall|j: int|
                0 <= j < i ==> (#[trigger] out@[j]).0@ == v@[j].0@ && out@[j].1@ == v@[j].1@,
        decreases v@.len() - i,
    {
        let pair = (v[i].0.clone(), v[i].1.clone());
        out.push(pair);
        i += 1;
    }
    proof {
        assert(props_view(out@) =~= props_view(v@));
    }
    out
}

impl Client {
    /// The current snapshot, if any has been memoized.
    pub fn cached_state(&self) -> (r: &Option<Snapshot>)
        ensures
            *r == self.snapshot,
    {
        &self.snapshot
    }

    /// Whether a feature is enabled for a context. Without a snapshot the
    /// caller's default comes back untouched and nothing is recorded;
    /// otherwise the compiled rules decide and one toggle counter is
    /// bumped, with an unknown name recorded under a placeholder.
    pub fn is_enabled_str(
        &mut self,
        feature_name: &str,
        context: Option<&Context>,
        default: bool,
    ) -> (r: bool)
        requires
            client_wf(*old(self)),
        ensures
            client_wf(*final(self)),
            client_static_eq(*old(self), *final(self)),
            old(self).snapshot is None ==> r == default && final(self).snapshot is None,
            old(self).snapshot matches Some(s) ==> {
                let ctx = spec_ctx_of(context, old(self).empty_context);
                &&& (spec_is_enabled_det(s.sview(), feature_name@, ctx, default) matches Some(b)
                    ==> r == b)
                &&& final(self).snapshot matches Some(s2) && s2.started_at == s.started_at
                    && s2.sview() == spec_after_toggle(s.sview(), feature_name@, r)
            },
    {
        let snap_opt = self.snapshot.take();
        match snap_opt {
            None => default,
            Some(mut snap) => {
                let r = match context {
                    Some(c) => snap.eval_enabled(feature_name, c, default),
                    None => snap.eval_enabled(feature_name, &self.empty_context, default),
                };
                self.snapshot = Some(snap);
                r
            },
        }
    }

    /// The variant a context selects for a feature. Without a snapshot the
    /// disabled sentinel comes back; otherwise enablement is decided with
    /// default false, a variant is picked (override first, then the
    /// weight hash, then a uniform draw), and one toggle counter plus one
    /// variant counter are bumped.
    pub fn get_variant_str(&mut self, feature_name: &str, context: &Context) -> (r: Variant)
        requires
            client_wf(*old(self)),
        ensures
            client_wf(*final(self)),
            client_static_eq(*old(self), *final(self)),
            old(self).snapshot is None ==> final(self).snapshot is None && !r.enabled && !r
                .feature_enabled && r.name@ == "disabled"@,
            old(self).snapshot matches Some(s) ==> {
                let fs = s.sview();
                let f0 = spec_feature_or_unknown(fs, feature_name@);
                &&& (spec_is_enabled_det(fs, feature_name@, *context, false) matches Some(b) ==> r
                    .feature_enabled == b)
                &&& (spec_variant_choice(f0, r.feature_enabled, *context) matches Some(c) ==> (if c
                    < 0 {
                    !r.enabled && r.name@ == "disabled"@ && r.payload@.len() == 0
                } else {
                    r.enabled && r.name@ == f0.variants[c].name && props_view(r.payload@)
                        == f0.variants[c].payload
                }))
                &&& (r.feature_enabled && f0.variants.len() > 0 ==> r.enabled)
                &&& (!r.feature_enabled ==> !r.enabled)
                &&& final(self).snapshot matches Some(s2) && s2.started_at == s.started_at && (
                exists|ci: int|
                    -1 <= ci < f0.variants.len() && (ci >= 0 <==> r.enabled)
                        && #[trigger] spec_after_variant(fs, feature_name@, r.feature_enabled, ci)
                        == s2.sview())
            },
    {
        let snap_opt = self.snapshot.take();
        match snap_opt {
            None => Variant::disabled(false),
            Some(mut snap) => {
                let ghost fs = snap.sview();
                let ghost f0 = spec_feature_or_unknown(fs, feature_name@);
                let outcome = snap.eval_variant(feature_name, context);
                proof {
                    let ghost ci = match outcome.chosen {
                        Some(ix) => ix as int,
                        None => -1,
                    };
                    assert(spec_after_variant(fs, feature_name@, outcome.feature_enabled, ci)
                        == snap.sview());
                }
                let r: Variant = match outcome.chosen {
                    None => Variant::disabled(outcome.feature_enabled),
                    Some(ix) => {
                        let ghost ci = ix as int;
                        let ghost fi = outcome.feature_index as int;
                        proof {
                            let i0 = spec_find_feature(fs, feature_name@);
                            crate::engine::lemma_find_feature_props(fs, feature_name@);
                            let bumped = spec_bump_variant(
                                spec_bump_toggle(f0, outcome.feature_enabled),
                                ci,
                            );
                            if i0 >= 0 {
                                assert(fi == i0);
                                assert(snap.sview() == fs.update(i0, bumped));
                                assert(snap.sview()[fi] == bumped);
                            } else {
                                assert(fi == fs.len());
                                assert(snap.sview() == fs.push(bumped));
                                assert(snap.sview()[fi] == bumped);
                            }
                            assert(spec_bump_toggle(f0, outcome.feature_enabled).variants
                                == f0.variants);
                            assert(snap.sview()[fi].variants == f0.variants.update(
                                ci,
                                crate::engine::spec_bump_vcount(f0.variants[ci]),
                            ));
                            assert(snap.sview()[fi] == snap.features@[fi].fview());
                            assert(snap.features@[fi].fview().variants[ci].name == f0.variants[
                                ci
                            ].name);
                            assert(snap.features@[fi].fview().variants[ci]
                                == snap.features@[fi].variants@[ci].vview());
                        }
                        let fref = &snap.features[outcome.feature_index];
                        let vref = &fref.variants[ix];
                        Variant {
                            name: vref.name.clone(),
                            payload: clone_pairs(&vref.payload),
                            enabled: true,
                            feature_enabled: true,
                        }
                    },
                };
                proof {
                    let ghost ci = match outcome.chosen {
                        Some(ix) => ix as int,
                        None => -1,
                    };
                    assert(-1 <= ci < f0.variants.len() && (ci >= 0 <==> r.enabled)
                        && spec_after_variant(fs, feature_name@, r.feature_enabled, ci)
                        == snap.sview());
                }
                self.snapshot = Some(snap);
                r
            },
        }
    }

    /// Compiles a fresh catalogue and rotates it in. The retired
    /// snapshot, if any, is harvested into a metrics payload: the swap
    /// happens first, so no evaluation ever sees a half-built snapshot.
    pub fn memoise(&mut self, features: ClientFeatures, now: i64) -> (r: Option<Metrics>)
        requires
            client_wf(*old(self)),
            spec_catalogue_ok(features),
        ensures
            client_wf(*final(self)),
            client_static_eq(*old(self), *final(self)),
            final(self).snapshot matches Some(s2) && s2.started_at == now && s2.sview().len()
                == features.features@.len() && (forall|i: int|
                0 <= i < features.features@.len() ==> feature_compiles_to(
                    #[trigger] features.features@[i],
                    s2.sview()[i],
                )),
            old(self).snapshot is None ==> r is None,
            old(self).snapshot matches Some(s) ==> r matches Some(m) && m.app_name == old(
                self,
            ).app_name && m.instance_id == old(self).instance_id && m.connection_id == old(
                self,
            ).connection_id && m.bucket.start == s.started_at && m.bucket.stop == now
                && m.bucket.toggles@.map_values(|t: crate::api::ToggleMetrics| t.tview())
                == s.sview().map_values(|f: SpecFeature| spec_harvest_toggle(f)),
    {
        let new_snap = compile(features, now);
        let old_snap = self.snapshot.take();
        self.snapshot = Some(new_snap);
        match old_snap {
            None => None,
            Some(s) => {
                let bucket = harvest(s, now);
                Some(
                    Metrics {
                        app_name: self.app_name.clone(),
                        instance_id: self.instance_id.clone(),
                        connection_id: self.connection_id.clone(),
                        bucket,
                    },
                )
            },
        }
    }

    /// One cycle of the poll loop's decision logic. A failed fetch leaves
    /// everything untouched; a fetched catalogue rotates the snapshot,
    /// and the harvested metrics come back for posting unless submission
    /// is disabled.
    pub fn poll_cycle(&mut self, event: PollEvent, now: i64) -> (r: Option<Metrics>)
        requires
            client_wf(*old(self)),
            event matches PollEvent::Features(c) ==> spec_catalogue_ok(c),
        ensures
            client_wf(*final(self)),
            client_static_eq(*old(self), *final(self)),
            event is FetchFailed ==> *final(self) == *old(self) && r is None,
            event matches PollEvent::Features(c) ==> {
                &&& final(self).snapshot matches Some(s2) && s2.started_at == now
                    && s2.sview().len() == c.features@.len() && (forall|i: int|
                    0 <= i < c.features@.len() ==> feature_compiles_to(
                        #[trigger] c.features@[i],
                        s2.sview()[i],
                    ))
                &&& (r is Some <==> old(self).snapshot is Some && !old(
                    self,
                ).disable_metric_submission)
                &&& (old(self).snapshot matches Some(s) ==> (!old(
                    self,
                ).disable_metric_submission ==> (r matches Some(m) && m.bucket.start
                    == s.started_at && m.bucket.stop == now && m.bucket.toggles@.map_values(
                    |t: crate::api::ToggleMetrics| t.tview(),
                ) == s.sview().map_values(|f: SpecFeature| spec_harvest_toggle(f)))))
            },
    {
        match event {
            PollEvent::FetchFailed => None,
            PollEvent::Features(c) => {
                let metrics = self.memoise(c, now);
                if self.disable_metric_submission {
                    None
                } else {
                    metrics
                }
            },
        }
    }

    /// The registration payload announced once at startup: identity, SDK
    /// version, the registered strategy names, the caller's clock reading
    /// and the poll interval.
    pub fn register_payload(&self, now: i64) -> (r: Registration)
        ensures
            r.app_name == self.app_name,
            r.instance_id == self.instance_id,
            r.connection_id == self.connection_id,
            r.sdk_version@ == crate::version::spec_sdk_version(),
            r.strategies@.len() == self.strategies@.len(),
            forall|j: int| 0 <= j < self.strategies@.len() ==> #[trigger] r.strategies@[j]@
                == self.strategies@[j]@,
            r.started == now,
            r.interval == self.interval,
    {
        Registration {
            app_name: self.app_name.clone(),
            instance_id: self.instance_id.clone(),
            connection_id: self.connection_id.clone(),
            sdk_version: crate::version::get_sdk_version(),
            strategies: clone_strings(&self.strategies),
            started: now,
            interval: self.interval,
        }
    }
}

/// Law: counter conservation. While no counter has pinned at its top, one
/// decided evaluation adds exactly one to the summed yes/no counters of
/// the snapshot, whatever it returned and whether the feature was known.
pub proof fn lemma_counter_conservation(fs: Seq<SpecFeature>, name: Seq<char>, r: bool)
    requires
        forall|i: int|
            0 <= i < fs.len() ==> (#[trigger] fs[i]).yes < u64::MAX && fs[i].no < u64::MAX,
    ensures
        crate::engine::spec_toggle_total(spec_after_toggle(fs, name, r))
            == crate::engine::spec_toggle_total(fs) + 1,
{
    let i = spec_find_feature(fs, name);
    crate::engine::lemma_find_feature_props(fs, name);
    if i >= 0 {
        let f2 = spec_bump_toggle(fs[i], r);
        crate::engine::lemma_toggle_total_update(fs, i, f2);
    } else {
        let f2 = spec_bump_toggle(spec_unknown_feature(name), r);
        crate::engine::lemma_toggle_total_push(fs, f2);
    }
}

/// What one poll cycle observed: a decoded catalogue, or a failed fetch.
pub enum PollEvent {
    Features(ClientFeatures),
    FetchFailed,
}

} // verus!
