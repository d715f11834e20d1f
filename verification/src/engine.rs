//! The feature compiler and the evaluator: a catalogue compiles into a
//! snapshot of per-feature strategy lists, variant tables and usage
//! counters; evaluation looks a feature up, runs its strategies in order,
//! selects a variant, and bumps exactly one toggle counter and one variant
//! counter per call.
use vstd::prelude::*;
use vstd::string::StringExecFns;
use crate::api::{ClientFeature, ClientFeatures, Constraint, MetricBucket, Strategy, ToggleMetrics, VariantDef, VariantOverride};
use crate::constraint::{
    ContextField,
    SpecConstraint,
    SpecField,
    cons_views,
    field_of,
    field_str,
    spec_compile_constraint,
    spec_field_of,
    spec_field_str,
};
use crate::context::{Context, opt_str_view, props_view};
use crate::hash;
use crate::strategy::{
    CompiledStrategy,
    ConstrainedStrategy,
    SpecStrategy,
    constrain,
    evaluate_constrained,
    flexible_rollout,
    hostname,
    random,
    remote_address,
    session_id,
    spec_constrained_det,
    spec_flexible_rollout,
    spec_group_of,
    spec_ips_of,
    spec_param,
    spec_pct_of,
    spec_rollout_of,
    user_id,
    user_with_id,
};
use crate::strutil;

verus! {

// -------------------------------------------------------------- types

/// A compiled variant override.
pub struct CompiledOverride {
    pub field: ContextField,
    pub values: Vec<String>,
}

/// A compiled weighted variant with its usage counter.
pub struct CompiledVariant {
    pub name: String,
    pub weight: u16,
    pub payload: Vec<(String, String)>,
    pub overrides: Vec<CompiledOverride>,
    pub count: u64,
}

/// A compiled feature: its short-circuit flags, ordered strategies,
/// variant table and counters.
pub struct CompiledFeature {
    pub name: String,
    pub known: bool,
    pub disabled: bool,
    pub strategies: Vec<ConstrainedStrategy>,
    pub variants: Vec<CompiledVariant>,
    pub yes: u64,
    pub no: u64,
    pub disabled_variant_count: u64,
}

/// A compiled snapshot of the whole catalogue.
pub struct Snapshot {
    pub started_at: i64,
    pub features: Vec<CompiledFeature>,
}

// -------------------------------------------------------------- views

pub struct SpecOverride {
    pub field: SpecField,
    pub values: Seq<Seq<char>>,
}

pub struct SpecVariant {
    pub name: Seq<char>,
    pub weight: u16,
    pub payload: Seq<(Seq<char>, Seq<char>)>,
    pub overrides: Seq<SpecOverride>,
    pub count: u64,
}

pub struct SpecConstrained {
    pub constraints: Seq<SpecConstraint>,
    pub strategy: SpecStrategy,
}

pub struct SpecFeature {
    pub name: Seq<char>,
    pub known: bool,
    pub disabled: bool,
    pub strategies: Seq<SpecConstrained>,
    pub variants: Seq<SpecVariant>,
    pub yes: u64,
    pub no: u64,
    pub disabled_variant_count: u64,
}

impl CompiledOverride {
    pub open spec fn oview(&self) -> SpecOverride {
        SpecOverride { field: self.field.fview(), values: strutil::strs_view(self.values@) }
    }
}

impl CompiledVariant {
    pub open spec fn vview(&self) -> SpecVariant {
        SpecVariant {
            name: self.name@,
            weight: self.weight,
            payload: props_view(self.payload@),
            overrides: self.overrides@.map_values(|o: CompiledOverride| o.oview()),
            count: self.count,
        }
    }
}

impl ConstrainedStrategy {
    pub open spec fn csview(&self) -> SpecConstrained {
        SpecConstrained { constraints: cons_views(self.constraints@), strategy: self.strategy.sview() }
    }
}

impl CompiledFeature {
    pub open spec fn fview(&self) -> SpecFeature {
        SpecFeature {
            name: self.name@,
            known: self.known,
            disabled: self.disabled,
            strategies: self.strategies@.map_values(|s: ConstrainedStrategy| s.csview()),
            variants: self.variants@.map_values(|v: CompiledVariant| v.vview()),
            yes: self.yes,
            no: self.no,
            disabled_variant_count: self.disabled_variant_count,
        }
    }
}

impl Snapshot {
    pub open spec fn sview(&self) -> Seq<SpecFeature> {
        self.features@.map_values(|f: CompiledFeature| f.fview())
    }
}

// ----------------------------------------------------------------- wf

/// The sum of the variant weights.
pub open spec fn spec_weight_sum(vs: Seq<SpecVariant>) -> int
    decreases vs.len(),
{
    if vs.len() == 0 {
        0
    } else {
        spec_weight_sum(vs.drop_first()) + vs[0].weight
    }
}

/// A compiled feature is well-formed: strategies carry well-formed
/// networks, kept variants weigh at least one, and the weights sum within
/// the hash modulus range.
pub open spec fn cfeature_wf(f: CompiledFeature) -> bool {
    &&& forall|i: int| 0 <= i < f.strategies@.len() ==> (#[trigger] f.strategies@[i]).wf()
    &&& forall|i: int| 0 <= i < f.variants@.len() ==> (#[trigger] f.variants@[i]).weight >= 1
    &&& spec_weight_sum(f.fview().variants) <= u32::MAX
}

pub open spec fn snapshot_wf(s: Snapshot) -> bool {
    forall|i: int| 0 <= i < s.features@.len() ==> cfeature_wf(#[trigger] s.features@[i])
}

// ------------------------------------------------------- decision specs

/// First index of the feature with this name, or -1.
pub open spec fn spec_find_feature(fs: Seq<SpecFeature>, name: Seq<char>) -> int
    decreases fs.len(),
{
    if fs.len() == 0 {
        -1
    } else if fs[0].name == name {
        0
    } else {
        let r = spec_find_feature(fs.drop_first(), name);
        if r < 0 {
            -1
        } else {
            r + 1
        }
    }
}

pub proof fn lemma_find_feature_props(fs: Seq<SpecFeature>, name: Seq<char>)
    ensures
        spec_find_feature(fs, name) >= 0 ==> spec_find_feature(fs, name) < fs.len() && fs[
            spec_find_feature(fs, name)
        ].name == name,
        spec_find_feature(fs, name) < 0 ==> forall|j: int|
            0 <= j < fs.len() ==> (#[trigger] fs[j]).name != name,
    decreases fs.len(),
{
    if fs.len() > 0 && fs[0].name != name {
        lemma_find_feature_props(fs.drop_first(), name);
        let r = spec_find_feature(fs.drop_first(), name);
        if r >= 0 {
            assert(fs[r + 1] == fs.drop_first()[r]);
        } else {
            assert forall|j: int| 0 <= j < fs.len() implies (#[trigger] fs[j]).name != name by {
                if j > 0 {
                    assert(fs[j] == fs.drop_first()[j - 1]);
                }
            }
        }
    }
}

proof fn lemma_find_feature_first(fs: Seq<SpecFeature>, name: Seq<char>, k: int)
    requires
        0 <= k < fs.len(),
        fs[k].name == name,
        forall|j: int| 0 <= j < k ==> (#[trigger] fs[j]).name != name,
    ensures
        spec_find_feature(fs, name) == k,
    decreases fs.len(),
{
    if k > 0 {
        assert(forall|j: int|
            0 <= j < fs.drop_first().len() ==> #[trigger] fs.drop_first()[j] == fs[j + 1]);
        lemma_find_feature_first(fs.drop_first(), name, k - 1);
    }
}

/// What the ordered strategies decide together: true as soon as one
/// matches; `None` where a random strategy leaves it open.
pub open spec fn spec_strategies_result(ss: Seq<SpecConstrained>, ctx: Context) -> Option<bool>
    decreases ss.len(),
{
    if ss.len() == 0 {
        Some(false)
    } else {
        let first = spec_constrained_det(ss[0].constraints, ss[0].strategy, ctx);
        let rest = spec_strategies_result(ss.drop_first(), ctx);
        match first {
            Some(true) => Some(true),
            Some(false) => rest,
            None => if rest == Some(true) {
                Some(true)
            } else {
                None
            },
        }
    }
}

/// Whether one feature is enabled for a context: disabled short-circuits;
/// an empty strategy list means unconditionally on for a known feature and
/// the caller's default for an unknown one; otherwise the strategies
/// decide, falling back to false (known) or the default (unknown).
pub open spec fn spec_feature_enabled(f: SpecFeature, ctx: Context, default: bool) -> Option<bool> {
    if f.disabled {
        Some(false)
    } else if f.strategies.len() == 0 {
        Some(
            if f.known {
                true
            } else {
                default
            },
        )
    } else {
        match spec_strategies_result(f.strategies, ctx) {
            Some(true) => Some(true),
            Some(false) => Some(
                if f.known {
                    false
                } else {
                    default
                },
            ),
            None => None,
        }
    }
}

/// The is-enabled decision over a whole snapshot: an absent feature yields
/// the caller's default.
pub open spec fn spec_is_enabled_det(
    fs: Seq<SpecFeature>,
    name: Seq<char>,
    ctx: Context,
    default: bool,
) -> Option<bool> {
    let i = spec_find_feature(fs, name);
    if i < 0 {
        Some(default)
    } else {
        spec_feature_enabled(fs[i], ctx, default)
    }
}

// -------------------------------------------------------- counter specs

/// A counter increment that pins at the top instead of wrapping.
pub open spec fn spec_inc_sat(x: u64) -> u64 {
    if x == u64::MAX {
        x
    } else {
        (x + 1) as u64
    }
}

fn inc_sat(x: u64) -> (r: u64)
    ensures
        r == spec_inc_sat(x),
{
    if x == u64::MAX {
        x
    } else {
        x + 1
    }
}

/// The feature with its yes or no counter bumped.
pub open spec fn spec_bump_toggle(f: SpecFeature, enabled: bool) -> SpecFeature {
    SpecFeature {
        name: f.name,
        known: f.known,
        disabled: f.disabled,
        strategies: f.strategies,
        variants: f.variants,
        yes: if enabled {
            spec_inc_sat(f.yes)
        } else {
            f.yes
        },
        no: if enabled {
            f.no
        } else {
            spec_inc_sat(f.no)
        },
        disabled_variant_count: f.disabled_variant_count,
    }
}

/// The placeholder recorded for a feature the catalogue does not know.
pub open spec fn spec_unknown_feature(name: Seq<char>) -> SpecFeature {
    SpecFeature {
        name,
        known: false,
        disabled: false,
        strategies: Seq::empty(),
        variants: Seq::empty(),
        yes: 0,
        no: 0,
        disabled_variant_count: 0,
    }
}

// ----------------------------------------------------------- evaluation

fn eval_strategies(ss: &Vec<ConstrainedStrategy>, ctx: &Context) -> (r: bool)
    requires
        forall|i: int| 0 <= i < ss@.len() ==> (#[trigger] ss@[i]).wf(),
    ensures
        spec_strategies_result(csviews(ss@), *ctx) matches Some(b) ==> r == b,
{
    let ghost full = csviews(ss@);
    let mut i: usize = 0;
    proof {
        assert(full.skip(0) =~= full);
    }
    while i < ss.len()
        invariant
            0 <= i <= ss@.len(),
            full == csviews(ss@),
            forall|k: int| 0 <= k < ss@.len() ==> (#[trigger] ss@[k]).wf(),
            spec_strategies_result(full, *ctx) matches Some(b) ==> spec_strategies_result(
                full.skip(i as int),
                *ctx,
            ) == Some(b),
        decreases ss@.len() - i,
    {
        proof {
            assert(full.skip(i as int).len() == full.len() - i);
            assert(full.skip(i as int)[0] == full[i as int]);
            assert(full[i as int] == ss@[i as int].csview());
            assert(full.skip(i as int).drop_first() =~= full.skip(i as int + 1));
        }
        let res = evaluate_constrained(&ss[i], ctx);
        if res {
            proof {
                let first = spec_constrained_det(
                    full[i as int].constraints,
                    full[i as int].strategy,
                    *ctx,
                );
                let whole = spec_strategies_result(full, *ctx);
                if whole is Some && !whole->Some_0 {
                    assert(spec_strategies_result(full.skip(i as int), *ctx) == Some(false));
                    assert(first is Some && !first->Some_0);
                    assert(false);
                }
            }
            return true;
        }
        proof {
            let first = spec_constrained_det(
                full[i as int].constraints,
                full[i as int].strategy,
                *ctx,
            );
            let whole = spec_strategies_result(full, *ctx);
            if whole is Some {
                let b = whole->Some_0;
                assert(spec_strategies_result(full.skip(i as int), *ctx) == Some(b));
                if b {
                    assert(spec_strategies_result(full.skip(i as int + 1), *ctx) == Some(true));
                } else {
                    assert(first == Some(false));
                    assert(spec_strategies_result(full.skip(i as int + 1), *ctx) == Some(false));
                }
            }
        }
        i += 1;
    }
    proof {
        assert(full.skip(ss@.len() as int) =~= Seq::<SpecConstrained>::empty());
    }
    false
}

/// The views of a constrained strategy list.
pub open spec fn csviews(ss: Seq<ConstrainedStrategy>) -> Seq<SpecConstrained> {
    ss.map_values(|s: ConstrainedStrategy| s.csview())
}

fn feature_enabled_decision(f: &CompiledFeature, ctx: &Context, default: bool) -> (r: bool)
    requires
        cfeature_wf(*f),
    ensures
        spec_feature_enabled(f.fview(), *ctx, default) matches Some(b) ==> r == b,
{
    if f.disabled {
        return false;
    }
    if f.strategies.len() == 0 {
        return if f.known {
            true
        } else {
            default
        };
    }
    proof {
        assert(forall|i: int|
            0 <= i < f.strategies@.len() ==> (#[trigger] f.strategies@[i]).wf());
        assert(f.fview().strategies =~= csviews(f.strategies@));
    }
    let any = eval_strategies(&f.strategies, ctx);
    if any {
        true
    } else if f.known {
        false
    } else {
        default
    }
}

fn make_unknown(name: &str) -> (r: CompiledFeature)
    ensures
        r.fview() == spec_unknown_feature(name@),
        cfeature_wf(r),
{
    let r = CompiledFeature {
        name: name.to_owned(),
        known: false,
        disabled: false,
        strategies: Vec::new(),
        variants: Vec::new(),
        yes: 0,
        no: 0,
        disabled_variant_count: 0,
    };
    proof {
        assert(r.fview().strategies =~= Seq::<SpecConstrained>::empty());
        assert(r.fview().variants =~= Seq::<SpecVariant>::empty());
        assert(r.fview() == spec_unknown_feature(name@));
    }
    r
}

impl Snapshot {
    fn find_feature(&self, name: &str) -> (r: Option<usize>)
        ensures
            match r {
                Some(i) => spec_find_feature(self.sview(), name@) == i && i < self.features@.len(),
                None => spec_find_feature(self.sview(), name@) < 0,
            },
    {
        let ghost fs = self.sview();
        let mut i: usize = 0;
        while i < self.features.len()
            invariant
                0 <= i <= self.features@.len(),
                fs == self.sview(),
                fs.len() == self.features@.len(),
                forall|j: int| 0 <= j < i ==> (#[trigger] fs[j]).name != name@,
            decreases self.features@.len() - i,
        {
            proof {
                assert(fs[i as int] == self.features@[i as int].fview());
            }
            if strutil::str_eq(self.features[i].name.as_str(), name) {
                proof {
                    lemma_find_feature_first(fs, name@, i as int);
                }
                return Some(i);
            }
            i += 1;
        }
        proof {
            lemma_find_feature_props(fs, name@);
            if spec_find_feature(fs, name@) >= 0 {
                assert(fs[spec_find_feature(fs, name@)].name == name@);
            }
        }
        None
    }

    /// One is-enabled evaluation: looks the feature up (recording a
    /// placeholder for an unknown name), decides per the compiled rules,
    /// and bumps exactly one of the feature's yes/no counters.
    pub fn eval_enabled(&mut self, name: &str, ctx: &Context, default: bool) -> (r: bool)
        requires
            snapshot_wf(*old(self)),
        ensures
            snapshot_wf(*final(self)),
            final(self).started_at == old(self).started_at,
            spec_is_enabled_det(old(self).sview(), name@, *ctx, default) matches Some(b) ==> r
                == b,
            ({
                let fs = old(self).sview();
                let i = spec_find_feature(fs, name@);
                if i >= 0 {
                    final(self).sview() == fs.update(i, spec_bump_toggle(fs[i], r))
                } else {
                    final(self).sview() == fs.push(
                        spec_bump_toggle(spec_unknown_feature(name@), r),
                    )
                }
            }),
    {
        let ghost fs0 = self.sview();
        let ghost found = spec_find_feature(fs0, name@);
        let i: usize = match self.find_feature(name) {
            Some(i) => i,
            None => {
                let placeholder = make_unknown(name);
                let idx = self.features.len();
                self.features.push(placeholder);
                proof {
                    assert(self.sview() =~= fs0.push(spec_unknown_feature(name@)));
                    assert(snapshot_wf(*self)) by {
                        assert(forall|j: int|
                            0 <= j < fs0.len() ==> self.features@[j] == #[trigger] old(
                                self,
                            ).features@[j]);
                        assert(cfeature_wf(self.features@[fs0.len() as int]));
                    }
                }
                idx
            },
        };
        let ghost fs1 = self.sview();
        proof {
            assert(i < self.features@.len());
            assert(self.features@[i as int].fview() == fs1[i as int]);
            assert(cfeature_wf(self.features@[i as int]));
            if found >= 0 {
                assert(fs1 == fs0);
                assert(fs1[i as int] == fs0[found]);
            } else {
                assert(fs1[i as int] == spec_unknown_feature(name@));
            }
        }
        let r = feature_enabled_decision(&self.features[i], ctx, default);
        proof {
            if found < 0 {
                assert(spec_feature_enabled(spec_unknown_feature(name@), *ctx, default) == Some(
                    default,
                ));
                assert(r == default);
            }
        }
        let ghost pre_features = self.features@;
        let mut f = self.features.remove(i);
        if r {
            f.yes = inc_sat(f.yes);
        } else {
            f.no = inc_sat(f.no);
        }
        proof {
            assert(f.fview() == spec_bump_toggle(fs1[i as int], r));
            assert(cfeature_wf(f)) by {
                assert(f.strategies@ == pre_features[i as int].strategies@);
                assert(f.variants@ == pre_features[i as int].variants@);
                assert(f.fview().variants == pre_features[i as int].fview().variants);
            }
        }
        self.features.insert(i, f);
        proof {
            assert(self.features@ =~= pre_features.update(i as int, f));
            assert(self.sview() =~= fs1.update(i as int, spec_bump_toggle(fs1[i as int], r)));
            assert(snapshot_wf(*self)) by {
                assert(forall|j: int|
                    0 <= j < pre_features.len() && j != i ==> self.features@[j]
                        == #[trigger] pre_features[j]);
                assert(self.features@[i as int] == f);
            }
            if found >= 0 {
                assert(self.sview() =~= fs0.update(found, spec_bump_toggle(fs0[found], r)));
            } else {
                assert(self.sview() =~= fs0.push(
                    spec_bump_toggle(spec_unknown_feature(name@), r),
                ));
            }
        }
        r
    }
}

// -------------------------------------------------------------- variants

/// The views of a compiled variant list.
pub open spec fn vviews(vs: Seq<CompiledVariant>) -> Seq<SpecVariant> {
    vs.map_values(|v: CompiledVariant| v.vview())
}

/// Whether one override selects its variant: the named context field's
/// value is among the override's values.
pub open spec fn spec_override_matches(o: SpecOverride, ctx: Context) -> bool {
    match spec_field_str(o.field, ctx) {
        Some(v) => strutil::spec_str_list_has(o.values, v),
        None => false,
    }
}

pub open spec fn spec_variant_overridden(v: SpecVariant, ctx: Context) -> bool {
    exists|i: int| 0 <= i < v.overrides.len() && spec_override_matches(#[trigger] v.overrides[i], ctx)
}

/// First variant selected by an override, or -1.
pub open spec fn spec_first_override(vs: Seq<SpecVariant>, ctx: Context) -> int
    decreases vs.len(),
{
    if vs.len() == 0 {
        -1
    } else if spec_variant_overridden(vs[0], ctx) {
        0
    } else {
        let r = spec_first_override(vs.drop_first(), ctx);
        if r < 0 {
            -1
        } else {
            r + 1
        }
    }
}

proof fn lemma_first_override_first(vs: Seq<SpecVariant>, ctx: Context, k: int)
    requires
        0 <= k < vs.len(),
        spec_variant_overridden(vs[k], ctx),
        forall|j: int| 0 <= j < k ==> !spec_variant_overridden(#[trigger] vs[j], ctx),
    ensures
        spec_first_override(vs, ctx) == k,
    decreases vs.len(),
{
    if k > 0 {
        assert(forall|j: int|
            0 <= j < vs.drop_first().len() ==> #[trigger] vs.drop_first()[j] == vs[j + 1]);
        lemma_first_override_first(vs.drop_first(), ctx, k - 1);
    }
}

proof fn lemma_first_override_none(vs: Seq<SpecVariant>, ctx: Context)
    requires
        forall|j: int| 0 <= j < vs.len() ==> !spec_variant_overridden(#[trigger] vs[j], ctx),
    ensures
        spec_first_override(vs, ctx) < 0,
    decreases vs.len(),
{
    if vs.len() > 0 {
        assert(forall|j: int|
            0 <= j < vs.drop_first().len() ==> #[trigger] vs.drop_first()[j] == vs[j + 1]);
        lemma_first_override_none(vs.drop_first(), ctx);
    }
}

/// The hash identifier of a context: the first of user id, session id, or
/// the address's canonical text.
pub open spec fn spec_identifier(ctx: Context) -> Option<Seq<char>> {
    match opt_str_view(ctx.user_id) {
        Some(u) => Some(u),
        None => match opt_str_view(ctx.session_id) {
            Some(s) => Some(s),
            None => match ctx.remote_address {
                Some(a) => Some(a.text@),
                None => None,
            },
        },
    }
}

/// The first variant whose running weight total reaches `target`, or -1.
pub open spec fn spec_select_by_weight(vs: Seq<SpecVariant>, target: int) -> int
    decreases vs.len(),
{
    if vs.len() == 0 {
        -1
    } else if vs[0].weight >= target {
        0
    } else {
        let r = spec_select_by_weight(vs.drop_first(), target - vs[0].weight);
        if r < 0 {
            -1
        } else {
            r + 1
        }
    }
}

proof fn lemma_select_in_range(vs: Seq<SpecVariant>, target: int)
    requires
        1 <= target,
        target <= spec_weight_sum(vs),
    ensures
        0 <= spec_select_by_weight(vs, target) < vs.len(),
    decreases vs.len(),
{
    if vs.len() == 0 {
        assert(spec_weight_sum(vs) == 0);
        assert(false);
    }
    if vs[0].weight >= target {
        assert(spec_select_by_weight(vs, target) == 0);
    } else {
        assert(spec_weight_sum(vs) == spec_weight_sum(vs.drop_first()) + vs[0].weight);
        lemma_select_in_range(vs.drop_first(), target - vs[0].weight);
        assert(spec_select_by_weight(vs.drop_first(), target - vs[0].weight) >= 0);
    }
}

proof fn lemma_weight_sum_pos(vs: Seq<SpecVariant>)
    requires
        vs.len() >= 1,
        forall|i: int| 0 <= i < vs.len() ==> (#[trigger] vs[i]).weight >= 1,
    ensures
        spec_weight_sum(vs) >= 1,
        spec_weight_sum(vs) >= 0,
    decreases vs.len(),
{
    assert(vs[0].weight >= 1);
    if vs.len() > 1 {
        assert(forall|j: int|
            0 <= j < vs.drop_first().len() ==> #[trigger] vs.drop_first()[j] == vs[j + 1]);
        lemma_weight_sum_pos(vs.drop_first());
        assert(spec_weight_sum(vs) == spec_weight_sum(vs.drop_first()) + vs[0].weight);
    } else {
        assert(vs.drop_first().len() == 0);
        assert(spec_weight_sum(vs.drop_first()) == 0);
        assert(spec_weight_sum(vs) == 0 + vs[0].weight);
    }
}

/// The variant the evaluator picks, where deterministic: -1 for the
/// disabled sentinel; an override wins before the weight hash; `None`
/// where a context without identifiers draws a uniformly random variant.
pub open spec fn spec_variant_choice(f: SpecFeature, enabled: bool, ctx: Context) -> Option<int> {
    if !enabled || f.variants.len() == 0 {
        Some(-1)
    } else if spec_first_override(f.variants, ctx) >= 0 {
        Some(spec_first_override(f.variants, ctx))
    } else {
        match spec_identifier(ctx) {
            Some(id) => Some(
                spec_select_by_weight(
                    f.variants,
                    hash::spec_normalised_hash(
                        f.name,
                        id,
                        spec_weight_sum(f.variants) as u32,
                        hash::VARIANT_NORMALIZATION_SEED,
                    ) as int,
                ),
            ),
            None => None,
        }
    }
}

/// The variant with its counter bumped.
pub open spec fn spec_bump_vcount(v: SpecVariant) -> SpecVariant {
    SpecVariant {
        name: v.name,
        weight: v.weight,
        payload: v.payload,
        overrides: v.overrides,
        count: spec_inc_sat(v.count),
    }
}

/// The feature after one variant evaluation: the chosen variant's counter,
/// or the disabled-variant counter, bumped.
pub open spec fn spec_bump_variant(f: SpecFeature, chosen: int) -> SpecFeature {
    if chosen < 0 {
        SpecFeature {
            name: f.name,
            known: f.known,
            disabled: f.disabled,
            strategies: f.strategies,
            variants: f.variants,
            yes: f.yes,
            no: f.no,
            disabled_variant_count: spec_inc_sat(f.disabled_variant_count),
        }
    } else {
        SpecFeature {
            name: f.name,
            known: f.known,
            disabled: f.disabled,
            strategies: f.strategies,
            variants: f.variants.update(chosen, spec_bump_vcount(f.variants[chosen])),
            yes: f.yes,
            no: f.no,
            disabled_variant_count: f.disabled_variant_count,
        }
    }
}

/// Relies on rand::random_range over `0..n`: the draw lies below `n`.
#[verifier::external_body]
fn random_index(n: usize) -> (r: usize)
    requires
        n >= 1,
    ensures
        r < n,
{
    rand::random_range(0usize..n)
}

fn override_matches(o: &CompiledOverride, ctx: &Context) -> (r: bool)
    ensures
        r == spec_override_matches(o.oview(), *ctx),
{
    match field_str(&o.field, ctx) {
        Some(v) => strutil::list_has(&o.values, v.as_str()),
        None => false,
    }
}

fn variant_overridden(v: &CompiledVariant, ctx: &Context) -> (r: bool)
    ensures
        r == spec_variant_overridden(v.vview(), *ctx),
{
    let mut i: usize = 0;
    while i < v.overrides.len()
        invariant
            0 <= i <= v.overrides@.len(),
            forall|j: int|
                0 <= j < i ==> !spec_override_matches(#[trigger] v.vview().overrides[j], *ctx),
        decreases v.overrides@.len() - i,
    {
        proof {
            assert(v.vview().overrides[i as int] == v.overrides@[i as int].oview());
        }
        if override_matches(&v.overrides[i], ctx) {
            assert(spec_override_matches(v.vview().overrides[i as int], *ctx));
            return true;
        }
        i += 1;
    }
    false
}

fn find_override(vs: &Vec<CompiledVariant>, ctx: &Context) -> (r: Option<usize>)
    ensures
        match r {
            Some(ix) => spec_first_override(vviews(vs@), *ctx) == ix && ix < vs@.len(),
            None => spec_first_override(vviews(vs@), *ctx) < 0,
        },
{
    let ghost full = vviews(vs@);
    let mut i: usize = 0;
    while i < vs.len()
        invariant
            0 <= i <= vs@.len(),
            full == vviews(vs@),
            forall|j: int| 0 <= j < i ==> !spec_variant_overridden(#[trigger] full[j], *ctx),
        decreases vs@.len() - i,
    {
        proof {
            assert(full[i as int] == vs@[i as int].vview());
        }
        if variant_overridden(&vs[i], ctx) {
            proof {
                lemma_first_override_first(full, *ctx, i as int);
            }
            return Some(i);
        }
        i += 1;
    }
    proof {
        lemma_first_override_none(full, *ctx);
    }
    None
}

fn identifier_of<'a>(ctx: &'a Context) -> (r: Option<&'a String>)
    ensures
        match r {
            Some(v) => spec_identifier(*ctx) == Some(v@),
            None => spec_identifier(*ctx) is None,
        },
{
    match &ctx.user_id {
        Some(u) => Some(u),
        None => match &ctx.session_id {
            Some(s) => Some(s),
            None => match &ctx.remote_address {
                Some(a) => Some(&a.text),
                None => None,
            },
        },
    }
}

fn sum_weights(vs: &Vec<CompiledVariant>) -> (r: u32)
    requires
        forall|i: int| 0 <= i < vs@.len() ==> (#[trigger] vs@[i]).weight >= 1,
        spec_weight_sum(vviews(vs@)) <= u32::MAX,
    ensures
        r == spec_weight_sum(vviews(vs@)),
{
    let ghost full = vviews(vs@);
    let mut total: u32 = 0;
    let mut i: usize = 0;
    proof {
        assert(forall|k: int|
            0 <= k < full.len() ==> (#[trigger] full[k]).weight == vs@[k].vview().weight
                && full[k].weight >= 0);
        assert(full.skip(0) =~= full);
    }
    while i < vs.len()
        invariant
            0 <= i <= vs@.len(),
            full == vviews(vs@),
            full.len() == vs@.len(),
            spec_weight_sum(full) <= u32::MAX,
            total == spec_weight_sum(full) - spec_weight_sum(full.skip(i as int)),
            forall|k: int| 0 <= k < full.len() ==> (#[trigger] full[k]).weight >= 0,
        decreases vs@.len() - i,
    {
        proof {
            assert(full.skip(i as int).len() == full.len() - i);
            assert(full.skip(i as int)[0] == full[i as int]);
            assert(full[i as int] == vs@[i as int].vview());
            assert(full.skip(i as int).drop_first() =~= full.skip(i as int + 1));
            assert(spec_weight_sum(full.skip(i as int)) == spec_weight_sum(
                full.skip(i as int + 1),
            ) + full[i as int].weight);
            lemma_weight_sum_skip_nonneg(full, i as int + 1);
            lemma_weight_sum_skip_nonneg(full, i as int);
        }
        let w = vs[i].weight;
        total = total + (w as u32);
        i += 1;
    }
    proof {
        assert(full.skip(vs@.len() as int) =~= Seq::<SpecVariant>::empty());
    }
    total
}

proof fn lemma_weight_sum_nonneg(vs: Seq<SpecVariant>)
    requires
        forall|i: int| 0 <= i < vs.len() ==> (#[trigger] vs[i]).weight >= 0,
    ensures
        spec_weight_sum(vs) >= 0,
    decreases vs.len(),
{
    if vs.len() > 0 {
        assert(forall|j: int|
            0 <= j < vs.drop_first().len() ==> #[trigger] vs.drop_first()[j] == vs[j + 1]);
        lemma_weight_sum_nonneg(vs.drop_first());
    }
}

proof fn lemma_weight_sum_skip_nonneg(vs: Seq<SpecVariant>, i: int)
    requires
        0 <= i <= vs.len(),
        forall|k: int| 0 <= k < vs.len() ==> (#[trigger] vs[k]).weight >= 0,
    ensures
        spec_weight_sum(vs.skip(i)) >= 0,
{
    assert(forall|j: int| 0 <= j < vs.skip(i).len() ==> (#[trigger] vs.skip(i)[j]).weight >= 0) by {
        assert(forall|j: int| 0 <= j < vs.skip(i).len() ==> #[trigger] vs.skip(i)[j] == vs[i + j]);
    }
    lemma_weight_sum_nonneg(vs.skip(i));
}

fn select_by_weight(vs: &Vec<CompiledVariant>, target: u32) -> (r: usize)
    requires
        1 <= target,
        target <= spec_weight_sum(vviews(vs@)),
    ensures
        r < vs@.len(),
        r == spec_select_by_weight(vviews(vs@), target as int),
{
    let ghost full = vviews(vs@);
    let mut i: usize = 0;
    let mut t: u32 = target;
    proof {
        assert(full.skip(0) =~= full);
        lemma_select_in_range(full, target as int);
    }
    while i < vs.len()
        invariant
            0 <= i <= full.len(),
            full == vviews(vs@),
            1 <= t,
            t as int <= spec_weight_sum(full.skip(i as int)),
            spec_select_by_weight(full, target as int) == i + spec_select_by_weight(
                full.skip(i as int),
                t as int,
            ),
            spec_select_by_weight(full.skip(i as int), t as int) >= 0,
        decreases full.len() - i,
    {
        proof {
            assert(full.skip(i as int).len() == full.len() - i);
            assert(full.skip(i as int)[0] == full[i as int]);
            assert(full[i as int] == vs@[i as int].vview());
            assert(full.skip(i as int).drop_first() =~= full.skip(i as int + 1));
        }
        let w = vs[i].weight;
        if (w as u32) >= t {
            proof {
                assert(spec_select_by_weight(full.skip(i as int), t as int) == 0);
            }
            return i;
        }
        proof {
            lemma_select_in_range(full.skip(i as int), t as int);
            lemma_select_in_range(full.skip(i as int + 1), t as int - w);
        }
        t = t - (w as u32);
        i += 1;
    }
    proof {
        assert(full.skip(full.len() as int) =~= Seq::<SpecVariant>::empty());
        assert(false);
    }
    0
}

/// What one variant evaluation reports: whether the feature was enabled,
/// the chosen variant's index (`None` meaning the disabled sentinel), and
/// where the feature sits in the snapshot.
pub struct VariantOutcome {
    pub feature_enabled: bool,
    pub chosen: Option<usize>,
    pub feature_index: usize,
}

impl VariantOutcome {
    pub open spec fn chosen_int(&self) -> int {
        match self.chosen {
            Some(ix) => ix as int,
            None => -1,
        }
    }
}

impl Snapshot {
    /// One variant evaluation: decides enablement like `eval_enabled` with
    /// default false, picks the variant (override first, then the weight
    /// hash over the identifier, then a uniform draw), and bumps one
    /// toggle counter plus one variant (or disabled-variant) counter.
    pub fn eval_variant(&mut self, name: &str, ctx: &Context) -> (r: VariantOutcome)
        requires
            snapshot_wf(*old(self)),
        ensures
            snapshot_wf(*final(self)),
            final(self).started_at == old(self).started_at,
            spec_is_enabled_det(old(self).sview(), name@, *ctx, false) matches Some(b) ==> r
                .feature_enabled == b,
            ({
                let fs = old(self).sview();
                let i = spec_find_feature(fs, name@);
                let f0 = if i >= 0 {
                    fs[i]
                } else {
                    spec_unknown_feature(name@)
                };
                &&& (spec_variant_choice(f0, r.feature_enabled, *ctx) matches Some(c) ==> r
                    .chosen_int() == c)
                &&& (r.chosen matches Some(ix) ==> ix < f0.variants.len() && r.feature_enabled)
                &&& (r.feature_enabled && f0.variants.len() > 0 ==> r.chosen is Some)
                &&& (if i >= 0 {
                    r.feature_index == i
                } else {
                    r.feature_index == fs.len()
                })
                &&& r.feature_index < final(self).features@.len()
                &&& (if i >= 0 {
                    final(self).sview() == fs.update(
                        i,
                        spec_bump_variant(
                            spec_bump_toggle(fs[i], r.feature_enabled),
                            r.chosen_int(),
                        ),
                    )
                } else {
                    final(self).sview() == fs.push(
                        spec_bump_variant(
                            spec_bump_toggle(spec_unknown_feature(name@), r.feature_enabled),
                            r.chosen_int(),
                        ),
                    )
                })
            }),
    {
        let ghost fs0 = self.sview();
        let ghost found = spec_find_feature(fs0, name@);
        let i: usize = match self.find_feature(name) {
            Some(i) => i,
            None => {
                let placeholder = make_unknown(name);
                let idx = self.features.len();
                self.features.push(placeholder);
                proof {
                    assert(self.sview() =~= fs0.push(spec_unknown_feature(name@)));
                    assert(snapshot_wf(*self)) by {
                        assert(forall|j: int|
                            0 <= j < fs0.len() ==> self.features@[j] == #[trigger] old(
                                self,
                            ).features@[j]);
                        assert(cfeature_wf(self.features@[fs0.len() as int]));
                    }
                }
                idx
            },
        };
        let ghost fs1 = self.sview();
        let ghost f0 = if found >= 0 {
            fs0[found]
        } else {
            spec_unknown_feature(name@)
        };
        proof {
            assert(i < self.features@.len());
            assert(self.features@[i as int].fview() == fs1[i as int]);
            assert(cfeature_wf(self.features@[i as int]));
            if found >= 0 {
                assert(fs1 == fs0);
                assert(fs1[i as int] == fs0[found]);
            } else {
                assert(fs1[i as int] == spec_unknown_feature(name@));
            }
            assert(fs1[i as int] == f0);
        }
        let enabled = feature_enabled_decision(&self.features[i], ctx, false);
        proof {
            if found < 0 {
                assert(spec_feature_enabled(spec_unknown_feature(name@), *ctx, false) == Some(
                    false,
                ));
                assert(!enabled);
            }
        }
        let chosen: Option<usize> = if !enabled || self.features[i].variants.len() == 0 {
            proof {
                assert(spec_variant_choice(f0, enabled, *ctx) == Some(-1int));
            }
            None
        } else {
            let f_ref = &self.features[i];
            proof {
                assert(f_ref.fview().variants =~= vviews(f_ref.variants@));
                assert(forall|k: int|
                    0 <= k < f_ref.variants@.len() ==> (#[trigger] f_ref.variants@[k]).weight
                        >= 1);
                assert(forall|k: int|
                    0 <= k < vviews(f_ref.variants@).len() ==> (#[trigger] vviews(
                        f_ref.variants@,
                    )[k]).weight >= 1) by {
                    assert(forall|k: int|
                        0 <= k < f_ref.variants@.len() ==> vviews(f_ref.variants@)[k]
                            == (#[trigger] f_ref.variants@[k]).vview());
                }
            }
            match find_override(&f_ref.variants, ctx) {
                Some(ix) => Some(ix),
                None => {
                    match identifier_of(ctx) {
                        Some(id) => {
                            let total = sum_weights(&f_ref.variants);
                            proof {
                                lemma_weight_sum_pos(vviews(f_ref.variants@));
                            }
                            let target = hash::normalised_variant_hash(
                                f_ref.name.as_str(),
                                id.as_str(),
                                total,
                            );
                            Some(select_by_weight(&f_ref.variants, target))
                        },
                        None => Some(random_index(f_ref.variants.len())),
                    }
                },
            }
        };
        let ghost pre_features = self.features@;
        let mut f = self.features.remove(i);
        if enabled {
            f.yes = inc_sat(f.yes);
        } else {
            f.no = inc_sat(f.no);
        }
        match chosen {
            None => {
                f.disabled_variant_count = inc_sat(f.disabled_variant_count);
            },
            Some(ix) => {
                let mut v = f.variants.remove(ix);
                v.count = inc_sat(v.count);
                proof {
                    assert(v.vview() == spec_bump_vcount(fs1[i as int].variants[ix as int]));
                }
                f.variants.insert(ix, v);
                proof {
                    assert(f.variants@ =~= pre_features[i as int].variants@.update(ix as int, v));
                }
            },
        }
        let ghost outcome = VariantOutcome { feature_enabled: enabled, chosen, feature_index: i };
        proof {
            assert(f.fview() == spec_bump_variant(
                spec_bump_toggle(fs1[i as int], enabled),
                outcome.chosen_int(),
            )) by {
                if chosen is Some {
                    let ix = chosen->Some_0 as int;
                    assert(f.fview().variants =~= fs1[i as int].variants.update(
                        ix,
                        spec_bump_vcount(fs1[i as int].variants[ix]),
                    ));
                } else {
                    assert(f.fview().variants =~= fs1[i as int].variants);
                }
            }
            assert(cfeature_wf(f)) by {
                assert(f.strategies@ == pre_features[i as int].strategies@);
                assert(forall|k: int|
                    0 <= k < f.variants@.len() ==> (#[trigger] f.variants@[k]).weight
                        == pre_features[i as int].variants@[k].weight);
                assert(f.fview().variants.len() == pre_features[i as int].fview().variants.len());
                lemma_weight_sum_same(f.fview().variants, pre_features[i as int].fview().variants);
            }
        }
        self.features.insert(i, f);
        proof {
            assert(self.features@ =~= pre_features.update(i as int, f));
            assert(self.sview() =~= fs1.update(
                i as int,
                spec_bump_variant(spec_bump_toggle(fs1[i as int], enabled), outcome.chosen_int()),
            ));
            assert(snapshot_wf(*self)) by {
                assert(forall|j: int|
                    0 <= j < pre_features.len() && j != i ==> self.features@[j]
                        == #[trigger] pre_features[j]);
                assert(self.features@[i as int] == f);
            }
            if found >= 0 {
                assert(self.sview() =~= fs0.update(
                    found,
                    spec_bump_variant(spec_bump_toggle(fs0[found], enabled), outcome.chosen_int()),
                ));
            } else {
                assert(self.sview() =~= fs0.push(
                    spec_bump_variant(
                        spec_bump_toggle(spec_unknown_feature(name@), enabled),
                        outcome.chosen_int(),
                    ),
                ));
            }
        }
        VariantOutcome { feature_enabled: enabled, chosen, feature_index: i }
    }
}

// -------------------------------------------------------------- compile

/// The strategy names the engine knows.
pub open spec fn spec_known_strategy(name: Seq<char>) -> bool {
    ||| name == "default"@
    ||| name == "userWithId"@
    ||| name == "applicationHostname"@
    ||| name == "gradualRolloutUserId"@
    ||| name == "gradualRolloutSessionId"@
    ||| name == "gradualRolloutRandom"@
    ||| name == "flexibleRollout"@
    ||| name == "remoteAddress"@
}

/// The strategies kept by the compiler: those with known names, in order.
pub open spec fn spec_kept_strategies(ss: Seq<Strategy>) -> Seq<Strategy>
    decreases ss.len(),
{
    if ss.len() == 0 {
        Seq::empty()
    } else if spec_known_strategy(ss[0].name@) {
        seq![ss[0]] + spec_kept_strategies(ss.drop_first())
    } else {
        spec_kept_strategies(ss.drop_first())
    }
}

proof fn lemma_kept_push(ss: Seq<Strategy>, s: Strategy)
    ensures
        spec_kept_strategies(ss.push(s)) == spec_kept_strategies(ss) + (if spec_known_strategy(
            s.name@,
        ) {
            seq![s]
        } else {
            Seq::<Strategy>::empty()
        }),
    decreases ss.len(),
{
    let tail: Seq<Strategy> = if spec_known_strategy(s.name@) {
        seq![s]
    } else {
        Seq::empty()
    };
    if ss.len() == 0 {
        assert(ss.push(s)[0] == s);
        assert(ss.push(s).drop_first() =~= Seq::<Strategy>::empty());
        assert(spec_kept_strategies(Seq::<Strategy>::empty()) == Seq::<Strategy>::empty());
        if spec_known_strategy(s.name@) {
            assert(spec_kept_strategies(ss.push(s)) =~= seq![s]);
            assert(spec_kept_strategies(ss) + tail =~= seq![s]);
        } else {
            assert(spec_kept_strategies(ss.push(s)) =~= Seq::<Strategy>::empty());
            assert(spec_kept_strategies(ss) + tail =~= Seq::<Strategy>::empty());
        }
    } else {
        assert(ss.push(s)[0] == ss[0]);
        assert(ss.push(s).drop_first() =~= ss.drop_first().push(s));
        lemma_kept_push(ss.drop_first(), s);
        if spec_known_strategy(ss[0].name@) {
            assert(seq![ss[0]] + (spec_kept_strategies(ss.drop_first()) + tail) =~= (seq![ss[0]]
                + spec_kept_strategies(ss.drop_first())) + tail);
        }
    }
}

/// The view of optional wire parameters.
pub open spec fn spec_wire_params(p: Option<Vec<(String, String)>>) -> Option<
    Seq<(String, String)>,
> {
    match p {
        Some(v) => Some(v@),
        None => None,
    }
}

/// The user-id list a userWithId strategy compiles to.
pub open spec fn spec_user_ids_param(params: Option<Seq<(String, String)>>) -> Seq<Seq<char>> {
    match spec_param(params, "userIds"@) {
        Some(l) => strutil::spec_split_trimmed(l, ','),
        None => Seq::empty(),
    }
}

/// What one known strategy compiles to. The applicationHostname strategy
/// depends on the machine, so only a constant decision is promised.
pub open spec fn strategy_compiles_to(w: Strategy, sv: SpecStrategy) -> bool {
    let params = spec_wire_params(w.parameters);
    if w.name@ == "default"@ {
        sv == SpecStrategy::AlwaysTrue
    } else if w.name@ == "userWithId"@ {
        sv == (SpecStrategy::UserWithId { user_ids: spec_user_ids_param(params) })
    } else if w.name@ == "applicationHostname"@ {
        sv == SpecStrategy::AlwaysTrue || sv == SpecStrategy::AlwaysFalse
    } else if w.name@ == "gradualRolloutUserId"@ {
        sv == (SpecStrategy::RolloutUserId {
            group: spec_group_of(params),
            rollout: spec_rollout_of(params, "percentage"@),
        })
    } else if w.name@ == "gradualRolloutSessionId"@ {
        sv == (SpecStrategy::RolloutSessionId {
            group: spec_group_of(params),
            rollout: spec_rollout_of(params, "percentage"@),
        })
    } else if w.name@ == "gradualRolloutRandom"@ {
        sv == (SpecStrategy::RolloutRandom { pct: spec_pct_of(params, "percentage"@) })
    } else if w.name@ == "flexibleRollout"@ {
        sv == spec_flexible_rollout(params)
    } else if w.name@ == "remoteAddress"@ {
        sv == (SpecStrategy::RemoteAddress { nets: spec_ips_of(params) })
    } else {
        false
    }
}

/// What a wire constraint list compiles to.
pub open spec fn spec_compiled_cons(cs: Option<Vec<Constraint>>) -> Seq<SpecConstraint> {
    match cs {
        Some(v) => v@.map_values(|c: Constraint| spec_compile_constraint(c.wview())),
        None => Seq::empty(),
    }
}

/// The wire variants of a feature.
pub open spec fn spec_wire_variants(v: Option<Vec<VariantDef>>) -> Seq<VariantDef> {
    match v {
        Some(x) => x@,
        None => Seq::empty(),
    }
}

/// What one wire variant compiles to: counters zeroed, overrides' fields
/// resolved.
pub open spec fn spec_variant_of(d: VariantDef) -> SpecVariant {
    SpecVariant {
        name: d.name@,
        weight: d.weight,
        payload: props_view(d.payload@),
        overrides: (match d.overrides {
            Some(os) => os@.map_values(
                |o: VariantOverride| SpecOverride {
                    field: spec_field_of(o.context_name@),
                    values: strutil::strs_view(o.values@),
                },
            ),
            None => Seq::empty(),
        }),
        count: 0,
    }
}

/// Compiled variants: weight-zero definitions dropped, order kept.
pub open spec fn spec_nonzero_variants(defs: Seq<VariantDef>) -> Seq<SpecVariant>
    decreases defs.len(),
{
    if defs.len() == 0 {
        Seq::empty()
    } else if defs[0].weight == 0 {
        spec_nonzero_variants(defs.drop_first())
    } else {
        seq![spec_variant_of(defs[0])] + spec_nonzero_variants(defs.drop_first())
    }
}

proof fn lemma_nonzero_weights(defs: Seq<VariantDef>)
    ensures
        forall|j: int|
            0 <= j < spec_nonzero_variants(defs).len() ==> (#[trigger] spec_nonzero_variants(
                defs,
            )[j]).weight >= 1,
    decreases defs.len(),
{
    if defs.len() > 0 {
        lemma_nonzero_weights(defs.drop_first());
        let whole = spec_nonzero_variants(defs);
        let rest = spec_nonzero_variants(defs.drop_first());
        if defs[0].weight == 0 {
            assert(whole == rest);
            assert forall|j: int| 0 <= j < whole.len() implies (#[trigger] whole[j]).weight
                >= 1 by {
                assert(whole[j] == rest[j]);
            }
        } else {
            assert(whole == seq![spec_variant_of(defs[0])] + rest);
            assert forall|j: int| 0 <= j < whole.len() implies (#[trigger] whole[j]).weight
                >= 1 by {
                if j == 0 {
                    assert(whole[0] == spec_variant_of(defs[0]));
                    assert(whole[0].weight == defs[0].weight);
                } else {
                    assert(whole[j] == rest[j - 1]);
                }
            }
        }
    }
}

/// How one catalogue feature compiles: a disabled feature short-circuits;
/// an enabled one keeps its known strategies in order, each gated by its
/// compiled constraints, and its nonzero-weight variants; counters start
/// at zero.
pub open spec fn feature_compiles_to(w: ClientFeature, f: SpecFeature) -> bool {
    &&& f.name == w.name@
    &&& f.known
    &&& f.disabled == !w.enabled
    &&& f.yes == 0
    &&& f.no == 0
    &&& f.disabled_variant_count == 0
    &&& (if !w.enabled {
        f.strategies.len() == 0 && f.variants.len() == 0
    } else {
        let kept = spec_kept_strategies(
            match w.strategies {
                Some(v) => v@,
                None => Seq::empty(),
            },
        );
        &&& f.variants == spec_nonzero_variants(spec_wire_variants(w.variants))
        &&& f.strategies.len() == kept.len()
        &&& forall|j: int|
            0 <= j < kept.len() ==> strategy_compiles_to(
                kept[j],
                (#[trigger] f.strategies[j]).strategy,
            ) && f.strategies[j].constraints == spec_compiled_cons(kept[j].constraints)
    })
}

/// The feature's kept variant weights stay within the hash modulus range.
pub open spec fn spec_feature_weights_ok(w: ClientFeature) -> bool {
    spec_weight_sum(spec_nonzero_variants(spec_wire_variants(w.variants))) <= u32::MAX
}

/// Every feature's kept variant weights stay within range: a machine
/// limit, since the weight total is the hash modulus.
pub open spec fn spec_catalogue_ok(c: ClientFeatures) -> bool {
    forall|i: int| 0 <= i < c.features@.len() ==> spec_feature_weights_ok(#[trigger] c.features@[i])
}

proof fn lemma_nonremote_wf(c: CompiledStrategy)
    requires
        !(c.sview() is RemoteAddress),
    ensures
        c.wf(),
{
    if c is RemoteAddress {
        assert(c.sview() is RemoteAddress);
    }
}

fn compile_strategy(s: Strategy) -> (r: Option<ConstrainedStrategy>)
    ensures
        spec_known_strategy(s.name@) <==> r is Some,
        r matches Some(cs) ==> strategy_compiles_to(s, cs.strategy.sview()) && cons_views(
            cs.constraints@,
        ) == spec_compiled_cons(s.constraints) && cs.wf(),
{
    let Strategy { name, parameters, constraints } = s;
    let params_ref = parameters.as_ref();
    let compiled: CompiledStrategy = if strutil::str_eq(name.as_str(), "default") {
        let c = crate::strategy::default(params_ref);
        proof {
            lemma_nonremote_wf(c);
        }
        c
    } else if strutil::str_eq(name.as_str(), "userWithId") {
        let c = user_with_id(params_ref);
        proof {
            lemma_nonremote_wf(c);
        }
        c
    } else if strutil::str_eq(name.as_str(), "applicationHostname") {
        let c = hostname(params_ref);
        proof {
            lemma_nonremote_wf(c);
        }
        c
    } else if strutil::str_eq(name.as_str(), "gradualRolloutUserId") {
        let c = user_id(params_ref);
        proof {
            lemma_nonremote_wf(c);
        }
        c
    } else if strutil::str_eq(name.as_str(), "gradualRolloutSessionId") {
        let c = session_id(params_ref);
        proof {
            lemma_nonremote_wf(c);
        }
        c
    } else if strutil::str_eq(name.as_str(), "gradualRolloutRandom") {
        let c = random(params_ref);
        proof {
            lemma_nonremote_wf(c);
        }
        c
    } else if strutil::str_eq(name.as_str(), "flexibleRollout") {
        let c = flexible_rollout(params_ref);
        proof {
            if c is RemoteAddress {
                assert(c.sview() is RemoteAddress);
            }
            lemma_nonremote_wf(c);
        }
        c
    } else if strutil::str_eq(name.as_str(), "remoteAddress") {
        remote_address(params_ref)
    } else {
        return None;
    };
    Some(constrain(constraints, compiled))
}

fn compile_variant(d: VariantDef) -> (r: CompiledVariant)
    ensures
        r.vview() == spec_variant_of(d),
{
    let VariantDef { name, weight, payload, overrides } = d;
    let compiled_overrides: Vec<CompiledOverride> = match overrides {
        Some(os) => {
            let ghost ov = os@;
            let mut out: Vec<CompiledOverride> = Vec::new();
            let mut rest = os;
            proof {
                assert(ov.skip(0) =~= ov);
            }
            while rest.len() > 0
                invariant
                    out@.len() + rest@.len() == ov.len(),
                    rest@ == ov.skip(out@.len() as int),
                    forall|j: int|
                        0 <= j < out@.len() ==> (#[trigger] out@[j]).oview() == (SpecOverride {
                            field: spec_field_of(ov[j].context_name@),
                            values: strutil::strs_view(ov[j].values@),
                        }),
                decreases rest@.len(),
            {
                let ghost i = out@.len() as int;
                proof {
                    assert(rest@[0] == ov.skip(i)[0]);
                    assert(ov.skip(i)[0] == ov[i]);
                    assert(rest@.remove(0) =~= ov.skip(i + 1));
                }
                let o = rest.remove(0);
                let co = CompiledOverride {
                    field: field_of(o.context_name.as_str()),
                    values: o.values,
                };
                proof {
                    assert(forall|j: int|
                        0 <= j < out@.len() ==> out@.push(co)[j] == #[trigger] out@[j]);
                    assert(out@.push(co)[i] == co);
                }
                out.push(co);
            }
            out
        },
        None => Vec::new(),
    };
    let r = CompiledVariant {
        name,
        weight,
        payload,
        overrides: compiled_overrides,
        count: 0,
    };
    proof {
        assert(r.vview().overrides =~= spec_variant_of(d).overrides);
        assert(r.vview() == spec_variant_of(d));
    }
    r
}

/// Compiles one catalogue feature.
pub fn compile_feature(f: ClientFeature) -> (r: CompiledFeature)
    requires
        spec_feature_weights_ok(f),
    ensures
        feature_compiles_to(f, r.fview()),
        cfeature_wf(r),
{
    let ghost fg = f;
    let ClientFeature { name, enabled, strategies, variants } = f;
    if !enabled {
        let r = CompiledFeature {
            name,
            known: true,
            disabled: true,
            strategies: Vec::new(),
            variants: Vec::new(),
            yes: 0,
            no: 0,
            disabled_variant_count: 0,
        };
        proof {
            assert(r.fview().strategies =~= Seq::<SpecConstrained>::empty());
            assert(r.fview().variants =~= Seq::<SpecVariant>::empty());
        }
        return r;
    }
    let compiled_strats: Vec<ConstrainedStrategy> = match strategies {
        None => {
            let out: Vec<ConstrainedStrategy> = Vec::new();
            proof {
                assert(spec_kept_strategies(Seq::<Strategy>::empty()) =~= Seq::<Strategy>::empty());
            }
            out
        },
        Some(ss) => {
            let ghost full = ss@;
            let mut out: Vec<ConstrainedStrategy> = Vec::new();
            let mut rest = ss;
            let mut i: usize = 0;
            proof {
                assert(full.skip(0) =~= full);
                assert(full.take(0) =~= Seq::<Strategy>::empty());
                assert(spec_kept_strategies(full.take(0)) =~= Seq::<Strategy>::empty());
            }
            let n0 = rest.len();
            proof {
                assert(full.len() == n0);
            }
            while rest.len() > 0
                invariant
                    i + rest@.len() == full.len(),
                    0 <= i <= full.len() <= usize::MAX,
                    rest@ == full.skip(i as int),
                    out@.len() == spec_kept_strategies(full.take(i as int)).len(),
                    forall|j: int|
                        0 <= j < out@.len() ==> strategy_compiles_to(
                            spec_kept_strategies(full.take(i as int))[j],
                            (#[trigger] out@[j]).strategy.sview(),
                        ) && cons_views(out@[j].constraints@) == spec_compiled_cons(
                            spec_kept_strategies(full.take(i as int))[j].constraints,
                        ) && out@[j].wf(),
                decreases rest@.len(),
            {
                proof {
                    assert(rest@[0] == full.skip(i as int)[0]);
                    assert(full.skip(i as int)[0] == full[i as int]);
                    assert(rest@.remove(0) =~= full.skip(i as int + 1));
                    assert(full.take(i as int).push(full[i as int]) =~= full.take(i as int + 1));
                    lemma_kept_push(full.take(i as int), full[i as int]);
                }
                let ghost kept_now = spec_kept_strategies(full.take(i as int));
                let s = rest.remove(0);
                match compile_strategy(s) {
                    Some(cs) => {
                        proof {
                            assert(spec_kept_strategies(full.take(i as int + 1)) =~= kept_now.push(
                                full[i as int],
                            ));
                            assert(forall|j: int|
                                0 <= j < out@.len() ==> out@.push(cs)[j] == #[trigger] out@[j]);
                            assert(forall|j: int|
                                0 <= j < kept_now.len() ==> #[trigger] kept_now.push(
                                    full[i as int],
                                )[j] == kept_now[j]);
                            assert(out@.push(cs)[out@.len() as int] == cs);
                            assert(kept_now.push(full[i as int])[kept_now.len() as int]
                                == full[i as int]);
                        }
                        out.push(cs);
                    },
                    None => {
                        proof {
                            assert(spec_kept_strategies(full.take(i as int + 1)) =~= kept_now);
                        }
                    },
                }
                i += 1;
            }
            proof {
                assert(full.take(full.len() as int) =~= full);
            }
            out
        },
    };
    let compiled_variants: Vec<CompiledVariant> = match variants {
        None => {
            let out: Vec<CompiledVariant> = Vec::new();
            proof {
                assert(spec_nonzero_variants(Seq::<VariantDef>::empty())
                    =~= Seq::<SpecVariant>::empty());
                assert(vviews(out@) =~= Seq::<SpecVariant>::empty());
            }
            out
        },
        Some(ds) => {
            let ghost full = ds@;
            let mut out: Vec<CompiledVariant> = Vec::new();
            let mut rest = ds;
            let mut i: usize = 0;
            proof {
                assert(full.skip(0) =~= full);
                assert(vviews(out@) =~= Seq::<SpecVariant>::empty());
                assert(vviews(out@) + spec_nonzero_variants(full) =~= spec_nonzero_variants(full));
            }
            let n0 = rest.len();
            proof {
                assert(full.len() == n0);
            }
            while rest.len() > 0
                invariant
                    i + rest@.len() == full.len(),
                    0 <= i <= full.len() <= usize::MAX,
                    rest@ == full.skip(i as int),
                    spec_nonzero_variants(full) == vviews(out@) + spec_nonzero_variants(
                        full.skip(i as int),
                    ),
                decreases rest@.len(),
            {
                proof {
                    assert(rest@[0] == full.skip(i as int)[0]);
                    assert(full.skip(i as int)[0] == full[i as int]);
                    assert(rest@.remove(0) =~= full.skip(i as int + 1));
                    assert(full.skip(i as int).drop_first() =~= full.skip(i as int + 1));
                }
                let d = rest.remove(0);
                if d.weight > 0 {
                    let cv = compile_variant(d);
                    proof {
                        assert(vviews(out@.push(cv)) =~= vviews(out@) + seq![cv.vview()]);
                        assert(vviews(out@) + (seq![cv.vview()] + spec_nonzero_variants(
                            full.skip(i as int + 1),
                        )) =~= vviews(out@.push(cv)) + spec_nonzero_variants(
                            full.skip(i as int + 1),
                        ));
                    }
                    out.push(cv);
                }
                i += 1;
            }
            proof {
                assert(spec_nonzero_variants(full.skip(full.len() as int))
                    =~= Seq::<SpecVariant>::empty());
                assert(vviews(out@) + Seq::<SpecVariant>::empty() =~= vviews(out@));
            }
            out
        },
    };
    let ghost cs_view = compiled_strats@;
    let ghost cv_view = compiled_variants@;
    let r = CompiledFeature {
        name,
        known: true,
        disabled: false,
        strategies: compiled_strats,
        variants: compiled_variants,
        yes: 0,
        no: 0,
        disabled_variant_count: 0,
    };
    proof {
        assert(r.fview().strategies =~= cs_view.map_values(
            |s: ConstrainedStrategy| s.csview(),
        ));
        assert(r.fview().variants =~= vviews(cv_view));
        let kept = spec_kept_strategies(
            match fg.strategies {
                Some(v) => v@,
                None => Seq::empty(),
            },
        );
        assert(forall|j: int|
            0 <= j < kept.len() ==> strategy_compiles_to(
                kept[j],
                (#[trigger] r.fview().strategies[j]).strategy,
            ) && r.fview().strategies[j].constraints == spec_compiled_cons(kept[j].constraints))
            by {
            assert(forall|j: int|
                0 <= j < cs_view.len() ==> r.fview().strategies[j]
                    == (#[trigger] cs_view[j]).csview());
        }
        lemma_nonzero_weights(spec_wire_variants(fg.variants));
        assert(cfeature_wf(r)) by {
            assert(forall|k: int|
                0 <= k < r.strategies@.len() ==> (#[trigger] r.strategies@[k]).wf());
            assert(forall|k: int|
                0 <= k < r.variants@.len() ==> (#[trigger] r.variants@[k]).weight == r.fview()
                    .variants[k].weight && r.fview().variants[k].weight >= 1);
        }
    }
    r
}

/// Compiles a catalogue into a fresh snapshot. Compilation is pure: the
/// snapshot's start time is the caller's, and every counter starts at
/// zero.
pub fn compile(catalogue: ClientFeatures, started_at: i64) -> (r: Snapshot)
    requires
        spec_catalogue_ok(catalogue),
    ensures
        snapshot_wf(r),
        r.started_at == started_at,
        r.sview().len() == catalogue.features@.len(),
        forall|i: int|
            0 <= i < catalogue.features@.len() ==> feature_compiles_to(
                #[trigger] catalogue.features@[i],
                r.sview()[i],
            ),
{
    let ghost full = catalogue.features@;
    let mut out: Vec<CompiledFeature> = Vec::new();
    let mut rest = catalogue.features;
    proof {
        assert(full.skip(0) =~= full);
    }
    while rest.len() > 0
        invariant
            out@.len() + rest@.len() == full.len(),
            rest@ == full.skip(out@.len() as int),
            forall|i: int| 0 <= i < full.len() ==> spec_feature_weights_ok(#[trigger] full[i]),
            forall|j: int|
                0 <= j < out@.len() ==> feature_compiles_to(
                    full[j],
                    (#[trigger] out@[j]).fview(),
                ) && cfeature_wf(out@[j]),
        decreases rest@.len(),
    {
        let ghost i = out@.len() as int;
        proof {
            assert(rest@[0] == full.skip(i)[0]);
            assert(full.skip(i)[0] == full[i]);
            assert(rest@.remove(0) =~= full.skip(i + 1));
        }
        let w = rest.remove(0);
        let cf = compile_feature(w);
        proof {
            assert(forall|j: int| 0 <= j < out@.len() ==> out@.push(cf)[j] == #[trigger] out@[j]);
            assert(out@.push(cf)[i] == cf);
        }
        out.push(cf);
    }
    let r = Snapshot { started_at, features: out };
    proof {
        assert(r.sview().len() == full.len());
        assert(forall|i: int|
            0 <= i < full.len() ==> r.sview()[i] == (#[trigger] r.features@[i]).fview());
    }
    r
}

// -------------------------------------------------------------- harvest

/// The ghost view of one harvested toggle.
pub struct SpecToggle {
    pub name: Seq<char>,
    pub yes: u64,
    pub no: u64,
    pub variants: Seq<(Seq<char>, u64)>,
}

impl ToggleMetrics {
    pub open spec fn tview(&self) -> SpecToggle {
        SpecToggle {
            name: self.name@,
            yes: self.yes,
            no: self.no,
            variants: self.variants@.map_values(|p: (String, u64)| (p.0@, p.1)),
        }
    }
}

/// What harvesting one feature reports: its yes/no counters and every
/// variant's counter, with the disabled-variant counter keyed "disabled".
pub open spec fn spec_harvest_toggle(f: SpecFeature) -> SpecToggle {
    SpecToggle {
        name: f.name,
        yes: f.yes,
        no: f.no,
        variants: f.variants.map_values(|v: SpecVariant| (v.name, v.count)).push(
            ("disabled"@, f.disabled_variant_count),
        ),
    }
}

/// Harvests a retired snapshot into a metrics bucket: one entry per
/// feature, zero activity included.
pub fn harvest(snapshot: Snapshot, now: i64) -> (r: MetricBucket)
    ensures
        r.start == snapshot.started_at,
        r.stop == now,
        r.toggles@.map_values(|t: ToggleMetrics| t.tview()) == snapshot.sview().map_values(
            |f: SpecFeature| spec_harvest_toggle(f),
        ),
{
    let ghost full = snapshot.sview();
    let mut toggles: Vec<ToggleMetrics> = Vec::new();
    let mut rest = snapshot.features;
    proof {
        assert(full.skip(0) =~= full);
        assert(full.len() == rest@.len());
        assert(forall|j: int|
            0 <= j < rest@.len() ==> full[j] == (#[trigger] rest@[j]).fview());
    }
    while rest.len() > 0
        invariant
            toggles@.len() + rest@.len() == full.len(),
            forall|j: int|
                0 <= j < rest@.len() ==> full[j + toggles@.len()] == (#[trigger] rest@[j]).fview(),
            forall|j: int|
                0 <= j < toggles@.len() ==> (#[trigger] toggles@[j]).tview() == spec_harvest_toggle(
                    full[j],
                ),
        decreases rest@.len(),
    {
        let ghost i = toggles@.len() as int;
        proof {
            assert(rest@[0].fview() == full[i]);
            assert(forall|j: int|
                0 <= j < rest@.len() - 1 ==> #[trigger] rest@.remove(0)[j] == rest@[j + 1]);
        }
        let f = rest.remove(0);
        let mut vcounts: Vec<(String, u64)> = Vec::new();
        let mut k: usize = 0;
        while k < f.variants.len()
            invariant
                0 <= k <= f.variants@.len(),
                vcounts@.len() == k,
                forall|j: int|
                    0 <= j < k ==> (#[trigger] vcounts@[j]).0@ == f.variants@[j].vview().name && vcounts@[j].1
                        == f.variants@[j].vview().count,
            decreases f.variants@.len() - k,
        {
            let entry = (f.variants[k].name.clone(), f.variants[k].count);
            vcounts.push(entry);
            k += 1;
        }
        vcounts.push((String::from_str("disabled"), f.disabled_variant_count));
        let t = ToggleMetrics { name: f.name, yes: f.yes, no: f.no, variants: vcounts };
        proof {
            assert(t.tview().variants =~= spec_harvest_toggle(full[i]).variants);
            assert(t.tview() == spec_harvest_toggle(full[i]));
            assert(forall|j: int|
                0 <= j < toggles@.len() ==> toggles@.push(t)[j] == #[trigger] toggles@[j]);
            assert(toggles@.push(t)[i] == t);
        }
        toggles.push(t);
    }
    proof {
        assert(toggles@.map_values(|t: ToggleMetrics| t.tview()) =~= full.map_values(
            |f: SpecFeature| spec_harvest_toggle(f),
        ));
    }
    MetricBucket { start: snapshot.started_at, stop: now, toggles }
}

/// The sum of the yes and no counters over all features.
pub open spec fn spec_toggle_total(fs: Seq<SpecFeature>) -> int
    decreases fs.len(),
{
    if fs.len() == 0 {
        0
    } else {
        spec_toggle_total(fs.drop_first()) + fs[0].yes + fs[0].no
    }
}

pub proof fn lemma_toggle_total_update(fs: Seq<SpecFeature>, i: int, f: SpecFeature)
    requires
        0 <= i < fs.len(),
    ensures
        spec_toggle_total(fs.update(i, f)) == spec_toggle_total(fs) - fs[i].yes - fs[i].no + f.yes
            + f.no,
    decreases fs.len(),
{
    let fs2 = fs.update(i, f);
    if i == 0 {
        assert(fs2[0] == f);
        assert(fs2.drop_first() =~= fs.drop_first());
    } else {
        assert(fs2[0] == fs[0]);
        assert(fs2.drop_first() =~= fs.drop_first().update(i - 1, f));
        lemma_toggle_total_update(fs.drop_first(), i - 1, f);
        assert(fs.drop_first()[i - 1] == fs[i]);
    }
}

pub proof fn lemma_toggle_total_push(fs: Seq<SpecFeature>, f: SpecFeature)
    ensures
        spec_toggle_total(fs.push(f)) == spec_toggle_total(fs) + f.yes + f.no,
    decreases fs.len(),
{
    let fs2 = fs.push(f);
    if fs.len() == 0 {
        assert(fs2[0] == f);
        assert(fs2.drop_first() =~= Seq::<SpecFeature>::empty());
        assert(spec_toggle_total(Seq::<SpecFeature>::empty()) == 0);
    } else {
        assert(fs2[0] == fs[0]);
        assert(fs2.drop_first() =~= fs.drop_first().push(f));
        lemma_toggle_total_push(fs.drop_first(), f);
    }
}

/// Law: a compiled snapshot holds one entry per catalogue feature, under
/// the same name, and harvesting reports exactly those names in order.
pub proof fn lemma_catalogue_metrics_names(cat: Seq<ClientFeature>, fs: Seq<SpecFeature>)
    requires
        fs.len() == cat.len(),
        forall|i: int| 0 <= i < cat.len() ==> feature_compiles_to(#[trigger] cat[i], fs[i]),
    ensures
        fs.map_values(|f: SpecFeature| spec_harvest_toggle(f)).map_values(
            |t: SpecToggle| t.name,
        ) =~= cat.map_values(|w: ClientFeature| w.name@),
{
    let harvested = fs.map_values(|f: SpecFeature| spec_harvest_toggle(f));
    assert(forall|i: int|
        0 <= i < cat.len() ==> (#[trigger] harvested[i]).name == spec_harvest_toggle(fs[i]).name);
}

proof fn lemma_weight_sum_same(a: Seq<SpecVariant>, b: Seq<SpecVariant>)
    requires
        a.len() == b.len(),
        forall|i: int| 0 <= i < a.len() ==> (#[trigger] a[i]).weight == b[i].weight,
    ensures
        spec_weight_sum(a) == spec_weight_sum(b),
    decreases a.len(),
{
    if a.len() > 0 {
        assert(forall|j: int|
            0 <= j < a.drop_first().len() ==> (#[trigger] a.drop_first()[j]).weight == a[j
                + 1].weight && b.drop_first()[j].weight == b[j + 1].weight);
        lemma_weight_sum_same(a.drop_first(), b.drop_first());
    }
}

} // verus!
