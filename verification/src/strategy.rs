//! Activation strategies: each compiles from its wire parameters into a
//! small data form, and evaluates against a context. Rollout strategies
//! hash with `normalised_hash`; the random ones draw fresh randomness, so
//! their contracts pin only the deterministic cases.
use vstd::prelude::*;
use crate::api::Constraint;
use crate::constraint::{
    CompiledConstraint,
    SpecConstraint,
    cons_views,
    cons_wf,
    compile_constraints,
    all_constraints_hold,
    spec_all_constraints_hold,
};
use crate::context::{Context, opt_str_view, props_view, spec_assoc_get, assoc_get};
use crate::hash;
use crate::ipaddr::{IpNetwork, net_wf, spec_any_contains, any_contains};
use crate::strutil;

verus! {

/// A compiled activation strategy.
pub enum CompiledStrategy {
    AlwaysTrue,
    AlwaysFalse,
    UserWithId { user_ids: Vec<String> },
    RolloutUserId { group: String, rollout: u32 },
    RolloutSessionId { group: String, rollout: u32 },
    RolloutRandom { pct: u8 },
    RolloutDefault { group: String, rollout: u32 },
    RemoteAddress { nets: Vec<IpNetwork> },
}

/// The ghost view of a compiled strategy.
pub enum SpecStrategy {
    AlwaysTrue,
    AlwaysFalse,
    UserWithId { user_ids: Seq<Seq<char>> },
    RolloutUserId { group: Seq<char>, rollout: u32 },
    RolloutSessionId { group: Seq<char>, rollout: u32 },
    RolloutRandom { pct: u8 },
    RolloutDefault { group: Seq<char>, rollout: u32 },
    RemoteAddress { nets: Seq<IpNetwork> },
}

impl CompiledStrategy {
    pub open spec fn sview(&self) -> SpecStrategy {
        match self {
            CompiledStrategy::AlwaysTrue => SpecStrategy::AlwaysTrue,
            CompiledStrategy::AlwaysFalse => SpecStrategy::AlwaysFalse,
            CompiledStrategy::UserWithId { user_ids } => SpecStrategy::UserWithId {
                user_ids: strutil::strs_view(user_ids@),
            },
            CompiledStrategy::RolloutUserId { group, rollout } => SpecStrategy::RolloutUserId {
                group: group@,
                rollout: *rollout,
            },
            CompiledStrategy::RolloutSessionId { group, rollout } => SpecStrategy::RolloutSessionId {
                group: group@,
                rollout: *rollout,
            },
            CompiledStrategy::RolloutRandom { pct } => SpecStrategy::RolloutRandom { pct: *pct },
            CompiledStrategy::RolloutDefault { group, rollout } => SpecStrategy::RolloutDefault {
                group: group@,
                rollout: *rollout,
            },
            CompiledStrategy::RemoteAddress { nets } => SpecStrategy::RemoteAddress { nets: nets@ },
        }
    }

    pub open spec fn wf(&self) -> bool {
        match self {
            CompiledStrategy::RemoteAddress { nets } => spec_nets_wf(nets@),
            _ => true,
        }
    }
}

/// Every network of the list is well-formed.
pub open spec fn spec_nets_wf(nets: Seq<IpNetwork>) -> bool {
    forall|i: int| 0 <= i < nets.len() ==> net_wf(#[trigger] nets[i])
}

// --------------------------------------------------------------- params

/// The value of a strategy parameter, by key.
pub open spec fn spec_param(
    parameters: Option<Seq<(String, String)>>,
    key: Seq<char>,
) -> Option<Seq<char>> {
    match parameters {
        Some(params) => spec_assoc_get(props_view(params), key),
        None => None,
    }
}

fn param_get<'a>(parameters: Option<&'a Vec<(String, String)>>, key: &str) -> (r: Option<
    &'a String,
>)
    ensures
        match r {
            Some(v) => spec_param(opt_params_view(parameters), key@) == Some(v@),
            None => spec_param(opt_params_view(parameters), key@) is None,
        },
{
    match parameters {
        Some(params) => assoc_get(params, key),
        None => None,
    }
}

/// The ghost view of an optional parameter map reference.
pub open spec fn opt_params_view(p: Option<&Vec<(String, String)>>) -> Option<
    Seq<(String, String)>,
> {
    match p {
        Some(v) => Some(v@),
        None => None,
    }
}

// ------------------------------------------------------- deterministic spec

/// The gradual-rollout decision: false without an identifier; the edges 0
/// and 100 short-circuit; otherwise the hash must fall within the rollout.
pub open spec fn spec_partial_rollout(
    group: Seq<char>,
    variable: Option<Seq<char>>,
    rollout: u32,
) -> bool {
    match variable {
        None => false,
        Some(v) => if rollout == 0 {
            false
        } else if rollout == 100 {
            true
        } else {
            rollout >= hash::spec_normalised_hash(group, v, 100, 0)
        },
    }
}

/// What a strategy decides on a context, where the decision is
/// deterministic; `None` where it draws fresh randomness.
pub open spec fn spec_strategy_det(s: SpecStrategy, ctx: Context) -> Option<bool> {
    match s {
        SpecStrategy::AlwaysTrue => Some(true),
        SpecStrategy::AlwaysFalse => Some(false),
        SpecStrategy::UserWithId { user_ids } => Some(
            match opt_str_view(ctx.user_id) {
                Some(u) => strutil::spec_str_list_has(user_ids, u),
                None => false,
            },
        ),
        SpecStrategy::RolloutUserId { group, rollout } => Some(
            spec_partial_rollout(group, opt_str_view(ctx.user_id), rollout),
        ),
        SpecStrategy::RolloutSessionId { group, rollout } => Some(
            spec_partial_rollout(group, opt_str_view(ctx.session_id), rollout),
        ),
        SpecStrategy::RolloutRandom { pct } => if pct == 0 {
            Some(false)
        } else if pct >= 100 {
            Some(true)
        } else {
            None
        },
        SpecStrategy::RolloutDefault { group, rollout } => {
            if ctx.user_id is Some {
                Some(spec_partial_rollout(group, opt_str_view(ctx.user_id), rollout))
            } else if ctx.session_id is Some {
                Some(spec_partial_rollout(group, opt_str_view(ctx.session_id), rollout))
            } else {
                let pct = rollout as u8;
                if pct == 0 {
                    Some(false)
                } else if pct >= 100 {
                    Some(true)
                } else {
                    None
                }
            }
        },
        SpecStrategy::RemoteAddress { nets } => Some(
            match ctx.remote_address {
                Some(a) => spec_any_contains(nets, a.ip),
                None => false,
            },
        ),
    }
}

// ------------------------------------------------------------- wrappers

/// Relies on rand::random_range over `0..100`: the draw lies below 100.
/// Nothing else can be promised of a fresh random draw.
#[verifier::external_body]
fn random_below_100() -> (r: u8)
    ensures
        r < 100,
{
    rand::random_range(0u8..100u8)
}

/// Relies on hostname::get: the machine's hostname when it can be read and
/// holds valid Unicode. The result depends on the machine, so nothing is
/// promised of its value.
#[verifier::external_body]
fn get_hostname() -> (r: Option<String>)
{
    match hostname::get() {
        Ok(h) => h.into_string().ok(),
        Err(_) => None,
    }
}

/// The random-percentage check: the edges are deterministic, anything
/// between draws fresh randomness.
fn pick_random(pct: u8) -> (r: bool)
    ensures
        pct == 0 ==> !r,
        pct >= 100 ==> r,
{
    if pct == 0 {
        false
    } else if pct >= 100 {
        true
    } else {
        let picked = random_below_100();
        pct > picked
    }
}

// ---------------------------------------------------------- strategy fns

/// The standard strategy: always on.
pub fn default(_parameters: Option<&Vec<(String, String)>>) -> (r: CompiledStrategy)
    ensures
        r.sview() == SpecStrategy::AlwaysTrue,
{
    CompiledStrategy::AlwaysTrue
}

/// The userWithId strategy: on exactly for the user ids listed in the
/// comma-separated `userIds` parameter, each trimmed.
pub fn user_with_id(parameters: Option<&Vec<(String, String)>>) -> (r: CompiledStrategy)
    ensures
        r.sview() == (SpecStrategy::UserWithId {
            user_ids: match spec_param(opt_params_view(parameters), "userIds"@) {
                Some(list) => strutil::spec_split_trimmed(list, ','),
                None => Seq::empty(),
            },
        }),
{
    let user_ids: Vec<String> = match param_get(parameters, "userIds") {
        Some(list) => strutil::split_trimmed(list.as_str(), ','),
        None => {
            let empty_ids: Vec<String> = Vec::new();
            proof {
                assert(strutil::strs_view(empty_ids@) =~= Seq::<Seq<char>>::empty());
            }
            empty_ids
        },
    };
    CompiledStrategy::UserWithId { user_ids }
}

/// The hash group and rollout percentage of a gradual rollout: `groupId`
/// (or empty) and the `rollout_key` parameter parsed as a number (or 0).
pub fn group_and_rollout(parameters: Option<&Vec<(String, String)>>, rollout_key: &str) -> (r: (
    String,
    u32,
))
    ensures
        r.0@ == spec_group_of(opt_params_view(parameters)),
        r.1 == spec_rollout_of(opt_params_view(parameters), rollout_key@),
{
    let group: String = match param_get(parameters, "groupId") {
        Some(g) => g.clone(),
        None => String::new(),
    };
    let rollout: u32 = match param_get(parameters, rollout_key) {
        Some(s) => match strutil::parse_u32(s.as_str()) {
            Some(v) => v,
            None => 0,
        },
        None => 0,
    };
    (group, rollout)
}

/// The `groupId` parameter, or empty.
pub open spec fn spec_group_of(parameters: Option<Seq<(String, String)>>) -> Seq<char> {
    match spec_param(parameters, "groupId"@) {
        Some(g) => g,
        None => Seq::empty(),
    }
}

/// The rollout percentage parameter, or 0 when absent or unparseable.
pub open spec fn spec_rollout_of(
    parameters: Option<Seq<(String, String)>>,
    rollout_key: Seq<char>,
) -> u32 {
    match spec_param(parameters, rollout_key) {
        Some(s) => match strutil::spec_parse_u32(s) {
            Some(v) => v,
            None => 0,
        },
        None => 0,
    }
}

/// The gradual-rollout decision, per `spec_partial_rollout`.
pub fn partial_rollout(group: &str, variable: Option<&String>, rollout: u32) -> (r: bool)
    ensures
        r == spec_partial_rollout(
            group@,
            match variable {
                Some(v) => Some(v@),
                None => None,
            },
            rollout,
        ),
{
    let variable = match variable {
        Some(v) => v,
        None => {
            return false;
        },
    };
    if rollout == 0 {
        false
    } else if rollout == 100 {
        true
    } else {
        let normalised = hash::normalised_hash(group, variable.as_str(), 100);
        rollout >= normalised
    }
}

fn rollout_by_user(parameters: Option<&Vec<(String, String)>>, rollout_key: &str) -> (r:
    CompiledStrategy)
    ensures
        r.sview() == (SpecStrategy::RolloutUserId {
            group: spec_group_of(opt_params_view(parameters)),
            rollout: spec_rollout_of(opt_params_view(parameters), rollout_key@),
        }),
{
    let gr = group_and_rollout(parameters, rollout_key);
    CompiledStrategy::RolloutUserId { group: gr.0, rollout: gr.1 }
}

fn rollout_by_session(parameters: Option<&Vec<(String, String)>>, rollout_key: &str) -> (r:
    CompiledStrategy)
    ensures
        r.sview() == (SpecStrategy::RolloutSessionId {
            group: spec_group_of(opt_params_view(parameters)),
            rollout: spec_rollout_of(opt_params_view(parameters), rollout_key@),
        }),
{
    let gr = group_and_rollout(parameters, rollout_key);
    CompiledStrategy::RolloutSessionId { group: gr.0, rollout: gr.1 }
}

/// The flexibleRollout strategy: `stickiness` picks the hash key
/// (`default` falls through user, session, then a random draw); a missing
/// or unknown stickiness compiles to constant false.
pub fn flexible_rollout(parameters: Option<&Vec<(String, String)>>) -> (r: CompiledStrategy)
    ensures
        r.sview() == spec_flexible_rollout(opt_params_view(parameters)),
{
    let stickiness = match param_get(parameters, "stickiness") {
        Some(s) => s,
        None => {
            return CompiledStrategy::AlwaysFalse;
        },
    };
    if strutil::str_eq(stickiness.as_str(), "default") {
        let gr = group_and_rollout(parameters, "rollout");
        CompiledStrategy::RolloutDefault { group: gr.0, rollout: gr.1 }
    } else if strutil::str_eq(stickiness.as_str(), "userId") {
        rollout_by_user(parameters, "rollout")
    } else if strutil::str_eq(stickiness.as_str(), "sessionId") {
        rollout_by_session(parameters, "rollout")
    } else if strutil::str_eq(stickiness.as_str(), "random") {
        _random(parameters, "rollout")
    } else {
        CompiledStrategy::AlwaysFalse
    }
}

/// What flexibleRollout compiles to, by stickiness.
pub open spec fn spec_flexible_rollout(parameters: Option<Seq<(String, String)>>) -> SpecStrategy {
    match spec_param(parameters, "stickiness"@) {
        None => SpecStrategy::AlwaysFalse,
        Some(stickiness) => {
            if stickiness == "default"@ {
                SpecStrategy::RolloutDefault {
                    group: spec_group_of(parameters),
                    rollout: spec_rollout_of(parameters, "rollout"@),
                }
            } else if stickiness == "userId"@ {
                SpecStrategy::RolloutUserId {
                    group: spec_group_of(parameters),
                    rollout: spec_rollout_of(parameters, "rollout"@),
                }
            } else if stickiness == "sessionId"@ {
                SpecStrategy::RolloutSessionId {
                    group: spec_group_of(parameters),
                    rollout: spec_rollout_of(parameters, "rollout"@),
                }
            } else if stickiness == "random"@ {
                SpecStrategy::RolloutRandom { pct: spec_pct_of(parameters, "rollout"@) }
            } else {
                SpecStrategy::AlwaysFalse
            }
        },
    }
}

/// The gradualRolloutUserId strategy: `percentage` of users by hash.
pub fn user_id(parameters: Option<&Vec<(String, String)>>) -> (r: CompiledStrategy)
    ensures
        r.sview() == (SpecStrategy::RolloutUserId {
            group: spec_group_of(opt_params_view(parameters)),
            rollout: spec_rollout_of(opt_params_view(parameters), "percentage"@),
        }),
{
    rollout_by_user(parameters, "percentage")
}

/// The gradualRolloutSessionId strategy: `percentage` of sessions by hash.
pub fn session_id(parameters: Option<&Vec<(String, String)>>) -> (r: CompiledStrategy)
    ensures
        r.sview() == (SpecStrategy::RolloutSessionId {
            group: spec_group_of(opt_params_view(parameters)),
            rollout: spec_rollout_of(opt_params_view(parameters), "percentage"@),
        }),
{
    rollout_by_session(parameters, "percentage")
}

/// The percentage parameter as a byte, or 0 when absent or unparseable.
pub open spec fn spec_pct_of(
    parameters: Option<Seq<(String, String)>>,
    rollout_key: Seq<char>,
) -> u8 {
    match spec_param(parameters, rollout_key) {
        Some(s) => match strutil::spec_parse_u8(s) {
            Some(v) => v,
            None => 0,
        },
        None => 0,
    }
}

/// A random rollout with its percentage read from `rollout_key`.
pub fn _random(parameters: Option<&Vec<(String, String)>>, rollout_key: &str) -> (r:
    CompiledStrategy)
    ensures
        r.sview() == (SpecStrategy::RolloutRandom {
            pct: spec_pct_of(opt_params_view(parameters), rollout_key@),
        }),
{
    let pct: u8 = match param_get(parameters, rollout_key) {
        Some(s) => match strutil::parse_u8(s.as_str()) {
            Some(v) => v,
            None => 0,
        },
        None => 0,
    };
    CompiledStrategy::RolloutRandom { pct }
}

/// The gradualRolloutRandom strategy: on for `percentage` of evaluations.
pub fn random(parameters: Option<&Vec<(String, String)>>) -> (r: CompiledStrategy)
    ensures
        r.sview() == (SpecStrategy::RolloutRandom {
            pct: spec_pct_of(opt_params_view(parameters), "percentage"@),
        }),
{
    _random(parameters, "percentage")
}

/// The networks of the comma-separated `IPs` parameter, trimmed and
/// parsed, unparseable entries skipped.
pub open spec fn spec_ips_of(parameters: Option<Seq<(String, String)>>) -> Seq<IpNetwork> {
    match spec_param(parameters, "IPs"@) {
        Some(list) => crate::constraint::spec_parse_nets(strutil::spec_split(list, ',')),
        None => Seq::empty(),
    }
}

/// The remoteAddress strategy: on when the context address falls within
/// any listed address or range.
pub fn remote_address(parameters: Option<&Vec<(String, String)>>) -> (r: CompiledStrategy)
    ensures
        r.sview() == (SpecStrategy::RemoteAddress { nets: spec_ips_of(opt_params_view(parameters)) }),
        r.wf(),
{
    let nets: Vec<IpNetwork> = match param_get(parameters, "IPs") {
        Some(list) => {
            let pieces = strutil::split_char(list.as_str(), ',');
            crate::constraint::parse_nets(&pieces)
        },
        None => {
            let empty_nets: Vec<IpNetwork> = Vec::new();
            proof {
                assert(empty_nets@ =~= Seq::<IpNetwork>::empty());
            }
            empty_nets
        },
    };
    CompiledStrategy::RemoteAddress { nets }
}

/// What the applicationHostname strategy compiles to for a given resolved
/// hostname: on exactly when the hostname is among the trimmed entries of
/// the `hostNames` parameter.
pub open spec fn spec_hostname_strategy(
    parameters: Option<Seq<(String, String)>>,
    this_host: Option<Seq<char>>,
) -> SpecStrategy {
    match (this_host, spec_param(parameters, "hostNames"@)) {
        (Some(h), Some(list)) => if strutil::spec_str_list_has(
            strutil::spec_split_trimmed(list, ','),
            h,
        ) {
            SpecStrategy::AlwaysTrue
        } else {
            SpecStrategy::AlwaysFalse
        },
        _ => SpecStrategy::AlwaysFalse,
    }
}

/// The applicationHostname strategy for a known hostname value.
pub fn hostname_with(
    parameters: Option<&Vec<(String, String)>>,
    this_host: Option<&String>,
) -> (r: CompiledStrategy)
    ensures
        r.sview() == spec_hostname_strategy(
            opt_params_view(parameters),
            match this_host {
                Some(h) => Some(h@),
                None => None,
            },
        ),
{
    let host = match this_host {
        Some(h) => h,
        None => {
            return CompiledStrategy::AlwaysFalse;
        },
    };
    let list = match param_get(parameters, "hostNames") {
        Some(l) => l,
        None => {
            return CompiledStrategy::AlwaysFalse;
        },
    };
    let entries = strutil::split_trimmed(list.as_str(), ',');
    if strutil::list_has(&entries, host.as_str()) {
        CompiledStrategy::AlwaysTrue
    } else {
        CompiledStrategy::AlwaysFalse
    }
}

/// The applicationHostname strategy: the machine's hostname is resolved
/// once, at compile time. The result depends on the machine, so the
/// contract promises only a constant decision.
pub fn hostname(parameters: Option<&Vec<(String, String)>>) -> (r: CompiledStrategy)
    ensures
        r.sview() == SpecStrategy::AlwaysTrue || r.sview() == SpecStrategy::AlwaysFalse,
{
    let this_host = get_hostname();
    let host_ref = match &this_host {
        Some(h) => Some(h),
        None => None,
    };
    hostname_with(parameters, host_ref)
}

// ------------------------------------------------------------ evaluation

/// Evaluates a compiled strategy on a context; where the decision is
/// deterministic the result is pinned exactly.
pub fn evaluate_strategy(s: &CompiledStrategy, ctx: &Context) -> (r: bool)
    requires
        s.wf(),
    ensures
        spec_strategy_det(s.sview(), *ctx) matches Some(b) ==> r == b,
{
    match s {
        CompiledStrategy::AlwaysTrue => true,
        CompiledStrategy::AlwaysFalse => false,
        CompiledStrategy::UserWithId { user_ids } => match &ctx.user_id {
            Some(u) => strutil::list_has(user_ids, u.as_str()),
            None => false,
        },
        CompiledStrategy::RolloutUserId { group, rollout } => partial_rollout(
            group.as_str(),
            ctx.user_id.as_ref(),
            *rollout,
        ),
        CompiledStrategy::RolloutSessionId { group, rollout } => partial_rollout(
            group.as_str(),
            ctx.session_id.as_ref(),
            *rollout,
        ),
        CompiledStrategy::RolloutRandom { pct } => pick_random(*pct),
        CompiledStrategy::RolloutDefault { group, rollout } => {
            if ctx.user_id.is_some() {
                partial_rollout(group.as_str(), ctx.user_id.as_ref(), *rollout)
            } else if ctx.session_id.is_some() {
                partial_rollout(group.as_str(), ctx.session_id.as_ref(), *rollout)
            } else {
                let pct = #[verifier::truncate] (*rollout as u8);
                pick_random(pct)
            }
        },
        CompiledStrategy::RemoteAddress { nets } => match &ctx.remote_address {
            Some(a) => any_contains(nets, &a.ip),
            None => false,
        },
    }
}

/// An evaluator decides a context; compiled strategies and constrained
/// strategies both implement it.
pub trait Evaluator {
    fn evaluate(&self, ctx: &Context) -> bool;
}

impl Evaluator for CompiledStrategy {
    fn evaluate(&self, ctx: &Context) -> bool
    {
        if !check_strategy_wf(self) {
            return false;
        }
        evaluate_strategy(self, ctx)
    }
}

fn check_strategy_wf(s: &CompiledStrategy) -> (r: bool)
    ensures
        r == s.wf(),
{
    match s {
        CompiledStrategy::RemoteAddress { nets } => {
            let mut i: usize = 0;
            while i < nets.len()
                invariant
                    0 <= i <= nets@.len(),
                    s.wf() == spec_nets_wf(nets@),
                    forall|j: int| 0 <= j < i ==> net_wf(#[trigger] nets@[j]),
                decreases nets@.len() - i,
            {
                let n = nets[i];
                let ok: bool = if n.ip.v4 {
                    n.ip.bits < 0x100000000u128 && n.prefix <= 32
                } else {
                    n.prefix <= 128
                };
                if !ok {
                    proof {
                        assert(!net_wf(nets@[i as int]));
                        assert(!spec_nets_wf(nets@));
                    }
                    return false;
                }
                i += 1;
            }
            proof {
                assert(spec_nets_wf(nets@));
            }
            true
        },
        _ => true,
    }
}

// --------------------------------------------------------- constrained

/// A strategy gated by its constraints: all must hold before the strategy
/// itself decides.
pub struct ConstrainedStrategy {
    pub constraints: Vec<CompiledConstraint>,
    pub strategy: CompiledStrategy,
}

impl ConstrainedStrategy {
    pub open spec fn wf(&self) -> bool {
        cons_wf(self.constraints@) && self.strategy.wf()
    }
}

/// What a constrained strategy decides where deterministic: false as soon
/// as a constraint fails, else the strategy's own decision.
pub open spec fn spec_constrained_det(
    constraints: Seq<SpecConstraint>,
    strategy: SpecStrategy,
    ctx: Context,
) -> Option<bool> {
    if spec_all_constraints_hold(constraints, ctx) {
        spec_strategy_det(strategy, ctx)
    } else {
        Some(false)
    }
}

/// Gates a compiled strategy with its wire constraints; a missing or empty
/// constraint list leaves the strategy alone.
pub fn constrain(constraints: Option<Vec<Constraint>>, strategy: CompiledStrategy) -> (r:
    ConstrainedStrategy)
    ensures
        r.strategy == strategy,
        cons_views(r.constraints@) == (match constraints {
            Some(cs) => cs@.map_values(
                |c: Constraint| crate::constraint::spec_compile_constraint(c.wview()),
            ),
            None => Seq::<SpecConstraint>::empty(),
        }),
        strategy.wf() ==> r.wf(),
{
    let compiled: Vec<CompiledConstraint> = match constraints {
        Some(cs) => compile_constraints(cs),
        None => {
            let none_compiled: Vec<CompiledConstraint> = Vec::new();
            proof {
                assert(cons_views(none_compiled@) =~= Seq::<SpecConstraint>::empty());
            }
            none_compiled
        },
    };
    ConstrainedStrategy { constraints: compiled, strategy }
}

/// Evaluates a constrained strategy: every constraint, then the strategy.
pub fn evaluate_constrained(cs: &ConstrainedStrategy, ctx: &Context) -> (r: bool)
    requires
        cs.wf(),
    ensures
        spec_constrained_det(cons_views(cs.constraints@), cs.strategy.sview(), *ctx) matches Some(
            b,
        ) ==> r == b,
{
    if !all_constraints_hold(&cs.constraints, ctx) {
        return false;
    }
    evaluate_strategy(&cs.strategy, ctx)
}

} // verus!
