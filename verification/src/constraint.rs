//! Compiling a wire constraint into its evaluated form and running it
//! against a context. The compiled form pre-folds case and pre-parses IP
//! ranges; evaluation is a pure function of the constraint and the context.
use vstd::prelude::*;
use crate::api::{Constraint, ConstraintExpression};
use crate::context::{Context, opt_str_view, props_view, spec_assoc_get, assoc_get};
use crate::ipaddr::{IpNetwork, net_wf, spec_any_contains, spec_parse_cidr, parse_cidr, any_contains};
use crate::numdec;
use crate::strutil;
use crate::vercmp::{Version, VersionView, spec_version_cmp, version_cmp, semver_of, spec_version_of};

verus! {

#[derive(Clone, Copy)]
pub enum StrOp {
    Contains,
    StartsWith,
    EndsWith,
}

#[derive(Clone, Copy)]
pub enum NumOp {
    Eq,
    Gt,
    Gte,
    Lt,
    Lte,
}

#[derive(Clone, Copy)]
pub enum SemverOp {
    Eq,
    Gt,
    Lt,
}

/// The context field a constraint reads.
pub enum ContextField {
    AppName,
    Environment,
    UserId,
    SessionId,
    RemoteAddr,
    CurrentTime,
    Property { key: String },
}

/// A compiled constraint expression.
pub enum CompiledExpression {
    ConstTrue,
    ConstFalse,
    InList { values: Vec<String> },
    NotInList { values: Vec<String> },
    StrMatch { op: StrOp, values: Vec<String>, case_insensitive: bool },
    NumCmp { op: NumOp, value: String },
    VersionCmp { op: SemverOp, value: Version },
    DateCmp { after: bool, value: i64 },
    InNets { nets: Vec<IpNetwork> },
    NotInNets { nets: Vec<IpNetwork> },
}

/// A compiled constraint: the field, the inversion flag, the expression.
pub struct CompiledConstraint {
    pub field: ContextField,
    pub inverted: bool,
    pub expr: CompiledExpression,
}

// ------------------------------------------------------------ ghost views

pub enum SpecField {
    AppName,
    Environment,
    UserId,
    SessionId,
    RemoteAddr,
    CurrentTime,
    Property { key: Seq<char> },
}

pub enum SpecExpr {
    ConstTrue,
    ConstFalse,
    InList { values: Seq<Seq<char>> },
    NotInList { values: Seq<Seq<char>> },
    StrMatch { op: StrOp, values: Seq<Seq<char>>, ci: bool },
    NumCmp { op: NumOp, value: Seq<char> },
    VersionCmp { op: SemverOp, value: VersionView },
    DateCmp { after: bool, value: i64 },
    InNets { nets: Seq<IpNetwork> },
    NotInNets { nets: Seq<IpNetwork> },
}

pub struct SpecConstraint {
    pub field: SpecField,
    pub inverted: bool,
    pub expr: SpecExpr,
}

impl ContextField {
    pub open spec fn fview(&self) -> SpecField {
        match self {
            ContextField::AppName => SpecField::AppName,
            ContextField::Environment => SpecField::Environment,
            ContextField::UserId => SpecField::UserId,
            ContextField::SessionId => SpecField::SessionId,
            ContextField::RemoteAddr => SpecField::RemoteAddr,
            ContextField::CurrentTime => SpecField::CurrentTime,
            ContextField::Property { key } => SpecField::Property { key: key@ },
        }
    }
}

impl CompiledExpression {
    pub open spec fn eview(&self) -> SpecExpr {
        match self {
            CompiledExpression::ConstTrue => SpecExpr::ConstTrue,
            CompiledExpression::ConstFalse => SpecExpr::ConstFalse,
            CompiledExpression::InList { values } => SpecExpr::InList {
                values: strutil::strs_view(values@),
            },
            CompiledExpression::NotInList { values } => SpecExpr::NotInList {
                values: strutil::strs_view(values@),
            },
            CompiledExpression::StrMatch { op, values, case_insensitive } => SpecExpr::StrMatch {
                op: *op,
                values: strutil::strs_view(values@),
                ci: *case_insensitive,
            },
            CompiledExpression::NumCmp { op, value } => SpecExpr::NumCmp {
                op: *op,
                value: value@,
            },
            CompiledExpression::VersionCmp { op, value } => SpecExpr::VersionCmp {
                op: *op,
                value: value.vview(),
            },
            CompiledExpression::DateCmp { after, value } => SpecExpr::DateCmp {
                after: *after,
                value: *value,
            },
            CompiledExpression::InNets { nets } => SpecExpr::InNets { nets: nets@ },
            CompiledExpression::NotInNets { nets } => SpecExpr::NotInNets { nets: nets@ },
        }
    }

    /// Any held network list is well-formed.
    pub open spec fn wf(&self) -> bool {
        match self {
            CompiledExpression::InNets { nets } => forall|i: int|
                0 <= i < nets@.len() ==> net_wf(#[trigger] nets@[i]),
            CompiledExpression::NotInNets { nets } => forall|i: int|
                0 <= i < nets@.len() ==> net_wf(#[trigger] nets@[i]),
            _ => true,
        }
    }
}

impl CompiledConstraint {
    pub open spec fn cview(&self) -> SpecConstraint {
        SpecConstraint { field: self.field.fview(), inverted: self.inverted, expr: self.expr.eview() }
    }

    pub open spec fn wf(&self) -> bool {
        self.expr.wf()
    }
}

/// The ghost view of a wire constraint expression.
pub enum SpecWireExpr {
    In { values: Seq<Seq<char>> },
    NotIn { values: Seq<Seq<char>> },
    StrContains { values: Seq<Seq<char>> },
    StrStartsWith { values: Seq<Seq<char>> },
    StrEndsWith { values: Seq<Seq<char>> },
    NumEq { value: Seq<char> },
    NumGT { value: Seq<char> },
    NumGTE { value: Seq<char> },
    NumLT { value: Seq<char> },
    NumLTE { value: Seq<char> },
    SemverEq { value: VersionView },
    SemverGT { value: VersionView },
    SemverLT { value: VersionView },
    DateAfter { value: i64 },
    DateBefore { value: i64 },
    Unknown,
}

pub struct SpecWireConstraint {
    pub context_name: Seq<char>,
    pub inverted: bool,
    pub case_insensitive: bool,
    pub expr: SpecWireExpr,
}

impl ConstraintExpression {
    pub open spec fn wview(&self) -> SpecWireExpr {
        match self {
            ConstraintExpression::In { values } => SpecWireExpr::In {
                values: strutil::strs_view(values@),
            },
            ConstraintExpression::NotIn { values } => SpecWireExpr::NotIn {
                values: strutil::strs_view(values@),
            },
            ConstraintExpression::StrContains { values } => SpecWireExpr::StrContains {
                values: strutil::strs_view(values@),
            },
            ConstraintExpression::StrStartsWith { values } => SpecWireExpr::StrStartsWith {
                values: strutil::strs_view(values@),
            },
            ConstraintExpression::StrEndsWith { values } => SpecWireExpr::StrEndsWith {
                values: strutil::strs_view(values@),
            },
            ConstraintExpression::NumEq { value } => SpecWireExpr::NumEq { value: value@ },
            ConstraintExpression::NumGT { value } => SpecWireExpr::NumGT { value: value@ },
            ConstraintExpression::NumGTE { value } => SpecWireExpr::NumGTE { value: value@ },
            ConstraintExpression::NumLT { value } => SpecWireExpr::NumLT { value: value@ },
            ConstraintExpression::NumLTE { value } => SpecWireExpr::NumLTE { value: value@ },
            ConstraintExpression::SemverEq { value } => SpecWireExpr::SemverEq {
                value: value.vview(),
            },
            ConstraintExpression::SemverGT { value } => SpecWireExpr::SemverGT {
                value: value.vview(),
            },
            ConstraintExpression::SemverLT { value } => SpecWireExpr::SemverLT {
                value: value.vview(),
            },
            ConstraintExpression::DateAfter { value } => SpecWireExpr::DateAfter { value: *value },
            ConstraintExpression::DateBefore { value } => SpecWireExpr::DateBefore {
                value: *value,
            },
            ConstraintExpression::Unknown => SpecWireExpr::Unknown,
        }
    }
}

impl Constraint {
    pub open spec fn wview(&self) -> SpecWireConstraint {
        SpecWireConstraint {
            context_name: self.context_name@,
            inverted: self.inverted,
            case_insensitive: self.case_insensitive,
            expr: self.expression.wview(),
        }
    }
}

// --------------------------------------------------------- compile (spec)

/// The field a context name selects: the six named fields, anything else a
/// free-form property.
pub open spec fn spec_field_of(name: Seq<char>) -> SpecField {
    if name == "appName"@ {
        SpecField::AppName
    } else if name == "environment"@ {
        SpecField::Environment
    } else if name == "userId"@ {
        SpecField::UserId
    } else if name == "sessionId"@ {
        SpecField::SessionId
    } else if name == "remoteAddress"@ {
        SpecField::RemoteAddr
    } else if name == "currentTime"@ {
        SpecField::CurrentTime
    } else {
        SpecField::Property { key: name }
    }
}

/// Match values folded to lower case when the constraint is
/// case-insensitive.
pub open spec fn spec_fold_values(values: Seq<Seq<char>>, ci: bool) -> Seq<Seq<char>> {
    if ci {
        values.map_values(|v: Seq<char>| strutil::lower_of(v))
    } else {
        values
    }
}

/// The networks parsed from a value list: each value trimmed and parsed,
/// unparseable ones skipped.
pub open spec fn spec_parse_nets(values: Seq<Seq<char>>) -> Seq<IpNetwork>
    decreases values.len(),
{
    if values.len() == 0 {
        Seq::empty()
    } else {
        let rest = spec_parse_nets(values.drop_first());
        match spec_parse_cidr(strutil::spec_trim(values[0])) {
            Some(n) => seq![n] + rest,
            None => rest,
        }
    }
}

/// How a wire expression compiles for a given field. String operators fold
/// case up front; `remoteAddress` membership pre-parses networks; an
/// operator that does not fit the field compiles to constant false.
pub open spec fn spec_compile_expr(e: SpecWireExpr, f: SpecField, ci: bool) -> SpecExpr {
    match f {
        SpecField::RemoteAddr => match e {
            SpecWireExpr::In { values } => SpecExpr::InNets { nets: spec_parse_nets(values) },
            SpecWireExpr::NotIn { values } => if values.len() == 0 {
                SpecExpr::ConstFalse
            } else {
                SpecExpr::NotInNets { nets: spec_parse_nets(values) }
            },
            SpecWireExpr::StrContains { values } => SpecExpr::StrMatch {
                op: StrOp::Contains,
                values: spec_fold_values(values, ci),
                ci,
            },
            SpecWireExpr::StrStartsWith { values } => SpecExpr::StrMatch {
                op: StrOp::StartsWith,
                values: spec_fold_values(values, ci),
                ci,
            },
            SpecWireExpr::StrEndsWith { values } => SpecExpr::StrMatch {
                op: StrOp::EndsWith,
                values: spec_fold_values(values, ci),
                ci,
            },
            _ => SpecExpr::ConstFalse,
        },
        SpecField::CurrentTime => match e {
            SpecWireExpr::DateAfter { value } => SpecExpr::DateCmp { after: true, value },
            SpecWireExpr::DateBefore { value } => SpecExpr::DateCmp { after: false, value },
            _ => SpecExpr::ConstFalse,
        },
        _ => match e {
            SpecWireExpr::In { values } => SpecExpr::InList { values },
            SpecWireExpr::NotIn { values } => if values.len() == 0 {
                SpecExpr::ConstTrue
            } else {
                SpecExpr::NotInList { values }
            },
            SpecWireExpr::StrContains { values } => SpecExpr::StrMatch {
                op: StrOp::Contains,
                values: spec_fold_values(values, ci),
                ci,
            },
            SpecWireExpr::StrStartsWith { values } => SpecExpr::StrMatch {
                op: StrOp::StartsWith,
                values: spec_fold_values(values, ci),
                ci,
            },
            SpecWireExpr::StrEndsWith { values } => SpecExpr::StrMatch {
                op: StrOp::EndsWith,
                values: spec_fold_values(values, ci),
                ci,
            },
            SpecWireExpr::NumEq { value } => SpecExpr::NumCmp { op: NumOp::Eq, value },
            SpecWireExpr::NumGT { value } => SpecExpr::NumCmp { op: NumOp::Gt, value },
            SpecWireExpr::NumGTE { value } => SpecExpr::NumCmp { op: NumOp::Gte, value },
            SpecWireExpr::NumLT { value } => SpecExpr::NumCmp { op: NumOp::Lt, value },
            SpecWireExpr::NumLTE { value } => SpecExpr::NumCmp { op: NumOp::Lte, value },
            SpecWireExpr::SemverEq { value } => SpecExpr::VersionCmp { op: SemverOp::Eq, value },
            SpecWireExpr::SemverGT { value } => SpecExpr::VersionCmp { op: SemverOp::Gt, value },
            SpecWireExpr::SemverLT { value } => SpecExpr::VersionCmp { op: SemverOp::Lt, value },
            _ => SpecExpr::ConstFalse,
        },
    }
}

/// What compiling a wire constraint yields.
pub open spec fn spec_compile_constraint(w: SpecWireConstraint) -> SpecConstraint {
    SpecConstraint {
        field: spec_field_of(w.context_name),
        inverted: w.inverted,
        expr: spec_compile_expr(w.expr, spec_field_of(w.context_name), w.case_insensitive),
    }
}

// ------------------------------------------------------------ eval (spec)

/// The string a field reads from the context: missing fields read nothing;
/// an address reads as its canonical text.
pub open spec fn spec_field_str(f: SpecField, ctx: Context) -> Option<Seq<char>> {
    match f {
        SpecField::AppName => Some(ctx.app_name@),
        SpecField::Environment => Some(ctx.environment@),
        SpecField::UserId => opt_str_view(ctx.user_id),
        SpecField::SessionId => opt_str_view(ctx.session_id),
        SpecField::RemoteAddr => match ctx.remote_address {
            Some(a) => Some(a.text@),
            None => None,
        },
        SpecField::CurrentTime => None,
        SpecField::Property { key } => spec_assoc_get(props_view(ctx.properties@), key),
    }
}

pub open spec fn spec_str_match(op: StrOp, hay: Seq<char>, needle: Seq<char>) -> bool {
    match op {
        StrOp::Contains => strutil::spec_contains_sub(hay, needle),
        StrOp::StartsWith => strutil::spec_starts_with(hay, needle),
        StrOp::EndsWith => strutil::spec_ends_with(hay, needle),
    }
}

pub open spec fn spec_any_str_match(op: StrOp, hay: Seq<char>, values: Seq<Seq<char>>) -> bool {
    exists|i: int| 0 <= i < values.len() && spec_str_match(op, hay, #[trigger] values[i])
}

pub open spec fn spec_num_pred(op: NumOp, c: Option<int>) -> bool {
    match c {
        None => false,
        Some(o) => match op {
            NumOp::Eq => o == 0,
            NumOp::Gt => o > 0,
            NumOp::Gte => o >= 0,
            NumOp::Lt => o < 0,
            NumOp::Lte => o <= 0,
        },
    }
}

/// A semver predicate over the parsed context value; an unparseable
/// context value yields false.
pub open spec fn spec_semver_pred(op: SemverOp, s: Seq<char>, value: VersionView) -> bool {
    match semver_of(s) {
        None => false,
        Some(w) => {
            let o = spec_version_cmp(spec_version_of(w), value);
            match op {
                SemverOp::Eq => o == 0,
                SemverOp::Gt => o > 0,
                SemverOp::Lt => o < 0,
            }
        },
    }
}

/// What a compiled expression evaluates to on a context.
pub open spec fn spec_eval_expr(e: SpecExpr, f: SpecField, ctx: Context) -> bool {
    match e {
        SpecExpr::ConstTrue => true,
        SpecExpr::ConstFalse => false,
        SpecExpr::InList { values } => match spec_field_str(f, ctx) {
            Some(v) => strutil::spec_str_list_has(values, v),
            None => false,
        },
        SpecExpr::NotInList { values } => match spec_field_str(f, ctx) {
            Some(v) => !strutil::spec_str_list_has(values, v),
            None => true,
        },
        SpecExpr::StrMatch { op, values, ci } => match spec_field_str(f, ctx) {
            Some(v) => spec_any_str_match(
                op,
                if ci {
                    strutil::lower_of(v)
                } else {
                    v
                },
                values,
            ),
            None => false,
        },
        SpecExpr::NumCmp { op, value } => match spec_field_str(f, ctx) {
            Some(v) => spec_num_pred(op, numdec::spec_num_cmp(v, value)),
            None => false,
        },
        SpecExpr::VersionCmp { op, value } => match spec_field_str(f, ctx) {
            Some(v) => spec_semver_pred(op, v, value),
            None => false,
        },
        SpecExpr::DateCmp { after, value } => match ctx.current_time {
            Some(t) => if after {
                t > value
            } else {
                t < value
            },
            None => false,
        },
        SpecExpr::InNets { nets } => match ctx.remote_address {
            Some(a) => spec_any_contains(nets, a.ip),
            None => false,
        },
        SpecExpr::NotInNets { nets } => match ctx.remote_address {
            Some(a) => if nets.len() == 0 {
                false
            } else {
                !spec_any_contains(nets, a.ip)
            },
            None => true,
        },
    }
}

pub open spec fn spec_apply_invert(inverted: bool, b: bool) -> bool {
    if inverted {
        !b
    } else {
        b
    }
}

/// What a compiled constraint evaluates to on a context.
pub open spec fn spec_constraint_eval(c: SpecConstraint, ctx: Context) -> bool {
    spec_apply_invert(c.inverted, spec_eval_expr(c.expr, c.field, ctx))
}

// ---------------------------------------------------------------- laws

/// Law: flipping a constraint's inversion flag negates its evaluation on
/// every context.
pub proof fn lemma_constraint_inversion(c: SpecConstraint, ctx: Context)
    ensures
        spec_constraint_eval(
            SpecConstraint { field: c.field, inverted: !c.inverted, expr: c.expr },
            ctx,
        ) == !spec_constraint_eval(c, ctx),
{
}

/// Law: flipping the inversion flag of a wire constraint negates what its
/// compiled form evaluates to, on every context.
pub proof fn lemma_wire_constraint_inversion(w: SpecWireConstraint, ctx: Context)
    ensures
        spec_constraint_eval(
            spec_compile_constraint(
                SpecWireConstraint {
                    context_name: w.context_name,
                    inverted: !w.inverted,
                    case_insensitive: w.case_insensitive,
                    expr: w.expr,
                },
            ),
            ctx,
        ) == !spec_constraint_eval(spec_compile_constraint(w), ctx),
{
}

// ---------------------------------------------------------- compile (exec)

/// The compiled field a context name selects.
pub fn field_of(name: &str) -> (r: ContextField)
    ensures
        r.fview() == spec_field_of(name@),
{
    if strutil::str_eq(name, "appName") {
        ContextField::AppName
    } else if strutil::str_eq(name, "environment") {
        ContextField::Environment
    } else if strutil::str_eq(name, "userId") {
        ContextField::UserId
    } else if strutil::str_eq(name, "sessionId") {
        ContextField::SessionId
    } else if strutil::str_eq(name, "remoteAddress") {
        ContextField::RemoteAddr
    } else if strutil::str_eq(name, "currentTime") {
        ContextField::CurrentTime
    } else {
        ContextField::Property { key: name.to_owned() }
    }
}

fn fold_values(values: Vec<String>, ci: bool) -> (r: Vec<String>)
    ensures
        strutil::strs_view(r@) == spec_fold_values(strutil::strs_view(values@), ci),
{
    if !ci {
        proof {
            assert(spec_fold_values(strutil::strs_view(values@), ci) == strutil::strs_view(
                values@,
            ));
        }
        return values;
    }
    let mut out: Vec<String> = Vec::new();
    let mut i: usize = 0;
    while i < values.len()
        invariant
            0 <= i <= values@.len(),
            out@.len() == i,
            forall|j: int| 0 <= j < i ==> #[trigger] out@[j]@ == strutil::lower_of(values@[j]@),
        decreases values@.len() - i,
    {
        out.push(strutil::to_lowercase(values[i].as_str()));
        i += 1;
    }
    proof {
        assert(strutil::strs_view(out@) =~= spec_fold_values(strutil::strs_view(values@), true));
    }
    out
}

/// Parses a value list into networks: each entry trimmed, bad ones skipped.
pub fn parse_nets(values: &Vec<String>) -> (r: Vec<IpNetwork>)
    ensures
        r@ == spec_parse_nets(strutil::strs_view(values@)),
        forall|i: int| 0 <= i < r@.len() ==> net_wf(#[trigger] r@[i]),
{
    let ghost vv = strutil::strs_view(values@);
    let mut out: Vec<IpNetwork> = Vec::new();
    let mut i: usize = 0;
    proof {
        assert(vv.skip(0) =~= vv);
        assert(out@ + spec_parse_nets(vv) =~= spec_parse_nets(vv));
    }
    while i < values.len()
        invariant
            0 <= i <= values@.len(),
            vv == strutil::strs_view(values@),
            spec_parse_nets(vv) == out@ + spec_parse_nets(vv.skip(i as int)),
            forall|j: int| 0 <= j < out@.len() ==> net_wf(#[trigger] out@[j]),
        decreases values@.len() - i,
    {
        proof {
            assert(vv.skip(i as int).len() == vv.len() - i);
            assert(vv.skip(i as int)[0] == vv[i as int]);
            assert(vv.skip(i as int).drop_first() =~= vv.skip(i as int + 1));
        }
        let trimmed = strutil::trim(values[i].as_str());
        match parse_cidr(trimmed) {
            Some(n) => {
                proof {
                    assert(out@ + (seq![n] + spec_parse_nets(vv.skip(i as int + 1))) =~= out@.push(
                        n,
                    ) + spec_parse_nets(vv.skip(i as int + 1)));
                }
                out.push(n);
            },
            None => {},
        }
        i += 1;
    }
    proof {
        assert(spec_parse_nets(vv.skip(values@.len() as int)) =~= Seq::<IpNetwork>::empty());
        assert(out@ + Seq::<IpNetwork>::empty() =~= out@);
    }
    out
}

/// Compiles one wire constraint into its evaluated form.
pub fn compile_constraint(c: Constraint) -> (r: CompiledConstraint)
    ensures
        r.cview() == spec_compile_constraint(c.wview()),
        r.wf(),
{
    let Constraint { context_name, inverted, case_insensitive, expression } = c;
    let field = field_of(context_name.as_str());
    let is_remote = matches!(field, ContextField::RemoteAddr);
    let is_time = matches!(field, ContextField::CurrentTime);
    let expr: CompiledExpression = if is_remote {
        match expression {
            ConstraintExpression::In { values } => CompiledExpression::InNets {
                nets: parse_nets(&values),
            },
            ConstraintExpression::NotIn { values } => {
                if values.len() == 0 {
                    CompiledExpression::ConstFalse
                } else {
                    CompiledExpression::NotInNets { nets: parse_nets(&values) }
                }
            },
            ConstraintExpression::StrContains { values } => CompiledExpression::StrMatch {
                op: StrOp::Contains,
                values: fold_values(values, case_insensitive),
                case_insensitive,
            },
            ConstraintExpression::StrStartsWith { values } => CompiledExpression::StrMatch {
                op: StrOp::StartsWith,
                values: fold_values(values, case_insensitive),
                case_insensitive,
            },
            ConstraintExpression::StrEndsWith { values } => CompiledExpression::StrMatch {
                op: StrOp::EndsWith,
                values: fold_values(values, case_insensitive),
                case_insensitive,
            },
            _ => CompiledExpression::ConstFalse,
        }
    } else if is_time {
        match expression {
            ConstraintExpression::DateAfter { value } => CompiledExpression::DateCmp {
                after: true,
                value,
            },
            ConstraintExpression::DateBefore { value } => CompiledExpression::DateCmp {
                after: false,
                value,
            },
            _ => CompiledExpression::ConstFalse,
        }
    } else {
        match expression {
            ConstraintExpression::In { values } => CompiledExpression::InList { values },
            ConstraintExpression::NotIn { values } => {
                if values.len() == 0 {
                    CompiledExpression::ConstTrue
                } else {
                    CompiledExpression::NotInList { values }
                }
            },
            ConstraintExpression::StrContains { values } => CompiledExpression::StrMatch {
                op: StrOp::Contains,
                values: fold_values(values, case_insensitive),
                case_insensitive,
            },
            ConstraintExpression::StrStartsWith { values } => CompiledExpression::StrMatch {
                op: StrOp::StartsWith,
                values: fold_values(values, case_insensitive),
                case_insensitive,
            },
            ConstraintExpression::StrEndsWith { values } => CompiledExpression::StrMatch {
                op: StrOp::EndsWith,
                values: fold_values(values, case_insensitive),
                case_insensitive,
            },
            ConstraintExpression::NumEq { value } => CompiledExpression::NumCmp {
                op: NumOp::Eq,
                value,
            },
            ConstraintExpression::NumGT { value } => CompiledExpression::NumCmp {
                op: NumOp::Gt,
                value,
            },
            ConstraintExpression::NumGTE { value } => CompiledExpression::NumCmp {
                op: NumOp::Gte,
                value,
            },
            ConstraintExpression::NumLT { value } => CompiledExpression::NumCmp {
                op: NumOp::Lt,
                value,
            },
            ConstraintExpression::NumLTE { value } => CompiledExpression::NumCmp {
                op: NumOp::Lte,
                value,
            },
            ConstraintExpression::SemverEq { value } => CompiledExpression::VersionCmp {
                op: SemverOp::Eq,
                value,
            },
            ConstraintExpression::SemverGT { value } => CompiledExpression::VersionCmp {
                op: SemverOp::Gt,
                value,
            },
            ConstraintExpression::SemverLT { value } => CompiledExpression::VersionCmp {
                op: SemverOp::Lt,
                value,
            },
            _ => CompiledExpression::ConstFalse,
        }
    };
    CompiledConstraint { field, inverted, expr }
}

// ------------------------------------------------------------ eval (exec)

/// The context value a compiled field reads.
pub fn field_str<'a>(f: &ContextField, ctx: &'a Context) -> (r: Option<&'a String>)
    ensures
        match r {
            Some(v) => spec_field_str(f.fview(), *ctx) == Some(v@),
            None => spec_field_str(f.fview(), *ctx) is None,
        },
{
    match f {
        ContextField::AppName => Some(&ctx.app_name),
        ContextField::Environment => Some(&ctx.environment),
        ContextField::UserId => match &ctx.user_id {
            Some(u) => Some(u),
            None => None,
        },
        ContextField::SessionId => match &ctx.session_id {
            Some(s) => Some(s),
            None => None,
        },
        ContextField::RemoteAddr => match &ctx.remote_address {
            Some(a) => Some(&a.text),
            None => None,
        },
        ContextField::CurrentTime => None,
        ContextField::Property { key } => assoc_get(&ctx.properties, key.as_str()),
    }
}

fn any_str_match(op: &StrOp, hay: &str, values: &Vec<String>) -> (r: bool)
    ensures
        r == spec_any_str_match(*op, hay@, strutil::strs_view(values@)),
{
    let ghost vv = strutil::strs_view(values@);
    let mut i: usize = 0;
    while i < values.len()
        invariant
            0 <= i <= values@.len(),
            vv == strutil::strs_view(values@),
            forall|j: int| 0 <= j < i ==> !spec_str_match(*op, hay@, #[trigger] vv[j]),
        decreases values@.len() - i,
    {
        proof {
            assert(vv[i as int] == values@[i as int]@);
        }
        let hit = match op {
            StrOp::Contains => strutil::contains_sub(hay, values[i].as_str()),
            StrOp::StartsWith => strutil::starts_with(hay, values[i].as_str()),
            StrOp::EndsWith => strutil::ends_with(hay, values[i].as_str()),
        };
        if hit {
            return true;
        }
        i += 1;
    }
    false
}

/// Evaluates one compiled constraint against a context.
pub fn evaluate_constraint(c: &CompiledConstraint, ctx: &Context) -> (r: bool)
    requires
        c.wf(),
    ensures
        r == spec_constraint_eval(c.cview(), *ctx),
{
    let base: bool = match &c.expr {
        CompiledExpression::ConstTrue => true,
        CompiledExpression::ConstFalse => false,
        CompiledExpression::InList { values } => match field_str(&c.field, ctx) {
            Some(v) => strutil::list_has(values, v.as_str()),
            None => false,
        },
        CompiledExpression::NotInList { values } => match field_str(&c.field, ctx) {
            Some(v) => !strutil::list_has(values, v.as_str()),
            None => true,
        },
        CompiledExpression::StrMatch { op, values, case_insensitive } => {
            match field_str(&c.field, ctx) {
                Some(v) => {
                    if *case_insensitive {
                        let folded = strutil::to_lowercase(v.as_str());
                        any_str_match(op, folded.as_str(), values)
                    } else {
                        any_str_match(op, v.as_str(), values)
                    }
                },
                None => false,
            }
        },
        CompiledExpression::NumCmp { op, value } => match field_str(&c.field, ctx) {
            Some(v) => {
                let o = numdec::num_cmp(v.as_str(), value.as_str());
                match o {
                    None => false,
                    Some(ord) => match op {
                        NumOp::Eq => ord == 0,
                        NumOp::Gt => ord > 0,
                        NumOp::Gte => ord >= 0,
                        NumOp::Lt => ord < 0,
                        NumOp::Lte => ord <= 0,
                    },
                }
            },
            None => false,
        },
        CompiledExpression::VersionCmp { op, value } => match field_str(&c.field, ctx) {
            Some(v) => match Version::parse(v.as_str()) {
                Some(parsed) => {
                    let ord = version_cmp(&parsed, value);
                    match op {
                        SemverOp::Eq => ord == 0,
                        SemverOp::Gt => ord > 0,
                        SemverOp::Lt => ord < 0,
                    }
                },
                None => false,
            },
            None => false,
        },
        CompiledExpression::DateCmp { after, value } => match &ctx.current_time {
            Some(t) => if *after {
                *t > *value
            } else {
                *t < *value
            },
            None => false,
        },
        CompiledExpression::InNets { nets } => match &ctx.remote_address {
            Some(a) => any_contains(nets, &a.ip),
            None => false,
        },
        CompiledExpression::NotInNets { nets } => match &ctx.remote_address {
            Some(a) => {
                if nets.len() == 0 {
                    false
                } else {
                    !any_contains(nets, &a.ip)
                }
            },
            None => true,
        },
    };
    if c.inverted {
        !base
    } else {
        base
    }
}

// ------------------------------------------------------- constraint lists

/// What a list of compiled constraints requires: every one must hold.
pub open spec fn spec_all_constraints_hold(cs: Seq<SpecConstraint>, ctx: Context) -> bool {
    forall|i: int| 0 <= i < cs.len() ==> spec_constraint_eval(#[trigger] cs[i], ctx)
}

/// The views of a compiled constraint list.
pub open spec fn cons_views(cs: Seq<CompiledConstraint>) -> Seq<SpecConstraint> {
    cs.map_values(|c: CompiledConstraint| c.cview())
}

pub open spec fn cons_wf(cs: Seq<CompiledConstraint>) -> bool {
    forall|i: int| 0 <= i < cs.len() ==> (#[trigger] cs[i]).wf()
}

/// Compiles a wire constraint list.
pub fn compile_constraints(constraints: Vec<Constraint>) -> (r: Vec<CompiledConstraint>)
    ensures
        cons_views(r@) == constraints@.map_values(
            |c: Constraint| spec_compile_constraint(c.wview()),
        ),
        cons_wf(r@),
{
    let ghost cv = constraints@;
    let mut out: Vec<CompiledConstraint> = Vec::new();
    let mut rest = constraints;
    proof {
        assert(cv.skip(0) =~= cv);
    }
    while rest.len() > 0
        invariant
            out@.len() + rest@.len() == cv.len(),
            rest@ == cv.skip(out@.len() as int),
            forall|j: int| 0 <= j < out@.len() ==> (#[trigger] out@[j]).cview()
                == spec_compile_constraint(cv[j].wview()),
            cons_wf(out@),
        decreases rest@.len(),
    {
        let ghost i = out@.len() as int;
        proof {
            assert(rest@[0] == cv.skip(i)[0]);
            assert(cv.skip(i)[0] == cv[i]);
            assert(rest@.remove(0) =~= cv.skip(i + 1));
        }
        let c = rest.remove(0);
        let compiled = compile_constraint(c);
        proof {
            assert(cons_wf(out@.push(compiled))) by {
                assert(forall|j: int|
                    0 <= j < out@.len() ==> out@.push(compiled)[j] == #[trigger] out@[j]);
                assert(out@.push(compiled)[out@.len() as int] == compiled);
            }
            assert(forall|j: int|
                0 <= j < out@.len() ==> out@.push(compiled)[j] == #[trigger] out@[j]);
            assert(out@.push(compiled)[i] == compiled);
        }
        out.push(compiled);
    }
    proof {
        assert(cons_views(out@) =~= cv.map_values(|c: Constraint| spec_compile_constraint(c.wview())));
    }
    out
}

/// All constraints hold, per `spec_all_constraints_hold`.
pub fn all_constraints_hold(cs: &Vec<CompiledConstraint>, ctx: &Context) -> (r: bool)
    requires
        cons_wf(cs@),
    ensures
        r == spec_all_constraints_hold(cons_views(cs@), *ctx),
{
    let mut i: usize = 0;
    while i < cs.len()
        invariant
            0 <= i <= cs@.len(),
            cons_wf(cs@),
            forall|j: int| 0 <= j < i ==> spec_constraint_eval(#[trigger] cons_views(cs@)[j], *ctx),
        decreases cs@.len() - i,
    {
        proof {
            assert(cons_views(cs@)[i as int] == cs@[i as int].cview());
        }
        if !evaluate_constraint(&cs[i], ctx) {
            assert(!spec_constraint_eval(cons_views(cs@)[i as int], *ctx));
            return false;
        }
        i += 1;
    }
    true
}

} // verus!
