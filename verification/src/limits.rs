//! Limits on requests and budgets.
use vstd::prelude::*;

use crate::clock;
use crate::config;
use crate::config::AppConfig;
use crate::decimal;
use crate::json;
use crate::json::{Json, Number};
use crate::keys::KeyCheck;
use crate::text;

verus! {

/// Whom a limit is for.
#[derive(Debug)]
pub enum Subject {
    Key(String),
    Everyone,
    Model(String),
}

/// How much is allowed.
#[derive(Clone, Copy, Debug, PartialEq, Eq, Structural)]
pub enum Allowance {
    /// So many requests in a minute.
    Requests(u64),
    /// So much cost in all.
    Budget(Number),
}

/// A limit that a request has to pass.
#[derive(Debug)]
pub struct LimitCheck {
    pub subject: Subject,
    pub allowance: Allowance,
}

/// What was measured for a limit: the requests of the last minute; or whether the cost has reached
/// the budget, with the budget in words.
#[derive(Debug)]
pub enum Measured {
    Requests(u64),
    Cost(bool, String),
}

/// What a [`Subject`] holds.
pub enum SubjectView {
    Key(Seq<char>),
    Everyone,
    Model(Seq<char>),
}

/// What a [`LimitCheck`] holds.
pub struct LimitView {
    pub subject: SubjectView,
    pub allowance: Allowance,
}

/// What a [`Measured`] holds.
pub enum MeasuredView {
    Requests(u64),
    Cost(bool, Seq<char>),
}

impl View for Subject {
    type V = SubjectView;

    open spec fn view(&self) -> SubjectView {
        match self {
            Subject::Key(k) => SubjectView::Key(k@),
            Subject::Everyone => SubjectView::Everyone,
            Subject::Model(m) => SubjectView::Model(m@),
        }
    }
}

impl View for LimitCheck {
    type V = LimitView;

    open spec fn view(&self) -> LimitView {
        LimitView { subject: self.subject@, allowance: self.allowance }
    }
}

impl View for Measured {
    type V = MeasuredView;

    open spec fn view(&self) -> MeasuredView {
        match self {
            Measured::Requests(n) => MeasuredView::Requests(*n),
            Measured::Cost(reached, budget) => MeasuredView::Cost(*reached, budget@),
        }
    }
}

/// What the limits of a list hold.
pub open spec fn checks_of(v: Seq<LimitCheck>) -> Seq<LimitView> {
    Seq::new(v.len(), |i: int| v[i]@)
}

/// What the measurements of a list hold.
pub open spec fn measured_of(v: Seq<Measured>) -> Seq<MeasuredView> {
    Seq::new(v.len(), |i: int| v[i]@)
}

// ---------------------------------------------------------------------------
// Which limits there are
// ---------------------------------------------------------------------------

/// The limit on requests that an entry names: a number whose whole part is above zero.
pub open spec fn request_limit(limits: json::JsonView, name: Seq<char>) -> Option<u64> {
    match json::number_of(limits.at2(name, "rpm"@)) {
        Some(n) => if json::whole_part(n) > 0 {
            Some(json::whole_part(n))
        } else {
            None
        },
        None => None,
    }
}

/// The budget that an entry names: a number above zero.
pub open spec fn budget_limit(limits: json::JsonView, name: Seq<char>) -> Option<Number> {
    match json::number_of(limits.at2(name, "budget"@)) {
        Some(n) => if json::is_positive(n) {
            Some(n)
        } else {
            None
        },
        None => None,
    }
}

/// A limit where there is an allowance of requests.
pub open spec fn on_requests(subject: SubjectView, n: Option<u64>) -> Seq<LimitView> {
    match n {
        Some(k) => seq![LimitView { subject, allowance: Allowance::Requests(k) }],
        None => Seq::empty(),
    }
}

/// A limit where there is a budget.
pub open spec fn on_budget(subject: SubjectView, n: Option<Number>) -> Seq<LimitView> {
    match n {
        Some(b) => seq![LimitView { subject, allowance: Allowance::Budget(b) }],
        None => Seq::empty(),
    }
}

/// The limits that a key names.
pub open spec fn key_limits(k: Option<config::VirtualKeyView>, key_name: Seq<char>) -> Seq<
    LimitView,
> {
    match k {
        Some(k) => on_requests(
            SubjectView::Key(key_name),
            match k.rpm {
                Some(n) => Some(n as u64),
                None => None,
            },
        ) + on_budget(SubjectView::Key(key_name), k.budget),
        None => Seq::empty(),
    }
}

/// The limits that a request has to pass, in order: those of the key, those for everyone, those of
/// the model.
pub open spec fn limits_for(
    limits: json::JsonView,
    model: Seq<char>,
    key_name: Seq<char>,
    k: Option<config::VirtualKeyView>,
) -> Seq<LimitView> {
    key_limits(k, key_name) + on_requests(
        SubjectView::Everyone,
        request_limit(limits, "global"@),
    ) + on_budget(SubjectView::Everyone, budget_limit(limits, "global"@)) + on_requests(
        SubjectView::Model(model),
        request_limit(limits, model),
    ) + on_budget(SubjectView::Model(model), budget_limit(limits, model))
}

/// The limit on requests that an entry names.
pub fn limit_u64(limits: &Json, name: &str) -> (r: Option<u64>)
    ensures
        r == request_limit(limits@, name@),
{
    match limits.get2(name, "rpm") {
        Some(v) => match v.as_number() {
            Some(n) => {
                let whole: u64 = n.to_whole();
                if whole > 0 {
                    Some(whole)
                } else {
                    None
                }
            },
            None => None,
        },
        None => None,
    }
}

/// The budget that an entry names.
pub fn limit_f64(limits: &Json, name: &str) -> (r: Option<Number>)
    ensures
        r == budget_limit(limits@, name@),
{
    match limits.get2(name, "budget") {
        Some(v) => match v.as_number() {
            Some(n) => if n.positive() {
                Some(n)
            } else {
                None
            },
            None => None,
        },
        None => None,
    }
}

fn impose(list: &mut Vec<LimitCheck>, subject: Subject, allowance: Allowance)
    ensures
        checks_of(final(list)@) == checks_of(old(list)@).push(
            LimitView { subject: subject@, allowance },
        ),
{
    let ghost was = list@;
    let c = LimitCheck { subject, allowance };
    list.push(c);
    assert(checks_of(list@) =~= checks_of(was).push(c@));
}

/// The limits that a request has to pass, in order: those of the key, those for everyone, those of
/// the model.
pub fn limit_checks(cfg: &AppConfig, model: &str, key_name: &str, check: &KeyCheck) -> (r: Vec<
    LimitCheck,
>)
    ensures
        checks_of(r@) == limits_for(cfg@.limits, model@, key_name@, check@.virtual_key),
{
    let mut out: Vec<LimitCheck> = Vec::new();
    assert(checks_of(out@) =~= Seq::empty());
    if let Some(k) = &check.virtual_key {
        if let Some(n) = k.rpm {
            impose(&mut out, Subject::Key(key_name.to_owned()), Allowance::Requests(n as u64));
        }
        if let Some(b) = k.budget {
            impose(&mut out, Subject::Key(key_name.to_owned()), Allowance::Budget(b));
        }
    }
    assert(checks_of(out@) =~= key_limits(check@.virtual_key, key_name@));
    if let Some(n) = limit_u64(&cfg.limits, "global") {
        impose(&mut out, Subject::Everyone, Allowance::Requests(n));
    }
    if let Some(b) = limit_f64(&cfg.limits, "global") {
        impose(&mut out, Subject::Everyone, Allowance::Budget(b));
    }
    if let Some(n) = limit_u64(&cfg.limits, model) {
        impose(&mut out, Subject::Model(model.to_owned()), Allowance::Requests(n));
    }
    if let Some(b) = limit_f64(&cfg.limits, model) {
        impose(&mut out, Subject::Model(model.to_owned()), Allowance::Budget(b));
    }
    assert(checks_of(out@) =~= limits_for(cfg@.limits, model@, key_name@, check@.virtual_key));
    out
}

// ---------------------------------------------------------------------------
// Whether they are passed
// ---------------------------------------------------------------------------

/// Whether a limit is reached, given what was measured. A measurement of another kind says nothing.
pub open spec fn is_reached(c: LimitView, m: MeasuredView) -> bool {
    match (c.allowance, m) {
        (Allowance::Requests(limit), MeasuredView::Requests(n)) => n >= limit,
        (Allowance::Budget(_), MeasuredView::Cost(reached, _)) => reached,
        _ => false,
    }
}

/// How much a limit allows, in words.
pub open spec fn allowance_text(c: LimitView, m: MeasuredView) -> Seq<char> {
    match (c.allowance, m) {
        (Allowance::Requests(limit), _) => decimal::decimal(limit as nat),
        (Allowance::Budget(_), MeasuredView::Cost(_, budget)) => budget,
        _ => Seq::empty(),
    }
}

/// Why a request that has reached a limit is refused.
pub open spec fn reached_text(c: LimitView, m: MeasuredView) -> Seq<char> {
    let amount = allowance_text(c, m);
    match (c.subject, c.allowance) {
        (SubjectView::Key(k), Allowance::Requests(_)) => "密钥 \""@ + k
            + "\" 已达到 RPM 限额 "@ + amount,
        (SubjectView::Key(k), Allowance::Budget(_)) => "密钥 \""@ + k
            + "\" 已达到预算限额 "@ + amount,
        (SubjectView::Everyone, Allowance::Requests(_)) => "全局 RPM 已达到限额 "@
            + amount,
        (SubjectView::Everyone, Allowance::Budget(_)) => "全局预算已达到限额 "@
            + amount,
        (SubjectView::Model(k), Allowance::Requests(_)) => "模型 "@ + k
            + " 已达到 RPM 限额 "@ + amount,
        (SubjectView::Model(k), Allowance::Budget(_)) => "模型 "@ + k
            + " 已达到预算限额 "@ + amount,
    }
}

/// What comes next in the check of the limits.
#[derive(Debug)]
pub enum LimitStep {
    /// The limit with this number is measured.
    Measure(usize),
    /// The request is refused, for this reason.
    Refuse(String),
    /// The request has passed all limits.
    Pass,
}

/// What a [`LimitStep`] holds.
pub enum LimitStepView {
    Measure(nat),
    Refuse(Seq<char>),
    Pass,
}

impl View for LimitStep {
    type V = LimitStepView;

    open spec fn view(&self) -> LimitStepView {
        match self {
            LimitStep::Measure(i) => LimitStepView::Measure(*i as nat),
            LimitStep::Refuse(s) => LimitStepView::Refuse(s@),
            LimitStep::Pass => LimitStepView::Pass,
        }
    }
}

/// The first of the limits from number `i` on that is reached.
pub open spec fn first_reached(
    checks: Seq<LimitView>,
    measured: Seq<MeasuredView>,
    i: nat,
) -> Option<nat>
    decreases measured.len() - i,
{
    if i >= measured.len() || i >= checks.len() {
        None
    } else if is_reached(checks[i as int], measured[i as int]) {
        Some(i)
    } else {
        first_reached(checks, measured, i + 1)
    }
}

/// What comes next in the check of the limits, given what was measured for the first of them: a
/// refusal for the first limit that is reached, else the next measurement, until all are passed.
pub open spec fn next_step(checks: Seq<LimitView>, measured: Seq<MeasuredView>) -> LimitStepView {
    match first_reached(checks, measured, 0) {
        Some(i) => LimitStepView::Refuse(reached_text(checks[i as int], measured[i as int])),
        None => if measured.len() < checks.len() {
            LimitStepView::Measure(measured.len())
        } else {
            LimitStepView::Pass
        },
    }
}

fn reached(c: &LimitCheck, m: &Measured) -> (r: bool)
    ensures
        r == is_reached(c@, m@),
{
    match (c.allowance, m) {
        (Allowance::Requests(limit), Measured::Requests(n)) => *n >= limit,
        (Allowance::Budget(_), Measured::Cost(hit, _)) => *hit,
        _ => false,
    }
}

fn refusal(c: &LimitCheck, m: &Measured) -> (r: String)
    ensures
        r@ == reached_text(c@, m@),
{
    let amount = match (c.allowance, m) {
        (Allowance::Requests(limit), _) => decimal::number_text(limit),
        (Allowance::Budget(_), Measured::Cost(_, budget)) => budget.clone(),
        _ => String::new(),
    };
    let on_count = match c.allowance {
        Allowance::Requests(_) => true,
        Allowance::Budget(_) => false,
    };
    match &c.subject {
        Subject::Key(k) => if on_count {
            text::cat4("密钥 \"", k.as_str(), "\" 已达到 RPM 限额 ", amount.as_str())
        } else {
            text::cat4("密钥 \"", k.as_str(), "\" 已达到预算限额 ", amount.as_str())
        },
        Subject::Everyone => if on_count {
            text::cat("全局 RPM 已达到限额 ", amount.as_str())
        } else {
            text::cat("全局预算已达到限额 ", amount.as_str())
        },
        Subject::Model(k) => if on_count {
            text::cat4("模型 ", k.as_str(), " 已达到 RPM 限额 ", amount.as_str())
        } else {
            text::cat4("模型 ", k.as_str(), " 已达到预算限额 ", amount.as_str())
        },
    }
}

/// What comes next in the check of the limits, given what was measured for the first of them.
pub fn check_request_limits(checks: &Vec<LimitCheck>, measured: &Vec<Measured>) -> (r: LimitStep)
    ensures
        r@ == next_step(checks_of(checks@), measured_of(measured@)),
{
    let n: usize = checks.len();
    let k: usize = measured.len();
    let ghost cs = checks_of(checks@);
    let ghost ms = measured_of(measured@);
    let mut i: usize = 0;
    while i < k && i < n
        invariant
            n == checks@.len(),
            k == measured@.len(),
            cs == checks_of(checks@),
            ms == measured_of(measured@),
            i <= k,
            i <= n,
            first_reached(cs, ms, 0) == first_reached(cs, ms, i as nat),
        decreases k - i,
    {
        assert(cs[i as int] == checks@[i as int]@ && ms[i as int] == measured@[i as int]@);
        if reached(&checks[i], &measured[i]) {
            return LimitStep::Refuse(refusal(&checks[i], &measured[i]));
        }
        i = i + 1;
    }
    if k < n {
        LimitStep::Measure(k)
    } else {
        LimitStep::Pass
    }
}

/// When the last minute began, given when it ends.
pub fn window_start(now: clock::Moment) -> (r: Option<String>)
    requires
        now.secs >= i64::MIN + 60,
    ensures
        text::opt_text(r) == clock::rfc3339_of((now.secs - 60) as i64, now.nanos),
{
    clock::moment_text(clock::Moment { secs: now.secs - 60, nanos: now.nanos })
}

/// When the last minute began.
pub fn recent_window_start() -> (r: Option<String>)
    ensures
        exists|now: clock::Moment|
            now.secs >= i64::MIN + 60 && text::opt_text(r) == #[trigger] clock::rfc3339_of(
                (now.secs - 60) as i64,
                now.nanos,
            ),
{
    let now = clock::now();
    let r = window_start(now);
    assert(now.secs >= i64::MIN + 60 && text::opt_text(r) == clock::rfc3339_of(
        (now.secs - 60) as i64,
        now.nanos,
    ));
    r
}

proof fn lemma_first_reached(checks: Seq<LimitView>, measured: Seq<MeasuredView>, i: nat, k: nat)
    requires
        i <= k < measured.len(),
        k < checks.len(),
        is_reached(checks[k as int], measured[k as int]),
    ensures
        first_reached(checks, measured, i) is Some,
        first_reached(checks, measured, i)->0 <= k,
    decreases k - i,
{
    if !is_reached(checks[i as int], measured[i as int]) {
        lemma_first_reached(checks, measured, i + 1, k);
    }
}

/// A request that has reached a limit is refused, whatever else was measured.
pub proof fn law_reached_limit_refuses(
    checks: Seq<LimitView>,
    measured: Seq<MeasuredView>,
    k: nat,
)
    requires
        k < checks.len(),
        k < measured.len(),
        is_reached(checks[k as int], measured[k as int]),
    ensures
        next_step(checks, measured) is Refuse,
{
    lemma_first_reached(checks, measured, 0, k);
}

proof fn lemma_pass(checks: Seq<LimitView>, measured: Seq<MeasuredView>, i: nat)
    requires
        first_reached(checks, measured, i) is None,
    ensures
        forall|k: int|
            i <= k < measured.len() && k < checks.len() ==> !is_reached(
                #[trigger] checks[k],
                measured[k],
            ),
    decreases measured.len() - i,
{
    if i < measured.len() && i < checks.len() {
        lemma_pass(checks, measured, i + 1);
    }
}

/// A request passes only when every limit was measured and none was reached.
pub proof fn law_pass_means_no_limit_reached(checks: Seq<LimitView>, measured: Seq<MeasuredView>)
    requires
        next_step(checks, measured) is Pass,
    ensures
        measured.len() >= checks.len(),
        forall|k: int|
            0 <= k < checks.len() ==> !is_reached(#[trigger] checks[k], measured[k]),
{
    lemma_pass(checks, measured, 0);
}

// ---------------------------------------------------------------------------
// What is promised of the list of limits
// ---------------------------------------------------------------------------

/// Whether an entry of the limits has a number of the given name.
pub open spec fn names_number(
    limits: json::JsonView,
    entry: Seq<char>,
    name: Seq<char>,
    n: Number,
) -> bool {
    exists|inner: json::JsonView|
        limits.at(entry) == Some(inner) && #[trigger] inner.at(name) == Some(
            json::JsonView::Number(n),
        )
}

/// A key with a limit on requests has that limit, and a key with a budget that budget.
pub proof fn law_limits_of_the_key_are_imposed(
    limits: json::JsonView,
    model: Seq<char>,
    key_name: Seq<char>,
    k: config::VirtualKeyView,
)
    ensures
        ({
            let list = limits_for(limits, model, key_name, Some(k));
            let who = SubjectView::Key(key_name);
            &&& k.rpm matches Some(n) ==> list.contains(
                LimitView { subject: who, allowance: Allowance::Requests(n as u64) },
            )
            &&& k.budget matches Some(b) ==> list.contains(
                LimitView { subject: who, allowance: Allowance::Budget(b) },
            )
        }),
{
    let list = limits_for(limits, model, key_name, Some(k));
    let own = key_limits(Some(k), key_name);
    assert forall|i: int| 0 <= i < own.len() implies list[i] == #[trigger] own[i] by {}
    if let Some(n) = k.rpm {
        assert(own[0] == LimitView {
            subject: SubjectView::Key(key_name),
            allowance: Allowance::Requests(n as u64),
        });
        assert(list[0] == own[0]);
    }
    if let Some(b) = k.budget {
        assert(own.last() == LimitView {
            subject: SubjectView::Key(key_name),
            allowance: Allowance::Budget(b),
        });
        assert(list[own.len() - 1] == own.last());
    }
}

/// What the configuration allows everyone, and what it allows for a model, are limits: each number
/// above zero. Of a number with a fraction, the whole part is allowed.
pub proof fn law_named_limits_are_imposed(
    limits: json::JsonView,
    model: Seq<char>,
    key_name: Seq<char>,
    k: Option<config::VirtualKeyView>,
    n: u64,
    b: Number,
)
    ensures
        ({
            let list = limits_for(limits, model, key_name, k);
            let everyone = SubjectView::Everyone;
            let one = SubjectView::Model(model);
            let above = match b {
                Number::Unsigned(m) => m > 0,
                Number::Negative(_) => false,
                Number::Float(bits) => 0 < bits <= 0x7FF0_0000_0000_0000,
            };
            &&& n > 0 && names_number(limits, "global"@, "rpm"@, Number::Unsigned(n))
                ==> list.contains(
                LimitView { subject: everyone, allowance: Allowance::Requests(n) },
            )
            &&& n > 0 && names_number(limits, model, "rpm"@, Number::Unsigned(n)) ==> list.contains(
                LimitView { subject: one, allowance: Allowance::Requests(n) },
            )
            &&& names_number(limits, "global"@, "rpm"@, b) && json::whole_part(b) > 0
                ==> list.contains(
                LimitView {
                    subject: everyone,
                    allowance: Allowance::Requests(json::whole_part(b)),
                },
            )
            &&& names_number(limits, model, "rpm"@, b) && json::whole_part(b) > 0
                ==> list.contains(
                LimitView { subject: one, allowance: Allowance::Requests(json::whole_part(b)) },
            )
            &&& above && names_number(limits, "global"@, "budget"@, b) ==> list.contains(
                LimitView { subject: everyone, allowance: Allowance::Budget(b) },
            )
            &&& above && names_number(limits, model, "budget"@, b) ==> list.contains(
                LimitView { subject: one, allowance: Allowance::Budget(b) },
            )
        }),
{
    let list = limits_for(limits, model, key_name, k);
    let p0 = key_limits(k, key_name);
    let p1 = on_requests(SubjectView::Everyone, request_limit(limits, "global"@));
    let p2 = on_budget(SubjectView::Everyone, budget_limit(limits, "global"@));
    let p3 = on_requests(SubjectView::Model(model), request_limit(limits, model));
    let p4 = on_budget(SubjectView::Model(model), budget_limit(limits, model));
    assert(list == p0 + p1 + p2 + p3 + p4);
    lemma_in_sum(p0, p1, p2, p3, p4);
}

proof fn lemma_in_sum(
    p0: Seq<LimitView>,
    p1: Seq<LimitView>,
    p2: Seq<LimitView>,
    p3: Seq<LimitView>,
    p4: Seq<LimitView>,
)
    ensures
        p1.len() > 0 ==> (p0 + p1 + p2 + p3 + p4).contains(p1[0]),
        p2.len() > 0 ==> (p0 + p1 + p2 + p3 + p4).contains(p2[0]),
        p3.len() > 0 ==> (p0 + p1 + p2 + p3 + p4).contains(p3[0]),
        p4.len() > 0 ==> (p0 + p1 + p2 + p3 + p4).contains(p4[0]),
{
    let list = p0 + p1 + p2 + p3 + p4;
    let a = p0.len() as int;
    let b = a + p1.len();
    let c = b + p2.len();
    let d = c + p3.len();
    if p1.len() > 0 {
        assert(list[a] == p1[0]);
    }
    if p2.len() > 0 {
        assert(list[b] == p2[0]);
    }
    if p3.len() > 0 {
        assert(list[c] == p3[0]);
    }
    if p4.len() > 0 {
        assert(list[d] == p4[0]);
    }
}

/// Whether a limit is one that the key names, or that the configuration names for everyone or for
/// the model.
pub open spec fn has_a_source(
    x: LimitView,
    limits: json::JsonView,
    model: Seq<char>,
    key_name: Seq<char>,
    k: Option<config::VirtualKeyView>,
) -> bool {
    match (x.subject, x.allowance) {
        (SubjectView::Key(name), Allowance::Requests(n)) => name == key_name && (k matches Some(v)
            && v.rpm matches Some(m) && m as u64 == n),
        (SubjectView::Key(name), Allowance::Budget(b)) => name == key_name && (k matches Some(v)
            && v.budget == Some(b)),
        (SubjectView::Everyone, Allowance::Requests(n)) => n > 0 && exists|m: Number|
            #[trigger] names_number(limits, "global"@, "rpm"@, m) && json::whole_part(m) == n,
        (SubjectView::Everyone, Allowance::Budget(b)) => json::is_positive(b) && names_number(
            limits,
            "global"@,
            "budget"@,
            b,
        ),
        (SubjectView::Model(name), Allowance::Requests(n)) => name == model && n > 0
            && exists|m: Number|
            #[trigger] names_number(limits, model, "rpm"@, m) && json::whole_part(m) == n,
        (SubjectView::Model(name), Allowance::Budget(b)) => name == model && json::is_positive(b)
            && names_number(limits, model, "budget"@, b),
    }
}

proof fn lemma_named_requests(limits: json::JsonView, entry: Seq<char>) -> (m: Number)
    requires
        request_limit(limits, entry) is Some,
    ensures
        names_number(limits, entry, "rpm"@, m),
        request_limit(limits, entry) == Some(json::whole_part(m)),
        json::whole_part(m) > 0,
{
    lemma_number_named(limits, entry, "rpm"@);
    json::number_of(limits.at2(entry, "rpm"@))->0
}

proof fn lemma_named_budget(limits: json::JsonView, entry: Seq<char>)
    requires
        budget_limit(limits, entry) is Some,
    ensures
        names_number(limits, entry, "budget"@, budget_limit(limits, entry)->0),
        json::is_positive(budget_limit(limits, entry)->0),
{
    lemma_number_named(limits, entry, "budget"@);
}

/// There are no limits but those that the key names, and those that the configuration names for
/// everyone and for the model.
pub proof fn law_no_other_limits_are_imposed(
    limits: json::JsonView,
    model: Seq<char>,
    key_name: Seq<char>,
    k: Option<config::VirtualKeyView>,
    i: int,
)
    requires
        0 <= i < limits_for(limits, model, key_name, k).len(),
    ensures
        has_a_source(limits_for(limits, model, key_name, k)[i], limits, model, key_name, k),
{
    let p0 = key_limits(k, key_name);
    let p1 = on_requests(SubjectView::Everyone, request_limit(limits, "global"@));
    let p2 = on_budget(SubjectView::Everyone, budget_limit(limits, "global"@));
    let p3 = on_requests(SubjectView::Model(model), request_limit(limits, model));
    let p4 = on_budget(SubjectView::Model(model), budget_limit(limits, model));
    let a = p0.len() as int;
    let b = a + p1.len();
    let c = b + p2.len();
    let d = c + p3.len();
    let list = limits_for(limits, model, key_name, k);
    let x = list[i];
    if i < a {
        assert(x == p0[i]);
        if k is Some {
            let requests = on_requests(
                SubjectView::Key(key_name),
                match k->0.rpm {
                    Some(n) => Some(n as u64),
                    None => None,
                },
            );
            if i < requests.len() {
                assert(x == requests[i]);
            } else {
                assert(x == on_budget(SubjectView::Key(key_name), k->0.budget)[i - requests.len()]);
            }
        }
    } else if i < b {
        assert(x == p1[i - a]);
        let m = lemma_named_requests(limits, "global"@);
    } else if i < c {
        assert(x == p2[i - b]);
        lemma_named_budget(limits, "global"@);
    } else if i < d {
        assert(x == p3[i - c]);
        let m = lemma_named_requests(limits, model);
    } else {
        assert(x == p4[i - d]);
        lemma_named_budget(limits, model);
    }
}

proof fn lemma_number_named(limits: json::JsonView, entry: Seq<char>, name: Seq<char>)
    ensures
        json::number_of(limits.at2(entry, name)) matches Some(n) ==> names_number(
            limits,
            entry,
            name,
            n,
        ),
{
    if let Some(n) = json::number_of(limits.at2(entry, name)) {
        let inner = limits.at(entry)->0;
        assert(inner.at(name) == Some(json::JsonView::Number(n)));
    }
}

/// A limit on requests is reached when as many were counted as it allows, and a budget when it is
/// spent.
pub proof fn law_limit_is_reached_at_its_amount(
    subject: SubjectView,
    limit: u64,
    counted: u64,
    budget: Number,
    spent: bool,
    words: Seq<char>,
)
    ensures
        is_reached(
            LimitView { subject, allowance: Allowance::Requests(limit) },
            MeasuredView::Requests(counted),
        ) == (counted >= limit),
        is_reached(
            LimitView { subject, allowance: Allowance::Budget(budget) },
            MeasuredView::Cost(spent, words),
        ) == spent,
{
}

/// The limits are measured one after the other, from the first: as long as none is reached, the next
/// that was not measured yet.
pub proof fn law_next_limit_is_measured(checks: Seq<LimitView>, measured: Seq<MeasuredView>)
    requires
        forall|k: int|
            0 <= k < measured.len() && k < checks.len() ==> !is_reached(
                #[trigger] checks[k],
                measured[k],
            ),
    ensures
        measured.len() < checks.len() ==> next_step(checks, measured) == LimitStepView::Measure(
            measured.len(),
        ),
        measured.len() >= checks.len() ==> next_step(checks, measured) is Pass,
{
    lemma_none_reached(checks, measured, 0);
}

proof fn lemma_none_reached(checks: Seq<LimitView>, measured: Seq<MeasuredView>, i: nat)
    requires
        forall|k: int|
            0 <= k < measured.len() && k < checks.len() ==> !is_reached(
                #[trigger] checks[k],
                measured[k],
            ),
    ensures
        first_reached(checks, measured, i) is None,
    decreases measured.len() - i,
{
    if i < measured.len() && i < checks.len() {
        assert(!is_reached(checks[i as int], measured[i as int]));
        lemma_none_reached(checks, measured, i + 1);
    }
}

/// A refusal is for a limit that is reached, the first one, and says whose it is and how much it
/// allows.
pub proof fn law_refusal_names_the_limit(
    checks: Seq<LimitView>,
    measured: Seq<MeasuredView>,
    k: int,
)
    requires
        0 <= k < checks.len(),
        k < measured.len(),
        is_reached(checks[k], measured[k]),
        forall|j: int| 0 <= j < k ==> !is_reached(#[trigger] checks[j], measured[j]),
    ensures
        next_step(checks, measured) matches LimitStepView::Refuse(text) && {
            &&& match checks[k].allowance {
                Allowance::Requests(n) => ends_with(text, decimal::decimal(n as nat)),
                Allowance::Budget(_) => measured[k] matches MeasuredView::Cost(_, b) && ends_with(
                    text,
                    b,
                ),
            }
            &&& match checks[k].subject {
                SubjectView::Key(name) => text::occurs_at(text, name, "密钥 \""@.len() as int),
                SubjectView::Model(name) => text::occurs_at(text, name, "模型 "@.len() as int),
                SubjectView::Everyone => true,
            }
        },
{
    lemma_first_is(checks, measured, 0, k as nat);
    let text = reached_text(checks[k], measured[k]);
    let amount = allowance_text(checks[k], measured[k]);
    assert(text.skip(text.len() - amount.len()) =~= amount);
    match checks[k].subject {
        SubjectView::Key(name) => {
            let at = "密钥 \""@.len() as int;
            assert(text.subrange(at, at + name.len()) =~= name);
        },
        SubjectView::Model(name) => {
            let at = "模型 "@.len() as int;
            assert(text.subrange(at, at + name.len()) =~= name);
        },
        SubjectView::Everyone => {},
    }
}

/// Whether a text ends in another.
pub open spec fn ends_with(text: Seq<char>, tail: Seq<char>) -> bool {
    text.len() >= tail.len() && text.skip(text.len() - tail.len()) == tail
}

proof fn lemma_first_is(checks: Seq<LimitView>, measured: Seq<MeasuredView>, i: nat, k: nat)
    requires
        i <= k < checks.len(),
        k < measured.len(),
        is_reached(checks[k as int], measured[k as int]),
        forall|j: int| i <= j < k ==> !is_reached(#[trigger] checks[j], measured[j]),
    ensures
        first_reached(checks, measured, i) == Some(k),
    decreases k - i,
{
    if i < k {
        assert(!is_reached(checks[i as int], measured[i as int]));
        lemma_first_is(checks, measured, i + 1, k);
    }
}

/// The place of a limit among the others: those of the key come first, then those for everyone, then
/// those of the model; of each the one on requests comes before the budget.
pub open spec fn rank(x: LimitView) -> int {
    (match x.subject {
        SubjectView::Key(_) => 0int,
        SubjectView::Everyone => 2,
        SubjectView::Model(_) => 4,
    }) + (match x.allowance {
        Allowance::Requests(_) => 0int,
        Allowance::Budget(_) => 1,
    })
}

/// The limits stand in their order, and none stands there twice.
pub proof fn law_limits_stand_in_order(
    limits: json::JsonView,
    model: Seq<char>,
    key_name: Seq<char>,
    k: Option<config::VirtualKeyView>,
    i: int,
    j: int,
)
    requires
        0 <= i < j < limits_for(limits, model, key_name, k).len(),
    ensures
        rank(limits_for(limits, model, key_name, k)[i]) < rank(
            limits_for(limits, model, key_name, k)[j],
        ),
{
    let p1 = on_requests(SubjectView::Everyone, request_limit(limits, "global"@));
    let p2 = on_budget(SubjectView::Everyone, budget_limit(limits, "global"@));
    let p3 = on_requests(SubjectView::Model(model), request_limit(limits, model));
    let p4 = on_budget(SubjectView::Model(model), budget_limit(limits, model));
    let p0 = key_limits(k, key_name);
    lemma_ranks_of_the_key(k, key_name);
    let q1 = p0 + p1;
    lemma_ranks_grow(p0, p1, 2, 2);
    let q2 = q1 + p2;
    lemma_ranks_grow(q1, p2, 3, 3);
    let q3 = q2 + p3;
    lemma_ranks_grow(q2, p3, 4, 4);
    lemma_ranks_grow(q3, p4, 5, 5);
    assert(limits_for(limits, model, key_name, k) == q3 + p4);
}

/// Whether the places of some limits grow, and none is as high as the given one.
pub open spec fn ranks_grow(list: Seq<LimitView>, top: int) -> bool {
    &&& forall|i: int| 0 <= i < list.len() ==> rank(#[trigger] list[i]) < top
    &&& forall|i: int, j: int|
        0 <= i < j < list.len() ==> rank(#[trigger] list[i]) < rank(#[trigger] list[j])
}

proof fn lemma_ranks_of_the_key(k: Option<config::VirtualKeyView>, key_name: Seq<char>)
    ensures
        ranks_grow(key_limits(k, key_name), 2),
{
    if let Some(v) = k {
        let a = on_requests(
            SubjectView::Key(key_name),
            match v.rpm {
                Some(n) => Some(n as u64),
                None => None,
            },
        );
        let b = on_budget(SubjectView::Key(key_name), v.budget);
        assert(ranks_grow(a, 1));
        lemma_ranks_grow(a, b, 1, 1);
    }
}

proof fn lemma_ranks_grow(a: Seq<LimitView>, b: Seq<LimitView>, top: int, at: int)
    requires
        ranks_grow(a, top),
        top <= at,
        b.len() <= 1,
        b.len() == 1 ==> rank(b[0]) == at,
    ensures
        ranks_grow(a + b, at + 1),
{
    let list = a + b;
    assert forall|i: int| 0 <= i < list.len() implies rank(#[trigger] list[i]) < at + 1 by {
        if i < a.len() {
            assert(list[i] == a[i]);
        }
    }
    assert forall|i: int, j: int| 0 <= i < j < list.len() implies rank(#[trigger] list[i]) < rank(
        #[trigger] list[j],
    ) by {
        assert(list[i] == a[i]);
        if j < a.len() {
            assert(list[j] == a[j]);
        }
    }
}

} // verus!
