//! How many tokens a request used, and what they are charged at.
use vstd::prelude::*;

use crate::json;
use crate::json::{Json, Number};

verus! {

/// The tokens that a request used.
#[derive(Clone, Copy, Debug, PartialEq, Eq, Structural)]
pub struct UsageTokens {
    pub input_tokens: u64,
    pub output_tokens: u64,
    pub cached_tokens: u64,
    pub cached_write_tokens: u64,
}

/// Nothing but the given input.
pub open spec fn only_input(n: u64) -> UsageTokens {
    UsageTokens { input_tokens: n, output_tokens: 0, cached_tokens: 0, cached_write_tokens: 0 }
}

impl Default for UsageTokens {
    fn default() -> (r: UsageTokens)
        ensures
            r == only_input(0),
    {
        UsageTokens { input_tokens: 0, output_tokens: 0, cached_tokens: 0, cached_write_tokens: 0 }
    }
}

/// Nothing but the given input.
pub fn estimated_usage(input_tokens: u64) -> (r: UsageTokens)
    ensures
        r == only_input(input_tokens),
{
    UsageTokens { input_tokens, output_tokens: 0, cached_tokens: 0, cached_write_tokens: 0 }
}

// ---------------------------------------------------------------------------
// Estimates
// ---------------------------------------------------------------------------

/// The characters of all texts in a value, with one more for each text.
pub open spec fn weight(v: json::JsonView) -> nat
    decreases v,
{
    match v {
        json::JsonView::Text(s) => s.len() + 1,
        json::JsonView::Array(list) => list_weight(list),
        json::JsonView::Object(ms) => member_weight(ms),
        _ => 0,
    }
}

/// The weight of the items of an array.
pub open spec fn list_weight(list: Seq<json::JsonView>) -> nat
    decreases list,
{
    if list.len() == 0 {
        0
    } else {
        list_weight(list.drop_last()) + weight(list.last())
    }
}

/// The weight of the values of an object.
pub open spec fn member_weight(ms: Seq<(Seq<char>, json::JsonView)>) -> nat
    decreases ms,
{
    if ms.len() == 0 {
        0
    } else {
        member_weight(ms.drop_last()) + weight(ms.last().1)
    }
}

/// A count within the range of `u64`.
pub open spec fn bounded(n: nat) -> u64 {
    if n <= u64::MAX {
        n as u64
    } else {
        u64::MAX
    }
}

/// The estimate for a body: a token for four characters or a part of them, and at least one.
pub open spec fn estimated(body: json::JsonView) -> u64 {
    let n = (bounded(weight(body)) as int + 3) / 4;
    if n < 1 {
        1
    } else {
        n as u64
    }
}

fn weigh(v: &Json) -> (r: u64)
    ensures
        r == bounded(weight(v@)),
    decreases v,
{
    match v {
        Json::Text(s) => {
            let n: usize = s.as_str().unicode_len();
            let wide: u64 = n as u64;
            wide.saturating_add(1)
        },
        Json::Array(list) => {
            let mut total: u64 = 0;
            let n: usize = list.len();
            let ghost all = json::items(list@);
            assert(all.take(0) =~= Seq::empty());
            for i in 0..n
                invariant
                    n == list@.len(),
                    v == Json::Array(*list),
                    all == json::items(list@),
                    total == bounded(list_weight(all.take(i as int))),
            {
                assert(decreases_to!(*v => v->Array_0));
                let w: u64 = weigh(&list[i]);
                assert(all.take(i + 1).drop_last() =~= all.take(i as int));
                assert(all.take(i + 1).last() == list@[i as int]@);
                total = total.saturating_add(w);
            }
            assert(all.take(n as int) =~= all);
            proof {
                json::lemma_array(*list);
            }
            total
        },
        Json::Object(ms) => {
            let mut total: u64 = 0;
            let n: usize = ms.len();
            let ghost all = json::members(ms@);
            assert(all.take(0) =~= Seq::empty());
            for i in 0..n
                invariant
                    n == ms@.len(),
                    v == Json::Object(*ms),
                    all == json::members(ms@),
                    total == bounded(member_weight(all.take(i as int))),
            {
                assert(decreases_to!(*v => v->Object_0));
                assert(decreases_to!(ms@[i as int] => ms@[i as int].value));
                let w: u64 = weigh(&ms[i].value);
                assert(all.take(i + 1).drop_last() =~= all.take(i as int));
                assert(all.take(i + 1).last().1 == ms@[i as int].value@);
                total = total.saturating_add(w);
            }
            assert(all.take(n as int) =~= all);
            proof {
                json::lemma_object(*ms);
            }
            total
        },
        _ => 0,
    }
}

/// The estimate of the tokens of a body: one for four characters of its texts or a part of them,
/// and at least one.
pub fn estimate_tokens(body: &Json) -> (r: u64)
    ensures
        r == estimated(body@),
{
    let n: u64 = weigh(body);
    let quarter: u64 = n / 4;
    let tokens: u64 = if n % 4 == 0 {
        quarter
    } else {
        quarter + 1
    };
    if tokens < 1 {
        1
    } else {
        tokens
    }
}

// ---------------------------------------------------------------------------
// What a response reports
// ---------------------------------------------------------------------------

/// The first number that is there.
pub open spec fn either(a: Option<u64>, b: Option<u64>) -> Option<u64> {
    if a is Some {
        a
    } else {
        b
    }
}

/// The number, or the other where it is not there.
pub open spec fn or_number(a: Option<u64>, other: u64) -> u64 {
    match a {
        Some(n) => n,
        None => other,
    }
}

/// The tokens of the prompt that a report names.
pub open spec fn reported_prompt(u: json::JsonView) -> Option<u64> {
    either(
        json::unsigned_of(u.at("prompt_tokens"@)),
        either(
            json::unsigned_of(u.at("input_tokens"@)),
            json::unsigned_of(u.at("total_tokens"@)),
        ),
    )
}

/// The tokens of the answer that a report names.
pub open spec fn reported_completion(u: json::JsonView) -> Option<u64> {
    either(
        json::unsigned_of(u.at("completion_tokens"@)),
        either(
            json::unsigned_of(u.at("output_tokens"@)),
            json::unsigned_of(u.at("candidates_token_count"@)),
        ),
    )
}

/// The tokens read from a cache that a report names.
pub open spec fn reported_cached(u: json::JsonView) -> Option<u64> {
    either(
        json::unsigned_of(u.at2("prompt_tokens_details"@, "cached_tokens"@)),
        either(
            json::unsigned_of(u.at2("input_tokens_details"@, "cached_tokens"@)),
            either(
                json::unsigned_of(u.at("cached_tokens"@)),
                either(
                    json::unsigned_of(u.at("prompt_cache_hit_tokens"@)),
                    json::unsigned_of(u.at("cache_read_input_tokens"@)),
                ),
            ),
        ),
    )
}

/// The tokens written to a cache that a report names.
pub open spec fn reported_cache_write(u: json::JsonView) -> Option<u64> {
    either(
        json::unsigned_of(u.at2("prompt_tokens_details"@, "cache_write_tokens"@)),
        either(
            json::unsigned_of(u.at2("input_tokens_details"@, "cache_write_tokens"@)),
            either(
                json::unsigned_of(u.at("cache_creation_input_tokens"@)),
                json::unsigned_of(u.at("prompt_cache_miss_tokens"@)),
            ),
        ),
    )
}

/// Whether a report splits the prompt into what a cache held and what it did not.
pub open spec fn splits_prompt(u: json::JsonView) -> bool {
    u.at("prompt_cache_hit_tokens"@) is Some || u.at("prompt_cache_miss_tokens"@) is Some
}

/// The tokens of a prompt that a report splits.
pub open spec fn split_prompt(u: json::JsonView) -> int {
    or_number(json::unsigned_of(u.at("prompt_cache_hit_tokens"@)), 0) + or_number(
        json::unsigned_of(u.at("prompt_cache_miss_tokens"@)),
        0,
    )
}

/// Whether the sum of a split prompt is within the range of `u64`.
pub open spec fn in_range(data: json::JsonView) -> bool {
    match data.at("usage"@) {
        Some(u) => splits_prompt(u) ==> split_prompt(u) <= u64::MAX,
        None => true,
    }
}

/// The tokens that a response reports. Where it reports none, all that is known is the estimate of
/// the input.
pub open spec fn reported(data: json::JsonView, fallback: u64) -> UsageTokens {
    match data.at("usage"@) {
        Some(u) => UsageTokens {
            input_tokens: if splits_prompt(u) {
                split_prompt(u) as u64
            } else {
                or_number(reported_prompt(u), fallback)
            },
            output_tokens: or_number(reported_completion(u), 0),
            cached_tokens: or_number(reported_cached(u), 0),
            cached_write_tokens: or_number(reported_cache_write(u), 0),
        },
        None => match data.at("usageMetadata"@) {
            Some(u) => UsageTokens {
                input_tokens: or_number(json::unsigned_of(u.at("promptTokenCount"@)), fallback),
                output_tokens: or_number(json::unsigned_of(u.at("candidatesTokenCount"@)), 0),
                cached_tokens: 0,
                cached_write_tokens: 0,
            },
            None => only_input(fallback),
        },
    }
}

fn pick(a: Option<u64>, b: Option<u64>) -> (r: Option<u64>)
    ensures
        r == either(a, b),
{
    match a {
        Some(n) => Some(n),
        None => b,
    }
}

fn or_zero(a: Option<u64>) -> (r: u64)
    ensures
        r == or_number(a, 0),
{
    match a {
        Some(n) => n,
        None => 0,
    }
}

fn unsigned_at2(u: &Json, outer: &str, inner: &str) -> (r: Option<u64>)
    ensures
        r == json::unsigned_of(u@.at2(outer@, inner@)),
{
    match u.get2(outer, inner) {
        Some(v) => v.as_unsigned(),
        None => None,
    }
}

fn cached_of(u: &Json) -> (r: u64)
    ensures
        r == or_number(reported_cached(u@), 0),
{
    let a = unsigned_at2(u, "prompt_tokens_details", "cached_tokens");
    let b = unsigned_at2(u, "input_tokens_details", "cached_tokens");
    let c = u.unsigned_at("cached_tokens");
    let d = u.unsigned_at("prompt_cache_hit_tokens");
    let e = u.unsigned_at("cache_read_input_tokens");
    or_zero(pick(a, pick(b, pick(c, pick(d, e)))))
}

fn cache_write_of(u: &Json) -> (r: u64)
    ensures
        r == or_number(reported_cache_write(u@), 0),
{
    let a = unsigned_at2(u, "prompt_tokens_details", "cache_write_tokens");
    let b = unsigned_at2(u, "input_tokens_details", "cache_write_tokens");
    let c = u.unsigned_at("cache_creation_input_tokens");
    let d = u.unsigned_at("prompt_cache_miss_tokens");
    or_zero(pick(a, pick(b, pick(c, d))))
}

/// Whether the sum of a split prompt is within the range of `u64`, so that the tokens can be read.
pub fn usage_in_range(data: &Json) -> (r: bool)
    ensures
        r == in_range(data@),
{
    match data.get("usage") {
        Some(u) => {
            let hit: u64 = or_zero(u.unsigned_at("prompt_cache_hit_tokens"));
            let miss: u64 = or_zero(u.unsigned_at("prompt_cache_miss_tokens"));
            hit <= u64::MAX - miss
        },
        None => true,
    }
}

/// The tokens that a response reports. Where it reports none, all that is known is the estimate of
/// the input.
pub fn extract_usage_tokens(data: &Json, fallback_input: u64) -> (r: UsageTokens)
    requires
        in_range(data@),
    ensures
        r == reported(data@, fallback_input),
{
    let u = match data.get("usage") {
        Some(u) => u,
        None => {
            return match data.get("usageMetadata") {
                Some(u) => {
                    let input_tokens = match u.unsigned_at("promptTokenCount") {
                        Some(n) => n,
                        None => fallback_input,
                    };
                    UsageTokens {
                        input_tokens,
                        output_tokens: or_zero(u.unsigned_at("candidatesTokenCount")),
                        cached_tokens: 0,
                        cached_write_tokens: 0,
                    }
                },
                None => estimated_usage(fallback_input),
            };
        },
    };
    let input_tokens = if u.get("prompt_cache_hit_tokens").is_some() || u.get(
        "prompt_cache_miss_tokens",
    ).is_some() {
        or_zero(u.unsigned_at("prompt_cache_hit_tokens")) + or_zero(
            u.unsigned_at("prompt_cache_miss_tokens"),
        )
    } else {
        let prompt = pick(
            u.unsigned_at("prompt_tokens"),
            pick(u.unsigned_at("input_tokens"), u.unsigned_at("total_tokens")),
        );
        match prompt {
            Some(n) => n,
            None => fallback_input,
        }
    };
    let completion = pick(
        u.unsigned_at("completion_tokens"),
        pick(u.unsigned_at("output_tokens"), u.unsigned_at("candidates_token_count")),
    );
    UsageTokens {
        input_tokens,
        output_tokens: or_zero(completion),
        cached_tokens: cached_of(u),
        cached_write_tokens: cache_write_of(u),
    }
}

// ---------------------------------------------------------------------------
// Prices
// ---------------------------------------------------------------------------

/// The counts and rates that the cost of a request is the sum of products of. A rate is charged for
/// a million tokens; one that is not there is zero.
#[derive(Clone, Copy, Debug, PartialEq, Eq, Structural)]
pub struct CostTerms {
    pub normal_input: u64,
    pub input_rate: Option<Number>,
    pub cached_tokens: u64,
    pub cached_rate: Option<Number>,
    pub cached_write_tokens: u64,
    pub cached_write_rate: Option<Number>,
    pub output_tokens: u64,
    pub output_rate: Option<Number>,
}

/// The rate that the prices of a model name.
pub open spec fn rate(pricing: json::JsonView, model: Seq<char>, name: Seq<char>) -> Option<Number> {
    json::number_of(pricing.at2(model, name))
}

/// The rate, or the rate of the input where it is not there.
pub open spec fn or_rate(a: Option<Number>, b: Option<Number>) -> Option<Number> {
    if a is Some {
        a
    } else {
        b
    }
}

/// The terms of the cost of a request: cached tokens are charged at their own rates where the model
/// has them, and the rest of the input at the rate of the input.
pub open spec fn terms(model: Seq<char>, t: UsageTokens, pricing: json::JsonView) -> CostTerms {
    let cached = t.cached_tokens + t.cached_write_tokens;
    let input_rate = rate(pricing, model, "input"@);
    CostTerms {
        normal_input: if t.input_tokens >= cached {
            (t.input_tokens - cached) as u64
        } else {
            0
        },
        input_rate,
        cached_tokens: t.cached_tokens,
        cached_rate: or_rate(rate(pricing, model, "cached_input"@), input_rate),
        cached_write_tokens: t.cached_write_tokens,
        cached_write_rate: or_rate(rate(pricing, model, "cached_write"@), input_rate),
        output_tokens: t.output_tokens,
        output_rate: rate(pricing, model, "output"@),
    }
}

fn rate_at(pricing: &Json, model: &str, name: &str) -> (r: Option<Number>)
    ensures
        r == rate(pricing@, model@, name@),
{
    match pricing.get2(model, name) {
        Some(v) => v.as_number(),
        None => None,
    }
}

fn rate_or(a: Option<Number>, b: Option<Number>) -> (r: Option<Number>)
    ensures
        r == or_rate(a, b),
{
    match a {
        Some(n) => Some(n),
        None => b,
    }
}

/// The terms of the cost of a request. The sum of the cached tokens must be within the range of
/// `u64`.
pub fn cost_terms(model: &str, tokens: UsageTokens, pricing: &Json) -> (r: CostTerms)
    requires
        tokens.cached_tokens + tokens.cached_write_tokens <= u64::MAX,
    ensures
        r == terms(model@, tokens, pricing@),
{
    let cached: u64 = tokens.cached_tokens + tokens.cached_write_tokens;
    let normal_input: u64 = if tokens.input_tokens >= cached {
        tokens.input_tokens - cached
    } else {
        0
    };
    let input_rate = rate_at(pricing, model, "input");
    CostTerms {
        normal_input,
        input_rate,
        cached_tokens: tokens.cached_tokens,
        cached_rate: rate_or(rate_at(pricing, model, "cached_input"), input_rate),
        cached_write_tokens: tokens.cached_write_tokens,
        cached_write_rate: rate_or(rate_at(pricing, model, "cached_write"), input_rate),
        output_tokens: tokens.output_tokens,
        output_rate: rate_at(pricing, model, "output"),
    }
}

/// Every token of the input is charged once, as long as no more are cached than there are.
pub proof fn law_input_is_charged_once(model: Seq<char>, t: UsageTokens, pricing: json::JsonView)
    requires
        t.cached_tokens + t.cached_write_tokens <= t.input_tokens,
    ensures
        ({
            let c = terms(model, t, pricing);
            c.normal_input + c.cached_tokens + c.cached_write_tokens == t.input_tokens
        }),
{
}

/// A model without prices has no rates, so that it costs nothing.
pub proof fn law_unpriced_model_is_free(model: Seq<char>, t: UsageTokens, pricing: json::JsonView)
    requires
        pricing.at(model) is None,
    ensures
        ({
            let c = terms(model, t, pricing);
            c.input_rate is None && c.cached_rate is None && c.cached_write_rate is None
                && c.output_rate is None
        }),
{
}

/// Whether the prices of a model hold a rate above zero.
pub open spec fn is_priced(pricing: json::JsonView, model: Seq<char>) -> bool {
    ||| positive_rate(rate(pricing, model, "input"@))
    ||| positive_rate(rate(pricing, model, "output"@))
    ||| positive_rate(rate(pricing, model, "cached_input"@))
    ||| positive_rate(rate(pricing, model, "cached_write"@))
}

/// Whether a rate is there and above zero.
pub open spec fn positive_rate(r: Option<Number>) -> bool {
    match r {
        Some(n) => json::is_positive(n),
        None => false,
    }
}

fn positive(r: Option<Number>) -> (b: bool)
    ensures
        b == positive_rate(r),
{
    match r {
        Some(n) => n.positive(),
        None => false,
    }
}

/// Whether the prices of a model hold a rate above zero.
pub fn pricing_present(pricing: &Json, model: &str) -> (r: bool)
    ensures
        r == is_priced(pricing@, model@),
{
    positive(rate_at(pricing, model, "input")) || positive(rate_at(pricing, model, "output"))
        || positive(rate_at(pricing, model, "cached_input")) || positive(
        rate_at(pricing, model, "cached_write"),
    )
}

// ---------------------------------------------------------------------------
// What is promised of reports, estimates and prices
// ---------------------------------------------------------------------------

/// Whether a value names a whole number that is not below zero.
pub open spec fn counts(v: json::JsonView, name: Seq<char>, n: u64) -> bool {
    v.at(name) == Some(json::JsonView::Number(Number::Unsigned(n)))
}

/// Whether a value of a value names a whole number that is not below zero.
pub open spec fn counts_in(v: json::JsonView, outer: Seq<char>, name: Seq<char>, n: u64) -> bool {
    exists|inner: json::JsonView| v.at(outer) == Some(inner) && #[trigger] counts(inner, name, n)
}

/// Whether a value names no such number.
pub open spec fn counts_none(v: json::JsonView, name: Seq<char>) -> bool {
    forall|n: u64| !#[trigger] counts(v, name, n)
}

/// Whether a value of a value names no such number.
pub open spec fn counts_none_in(v: json::JsonView, outer: Seq<char>, name: Seq<char>) -> bool {
    forall|n: u64| !#[trigger] counts_in(v, outer, name, n)
}

proof fn lemma_counts(v: json::JsonView, name: Seq<char>)
    ensures
        match json::unsigned_of(v.at(name)) {
            Some(n) => counts(v, name, n),
            None => counts_none(v, name),
        },
        forall|n: u64| #[trigger] counts(v, name, n) ==> json::unsigned_of(v.at(name)) == Some(n),
{
}

proof fn lemma_counts_in(v: json::JsonView, outer: Seq<char>, name: Seq<char>)
    ensures
        match json::unsigned_of(v.at2(outer, name)) {
            Some(n) => counts_in(v, outer, name, n),
            None => counts_none_in(v, outer, name),
        },
        forall|n: u64| #[trigger]
            counts_in(v, outer, name, n) ==> json::unsigned_of(v.at2(outer, name)) == Some(n),
{
    if v.at(outer) is Some {
        lemma_counts(v.at(outer)->0, name);
    }
    if let Some(n) = json::unsigned_of(v.at2(outer, name)) {
        assert(counts(v.at(outer)->0, name, n));
    }
}

/// A report that splits the prompt into what a cache held and what it did not is recorded with the
/// sum of both as its input, one that is not there counting as nothing: no less than either.
pub proof fn law_split_prompt_is_added_up(
    data: json::JsonView,
    u: json::JsonView,
    fallback: u64,
    hit: u64,
    miss: u64,
)
    requires
        data.at("usage"@) == Some(u),
        u.at("prompt_cache_hit_tokens"@) is Some || u.at("prompt_cache_miss_tokens"@) is Some,
        counts(u, "prompt_cache_hit_tokens"@, hit) || (hit == 0 && counts_none(
            u,
            "prompt_cache_hit_tokens"@,
        )),
        counts(u, "prompt_cache_miss_tokens"@, miss) || (miss == 0 && counts_none(
            u,
            "prompt_cache_miss_tokens"@,
        )),
        hit + miss <= u64::MAX,
    ensures
        in_range(data),
        reported(data, fallback).input_tokens == hit + miss,
        reported(data, fallback).input_tokens >= hit,
        reported(data, fallback).input_tokens >= miss,
{
    lemma_counts(u, "prompt_cache_hit_tokens"@);
    lemma_counts(u, "prompt_cache_miss_tokens"@);
}

/// The input of a report that does not split the prompt is the first of the three counts that
/// providers give for it, and the estimate where none is given.
pub proof fn law_prompt_is_recorded(
    data: json::JsonView,
    u: json::JsonView,
    fallback: u64,
    n: u64,
)
    requires
        data.at("usage"@) == Some(u),
        u.at("prompt_cache_hit_tokens"@) is None,
        u.at("prompt_cache_miss_tokens"@) is None,
    ensures
        counts(u, "prompt_tokens"@, n) ==> reported(data, fallback).input_tokens == n,
        counts_none(u, "prompt_tokens"@) && counts(u, "input_tokens"@, n) ==> reported(
            data,
            fallback,
        ).input_tokens == n,
        counts_none(u, "prompt_tokens"@) && counts_none(u, "input_tokens"@) && counts(
            u,
            "total_tokens"@,
            n,
        ) ==> reported(data, fallback).input_tokens == n,
        counts_none(u, "prompt_tokens"@) && counts_none(u, "input_tokens"@) && counts_none(
            u,
            "total_tokens"@,
        ) ==> reported(data, fallback).input_tokens == fallback,
{
    lemma_counts(u, "prompt_tokens"@);
    lemma_counts(u, "input_tokens"@);
    lemma_counts(u, "total_tokens"@);
}

/// The output of a report is the first of the three counts that providers give for it, and nothing
/// where none is given.
pub proof fn law_completion_is_recorded(
    data: json::JsonView,
    u: json::JsonView,
    fallback: u64,
    n: u64,
)
    requires
        data.at("usage"@) == Some(u),
    ensures
        counts(u, "completion_tokens"@, n) ==> reported(data, fallback).output_tokens == n,
        counts_none(u, "completion_tokens"@) && counts(u, "output_tokens"@, n) ==> reported(
            data,
            fallback,
        ).output_tokens == n,
        counts_none(u, "completion_tokens"@) && counts_none(u, "output_tokens"@) && counts(
            u,
            "candidates_token_count"@,
            n,
        ) ==> reported(data, fallback).output_tokens == n,
        counts_none(u, "completion_tokens"@) && counts_none(u, "output_tokens"@) && counts_none(
            u,
            "candidates_token_count"@,
        ) ==> reported(data, fallback).output_tokens == 0,
{
    lemma_counts(u, "completion_tokens"@);
    lemma_counts(u, "output_tokens"@);
    lemma_counts(u, "candidates_token_count"@);
}

/// What a cache held of a prompt is the first of the five counts that providers give for it, and
/// nothing where none is given.
pub proof fn law_cached_tokens_are_recorded(
    data: json::JsonView,
    u: json::JsonView,
    fallback: u64,
    n: u64,
)
    requires
        data.at("usage"@) == Some(u),
    ensures
        ({
            let got = reported(data, fallback).cached_tokens;
            let none1 = counts_none_in(u, "prompt_tokens_details"@, "cached_tokens"@);
            let none2 = none1 && counts_none_in(u, "input_tokens_details"@, "cached_tokens"@);
            let none3 = none2 && counts_none(u, "cached_tokens"@);
            let none4 = none3 && counts_none(u, "prompt_cache_hit_tokens"@);
            &&& counts_in(u, "prompt_tokens_details"@, "cached_tokens"@, n) ==> got == n
            &&& none1 && counts_in(u, "input_tokens_details"@, "cached_tokens"@, n) ==> got == n
            &&& none2 && counts(u, "cached_tokens"@, n) ==> got == n
            &&& none3 && counts(u, "prompt_cache_hit_tokens"@, n) ==> got == n
            &&& none4 && counts(u, "cache_read_input_tokens"@, n) ==> got == n
            &&& none4 && counts_none(u, "cache_read_input_tokens"@) ==> got == 0
        }),
{
    lemma_counts_in(u, "prompt_tokens_details"@, "cached_tokens"@);
    lemma_counts_in(u, "input_tokens_details"@, "cached_tokens"@);
    lemma_counts(u, "cached_tokens"@);
    lemma_counts(u, "prompt_cache_hit_tokens"@);
    lemma_counts(u, "cache_read_input_tokens"@);
}

/// What was written to a cache is the first of the four counts that providers give for it, and
/// nothing where none is given.
pub proof fn law_cache_writes_are_recorded(
    data: json::JsonView,
    u: json::JsonView,
    fallback: u64,
    n: u64,
)
    requires
        data.at("usage"@) == Some(u),
    ensures
        ({
            let got = reported(data, fallback).cached_write_tokens;
            let none1 = counts_none_in(u, "prompt_tokens_details"@, "cache_write_tokens"@);
            let none2 = none1 && counts_none_in(u, "input_tokens_details"@, "cache_write_tokens"@);
            let none3 = none2 && counts_none(u, "cache_creation_input_tokens"@);
            &&& counts_in(u, "prompt_tokens_details"@, "cache_write_tokens"@, n) ==> got == n
            &&& none1 && counts_in(u, "input_tokens_details"@, "cache_write_tokens"@, n) ==> got == n
            &&& none2 && counts(u, "cache_creation_input_tokens"@, n) ==> got == n
            &&& none3 && counts(u, "prompt_cache_miss_tokens"@, n) ==> got == n
            &&& none3 && counts_none(u, "prompt_cache_miss_tokens"@) ==> got == 0
        }),
{
    lemma_counts_in(u, "prompt_tokens_details"@, "cache_write_tokens"@);
    lemma_counts_in(u, "input_tokens_details"@, "cache_write_tokens"@);
    lemma_counts(u, "cache_creation_input_tokens"@);
    lemma_counts(u, "prompt_cache_miss_tokens"@);
}

/// The counts of a Gemini answer are recorded, which reports them under its own names; the estimate
/// stands in for an input that it does not give.
pub proof fn law_gemini_report_is_recorded(
    data: json::JsonView,
    u: json::JsonView,
    fallback: u64,
    n: u64,
)
    requires
        data.at("usage"@) is None,
        data.at("usageMetadata"@) == Some(u),
    ensures
        counts(u, "promptTokenCount"@, n) ==> reported(data, fallback).input_tokens == n,
        counts_none(u, "promptTokenCount"@) ==> reported(data, fallback).input_tokens == fallback,
        counts(u, "candidatesTokenCount"@, n) ==> reported(data, fallback).output_tokens == n,
        counts_none(u, "candidatesTokenCount"@) ==> reported(data, fallback).output_tokens == 0,
        reported(data, fallback).cached_tokens == 0,
        reported(data, fallback).cached_write_tokens == 0,
{
    lemma_counts(u, "promptTokenCount"@);
    lemma_counts(u, "candidatesTokenCount"@);
}

/// An answer that reports nothing is recorded with the estimate of its input alone.
pub proof fn law_without_a_report_the_estimate_stands(data: json::JsonView, fallback: u64)
    requires
        data.at("usage"@) is None,
        data.at("usageMetadata"@) is None,
    ensures
        reported(data, fallback).input_tokens == fallback,
        reported(data, fallback).output_tokens == 0,
        reported(data, fallback).cached_tokens == 0,
        reported(data, fallback).cached_write_tokens == 0,
        only_input(fallback) == reported(data, fallback),
{
}

/// A text weighs its characters and one more, an array and an object what their values weigh
/// together, and anything else nothing.
pub proof fn law_weight_is_that_of_the_texts(
    s: Seq<char>,
    list: Seq<json::JsonView>,
    ms: Seq<(Seq<char>, json::JsonView)>,
    name: Seq<char>,
    v: json::JsonView,
    n: Number,
    b: bool,
)
    ensures
        weight(json::JsonView::Text(s)) == s.len() + 1,
        weight(json::JsonView::Array(Seq::empty())) == 0,
        weight(json::JsonView::Array(list.push(v))) == weight(json::JsonView::Array(list)) + weight(v),
        weight(json::JsonView::Object(Seq::empty())) == 0,
        weight(json::JsonView::Object(ms.push((name, v)))) == weight(json::JsonView::Object(ms))
            + weight(v),
        weight(json::JsonView::Number(n)) == 0,
        weight(json::JsonView::Bool(b)) == 0,
        weight(json::JsonView::Null) == 0,
{
    assert(list.push(v).drop_last() =~= list);
    assert(ms.push((name, v)).drop_last() =~= ms);
}

/// The estimate is the least number of tokens, one at least, of which each stands for four
/// characters at most.
pub proof fn law_estimate_covers_the_texts(body: json::JsonView)
    requires
        weight(body) <= u64::MAX,
    ensures
        estimated(body) >= 1,
        4 * estimated(body) >= weight(body),
        estimated(body) > 1 ==> 4 * (estimated(body) - 1) < weight(body),
{
}

/// Whether the prices of a model have a number of the given name.
pub open spec fn prices(pricing: json::JsonView, model: Seq<char>, name: Seq<char>, r: Number) -> bool {
    exists|entry: json::JsonView|
        pricing.at(model) == Some(entry) && #[trigger] entry.at(name) == Some(
            json::JsonView::Number(r),
        )
}

/// Whether the prices of a model have no number of the given name.
pub open spec fn prices_none(pricing: json::JsonView, model: Seq<char>, name: Seq<char>) -> bool {
    forall|r: Number| !#[trigger] prices(pricing, model, name, r)
}

proof fn lemma_prices(pricing: json::JsonView, model: Seq<char>, name: Seq<char>)
    ensures
        match rate(pricing, model, name) {
            Some(r) => prices(pricing, model, name, r),
            None => prices_none(pricing, model, name),
        },
        forall|r: Number| #[trigger]
            prices(pricing, model, name, r) ==> rate(pricing, model, name) == Some(r),
{
    if let Some(r) = rate(pricing, model, name) {
        let entry = pricing.at(model)->0;
        assert(entry.at(name) == Some(json::JsonView::Number(r)));
    }
}

/// Tokens that a cache held, and those that were written to it, are charged at their own rates where
/// the model has them, and else like the rest of the input. So without rates of their own all of
/// the input is charged at one rate.
pub proof fn law_cached_tokens_have_a_rate(
    model: Seq<char>,
    t: UsageTokens,
    pricing: json::JsonView,
    r: Number,
)
    ensures
        ({
            let c = terms(model, t, pricing);
            &&& prices(pricing, model, "cached_input"@, r) ==> c.cached_rate == Some(r)
            &&& prices_none(pricing, model, "cached_input"@) ==> c.cached_rate == c.input_rate
            &&& prices(pricing, model, "cached_write"@, r) ==> c.cached_write_rate == Some(r)
            &&& prices_none(pricing, model, "cached_write"@) ==> c.cached_write_rate
                == c.input_rate
        }),
{
    lemma_prices(pricing, model, "cached_input"@);
    lemma_prices(pricing, model, "cached_write"@);
}

/// The input and the output are charged at the rates that the model has for them, and at none where
/// it has none. Each count of the request is charged as it is.
pub proof fn law_input_and_output_have_their_rates(
    model: Seq<char>,
    t: UsageTokens,
    pricing: json::JsonView,
    r: Number,
)
    ensures
        ({
            let c = terms(model, t, pricing);
            &&& prices(pricing, model, "input"@, r) ==> c.input_rate == Some(r)
            &&& prices_none(pricing, model, "input"@) ==> c.input_rate is None
            &&& prices(pricing, model, "output"@, r) ==> c.output_rate == Some(r)
            &&& prices_none(pricing, model, "output"@) ==> c.output_rate is None
            &&& c.output_tokens == t.output_tokens
            &&& c.cached_tokens == t.cached_tokens
            &&& c.cached_write_tokens == t.cached_write_tokens
            &&& t.cached_tokens + t.cached_write_tokens > t.input_tokens ==> c.normal_input == 0
        }),
{
    lemma_prices(pricing, model, "input"@);
    lemma_prices(pricing, model, "output"@);
}

/// A model is priced if and only if one of its four rates is a number above zero.
pub proof fn law_priced_means_a_rate_above_zero(pricing: json::JsonView, model: Seq<char>)
    ensures
        is_priced(pricing, model) == exists|name: Seq<char>, r: Number|
            #[trigger] prices(pricing, model, name, r) && (name == "input"@ || name == "output"@
                || name == "cached_input"@ || name == "cached_write"@) && match r {
                Number::Unsigned(k) => k > 0,
                Number::Negative(_) => false,
                Number::Float(bits) => 0 < bits <= 0x7FF0_0000_0000_0000,
            },
{
    lemma_prices(pricing, model, "input"@);
    lemma_prices(pricing, model, "output"@);
    lemma_prices(pricing, model, "cached_input"@);
    lemma_prices(pricing, model, "cached_write"@);
}

/// A report that says of the cache only what it held and what it did not has the input covered by
/// the two: what was read from the cache is never more than the input.
pub proof fn law_split_prompt_covers_the_cached(
    data: json::JsonView,
    u: json::JsonView,
    fallback: u64,
    hit: u64,
    miss: u64,
)
    requires
        data.at("usage"@) == Some(u),
        counts(u, "prompt_cache_hit_tokens"@, hit),
        counts(u, "prompt_cache_miss_tokens"@, miss),
        counts_none_in(u, "prompt_tokens_details"@, "cached_tokens"@),
        counts_none_in(u, "input_tokens_details"@, "cached_tokens"@),
        counts_none(u, "cached_tokens"@),
        hit + miss <= u64::MAX,
    ensures
        reported(data, fallback).cached_tokens == hit,
        reported(data, fallback).cached_tokens <= reported(data, fallback).input_tokens,
        reported(data, fallback).input_tokens - reported(data, fallback).cached_tokens == miss,
{
    law_split_prompt_is_added_up(data, u, fallback, hit, miss);
    law_cached_tokens_are_recorded(data, u, fallback, hit);
}

} // verus!
