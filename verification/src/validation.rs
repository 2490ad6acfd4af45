//! What is wrong with a configuration before it is saved.
use vstd::prelude::*;

use crate::config;
use crate::config::{AppConfig, ProviderConfig};
use crate::decimal;
use crate::health;
use crate::json;
use crate::json::Json;
use crate::secrets;
use crate::text;
use crate::tokens;
use crate::weburl;

verus! {

/// Something that is wrong: an `error` stands in the way of saving, a `warning` does not.
#[derive(Debug)]
pub struct ConfigIssue {
    pub severity: String,
    pub code: String,
    pub path: String,
    pub message: String,
}

/// What a [`ConfigIssue`] holds.
#[verifier::ext_equal]
pub struct IssueView {
    pub severity: Seq<char>,
    pub code: Seq<char>,
    pub path: Seq<char>,
    pub message: Seq<char>,
}

impl View for ConfigIssue {
    type V = IssueView;

    open spec fn view(&self) -> IssueView {
        IssueView {
            severity: self.severity@,
            code: self.code@,
            path: self.path@,
            message: self.message@,
        }
    }
}

/// What the issues of a list hold.
pub open spec fn issues_of(v: Seq<ConfigIssue>) -> Seq<IssueView> {
    Seq::new(v.len(), |i: int| v[i]@)
}

/// An issue.
pub open spec fn issue(
    severity: Seq<char>,
    code: Seq<char>,
    path: Seq<char>,
    message: Seq<char>,
) -> IssueView {
    IssueView { severity, code, path, message }
}

/// An issue where the condition holds.
pub open spec fn raised(condition: bool, i: IssueView) -> Seq<IssueView> {
    if condition {
        seq![i]
    } else {
        Seq::empty()
    }
}

fn config_issue(severity: &str, code: &str, path: &str, message: &str) -> (r: ConfigIssue)
    ensures
        r@ == issue(severity@, code@, path@, message@),
{
    ConfigIssue {
        severity: severity.to_owned(),
        code: code.to_owned(),
        path: path.to_owned(),
        message: message.to_owned(),
    }
}

fn raise(list: &mut Vec<ConfigIssue>, severity: &str, code: &str, path: &str, message: &str)
    ensures
        issues_of(final(list)@) == issues_of(old(list)@).push(
            issue(severity@, code@, path@, message@),
        ),
{
    let ghost was = list@;
    let i = config_issue(severity, code, path, message);
    list.push(i);
    assert(issues_of(list@) =~= issues_of(was).push(i@));
}

// ---------------------------------------------------------------------------
// Providers
// ---------------------------------------------------------------------------

/// Where a provider stands in the configuration.
pub open spec fn provider_path(index: nat) -> Seq<char> {
    "providers["@ + decimal::decimal(index) + "]"@
}

/// Whether a provider has a base address that is none of the web.
pub open spec fn has_bad_address(p: config::ProviderView) -> bool {
    match p.base_url {
        Some(b) => !text::blank(b) && !weburl::is_web(text::trimmed(b)),
        None => false,
    }
}

/// What is wrong with a provider itself.
pub open spec fn own_issues(p: config::ProviderView, path: Seq<char>) -> Seq<IssueView> {
    let name = secrets::display_name(p);
    raised(
        text::blank(p.name),
        issue("error"@, "missing_provider_name"@, path, "服务商名称不能为空"@),
    ) + raised(
        text::blank(p.api_key),
        issue(
            "error"@,
            "missing_api_key"@,
            path + ".api_key"@,
            name + " 缺少 API Key"@,
        ),
    ) + raised(
        has_bad_address(p),
        issue(
            "error"@,
            "invalid_base_url"@,
            path + ".base_url"@,
            name + " 的 Base URL 必须以 http:// 或 https:// 开头"@,
        ),
    ) + raised(
        p.models.len() == 0,
        issue(
            "warning"@,
            "missing_models"@,
            path + ".models"@,
            name + " 还没有模型映射"@,
        ),
    )
}

/// What is wrong with a model of a provider.
pub open spec fn model_issues(
    p: config::ProviderView,
    path: Seq<char>,
    pricing: json::JsonView,
    j: nat,
) -> Seq<IssueView> {
    let alias = text::trimmed(p.models[j as int].model_name);
    if alias.len() == 0 {
        seq![
            issue(
                "error"@,
                "missing_model_alias"@,
                path + ".models["@ + decimal::decimal(j) + "].model_name"@,
                secrets::display_name(p) + " 存在空模型别名"@,
            ),
        ]
    } else {
        raised(
            !tokens::is_priced(pricing, alias),
            issue(
                "warning"@,
                "missing_pricing"@,
                "pricing."@ + alias,
                alias + " 缺少有效输入/输出定价，成本统计会低估"@,
            ),
        )
    }
}

/// What is wrong with the first `n` models of a provider.
pub open spec fn models_issues(
    p: config::ProviderView,
    path: Seq<char>,
    pricing: json::JsonView,
    n: nat,
) -> Seq<IssueView>
    decreases n,
{
    if n == 0 {
        Seq::empty()
    } else {
        models_issues(p, path, pricing, (n - 1) as nat) + model_issues(
            p,
            path,
            pricing,
            (n - 1) as nat,
        )
    }
}

/// What is wrong with the first `n` providers.
pub open spec fn providers_issues(
    ps: Seq<config::ProviderView>,
    pricing: json::JsonView,
    n: nat,
) -> Seq<IssueView>
    decreases n,
{
    if n == 0 {
        Seq::empty()
    } else {
        let p = ps[n - 1];
        let path = provider_path((n - 1) as nat);
        providers_issues(ps, pricing, (n - 1) as nat) + own_issues(p, path) + models_issues(
            p,
            path,
            pricing,
            p.models.len(),
        )
    }
}

fn bad_address(p: &ProviderConfig) -> (r: bool)
    ensures
        r == has_bad_address(p@),
{
    match &p.base_url {
        Some(b) => {
            if text::is_blank(b.as_str()) {
                false
            } else {
                let t = text::trim(b.as_str());
                !weburl::names_web_address(t.as_str())
            }
        },
        None => false,
    }
}

fn check_own(list: &mut Vec<ConfigIssue>, p: &ProviderConfig, path: &str)
    ensures
        issues_of(final(list)@) == issues_of(old(list)@) + own_issues(p@, path@),
{
    let name = secrets::provider_name(p);
    let ghost was = issues_of(list@);
    if text::is_blank(p.name.as_str()) {
        raise(list, "error", "missing_provider_name", path, "服务商名称不能为空");
    }
    if text::is_blank(p.api_key.as_str()) {
        let at = text::cat(path, ".api_key");
        let message = text::cat(name.as_str(), " 缺少 API Key");
        raise(list, "error", "missing_api_key", at.as_str(), message.as_str());
    }
    if bad_address(p) {
        let at = text::cat(path, ".base_url");
        let message = text::cat(
            name.as_str(),
            " 的 Base URL 必须以 http:// 或 https:// 开头",
        );
        raise(list, "error", "invalid_base_url", at.as_str(), message.as_str());
    }
    if p.models.len() == 0 {
        let at = text::cat(path, ".models");
        let message = text::cat(name.as_str(), " 还没有模型映射");
        raise(list, "warning", "missing_models", at.as_str(), message.as_str());
    }
    assert(issues_of(list@) =~= was + own_issues(p@, path@));
}

fn check_model(
    list: &mut Vec<ConfigIssue>,
    p: &ProviderConfig,
    path: &str,
    pricing: &Json,
    j: usize,
)
    requires
        j < p.models@.len(),
    ensures
        issues_of(final(list)@) == issues_of(old(list)@) + model_issues(
            p@,
            path@,
            pricing@,
            j as nat,
        ),
{
    let ghost was = issues_of(list@);
    let alias = text::trim(p.models[j].model_name.as_str());
    assert(p@.models[j as int] == p.models@[j as int]@);
    if alias.as_str().is_empty() {
        let number = decimal::number_text(j as u64);
        let at = text::cat4(path, ".models[", number.as_str(), "].model_name");
        let name = secrets::provider_name(p);
        let message = text::cat(name.as_str(), " 存在空模型别名");
        raise(list, "error", "missing_model_alias", at.as_str(), message.as_str());
    } else if !tokens::pricing_present(pricing, alias.as_str()) {
        let at = text::cat("pricing.", alias.as_str());
        let message = text::cat(
            alias.as_str(),
            " 缺少有效输入/输出定价，成本统计会低估",
        );
        raise(list, "warning", "missing_pricing", at.as_str(), message.as_str());
    }
    assert(issues_of(list@) =~= was + model_issues(p@, path@, pricing@, j as nat));
}

fn check_providers(list: &mut Vec<ConfigIssue>, cfg: &AppConfig)
    ensures
        issues_of(final(list)@) == issues_of(old(list)@) + providers_issues(
            cfg@.providers,
            cfg@.pricing,
            cfg@.providers.len(),
        ),
{
    let ghost ps = cfg@.providers;
    let ghost was = issues_of(list@);
    let n: usize = cfg.providers.len();
    assert(was + providers_issues(ps, cfg@.pricing, 0) =~= was);
    for i in 0..n
        invariant
            n == cfg.providers@.len(),
            ps == config::providers_of(cfg.providers@),
            issues_of(list@) == was + providers_issues(ps, cfg@.pricing, i as nat),
    {
        let p = &cfg.providers[i];
        let number = decimal::number_text(i as u64);
        let path = text::cat3("providers[", number.as_str(), "]");
        assert(ps[i as int] == p@);
        check_own(list, p, path.as_str());
        let ghost mid = issues_of(list@);
        let k: usize = p.models.len();
        assert(mid + models_issues(p@, path@, cfg@.pricing, 0) =~= mid);
        for j in 0..k
            invariant
                k == p.models@.len(),
                issues_of(list@) == mid + models_issues(p@, path@, cfg@.pricing, j as nat),
        {
            check_model(list, p, path.as_str(), &cfg.pricing, j);
            assert(issues_of(list@) =~= mid + models_issues(
                p@,
                path@,
                cfg@.pricing,
                (j + 1) as nat,
            ));
        }
        assert(issues_of(list@) =~= was + providers_issues(ps, cfg@.pricing, (i + 1) as nat));
    }
}

// ---------------------------------------------------------------------------
// Aliases that several providers have
// ---------------------------------------------------------------------------

/// The providers that have an alias, one for each model with it.
#[derive(Debug)]
pub struct Owners {
    pub alias: String,
    pub names: Vec<String>,
}

/// What a table of owners holds.
pub open spec fn table_of(v: Seq<Owners>) -> Seq<(Seq<char>, Seq<Seq<char>>)> {
    Seq::new(v.len(), |i: int| (v[i].alias@, text::texts(v[i].names@)))
}

/// A table, ordered by alias, with one more owner of an alias.
pub open spec fn entered(
    table: Seq<(Seq<char>, Seq<Seq<char>>)>,
    alias: Seq<char>,
    owner: Seq<char>,
) -> Seq<(Seq<char>, Seq<Seq<char>>)>
    decreases table.len(),
{
    if table.len() == 0 {
        seq![(alias, seq![owner])]
    } else if table[0].0 == alias {
        seq![(alias, table[0].1.push(owner))] + table.skip(1)
    } else if text::text_lt(alias, table[0].0) {
        seq![(alias, seq![owner])] + table
    } else {
        seq![table[0]] + entered(table.skip(1), alias, owner)
    }
}

/// The table with the first `n` models of a provider.
pub open spec fn with_models(
    table: Seq<(Seq<char>, Seq<Seq<char>>)>,
    p: config::ProviderView,
    n: nat,
) -> Seq<(Seq<char>, Seq<Seq<char>>)>
    decreases n,
{
    if n == 0 {
        table
    } else {
        let before = with_models(table, p, (n - 1) as nat);
        let alias = text::trimmed(p.models[n - 1].model_name);
        if alias.len() == 0 {
            before
        } else {
            entered(before, alias, secrets::display_name(p))
        }
    }
}

/// The table of the owners of all aliases, ordered by alias.
pub open spec fn owner_table(ps: Seq<config::ProviderView>, n: nat) -> Seq<
    (Seq<char>, Seq<Seq<char>>),
>
    decreases n,
{
    if n == 0 {
        Seq::empty()
    } else {
        with_models(owner_table(ps, (n - 1) as nat), ps[n - 1], ps[n - 1].models.len())
    }
}

/// The issues about the first `n` aliases of a table that have several owners.
pub open spec fn duplicate_issues(table: Seq<(Seq<char>, Seq<Seq<char>>)>, n: nat) -> Seq<IssueView>
    decreases n,
{
    if n == 0 {
        Seq::empty()
    } else {
        let (alias, names) = table[n - 1];
        duplicate_issues(table, (n - 1) as nat) + raised(
            names.len() > 1,
            issue(
                "error"@,
                "duplicate_model_alias"@,
                "providers.models."@ + alias,
                "模型别名 "@ + alias + " 在多个服务商中重复: "@ + text::joined(
                    names,
                    ", "@,
                ),
            ),
        )
    }
}

/// All that is wrong with a configuration.
pub open spec fn all_issues(c: config::ConfigView) -> Seq<IssueView> {
    let table = owner_table(c.providers, c.providers.len());
    providers_issues(c.providers, c.pricing, c.providers.len()) + duplicate_issues(
        table,
        table.len(),
    )
}

proof fn lemma_table_push(v: Seq<Owners>, x: Owners)
    ensures
        table_of(v.push(x)) == table_of(v).push((x.alias@, text::texts(x.names@))),
{
    assert(table_of(v.push(x)) =~= table_of(v).push((x.alias@, text::texts(x.names@))));
}

fn single(alias: &str, owner: &str) -> (r: Owners)
    ensures
        r.alias@ == alias@,
        text::texts(r.names@) == seq![owner@],
{
    let names: Vec<String> = vec![owner.to_owned()];
    assert(text::texts(names@) =~= seq![owner@]);
    Owners { alias: alias.to_owned(), names }
}

fn enter(table: &mut Vec<Owners>, alias: &str, owner: &str)
    ensures
        table_of(final(table)@) == entered(table_of(old(table)@), alias@, owner@),
{
    let ghost all = table_of(table@);
    let n: usize = table.len();
    let mut i: usize = 0;
    assert(all.skip(0) =~= all);
    assert(all.take(0) + entered(all, alias@, owner@) =~= entered(all, alias@, owner@));
    while i < n
        invariant
            n == table@.len(),
            *table == *old(table),
            all == table_of(table@),
            i <= n,
            all.take(i as int) + entered(all.skip(i as int), alias@, owner@) == entered(
                all,
                alias@,
                owner@,
            ),
        decreases n - i,
    {
        let ghost rest = all.skip(i as int);
        assert(rest[0] == all[i as int]);
        assert(rest.skip(1) =~= all.skip(i + 1));
        if text::same(table[i].alias.as_str(), alias) {
            let mut e = table.remove(i);
            let ghost old_names = e.names@;
            e.names.push(owner.to_owned());
            assert(text::texts(e.names@) =~= text::texts(old_names).push(owner@));
            table.insert(i, e);
            assert(table_of(table@) =~= all.take(i as int) + (seq![
                (alias@, rest[0].1.push(owner@)),
            ] + rest.skip(1)));
            return ;
        }
        if text::less(alias, table[i].alias.as_str()) {
            let e = single(alias, owner);
            table.insert(i, e);
            assert(table_of(table@) =~= all.take(i as int) + (seq![(alias@, seq![owner@])]
                + rest));
            return ;
        }
        assert(all.take(i + 1) + entered(rest.skip(1), alias@, owner@) =~= all.take(i as int)
            + entered(rest, alias@, owner@));
        i = i + 1;
    }
    assert(all.skip(n as int) =~= Seq::empty());
    assert(all.take(n as int) =~= all);
    let e = single(alias, owner);
    proof {
        lemma_table_push(table@, e);
    }
    table.push(e);
    assert(table_of(table@) =~= all + seq![(alias@, seq![owner@])]);
}

fn build_table(cfg: &AppConfig) -> (r: Vec<Owners>)
    ensures
        table_of(r@) == owner_table(cfg@.providers, cfg@.providers.len()),
{
    let mut table: Vec<Owners> = Vec::new();
    let ghost ps = cfg@.providers;
    let n: usize = cfg.providers.len();
    assert(table_of(table@) =~= Seq::empty());
    for i in 0..n
        invariant
            n == cfg.providers@.len(),
            ps == config::providers_of(cfg.providers@),
            table_of(table@) == owner_table(ps, i as nat),
    {
        let p = &cfg.providers[i];
        let name = secrets::provider_name(p);
        let ghost before = table_of(table@);
        assert(ps[i as int] == p@);
        let k: usize = p.models.len();
        for j in 0..k
            invariant
                k == p.models@.len(),
                name@ == secrets::display_name(p@),
                table_of(table@) == with_models(before, p@, j as nat),
        {
            let alias = text::trim(p.models[j].model_name.as_str());
            assert(p@.models[j as int] == p.models@[j as int]@);
            if !alias.as_str().is_empty() {
                enter(&mut table, alias.as_str(), name.as_str());
            }
        }
    }
    table
}

/// All that is wrong with a configuration: what is wrong with each provider and its models, in
/// order, and then the aliases that several models have, ordered by alias.
pub fn validate_config_issues(cfg: &AppConfig) -> (r: Vec<ConfigIssue>)
    ensures
        issues_of(r@) == all_issues(cfg@),
{
    let mut out: Vec<ConfigIssue> = Vec::new();
    assert(issues_of(out@) =~= Seq::empty());
    check_providers(&mut out, cfg);
    let table = build_table(cfg);
    let ghost head = issues_of(out@);
    let ghost all = table_of(table@);
    assert(head =~= providers_issues(cfg@.providers, cfg@.pricing, cfg@.providers.len()));
    let n: usize = table.len();
    assert(head + duplicate_issues(all, 0) =~= head);
    for i in 0..n
        invariant
            n == table@.len(),
            all == table_of(table@),
            issues_of(out@) == head + duplicate_issues(all, i as nat),
    {
        let e = &table[i];
        assert(all[i as int] == (e.alias@, text::texts(e.names@)));
        if e.names.len() > 1 {
            let at = text::cat("providers.models.", e.alias.as_str());
            let names = text::join(&e.names, ", ");
            let message = text::cat4(
                "模型别名 ",
                e.alias.as_str(),
                " 在多个服务商中重复: ",
                names.as_str(),
            );
            raise(&mut out, "error", "duplicate_model_alias", at.as_str(), message.as_str());
        }
        assert(issues_of(out@) =~= head + duplicate_issues(all, (i + 1) as nat));
    }
    out
}

/// Whether nothing stands in the way of saving.
pub open spec fn is_acceptable(list: Seq<IssueView>) -> bool {
    forall|i: int| 0 <= i < list.len() ==> (#[trigger] list[i]).severity != "error"@
}

/// Whether none of the issues is an error.
pub fn validation_passes(list: &Vec<ConfigIssue>) -> (r: bool)
    ensures
        r == is_acceptable(issues_of(list@)),
{
    let n: usize = list.len();
    for i in 0..n
        invariant
            n == list@.len(),
            forall|j: int| 0 <= j < i ==> (#[trigger] issues_of(list@)[j]).severity != "error"@,
    {
        if text::same(list[i].severity.as_str(), "error") {
            assert(issues_of(list@)[i as int].severity == "error"@);
            return false;
        }
    }
    true
}

// ---------------------------------------------------------------------------
// What the table of owners says
// ---------------------------------------------------------------------------

/// Whether a table is ordered by alias, and each alias stands there once.
pub open spec fn is_ordered(table: Seq<(Seq<char>, Seq<Seq<char>>)>) -> bool {
    forall|i: int, j: int|
        0 <= i < j < table.len() ==> text::text_lt((#[trigger] table[i]).0, (#[trigger] table[j]).0)
}

/// The owners of an alias in a table.
pub open spec fn looked_up(table: Seq<(Seq<char>, Seq<Seq<char>>)>, alias: Seq<char>) -> Seq<
    Seq<char>,
>
    decreases table.len(),
{
    if table.len() == 0 {
        Seq::empty()
    } else if table[0].0 == alias {
        table[0].1
    } else {
        looked_up(table.skip(1), alias)
    }
}

/// The names of a provider for each of its first `n` models that has the given alias.
pub open spec fn model_owners(p: config::ProviderView, alias: Seq<char>, n: nat) -> Seq<Seq<char>>
    decreases n,
{
    if n == 0 {
        Seq::empty()
    } else {
        let before = model_owners(p, alias, (n - 1) as nat);
        if text::trimmed(p.models[n - 1].model_name) == alias {
            before.push(secrets::display_name(p))
        } else {
            before
        }
    }
}

/// The names of the first `n` providers for each of their models that has the given alias.
pub open spec fn owners(ps: Seq<config::ProviderView>, alias: Seq<char>, n: nat) -> Seq<Seq<char>>
    decreases n,
{
    if n == 0 {
        Seq::empty()
    } else {
        owners(ps, alias, (n - 1) as nat) + model_owners(ps[n - 1], alias, ps[n - 1].models.len())
    }
}

proof fn lemma_absent(table: Seq<(Seq<char>, Seq<Seq<char>>)>, alias: Seq<char>)
    requires
        forall|i: int| 0 <= i < table.len() ==> (#[trigger] table[i]).0 != alias,
    ensures
        looked_up(table, alias).len() == 0,
    decreases table.len(),
{
    if table.len() > 0 {
        assert(table[0].0 != alias);
        let rest = table.skip(1);
        assert forall|i: int| 0 <= i < rest.len() implies (#[trigger] rest[i]).0 != alias by {
            assert(rest[i] == table[i + 1]);
        }
        lemma_absent(rest, alias);
    }
}

proof fn lemma_entered(
    table: Seq<(Seq<char>, Seq<Seq<char>>)>,
    alias: Seq<char>,
    owner: Seq<char>,
    other: Seq<char>,
)
    requires
        is_ordered(table),
    ensures
        is_ordered(entered(table, alias, owner)),
        looked_up(entered(table, alias, owner), other) == (if other == alias {
            looked_up(table, alias).push(owner)
        } else {
            looked_up(table, other)
        }),
        forall|i: int|
            0 <= i < entered(table, alias, owner).len() ==> (#[trigger] entered(
                table,
                alias,
                owner,
            )[i]).0 == alias || exists|k: int|
                0 <= k < table.len() && (#[trigger] table[k]).0 == entered(table, alias, owner)[i].0,
    decreases table.len(),
{
    reveal_with_fuel(looked_up, 2);
    let out = entered(table, alias, owner);
    if table.len() == 0 {
        assert(out.skip(1) =~= Seq::empty());
        assert(looked_up(table, alias).push(owner) =~= seq![owner]);
    } else if table[0].0 == alias {
        assert(out.skip(1) =~= table.skip(1));
        assert forall|i: int, j: int| 0 <= i < j < out.len() implies text::text_lt(
            (#[trigger] out[i]).0,
            (#[trigger] out[j]).0,
        ) by {
            assert(out[i].0 == table[i].0 && out[j].0 == table[j].0);
        }
        assert forall|i: int| 0 <= i < out.len() implies (#[trigger] out[i]).0 == alias
            || exists|k: int| 0 <= k < table.len() && (#[trigger] table[k]).0 == out[i].0 by {
            assert(table[i].0 == out[i].0);
        }
    } else if text::text_lt(alias, table[0].0) {
        assert(out.skip(1) =~= table);
        assert forall|i: int| 0 <= i < table.len() implies text::text_lt(
            alias,
            (#[trigger] table[i]).0,
        ) by {
            if i > 0 {
                text::lemma_text_lt_transitive(alias, table[0].0, table[i].0);
            }
        }
        assert forall|i: int| 0 <= i < table.len() implies (#[trigger] table[i]).0 != alias by {
            text::lemma_text_lt_total(alias, table[i].0);
        }
        lemma_absent(table, alias);
        assert(looked_up(table, alias).push(owner) =~= seq![owner]);
        assert forall|i: int, j: int| 0 <= i < j < out.len() implies text::text_lt(
            (#[trigger] out[i]).0,
            (#[trigger] out[j]).0,
        ) by {
            assert(out[j] == table[j - 1]);
            if i > 0 {
                assert(out[i] == table[i - 1]);
            }
        }
        assert forall|i: int| 0 <= i < out.len() implies (#[trigger] out[i]).0 == alias
            || exists|k: int| 0 <= k < table.len() && (#[trigger] table[k]).0 == out[i].0 by {
            if i > 0 {
                assert(table[i - 1].0 == out[i].0);
            }
        }
    } else {
        let rest = table.skip(1);
        let tail = entered(rest, alias, owner);
        assert forall|i: int, j: int| 0 <= i < j < rest.len() implies text::text_lt(
            (#[trigger] rest[i]).0,
            (#[trigger] rest[j]).0,
        ) by {
            assert(rest[i] == table[i + 1] && rest[j] == table[j + 1]);
        }
        lemma_entered(rest, alias, owner, other);
        text::lemma_text_lt_total(alias, table[0].0);
        assert(out.skip(1) =~= tail);
        assert(out[0] == table[0]);
        assert forall|i: int| 0 <= i < tail.len() implies text::text_lt(
            table[0].0,
            (#[trigger] tail[i]).0,
        ) by {
            if tail[i].0 != alias {
                let k = choose|k: int| 0 <= k < rest.len() && (#[trigger] rest[k]).0 == tail[i].0;
                assert(rest[k] == table[k + 1]);
            }
        }
        assert forall|i: int, j: int| 0 <= i < j < out.len() implies text::text_lt(
            (#[trigger] out[i]).0,
            (#[trigger] out[j]).0,
        ) by {
            assert(out[j] == tail[j - 1]);
            if i > 0 {
                assert(out[i] == tail[i - 1]);
            }
        }
        assert forall|i: int| 0 <= i < out.len() implies (#[trigger] out[i]).0 == alias
            || exists|k: int| 0 <= k < table.len() && (#[trigger] table[k]).0 == out[i].0 by {
            if i > 0 {
                assert(out[i] == tail[i - 1]);
                if tail[i - 1].0 != alias {
                    let k = choose|k: int|
                        0 <= k < rest.len() && (#[trigger] rest[k]).0 == tail[i - 1].0;
                    assert(rest[k] == table[k + 1]);
                }
            } else {
                assert(table[0].0 == out[0].0);
            }
        }
    }
}

proof fn lemma_with_models(
    table: Seq<(Seq<char>, Seq<Seq<char>>)>,
    p: config::ProviderView,
    n: nat,
    alias: Seq<char>,
)
    requires
        is_ordered(table),
        alias.len() > 0,
    ensures
        is_ordered(with_models(table, p, n)),
        looked_up(with_models(table, p, n), alias) == looked_up(table, alias) + model_owners(
            p,
            alias,
            n,
        ),
    decreases n,
{
    if n > 0 {
        lemma_with_models(table, p, (n - 1) as nat, alias);
        let before = with_models(table, p, (n - 1) as nat);
        let a = text::trimmed(p.models[n - 1].model_name);
        if a.len() > 0 {
            lemma_entered(before, a, secrets::display_name(p), alias);
        }
        assert(looked_up(with_models(table, p, n), alias) =~= looked_up(table, alias)
            + model_owners(p, alias, n));
    } else {
        assert(looked_up(table, alias) + model_owners(p, alias, 0) =~= looked_up(table, alias));
    }
}

/// The table of owners is ordered by alias, and says of each alias who has it, in the order of the
/// configuration.
pub proof fn law_owner_table(ps: Seq<config::ProviderView>, n: nat, alias: Seq<char>)
    requires
        alias.len() > 0,
    ensures
        is_ordered(owner_table(ps, n)),
        looked_up(owner_table(ps, n), alias) == owners(ps, alias, n),
    decreases n,
{
    if n > 0 {
        law_owner_table(ps, (n - 1) as nat, alias);
        lemma_with_models(
            owner_table(ps, (n - 1) as nat),
            ps[n - 1],
            ps[n - 1].models.len(),
            alias,
        );
    }
}

proof fn lemma_looked_up_at(table: Seq<(Seq<char>, Seq<Seq<char>>)>, alias: Seq<char>) -> (k: int)
    requires
        looked_up(table, alias).len() > 0,
    ensures
        0 <= k < table.len(),
        table[k] == (alias, looked_up(table, alias)),
    decreases table.len(),
{
    if table[0].0 == alias {
        0
    } else {
        lemma_looked_up_at(table.skip(1), alias) + 1
    }
}

proof fn lemma_duplicate_raised(table: Seq<(Seq<char>, Seq<Seq<char>>)>, n: nat, k: int) -> (at: int)
    requires
        0 <= k < n <= table.len(),
        table[k].1.len() > 1,
    ensures
        0 <= at < duplicate_issues(table, n).len(),
        duplicate_issues(table, n)[at].severity == "error"@,
        duplicate_issues(table, n)[at].code == "duplicate_model_alias"@,
        duplicate_issues(table, n)[at].path == "providers.models."@ + table[k].0,
    decreases n,
{
    let before = duplicate_issues(table, (n - 1) as nat);
    if k == n - 1 {
        before.len() as int
    } else {
        lemma_duplicate_raised(table, (n - 1) as nat, k)
    }
}

/// A configuration in which two models have the same alias is not acceptable.
pub proof fn law_duplicate_alias_is_an_error(c: config::ConfigView, alias: Seq<char>)
    requires
        alias.len() > 0,
        owners(c.providers, alias, c.providers.len()).len() > 1,
    ensures
        !is_acceptable(all_issues(c)),
        exists|i: int|
            0 <= i < all_issues(c).len() && (#[trigger] all_issues(c)[i]).code
                == "duplicate_model_alias"@ && all_issues(c)[i].path == "providers.models."@ + alias,
{
    let table = owner_table(c.providers, c.providers.len());
    law_owner_table(c.providers, c.providers.len(), alias);
    let k = lemma_looked_up_at(table, alias);
    let at = lemma_duplicate_raised(table, table.len(), k);
    let head = providers_issues(c.providers, c.pricing, c.providers.len());
    assert(all_issues(c)[head.len() + at] == duplicate_issues(table, table.len())[at]);
}

/// Whether a provider is in order: it has a name and a key, no address but one of the web, and an
/// alias for each of its models.
pub open spec fn is_in_order(p: config::ProviderView) -> bool {
    &&& !text::blank(p.name)
    &&& !text::blank(p.api_key)
    &&& !has_bad_address(p)
    &&& forall|j: int| 0 <= j < p.models.len() ==> #[trigger] alias_of(p, j).len() > 0
}

/// The alias of a model of a provider, without whitespace around it.
pub open spec fn alias_of(p: config::ProviderView, j: int) -> Seq<char> {
    text::trimmed(p.models[j].model_name)
}

/// Whether the provider `i` has a model `j`, and it has the given alias.
pub open spec fn has_at(ps: Seq<config::ProviderView>, alias: Seq<char>, i: int, j: int) -> bool {
    0 <= i < ps.len() && 0 <= j < ps[i].models.len() && alias_of(ps[i], j) == alias
}

/// Whether no two models have the same alias.
pub open spec fn has_distinct_aliases(ps: Seq<config::ProviderView>) -> bool {
    forall|alias: Seq<char>, i: int, j: int, k: int, l: int|
        #[trigger] has_at(ps, alias, i, j) && #[trigger] has_at(ps, alias, k, l) ==> i == k && j
            == l
}

proof fn lemma_acceptable_sum(a: Seq<IssueView>, b: Seq<IssueView>)
    ensures
        is_acceptable(a + b) == (is_acceptable(a) && is_acceptable(b)),
{
    let whole = a + b;
    if is_acceptable(whole) {
        assert forall|i: int| 0 <= i < a.len() implies (#[trigger] a[i]).severity != "error"@ by {
            assert(whole[i] == a[i]);
        }
        assert forall|i: int| 0 <= i < b.len() implies (#[trigger] b[i]).severity != "error"@ by {
            assert(whole[a.len() + i] == b[i]);
        }
    }
    if is_acceptable(a) && is_acceptable(b) {
        assert forall|i: int| 0 <= i < whole.len() implies (#[trigger] whole[i]).severity
            != "error"@ by {
            if i < a.len() {
                assert(whole[i] == a[i]);
            } else {
                assert(whole[i] == b[i - a.len()]);
            }
        }
    }
}

proof fn lemma_acceptable_raised(condition: bool, i: IssueView)
    ensures
        is_acceptable(raised(condition, i)) == !(condition && i.severity == "error"@),
{
    let list = raised(condition, i);
    if condition {
        assert(list[0] == i);
    }
}

proof fn lemma_warning_is_no_error()
    ensures
        "warning"@ != "error"@,
{
    reveal_strlit("warning");
    reveal_strlit("error");
    assert("warning"@.len() == 7 && "error"@.len() == 5);
}

proof fn lemma_own_acceptable(p: config::ProviderView, path: Seq<char>)
    ensures
        is_acceptable(own_issues(p, path)) == (!text::blank(p.name) && !text::blank(p.api_key)
            && !has_bad_address(p)),
{
    let name = secrets::display_name(p);
    let no_name = issue("error"@, "missing_provider_name"@, path, "服务商名称不能为空"@);
    let no_key = issue(
        "error"@,
        "missing_api_key"@,
        path + ".api_key"@,
        name + " 缺少 API Key"@,
    );
    let no_web = issue(
        "error"@,
        "invalid_base_url"@,
        path + ".base_url"@,
        name + " 的 Base URL 必须以 http:// 或 https:// 开头"@,
    );
    let no_models = issue(
        "warning"@,
        "missing_models"@,
        path + ".models"@,
        name + " 还没有模型映射"@,
    );
    let a = raised(text::blank(p.name), no_name);
    let b = raised(text::blank(p.api_key), no_key);
    let c = raised(has_bad_address(p), no_web);
    let d = raised(p.models.len() == 0, no_models);
    lemma_warning_is_no_error();
    lemma_acceptable_raised(text::blank(p.name), no_name);
    lemma_acceptable_raised(text::blank(p.api_key), no_key);
    lemma_acceptable_raised(has_bad_address(p), no_web);
    lemma_acceptable_raised(p.models.len() == 0, no_models);
    lemma_acceptable_sum(a, b);
    lemma_acceptable_sum(a + b, c);
    lemma_acceptable_sum(a + b + c, d);
    assert(own_issues(p, path) == a + b + c + d);
}

proof fn lemma_models_acceptable(
    p: config::ProviderView,
    path: Seq<char>,
    pricing: json::JsonView,
    n: nat,
)
    requires
        n <= p.models.len(),
    ensures
        is_acceptable(models_issues(p, path, pricing, n)) == (forall|j: int|
            0 <= j < n ==> #[trigger] alias_of(p, j).len() > 0),
    decreases n,
{
    if n > 0 {
        let m = (n - 1) as nat;
        lemma_models_acceptable(p, path, pricing, m);
        let before = models_issues(p, path, pricing, m);
        let here = model_issues(p, path, pricing, m);
        lemma_acceptable_sum(before, here);
        lemma_warning_is_no_error();
        let alias = alias_of(p, m as int);
        assert(is_acceptable(here) == (alias.len() > 0)) by {
            if alias.len() == 0 {
                assert(here[0].severity == "error"@);
            } else {
                lemma_acceptable_raised(
                    !tokens::is_priced(pricing, alias),
                    issue(
                        "warning"@,
                        "missing_pricing"@,
                        "pricing."@ + alias,
                        alias + " 缺少有效输入/输出定价，成本统计会低估"@,
                    ),
                );
            }
        }
    }
}

proof fn lemma_providers_acceptable(
    ps: Seq<config::ProviderView>,
    pricing: json::JsonView,
    n: nat,
)
    requires
        n <= ps.len(),
    ensures
        is_acceptable(providers_issues(ps, pricing, n)) == (forall|i: int|
            0 <= i < n ==> is_in_order(#[trigger] ps[i])),
    decreases n,
{
    if n > 0 {
        let m = (n - 1) as nat;
        let p = ps[m as int];
        let path = provider_path(m);
        let before = providers_issues(ps, pricing, m);
        let own = own_issues(p, path);
        let models = models_issues(p, path, pricing, p.models.len());
        lemma_providers_acceptable(ps, pricing, m);
        lemma_own_acceptable(p, path);
        lemma_models_acceptable(p, path, pricing, p.models.len());
        lemma_acceptable_sum(before, own);
        lemma_acceptable_sum(before + own, models);
        assert(is_acceptable(own) && is_acceptable(models) <==> is_in_order(p));
    }
}

proof fn lemma_duplicates_acceptable(table: Seq<(Seq<char>, Seq<Seq<char>>)>, n: nat)
    requires
        n <= table.len(),
    ensures
        is_acceptable(duplicate_issues(table, n)) == (forall|k: int|
            0 <= k < n ==> (#[trigger] table[k]).1.len() <= 1),
    decreases n,
{
    if n > 0 {
        let m = (n - 1) as nat;
        lemma_duplicates_acceptable(table, m);
        let (alias, names) = table[m as int];
        let i = issue(
            "error"@,
            "duplicate_model_alias"@,
            "providers.models."@ + alias,
            "模型别名 "@ + alias + " 在多个服务商中重复: "@ + text::joined(names, ", "@),
        );
        lemma_acceptable_raised(names.len() > 1, i);
        lemma_acceptable_sum(duplicate_issues(table, m), raised(names.len() > 1, i));
    }
}

proof fn lemma_model_owner_found(p: config::ProviderView, alias: Seq<char>, n: nat) -> (j: int)
    requires
        model_owners(p, alias, n).len() > 0,
    ensures
        0 <= j < n,
        alias_of(p, j) == alias,
    decreases n,
{
    if alias_of(p, n - 1) == alias {
        n - 1
    } else {
        lemma_model_owner_found(p, alias, (n - 1) as nat)
    }
}

proof fn lemma_model_owner_counted(p: config::ProviderView, alias: Seq<char>, n: nat, j: int)
    requires
        0 <= j < n,
        alias_of(p, j) == alias,
    ensures
        model_owners(p, alias, n).len() > 0,
    decreases n,
{
    if j < n - 1 {
        lemma_model_owner_counted(p, alias, (n - 1) as nat, j);
    }
}

proof fn lemma_two_model_owners_found(p: config::ProviderView, alias: Seq<char>, n: nat) -> (r: (
    int,
    int,
))
    requires
        model_owners(p, alias, n).len() > 1,
    ensures
        0 <= r.0 < r.1 < n,
        alias_of(p, r.0) == alias,
        alias_of(p, r.1) == alias,
    decreases n,
{
    if alias_of(p, n - 1) == alias {
        (lemma_model_owner_found(p, alias, (n - 1) as nat), n - 1)
    } else {
        lemma_two_model_owners_found(p, alias, (n - 1) as nat)
    }
}

proof fn lemma_two_model_owners_counted(
    p: config::ProviderView,
    alias: Seq<char>,
    n: nat,
    j: int,
    l: int,
)
    requires
        0 <= j < l < n,
        alias_of(p, j) == alias,
        alias_of(p, l) == alias,
    ensures
        model_owners(p, alias, n).len() > 1,
    decreases n,
{
    if l == n - 1 {
        lemma_model_owner_counted(p, alias, (n - 1) as nat, j);
    } else {
        lemma_two_model_owners_counted(p, alias, (n - 1) as nat, j, l);
    }
}

proof fn lemma_owner_found(ps: Seq<config::ProviderView>, alias: Seq<char>, n: nat) -> (r: (
    int,
    int,
))
    requires
        n <= ps.len(),
        owners(ps, alias, n).len() > 0,
    ensures
        0 <= r.0 < n,
        has_at(ps, alias, r.0, r.1),
    decreases n,
{
    let p = ps[n - 1];
    if model_owners(p, alias, p.models.len()).len() > 0 {
        (n - 1, lemma_model_owner_found(p, alias, p.models.len()))
    } else {
        lemma_owner_found(ps, alias, (n - 1) as nat)
    }
}

proof fn lemma_owner_counted(
    ps: Seq<config::ProviderView>,
    alias: Seq<char>,
    n: nat,
    i: int,
    j: int,
)
    requires
        0 <= i < n <= ps.len(),
        has_at(ps, alias, i, j),
    ensures
        owners(ps, alias, n).len() > 0,
    decreases n,
{
    if i == n - 1 {
        lemma_model_owner_counted(ps[i], alias, ps[i].models.len(), j);
    } else {
        lemma_owner_counted(ps, alias, (n - 1) as nat, i, j);
    }
}

proof fn lemma_two_owners_found(ps: Seq<config::ProviderView>, alias: Seq<char>, n: nat)
    requires
        n <= ps.len(),
        owners(ps, alias, n).len() > 1,
    ensures
        !has_distinct_aliases(ps),
    decreases n,
{
    let p = ps[n - 1];
    let m = (n - 1) as nat;
    let here = model_owners(p, alias, p.models.len());
    if here.len() > 1 {
        let (j, l) = lemma_two_model_owners_found(p, alias, p.models.len());
        assert(has_at(ps, alias, n - 1, j) && has_at(ps, alias, n - 1, l));
    } else if here.len() == 1 {
        let l = lemma_model_owner_found(p, alias, p.models.len());
        let (i, j) = lemma_owner_found(ps, alias, m);
        assert(has_at(ps, alias, n - 1, l) && has_at(ps, alias, i, j));
    } else {
        lemma_two_owners_found(ps, alias, m);
    }
}

proof fn lemma_two_owners_counted(
    ps: Seq<config::ProviderView>,
    alias: Seq<char>,
    n: nat,
    i: int,
    j: int,
    k: int,
    l: int,
)
    requires
        0 <= i <= k < n <= ps.len(),
        has_at(ps, alias, i, j),
        has_at(ps, alias, k, l),
        i == k ==> j < l,
    ensures
        owners(ps, alias, n).len() > 1,
    decreases n,
{
    if k < n - 1 {
        lemma_two_owners_counted(ps, alias, (n - 1) as nat, i, j, k, l);
    } else if i == k {
        lemma_two_model_owners_counted(ps[k], alias, ps[k].models.len(), j, l);
    } else {
        lemma_owner_counted(ps, alias, (n - 1) as nat, i, j);
        lemma_model_owner_counted(ps[k], alias, ps[k].models.len(), l);
    }
}

proof fn lemma_looked_up_each(table: Seq<(Seq<char>, Seq<Seq<char>>)>, k: int)
    requires
        is_ordered(table),
        0 <= k < table.len(),
    ensures
        looked_up(table, table[k].0) == table[k].1,
    decreases table.len(),
{
    if k > 0 {
        text::lemma_text_lt_total(table[0].0, table[k].0);
        let rest = table.skip(1);
        assert forall|i: int, j: int| 0 <= i < j < rest.len() implies text::text_lt(
            (#[trigger] rest[i]).0,
            (#[trigger] rest[j]).0,
        ) by {
            assert(rest[i] == table[i + 1] && rest[j] == table[j + 1]);
        }
        assert(rest[k - 1] == table[k]);
        lemma_looked_up_each(rest, k - 1);
    }
}

/// Whether each alias of a table is one.
pub open spec fn has_aliases(table: Seq<(Seq<char>, Seq<Seq<char>>)>) -> bool {
    forall|k: int| 0 <= k < table.len() ==> (#[trigger] table[k]).0.len() > 0
}

proof fn lemma_models_have_aliases(
    table: Seq<(Seq<char>, Seq<Seq<char>>)>,
    p: config::ProviderView,
    n: nat,
)
    requires
        is_ordered(table),
        has_aliases(table),
    ensures
        is_ordered(with_models(table, p, n)),
        has_aliases(with_models(table, p, n)),
    decreases n,
{
    if n > 0 {
        lemma_models_have_aliases(table, p, (n - 1) as nat);
        let before = with_models(table, p, (n - 1) as nat);
        let a = alias_of(p, n - 1);
        if a.len() > 0 {
            lemma_entered(before, a, secrets::display_name(p), a);
        }
    }
}

proof fn lemma_table_has_aliases(ps: Seq<config::ProviderView>, n: nat)
    ensures
        is_ordered(owner_table(ps, n)),
        has_aliases(owner_table(ps, n)),
    decreases n,
{
    if n > 0 {
        lemma_table_has_aliases(ps, (n - 1) as nat);
        lemma_models_have_aliases(
            owner_table(ps, (n - 1) as nat),
            ps[n - 1],
            ps[n - 1].models.len(),
        );
    }
}

/// A configuration can be saved if and only if each of its providers is in order and no two models
/// have the same alias.
pub proof fn law_orderly_configuration_is_acceptable(c: config::ConfigView)
    ensures
        is_acceptable(all_issues(c)) == ((forall|i: int|
            0 <= i < c.providers.len() ==> is_in_order(#[trigger] c.providers[i]))
            && has_distinct_aliases(c.providers)),
{
    let ps = c.providers;
    let n = ps.len();
    let table = owner_table(ps, n);
    let own = providers_issues(ps, c.pricing, n);
    let duplicates = duplicate_issues(table, table.len());
    lemma_acceptable_sum(own, duplicates);
    lemma_providers_acceptable(ps, c.pricing, n);
    lemma_duplicates_acceptable(table, table.len());
    lemma_table_has_aliases(ps, n);
    if is_acceptable(duplicates) && is_acceptable(own) {
        assert forall|alias: Seq<char>, i: int, j: int, k: int, l: int|
            #[trigger] has_at(ps, alias, i, j) && #[trigger] has_at(ps, alias, k, l) implies i == k
            && j == l by {
            assert(is_in_order(ps[i]));
            assert(alias_of(ps[i], j).len() > 0);
            if i != k || j != l {
                if i < k || (i == k && j < l) {
                    lemma_two_owners_counted(ps, alias, n, i, j, k, l);
                } else {
                    lemma_two_owners_counted(ps, alias, n, k, l, i, j);
                }
                law_owner_table(ps, n, alias);
                let at = lemma_looked_up_at(table, alias);
                assert(table[at].1.len() > 1);
            }
        }
    }
    if has_distinct_aliases(ps) {
        assert forall|k: int| 0 <= k < table.len() implies (#[trigger] table[k]).1.len() <= 1 by {
            let alias = table[k].0;
            lemma_looked_up_each(table, k);
            law_owner_table(ps, n, alias);
            if table[k].1.len() > 1 {
                lemma_two_owners_found(ps, alias, n);
            }
        }
    }
}

// ---------------------------------------------------------------------------
// Whether providers can be reached
// ---------------------------------------------------------------------------

/// What is done first to find out whether a provider can be reached.
#[derive(Debug)]
pub enum ReachPlan {
    /// Nothing: what is wrong with it is said elsewhere.
    Skip,
    /// It cannot be asked, which is worth saying.
    Report(ConfigIssue),
    /// It is asked.
    Ask(health::Probe),
}

/// What a [`ReachPlan`] holds.
pub enum ReachPlanView {
    Skip,
    Report(IssueView),
    Ask(health::ProbeView),
}

impl View for ReachPlan {
    type V = ReachPlanView;

    open spec fn view(&self) -> ReachPlanView {
        match self {
            ReachPlan::Skip => ReachPlanView::Skip,
            ReachPlan::Report(i) => ReachPlanView::Report(i@),
            ReachPlan::Ask(p) => ReachPlanView::Ask(p@),
        }
    }
}

/// Whether a provider has a base address that names none.
pub open spec fn has_no_address(p: config::ProviderView) -> bool {
    match p.base_url {
        Some(b) => !text::blank(b) && !weburl::is_url(text::trimmed(b)),
        None => false,
    }
}

/// What is done first to find out whether a provider can be reached, given the value of the
/// variable that its key may refer to.
pub open spec fn reach_plan(
    p: config::ProviderView,
    index: nat,
    env_value: Option<Seq<char>>,
) -> ReachPlanView {
    let key = health::resolved_key(p.api_key, env_value);
    if text::blank(p.api_key) || has_no_address(p) {
        ReachPlanView::Skip
    } else if secrets::is_reference(p.api_key) && key == p.api_key {
        ReachPlanView::Report(
            issue(
                "warning"@,
                "unresolved_api_key_env"@,
                provider_path(index) + ".api_key"@,
                secrets::display_name(p)
                    + " 使用的环境变量暂未设置，已跳过可达性检查"@,
            ),
        )
    } else {
        match health::probe(p.provider_type, text::or_empty(p.base_url), key, p.user_agent) {
            Ok(q) => ReachPlanView::Ask(q),
            Err(_) => ReachPlanView::Skip,
        }
    }
}

/// What is done first to find out whether a provider can be reached, given the value of the
/// variable that its key may refer to.
pub fn plan_reachability(p: &ProviderConfig, index: usize, env_value: Option<&str>) -> (r: ReachPlan)
    requires
        text::or_empty(p@.base_url).len() <= weburl::URL_LIMIT,
    ensures
        r@ == reach_plan(p@, index as nat, text::opt_str(env_value)),
{
    if text::is_blank(p.api_key.as_str()) {
        return ReachPlan::Skip;
    }
    if let Some(b) = &p.base_url {
        if !text::is_blank(b.as_str()) {
            let t = text::trim(b.as_str());
            if !weburl::names_address(t.as_str()) {
                return ReachPlan::Skip;
            }
        }
    }
    let key = health::resolve_api_key(p.api_key.as_str(), env_value);
    if secrets::is_env_reference(p.api_key.as_str()) && text::same(
        key.as_str(),
        p.api_key.as_str(),
    ) {
        let number = decimal::number_text(index as u64);
        let path = text::cat3("providers[", number.as_str(), "]");
        let at = text::cat(path.as_str(), ".api_key");
        let name = secrets::provider_name(p);
        let message = text::cat(
            name.as_str(),
            " 使用的环境变量暂未设置，已跳过可达性检查",
        );
        return ReachPlan::Report(
            config_issue("warning", "unresolved_api_key_env", at.as_str(), message.as_str()),
        );
    }
    match health::build_probe(
        p.provider_type.as_str(),
        health::borrow_or_empty(&p.base_url),
        key.as_str(),
        health::borrow(&p.user_agent),
    ) {
        Ok(q) => ReachPlan::Ask(q),
        Err(_) => ReachPlan::Skip,
    }
}

/// What is said of a provider that was asked: nothing where it answered with a success.
pub open spec fn reach_outcome(
    p: config::ProviderView,
    index: nat,
    status: u16,
    status_text: Seq<char>,
) -> Option<IssueView> {
    if health::is_success(status) {
        None
    } else {
        Some(
            issue(
                "warning"@,
                "provider_unreachable"@,
                provider_path(index) + ".base_url"@,
                secrets::display_name(p) + " 可达性检查返回 HTTP "@ + status_text,
            ),
        )
    }
}

/// What an optional issue holds.
pub open spec fn opt_issue(o: Option<ConfigIssue>) -> Option<IssueView> {
    match o {
        Some(i) => Some(i@),
        None => None,
    }
}

/// What is said of a provider that answered with a status, which is also given in words.
pub fn finish_reachability(
    p: &ProviderConfig,
    index: usize,
    status: u16,
    status_text: &str,
) -> (r: Option<ConfigIssue>)
    ensures
        opt_issue(r) == reach_outcome(p@, index as nat, status, status_text@),
{
    if 200 <= status && status < 300 {
        return None;
    }
    let number = decimal::number_text(index as u64);
    let path = text::cat3("providers[", number.as_str(), "]");
    let at = text::cat(path.as_str(), ".base_url");
    let name = secrets::provider_name(p);
    let message = text::cat3(name.as_str(), " 可达性检查返回 HTTP ", status_text);
    Some(config_issue("warning", "provider_unreachable", at.as_str(), message.as_str()))
}

/// What is said of a provider that could not be reached.
pub fn fail_reachability(p: &ProviderConfig, index: usize, error: &str) -> (r: ConfigIssue)
    ensures
        r@ == issue(
            "warning"@,
            "provider_unreachable"@,
            provider_path(index as nat) + ".base_url"@,
            secrets::display_name(p@) + " 暂时不可达: "@ + error@,
        ),
{
    let number = decimal::number_text(index as u64);
    let path = text::cat3("providers[", number.as_str(), "]");
    let at = text::cat(path.as_str(), ".base_url");
    let name = secrets::provider_name(p);
    let message = text::cat3(name.as_str(), " 暂时不可达: ", error);
    config_issue("warning", "provider_unreachable", at.as_str(), message.as_str())
}

// ---------------------------------------------------------------------------
// What is promised of the issues
// ---------------------------------------------------------------------------

/// Whether a list has an issue of a severity, with a code, at a place.
pub open spec fn raises(
    list: Seq<IssueView>,
    severity: Seq<char>,
    code: Seq<char>,
    path: Seq<char>,
) -> bool {
    exists|i: int|
        0 <= i < list.len() && (#[trigger] list[i]).severity == severity && list[i].code == code
            && list[i].path == path
}

proof fn lemma_raises_sum(
    a: Seq<IssueView>,
    b: Seq<IssueView>,
    severity: Seq<char>,
    code: Seq<char>,
    path: Seq<char>,
)
    ensures
        raises(a + b, severity, code, path) == (raises(a, severity, code, path) || raises(
            b,
            severity,
            code,
            path,
        )),
{
    let list = a + b;
    if raises(a, severity, code, path) {
        let i = choose|i: int|
            0 <= i < a.len() && (#[trigger] a[i]).severity == severity && a[i].code == code
                && a[i].path == path;
        assert(list[i] == a[i]);
    }
    if raises(b, severity, code, path) {
        let i = choose|i: int|
            0 <= i < b.len() && (#[trigger] b[i]).severity == severity && b[i].code == code
                && b[i].path == path;
        assert(list[a.len() + i] == b[i]);
    }
    if raises(list, severity, code, path) {
        let i = choose|i: int|
            0 <= i < list.len() && (#[trigger] list[i]).severity == severity && list[i].code == code
                && list[i].path == path;
        if i < a.len() {
            assert(list[i] == a[i]);
        } else {
            assert(list[i] == b[i - a.len()]);
        }
    }
}

proof fn lemma_raised_raises(condition: bool, i: IssueView)
    requires
        condition,
    ensures
        raises(raised(condition, i), i.severity, i.code, i.path),
{
    assert(raised(condition, i)[0] == i);
}

proof fn lemma_models_raise(
    p: config::ProviderView,
    path: Seq<char>,
    pricing: json::JsonView,
    n: nat,
    j: int,
    severity: Seq<char>,
    code: Seq<char>,
    place: Seq<char>,
)
    requires
        0 <= j < n,
        raises(model_issues(p, path, pricing, j as nat), severity, code, place),
    ensures
        raises(models_issues(p, path, pricing, n), severity, code, place),
    decreases n,
{
    let before = models_issues(p, path, pricing, (n - 1) as nat);
    lemma_raises_sum(before, model_issues(p, path, pricing, (n - 1) as nat), severity, code, place);
    if j < n - 1 {
        lemma_models_raise(p, path, pricing, (n - 1) as nat, j, severity, code, place);
    }
}

proof fn lemma_providers_raise(
    ps: Seq<config::ProviderView>,
    pricing: json::JsonView,
    n: nat,
    i: int,
    severity: Seq<char>,
    code: Seq<char>,
    place: Seq<char>,
)
    requires
        0 <= i < n <= ps.len(),
        raises(own_issues(ps[i], provider_path(i as nat)), severity, code, place) || raises(
            models_issues(ps[i], provider_path(i as nat), pricing, ps[i].models.len()),
            severity,
            code,
            place,
        ),
    ensures
        raises(providers_issues(ps, pricing, n), severity, code, place),
    decreases n,
{
    let before = providers_issues(ps, pricing, (n - 1) as nat);
    let path = provider_path((n - 1) as nat);
    let own = own_issues(ps[n - 1], path);
    let models = models_issues(ps[n - 1], path, pricing, ps[n - 1].models.len());
    lemma_raises_sum(before, own, severity, code, place);
    lemma_raises_sum(before + own, models, severity, code, place);
    if i < n - 1 {
        lemma_providers_raise(ps, pricing, (n - 1) as nat, i, severity, code, place);
    }
}

proof fn lemma_config_raises(
    c: config::ConfigView,
    i: int,
    severity: Seq<char>,
    code: Seq<char>,
    place: Seq<char>,
)
    requires
        0 <= i < c.providers.len(),
        raises(own_issues(c.providers[i], provider_path(i as nat)), severity, code, place) || raises(
            models_issues(
                c.providers[i],
                provider_path(i as nat),
                c.pricing,
                c.providers[i].models.len(),
            ),
            severity,
            code,
            place,
        ),
    ensures
        raises(all_issues(c), severity, code, place),
{
    let table = owner_table(c.providers, c.providers.len());
    lemma_providers_raise(c.providers, c.pricing, c.providers.len(), i, severity, code, place);
    lemma_raises_sum(
        providers_issues(c.providers, c.pricing, c.providers.len()),
        duplicate_issues(table, table.len()),
        severity,
        code,
        place,
    );
}

/// Each fault of a provider is raised at its place: a missing name, a missing key and an address
/// that is none of the web as errors, missing models as a warning.
pub proof fn law_faults_of_a_provider_are_raised(c: config::ConfigView, i: int)
    requires
        0 <= i < c.providers.len(),
    ensures
        ({
            let p = c.providers[i];
            let path = "providers["@ + decimal::decimal(i as nat) + "]"@;
            let list = all_issues(c);
            &&& text::blank(p.name) ==> raises(list, "error"@, "missing_provider_name"@, path)
            &&& text::blank(p.api_key) ==> raises(
                list,
                "error"@,
                "missing_api_key"@,
                path + ".api_key"@,
            )
            &&& p.base_url is Some && !text::blank(p.base_url->0) && (match weburl::url_scheme_of(
                text::trimmed(p.base_url->0),
            ) {
                Some(s) => s != "http"@ && s != "https"@,
                None => true,
            }) ==> raises(list, "error"@, "invalid_base_url"@, path + ".base_url"@)
            &&& p.models.len() == 0 ==> raises(
                list,
                "warning"@,
                "missing_models"@,
                path + ".models"@,
            )
        }),
{
    let p = c.providers[i];
    let path = provider_path(i as nat);
    let name = secrets::display_name(p);
    let x1 = issue("error"@, "missing_provider_name"@, path, "服务商名称不能为空"@);
    let x2 = issue("error"@, "missing_api_key"@, path + ".api_key"@, name + " 缺少 API Key"@);
    let x3 = issue(
        "error"@,
        "invalid_base_url"@,
        path + ".base_url"@,
        name + " 的 Base URL 必须以 http:// 或 https:// 开头"@,
    );
    let x4 = issue("warning"@, "missing_models"@, path + ".models"@, name + " 还没有模型映射"@);
    let a = raised(text::blank(p.name), x1);
    let b = raised(text::blank(p.api_key), x2);
    let d = raised(has_bad_address(p), x3);
    let e = raised(p.models.len() == 0, x4);
    let own = own_issues(p, path);
    assert(own == a + b + d + e);
    if text::blank(p.name) {
        lemma_raised_raises(true, x1);
        lemma_raises_sum(a, b, x1.severity, x1.code, x1.path);
        lemma_raises_sum(a + b, d, x1.severity, x1.code, x1.path);
        lemma_raises_sum(a + b + d, e, x1.severity, x1.code, x1.path);
        lemma_config_raises(c, i, x1.severity, x1.code, x1.path);
    }
    if text::blank(p.api_key) {
        lemma_raised_raises(true, x2);
        lemma_raises_sum(a, b, x2.severity, x2.code, x2.path);
        lemma_raises_sum(a + b, d, x2.severity, x2.code, x2.path);
        lemma_raises_sum(a + b + d, e, x2.severity, x2.code, x2.path);
        lemma_config_raises(c, i, x2.severity, x2.code, x2.path);
    }
    if has_bad_address(p) {
        lemma_raised_raises(true, x3);
        lemma_raises_sum(a + b, d, x3.severity, x3.code, x3.path);
        lemma_raises_sum(a + b + d, e, x3.severity, x3.code, x3.path);
        lemma_config_raises(c, i, x3.severity, x3.code, x3.path);
    }
    if p.models.len() == 0 {
        lemma_raised_raises(true, x4);
        lemma_raises_sum(a + b + d, e, x4.severity, x4.code, x4.path);
        lemma_config_raises(c, i, x4.severity, x4.code, x4.path);
    }
}

/// Each fault of a model is raised: that it has no alias as an error, that its alias has no price as
/// a warning.
pub proof fn law_faults_of_a_model_are_raised(c: config::ConfigView, i: int, j: int)
    requires
        0 <= i < c.providers.len(),
        0 <= j < c.providers[i].models.len(),
    ensures
        ({
            let alias = text::trimmed(c.providers[i].models[j].model_name);
            let list = all_issues(c);
            &&& alias.len() == 0 ==> raises(
                list,
                "error"@,
                "missing_model_alias"@,
                "providers["@ + decimal::decimal(i as nat) + "]"@ + ".models["@ + decimal::decimal(
                    j as nat,
                ) + "].model_name"@,
            )
            &&& alias.len() > 0 && !tokens::is_priced(c.pricing, alias) ==> raises(
                list,
                "warning"@,
                "missing_pricing"@,
                "pricing."@ + alias,
            )
        }),
{
    let p = c.providers[i];
    let path = provider_path(i as nat);
    let alias = text::trimmed(p.models[j].model_name);
    let own = model_issues(p, path, c.pricing, j as nat);
    let n = p.models.len();
    if alias.len() == 0 {
        let place = path + ".models["@ + decimal::decimal(j as nat) + "].model_name"@;
        assert(own[0].code == "missing_model_alias"@);
        assert(raises(own, "error"@, "missing_model_alias"@, place));
        lemma_models_raise(
            p,
            path,
            c.pricing,
            n,
            j,
            "error"@,
            "missing_model_alias"@,
            place,
        );
        lemma_config_raises(c, i, "error"@, "missing_model_alias"@, place);
    } else if !tokens::is_priced(c.pricing, alias) {
        let place = "pricing."@ + alias;
        assert(own[0].code == "missing_pricing"@);
        assert(raises(own, "warning"@, "missing_pricing"@, place));
        lemma_models_raise(p, path, c.pricing, n, j, "warning"@, "missing_pricing"@, place);
        lemma_config_raises(c, i, "warning"@, "missing_pricing"@, place);
    }
}

/// Whether an issue is a fault of the provider `i` itself.
pub open spec fn is_own_fault(ps: Seq<config::ProviderView>, x: IssueView, i: int) -> bool {
    &&& 0 <= i < ps.len()
    &&& {
        ||| x.code == "missing_provider_name"@ && text::blank(ps[i].name)
        ||| x.code == "missing_api_key"@ && text::blank(ps[i].api_key)
        ||| x.code == "invalid_base_url"@ && has_bad_address(ps[i])
        ||| x.code == "missing_models"@ && ps[i].models.len() == 0
    }
}

/// Whether an issue is a fault of the model `j` of the provider `i`.
pub open spec fn is_model_fault(c: config::ConfigView, x: IssueView, i: int, j: int) -> bool {
    &&& 0 <= i < c.providers.len()
    &&& 0 <= j < c.providers[i].models.len()
    &&& {
        let alias = text::trimmed(c.providers[i].models[j].model_name);
        ||| x.code == "missing_model_alias"@ && alias.len() == 0
        ||| x.code == "missing_pricing"@ && alias.len() > 0 && !tokens::is_priced(c.pricing, alias)
            && x.path == "pricing."@ + alias
    }
}

/// Whether an issue is that several models have an alias.
pub open spec fn is_duplicate_fault(c: config::ConfigView, x: IssueView, alias: Seq<char>) -> bool {
    &&& x.code == "duplicate_model_alias"@
    &&& x.path == "providers.models."@ + alias
    &&& owners(c.providers, alias, c.providers.len()).len() > 1
}

/// Whether an issue has a cause.
pub open spec fn has_a_cause(c: config::ConfigView, x: IssueView) -> bool {
    ||| exists|i: int| is_own_fault(c.providers, x, i)
    ||| exists|i: int, j: int| is_model_fault(c, x, i, j)
    ||| exists|alias: Seq<char>| is_duplicate_fault(c, x, alias)
}

proof fn lemma_model_cause(c: config::ConfigView, i: int, n: nat, at: int)
    requires
        0 <= i < c.providers.len(),
        n <= c.providers[i].models.len(),
        0 <= at < models_issues(c.providers[i], provider_path(i as nat), c.pricing, n).len(),
    ensures
        has_a_cause(
            c,
            models_issues(c.providers[i], provider_path(i as nat), c.pricing, n)[at],
        ),
    decreases n,
{
    let p = c.providers[i];
    let path = provider_path(i as nat);
    let before = models_issues(p, path, c.pricing, (n - 1) as nat);
    let x = models_issues(p, path, c.pricing, n)[at];
    if at < before.len() {
        lemma_model_cause(c, i, (n - 1) as nat, at);
    } else {
        assert(x == model_issues(p, path, c.pricing, (n - 1) as nat)[at - before.len()]);
        assert(is_model_fault(c, x, i, n - 1));
    }
}

proof fn lemma_provider_cause(c: config::ConfigView, n: nat, at: int)
    requires
        n <= c.providers.len(),
        0 <= at < providers_issues(c.providers, c.pricing, n).len(),
    ensures
        has_a_cause(c, providers_issues(c.providers, c.pricing, n)[at]),
    decreases n,
{
    let ps = c.providers;
    let before = providers_issues(ps, c.pricing, (n - 1) as nat);
    let path = provider_path((n - 1) as nat);
    let own = own_issues(ps[n - 1], path);
    let x = providers_issues(ps, c.pricing, n)[at];
    if at < before.len() {
        lemma_provider_cause(c, (n - 1) as nat, at);
    } else if at < before.len() + own.len() {
        assert(x == own[at - before.len()]);
        assert(is_own_fault(ps, x, n - 1));
    } else {
        let k = at - before.len() - own.len();
        assert(x == models_issues(ps[n - 1], path, c.pricing, ps[n - 1].models.len())[k]);
        lemma_model_cause(c, n - 1, ps[n - 1].models.len(), k);
    }
}

proof fn lemma_duplicate_cause(table: Seq<(Seq<char>, Seq<Seq<char>>)>, n: nat, at: int) -> (k: int)
    requires
        n <= table.len(),
        0 <= at < duplicate_issues(table, n).len(),
    ensures
        0 <= k < n,
        table[k].1.len() > 1,
        duplicate_issues(table, n)[at].code == "duplicate_model_alias"@,
        duplicate_issues(table, n)[at].path == "providers.models."@ + table[k].0,
    decreases n,
{
    let before = duplicate_issues(table, (n - 1) as nat);
    if at < before.len() {
        lemma_duplicate_cause(table, (n - 1) as nat, at)
    } else {
        n - 1
    }
}

/// Nothing is raised without a cause.
pub proof fn law_each_issue_has_a_cause(c: config::ConfigView, at: int)
    requires
        0 <= at < all_issues(c).len(),
    ensures
        has_a_cause(c, all_issues(c)[at]),
{
    let ps = c.providers;
    let table = owner_table(ps, ps.len());
    let own = providers_issues(ps, c.pricing, ps.len());
    let x = all_issues(c)[at];
    if at < own.len() {
        assert(x == own[at]);
        lemma_provider_cause(c, ps.len(), at);
    } else {
        assert(x == duplicate_issues(table, table.len())[at - own.len()]);
        let k = lemma_duplicate_cause(table, table.len(), at - own.len());
        lemma_table_has_aliases(ps, ps.len());
        law_owner_table(ps, ps.len(), table[k].0);
        lemma_looked_up_each(table, k);
        assert(is_duplicate_fault(c, x, table[k].0));
    }
}

/// A provider is asked whether it can be reached, with its key, wherever it has a key and no bad
/// address; one whose key names a variable that is not set is reported as a warning; any other is
/// passed over.
pub proof fn law_providers_are_asked_whether_they_answer(
    p: config::ProviderView,
    index: nat,
    value: Seq<char>,
)
    ensures
        text::blank(p.api_key) ==> reach_plan(p, index, Some(value)) is Skip && reach_plan(
            p,
            index,
            None,
        ) is Skip,
        p.base_url is Some && !text::blank(p.base_url->0) && !weburl::is_url(
            text::trimmed(p.base_url->0),
        ) ==> reach_plan(p, index, Some(value)) is Skip,
        !text::blank(p.api_key) && p.base_url is None ==> {
            let address = Seq::<char>::empty();
            &&& text::begins(p.api_key, "os.environ/"@) ==> (match reach_plan(p, index, None) {
                ReachPlanView::Report(x) => x.severity == "warning"@ && x.code
                    == "unresolved_api_key_env"@ && x.path == "providers["@ + decimal::decimal(index)
                    + "].api_key"@,
                _ => false,
            })
            &&& !text::begins(p.api_key, "os.environ/"@) ==> (match health::probe(
                p.provider_type,
                address,
                p.api_key,
                p.user_agent,
            ) {
                Ok(q) => reach_plan(p, index, Some(value)) == ReachPlanView::Ask(q) && reach_plan(
                    p,
                    index,
                    None,
                ) == ReachPlanView::Ask(q),
                Err(_) => reach_plan(p, index, Some(value)) is Skip,
            })
            &&& text::begins(p.api_key, "os.environ/"@) && value != p.api_key ==> (
            match health::probe(p.provider_type, address, value, p.user_agent) {
                Ok(q) => reach_plan(p, index, Some(value)) == ReachPlanView::Ask(q),
                Err(_) => reach_plan(p, index, Some(value)) is Skip,
            })
        },
        !text::blank(p.api_key) && p.base_url is Some && weburl::is_url(
            text::trimmed(p.base_url->0),
        ) && !text::begins(p.api_key, "os.environ/"@) ==> (match health::probe(
            p.provider_type,
            p.base_url->0,
            p.api_key,
            p.user_agent,
        ) {
            Ok(q) => reach_plan(p, index, None) == ReachPlanView::Ask(q),
            Err(_) => reach_plan(p, index, None) is Skip,
        }),
{
    reveal_strlit("]");
    reveal_strlit(".api_key");
    reveal_strlit("].api_key");
    let path = "providers["@ + decimal::decimal(index);
    assert("]"@ + ".api_key"@ =~= "].api_key"@);
    assert(path + "]"@ + ".api_key"@ =~= path + ("]"@ + ".api_key"@));
}

/// A success is not worth saying; any other status is, as a warning.
pub proof fn law_only_failures_are_reported(
    p: config::ProviderView,
    index: nat,
    status: u16,
    words: Seq<char>,
)
    ensures
        200 <= status < 300 ==> reach_outcome(p, index, status, words) is None,
        !(200 <= status < 300) ==> (match reach_outcome(p, index, status, words) {
            Some(x) => x.severity == "warning"@ && x.code == "provider_unreachable"@ && x.path
                == provider_path(index) + ".base_url"@ && text::ends(x.message, words),
            None => false,
        }),
{
    if !(200 <= status < 300) {
        let m = secrets::display_name(p) + " 可达性检查返回 HTTP "@ + words;
        assert(m.skip(m.len() - words.len()) =~= words);
    }
}

} // verus!
