//! Providers that are offered for a start.
use vstd::prelude::*;

verus! {

/// What a model is charged at, for a million tokens and in units of a hundred-thousandth.
#[derive(Clone, Copy, Debug, PartialEq, Eq, Structural)]
pub struct PresetPricing {
    pub input: u64,
    pub cached_input: u64,
    pub cached_write: u64,
    pub output: u64,
}

/// A model that is offered.
#[derive(Debug)]
pub struct PresetModel {
    pub id: String,
    pub name: String,
    pub pricing: Option<PresetPricing>,
}

/// A provider that is offered.
#[derive(Debug)]
pub struct ProviderPreset {
    pub id: String,
    pub name: String,
    pub provider_type: String,
    pub base_url: String,
    pub api_key_placeholder: String,
    pub user_agent: String,
    pub models: Vec<PresetModel>,
}

/// What a [`PresetModel`] holds.
#[verifier::ext_equal]
pub struct PresetModelView {
    pub id: Seq<char>,
    pub name: Seq<char>,
    pub pricing: Option<PresetPricing>,
}

/// What a [`ProviderPreset`] holds.
#[verifier::ext_equal]
pub struct PresetView {
    pub id: Seq<char>,
    pub name: Seq<char>,
    pub provider_type: Seq<char>,
    pub base_url: Seq<char>,
    pub api_key_placeholder: Seq<char>,
    pub user_agent: Seq<char>,
    pub models: Seq<PresetModelView>,
}

impl View for PresetModel {
    type V = PresetModelView;

    open spec fn view(&self) -> PresetModelView {
        PresetModelView { id: self.id@, name: self.name@, pricing: self.pricing }
    }
}

/// What the models of a list hold.
pub open spec fn preset_models(v: Seq<PresetModel>) -> Seq<PresetModelView> {
    Seq::new(v.len(), |i: int| v[i]@)
}

impl View for ProviderPreset {
    type V = PresetView;

    open spec fn view(&self) -> PresetView {
        PresetView {
            id: self.id@,
            name: self.name@,
            provider_type: self.provider_type@,
            base_url: self.base_url@,
            api_key_placeholder: self.api_key_placeholder@,
            user_agent: self.user_agent@,
            models: preset_models(self.models@),
        }
    }
}

/// What the presets of a list hold.
pub open spec fn presets_of(v: Seq<ProviderPreset>) -> Seq<PresetView> {
    Seq::new(v.len(), |i: int| v[i]@)
}

/// A model under its own name, with its prices.
pub open spec fn priced(
    id: Seq<char>,
    input: u64,
    cached_input: u64,
    cached_write: u64,
    output: u64,
) -> PresetModelView {
    PresetModelView {
        id,
        name: id,
        pricing: Some(PresetPricing { input, cached_input, cached_write, output }),
    }
}

/// A provider with its usual settings.
pub open spec fn offered(
    id: Seq<char>,
    name: Seq<char>,
    provider_type: Seq<char>,
    base_url: Seq<char>,
    api_key_placeholder: Seq<char>,
    models: Seq<PresetModelView>,
) -> PresetView {
    PresetView {
        id,
        name,
        provider_type,
        base_url,
        api_key_placeholder,
        user_agent: "OpenRelay-Gateway/1.0"@,
        models,
    }
}

fn preset_model(id: &str, input: u64, cached_input: u64, cached_write: u64, output: u64) -> (r:
    PresetModel)
    ensures
        r@ == priced(id@, input, cached_input, cached_write, output),
{
    PresetModel {
        id: id.to_owned(),
        name: id.to_owned(),
        pricing: Some(PresetPricing { input, cached_input, cached_write, output }),
    }
}

fn preset(
    id: &str,
    name: &str,
    provider_type: &str,
    base_url: &str,
    api_key_placeholder: &str,
    models: Vec<PresetModel>,
) -> (r: ProviderPreset)
    ensures
        r@ == offered(
            id@,
            name@,
            provider_type@,
            base_url@,
            api_key_placeholder@,
            preset_models(models@),
        ),
{
    ProviderPreset {
        id: id.to_owned(),
        name: name.to_owned(),
        provider_type: provider_type.to_owned(),
        base_url: base_url.to_owned(),
        api_key_placeholder: api_key_placeholder.to_owned(),
        user_agent: "OpenRelay-Gateway/1.0".to_owned(),
        models,
    }
}

/// The preset for OpenAI.
pub open spec fn openai_view() -> PresetView {
    offered(
        "openai"@,
        "OpenAI"@,
        "openai"@,
        "https://api.openai.com/v1"@,
        "os.environ/OPENAI_API_KEY"@,
        seq![
            priced("gpt-4o-mini"@, 15000, 7500, 0, 60000),
            priced("gpt-4o"@, 250000, 125000, 0, 1000000),
            priced("gpt-4.1-mini"@, 40000, 10000, 0, 160000),
        ],
    )
}

fn openai() -> (r: ProviderPreset)
    ensures
        r@ == openai_view(),
{
    let models: Vec<PresetModel> = vec![
        preset_model("gpt-4o-mini", 15000, 7500, 0, 60000),
        preset_model("gpt-4o", 250000, 125000, 0, 1000000),
        preset_model("gpt-4.1-mini", 40000, 10000, 0, 160000),
    ];
    assert(preset_models(models@) =~= openai_view().models);
    preset(
        "openai",
        "OpenAI",
        "openai",
        "https://api.openai.com/v1",
        "os.environ/OPENAI_API_KEY",
        models,
    )
}

/// The preset for Google Gemini.
pub open spec fn gemini_view() -> PresetView {
    offered(
        "gemini"@,
        "Google Gemini"@,
        "gemini"@,
        "https://generativelanguage.googleapis.com/v1beta"@,
        "os.environ/GEMINI_API_KEY"@,
        seq![
            priced("gemini-2.5-flash"@, 30000, 7500, 0, 250000),
            priced("gemini-2.5-pro"@, 125000, 31000, 0, 1000000),
            priced("gemini-1.5-flash"@, 7500, 1875, 0, 30000),
        ],
    )
}

fn gemini() -> (r: ProviderPreset)
    ensures
        r@ == gemini_view(),
{
    let models: Vec<PresetModel> = vec![
        preset_model("gemini-2.5-flash", 30000, 7500, 0, 250000),
        preset_model("gemini-2.5-pro", 125000, 31000, 0, 1000000),
        preset_model("gemini-1.5-flash", 7500, 1875, 0, 30000),
    ];
    assert(preset_models(models@) =~= gemini_view().models);
    preset(
        "gemini",
        "Google Gemini",
        "gemini",
        "https://generativelanguage.googleapis.com/v1beta",
        "os.environ/GEMINI_API_KEY",
        models,
    )
}

/// The preset for Anthropic, without models.
pub open spec fn anthropic_view() -> PresetView {
    offered(
        "anthropic"@,
        "Anthropic"@,
        "anthropic"@,
        "https://api.anthropic.com/v1"@,
        "os.environ/ANTHROPIC_API_KEY"@,
        Seq::empty(),
    )
}

fn anthropic() -> (r: ProviderPreset)
    ensures
        r@ == anthropic_view(),
{
    let models: Vec<PresetModel> = Vec::new();
    assert(preset_models(models@) =~= anthropic_view().models);
    preset(
        "anthropic",
        "Anthropic",
        "anthropic",
        "https://api.anthropic.com/v1",
        "os.environ/ANTHROPIC_API_KEY",
        models,
    )
}

/// The preset for DeepSeek.
pub open spec fn deepseek_view() -> PresetView {
    offered(
        "deepseek"@,
        "DeepSeek"@,
        "openai-custom"@,
        "https://api.deepseek.com/v1"@,
        "os.environ/DEEPSEEK_API_KEY"@,
        seq![
            priced("deepseek-chat"@, 14000, 2800, 0, 28000),
            priced("deepseek-reasoner"@, 14000, 2800, 0, 28000),
            priced("deepseek-v4-pro"@, 174000, 14500, 0, 348000),
        ],
    )
}

fn deepseek() -> (r: ProviderPreset)
    ensures
        r@ == deepseek_view(),
{
    let models: Vec<PresetModel> = vec![
        preset_model("deepseek-chat", 14000, 2800, 0, 28000),
        preset_model("deepseek-reasoner", 14000, 2800, 0, 28000),
        preset_model("deepseek-v4-pro", 174000, 14500, 0, 348000),
    ];
    assert(preset_models(models@) =~= deepseek_view().models);
    preset(
        "deepseek",
        "DeepSeek",
        "openai-custom",
        "https://api.deepseek.com/v1",
        "os.environ/DEEPSEEK_API_KEY",
        models,
    )
}

/// The preset for OpenRouter.
pub open spec fn openrouter_view() -> PresetView {
    offered(
        "openrouter"@,
        "OpenRouter"@,
        "openai-custom"@,
        "https://openrouter.ai/api/v1"@,
        "os.environ/OPENROUTER_API_KEY"@,
        seq![
            priced("deepseek/deepseek-v3.2"@, 28000, 28000, 28000, 40000),
            priced("google/gemini-3-flash-preview"@, 30000, 7500, 0, 250000),
        ],
    )
}

fn openrouter() -> (r: ProviderPreset)
    ensures
        r@ == openrouter_view(),
{
    let models: Vec<PresetModel> = vec![
        preset_model("deepseek/deepseek-v3.2", 28000, 28000, 28000, 40000),
        preset_model("google/gemini-3-flash-preview", 30000, 7500, 0, 250000),
    ];
    assert(preset_models(models@) =~= openrouter_view().models);
    preset(
        "openrouter",
        "OpenRouter",
        "openai-custom",
        "https://openrouter.ai/api/v1",
        "os.environ/OPENROUTER_API_KEY",
        models,
    )
}

/// The preset for SiliconFlow.
pub open spec fn siliconflow_view() -> PresetView {
    offered(
        "siliconflow"@,
        "SiliconFlow"@,
        "openai-custom"@,
        "https://api.siliconflow.com/v1"@,
        "os.environ/SILICONFLOW_API_KEY"@,
        seq![
            priced("Qwen/Qwen3-30B-A3B-Thinking-2507"@, 9000, 9000, 9000, 30000),
            priced("Qwen/Qwen2.5-Coder-32B-Instruct"@, 18000, 18000, 18000, 18000),
            priced("deepseek-ai/DeepSeek-V3.2"@, 50000, 50000, 50000, 200000),
        ],
    )
}

fn siliconflow() -> (r: ProviderPreset)
    ensures
        r@ == siliconflow_view(),
{
    let models: Vec<PresetModel> = vec![
        preset_model("Qwen/Qwen3-30B-A3B-Thinking-2507", 9000, 9000, 9000, 30000),
        preset_model("Qwen/Qwen2.5-Coder-32B-Instruct", 18000, 18000, 18000, 18000),
        preset_model("deepseek-ai/DeepSeek-V3.2", 50000, 50000, 50000, 200000),
    ];
    assert(preset_models(models@) =~= siliconflow_view().models);
    preset(
        "siliconflow",
        "SiliconFlow",
        "openai-custom",
        "https://api.siliconflow.com/v1",
        "os.environ/SILICONFLOW_API_KEY",
        models,
    )
}

/// The preset for SiliconFlow (China).
pub open spec fn siliconflow_cn_view() -> PresetView {
    offered(
        "siliconflow-cn"@,
        "SiliconFlow (China)"@,
        "openai-custom"@,
        "https://api.siliconflow.cn/v1"@,
        "os.environ/SILICONFLOW_CN_API_KEY"@,
        seq![
            priced("Qwen/Qwen3.5-397B-A17B"@, 29000, 29000, 29000, 174000),
            priced("Qwen/Qwen3.5-35B-A3B"@, 23000, 23000, 23000, 186000),
            priced("siliconflow/deepseek-v3.2"@, 14000, 14000, 14000, 28000),
            priced("siliconflow/deepseek-r1-0528"@, 70000, 70000, 70000, 250000),
        ],
    )
}

fn siliconflow_cn() -> (r: ProviderPreset)
    ensures
        r@ == siliconflow_cn_view(),
{
    let models: Vec<PresetModel> = vec![
        preset_model("Qwen/Qwen3.5-397B-A17B", 29000, 29000, 29000, 174000),
        preset_model("Qwen/Qwen3.5-35B-A3B", 23000, 23000, 23000, 186000),
        preset_model("siliconflow/deepseek-v3.2", 14000, 14000, 14000, 28000),
        preset_model("siliconflow/deepseek-r1-0528", 70000, 70000, 70000, 250000),
    ];
    assert(preset_models(models@) =~= siliconflow_cn_view().models);
    preset(
        "siliconflow-cn",
        "SiliconFlow (China)",
        "openai-custom",
        "https://api.siliconflow.cn/v1",
        "os.environ/SILICONFLOW_CN_API_KEY",
        models,
    )
}

/// The preset for Alibaba Cloud Bailian.
pub open spec fn bailian_view() -> PresetView {
    offered(
        "bailian"@,
        "Alibaba Cloud Bailian"@,
        "openai-custom"@,
        "https://dashscope.aliyuncs.com/compatible-mode/v1"@,
        "os.environ/DASHSCOPE_API_KEY"@,
        seq![
            priced("qwen-plus"@, 11000, 11000, 11000, 30000),
            priced("qwen-turbo"@, 5000, 5000, 5000, 20000),
            priced("qwen-max"@, 120000, 120000, 120000, 600000),
            priced("qwq-plus"@, 40000, 40000, 40000, 160000),
        ],
    )
}

fn bailian() -> (r: ProviderPreset)
    ensures
        r@ == bailian_view(),
{
    let models: Vec<PresetModel> = vec![
        preset_model("qwen-plus", 11000, 11000, 11000, 30000),
        preset_model("qwen-turbo", 5000, 5000, 5000, 20000),
        preset_model("qwen-max", 120000, 120000, 120000, 600000),
        preset_model("qwq-plus", 40000, 40000, 40000, 160000),
    ];
    assert(preset_models(models@) =~= bailian_view().models);
    preset(
        "bailian",
        "Alibaba Cloud Bailian",
        "openai-custom",
        "https://dashscope.aliyuncs.com/compatible-mode/v1",
        "os.environ/DASHSCOPE_API_KEY",
        models,
    )
}

/// The presets, in the order in which they are offered.
pub open spec fn all_presets() -> Seq<PresetView> {
    seq![
        openai_view(),
        gemini_view(),
        anthropic_view(),
        deepseek_view(),
        openrouter_view(),
        siliconflow_view(),
        siliconflow_cn_view(),
        bailian_view(),
    ]
}

/// The providers that are offered for a start.
pub fn provider_presets() -> (r: Vec<ProviderPreset>)
    ensures
        presets_of(r@) == all_presets(),
{
    let r: Vec<ProviderPreset> = vec![
        openai(),
        gemini(),
        anthropic(),
        deepseek(),
        openrouter(),
        siliconflow(),
        siliconflow_cn(),
        bailian(),
    ];
    assert(presets_of(r@) =~= all_presets());
    r
}

/// Whether a preset is one that can be used once a key is set: it is reached over a secured
/// connection, its key stands in the environment, it has the gateway's user agent, and its models
/// have prices and are asked for by their own names.
pub open spec fn is_ready(p: PresetView) -> bool {
    &&& crate::text::begins(p.base_url, "https://"@)
    &&& crate::text::begins(p.api_key_placeholder, "os.environ/"@)
    &&& p.user_agent == "OpenRelay-Gateway/1.0"@
    &&& p.provider_type == "openai"@ || p.provider_type == "gemini"@ || p.provider_type
        == "anthropic"@ || p.provider_type == "openai-custom"@
    &&& forall|j: int|
        0 <= j < p.models.len() ==> (#[trigger] p.models[j]).id == p.models[j].name
            && is_sensibly_priced(p.models[j].pricing)
}

/// Whether there are prices, above zero, and what is cached costs no more than what is not.
pub open spec fn is_sensibly_priced(o: Option<PresetPricing>) -> bool {
    o matches Some(p) && 0 < p.input && 0 < p.output && p.cached_input <= p.input && p.cached_write
        <= p.input
}

proof fn lemma_front(s: Seq<char>, p: Seq<char>)
    requires
        p.len() <= s.len(),
        forall|i: int| 0 <= i < p.len() ==> #[trigger] s[i] == p[i],
    ensures
        crate::text::begins(s, p),
{
    assert(s.take(p.len() as int) =~= p);
}

/// Each preset is ready for use once its key is set.
pub proof fn law_presets_are_ready(i: int)
    requires
        0 <= i < all_presets().len(),
    ensures
        is_ready(all_presets()[i]),
{
    reveal_strlit("https://");
    reveal_strlit("os.environ/");
    reveal_strlit("https://api.openai.com/v1");
    reveal_strlit("https://generativelanguage.googleapis.com/v1beta");
    reveal_strlit("https://api.anthropic.com/v1");
    reveal_strlit("https://api.deepseek.com/v1");
    reveal_strlit("https://openrouter.ai/api/v1");
    reveal_strlit("https://api.siliconflow.com/v1");
    reveal_strlit("https://api.siliconflow.cn/v1");
    reveal_strlit("https://dashscope.aliyuncs.com/compatible-mode/v1");
    reveal_strlit("os.environ/OPENAI_API_KEY");
    reveal_strlit("os.environ/GEMINI_API_KEY");
    reveal_strlit("os.environ/ANTHROPIC_API_KEY");
    reveal_strlit("os.environ/DEEPSEEK_API_KEY");
    reveal_strlit("os.environ/OPENROUTER_API_KEY");
    reveal_strlit("os.environ/SILICONFLOW_API_KEY");
    reveal_strlit("os.environ/SILICONFLOW_CN_API_KEY");
    reveal_strlit("os.environ/DASHSCOPE_API_KEY");
    let p = all_presets()[i];
    lemma_front(p.base_url, "https://"@);
    lemma_front(p.api_key_placeholder, "os.environ/"@);
}

/// No two presets have the same identifier.
pub proof fn law_presets_are_told_apart(i: int, j: int)
    requires
        0 <= i < j < all_presets().len(),
    ensures
        all_presets()[i].id != all_presets()[j].id,
{
    reveal_strlit("openai");
    reveal_strlit("gemini");
    reveal_strlit("anthropic");
    reveal_strlit("deepseek");
    reveal_strlit("openrouter");
    reveal_strlit("siliconflow");
    reveal_strlit("siliconflow-cn");
    reveal_strlit("bailian");
    assert("openai"@[0] == 'o' && "gemini"@[0] == 'g' && "anthropic"@[0] == 'a' && "deepseek"@[0]
        == 'd' && "openrouter"@[0] == 'o' && "siliconflow"@[0] == 's' && "siliconflow-cn"@[0] == 's'
        && "bailian"@[0] == 'b');
    assert("openai"@.len() == 6 && "openrouter"@.len() == 10 && "siliconflow"@.len() == 11
        && "siliconflow-cn"@.len() == 14);
}

} // verus!
