//! Application settings, their defaults, and the providers they select.

use vstd::prelude::*;

use crate::agent::{default_profiles, default_profile_prompt, tasks_profile_prompt, AgentProfile};
use crate::embedder::{fastembed_model_dim, model_dim};
use crate::json::{json_get, json_str, parse_json, serde_json_parse, JsonValue, JsonView};
use crate::text::{chars_of, str_eq, string_from, string_of, to_ascii_lower, to_ascii_lower_exec};

verus! {

/// How chat questions reach the agents.
#[derive(Debug, Clone, Copy, PartialEq, Eq, Structural)]
pub enum AgentOrchestrationMode {
    Single,
    Pipeline,
    Router,
}

impl Default for AgentOrchestrationMode {
    fn default() -> (r: Self)
        ensures
            r == AgentOrchestrationMode::Single,
    {
        AgentOrchestrationMode::Single
    }
}

/// Where embeddings come from.
#[derive(Debug, Clone, Copy, PartialEq, Eq, Structural)]
pub enum EmbedderProvider {
    Mock,
    Ollama,
    FastEmbed,
    Cloud,
}

/// Where chat answers come from.
#[derive(Debug, Clone, Copy, PartialEq, Eq, Structural)]
pub enum ChatProvider {
    Mock,
    Ollama,
    Cloud,
}

#[derive(Debug, Clone, PartialEq)]
pub struct EmbeddingConfig {
    pub embedder: EmbedderProvider,
    pub mock_embed_dim: usize,
    pub ollama_base_url: String,
    pub ollama_embed_model: String,
    pub ollama_embed_dim: usize,
    pub fastembed_model: String,
    pub fastembed_dim: usize,
    pub cloud_base_url: String,
    /// Held in the OS keychain, never in the settings file.
    pub cloud_api_key: String,
    pub cloud_embed_model: String,
    pub cloud_embed_dim: usize,
}

impl Default for EmbeddingConfig {
    fn default() -> (r: Self)
        ensures
            r.embedder == EmbedderProvider::FastEmbed,
            r.mock_embed_dim == 4,
            r.ollama_base_url@ == "http://127.0.0.1:11434"@,
            r.ollama_embed_model@ == "nomic-embed-text"@,
            r.ollama_embed_dim == 768,
            r.fastembed_model@ == "bge-small-zh-v1.5"@,
            r.fastembed_dim == 512,
            r.cloud_base_url@ == "https://api.openai.com/v1"@,
            r.cloud_api_key@ == Seq::<char>::empty(),
            r.cloud_embed_model@ == "text-embedding-3-small"@,
            r.cloud_embed_dim == 1536,
    {
        EmbeddingConfig {
            embedder: EmbedderProvider::FastEmbed,
            mock_embed_dim: 4,
            ollama_base_url: string_from("http://127.0.0.1:11434"),
            ollama_embed_model: string_from("nomic-embed-text"),
            ollama_embed_dim: 768,
            fastembed_model: string_from("bge-small-zh-v1.5"),
            fastembed_dim: 512,
            cloud_base_url: string_from("https://api.openai.com/v1"),
            cloud_api_key: String::new(),
            cloud_embed_model: string_from("text-embedding-3-small"),
            cloud_embed_dim: 1536,
        }
    }
}

#[derive(Debug, Clone, PartialEq)]
pub struct ChatConfig {
    pub chat: ChatProvider,
    pub ollama_chat_model: String,
    pub cloud_chat_model: String,
}

impl Default for ChatConfig {
    fn default() -> (r: Self)
        ensures
            r.chat == ChatProvider::Mock,
            r.ollama_chat_model@ == "llama3.2"@,
            r.cloud_chat_model@ == "gpt-4o-mini"@,
    {
        ChatConfig {
            chat: ChatProvider::Mock,
            ollama_chat_model: string_from("llama3.2"),
            cloud_chat_model: string_from("gpt-4o-mini"),
        }
    }
}

#[derive(Debug, Clone, PartialEq)]
pub struct LarkConfig {
    pub lark_cli_bin: String,
    /// `user`, `bot` or `auto`.
    pub lark_identity: String,
}

impl Default for LarkConfig {
    fn default() -> (r: Self)
        ensures
            r.lark_cli_bin@ == "lark-cli"@,
            r.lark_identity@ == "user"@,
    {
        LarkConfig { lark_cli_bin: string_from("lark-cli"), lark_identity: string_from("user") }
    }
}

#[derive(Debug, Clone, PartialEq)]
pub struct SyncConfig {
    pub watch_folders: Vec<String>,
    pub cursor_projects_root: String,
    pub auto_summarize_on_index: bool,
    pub auto_extract_tasks_on_index: bool,
    pub scheduled_sync_enabled: bool,
    pub scheduled_sync_interval_minutes: u32,
    pub scheduled_sync_watch_folders: bool,
    pub scheduled_sync_lark: bool,
    pub scheduled_sync_cursor: bool,
}

impl Default for SyncConfig {
    fn default() -> (r: Self)
        ensures
            r.watch_folders@.len() == 0,
            r.cursor_projects_root@ == Seq::<char>::empty(),
            !r.auto_summarize_on_index,
            !r.auto_extract_tasks_on_index,
            !r.scheduled_sync_enabled,
            r.scheduled_sync_interval_minutes == 60,
            r.scheduled_sync_watch_folders,
            !r.scheduled_sync_lark,
            r.scheduled_sync_cursor,
    {
        SyncConfig {
            watch_folders: Vec::new(),
            cursor_projects_root: String::new(),
            auto_summarize_on_index: false,
            auto_extract_tasks_on_index: false,
            scheduled_sync_enabled: false,
            scheduled_sync_interval_minutes: 60,
            scheduled_sync_watch_folders: true,
            scheduled_sync_lark: false,
            scheduled_sync_cursor: true,
        }
    }
}

#[derive(Debug, Clone, PartialEq)]
pub struct AgentConfig {
    pub auto_learn_from_chat: bool,
    pub agents: Vec<AgentProfile>,
    pub active_agent_id: String,
    pub enabled_skill_ids: Vec<String>,
    pub enabled_hook_ids: Vec<String>,
    pub enabled_plugin_ids: Vec<String>,
    pub agent_orchestration_mode: AgentOrchestrationMode,
    pub pipeline_agent_ids: Vec<String>,
    pub granted_plugin_permissions: Vec<String>,
}

impl Default for AgentConfig {
    fn default() -> (r: Self)
        ensures
            !r.auto_learn_from_chat,
            r.agents@.len() == 2,
            r.agents@[0].id@ == "default"@ && r.agents@[0].system_prompt@ == default_profile_prompt(),
            r.agents@[1].id@ == "tasks"@ && r.agents@[1].system_prompt@ == tasks_profile_prompt(),
            r.active_agent_id@ == "default"@,
            r.enabled_skill_ids@.len() == 0,
            r.enabled_hook_ids@.len() == 0,
            r.enabled_plugin_ids@.len() == 0,
            r.agent_orchestration_mode == AgentOrchestrationMode::Single,
            r.pipeline_agent_ids@.len() == 0,
            r.granted_plugin_permissions@.len() == 1,
            r.granted_plugin_permissions@[0]@ == "shell_exec"@,
    {
        let mut granted: Vec<String> = Vec::new();
        granted.push(string_from("shell_exec"));
        AgentConfig {
            auto_learn_from_chat: false,
            agents: default_profiles(),
            active_agent_id: string_from("default"),
            enabled_skill_ids: Vec::new(),
            enabled_hook_ids: Vec::new(),
            enabled_plugin_ids: Vec::new(),
            agent_orchestration_mode: AgentOrchestrationMode::Single,
            pipeline_agent_ids: Vec::new(),
            granted_plugin_permissions: granted,
        }
    }
}

#[derive(Debug, Clone, Copy, PartialEq, Eq, Structural)]
pub struct WikiConfig {
    pub enabled: bool,
    pub auto_on_insights: bool,
}

impl Default for WikiConfig {
    fn default() -> (r: Self)
        ensures
            !r.enabled,
            !r.auto_on_insights,
    {
        WikiConfig { enabled: false, auto_on_insights: false }
    }
}

/// All settings.
#[derive(Debug, Clone, PartialEq)]
pub struct AppConfig {
    pub embedding: EmbeddingConfig,
    pub chat_cfg: ChatConfig,
    pub lark: LarkConfig,
    pub sync: SyncConfig,
    pub agent_cfg: AgentConfig,
    pub wiki: WikiConfig,
    /// Where the FastEmbed model cache lives; set at start-up, never saved.
    pub fastembed_cache_dir: Option<String>,
}

impl Default for AppConfig {
    fn default() -> (r: Self)
        ensures
            r.embedding.embedder == EmbedderProvider::FastEmbed,
            r.embedding.fastembed_model@ == "bge-small-zh-v1.5"@,
            r.embedding.fastembed_dim == 512,
            r.chat_cfg.chat == ChatProvider::Mock,
            r.lark.lark_cli_bin@ == "lark-cli"@,
            r.sync.watch_folders@.len() == 0,
            r.agent_cfg.active_agent_id@ == "default"@,
            !r.wiki.enabled && !r.wiki.auto_on_insights,
            r.fastembed_cache_dir is None,
    {
        AppConfig {
            embedding: EmbeddingConfig::default(),
            chat_cfg: ChatConfig::default(),
            lark: LarkConfig::default(),
            sync: SyncConfig::default(),
            agent_cfg: AgentConfig::default(),
            wiki: WikiConfig::default(),
            fastembed_cache_dir: None,
        }
    }
}

/// The vector size the configured embedder gives: the FastEmbed table's size
/// for a known model, else the configured one.
pub open spec fn configured_dim(c: AppConfig) -> usize {
    match c.embedding.embedder {
        EmbedderProvider::Mock => c.embedding.mock_embed_dim,
        EmbedderProvider::Ollama => c.embedding.ollama_embed_dim,
        EmbedderProvider::FastEmbed => match model_dim(c.embedding.fastembed_model@) {
            Some(d) => d,
            None => c.embedding.fastembed_dim,
        },
        EmbedderProvider::Cloud => c.embedding.cloud_embed_dim,
    }
}

impl AppConfig {
    pub fn embedding_dim(&self) -> (r: usize)
        ensures
            r == configured_dim(*self),
    {
        match self.embedding.embedder {
            EmbedderProvider::Mock => self.embedding.mock_embed_dim,
            EmbedderProvider::Ollama => self.embedding.ollama_embed_dim,
            EmbedderProvider::FastEmbed => match fastembed_model_dim(self.embedding.fastembed_model.as_str()) {
                Some(d) => d,
                None => self.embedding.fastembed_dim,
            },
            EmbedderProvider::Cloud => self.embedding.cloud_embed_dim,
        }
    }
}

/// The chat provider a name selects (any case).
pub open spec fn chat_provider_named(name: Seq<char>) -> Option<ChatProvider> {
    let n = to_ascii_lower(name);
    if n == "mock"@ {
        Some(ChatProvider::Mock)
    } else if n == "ollama"@ {
        Some(ChatProvider::Ollama)
    } else if n == "cloud"@ {
        Some(ChatProvider::Cloud)
    } else {
        None
    }
}

pub fn parse_chat_provider(name: &str) -> (r: Option<ChatProvider>)
    ensures
        r == chat_provider_named(name@),
{
    let n = string_of(&to_ascii_lower_exec(&chars_of(name)));
    if str_eq(n.as_str(), "mock") {
        Some(ChatProvider::Mock)
    } else if str_eq(n.as_str(), "ollama") {
        Some(ChatProvider::Ollama)
    } else if str_eq(n.as_str(), "cloud") {
        Some(ChatProvider::Cloud)
    } else {
        None
    }
}

/// The chat model to build, with what it is built from.
#[derive(Debug, Clone, PartialEq, Eq)]
pub enum ChatModelSpec {
    Mock,
    Ollama { base_url: String, model: String },
    Cloud { base_url: String, api_key: String, model: String },
}

/// The chat model a provider stands for, with the settings it uses.
pub open spec fn chat_spec_ok(r: ChatModelSpec, c: AppConfig, p: ChatProvider) -> bool {
    match p {
        ChatProvider::Mock => r == ChatModelSpec::Mock,
        ChatProvider::Ollama => r matches ChatModelSpec::Ollama { base_url, model } && base_url@
            == c.embedding.ollama_base_url@ && model@ == c.chat_cfg.ollama_chat_model@,
        ChatProvider::Cloud => r matches ChatModelSpec::Cloud { base_url, api_key, model } && base_url@
            == c.embedding.cloud_base_url@ && api_key@ == c.embedding.cloud_api_key@ && model@
            == c.chat_cfg.cloud_chat_model@,
    }
}

pub fn build_chat_model_with_provider(config: &AppConfig, provider: ChatProvider) -> (r: ChatModelSpec)
    ensures
        chat_spec_ok(r, *config, provider),
{
    match provider {
        ChatProvider::Mock => ChatModelSpec::Mock,
        ChatProvider::Ollama => ChatModelSpec::Ollama {
            base_url: config.embedding.ollama_base_url.clone(),
            model: config.chat_cfg.ollama_chat_model.clone(),
        },
        ChatProvider::Cloud => ChatModelSpec::Cloud {
            base_url: config.embedding.cloud_base_url.clone(),
            api_key: config.embedding.cloud_api_key.clone(),
            model: config.chat_cfg.cloud_chat_model.clone(),
        },
    }
}

/// The configured chat model.
pub fn build_chat_model(config: &AppConfig) -> (r: ChatModelSpec)
    ensures
        chat_spec_ok(r, *config, config.chat_cfg.chat),
{
    build_chat_model_with_provider(config, config.chat_cfg.chat)
}

/// The provider of an agent: its own when it names a known one, else the
/// configured one.
pub open spec fn profile_provider(c: AppConfig, p: AgentProfile) -> ChatProvider {
    match p.chat_provider {
        Some(name) => match chat_provider_named(name@) {
            Some(x) => x,
            None => c.chat_cfg.chat,
        },
        None => c.chat_cfg.chat,
    }
}

/// The chat model an agent uses.
pub fn build_chat_model_for_profile(config: &AppConfig, profile: &AgentProfile) -> (r: ChatModelSpec)
    ensures
        chat_spec_ok(r, *config, profile_provider(*config, *profile)),
{
    let provider = match &profile.chat_provider {
        Some(name) => match parse_chat_provider(name.as_str()) {
            Some(p) => p,
            None => config.chat_cfg.chat,
        },
        None => config.chat_cfg.chat,
    };
    build_chat_model_with_provider(config, provider)
}

/// The embedder to build, with what it is built from.
#[derive(Debug, Clone, PartialEq, Eq)]
pub enum EmbedderSpec {
    Mock { dim: usize },
    Ollama { base_url: String, model: String, dim: usize },
    FastEmbed { model: String },
    Cloud { base_url: String, api_key: String, model: String, dim: usize },
}

/// The configured embedder, with the settings it uses.
pub fn build_embedder(config: &AppConfig) -> (r: EmbedderSpec)
    ensures
        match config.embedding.embedder {
            EmbedderProvider::Mock => r == EmbedderSpec::Mock { dim: config.embedding.mock_embed_dim },
            EmbedderProvider::Ollama => r matches EmbedderSpec::Ollama { base_url, model, dim } && base_url@
                == config.embedding.ollama_base_url@ && model@ == config.embedding.ollama_embed_model@ && dim
                == config.embedding.ollama_embed_dim,
            EmbedderProvider::FastEmbed => r matches EmbedderSpec::FastEmbed { model } && model@
                == config.embedding.fastembed_model@,
            EmbedderProvider::Cloud => r matches EmbedderSpec::Cloud { base_url, api_key, model, dim }
                && base_url@ == config.embedding.cloud_base_url@ && api_key@ == config.embedding.cloud_api_key@
                && model@ == config.embedding.cloud_embed_model@ && dim == config.embedding.cloud_embed_dim,
        },
{
    match config.embedding.embedder {
        EmbedderProvider::Mock => EmbedderSpec::Mock { dim: config.embedding.mock_embed_dim },
        EmbedderProvider::Ollama => EmbedderSpec::Ollama {
            base_url: config.embedding.ollama_base_url.clone(),
            model: config.embedding.ollama_embed_model.clone(),
            dim: config.embedding.ollama_embed_dim,
        },
        EmbedderProvider::FastEmbed => EmbedderSpec::FastEmbed { model: config.embedding.fastembed_model.clone() },
        EmbedderProvider::Cloud => EmbedderSpec::Cloud {
            base_url: config.embedding.cloud_base_url.clone(),
            api_key: config.embedding.cloud_api_key.clone(),
            model: config.embedding.cloud_embed_model.clone(),
            dim: config.embedding.cloud_embed_dim,
        },
    }
}

/// A key left in plain text by an older settings file: a non-empty string
/// `cloud_api_key` at the top level.
pub open spec fn legacy_key(v: JsonView) -> Option<Seq<char>> {
    match json_str(json_get(v, "cloud_api_key"@)) {
        Some(k) => if k.len() > 0 {
            Some(k)
        } else {
            None
        },
        None => None,
    }
}

pub fn legacy_api_key(v: &JsonValue) -> (r: Option<String>)
    ensures
        match r {
            Some(k) => legacy_key(v@) == Some(k@),
            None => legacy_key(v@) is None,
        },
{
    match v.get_str("cloud_api_key") {
        Some(k) => if !k.is_empty() {
            Some(string_from(k))
        } else {
            None
        },
        None => None,
    }
}

/// The key an older settings file left in plain text, read from the file's
/// text; none when the text is not JSON.
pub fn legacy_api_key_in(raw: &str) -> (r: Option<String>)
    ensures
        match serde_json_parse(raw@) {
            Ok(v) => match r {
                Some(k) => legacy_key(v) == Some(k@),
                None => legacy_key(v) is None,
            },
            Err(_) => r is None,
        },
{
    match parse_json(raw) {
        Ok(v) => legacy_api_key(&v),
        Err(_) => None,
    }
}

} // verus!
