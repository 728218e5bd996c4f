//! Settings: which backend answers, where the backends live, and which
//! model plans.

use vstd::prelude::*;

verus! {

/// A model backend.
#[derive(Debug, Clone, Copy, PartialEq, Eq, Structural)]
pub enum Backend {
    Ollama,
    Nim,
}

/// Where the local Ollama server is, and its default model.
#[derive(Debug, Clone)]
pub struct OllamaConfig {
    pub base_url: String,
    pub default_model: String,
}

/// Where the NIM service is, its key, and its default model.
#[derive(Debug, Clone)]
pub struct NimConfig {
    pub base_url: String,
    pub api_key: String,
    pub default_model: String,
}

/// Interface switches.
#[derive(Debug, Clone)]
pub struct UiConfig {
    pub show_file_tree: bool,
    pub syntax_highlight: bool,
    pub mouse_enabled: bool,
}

/// The backend and model for the lightweight planning step.
#[derive(Debug, Clone)]
pub struct PlannerConfig {
    /// Backend used for planning.
    pub backend: Backend,
    /// A small, fast model.
    pub model: String,
    /// The most tool calls the planner may schedule per batch.
    pub max_tools_per_batch: usize,
}

/// All settings.
#[derive(Debug, Clone)]
pub struct Config {
    pub default_backend: Backend,
    pub ollama: OllamaConfig,
    pub nim: NimConfig,
    pub ui: UiConfig,
    pub planner: PlannerConfig,
}

/// What a client needs to reach a model: the backend, where it lives, the
/// model, and the NIM key.
#[derive(Debug, Clone)]
pub struct BackendTarget {
    pub backend: Backend,
    pub base_url: String,
    pub model: String,
    pub api_key: String,
}

impl Config {
    /// The settings written on first run.
    pub open spec fn is_default(&self) -> bool {
        &&& self.default_backend == Backend::Ollama
        &&& self.ollama.base_url@ == "http://localhost:11434"@
        &&& self.ollama.default_model@ == "llama3.2"@
        &&& self.nim.base_url@ == "https://integrate.api.nvidia.com/v1"@
        &&& self.nim.api_key@ == Seq::<char>::empty()
        &&& self.nim.default_model@ == "meta/llama-3.1-70b-instruct"@
        &&& self.ui.show_file_tree
        &&& self.ui.syntax_highlight
        &&& self.ui.mouse_enabled
        &&& self.planner.backend == Backend::Ollama
        &&& self.planner.model@ == "qwen2.5:1.5b"@
        &&& self.planner.max_tools_per_batch == 5
    }

    /// The model that answers: the default model of the default backend.
    pub fn active_model(&self) -> (r: &str)
        ensures
            r@ == (match self.default_backend {
                Backend::Ollama => self.ollama.default_model@,
                Backend::Nim => self.nim.default_model@,
            }),
    {
        match self.default_backend {
            Backend::Ollama => self.ollama.default_model.as_str(),
            Backend::Nim => self.nim.default_model.as_str(),
        }
    }

    /// The base URL of the planner's backend.
    pub fn planner_backend_url(&self) -> (r: &str)
        ensures
            r@ == (match self.planner.backend {
                Backend::Ollama => self.ollama.base_url@,
                Backend::Nim => self.nim.base_url@,
            }),
    {
        match self.planner.backend {
            Backend::Ollama => self.ollama.base_url.as_str(),
            Backend::Nim => self.nim.base_url.as_str(),
        }
    }

    /// The backend that answers, with its base URL and default model.
    pub fn reasoner_target(&self) -> (r: BackendTarget)
        ensures
            r.backend == self.default_backend,
            r.base_url@ == (match self.default_backend {
                Backend::Ollama => self.ollama.base_url@,
                Backend::Nim => self.nim.base_url@,
            }),
            r.model@ == (match self.default_backend {
                Backend::Ollama => self.ollama.default_model@,
                Backend::Nim => self.nim.default_model@,
            }),
            r.api_key@ == self.nim.api_key@,
    {
        let base_url = match self.default_backend {
            Backend::Ollama => self.ollama.base_url.clone(),
            Backend::Nim => self.nim.base_url.clone(),
        };
        BackendTarget {
            backend: self.default_backend,
            base_url,
            model: self.active_model().to_string(),
            api_key: self.nim.api_key.clone(),
        }
    }

    /// The planner's backend, with its base URL and the planner model.
    pub fn planner_target(&self) -> (r: BackendTarget)
        ensures
            r.backend == self.planner.backend,
            r.base_url@ == (match self.planner.backend {
                Backend::Ollama => self.ollama.base_url@,
                Backend::Nim => self.nim.base_url@,
            }),
            r.model@ == self.planner.model@,
            r.api_key@ == self.nim.api_key@,
    {
        BackendTarget {
            backend: self.planner.backend,
            base_url: self.planner_backend_url().to_string(),
            model: self.planner.model.clone(),
            api_key: self.nim.api_key.clone(),
        }
    }

    /// The NIM key taken from the environment when the settings give none.
    pub fn fall_back_to_api_key(&mut self, env_key: Option<String>)
        ensures
            *final(self) == (match env_key {
                Some(k) => if old(self).nim.api_key@.len() == 0 {
                    Config { nim: NimConfig { api_key: k, ..old(self).nim }, ..*old(self) }
                } else {
                    *old(self)
                },
                None => *old(self),
            }),
    {
        if let Some(k) = env_key {
            if self.nim.api_key.as_str().is_empty() {
                self.nim.api_key = k;
            }
        }
    }

    /// The default settings with the Ollama model replaced by `model` where
    /// one is given.
    pub fn with_recovered_model(model: Option<String>) -> (r: Config)
        ensures
            r.default_backend == Backend::Ollama,
            r.ollama.base_url@ == "http://localhost:11434"@,
            r.ollama.default_model@ == (match model {
                Some(m) => m@,
                None => "llama3.2"@,
            }),
            r.nim.base_url@ == "https://integrate.api.nvidia.com/v1"@,
            r.nim.api_key@ == Seq::<char>::empty(),
            r.nim.default_model@ == "meta/llama-3.1-70b-instruct"@,
            r.ui.show_file_tree && r.ui.syntax_highlight && r.ui.mouse_enabled,
            r.planner.backend == Backend::Ollama,
            r.planner.model@ == "qwen2.5:1.5b"@,
            r.planner.max_tools_per_batch == 5,
    {
        let mut c = Config::default();
        if let Some(m) = model {
            c.ollama.default_model = m;
        }
        c
    }

    /// What an older settings file that no longer reads in full still says:
    /// the default settings with the Ollama model taken from the text's
    /// `ollama.default_model`, where that is a string.
    pub fn recovered(contents: &str) -> (r: Config)
        ensures
            r.default_backend == Backend::Ollama,
            r.ollama.base_url@ == "http://localhost:11434"@,
            r.ollama.default_model@ == (match toml_text_at(contents@, "ollama"@, "default_model"@) {
                Some(m) => m,
                None => "llama3.2"@,
            }),
            r.nim.base_url@ == "https://integrate.api.nvidia.com/v1"@,
            r.nim.api_key@ == Seq::<char>::empty(),
            r.nim.default_model@ == "meta/llama-3.1-70b-instruct"@,
            r.ui.show_file_tree && r.ui.syntax_highlight && r.ui.mouse_enabled,
            r.planner.backend == Backend::Ollama,
            r.planner.model@ == "qwen2.5:1.5b"@,
            r.planner.max_tools_per_batch == 5,
    {
        let model = toml_string_at(contents, "ollama", "default_model");
        Config::with_recovered_model(model)
    }
}

impl Default for Config {
    fn default() -> (r: Self)
        ensures
            r.is_default(),
    {
        Config {
            default_backend: Backend::Ollama,
            ollama: OllamaConfig {
                base_url: "http://localhost:11434".to_owned(),
                default_model: "llama3.2".to_owned(),
            },
            nim: NimConfig {
                base_url: "https://integrate.api.nvidia.com/v1".to_owned(),
                api_key: String::new(),
                default_model: "meta/llama-3.1-70b-instruct".to_owned(),
            },
            ui: UiConfig { show_file_tree: true, syntax_highlight: true, mouse_enabled: true },
            planner: PlannerConfig {
                backend: Backend::Ollama,
                model: "qwen2.5:1.5b".to_owned(),
                max_tools_per_batch: 5,
            },
        }
    }
}

// ── TOML documents ───────────────────────────────────────────────────────────

/// The string that a TOML text holds under `key` in the table `table`, if
/// the text parses and that value is a string. It depends on the text and
/// the two names alone.
pub uninterp spec fn toml_text_at(contents: Seq<char>, table: Seq<char>, key: Seq<char>) -> Option<Seq<char>>;

/// Reads one string of a TOML text with the toml crate:
/// `toml::from_str::<toml::Value>`, then `Value::get` on the table and on the
/// key, then `Value::as_str`. The claim is only that the result is
/// `toml_text_at` of the three arguments; which texts hold which strings is
/// left to the toml crate.
#[verifier::external_body]
fn toml_string_at(contents: &str, table: &str, key: &str) -> (r: Option<String>)
    ensures
        match r {
            Some(s) => toml_text_at(contents@, table@, key@) == Some(s@),
            None => toml_text_at(contents@, table@, key@) is None,
        },
{
    let doc = toml::from_str::<toml::Value>(contents).ok()?;
    let s = doc.get(table)?.get(key)?.as_str()?;
    Some(s.to_owned())
}

} // verus!
