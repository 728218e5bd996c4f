use ocode::config::{Backend, Config};

#[test]
fn default_config() {
    let c = Config::default();
    assert_eq!(c.default_backend, Backend::Ollama);
    assert_eq!(c.ollama.base_url, "http://localhost:11434");
    assert_eq!(c.ollama.default_model, "llama3.2");
    assert_eq!(c.nim.base_url, "https://integrate.api.nvidia.com/v1");
    assert_eq!(c.nim.api_key, "");
    assert_eq!(c.nim.default_model, "meta/llama-3.1-70b-instruct");
    assert!(c.ui.show_file_tree && c.ui.syntax_highlight && c.ui.mouse_enabled);
    assert_eq!(c.planner.backend, Backend::Ollama);
    assert_eq!(c.planner.model, "qwen2.5:1.5b");
    assert_eq!(c.planner.max_tools_per_batch, 5);
}

#[test]
fn active_model_follows_backend() {
    let mut c = Config::default();
    assert_eq!(c.active_model(), "llama3.2");
    c.default_backend = Backend::Nim;
    assert_eq!(c.active_model(), "meta/llama-3.1-70b-instruct");
}

#[test]
fn planner_url_follows_planner_backend() {
    let mut c = Config::default();
    c.default_backend = Backend::Nim;
    assert_eq!(c.planner_backend_url(), "http://localhost:11434");
    c.planner.backend = Backend::Nim;
    assert_eq!(c.planner_backend_url(), "https://integrate.api.nvidia.com/v1");
}

#[test]
fn recovered_keeps_the_ollama_model() {
    let text = "default_backend = \"nim\"\n[ollama]\nbase_url = \"http://elsewhere\"\ndefault_model = \"mistral\"\n";
    let c = Config::recovered(text);
    assert_eq!(c.ollama.default_model, "mistral");
    assert_eq!(c.default_backend, Backend::Ollama);
    assert_eq!(c.ollama.base_url, "http://localhost:11434");
}

#[test]
fn recovered_falls_back_to_defaults() {
    assert_eq!(Config::recovered("this is not toml [").ollama.default_model, "llama3.2");
    assert_eq!(Config::recovered("[ollama]\ndefault_model = 3\n").ollama.default_model, "llama3.2");
    assert_eq!(Config::recovered("[nim]\ndefault_model = \"x\"\n").ollama.default_model, "llama3.2");
    assert_eq!(Config::recovered("").planner.model, "qwen2.5:1.5b");
}

#[test]
fn with_recovered_model_replaces_only_the_model() {
    let c = Config::with_recovered_model(Some("phi3".to_string()));
    assert_eq!(c.ollama.default_model, "phi3");
    assert_eq!(c.nim.default_model, "meta/llama-3.1-70b-instruct");
    assert_eq!(Config::with_recovered_model(None).ollama.default_model, "llama3.2");
}

#[test]
fn api_key_falls_back_to_the_environment() {
    let mut c = Config::default();
    c.fall_back_to_api_key(Some("env-key".to_string()));
    assert_eq!(c.nim.api_key, "env-key");
    c.fall_back_to_api_key(Some("other".to_string()));
    assert_eq!(c.nim.api_key, "env-key");
    let mut d = Config::default();
    d.fall_back_to_api_key(None);
    assert_eq!(d.nim.api_key, "");
    assert_eq!(d.ollama.default_model, "llama3.2");
}

#[test]
fn targets_name_backend_url_model_and_key() {
    let mut c = Config::default();
    c.nim.api_key = "k".to_string();
    let r = c.reasoner_target();
    assert_eq!(r.backend, Backend::Ollama);
    assert_eq!(r.base_url, "http://localhost:11434");
    assert_eq!(r.model, "llama3.2");
    assert_eq!(r.api_key, "k");
    let p = c.planner_target();
    assert_eq!(p.backend, Backend::Ollama);
    assert_eq!(p.base_url, "http://localhost:11434");
    assert_eq!(p.model, "qwen2.5:1.5b");
    c.default_backend = Backend::Nim;
    c.planner.backend = Backend::Nim;
    let r = c.reasoner_target();
    assert_eq!(r.backend, Backend::Nim);
    assert_eq!(r.base_url, "https://integrate.api.nvidia.com/v1");
    assert_eq!(r.model, "meta/llama-3.1-70b-instruct");
    assert_eq!(r.api_key, "k");
    let p = c.planner_target();
    assert_eq!(p.base_url, "https://integrate.api.nvidia.com/v1");
    assert_eq!(p.model, "qwen2.5:1.5b");
}
