use deeplocal::backends::{llama_startup_error_message, llama_status, MockBackend};
use deeplocal::chat::{ChatMessage, ChatRole};
use deeplocal::documents::chunk_document_text;
use deeplocal::downloads::{is_download_history, is_gguf_header, range_header};
use deeplocal::hub_access::{
    huggingface_access_message, request_huggingface_token, sanitize_huggingface_whoami,
    WhoamiFields,
};
use deeplocal::huggingface::{
    apply_huggingface_sizes, FileSize, HuggingFaceFileResult, HuggingFaceModelResult, SizeTable,
};
use deeplocal::keyed::KeyedList;
use deeplocal::model::{LoadOptions, LoadedModelStatus, ModelDescriptor, ModelHandle};
use deeplocal::model_admin::{find_model_by_local_path, register_model_descriptor, RegisterModelError};
use deeplocal::model_ids::{model_id_from_filename, unique_model_id};
use deeplocal::openai::{completion_text, openai_model_data};
use deeplocal::paths::{absolute_path, is_inside_models_root, join_path};
use deeplocal::registry::ModelRegistry;

const CWD: &str = "/work/deeplocal";

#[test]
fn document_chunking_keeps_large_local_documents_in_overlapping_segments() {
    let source = format!(
        "{}{}",
        "A local document sentence. ".repeat(80),
        "Final release detail."
    );
    let chunks = chunk_document_text(&source);
    assert!(chunks.len() > 1);
    assert!(chunks.iter().all(|chunk| !chunk.trim().is_empty()));
    assert!(
        chunks
            .last()
            .expect("last chunk")
            .contains("Final release detail")
    );
}

#[test]
fn history_statuses_are_terminal_download_jobs() {
    assert!(is_download_history("downloaded"));
    assert!(is_download_history("cancelled"));
    assert!(is_download_history("error"));
    assert!(!is_download_history("downloading"));
    assert!(!is_download_history("queued"));
}

#[test]
fn range_header_is_omitted_for_new_downloads() {
    assert_eq!(range_header(0), None);
}

#[test]
fn range_header_resumes_from_existing_bytes() {
    assert_eq!(range_header(42), Some("bytes=42-".to_string()));
}

#[test]
fn gguf_header_is_validated() {
    assert!(is_gguf_header(b"GGUF"));
    assert!(!is_gguf_header(b"HTML"));
}

#[test]
fn model_delete_paths_must_stay_inside_models_root() {
    assert!(is_inside_models_root(
        CWD,
        "./models/example/model.gguf",
        &absolute_path(CWD, "./models")
    ));
    assert!(!is_inside_models_root(
        CWD,
        "../outside/model.gguf",
        &absolute_path(CWD, "./models")
    ));
}

#[test]
fn model_ids_are_derived_from_gguf_filenames() {
    assert_eq!(
        model_id_from_filename("gemma 3 1b.Q4_K_M.gguf"),
        "gemma-3-1b.Q4_K_M"
    );
    assert_eq!(model_id_from_filename("!!!.gguf"), "local-model");
}

#[test]
fn discovered_model_ids_do_not_duplicate_existing_ids() {
    let mut used = vec!["gemma".to_string(), "gemma-2".to_string()];
    assert_eq!(unique_model_id("gemma", &mut used), "gemma-3");
    assert!(used.contains(&"gemma-3".to_string()));
}

#[test]
fn local_model_paths_match_after_normalization() {
    let mut registry = ModelRegistry::new();
    registry.register_model(ModelDescriptor::local_gguf(
        "gemma",
        "./models/gemma/model.gguf",
    ));

    let path = join_path(&absolute_path(CWD, "./models"), "gemma/model.gguf");
    let found = find_model_by_local_path(&registry, &path, CWD);

    assert_eq!(found.expect("registered path").id, "gemma");
}

#[test]
fn registering_duplicate_local_path_is_rejected() {
    let mut registry = ModelRegistry::new();
    registry.register_model(ModelDescriptor::local_gguf(
        "gemma",
        "./models/gemma/model.gguf",
    ));

    let duplicate =
        ModelDescriptor::local_gguf("gemma-copy", "./models/gemma/../gemma/model.gguf");
    let response = register_model_descriptor(&mut registry, duplicate, CWD);

    match response {
        Err(RegisterModelError::FileTaken(id)) => assert_eq!(id, "gemma"),
        _ => panic!("duplicate path should be rejected"),
    }
    assert_eq!(registry.list_models().len(), 1);
}

#[test]
fn openai_models_include_available_and_loaded_models() {
    let available = vec![
        ModelDescriptor::local_gguf("available-model", "available.gguf"),
        ModelDescriptor::local_gguf("loaded-model", "loaded.gguf"),
    ];
    let loaded = vec![ModelHandle {
        id: "loaded-model".to_string(),
        backend: "llama.cpp".to_string(),
        status: LoadedModelStatus::Loaded,
    }];

    let data = openai_model_data(available, loaded);

    assert_eq!(data.len(), 2);
    assert_eq!(data[0].id, "available-model");
    assert_eq!(data[0].status, "available");
    assert!(data[0].created > 0);
    assert_eq!(data[1].id, "loaded-model");
    assert_eq!(data[1].status, "loaded");
    assert_eq!(data[1].backend.as_deref(), Some("llama.cpp"));
}

#[test]
fn openai_models_keep_orphan_loaded_handles_visible() {
    let data = openai_model_data(
        Vec::new(),
        vec![ModelHandle {
            id: "orphan-loaded".to_string(),
            backend: "mock".to_string(),
            status: LoadedModelStatus::Loaded,
        }],
    );

    assert_eq!(data.len(), 1);
    assert_eq!(data[0].id, "orphan-loaded");
    assert_eq!(data[0].created, 0);
    assert_eq!(data[0].status, "loaded");
}

fn size_table(entries: &[(&str, u64)]) -> SizeTable {
    let mut table = KeyedList::new();
    for (path, size) in entries {
        table.insert(FileSize {
            path: path.to_string(),
            size: *size,
        });
    }
    table
}

#[test]
fn huggingface_size_fallback_keeps_sibling_metadata() {
    let mut result = HuggingFaceModelResult {
        repo: "owner/repo".to_string(),
        downloads: None,
        likes: None,
        files: vec![HuggingFaceFileResult {
            filename: "model.gguf".to_string(),
            size_bytes: Some(42),
        }],
    };
    let tree_sizes = size_table(&[("model.gguf", 100)]);

    apply_huggingface_sizes(&mut result, &tree_sizes);

    assert_eq!(result.files[0].size_bytes, Some(42));
}

#[test]
fn huggingface_size_fallback_fills_missing_sizes() {
    let mut result = HuggingFaceModelResult {
        repo: "owner/repo".to_string(),
        downloads: None,
        likes: None,
        files: vec![HuggingFaceFileResult {
            filename: "model.gguf".to_string(),
            size_bytes: None,
        }],
    };
    let tree_sizes = size_table(&[("model.gguf", 100)]);

    apply_huggingface_sizes(&mut result, &tree_sizes);

    assert_eq!(result.files[0].size_bytes, Some(100));
}

#[test]
fn huggingface_access_message_distinguishes_unauthorized() {
    let message = huggingface_access_message(
        reqwest::StatusCode::UNAUTHORIZED.as_u16(),
        "google/gemma-3-1b-it",
    );

    assert!(message.contains("google/gemma-3-1b-it"));
    assert!(message.contains("valid Hugging Face token"));
    assert!(!message.contains("hf_"));
}

#[test]
fn huggingface_access_message_explains_gated_license() {
    let message = huggingface_access_message(
        reqwest::StatusCode::FORBIDDEN.as_u16(),
        "google/gemma-3-1b-it",
    );

    assert!(message.contains("google/gemma-3-1b-it"));
    assert!(message.contains("accept its license"));
    assert!(message.contains("read access"));
    assert!(!message.contains("hf_"));
}

#[test]
fn request_token_can_ignore_environment_fallback() {
    let environment = Some("hf_environment_token".to_string());

    assert_eq!(request_huggingface_token(None, false, environment.clone()), None);
    assert_eq!(
        request_huggingface_token(Some("hf_ui_token".to_string()), false, environment),
        Some("hf_ui_token".to_string())
    );
}

#[test]
fn huggingface_whoami_is_sanitized() {
    let sanitized = sanitize_huggingface_whoami(Some(WhoamiFields {
        name: Some("local-user".to_string()),
        fullname: Some(Some("Local User".to_string())),
        full_name: None,
        account_type: Some("user".to_string()),
    }))
    .expect("whoami should be present");

    assert_eq!(sanitized.name.as_deref(), Some("local-user"));
    assert_eq!(sanitized.display_name.as_deref(), Some("Local User"));
    assert_eq!(sanitized.account_type.as_deref(), Some("user"));
}

#[test]
fn startup_errors_suggest_smaller_context_for_context_failures() {
    let message = llama_startup_error_message("not ready", Some(b"invalid n_ctx value"));
    assert!(message.contains("smaller context"));
}

#[test]
fn startup_errors_suggest_model_path_for_open_failures() {
    let message = llama_startup_error_message("not ready", Some(b"failed to open model"));
    assert!(message.contains("model path"));
}

#[test]
fn startup_errors_suggest_memory_adjustments_for_allocation_failures() {
    let message = llama_startup_error_message("not ready", Some(b"out of memory"));
    assert!(message.contains("fewer GPU layers"));
}

#[test]
fn mock_backend_streams_tokens_for_loaded_model() {
    let mut registry = ModelRegistry::new();
    let backend = MockBackend;
    let model = registry
        .prepare_load(
            true,
            backend.id(),
            ModelDescriptor::local_gguf("mock-model", "mock.gguf"),
        )
        .ok()
        .expect("load model");
    let handle = backend.load(
        &model,
        LoadOptions {
            context_length: Some(4096),
            gpu_layers: Some(0),
        },
    );
    registry.record_loaded(handle);

    let target = registry.generation_target("mock-model").ok().expect("generate");
    assert_eq!(target.backend, "mock");
    let tokens = backend.generate(&[ChatMessage::new(ChatRole::User, "hello")]);
    let output = completion_text(&tokens);

    assert!(output.contains("deepLocal mock response"));
    assert!(output.contains("hello"));
}

#[test]
fn removes_registered_model_without_loading_it() {
    let mut registry = ModelRegistry::new();
    registry.register_model(ModelDescriptor::local_gguf("delete-me", "delete-me.gguf"));

    assert!(registry.get_model("delete-me").is_some());
    assert!(registry.remove_model("delete-me").is_some());
    assert!(registry.get_model("delete-me").is_none());
}

#[test]
fn reports_backend_statuses() {
    let mock = MockBackend.status();
    let llama = llama_status("/definitely/missing/llama-server", None);

    assert!(mock.available);
    assert!(!llama.available);
    assert_eq!(
        llama.binary_path.as_deref(),
        Some("/definitely/missing/llama-server")
    );
    assert!(llama.error.as_deref().unwrap_or_default().contains("llama-server"));
}
