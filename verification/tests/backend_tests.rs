use fairsched::backend::{
    build_llamacpp_cmd, llamacpp_base_url, llamacpp_image_cpu, llamacpp_image_vulkan, GpuType,
    LlamacppConfig,
};

// -- GpuType::from_str ---------------------------------------------------

#[test]
fn gpu_type_vulkan_lowercase() {
    assert!(matches!(GpuType::from_str("vulkan"), GpuType::Vulkan));
}

#[test]
fn gpu_type_vulkan_uppercase() {
    assert!(matches!(GpuType::from_str("VULKAN"), GpuType::Vulkan));
}

#[test]
fn gpu_type_vulkan_mixed_case() {
    assert!(matches!(GpuType::from_str("Vulkan"), GpuType::Vulkan));
}

#[test]
fn gpu_type_none_explicit() {
    assert!(matches!(GpuType::from_str("none"), GpuType::Cpu));
}

#[test]
fn gpu_type_unknown_string() {
    assert!(matches!(GpuType::from_str("cuda"), GpuType::Cpu));
}

#[test]
fn gpu_type_empty_string() {
    assert!(matches!(GpuType::from_str(""), GpuType::Cpu));
}

#[test]
fn gpu_type_garbage() {
    assert!(matches!(GpuType::from_str("foobar"), GpuType::Cpu));
}

// -- GpuType default -----------------------------------------------------

#[test]
fn gpu_type_default_is_none() {
    assert!(matches!(GpuType::default(), GpuType::Cpu));
}

// -- LlamacppConfig defaults ---------------------------------------------

#[test]
fn llamacpp_config_defaults() {
    let cfg = LlamacppConfig::default();
    assert_eq!(cfg.gpu_layers, 99);
    assert_eq!(cfg.context_size, 4096);
    assert_eq!(cfg.parallel, 1);
    assert_eq!(cfg.uid, 10000);
    assert!(cfg.model_id.is_empty());
    assert!(cfg.gguf_path.is_empty());
    assert!(cfg.api_key.is_empty());
    assert!(cfg.extra_args.is_empty());
    assert!(matches!(cfg.gpu_type, GpuType::Cpu));
}

// -- backend URL ---------------------------------------------------------

#[test]
fn llamacpp_base_url_format() {
    let url = llamacpp_base_url("my-model-123");
    assert_eq!(url, "http://sovereign-llamacpp-my-model-123:8080");
}

// -- Image selection constants -------------------------------------------

#[test]
fn image_constants_are_distinct() {
    assert_ne!(llamacpp_image_cpu(), llamacpp_image_vulkan());
    assert!(llamacpp_image_cpu().contains("llama.cpp"));
    assert!(llamacpp_image_vulkan().contains("vulkan"));
}

// -- command line --------------------------------------------------------

#[test]
fn llamacpp_cmd_base_shape() {
    let cfg = LlamacppConfig {
        gguf_path: "repo/model.gguf".into(),
        ..LlamacppConfig::default()
    };
    let cmd = build_llamacpp_cmd(&cfg);
    assert_eq!(
        cmd,
        vec![
            "--model",
            "/models/repo/model.gguf",
            "--host",
            "0.0.0.0",
            "--port",
            "8080",
            "-ngl",
            "99",
            "-c",
            "4096",
        ]
    );
}

#[test]
fn llamacpp_cmd_parallel_and_extra_args() {
    let cfg = LlamacppConfig {
        gguf_path: "m.gguf".into(),
        parallel: 4,
        extra_args: vec!["--flash-attn".to_string()],
        ..LlamacppConfig::default()
    };
    let cmd = build_llamacpp_cmd(&cfg);
    assert_eq!(cmd[10], "-np");
    assert_eq!(cmd[11], "4");
    assert_eq!(cmd[12], "--flash-attn");
    assert_eq!(cmd.len(), 13);
}
