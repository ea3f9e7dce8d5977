use binetic::address::RegisterAddress;
use binetic::backend::{ArithmeticOp, BackendId, ComputeOp};
use binetic::bitslice::BitslicedLane;
use binetic::llama::{LlamaCppBackend, LlamaCppError};
use binetic::mlx::{MlxBackend, MlxError};
use binetic::tiers::TierId;

#[test]
fn test_mlx_backend_creation() {
    let backend = MlxBackend::new();
    assert_eq!(backend.id(), BackendId::MLX());
    assert_eq!(backend.name(), "MLX (Apple Silicon)");
}

#[test]
fn test_mlx_supported_ops() {
    let backend = MlxBackend::new();
    let ops = backend.supported_ops();
    assert!(ops.contains(&ArithmeticOp::MatMul));
    assert!(ops.contains(&ArithmeticOp::Softmax));
    assert!(ops.contains(&ArithmeticOp::Attention));
    assert!(ops.contains(&ArithmeticOp::SampleNextToken));
}

#[test]
fn test_mlx_init() {
    let mut backend = MlxBackend::new();
    backend.init().unwrap();
}

#[test]
fn mlx_load_model_missing_file() {
    let mut backend = MlxBackend::new();
    match backend.load_model("/no/such.mlx", false) {
        Err(MlxError::ModelNotLoaded(m)) => assert_eq!(m, "File not found: \"/no/such.mlx\""),
        other => panic!("unexpected {:?}", other),
    }
    assert!(backend.model_path().is_none());
    backend.load_model("/models/m.mlx", true).unwrap();
    assert_eq!(backend.model_path().unwrap(), "/models/m.mlx");
    assert_eq!(backend.metadata().len(), 2);
}

#[test]
fn test_llama_cpp_backend_creation() {
    let backend = LlamaCppBackend::new();
    assert_eq!(backend.id(), BackendId::LLAMA_CPP());
    assert_eq!(backend.name(), "llama.cpp");
    assert!(!backend.is_model_loaded());
}

#[test]
fn test_llama_cpp_supported_ops() {
    let backend = LlamaCppBackend::new();
    let ops = backend.supported_ops();
    assert!(ops.contains(&ArithmeticOp::MatMul));
    assert!(ops.contains(&ArithmeticOp::QuantizedMatMul));
    assert!(ops.contains(&ArithmeticOp::SampleNextToken));
    assert!(ops.contains(&ArithmeticOp::Attention));
}

#[test]
fn test_llama_cpp_init_teardown() {
    let mut backend = LlamaCppBackend::new();
    // init requires a loaded model, so this should fail gracefully
    let result = backend.init();
    assert!(result.is_err());
}

#[test]
fn test_llama_cpp_load_model_nonexistent() {
    let mut backend = LlamaCppBackend::new();
    let (_old, result) = backend.load_model("/nonexistent/path.gguf", false);
    assert!(result.is_err());
}

#[test]
fn test_llama_cpp_metadata() {
    let backend = LlamaCppBackend::new();
    let meta = backend.metadata();
    assert!(meta.is_empty());
}

#[test]
fn llama_load_records_model_and_metadata() {
    let mut backend = LlamaCppBackend::new();
    let (old, result) = backend.load_model("/models/m.gguf", true);
    assert!(old.is_none());
    assert!(result.is_ok());
    backend.finish_load("/models/m.gguf", 0x1000, 32000, 32, 4096, Some("tiny".to_string()), None);
    assert!(backend.is_model_loaded());
    assert_eq!(backend.vocab_size(), 32000);
    assert_eq!(backend.metadata().len(), 1);
    assert_eq!(backend.init().unwrap(), 0x1000);
    // loading again hands back the previous model for freeing
    let (old, _) = backend.load_model("/models/n.gguf", true);
    assert_eq!(old, Some(0x1000));
    assert!(!backend.is_model_loaded());
}

#[test]
fn llama_nul_in_path_is_invalid() {
    let mut backend = LlamaCppBackend::new();
    match backend.load_model("bad\0path", true).1 {
        Err(LlamaCppError::ModelLoadFailed(m)) => assert_eq!(m, "Invalid path"),
        other => panic!("unexpected {:?}", other),
    }
}

#[test]
fn llama_mmap_requires_model() {
    let mut backend = LlamaCppBackend::new();
    assert!(backend.mmap_model().is_err());
    let op = ComputeOp::new(ArithmeticOp::Softmax, vec![RegisterAddress::zero()], RegisterAddress::zero());
    assert!(backend.can_handle(&op, &[TierId::HOT()]));
    let op = ComputeOp::new(ArithmeticOp::Mul, vec![RegisterAddress::zero()], RegisterAddress::zero());
    assert!(!backend.can_handle(&op, &[TierId::HOT()]));
}

#[test]
fn llama_tokens_from_lane() {
    let lane = BitslicedLane::from_bits(&[true, false, true]);
    assert_eq!(binetic::llama::tokens_from_lane(&lane), vec![0, 0, 2]);
    assert_eq!(binetic::llama::attention_token(&[lane]), 1);
    assert_eq!(binetic::llama::attention_token(&[]), 1);
}

#[test]
fn mlx_execute_follows_its_state() {
    let mut backend = MlxBackend::new();
    let lane = BitslicedLane::from_bits(&[true, false, true]);
    let o = ComputeOp::new(ArithmeticOp::MatMul, vec![RegisterAddress::zero()], RegisterAddress::zero());
    let r = backend.execute(&o, &[lane.clone()]);
    assert!(!r.success);
    assert_eq!(r.error_message.unwrap(), "MLX backend not initialized");
    backend.init().unwrap();
    let r = backend.execute(&o, &[lane.clone()]);
    assert_eq!(r.error_message.unwrap(), "No MLX model loaded");
    backend.load_model("/models/m.mlx", true).unwrap();
    let r = backend.execute(&o, &[lane.clone()]);
    assert!(r.success);
    assert_eq!(r.payload.unwrap().to_bits(), vec![true, false, true]);
    assert_eq!(r.latency_us, backend.estimate_latency_us(&o, &[]));
    assert_eq!(r.energy_estimate_nj, r.latency_us / 20);
    assert_eq!(backend.estimate_energy(&o, &[]), 200);
}

#[test]
fn llama_init_without_model_message() {
    let mut backend = LlamaCppBackend::new();
    assert_eq!(backend.init(), Err("No model loaded — call load_model first".to_string()));
}

#[test]
fn llama_mmap_without_model_is_a_load_failure() {
    let mut backend = LlamaCppBackend::new();
    assert!(matches!(backend.mmap_model(), Err(LlamaCppError::ModelLoadFailed(_))));
}
