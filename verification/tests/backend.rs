use binetic::address::RegisterAddress;
use binetic::backend::{parse_quantization, ArithmeticOp, BackendId, ComputeOp, NativeBackend, QuantizationLevel};
use binetic::bitslice::BitslicedLane;
use binetic::tiers::TierId;

#[test]
fn test_backend_id() {
    assert_eq!(BackendId::LLAMA_CPP().0, 0);
    assert_eq!(BackendId::MLX().0, 1);
    assert_eq!(BackendId::NATIVE().0, 2);
}

#[test]
fn test_native_backend() {
    let mut backend = NativeBackend::new();
    backend.init().unwrap();

    assert_eq!(backend.id(), BackendId::NATIVE());
    assert!(backend.supported_ops().contains(&ArithmeticOp::Add));
    assert!(backend.supported_ops().contains(&ArithmeticOp::MatMul));
    assert!(!backend.supported_ops().contains(&ArithmeticOp::Softmax));

    backend.teardown();
}

fn op(operation: ArithmeticOp) -> ComputeOp {
    ComputeOp::new(operation, vec![RegisterAddress::zero(), RegisterAddress::zero()], RegisterAddress::zero())
}

#[test]
fn native_add_is_xor_of_operands() {
    let backend = NativeBackend::new();
    let a = BitslicedLane::from_bits(&[true, false, true, false]);
    let b = BitslicedLane::from_bits(&[false, true, true, false]);
    let r = backend.execute(&op(ArithmeticOp::Add), &[a, b]);
    assert!(r.success);
    assert_eq!(r.backend_used, Some(BackendId::NATIVE()));
    assert_eq!(r.payload.unwrap().to_bits(), vec![true, true, false, false]);
}

#[test]
fn native_mul_is_and_of_operands() {
    let backend = NativeBackend::new();
    let a = BitslicedLane::from_bits(&[true, false, true, false]);
    let b = BitslicedLane::from_bits(&[false, true, true, false]);
    let r = backend.execute(&op(ArithmeticOp::Mul), &[a, b]);
    assert!(r.success);
    assert_eq!(r.payload.unwrap().to_bits(), vec![false, false, true, false]);
}

#[test]
fn native_rejects_unsupported_op() {
    let backend = NativeBackend::new();
    let a = BitslicedLane::from_bits(&[true]);
    let r = backend.execute(&op(ArithmeticOp::Softmax), &[a.clone(), a]);
    assert!(!r.success);
    assert!(r.error_message.is_some());
    assert!(!backend.can_handle(&op(ArithmeticOp::Softmax), &[TierId::HOT()]));
    assert!(backend.can_handle(&op(ArithmeticOp::Add), &[TierId::HOT()]));
}

#[test]
fn op_display_strings() {
    assert_eq!(ArithmeticOp::MatMul.to_display_string(), "MatMul");
    assert_eq!(ArithmeticOp::QuantizedMatMul.to_display_string(), "QuantMatMul");
    assert_eq!(ArithmeticOp::Custom(42).to_display_string(), "Custom(42)");
    assert_eq!(BackendId::NATIVE().name(), "native");
}

#[test]
fn quantization_from_u8() {
    assert_eq!(QuantizationLevel::from(0u8), QuantizationLevel::F32);
    assert_eq!(QuantizationLevel::from(3u8), QuantizationLevel::Q4_0);
    assert_eq!(QuantizationLevel::from(16u8), QuantizationLevel::IQ4_XXS);
    assert_eq!(QuantizationLevel::from(200u8), QuantizationLevel::Unknown);
}

#[test]
fn native_estimates() {
    let backend = NativeBackend::new();
    let o = op(ArithmeticOp::Add);
    assert_eq!(backend.estimate_energy(&o, &[TierId::HOT(), TierId::COLD()]), 1280);
    assert_eq!(backend.estimate_latency_us(&o, &[TierId::HOT(), TierId::REMOTE()]), 130);
}

#[test]
fn parse_quantization_ignores_case() {
    assert_eq!(parse_quantization("q4_0"), Ok(QuantizationLevel::Q4_0));
    assert_eq!(parse_quantization("IQ4_XXS"), Ok(QuantizationLevel::IQ4_XXS));
    assert_eq!(parse_quantization("bf16"), Ok(QuantizationLevel::BF16));
    assert_eq!(parse_quantization("Q9"), Err("Unknown quantization: Q9".to_string()));
}

#[test]
fn native_error_messages() {
    let backend = NativeBackend::new();
    let a = BitslicedLane::from_bits(&[true]);
    let r = backend.execute(&op(ArithmeticOp::Softmax), &[a.clone(), a.clone()]);
    assert_eq!(r.error_message.unwrap(), "Unsupported operation: Softmax");
    let r = backend.execute(&op(ArithmeticOp::Add), &[a.clone()]);
    assert!(!r.success);
    assert_eq!(r.error_message.unwrap(), "Add requires 2 operands");
    let b = BitslicedLane::from_bits(&[true, false, true]);
    let c = BitslicedLane::from_bits(&[true, false]);
    let r = backend.execute(&op(ArithmeticOp::MatMul), &[c, b]);
    assert!(!r.success);
    assert_eq!(r.error_message.unwrap(), "MatMul dimension mismatch: 2 vs 3");
}

#[test]
fn native_matmul_is_parity_of_and() {
    let backend = NativeBackend::new();
    let a = BitslicedLane::from_bits(&[true, true, true, false]);
    let b = BitslicedLane::from_bits(&[true, false, true, true]);
    let r = backend.execute(&op(ArithmeticOp::MatMul), &[a, b]);
    assert!(r.success);
    // two common set bits: even parity
    assert_eq!(r.payload.unwrap().get_bit(0), false);
    assert_eq!(r.latency_us, 10);
    assert_eq!(r.energy_estimate_nj, 100);
}
