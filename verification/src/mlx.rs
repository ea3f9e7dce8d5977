//! The MLX backend for Apple Silicon.
//!
//! MLX shares the unified memory of Apple Silicon with the fabric, so the
//! backend works on the fabric's lanes without copying. It keeps the
//! backend's state (availability, initialisation, the loaded model and its
//! metadata) and answers compute requests with its latency and energy
//! tables.

use vstd::prelude::*;
use vstd::string::StringExecFns;
use crate::backend::{ArithmeticOp, BackendId, ComputeOp, ComputeResult};
use crate::bitslice::BitslicedLane;
use crate::tiers::TierId;

verus! {

broadcast use vstd::string::group_string_axioms;

/// Errors of the MLX backend.
#[derive(Debug)]
pub enum MlxError {
    /// MLX is not available on this platform.
    NotAvailable,
    /// MLX failed to initialise.
    InitFailed(String),
    /// An MLX array could not be created.
    ArrayCreationFailed(String),
    /// An operation failed.
    ExecutionFailed(String),
    /// The model is not loaded.
    ModelNotLoaded(String),
}

/// Latency of an operation on MLX, in microseconds.
pub open spec fn mlx_latency(op: ArithmeticOp) -> u64 {
    match op {
        ArithmeticOp::MatMul => 200,
        ArithmeticOp::QuantizedMatMul => 300,
        ArithmeticOp::Softmax => 20,
        ArithmeticOp::Attention => 800,
        ArithmeticOp::SampleNextToken => 3000,
        ArithmeticOp::LayerNorm => 50,
        ArithmeticOp::RMSNorm => 50,
        ArithmeticOp::RoPE => 100,
        ArithmeticOp::SiLU => 20,
        ArithmeticOp::GELU => 20,
        ArithmeticOp::Add => 5,
        ArithmeticOp::Mul => 5,
        _ => 100,
    }
}

/// Energy estimate of an operation on MLX, in nanojoules.
pub open spec fn mlx_energy(op: ArithmeticOp) -> u64 {
    match op {
        ArithmeticOp::MatMul => 200,
        ArithmeticOp::QuantizedMatMul => 300,
        ArithmeticOp::Attention => 800,
        ArithmeticOp::SampleNextToken => 3000,
        _ => 50,
    }
}

/// The operations MLX supports, in order.
pub open spec fn mlx_ops() -> Seq<ArithmeticOp> {
    seq![
        ArithmeticOp::MatMul,
        ArithmeticOp::Add,
        ArithmeticOp::Mul,
        ArithmeticOp::Softmax,
        ArithmeticOp::Attention,
        ArithmeticOp::LayerNorm,
        ArithmeticOp::RMSNorm,
        ArithmeticOp::RoPE,
        ArithmeticOp::SiLU,
        ArithmeticOp::GELU,
        ArithmeticOp::SampleNextToken,
    ]
}

/// The latency of an operation on MLX.
fn latency_of(op: ArithmeticOp) -> (r: u64)
    ensures
        r == mlx_latency(op),
{
    match op {
        ArithmeticOp::MatMul => 200,
        ArithmeticOp::QuantizedMatMul => 300,
        ArithmeticOp::Softmax => 20,
        ArithmeticOp::Attention => 800,
        ArithmeticOp::SampleNextToken => 3000,
        ArithmeticOp::LayerNorm => 50,
        ArithmeticOp::RMSNorm => 50,
        ArithmeticOp::RoPE => 100,
        ArithmeticOp::SiLU => 20,
        ArithmeticOp::GELU => 20,
        ArithmeticOp::Add => 5,
        ArithmeticOp::Mul => 5,
        _ => 100,
    }
}

/// The MLX backend.
#[derive(Debug)]
pub struct MlxBackend {
    id: BackendId,
    name: String,
    mlx_available: bool,
    initialized: bool,
    model_path: Option<String>,
    model_metadata: Vec<(String, String)>,
    supported_ops: Vec<ArithmeticOp>,
}

impl MlxBackend {
    /// The backend's identifier.
    pub closed spec fn spec_id(&self) -> BackendId {
        self.id
    }

    /// The backend's name.
    pub closed spec fn spec_name(&self) -> Seq<char> {
        self.name@
    }

    /// Whether MLX is available.
    pub closed spec fn available(&self) -> bool {
        self.mlx_available
    }

    /// Whether the backend is initialised.
    pub closed spec fn is_initialized(&self) -> bool {
        self.initialized
    }

    /// The loaded model's path, if any.
    pub closed spec fn path_spec(&self) -> Option<Seq<char>> {
        match self.model_path {
            Some(p) => Some(p@),
            None => None,
        }
    }

    /// The model metadata, as (key, value) pairs.
    pub closed spec fn metadata_spec(&self) -> Seq<(Seq<char>, Seq<char>)> {
        self.model_metadata@.map_values(|e: (String, String)| (e.0@, e.1@))
    }

    /// The supported operations.
    pub closed spec fn ops_spec(&self) -> Seq<ArithmeticOp> {
        self.supported_ops@
    }

    /// A backend targeting Apple Silicon (MLX available), not initialised,
    /// with no model.
    pub fn new() -> (r: Self)
        ensures
            r.spec_id() == BackendId(1),
            r.spec_name() == "MLX (Apple Silicon)"@,
            r.available(),
            !r.is_initialized(),
            r.path_spec() is None,
            r.metadata_spec() == Seq::<(Seq<char>, Seq<char>)>::empty(),
            r.ops_spec() == mlx_ops(),
    {
        let mut ops: Vec<ArithmeticOp> = Vec::new();
        ops.push(ArithmeticOp::MatMul);
        ops.push(ArithmeticOp::Add);
        ops.push(ArithmeticOp::Mul);
        ops.push(ArithmeticOp::Softmax);
        ops.push(ArithmeticOp::Attention);
        ops.push(ArithmeticOp::LayerNorm);
        ops.push(ArithmeticOp::RMSNorm);
        ops.push(ArithmeticOp::RoPE);
        ops.push(ArithmeticOp::SiLU);
        ops.push(ArithmeticOp::GELU);
        ops.push(ArithmeticOp::SampleNextToken);
        proof {
            reveal_strlit("MLX (Apple Silicon)");
            assert(ops@ =~= mlx_ops());
        }
        let r = MlxBackend {
            id: BackendId::MLX(),
            name: String::from_str("MLX (Apple Silicon)"),
            mlx_available: true,
            initialized: false,
            model_path: None,
            model_metadata: Vec::new(),
            supported_ops: ops,
        };
        proof {
            assert(r.metadata_spec() =~= Seq::<(Seq<char>, Seq<char>)>::empty());
        }
        r
    }

    /// Record the model at `path`, where `file_exists` says whether the file
    /// is there: fails with `NotAvailable` without MLX and with
    /// `ModelNotLoaded("File not found: \"<path>\"")` for a missing file;
    /// otherwise records the path and the metadata ("format", "MLX") and
    /// ("loaded", "true").
    pub fn load_model(&mut self, path: &str, file_exists: bool) -> (r: Result<(), MlxError>)
        ensures
            !old(self).available() ==> (r matches Err(MlxError::NotAvailable)) && *final(self) == *old(self),
            old(self).available() && !file_exists ==> {
                &&& r matches Err(MlxError::ModelNotLoaded(m)) && m@ == "File not found: \""@ + path@
                    + "\""@
                &&& *final(self) == *old(self)
            },
            old(self).available() && file_exists ==> {
                &&& r is Ok
                &&& final(self).path_spec() == Some(path@)
                &&& final(self).metadata_spec() == old(self).metadata_spec().push(("format"@, "MLX"@)).push(
                    ("loaded"@, "true"@),
                )
                &&& final(self).spec_id() == old(self).spec_id()
                &&& final(self).available() == old(self).available()
                &&& final(self).is_initialized() == old(self).is_initialized()
                &&& final(self).ops_spec() == old(self).ops_spec()
            },
    {
        if !self.mlx_available {
            return Err(MlxError::NotAvailable);
        }
        if !file_exists {
            proof {
                reveal_strlit("File not found: \"");
                reveal_strlit("\"");
            }
            let mut msg = String::from_str("File not found: \"");
            msg.append(path);
            msg.append("\"");
            return Err(MlxError::ModelNotLoaded(msg));
        }
        self.model_path = Some(path.to_owned());
        proof {
            reveal_strlit("format");
            reveal_strlit("MLX");
            reveal_strlit("loaded");
            reveal_strlit("true");
        }
        let ghost before = self.model_metadata@;
        self.model_metadata.push((String::from_str("format"), String::from_str("MLX")));
        self.model_metadata.push((String::from_str("loaded"), String::from_str("true")));
        proof {
            assert(self.metadata_spec() =~= old(self).metadata_spec().push(("format"@, "MLX"@)).push(
                ("loaded"@, "true"@),
            ));
        }
        Ok(())
    }

    /// Whether MLX is available.
    pub fn is_mlx_available(&self) -> (r: bool)
        ensures
            r == self.available(),
    {
        self.mlx_available
    }

    /// The loaded model's path, if any.
    pub fn model_path(&self) -> (r: Option<&String>)
        ensures
            match r {
                Some(p) => self.path_spec() == Some(p@),
                None => self.path_spec() is None,
            },
    {
        match &self.model_path {
            Some(p) => Some(p),
            None => None,
        }
    }

    /// The model metadata, as (key, value) pairs in insertion order.
    pub fn metadata(&self) -> (r: &[(String, String)])
        ensures
            r@.map_values(|e: (String, String)| (e.0@, e.1@)) == self.metadata_spec(),
    {
        self.model_metadata.as_slice()
    }

    /// The backend's identifier.
    pub fn id(&self) -> (r: BackendId)
        ensures
            r == self.spec_id(),
    {
        self.id
    }

    /// The backend's name.
    pub fn name(&self) -> (r: &str)
        ensures
            r@ == self.spec_name(),
    {
        self.name.as_str()
    }

    /// The supported operations.
    pub fn supported_ops(&self) -> (r: &[ArithmeticOp])
        ensures
            r@ == self.ops_spec(),
    {
        self.supported_ops.as_slice()
    }

    /// Initialise MLX; without MLX there is nothing to do. Always succeeds.
    pub fn init(&mut self) -> (r: Result<(), String>)
        ensures
            r is Ok,
            final(self).is_initialized() == (old(self).is_initialized() || old(self).available()),
            final(self).spec_id() == old(self).spec_id(),
            final(self).available() == old(self).available(),
            final(self).path_spec() == old(self).path_spec(),
            final(self).metadata_spec() == old(self).metadata_spec(),
            final(self).ops_spec() == old(self).ops_spec(),
    {
        if !self.mlx_available {
            return Ok(());
        }
        self.initialized = true;
        Ok(())
    }

    /// Forget the model and its metadata, and mark the backend
    /// uninitialised.
    pub fn teardown(&mut self)
        ensures
            !final(self).is_initialized(),
            final(self).path_spec() is None,
            final(self).metadata_spec() == Seq::<(Seq<char>, Seq<char>)>::empty(),
            final(self).spec_id() == old(self).spec_id(),
            final(self).available() == old(self).available(),
            final(self).ops_spec() == old(self).ops_spec(),
    {
        self.model_path = None;
        self.model_metadata.clear();
        self.initialized = false;
        proof {
            assert(self.metadata_spec() =~= Seq::<(Seq<char>, Seq<char>)>::empty());
        }
    }

    /// Whether MLX is available and supports the operation.
    pub fn can_handle(&self, op: &ComputeOp, _operand_tiers: &[TierId]) -> (r: bool)
        ensures
            r == (self.available() && self.ops_spec().contains(op.operation)),
    {
        if !self.mlx_available {
            return false;
        }
        let mut i: usize = 0;
        while i < self.supported_ops.len()
            invariant
                i <= self.supported_ops@.len(),
                self.mlx_available,
                forall|j: int| 0 <= j < i ==> self.supported_ops@[j] != op.operation,
            decreases self.supported_ops@.len() - i,
        {
            if self.supported_ops[i] == op.operation {
                assert(self.ops_spec()[i as int] == op.operation);
                return true;
            }
            i = i + 1;
        }
        false
    }

    /// Run an operation: the latency comes from the table and the energy
    /// is a twentieth of it (rounded down). Fails without MLX, before
    /// initialisation or without a model; otherwise succeeds with a copy of
    /// the first operand (an empty lane when there is none).
    pub fn execute(&self, op: &ComputeOp, operands: &[BitslicedLane]) -> (r: ComputeResult)
        ensures
            r.backend_used == Some(self.spec_id()),
            r.latency_us == mlx_latency(op.operation),
            r.energy_estimate_nj == mlx_latency(op.operation) / 20,
            !self.available() ==> {
                &&& !r.success
                &&& r.payload is None
                &&& r.error_message matches Some(m) && m@ == "MLX not available on this platform"@
            },
            self.available() && !self.is_initialized() ==> {
                &&& !r.success
                &&& r.payload is None
                &&& r.error_message matches Some(m) && m@ == "MLX backend not initialized"@
            },
            self.available() && self.is_initialized() && self.path_spec() is None ==> {
                &&& !r.success
                &&& r.payload is None
                &&& r.error_message matches Some(m) && m@ == "No MLX model loaded"@
            },
            self.available() && self.is_initialized() && self.path_spec() is Some ==> {
                &&& r.success
                &&& r.error_message is None
                &&& r.payload matches Some(p) && if operands@.len() > 0 {
                    p.word_seq() == operands@[0].word_seq() && p.bit_len() == operands@[0].bit_len()
                } else {
                    p.word_seq() == Seq::<u64>::empty() && p.bit_len() == 0
                }
            },
    {
        let latency_us = latency_of(op.operation);
        let energy_nj = latency_us / 20;
        if !self.mlx_available {
            proof {
                reveal_strlit("MLX not available on this platform");
            }
            return ComputeResult {
                success: false,
                backend_used: Some(self.id),
                latency_us,
                energy_estimate_nj: energy_nj,
                error_message: Some(String::from_str("MLX not available on this platform")),
                payload: None,
            };
        }
        if !self.initialized {
            proof {
                reveal_strlit("MLX backend not initialized");
            }
            return ComputeResult {
                success: false,
                backend_used: Some(self.id),
                latency_us,
                energy_estimate_nj: energy_nj,
                error_message: Some(String::from_str("MLX backend not initialized")),
                payload: None,
            };
        }
        if self.model_path.is_none() {
            proof {
                reveal_strlit("No MLX model loaded");
            }
            return ComputeResult {
                success: false,
                backend_used: Some(self.id),
                latency_us,
                energy_estimate_nj: energy_nj,
                error_message: Some(String::from_str("No MLX model loaded")),
                payload: None,
            };
        }
        let payload = if operands.len() > 0 {
            operands[0].clone()
        } else {
            BitslicedLane::default()
        };
        ComputeResult {
            success: true,
            backend_used: Some(self.id),
            latency_us,
            energy_estimate_nj: energy_nj,
            error_message: None,
            payload: Some(payload),
        }
    }

    /// Energy estimate of an operation, from the table.
    pub fn estimate_energy(&self, op: &ComputeOp, _operand_tiers: &[TierId]) -> (r: u64)
        ensures
            r == mlx_energy(op.operation),
    {
        match op.operation {
            ArithmeticOp::MatMul => 200,
            ArithmeticOp::QuantizedMatMul => 300,
            ArithmeticOp::Attention => 800,
            ArithmeticOp::SampleNextToken => 3000,
            _ => 50,
        }
    }

    /// Latency estimate of an operation, from the table.
    pub fn estimate_latency_us(&self, op: &ComputeOp, _operand_tiers: &[TierId]) -> (r: u64)
        ensures
            r == mlx_latency(op.operation),
    {
        latency_of(op.operation)
    }
}

impl Default for MlxBackend {
    /// The same as `MlxBackend::new()`.
    fn default() -> (r: Self)
        ensures
            r.spec_id() == BackendId(1),
            r.available(),
            !r.is_initialized(),
            r.path_spec() is None,
            r.ops_spec() == mlx_ops(),
    {
        Self::new()
    }
}

} // verus!
