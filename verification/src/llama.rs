//! The llama.cpp backend's state and decisions.
//!
//! The backend runs llama.cpp through its C interface. This module keeps
//! what the backend knows (the model file, the handles the C library gave
//! for the model and its context, the model's metadata and dimensions)
//! and decides what to do with an operation; the calls into the C library
//! are made by the driver around it, which hands the results back here.

use vstd::prelude::*;
use vstd::string::StringExecFns;
use vstd::string::StrSliceExecFns;
use crate::backend::{ArithmeticOp, BackendId, ComputeOp, QuantizationLevel};
use crate::bitslice::BitslicedLane;
use crate::tiers::TierId;

verus! {

broadcast use vstd::string::group_string_axioms;

/// Errors of the llama.cpp backend.
#[derive(Debug)]
pub enum LlamaCppError {
    /// The model could not be loaded.
    ModelLoadFailed(String),
    /// Inference failed.
    InferenceFailed(String),
    /// Memory mapping failed.
    MmapFailed(String),
    /// The quantisation is not supported.
    UnsupportedQuantization(String),
    /// llama.cpp failed to initialise.
    InitFailed,
}

/// The operations llama.cpp supports, in order.
pub open spec fn llama_ops() -> Seq<ArithmeticOp> {
    seq![
        ArithmeticOp::MatMul,
        ArithmeticOp::QuantizedMatMul,
        ArithmeticOp::Add,
        ArithmeticOp::Softmax,
        ArithmeticOp::Attention,
        ArithmeticOp::LayerNorm,
        ArithmeticOp::RMSNorm,
        ArithmeticOp::RoPE,
        ArithmeticOp::SiLU,
        ArithmeticOp::GELU,
        ArithmeticOp::SampleNextToken,
    ]
}

/// The quantisation levels llama.cpp supports, in order.
pub open spec fn llama_quantizations() -> Seq<QuantizationLevel> {
    seq![
        QuantizationLevel::Q4_0,
        QuantizationLevel::Q4_1,
        QuantizationLevel::Q5_0,
        QuantizationLevel::Q5_1,
        QuantizationLevel::Q6_K,
        QuantizationLevel::Q8_0,
        QuantizationLevel::IQ2_XS,
        QuantizationLevel::IQ3_XS,
        QuantizationLevel::IQ4_XS,
        QuantizationLevel::IQ5_XS,
        QuantizationLevel::IQ6_XS,
        QuantizationLevel::IQ7_XS,
        QuantizationLevel::IQ4_XXS,
    ]
}

/// Energy estimate before the floor of 1: a function of the embedding
/// width and the layer count.
pub open spec fn llama_energy_base(op: ArithmeticOp, n_embd: int, n_layers: int) -> int {
    match op {
        ArithmeticOp::QuantizedMatMul => (n_embd * n_layers * 2) / 10,
        ArithmeticOp::MatMul => n_embd * n_layers,
        ArithmeticOp::Attention => n_embd * n_layers * 2,
        ArithmeticOp::SampleNextToken => n_embd * 10,
        ArithmeticOp::Softmax => n_embd,
        ArithmeticOp::LayerNorm => n_embd,
        ArithmeticOp::RMSNorm => n_embd,
        ArithmeticOp::RoPE => n_embd,
        ArithmeticOp::SiLU => n_embd,
        ArithmeticOp::GELU => n_embd,
        ArithmeticOp::Add => n_embd,
        ArithmeticOp::Mul => n_embd,
        _ => 100,
    }
}

/// Latency estimate before the floor of 1, in microseconds.
pub open spec fn llama_latency_base(op: ArithmeticOp, n_embd: int, n_layers: int) -> int {
    match op {
        ArithmeticOp::QuantizedMatMul => (n_layers * n_embd * 2) / 100,
        ArithmeticOp::MatMul => n_layers * n_embd,
        ArithmeticOp::Attention => n_layers * n_embd * 2,
        ArithmeticOp::SampleNextToken => n_layers * 100,
        ArithmeticOp::Softmax => n_layers * 10,
        ArithmeticOp::LayerNorm => n_layers * 5,
        ArithmeticOp::RMSNorm => n_layers * 5,
        ArithmeticOp::RoPE => n_layers * 10,
        ArithmeticOp::SiLU => n_layers * 5,
        ArithmeticOp::GELU => n_layers * 5,
        ArithmeticOp::Add => n_layers,
        ArithmeticOp::Mul => n_layers,
        _ => 100,
    }
}

/// What `execute` does with an operation.
#[derive(Clone, Copy, Debug, PartialEq, Eq, Structural)]
pub enum LlamaStep {
    /// Fail: no context.
    NotInitialized,
    /// Fail: no model.
    NoModel,
    /// Sample the next token from the logits.
    SampleNextToken,
    /// Evaluate the tokens of the first operand.
    MatMul,
    /// Normalise the logits.
    Softmax,
    /// Evaluate one token.
    Attention,
    /// Succeed with the first operand (llama.cpp does the operation
    /// internally during evaluation).
    PassThrough,
}

/// The step for an operation given the backend's state.
pub open spec fn llama_step(has_context: bool, has_model: bool, op: ArithmeticOp) -> LlamaStep {
    if !has_context {
        LlamaStep::NotInitialized
    } else if !has_model {
        LlamaStep::NoModel
    } else {
        match op {
            ArithmeticOp::SampleNextToken => LlamaStep::SampleNextToken,
            ArithmeticOp::QuantizedMatMul => LlamaStep::MatMul,
            ArithmeticOp::MatMul => LlamaStep::MatMul,
            ArithmeticOp::Softmax => LlamaStep::Softmax,
            ArithmeticOp::Attention => LlamaStep::Attention,
            _ => LlamaStep::PassThrough,
        }
    }
}

/// The tokens the matrix product evaluates: for each of the first (at
/// most 256) bits of the lane, its index when set and 0 otherwise.
pub fn tokens_from_lane(lane: &BitslicedLane) -> (r: Vec<i32>)
    requires
        lane.wf(),
    ensures
        r@.len() == (if lane.bit_len() < 256 { lane.bit_len() } else { 256 }),
        forall|i: int| 0 <= i < r@.len() ==> #[trigger] r@[i] == (if lane.bit_at(i) { i as i32 } else { 0i32 }),
{
    let n = if lane.len() < 256 { lane.len() } else { 256 };
    let mut out: Vec<i32> = Vec::new();
    let mut i: usize = 0;
    while i < n
        invariant
            i <= n,
            n <= 256,
            n == (if lane.bit_len() < 256 { lane.bit_len() } else { 256 }),
            lane.wf(),
            out@.len() == i,
            forall|k: int| 0 <= k < i ==> #[trigger] out@[k] == (if lane.bit_at(k) { k as i32 } else { 0i32 }),
        decreases n - i,
    {
        let t: i32 = if lane.get_bit(i) { i as i32 } else { 0 };
        out.push(t);
        i = i + 1;
    }
    out
}

/// The token attention evaluates: 1 without an operand, else 1 when the
/// first operand's bit 0 is set and 0 otherwise.
pub fn attention_token(operands: &[BitslicedLane]) -> (r: i32)
    requires
        operands.len() > 0 ==> operands@[0].wf(),
    ensures
        r == (if operands@.len() == 0 {
            1i32
        } else if operands@[0].bit_at(0) {
            1i32
        } else {
            0i32
        }),
{
    if operands.len() == 0 {
        1
    } else if operands[0].len() > 0 && operands[0].get_bit(0) {
        1
    } else {
        0
    }
}

/// The metadata entry recorded for a value the loader reported: `(key, value)`
/// when there is one, nothing otherwise.
pub open spec fn reported_entry(key: Seq<char>, value: Option<String>) -> Seq<(Seq<char>, Seq<char>)> {
    match value {
        Some(v) => seq![(key, v@)],
        None => Seq::<(Seq<char>, Seq<char>)>::empty(),
    }
}

/// Whether `s` holds a NUL character.
fn has_nul(s: &str) -> (r: bool)
    ensures
        r == s@.contains('\0'),
{
    let n = s.unicode_len();
    let mut i: usize = 0;
    while i < n
        invariant
            i <= n,
            n == s@.len(),
            forall|j: int| 0 <= j < i ==> s@[j] != '\0',
        decreases n - i,
    {
        if s.get_char(i) == '\0' {
            return true;
        }
        i = i + 1;
    }
    false
}

/// The message for a model file that is not there.
pub open spec fn not_found_message(path: Seq<char>) -> Seq<char> {
    "File not found: \""@ + path + "\""@
}

/// The llama.cpp backend's state. The model and context are handles that
/// the C library returned (their addresses), held while they are live.
#[derive(Debug)]
pub struct LlamaCppBackend {
    id: BackendId,
    name: String,
    model_path: Option<String>,
    model: Option<usize>,
    ctx: Option<usize>,
    model_metadata: Vec<(String, String)>,
    initialized: bool,
    supported_quantizations: Vec<QuantizationLevel>,
    supported_ops: Vec<ArithmeticOp>,
    vocab_size: usize,
    n_layers: usize,
    n_embd: usize,
}

impl LlamaCppBackend {
    /// The backend's identifier.
    pub closed spec fn spec_id(&self) -> BackendId {
        self.id
    }

    /// The backend's name.
    pub closed spec fn spec_name(&self) -> Seq<char> {
        self.name@
    }

    /// The model file, if one is loaded.
    pub closed spec fn path_spec(&self) -> Option<Seq<char>> {
        match self.model_path {
            Some(p) => Some(p@),
            None => None,
        }
    }

    /// The model handle, if a model is loaded.
    pub closed spec fn model_spec(&self) -> Option<usize> {
        self.model
    }

    /// The context handle, if a context exists.
    pub closed spec fn ctx_spec(&self) -> Option<usize> {
        self.ctx
    }

    /// The model metadata, as (key, value) pairs.
    pub closed spec fn metadata_spec(&self) -> Seq<(Seq<char>, Seq<char>)> {
        self.model_metadata@.map_values(|e: (String, String)| (e.0@, e.1@))
    }

    /// Whether a context has been created.
    pub closed spec fn is_initialized(&self) -> bool {
        self.initialized
    }

    /// The supported operations.
    pub closed spec fn ops_spec(&self) -> Seq<ArithmeticOp> {
        self.supported_ops@
    }

    /// The supported quantisation levels.
    pub closed spec fn quantizations_spec(&self) -> Seq<QuantizationLevel> {
        self.supported_quantizations@
    }

    /// The model's (vocabulary size, layer count, embedding width).
    pub closed spec fn dims(&self) -> (usize, usize, usize) {
        (self.vocab_size, self.n_layers, self.n_embd)
    }

    /// A backend with no model and no context.
    pub fn new() -> (r: Self)
        ensures
            r.spec_id() == BackendId(0),
            r.spec_name() == "llama.cpp"@,
            r.path_spec() is None,
            r.model_spec() is None,
            r.ctx_spec() is None,
            r.metadata_spec() == Seq::<(Seq<char>, Seq<char>)>::empty(),
            !r.is_initialized(),
            r.ops_spec() == llama_ops(),
            r.quantizations_spec() == llama_quantizations(),
            r.dims() == (0usize, 0usize, 0usize),
    {
        let mut q: Vec<QuantizationLevel> = Vec::new();
        q.push(QuantizationLevel::Q4_0);
        q.push(QuantizationLevel::Q4_1);
        q.push(QuantizationLevel::Q5_0);
        q.push(QuantizationLevel::Q5_1);
        q.push(QuantizationLevel::Q6_K);
        q.push(QuantizationLevel::Q8_0);
        q.push(QuantizationLevel::IQ2_XS);
        q.push(QuantizationLevel::IQ3_XS);
        q.push(QuantizationLevel::IQ4_XS);
        q.push(QuantizationLevel::IQ5_XS);
        q.push(QuantizationLevel::IQ6_XS);
        q.push(QuantizationLevel::IQ7_XS);
        q.push(QuantizationLevel::IQ4_XXS);
        let mut ops: Vec<ArithmeticOp> = Vec::new();
        ops.push(ArithmeticOp::MatMul);
        ops.push(ArithmeticOp::QuantizedMatMul);
        ops.push(ArithmeticOp::Add);
        ops.push(ArithmeticOp::Softmax);
        ops.push(ArithmeticOp::Attention);
        ops.push(ArithmeticOp::LayerNorm);
        ops.push(ArithmeticOp::RMSNorm);
        ops.push(ArithmeticOp::RoPE);
        ops.push(ArithmeticOp::SiLU);
        ops.push(ArithmeticOp::GELU);
        ops.push(ArithmeticOp::SampleNextToken);
        proof {
            reveal_strlit("llama.cpp");
            assert(q@ =~= llama_quantizations());
            assert(ops@ =~= llama_ops());
        }
        let r = LlamaCppBackend {
            id: BackendId::LLAMA_CPP(),
            name: String::from_str("llama.cpp"),
            model_path: None,
            model: None,
            ctx: None,
            model_metadata: Vec::new(),
            initialized: false,
            supported_quantizations: q,
            supported_ops: ops,
            vocab_size: 0,
            n_layers: 0,
            n_embd: 0,
        };
        proof {
            assert(r.metadata_spec() =~= Seq::<(Seq<char>, Seq<char>)>::empty());
        }
        r
    }

    /// Whether a model is loaded.
    pub fn is_model_loaded(&self) -> (r: bool)
        ensures
            r == self.model_spec() is Some,
    {
        self.model.is_some()
    }

    /// The loaded model's file, if any.
    pub fn model_path(&self) -> (r: Option<&String>)
        ensures
            match r {
                Some(p) => self.path_spec() == Some(p@),
                None => self.path_spec() is None,
            },
    {
        match &self.model_path {
            Some(p) => Some(p),
            None => None,
        }
    }

    /// The model metadata, as (key, value) pairs.
    pub fn metadata(&self) -> (r: &[(String, String)])
        ensures
            r@.map_values(|e: (String, String)| (e.0@, e.1@)) == self.metadata_spec(),
    {
        self.model_metadata.as_slice()
    }

    /// llama.cpp maps the model file itself while loading it, so there is
    /// nothing to do once a model is loaded; without one this fails with
    /// "No model loaded".
    pub fn mmap_model(&mut self) -> (r: Result<(), LlamaCppError>)
        ensures
            *final(self) == *old(self),
            r is Ok <==> old(self).path_spec() is Some,
            r is Err ==> (r matches Err(LlamaCppError::ModelLoadFailed(m)) && m@ == "No model loaded"@),
    {
        match &self.model_path {
            Some(_) => Ok(()),
            None => {
                proof {
                    reveal_strlit("No model loaded");
                }
                Err(LlamaCppError::ModelLoadFailed(String::from_str("No model loaded")))
            },
        }
    }

    /// Forget the model file and its metadata.
    pub fn unmap_model(&mut self)
        ensures
            final(self).path_spec() is None,
            final(self).metadata_spec() == Seq::<(Seq<char>, Seq<char>)>::empty(),
            final(self).model_spec() == old(self).model_spec(),
            final(self).ctx_spec() == old(self).ctx_spec(),
            final(self).is_initialized() == old(self).is_initialized(),
            final(self).spec_id() == old(self).spec_id(),
            final(self).ops_spec() == old(self).ops_spec(),
            final(self).dims() == old(self).dims(),
    {
        self.model_path = None;
        self.model_metadata.clear();
        proof {
            assert(self.metadata_spec() =~= Seq::<(Seq<char>, Seq<char>)>::empty());
        }
    }

    /// Check a model file before loading it, and drop the current model.
    ///
    /// A file that is not there fails with `ModelLoadFailed` ("File not
    /// found: ...") and changes nothing. Otherwise the current model is
    /// dropped as `begin_load` does, and its handle is handed back first,
    /// for the caller to free; then a path holding a NUL character fails
    /// with `ModelLoadFailed("Invalid path")`, and any other is ready for
    /// the loader, whose result `finish_load` records.
    pub fn load_model(&mut self, path: &str, file_exists: bool) -> (r: (
        Option<usize>,
        Result<(), LlamaCppError>,
    ))
        ensures
            !file_exists ==> {
                &&& *final(self) == *old(self)
                &&& r.0 is None
                &&& r.1 matches Err(LlamaCppError::ModelLoadFailed(m)) && m@ == not_found_message(
                    path@,
                )
            },
            file_exists ==> {
                &&& r.0 == old(self).model_spec()
                &&& final(self).model_spec() is None
                &&& final(self).ctx_spec() is None
                &&& !final(self).is_initialized()
                &&& final(self).metadata_spec() == Seq::<(Seq<char>, Seq<char>)>::empty()
                &&& final(self).path_spec() == old(self).path_spec()
                &&& final(self).spec_id() == old(self).spec_id()
                &&& final(self).ops_spec() == old(self).ops_spec()
                &&& final(self).dims() == old(self).dims()
                &&& (path@.contains('\0') ==> (r.1 matches Err(LlamaCppError::ModelLoadFailed(m))
                    && m@ == "Invalid path"@))
                &&& (!path@.contains('\0') ==> r.1 is Ok)
            },
    {
        if !file_exists {
            let mut m = String::from_str("File not found: \"");
            m.append(path);
            m.append("\"");
            proof {
                reveal_strlit("File not found: \"");
                reveal_strlit("\"");
            }
            return (None, Err(LlamaCppError::ModelLoadFailed(m)));
        }
        let old_model = self.begin_load();
        if has_nul(path) {
            proof {
                reveal_strlit("Invalid path");
            }
            return (old_model, Err(LlamaCppError::ModelLoadFailed(String::from_str("Invalid path"))));
        }
        (old_model, Ok(()))
    }

    /// Initialise: with a model loaded, hand back its handle for the caller
    /// to create a llama.cpp context from (recorded with `set_context`);
    /// without one fail with "No model loaded — call load_model first".
    pub fn init(&mut self) -> (r: Result<usize, String>)
        ensures
            *final(self) == *old(self),
            match r {
                Ok(m) => old(self).model_spec() == Some(m),
                Err(e) => old(self).model_spec() is None && e@
                    == "No model loaded \u{2014} call load_model first"@,
            },
    {
        match self.model {
            Some(m) => Ok(m),
            None => {
                proof {
                    reveal_strlit("No model loaded \u{2014} call load_model first");
                }
                Err(String::from_str("No model loaded \u{2014} call load_model first"))
            },
        }
    }

    /// Start loading a new model: the context is dropped, the backend is
    /// marked uninitialised and the metadata cleared. Returns the handle of
    /// the previous model, for the caller to free.
    pub fn begin_load(&mut self) -> (r: Option<usize>)
        ensures
            r == old(self).model_spec(),
            final(self).model_spec() is None,
            final(self).ctx_spec() is None,
            !final(self).is_initialized(),
            final(self).metadata_spec() == Seq::<(Seq<char>, Seq<char>)>::empty(),
            final(self).path_spec() == old(self).path_spec(),
            final(self).spec_id() == old(self).spec_id(),
            final(self).ops_spec() == old(self).ops_spec(),
            final(self).dims() == old(self).dims(),
    {
        let old_model = self.model;
        self.model = None;
        self.ctx = None;
        self.initialized = false;
        self.model_metadata.clear();
        proof {
            assert(self.metadata_spec() =~= Seq::<(Seq<char>, Seq<char>)>::empty());
        }
        old_model
    }

    /// Record a model that llama.cpp loaded from `path`: its handle, its
    /// dimensions, and the name and path it reported (each kept in the
    /// metadata under "name" and "path" when present).
    pub fn finish_load(
        &mut self,
        path: &str,
        model: usize,
        vocab_size: usize,
        n_layers: usize,
        n_embd: usize,
        reported_name: Option<String>,
        reported_path: Option<String>,
    )
        requires
            old(self).metadata_spec() == Seq::<(Seq<char>, Seq<char>)>::empty(),
        ensures
            final(self).path_spec() == Some(path@),
            final(self).model_spec() == Some(model),
            final(self).dims() == (vocab_size, n_layers, n_embd),
            final(self).ctx_spec() == old(self).ctx_spec(),
            final(self).is_initialized() == old(self).is_initialized(),
            final(self).spec_id() == old(self).spec_id(),
            final(self).ops_spec() == old(self).ops_spec(),
            final(self).metadata_spec() == reported_entry("name"@, reported_name)
                + reported_entry("path"@, reported_path),
    {
        proof {
            reveal_strlit("name");
            reveal_strlit("path");
        }
        let ghost name_part: Seq<(Seq<char>, Seq<char>)> = reported_entry("name"@, reported_name);
        let ghost path_part: Seq<(Seq<char>, Seq<char>)> = reported_entry("path"@, reported_path);
        match reported_name {
            Some(n) => {
                self.model_metadata.push((String::from_str("name"), n));
            },
            None => {},
        }
        proof {
            assert(self.metadata_spec() =~= name_part);
        }
        match reported_path {
            Some(p) => {
                self.model_metadata.push((String::from_str("path"), p));
            },
            None => {},
        }
        proof {
            assert(self.metadata_spec() =~= name_part + path_part);
        }
        self.model_path = Some(path.to_owned());
        self.model = Some(model);
        self.vocab_size = vocab_size;
        self.n_layers = n_layers;
        self.n_embd = n_embd;
    }

    /// The context handle, if any.
    pub fn context_handle(&self) -> (r: Option<usize>)
        ensures
            r == self.ctx_spec(),
    {
        self.ctx
    }

    /// The model handle, if any.
    pub fn model_handle(&self) -> (r: Option<usize>)
        ensures
            r == self.model_spec(),
    {
        self.model
    }

    /// Record the context llama.cpp created; the backend is initialised.
    pub fn set_context(&mut self, ctx: usize)
        ensures
            final(self).ctx_spec() == Some(ctx),
            final(self).is_initialized(),
            final(self).model_spec() == old(self).model_spec(),
            final(self).path_spec() == old(self).path_spec(),
            final(self).metadata_spec() == old(self).metadata_spec(),
            final(self).dims() == old(self).dims(),
    {
        self.ctx = Some(ctx);
        self.initialized = true;
    }

    /// Tear down: hand back the context and model handles for the caller to
    /// free, mark the backend uninitialised and forget the model file and
    /// metadata.
    pub fn take_handles(&mut self) -> (r: (Option<usize>, Option<usize>))
        ensures
            r == (old(self).ctx_spec(), old(self).model_spec()),
            final(self).ctx_spec() is None,
            final(self).model_spec() is None,
            !final(self).is_initialized(),
            final(self).path_spec() is None,
            final(self).metadata_spec() == Seq::<(Seq<char>, Seq<char>)>::empty(),
    {
        let ctx = self.ctx;
        let model = self.model;
        self.ctx = None;
        self.model = None;
        self.initialized = false;
        self.unmap_model();
        (ctx, model)
    }

    /// The model's vocabulary size.
    pub fn vocab_size(&self) -> (r: usize)
        ensures
            r == self.dims().0,
    {
        self.vocab_size
    }

    /// The model's layer count (0 before a model is loaded).
    pub fn n_layers(&self) -> (r: usize)
        ensures
            r == self.dims().1,
    {
        self.n_layers
    }

    /// The model's embedding width (0 before a model is loaded).
    pub fn n_embd(&self) -> (r: usize)
        ensures
            r == self.dims().2,
    {
        self.n_embd
    }

    /// The backend's identifier.
    pub fn id(&self) -> (r: BackendId)
        ensures
            r == self.spec_id(),
    {
        self.id
    }

    /// The backend's name.
    pub fn name(&self) -> (r: &str)
        ensures
            r@ == self.spec_name(),
    {
        self.name.as_str()
    }

    /// The supported operations.
    pub fn supported_ops(&self) -> (r: &[ArithmeticOp])
        ensures
            r@ == self.ops_spec(),
    {
        self.supported_ops.as_slice()
    }

    /// Whether the operation is supported.
    pub fn can_handle(&self, op: &ComputeOp, _operand_tiers: &[TierId]) -> (r: bool)
        ensures
            r == self.ops_spec().contains(op.operation),
    {
        let mut i: usize = 0;
        while i < self.supported_ops.len()
            invariant
                i <= self.supported_ops@.len(),
                forall|j: int| 0 <= j < i ==> self.supported_ops@[j] != op.operation,
            decreases self.supported_ops@.len() - i,
        {
            if self.supported_ops[i] == op.operation {
                assert(self.ops_spec()[i as int] == op.operation);
                return true;
            }
            i = i + 1;
        }
        false
    }

    /// What `execute` does with `op`: fail without a context, then without
    /// a model (or model file); otherwise sample, evaluate, normalise, or
    /// pass the first operand through.
    pub fn execution_step(&self, op: &ComputeOp) -> (r: LlamaStep)
        ensures
            r == llama_step(
                self.ctx_spec() is Some,
                self.model_spec() is Some && self.path_spec() is Some,
                op.operation,
            ),
    {
        if self.ctx.is_none() {
            return LlamaStep::NotInitialized;
        }
        if self.model.is_none() || self.model_path.is_none() {
            return LlamaStep::NoModel;
        }
        match op.operation {
            ArithmeticOp::SampleNextToken => LlamaStep::SampleNextToken,
            ArithmeticOp::QuantizedMatMul => LlamaStep::MatMul,
            ArithmeticOp::MatMul => LlamaStep::MatMul,
            ArithmeticOp::Softmax => LlamaStep::Softmax,
            ArithmeticOp::Attention => LlamaStep::Attention,
            _ => LlamaStep::PassThrough,
        }
    }

    /// Energy estimate from the model's size, at least 1.
    pub fn estimate_energy(&self, op: &ComputeOp, _operand_tiers: &[TierId]) -> (r: u64)
        requires
            self.dims().2 * self.dims().1 * 2 <= usize::MAX,
            self.dims().2 * 10 <= usize::MAX,
        ensures
            r == (if llama_energy_base(op.operation, self.dims().2 as int, self.dims().1 as int) >= 1 {
                llama_energy_base(op.operation, self.dims().2 as int, self.dims().1 as int)
            } else {
                1
            }),
    {
        let e = self.n_embd;
        let l = self.n_layers;
        proof {
            assert(e * l <= e * l * 2) by (nonlinear_arith);
        }
        let base: usize = match op.operation {
            ArithmeticOp::QuantizedMatMul => (e * l * 2) / 10,
            ArithmeticOp::MatMul => e * l,
            ArithmeticOp::Attention => e * l * 2,
            ArithmeticOp::SampleNextToken => e * 10,
            ArithmeticOp::Softmax => e,
            ArithmeticOp::LayerNorm => e,
            ArithmeticOp::RMSNorm => e,
            ArithmeticOp::RoPE => e,
            ArithmeticOp::SiLU => e,
            ArithmeticOp::GELU => e,
            ArithmeticOp::Add => e,
            ArithmeticOp::Mul => e,
            _ => 100,
        };
        let b = base as u64;
        if b >= 1 {
            b
        } else {
            1
        }
    }

    /// Latency estimate from the model's architecture, at least 1.
    pub fn estimate_latency_us(&self, op: &ComputeOp, _operand_tiers: &[TierId]) -> (r: u64)
        requires
            self.dims().1 * self.dims().2 * 2 <= usize::MAX,
            self.dims().1 * 100 <= usize::MAX,
        ensures
            r == (if llama_latency_base(op.operation, self.dims().2 as int, self.dims().1 as int) >= 1 {
                llama_latency_base(op.operation, self.dims().2 as int, self.dims().1 as int)
            } else {
                1
            }),
    {
        let e = self.n_embd;
        let l = self.n_layers;
        proof {
            assert(l * e <= l * e * 2) by (nonlinear_arith);
        }
        let base: usize = match op.operation {
            ArithmeticOp::QuantizedMatMul => (l * e * 2) / 100,
            ArithmeticOp::MatMul => l * e,
            ArithmeticOp::Attention => l * e * 2,
            ArithmeticOp::SampleNextToken => l * 100,
            ArithmeticOp::Softmax => l * 10,
            ArithmeticOp::LayerNorm => l * 5,
            ArithmeticOp::RMSNorm => l * 5,
            ArithmeticOp::RoPE => l * 10,
            ArithmeticOp::SiLU => l * 5,
            ArithmeticOp::GELU => l * 5,
            ArithmeticOp::Add => l,
            ArithmeticOp::Mul => l,
            _ => 100,
        };
        let b = base as u64;
        if b >= 1 {
            b
        } else {
            1
        }
    }
}

impl Default for LlamaCppBackend {
    /// The same as `LlamaCppBackend::new()`.
    fn default() -> (r: Self)
        ensures
            r.spec_id() == BackendId(0),
            r.model_spec() is None,
            r.ctx_spec() is None,
            !r.is_initialized(),
    {
        Self::new()
    }
}

} // verus!
