//! How an engine is set up.

use std::path::PathBuf;

use vstd::prelude::*;

verus! {

/// `std::path::PathBuf`, carried through and never looked into.
#[verifier::external_type_specification]
#[verifier::external_body]
pub struct ExPathBuf(PathBuf);

/// `PathBuf::clone`. Nothing is claimed of the copy.
pub assume_specification[ <PathBuf as Clone>::clone ](path: &PathBuf) -> PathBuf;

pub const DEFAULT_REPO: &'static str = "unsloth/Qwen3.5-0.8B-GGUF";

pub const DEFAULT_FILE: &'static str = "Qwen3.5-0.8B-Q4_K_M.gguf";

/// The smallest batch the engine allocates.
pub const MIN_BATCH: u32 = 512;

/// Where to get the model from.
#[derive(Debug, Clone)]
pub enum ModelSource {
    /// A GGUF file already on disk.
    Local(PathBuf),
    /// A file in a Hugging Face repo, resolved through the shared HF cache.
    HuggingFace { repo: String, file: String },
}

impl ModelSource {
    /// A local file where one is given, the repo otherwise.
    pub fn select(local: Option<PathBuf>, repo: String, file: String) -> (source: ModelSource)
        ensures
            source == match local {
                Some(path) => ModelSource::Local(path),
                None => ModelSource::HuggingFace { repo, file },
            },
    {
        match local {
            Some(path) => ModelSource::Local(path),
            None => ModelSource::HuggingFace { repo, file },
        }
    }
}

#[derive(Debug, Clone)]
pub struct EngineConfig {
    pub model: ModelSource,
    /// Context available to each slot.
    pub n_ctx: u32,
    /// Layers to offload. Clamped to the model's real layer count.
    pub n_gpu_layers: u32,
    /// How many generations run at once. This is the number a scheduler sizes
    /// its queue against, so it must mean concurrency and not queue length.
    pub max_inflight: usize,
    /// How many requests may wait for a slot before a submission is refused.
    /// Backpressure of last resort: a caller with a queue of its own should be
    /// reading the capacity long before this bites.
    pub queue_depth: usize,
    /// Route llama.cpp's own logs into `tracing`.
    pub native_logs: bool,
}

impl Default for EngineConfig {
    fn default() -> (config: Self)
        ensures
            config.model matches ModelSource::HuggingFace { repo, file } && repo@
                == "unsloth/Qwen3.5-0.8B-GGUF"@ && file@ == "Qwen3.5-0.8B-Q4_K_M.gguf"@,
            config.n_ctx == 8192,
            config.n_gpu_layers == 99,
            config.max_inflight == 1,
            config.queue_depth == 32,
            config.native_logs,
    {
        EngineConfig {
            model: ModelSource::HuggingFace {
                repo: DEFAULT_REPO.to_owned(),
                file: DEFAULT_FILE.to_owned(),
            },
            n_ctx: 8192,
            n_gpu_layers: 99,
            max_inflight: 1,
            queue_depth: 32,
            native_logs: true,
        }
    }
}

/// Sizes of the shared context and its batch.
#[derive(Debug, Clone, Copy, PartialEq, Eq, Structural)]
pub struct ContextPlan {
    /// Total context across all sequences.
    pub total_ctx: u32,
    pub n_seq_max: u32,
    /// Tokens one batch can hold.
    pub n_batch: u32,
}

impl EngineConfig {
    /// How many slots an engine with this configuration has.
    pub open spec fn spec_slots(&self) -> nat {
        if self.max_inflight == 0 {
            1
        } else {
            self.max_inflight as nat
        }
    }

    /// At least one slot, whatever was asked for.
    pub fn slots(&self) -> (slots: usize)
        ensures
            slots == self.spec_slots(),
            self.max_inflight == 0 ==> slots == 1,
            self.max_inflight >= 1 ==> slots == self.max_inflight,
    {
        if self.max_inflight == 0 {
            1
        } else {
            self.max_inflight
        }
    }

    /// How many requests may wait. A queue shorter than the slot count would
    /// refuse work the engine has room for, so the queue is at least as deep
    /// as the engine is wide.
    pub fn waiting_room(&self) -> (depth: usize)
        ensures
            depth == if self.queue_depth < self.spec_slots() {
                self.spec_slots()
            } else {
                self.queue_depth as nat
            },
            depth >= self.spec_slots(),
            depth >= self.queue_depth && depth >= self.max_inflight && depth >= 1,
            depth == self.queue_depth || depth == self.max_inflight || depth == 1,
    {
        let slots = self.slots();
        if self.queue_depth < slots {
            slots
        } else {
            self.queue_depth
        }
    }

    /// Context is per slot, so the shared window is the sum. A prefill may be
    /// as long as one slot's window, so the batch has to hold that many tokens
    /// even though a decode step only needs one per slot.
    pub fn context_plan(&self) -> (plan: ContextPlan)
        requires
            self.max_inflight <= u32::MAX,
        ensures
            plan.total_ctx == if self.n_ctx * self.spec_slots() > u32::MAX {
                u32::MAX as int
            } else {
                self.n_ctx * self.spec_slots()
            },
            plan.n_seq_max == self.spec_slots(),
            plan.n_batch == if self.n_ctx < 512 {
                512
            } else {
                self.n_ctx
            },
            self.max_inflight >= 1 ==> plan.n_seq_max == self.max_inflight,
            self.max_inflight == 0 ==> plan.n_seq_max == 1,
            self.n_ctx * plan.n_seq_max <= u32::MAX ==> plan.total_ctx == self.n_ctx
                * plan.n_seq_max,
            self.n_ctx * plan.n_seq_max > u32::MAX ==> plan.total_ctx == u32::MAX,
    {
        let slots = self.slots() as u32;
        let total_ctx = match self.n_ctx.checked_mul(slots) {
            Some(total) => total,
            None => u32::MAX,
        };
        ContextPlan {
            total_ctx,
            n_seq_max: slots,
            n_batch: if self.n_ctx < MIN_BATCH {
                MIN_BATCH
            } else {
                self.n_ctx
            },
        }
    }
}

/// What a loaded model says about itself.
#[derive(Debug, Clone)]
pub struct ModelInfo {
    pub path: PathBuf,
    pub n_params: u64,
    pub n_layer: u32,
    pub n_ctx: u32,
}

/// An engine runs as many generations at once as it is set up for, and at least
/// one.
pub proof fn an_engine_has_the_slots_it_was_set_up_with(config: EngineConfig)
    ensures
        config.spec_slots() >= 1,
        config.max_inflight >= 1 ==> config.spec_slots() == config.max_inflight,
        config.max_inflight == 0 ==> config.spec_slots() == 1,
{
}

} // verus!
