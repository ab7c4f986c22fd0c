//! The uniform execution contract every backend is measured through.
//!
//! A backend runs one (bytecode, calldata, gas limit) call against fresh
//! state and reports an [`EvmResult`]. A revert or halt is a valid outcome
//! with `success == false`; only an infrastructure fault (a crash, a
//! malformed payload) is an [`ExecutionError`]. The two must never be
//! conflated: the first is a recordable sample, the second aborts one run.

use vstd::prelude::*;

verus! {

/// The outcome of one execution: the measured unit's own report.
#[derive(Debug, Clone)]
pub struct EvmResult {
    /// Whether the call completed without reverting or halting.
    pub success: bool,
    /// Gas consumed by the call.
    pub gas_used: u64,
    /// Bytes the call returned.
    pub output: Vec<u8>,
    /// Log lines the backend chose to surface.
    pub logs: Vec<String>,
}

/// An infrastructure fault in a backend: the run produced no valid outcome.
#[derive(Debug, Clone)]
pub struct ExecutionError {
    /// What the backend reported.
    pub message: String,
}

/// A pluggable execution engine. Implementations wrap a concrete virtual
/// machine; each call must start from fresh, isolated state, so that no run
/// observes mutations made by a prior run.
pub trait EvmExecutor {
    /// Run the bytecode once with the given calldata and gas limit.
    fn execute(
        &mut self,
        bytecode: Vec<u8>,
        calldata: Vec<u8>,
        gas_limit: u64,
    ) -> Result<EvmResult, ExecutionError>;

    /// The backend identifier this executor answers to.
    fn name(&self) -> String;
}

/// A raw engine report that counts gas remaining rather than gas consumed.
#[derive(Debug, Clone)]
pub struct ExecutionResult {
    /// Whether the call completed without reverting or halting.
    pub success: bool,
    /// Gas consumed, where the engine reports it directly; zero otherwise.
    pub gas_used: u64,
    /// Gas left over from the limit the call was given.
    pub gas_left: u64,
    /// Bytes the call returned.
    pub output: Vec<u8>,
}

impl ExecutionResult {
    /// Convert to the uniform outcome, deriving gas consumed from the gas
    /// limit the call was given. A report of more gas left than the limit
    /// counts as zero gas consumed rather than wrapping.
    pub fn to_evm_result(self, gas_limit: u64) -> (r: EvmResult)
        ensures
            r.success == self.success,
            r.gas_used == if self.gas_left <= gas_limit {
                (gas_limit - self.gas_left) as u64
            } else {
                0u64
            },
            r.output == self.output,
            r.logs@.len() == 0,
    {
        let gas_used = if self.gas_left <= gas_limit {
            gas_limit - self.gas_left
        } else {
            0
        };
        EvmResult { success: self.success, gas_used, output: self.output, logs: Vec::new() }
    }
}

} // verus!
