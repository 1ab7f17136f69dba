//! The one tenant of the first configurations.

use vstd::prelude::*;

use crate::config::Config;
use crate::eviction::memory_free;
use crate::gpu::{GpuError, GpuMemory};

verus! {

/// Why Ollama was not driven.
#[derive(Debug, Clone, PartialEq, Eq)]
pub enum OllamaError {
    /// `systemctl` failed.
    Systemctl {
        /// The verb.
        action: String,
        /// The unit.
        unit: String,
        /// What it said.
        detail: String,
    },
    /// The GPU could not be read.
    Gpu(GpuError),
}

impl OllamaError {
    /// What the error says.
    pub open spec fn text(self) -> Seq<char> {
        match self {
            OllamaError::Systemctl { action, unit, detail } => "systemctl "@ + action@ + " "@ + unit@
                + " failed: "@ + detail@,
            OllamaError::Gpu(e) => "gpu query during eviction: "@ + e.text(),
        }
    }

    /// What the error says.
    pub fn message(&self) -> (r: String)
        ensures
            r@ == self.text(),
    {
        match self {
            OllamaError::Systemctl { action, unit, detail } => {
                let mut o: String = "systemctl ".to_owned();
                o.append(action.as_str());
                o.append(" ");
                o.append(unit.as_str());
                o.append(" failed: ");
                o.append(detail.as_str());
                o
            },
            OllamaError::Gpu(e) => {
                let mut o: String = "gpu query during eviction: ".to_owned();
                o.append(e.message().as_str());
                o
            },
        }
    }
}

/// How an eviction of Ollama ended.
#[derive(Debug, Clone, Copy, PartialEq, Eq, Structural)]
pub enum EvictionOutcome {
    /// It was stopped and let go in time.
    Freed,
    /// It was killed.
    Escalated,
    /// It did not run.
    AlreadyClear,
}

/// Whether so little VRAM is in use that Ollama has let go.
pub fn vram_is_free(mem: GpuMemory, cfg: &Config) -> (r: bool)
    ensures
        r == memory_free(mem, cfg@),
{
    crate::eviction::vram_is_free(mem, cfg)
}

} // verus!
