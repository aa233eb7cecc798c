//! The choice of a compute backend, and the row of a batched decode step.
use vstd::prelude::*;
use vstd::string::*;

use crate::text::same;

verus! {

/// One active request's part in a batched decode step.
#[derive(Debug, Clone, Copy, PartialEq, Eq, Structural)]
pub struct BatchRow {
    pub token: u32,
    pub pos: usize,
    pub slot: usize,
}

/// The options of the low-memory backend; `None` is an option's default.
#[derive(Debug, Clone, Copy)]
pub struct LowMemOpts {
    pub memory_budget_mb: Option<usize>,
    pub context_window: Option<usize>,
    pub attention_sink: Option<usize>,
}

impl Default for LowMemOpts {
    fn default() -> (r: Self)
        ensures
            r.memory_budget_mb is None,
            r.context_window is None,
            r.attention_sink is None,
    {
        LowMemOpts { memory_budget_mb: None, context_window: None, attention_sink: None }
    }
}

/// A backend that runs a loaded model.
#[derive(Debug, Clone, Copy, PartialEq, Eq, Structural)]
pub enum Backend {
    Cpu,
    Metal,
    Hybrid,
}

/// The backend of a name on a machine with or without Metal. The reference
/// backend has no attention window.
pub open spec fn backend_of(name: Seq<char>, windowed: bool, metal: bool) -> Result<Backend, Seq<char>> {
    if name == "cpu"@ {
        if windowed {
            Err(
                "--context-window needs a GPU-windowed backend — use -b metal, -b hybrid, or -b lowmem"@,
            )
        } else {
            Ok(Backend::Cpu)
        }
    } else if metal && name == "metal"@ {
        Ok(Backend::Metal)
    } else if metal && (name == "hybrid"@ || name == "ane"@) {
        Ok(Backend::Hybrid)
    } else {
        Err(
            "unknown backend \""@ + name + "\" — available: cpu"@ + (if metal {
                ", metal, hybrid, lowmem"@
            } else {
                ""@
            }),
        )
    }
}

/// Chooses a backend by name.
pub fn create(backend: &str, windowed: bool, metal: bool) -> (r: Result<Backend, String>)
    ensures
        match r {
            Ok(b) => backend_of(backend@, windowed, metal) == Ok::<Backend, Seq<char>>(b),
            Err(e) => backend_of(backend@, windowed, metal) == Err::<Backend, Seq<char>>(e@),
        },
{
    if same(backend, "cpu") {
        if windowed {
            return Err(
                "--context-window needs a GPU-windowed backend — use -b metal, -b hybrid, or -b lowmem".to_owned(),
            );
        }
        return Ok(Backend::Cpu);
    }
    if metal {
        if same(backend, "metal") {
            return Ok(Backend::Metal);
        }
        // "ane" is an older name of the hybrid backend.
        if same(backend, "hybrid") || same(backend, "ane") {
            return Ok(Backend::Hybrid);
        }
    }
    let mut e = "unknown backend \"".to_owned();
    e.append(backend);
    e.append("\" — available: cpu");
    e.append(if metal { ", metal, hybrid, lowmem" } else { "" });
    Err(e)
}

/// Whether the low-memory backend can run here.
pub fn create_lowmem(metal: bool) -> (r: Result<(), String>)
    ensures
        match r {
            Ok(_) => metal,
            Err(e) => !metal && e@ == "the lowmem backend needs Metal — macOS only"@,
        },
{
    if metal {
        Ok(())
    } else {
        Err("the lowmem backend needs Metal — macOS only".to_owned())
    }
}

/// Whether a quantized file can run without being expanded here.
pub fn create_metal_quant(metal: bool) -> (r: Result<(), String>)
    ensures
        match r {
            Ok(_) => metal,
            Err(e) => !metal && e@ == "quantized GGUF execution needs Metal — macOS only"@,
        },
{
    if metal {
        Ok(())
    } else {
        Err("quantized GGUF execution needs Metal — macOS only".to_owned())
    }
}

} // verus!
