//! The numbers that the kernels use are those of the model, and those of the file it
//! came from.
use vstd::prelude::*;
use vstd::string::*;

use crate::config::ModelConfig;
use crate::gguf::arch::GgufArch;
use crate::gguf::keys::{says_what_is_stated, states_number};
use crate::gguf::layout::FileView;
use crate::gpu::geometry::Dims;
use crate::gpu::session::{counts_fit, geo_from};
use crate::gpu::window::WindowCfg;

verus! {

/// The geometry of a session has the numbers of its model.
pub proof fn lemma_geometry_has_the_models_numbers(
    cfg: ModelConfig,
    dims: Dims,
    max_seq: usize,
    win: Option<WindowCfg>,
    base: u64,
)
    requires
        counts_fit(cfg, dims, max_seq),
    ensures
        ({
            let g = geo_from(cfg, dims, max_seq, win, base);
            &&& g.hidden == cfg.hidden_size && g.inter == cfg.intermediate_size && g.vocab == cfg.vocab_size
            &&& g.heads == cfg.num_attention_heads && g.kv_heads == cfg.num_key_value_heads
            &&& g.head_dim == dims.head_dim && g.rot_dim == dims.rot_dim
            &&& g.q_dim == dims.q_dim && g.kv_dim == dims.kv_dim && g.q_proj_dim == dims.q_proj_dim
            &&& g.max_seq == max_seq && g.kv_base == base && g.win == win
        }),
{
}

/// The geometry of a session over a GGUF file has the numbers that the file states.
pub proof fn lemma_geometry_has_the_files_numbers(
    f: FileView,
    cfg: ModelConfig,
    a: GgufArch,
    dims: Dims,
    max_seq: usize,
    win: Option<WindowCfg>,
    base: u64,
)
    requires
        says_what_is_stated(f, cfg, a),
        counts_fit(cfg, dims, max_seq),
    ensures
        ({
            let g = geo_from(cfg, dims, max_seq, win, base);
            &&& states_number(f.meta, a.arch@ + ".embedding_length"@, g.hidden as nat)
            &&& states_number(f.meta, a.arch@ + ".feed_forward_length"@, g.inter as nat)
            &&& states_number(f.meta, a.arch@ + ".attention.head_count"@, g.heads as nat)
            &&& states_number(f.meta, a.arch@ + ".attention.head_count_kv"@, g.kv_heads as nat)
        }),
{
}

} // verus!
