//! Where every tensor of a checkpoint goes: each buffer of a model has one name,
//! and holds the tensor of that name.
use vstd::prelude::*;
use vstd::string::*;

use crate::gguf::arch::{after_prefix, hf, hf_block, hf_part};
use crate::gpu::linear_block::DeltaGeo;
use crate::gpu::load::{
    ItemView, SourceView, Want, all_items, block_of, common_items, found, full_items, linear_items, part_name, present,
    source_name, trunk_items, with_bias, with_matrix, with_vector,
};
use crate::gpu::ops::{Buf, Geo, NormId, Proj, SmallId};
use crate::gpu::quant::{QuantAttn, QuantBlock};
use crate::gpu::timing::{NO_SELECTOR, SrcType};
use crate::text::{dec, is_digit, lemma_dec_digits, lemma_parse_dec, rsplit_once, split_once};

verus! {

/// A tensor of layer `i`.
pub open spec fn of_layer(i: usize, rest: Seq<char>) -> Seq<char> {
    "model.layers."@ + dec(i as nat) + "."@ + rest
}

/// The tensor that a weight holds.
pub open spec fn weight_name(i: usize, p: Proj, tied: bool) -> Seq<char> {
    match p {
        Proj::Q => of_layer(i, "self_attn.q_proj.weight"@),
        Proj::K => of_layer(i, "self_attn.k_proj.weight"@),
        Proj::V => of_layer(i, "self_attn.v_proj.weight"@),
        Proj::O => of_layer(i, "self_attn.o_proj.weight"@),
        Proj::Gate => of_layer(i, "mlp.gate_proj.weight"@),
        Proj::Up => of_layer(i, "mlp.up_proj.weight"@),
        Proj::Down => of_layer(i, "mlp.down_proj.weight"@),
        Proj::DnQkv => of_layer(i, "gguf.attn_qkv.weight"@),
        Proj::DnZ => of_layer(i, "gguf.attn_gate.weight"@),
        Proj::DnOut => of_layer(i, "gguf.ssm_out.weight"@),
        Proj::DnAlpha => of_layer(i, "gguf.ssm_alpha.weight"@),
        Proj::DnBeta => of_layer(i, "gguf.ssm_beta.weight"@),
        Proj::Head => if tied {
            "model.embed_tokens.weight"@
        } else {
            "lm_head.weight"@
        },
    }
}

/// The tensor that a bias holds.
pub open spec fn bias_name(i: usize, p: Proj, tied: bool) -> Seq<char> {
    match p {
        Proj::Q => of_layer(i, "self_attn.q_proj.bias"@),
        Proj::K => of_layer(i, "self_attn.k_proj.bias"@),
        Proj::V => of_layer(i, "self_attn.v_proj.bias"@),
        Proj::O => of_layer(i, "self_attn.o_proj.bias"@),
        Proj::Gate => of_layer(i, "mlp.gate_proj.bias"@),
        Proj::Up => of_layer(i, "mlp.up_proj.bias"@),
        Proj::Down => of_layer(i, "mlp.down_proj.bias"@),
        Proj::DnQkv => of_layer(i, "gguf.attn_qkv.bias"@),
        Proj::DnZ => of_layer(i, "gguf.attn_gate.bias"@),
        Proj::DnOut => of_layer(i, "gguf.ssm_out.bias"@),
        Proj::DnAlpha => of_layer(i, "gguf.ssm_alpha.bias"@),
        Proj::DnBeta => of_layer(i, "gguf.ssm_beta.bias"@),
        Proj::Head => if tied {
            "model.embed_tokens.bias"@
        } else {
            "lm_head.bias"@
        },
    }
}

/// The tensor that a buffer of a model holds. A hybrid names its second norm
/// otherwise, and a model without a head of its own has the embedding's.
pub open spec fn home_of(b: Buf, hybrid: bool, tied: bool) -> Option<Seq<char>> {
    match b {
        Buf::Weight(i, p) => Some(weight_name(i, p, tied)),
        Buf::Bias(i, p) => Some(bias_name(i, p, tied)),
        Buf::Norm(i, NormId::Input) => Some(of_layer(i, "input_layernorm.weight"@)),
        Buf::Norm(i, NormId::Post) => Some(
            of_layer(
                i,
                if hybrid {
                    "gguf.post_attention_norm.weight"@
                } else {
                    "post_attention_layernorm.weight"@
                },
            ),
        ),
        Buf::Norm(i, NormId::QHead) => Some(of_layer(i, "self_attn.q_norm.weight"@)),
        Buf::Norm(i, NormId::KHead) => Some(of_layer(i, "self_attn.k_norm.weight"@)),
        Buf::Norm(_, NormId::Final) => Some("model.norm.weight"@),
        Buf::Small(i, SmallId::Conv1d) => Some(of_layer(i, "gguf.ssm_conv1d.weight"@)),
        Buf::Small(i, SmallId::A) => Some(of_layer(i, "gguf.ssm_a"@)),
        Buf::Small(i, SmallId::DtBias) => Some(of_layer(i, "gguf.ssm_dt.bias"@)),
        Buf::Small(i, SmallId::SsmNorm) => Some(of_layer(i, "gguf.ssm_norm.weight"@)),
        _ => None,
    }
}

/// What a matrix maps from and to.
pub open spec fn shape_of(p: Proj, g: Geo, d: DeltaGeo) -> (u32, u32) {
    match p {
        Proj::Q => (g.hidden, g.q_proj_dim),
        Proj::K => (g.hidden, g.kv_dim),
        Proj::V => (g.hidden, g.kv_dim),
        Proj::O => (g.q_dim, g.hidden),
        Proj::Gate => (g.hidden, g.inter),
        Proj::Up => (g.hidden, g.inter),
        Proj::Down => (g.inter, g.hidden),
        Proj::DnQkv => (g.hidden, d.channels),
        Proj::DnZ => (g.hidden, d.inner),
        Proj::DnOut => (d.inner, g.hidden),
        Proj::DnAlpha => (g.hidden, d.n_v_heads),
        Proj::DnBeta => (g.hidden, d.n_v_heads),
        Proj::Head => (g.hidden, g.vocab),
    }
}

/// Layer `i` is a linear block.
pub open spec fn is_linear(h: Option<(Seq<bool>, DeltaGeo)>, i: int) -> bool {
    h is Some && h->Some_0.0[i]
}

/// The buffers of a model of so many layers that hold a tensor.
pub open spec fn has_home(b: Buf, h: Option<(Seq<bool>, DeltaGeo)>, layers: nat) -> bool {
    match b {
        Buf::Weight(i, p) | Buf::Bias(i, p) => match p {
            Proj::Head => i == layers,
            Proj::Gate | Proj::Up | Proj::Down => i < layers,
            Proj::Q | Proj::K | Proj::V | Proj::O => i < layers && !is_linear(h, i as int),
            _ => i < layers && is_linear(h, i as int),
        },
        Buf::Norm(i, NormId::Final) => i == layers,
        Buf::Norm(i, NormId::Input) | Buf::Norm(i, NormId::Post) => i < layers,
        Buf::Norm(i, _) => i < layers && !is_linear(h, i as int),
        Buf::Small(i, _) => i < layers && is_linear(h, i as int),
        _ => false,
    }
}

/// What the buffer's tensor must be.
pub open spec fn fits(b: Buf, want: Want, g: Geo, h: Option<(Seq<bool>, DeltaGeo)>) -> bool {
    match b {
        Buf::Weight(_, p) => want matches Want::Matrix { in_dim, out_dim } && forall|d: DeltaGeo|
            (h matches Some(x) ==> x.1 == d) ==> #[trigger] shape_of(p, g, d) == (in_dim, out_dim),
        Buf::Bias(..) | Buf::Norm(_, NormId::QHead) | Buf::Norm(_, NormId::KHead) => want is MaybeVector,
        _ => want is Vector,
    }
}

/// The tensor that an item takes.
pub open spec fn tensor_of(it: ItemView) -> Seq<char> {
    if it.want is Matrix {
        it.name + ".weight"@
    } else {
        it.name
    }
}

/// An item takes the tensor of its buffer.
pub open spec fn at_home(it: ItemView, g: Geo, h: Option<(Seq<bool>, DeltaGeo)>, layers: nat, tied: bool) -> bool {
    &&& has_home(it.dest, h, layers)
    &&& home_of(it.dest, h is Some, tied) == Some(tensor_of(it))
    &&& fits(it.dest, it.want, g, h)
}

/// An item of the list fills the buffer.
pub open spec fn filled(s: Seq<ItemView>, b: Buf) -> bool {
    exists|k: int| 0 <= k < s.len() && (#[trigger] s[k]).dest == b
}

spec fn all_home(s: Seq<ItemView>, g: Geo, h: Option<(Seq<bool>, DeltaGeo)>, layers: nat, tied: bool) -> bool {
    forall|k: int| 0 <= k < s.len() ==> at_home(#[trigger] s[k], g, h, layers, tied)
}

spec fn grown(s: Seq<ItemView>, t: Seq<ItemView>) -> bool {
    forall|b: Buf| #[trigger] filled(s, b) ==> filled(t, b)
}

proof fn lemma_pushed(s: Seq<ItemView>, it: ItemView, g: Geo, h: Option<(Seq<bool>, DeltaGeo)>, layers: nat, tied: bool)
    requires
        all_home(s, g, h, layers, tied),
        at_home(it, g, h, layers, tied),
    ensures
        all_home(s.push(it), g, h, layers, tied),
        filled(s.push(it), it.dest),
        grown(s, s.push(it)),
{
    let t = s.push(it);
    assert(t[s.len() as int] == it);
    assert forall|b: Buf| #[trigger] filled(s, b) implies filled(t, b) by {
        let k = choose|k: int| 0 <= k < s.len() && (#[trigger] s[k]).dest == b;
        assert(t[k].dest == b);
    }
}

proof fn lemma_bias_pushed(
    s: Seq<ItemView>,
    name: Seq<char>,
    i: usize,
    p: Proj,
    a: u32,
    b: u32,
    g: Geo,
    h: Option<(Seq<bool>, DeltaGeo)>,
    layers: nat,
    tied: bool,
)
    requires
        all_home(s, g, h, layers, tied),
        name + ".weight"@ == weight_name(i, p, tied),
        name + ".bias"@ == bias_name(i, p, tied),
        has_home(Buf::Weight(i, p), h, layers),
        forall|d: DeltaGeo| (h matches Some(x) ==> x.1 == d) ==> #[trigger] shape_of(p, g, d) == (a, b),
    ensures
        all_home(with_bias(s, name, i, p, a, b), g, h, layers, tied),
        filled(with_bias(s, name, i, p, a, b), Buf::Weight(i, p)),
        filled(with_bias(s, name, i, p, a, b), Buf::Bias(i, p)),
        grown(s, with_bias(s, name, i, p, a, b)),
{
    let x = ItemView { name, dest: Buf::Weight(i, p), want: Want::Matrix { in_dim: a, out_dim: b } };
    let y = ItemView { name: name + ".bias"@, dest: Buf::Bias(i, p), want: Want::MaybeVector };
    lemma_pushed(s, x, g, h, layers, tied);
    lemma_pushed(s.push(x), y, g, h, layers, tied);
}

proof fn lemma_of_layer(i: usize, part: Seq<char>, tail: Seq<char>, whole: Seq<char>)
    requires
        part + tail == whole,
    ensures
        part_name(i as nat, part) + tail == of_layer(i, whole),
{
    assert(part_name(i as nat, part) + tail =~= of_layer(i, whole));
}

/// The names of a matrix's weight and bias.
proof fn lemma_full_names(i: usize, tied: bool)
    ensures
        part_name(i as nat, "self_attn.q_proj"@) + ".weight"@ == weight_name(i, Proj::Q, tied),
        part_name(i as nat, "self_attn.q_proj"@) + ".bias"@ == bias_name(i, Proj::Q, tied),
        part_name(i as nat, "self_attn.k_proj"@) + ".weight"@ == weight_name(i, Proj::K, tied),
        part_name(i as nat, "self_attn.k_proj"@) + ".bias"@ == bias_name(i, Proj::K, tied),
        part_name(i as nat, "self_attn.v_proj"@) + ".weight"@ == weight_name(i, Proj::V, tied),
        part_name(i as nat, "self_attn.v_proj"@) + ".bias"@ == bias_name(i, Proj::V, tied),
        part_name(i as nat, "self_attn.o_proj"@) + ".weight"@ == weight_name(i, Proj::O, tied),
        part_name(i as nat, "self_attn.o_proj"@) + ".bias"@ == bias_name(i, Proj::O, tied),
{
    reveal_strlit(".weight");
    reveal_strlit(".bias");
    reveal_strlit("self_attn.q_proj");
    reveal_strlit("self_attn.q_proj.weight");
    reveal_strlit("self_attn.q_proj.bias");
    assert("self_attn.q_proj"@ + ".weight"@ =~= "self_attn.q_proj.weight"@);
    assert("self_attn.q_proj"@ + ".bias"@ =~= "self_attn.q_proj.bias"@);
    lemma_of_layer(i, "self_attn.q_proj"@, ".weight"@, "self_attn.q_proj.weight"@);
    lemma_of_layer(i, "self_attn.q_proj"@, ".bias"@, "self_attn.q_proj.bias"@);
    reveal_strlit("self_attn.k_proj");
    reveal_strlit("self_attn.k_proj.weight");
    reveal_strlit("self_attn.k_proj.bias");
    assert("self_attn.k_proj"@ + ".weight"@ =~= "self_attn.k_proj.weight"@);
    assert("self_attn.k_proj"@ + ".bias"@ =~= "self_attn.k_proj.bias"@);
    lemma_of_layer(i, "self_attn.k_proj"@, ".weight"@, "self_attn.k_proj.weight"@);
    lemma_of_layer(i, "self_attn.k_proj"@, ".bias"@, "self_attn.k_proj.bias"@);
    reveal_strlit("self_attn.v_proj");
    reveal_strlit("self_attn.v_proj.weight");
    reveal_strlit("self_attn.v_proj.bias");
    assert("self_attn.v_proj"@ + ".weight"@ =~= "self_attn.v_proj.weight"@);
    assert("self_attn.v_proj"@ + ".bias"@ =~= "self_attn.v_proj.bias"@);
    lemma_of_layer(i, "self_attn.v_proj"@, ".weight"@, "self_attn.v_proj.weight"@);
    lemma_of_layer(i, "self_attn.v_proj"@, ".bias"@, "self_attn.v_proj.bias"@);
    reveal_strlit("self_attn.o_proj");
    reveal_strlit("self_attn.o_proj.weight");
    reveal_strlit("self_attn.o_proj.bias");
    assert("self_attn.o_proj"@ + ".weight"@ =~= "self_attn.o_proj.weight"@);
    assert("self_attn.o_proj"@ + ".bias"@ =~= "self_attn.o_proj.bias"@);
    lemma_of_layer(i, "self_attn.o_proj"@, ".weight"@, "self_attn.o_proj.weight"@);
    lemma_of_layer(i, "self_attn.o_proj"@, ".bias"@, "self_attn.o_proj.bias"@);
}

/// The names of a matrix's weight and bias.
proof fn lemma_common_names(i: usize, tied: bool)
    ensures
        part_name(i as nat, "mlp.gate_proj"@) + ".weight"@ == weight_name(i, Proj::Gate, tied),
        part_name(i as nat, "mlp.gate_proj"@) + ".bias"@ == bias_name(i, Proj::Gate, tied),
        part_name(i as nat, "mlp.up_proj"@) + ".weight"@ == weight_name(i, Proj::Up, tied),
        part_name(i as nat, "mlp.up_proj"@) + ".bias"@ == bias_name(i, Proj::Up, tied),
        part_name(i as nat, "mlp.down_proj"@) + ".weight"@ == weight_name(i, Proj::Down, tied),
        part_name(i as nat, "mlp.down_proj"@) + ".bias"@ == bias_name(i, Proj::Down, tied),
{
    reveal_strlit(".weight");
    reveal_strlit(".bias");
    reveal_strlit("mlp.gate_proj");
    reveal_strlit("mlp.gate_proj.weight");
    reveal_strlit("mlp.gate_proj.bias");
    assert("mlp.gate_proj"@ + ".weight"@ =~= "mlp.gate_proj.weight"@);
    assert("mlp.gate_proj"@ + ".bias"@ =~= "mlp.gate_proj.bias"@);
    lemma_of_layer(i, "mlp.gate_proj"@, ".weight"@, "mlp.gate_proj.weight"@);
    lemma_of_layer(i, "mlp.gate_proj"@, ".bias"@, "mlp.gate_proj.bias"@);
    reveal_strlit("mlp.up_proj");
    reveal_strlit("mlp.up_proj.weight");
    reveal_strlit("mlp.up_proj.bias");
    assert("mlp.up_proj"@ + ".weight"@ =~= "mlp.up_proj.weight"@);
    assert("mlp.up_proj"@ + ".bias"@ =~= "mlp.up_proj.bias"@);
    lemma_of_layer(i, "mlp.up_proj"@, ".weight"@, "mlp.up_proj.weight"@);
    lemma_of_layer(i, "mlp.up_proj"@, ".bias"@, "mlp.up_proj.bias"@);
    reveal_strlit("mlp.down_proj");
    reveal_strlit("mlp.down_proj.weight");
    reveal_strlit("mlp.down_proj.bias");
    assert("mlp.down_proj"@ + ".weight"@ =~= "mlp.down_proj.weight"@);
    assert("mlp.down_proj"@ + ".bias"@ =~= "mlp.down_proj.bias"@);
    lemma_of_layer(i, "mlp.down_proj"@, ".weight"@, "mlp.down_proj.weight"@);
    lemma_of_layer(i, "mlp.down_proj"@, ".bias"@, "mlp.down_proj.bias"@);
}

/// The names of a matrix's weight and bias.
proof fn lemma_linear_names(i: usize, tied: bool)
    ensures
        part_name(i as nat, "gguf.attn_qkv"@) + ".weight"@ == weight_name(i, Proj::DnQkv, tied),
        part_name(i as nat, "gguf.attn_qkv"@) + ".bias"@ == bias_name(i, Proj::DnQkv, tied),
        part_name(i as nat, "gguf.attn_gate"@) + ".weight"@ == weight_name(i, Proj::DnZ, tied),
        part_name(i as nat, "gguf.attn_gate"@) + ".bias"@ == bias_name(i, Proj::DnZ, tied),
        part_name(i as nat, "gguf.ssm_out"@) + ".weight"@ == weight_name(i, Proj::DnOut, tied),
        part_name(i as nat, "gguf.ssm_out"@) + ".bias"@ == bias_name(i, Proj::DnOut, tied),
        part_name(i as nat, "gguf.ssm_alpha"@) + ".weight"@ == weight_name(i, Proj::DnAlpha, tied),
        part_name(i as nat, "gguf.ssm_alpha"@) + ".bias"@ == bias_name(i, Proj::DnAlpha, tied),
        part_name(i as nat, "gguf.ssm_beta"@) + ".weight"@ == weight_name(i, Proj::DnBeta, tied),
        part_name(i as nat, "gguf.ssm_beta"@) + ".bias"@ == bias_name(i, Proj::DnBeta, tied),
{
    reveal_strlit(".weight");
    reveal_strlit(".bias");
    reveal_strlit("gguf.attn_qkv");
    reveal_strlit("gguf.attn_qkv.weight");
    reveal_strlit("gguf.attn_qkv.bias");
    assert("gguf.attn_qkv"@ + ".weight"@ =~= "gguf.attn_qkv.weight"@);
    assert("gguf.attn_qkv"@ + ".bias"@ =~= "gguf.attn_qkv.bias"@);
    lemma_of_layer(i, "gguf.attn_qkv"@, ".weight"@, "gguf.attn_qkv.weight"@);
    lemma_of_layer(i, "gguf.attn_qkv"@, ".bias"@, "gguf.attn_qkv.bias"@);
    reveal_strlit("gguf.attn_gate");
    reveal_strlit("gguf.attn_gate.weight");
    reveal_strlit("gguf.attn_gate.bias");
    assert("gguf.attn_gate"@ + ".weight"@ =~= "gguf.attn_gate.weight"@);
    assert("gguf.attn_gate"@ + ".bias"@ =~= "gguf.attn_gate.bias"@);
    lemma_of_layer(i, "gguf.attn_gate"@, ".weight"@, "gguf.attn_gate.weight"@);
    lemma_of_layer(i, "gguf.attn_gate"@, ".bias"@, "gguf.attn_gate.bias"@);
    reveal_strlit("gguf.ssm_out");
    reveal_strlit("gguf.ssm_out.weight");
    reveal_strlit("gguf.ssm_out.bias");
    assert("gguf.ssm_out"@ + ".weight"@ =~= "gguf.ssm_out.weight"@);
    assert("gguf.ssm_out"@ + ".bias"@ =~= "gguf.ssm_out.bias"@);
    lemma_of_layer(i, "gguf.ssm_out"@, ".weight"@, "gguf.ssm_out.weight"@);
    lemma_of_layer(i, "gguf.ssm_out"@, ".bias"@, "gguf.ssm_out.bias"@);
    reveal_strlit("gguf.ssm_alpha");
    reveal_strlit("gguf.ssm_alpha.weight");
    reveal_strlit("gguf.ssm_alpha.bias");
    assert("gguf.ssm_alpha"@ + ".weight"@ =~= "gguf.ssm_alpha.weight"@);
    assert("gguf.ssm_alpha"@ + ".bias"@ =~= "gguf.ssm_alpha.bias"@);
    lemma_of_layer(i, "gguf.ssm_alpha"@, ".weight"@, "gguf.ssm_alpha.weight"@);
    lemma_of_layer(i, "gguf.ssm_alpha"@, ".bias"@, "gguf.ssm_alpha.bias"@);
    reveal_strlit("gguf.ssm_beta");
    reveal_strlit("gguf.ssm_beta.weight");
    reveal_strlit("gguf.ssm_beta.bias");
    assert("gguf.ssm_beta"@ + ".weight"@ =~= "gguf.ssm_beta.weight"@);
    assert("gguf.ssm_beta"@ + ".bias"@ =~= "gguf.ssm_beta.bias"@);
    lemma_of_layer(i, "gguf.ssm_beta"@, ".weight"@, "gguf.ssm_beta.weight"@);
    lemma_of_layer(i, "gguf.ssm_beta"@, ".bias"@, "gguf.ssm_beta.bias"@);
}

proof fn lemma_full_items(s: Seq<ItemView>, g: Geo, h: Option<(Seq<bool>, DeltaGeo)>, layers: nat, tied: bool, i: usize)
    requires
        all_home(s, g, h, layers, tied),
        i < layers,
        !is_linear(h, i as int),
    ensures
        all_home(full_items(s, g, i), g, h, layers, tied),
        grown(s, full_items(s, g, i)),
        filled(full_items(s, g, i), Buf::Weight(i, Proj::Q)),
        filled(full_items(s, g, i), Buf::Bias(i, Proj::Q)),
        filled(full_items(s, g, i), Buf::Weight(i, Proj::K)),
        filled(full_items(s, g, i), Buf::Bias(i, Proj::K)),
        filled(full_items(s, g, i), Buf::Weight(i, Proj::V)),
        filled(full_items(s, g, i), Buf::Bias(i, Proj::V)),
        filled(full_items(s, g, i), Buf::Weight(i, Proj::O)),
        filled(full_items(s, g, i), Buf::Bias(i, Proj::O)),
        filled(full_items(s, g, i), Buf::Norm(i, NormId::QHead)),
        filled(full_items(s, g, i), Buf::Norm(i, NormId::KHead)),
{
    lemma_full_names(i, tied);
    let s1 = with_matrix(s, i, "self_attn.q_proj"@, Proj::Q, g.hidden, g.q_proj_dim);
    lemma_bias_pushed(s, part_name(i as nat, "self_attn.q_proj"@), i, Proj::Q, g.hidden, g.q_proj_dim, g, h, layers, tied);
    let s2 = with_matrix(s1, i, "self_attn.k_proj"@, Proj::K, g.hidden, g.kv_dim);
    lemma_bias_pushed(s1, part_name(i as nat, "self_attn.k_proj"@), i, Proj::K, g.hidden, g.kv_dim, g, h, layers, tied);
    let s3 = with_matrix(s2, i, "self_attn.v_proj"@, Proj::V, g.hidden, g.kv_dim);
    lemma_bias_pushed(s2, part_name(i as nat, "self_attn.v_proj"@), i, Proj::V, g.hidden, g.kv_dim, g, h, layers, tied);
    let s4 = with_matrix(s3, i, "self_attn.o_proj"@, Proj::O, g.q_dim, g.hidden);
    lemma_bias_pushed(s3, part_name(i as nat, "self_attn.o_proj"@), i, Proj::O, g.q_dim, g.hidden, g, h, layers, tied);
    let s5 = with_vector(s4, i, "self_attn.q_norm.weight"@, Buf::Norm(i, NormId::QHead), Want::MaybeVector);
    lemma_pushed(s4, s5.last(), g, h, layers, tied);
    let s6 = with_vector(s5, i, "self_attn.k_norm.weight"@, Buf::Norm(i, NormId::KHead), Want::MaybeVector);
    lemma_pushed(s5, s6.last(), g, h, layers, tied);
    assert(s6 == full_items(s, g, i));
}

proof fn lemma_linear_items(s: Seq<ItemView>, g: Geo, h: Option<(Seq<bool>, DeltaGeo)>, layers: nat, tied: bool, i: usize)
    requires
        all_home(s, g, h, layers, tied),
        i < layers,
        is_linear(h, i as int),
    ensures
        all_home(linear_items(s, g, h->Some_0.1, i), g, h, layers, tied),
        grown(s, linear_items(s, g, h->Some_0.1, i)),
        filled(linear_items(s, g, h->Some_0.1, i), Buf::Weight(i, Proj::DnQkv)),
        filled(linear_items(s, g, h->Some_0.1, i), Buf::Bias(i, Proj::DnQkv)),
        filled(linear_items(s, g, h->Some_0.1, i), Buf::Weight(i, Proj::DnZ)),
        filled(linear_items(s, g, h->Some_0.1, i), Buf::Bias(i, Proj::DnZ)),
        filled(linear_items(s, g, h->Some_0.1, i), Buf::Weight(i, Proj::DnOut)),
        filled(linear_items(s, g, h->Some_0.1, i), Buf::Bias(i, Proj::DnOut)),
        filled(linear_items(s, g, h->Some_0.1, i), Buf::Weight(i, Proj::DnAlpha)),
        filled(linear_items(s, g, h->Some_0.1, i), Buf::Bias(i, Proj::DnAlpha)),
        filled(linear_items(s, g, h->Some_0.1, i), Buf::Weight(i, Proj::DnBeta)),
        filled(linear_items(s, g, h->Some_0.1, i), Buf::Bias(i, Proj::DnBeta)),
        filled(linear_items(s, g, h->Some_0.1, i), Buf::Small(i, SmallId::Conv1d)),
        filled(linear_items(s, g, h->Some_0.1, i), Buf::Small(i, SmallId::A)),
        filled(linear_items(s, g, h->Some_0.1, i), Buf::Small(i, SmallId::DtBias)),
        filled(linear_items(s, g, h->Some_0.1, i), Buf::Small(i, SmallId::SsmNorm)),
{
    let d = h->Some_0.1;
    lemma_linear_names(i, tied);
    let s1 = with_matrix(s, i, "gguf.attn_qkv"@, Proj::DnQkv, g.hidden, d.channels);
    lemma_bias_pushed(s, part_name(i as nat, "gguf.attn_qkv"@), i, Proj::DnQkv, g.hidden, d.channels, g, h, layers, tied);
    let s2 = with_matrix(s1, i, "gguf.attn_gate"@, Proj::DnZ, g.hidden, d.inner);
    lemma_bias_pushed(s1, part_name(i as nat, "gguf.attn_gate"@), i, Proj::DnZ, g.hidden, d.inner, g, h, layers, tied);
    let s3 = with_matrix(s2, i, "gguf.ssm_out"@, Proj::DnOut, d.inner, g.hidden);
    lemma_bias_pushed(s2, part_name(i as nat, "gguf.ssm_out"@), i, Proj::DnOut, d.inner, g.hidden, g, h, layers, tied);
    let s4 = with_matrix(s3, i, "gguf.ssm_alpha"@, Proj::DnAlpha, g.hidden, d.n_v_heads);
    lemma_bias_pushed(s3, part_name(i as nat, "gguf.ssm_alpha"@), i, Proj::DnAlpha, g.hidden, d.n_v_heads, g, h, layers, tied);
    let s5 = with_matrix(s4, i, "gguf.ssm_beta"@, Proj::DnBeta, g.hidden, d.n_v_heads);
    lemma_bias_pushed(s4, part_name(i as nat, "gguf.ssm_beta"@), i, Proj::DnBeta, g.hidden, d.n_v_heads, g, h, layers, tied);
    let s6 = with_vector(s5, i, "gguf.ssm_conv1d.weight"@, Buf::Small(i, SmallId::Conv1d), Want::Vector);
    lemma_pushed(s5, s6.last(), g, h, layers, tied);
    let s7 = with_vector(s6, i, "gguf.ssm_a"@, Buf::Small(i, SmallId::A), Want::Vector);
    lemma_pushed(s6, s7.last(), g, h, layers, tied);
    let s8 = with_vector(s7, i, "gguf.ssm_dt.bias"@, Buf::Small(i, SmallId::DtBias), Want::Vector);
    lemma_pushed(s7, s8.last(), g, h, layers, tied);
    let s9 = with_vector(s8, i, "gguf.ssm_norm.weight"@, Buf::Small(i, SmallId::SsmNorm), Want::Vector);
    lemma_pushed(s8, s9.last(), g, h, layers, tied);
    assert(s9 == linear_items(s, g, h->Some_0.1, i));
}

proof fn lemma_common_items(s: Seq<ItemView>, g: Geo, h: Option<(Seq<bool>, DeltaGeo)>, layers: nat, tied: bool, i: usize)
    requires
        all_home(s, g, h, layers, tied),
        i < layers,
    ensures
        all_home(common_items(s, g, h is Some, i), g, h, layers, tied),
        grown(s, common_items(s, g, h is Some, i)),
        filled(common_items(s, g, h is Some, i), Buf::Norm(i, NormId::Input)),
        filled(common_items(s, g, h is Some, i), Buf::Norm(i, NormId::Post)),
        filled(common_items(s, g, h is Some, i), Buf::Weight(i, Proj::Gate)),
        filled(common_items(s, g, h is Some, i), Buf::Bias(i, Proj::Gate)),
        filled(common_items(s, g, h is Some, i), Buf::Weight(i, Proj::Up)),
        filled(common_items(s, g, h is Some, i), Buf::Bias(i, Proj::Up)),
        filled(common_items(s, g, h is Some, i), Buf::Weight(i, Proj::Down)),
        filled(common_items(s, g, h is Some, i), Buf::Bias(i, Proj::Down)),
{
    let post = if h is Some { "gguf.post_attention_norm.weight"@ } else { "post_attention_layernorm.weight"@ };
    lemma_common_names(i, tied);
    let s1 = with_vector(s, i, "input_layernorm.weight"@, Buf::Norm(i, NormId::Input), Want::Vector);
    lemma_pushed(s, s1.last(), g, h, layers, tied);
    let s2 = with_vector(s1, i, post, Buf::Norm(i, NormId::Post), Want::Vector);
    lemma_pushed(s1, s2.last(), g, h, layers, tied);
    let s3 = with_matrix(s2, i, "mlp.gate_proj"@, Proj::Gate, g.hidden, g.inter);
    lemma_bias_pushed(s2, part_name(i as nat, "mlp.gate_proj"@), i, Proj::Gate, g.hidden, g.inter, g, h, layers, tied);
    let s4 = with_matrix(s3, i, "mlp.up_proj"@, Proj::Up, g.hidden, g.inter);
    lemma_bias_pushed(s3, part_name(i as nat, "mlp.up_proj"@), i, Proj::Up, g.hidden, g.inter, g, h, layers, tied);
    let s5 = with_matrix(s4, i, "mlp.down_proj"@, Proj::Down, g.inter, g.hidden);
    lemma_bias_pushed(s4, part_name(i as nat, "mlp.down_proj"@), i, Proj::Down, g.inter, g.hidden, g, h, layers, tied);
    assert(s5 == common_items(s, g, h is Some, i));
}

/// The lists of the layers: every item at home, every buffer filled.
proof fn lemma_trunk_items(g: Geo, h: Option<(Seq<bool>, DeltaGeo)>, layers: nat, tied: bool, k: nat)
    requires
        k <= layers <= usize::MAX,
    ensures
        all_home(trunk_items(g, h, k), g, h, layers, tied),
        forall|b: Buf|
            has_home(b, h, k) && !(b matches Buf::Norm(_, NormId::Final)) && !(b matches Buf::Weight(_, Proj::Head))
                && !(b matches Buf::Bias(_, Proj::Head)) ==> #[trigger] filled(trunk_items(g, h, k), b),
    decreases k,
{
    if k > 0 {
        let before = trunk_items(g, h, (k - 1) as nat);
        let i = (k - 1) as usize;
        lemma_trunk_items(g, h, layers, tied, (k - 1) as nat);
        let mid = if is_linear(h, i as int) {
            lemma_linear_items(before, g, h, layers, tied, i);
            linear_items(before, g, h->Some_0.1, i)
        } else {
            lemma_full_items(before, g, h, layers, tied, i);
            full_items(before, g, i)
        };
        lemma_common_items(mid, g, h, layers, tied, i);
        let after = trunk_items(g, h, k);
        assert(after == common_items(mid, g, h is Some, i));
        assert forall|b: Buf|
            has_home(b, h, k) && !(b matches Buf::Norm(_, NormId::Final)) && !(b matches Buf::Weight(_, Proj::Head))
                && !(b matches Buf::Bias(_, Proj::Head)) implies #[trigger] filled(after, b) by {
            if has_home(b, h, (k - 1) as nat) {
                assert(filled(before, b));
                assert(filled(mid, b));
            } else {
                lemma_layer_filled(mid, after, b, h, i);
            }
        }
    }
}

proof fn lemma_layer_filled(mid: Seq<ItemView>, after: Seq<ItemView>, b: Buf, h: Option<(Seq<bool>, DeltaGeo)>, i: usize)
    requires
        i < usize::MAX,
        has_home(b, h, (i + 1) as nat),
        !has_home(b, h, i as nat),
        !(b matches Buf::Norm(_, NormId::Final)),
        !(b matches Buf::Weight(_, Proj::Head)),
        !(b matches Buf::Bias(_, Proj::Head)),
        grown(mid, after),
        filled(after, Buf::Norm(i, NormId::Input)),
        filled(after, Buf::Norm(i, NormId::Post)),
        filled(after, Buf::Weight(i, Proj::Gate)),
        filled(after, Buf::Bias(i, Proj::Gate)),
        filled(after, Buf::Weight(i, Proj::Up)),
        filled(after, Buf::Bias(i, Proj::Up)),
        filled(after, Buf::Weight(i, Proj::Down)),
        filled(after, Buf::Bias(i, Proj::Down)),
        is_linear(h, i as int) ==> {
            &&& filled(mid, Buf::Weight(i, Proj::DnQkv)) && filled(mid, Buf::Bias(i, Proj::DnQkv))
            &&& filled(mid, Buf::Weight(i, Proj::DnZ)) && filled(mid, Buf::Bias(i, Proj::DnZ))
            &&& filled(mid, Buf::Weight(i, Proj::DnOut)) && filled(mid, Buf::Bias(i, Proj::DnOut))
            &&& filled(mid, Buf::Weight(i, Proj::DnAlpha)) && filled(mid, Buf::Bias(i, Proj::DnAlpha))
            &&& filled(mid, Buf::Weight(i, Proj::DnBeta)) && filled(mid, Buf::Bias(i, Proj::DnBeta))
            &&& filled(mid, Buf::Small(i, SmallId::Conv1d))
            &&& filled(mid, Buf::Small(i, SmallId::A))
            &&& filled(mid, Buf::Small(i, SmallId::DtBias))
            &&& filled(mid, Buf::Small(i, SmallId::SsmNorm))
        },
        !is_linear(h, i as int) ==> {
            &&& filled(mid, Buf::Weight(i, Proj::Q)) && filled(mid, Buf::Bias(i, Proj::Q))
            &&& filled(mid, Buf::Weight(i, Proj::K)) && filled(mid, Buf::Bias(i, Proj::K))
            &&& filled(mid, Buf::Weight(i, Proj::V)) && filled(mid, Buf::Bias(i, Proj::V))
            &&& filled(mid, Buf::Weight(i, Proj::O)) && filled(mid, Buf::Bias(i, Proj::O))
            &&& filled(mid, Buf::Norm(i, NormId::QHead))
            &&& filled(mid, Buf::Norm(i, NormId::KHead))
        },
    ensures
        filled(after, b),
{
    match b {
        Buf::Weight(j, p) => {
            assert(j == i);
            match p {
                Proj::Q => {},
                Proj::K => {},
                Proj::V => {},
                Proj::O => {},
                Proj::Gate => {},
                Proj::Up => {},
                Proj::Down => {},
                Proj::DnQkv => {},
                Proj::DnZ => {},
                Proj::DnOut => {},
                Proj::DnAlpha => {},
                Proj::DnBeta => {},
                Proj::Head => {},
            }
        },
        Buf::Bias(j, p) => {
            assert(j == i);
            match p {
                Proj::Q => {},
                Proj::K => {},
                Proj::V => {},
                Proj::O => {},
                Proj::Gate => {},
                Proj::Up => {},
                Proj::Down => {},
                Proj::DnQkv => {},
                Proj::DnZ => {},
                Proj::DnOut => {},
                Proj::DnAlpha => {},
                Proj::DnBeta => {},
                Proj::Head => {},
            }
        },
        Buf::Norm(j, n) => {
            assert(j == i);
            match n {
                NormId::Input => {},
                NormId::Post => {},
                NormId::QHead => {},
                NormId::KHead => {},
                NormId::Final => {},
            }
        },
        Buf::Small(j, n) => {
            assert(j == i);
            match n {
                SmallId::Conv1d => {},
                SmallId::A => {},
                SmallId::DtBias => {},
                SmallId::SsmNorm => {},
            }
        },
        _ => {},
    }
}

/// Every tensor that is loaded goes to the buffer of its name, and every buffer of
/// the model that holds a tensor is filled.
pub proof fn lemma_every_tensor_goes_home(src: Seq<SourceView>, g: Geo, h: Option<(Seq<bool>, DeltaGeo)>, layers: nat)
    requires
        layers <= usize::MAX,
    ensures
        ({
            let items = all_items(src, g, h, layers);
            let tied = !present(src, "lm_head.weight"@);
            &&& forall|k: int| 0 <= k < items.len() ==> at_home(#[trigger] items[k], g, h, layers, tied)
            &&& forall|b: Buf| has_home(b, h, layers) ==> #[trigger] filled(items, b)
        }),
{
    let tied = !present(src, "lm_head.weight"@);
    lemma_trunk_items(g, h, layers, tied, layers);
    let s = trunk_items(g, h, layers);
    let it = ItemView { name: "model.norm.weight"@, dest: Buf::Norm(layers as usize, NormId::Final), want: Want::Vector };
    lemma_pushed(s, it, g, h, layers, tied);
    reveal_strlit(".weight");
    reveal_strlit(".bias");
    reveal_strlit("lm_head");
    reveal_strlit("lm_head.weight");
    reveal_strlit("lm_head.bias");
    reveal_strlit("model.embed_tokens");
    reveal_strlit("model.embed_tokens.weight");
    reveal_strlit("model.embed_tokens.bias");
    assert("lm_head"@ + ".weight"@ =~= "lm_head.weight"@);
    assert("lm_head"@ + ".bias"@ =~= "lm_head.bias"@);
    assert("model.embed_tokens"@ + ".weight"@ =~= "model.embed_tokens.weight"@);
    assert("model.embed_tokens"@ + ".bias"@ =~= "model.embed_tokens.bias"@);
    let name = crate::gpu::load::head_name(src);
    let t = s.push(it);
    lemma_bias_pushed(t, name, layers as usize, Proj::Head, g.hidden, g.vocab, g, h, layers, tied);
    let items = all_items(src, g, h, layers);
    assert(items == with_bias(t, name, layers as usize, Proj::Head, g.hidden, g.vocab));
    assert forall|b: Buf| has_home(b, h, layers) implies #[trigger] filled(items, b) by {
        match b {
            Buf::Norm(_, NormId::Final) => {
                assert(filled(t, b));
            },
            Buf::Weight(_, Proj::Head) => {},
            Buf::Bias(_, Proj::Head) => {},
            _ => {
                assert(filled(s, b));
                assert(filled(t, b));
            },
        }
    }
}

// ---------- the kernels that read the weights ----------

/// The selector by which a block reads a weight.
pub open spec fn selector_in(b: QuantBlock, p: Proj) -> Option<u32> {
    match (p, b.attn) {
        (Proj::Gate, _) => Some(b.gate),
        (Proj::Up, _) => Some(b.up),
        (Proj::Down, _) => Some(b.down),
        (Proj::Q, QuantAttn::Full { q, .. }) => Some(q),
        (Proj::K, QuantAttn::Full { k, .. }) => Some(k),
        (Proj::V, QuantAttn::Full { v, .. }) => Some(v),
        (Proj::O, QuantAttn::Full { o, .. }) => Some(o),
        (Proj::DnQkv, QuantAttn::Linear { qkv, .. }) => Some(qkv),
        (Proj::DnZ, QuantAttn::Linear { z, .. }) => Some(z),
        (Proj::DnAlpha, QuantAttn::Linear { alpha, .. }) => Some(alpha),
        (Proj::DnBeta, QuantAttn::Linear { beta, .. }) => Some(beta),
        (Proj::DnOut, QuantAttn::Linear { out, .. }) => Some(out),
        _ => None,
    }
}

/// A block reads every weight by the selector of the type in which the checkpoint
/// holds that weight's tensor, and normalises heads where both their weights are
/// there.
pub proof fn lemma_weights_are_read_as_stored(src: Seq<SourceView>, map: Option<Seq<bool>>, i: usize, p: Proj, tied: bool)
    requires
        present(src, weight_name(i, p, tied)),
    ensures
        ({
            let b = block_of(src, map, i as nat);
            let linear = map is Some && map->Some_0[i as int];
            &&& selector_in(b, p) matches Some(sel) ==> match found(src, weight_name(i, p, tied)).ty {
                SrcType::Quant(t) => SrcType::Quant(t).selector() != NO_SELECTOR ==> sel == SrcType::Quant(t).selector(),
                SrcType::F16 | SrcType::F32 => sel == 0,
                SrcType::Bf16 => true,
            }
            &&& selector_in(b, p) is Some <==> match p {
                Proj::Head => false,
                Proj::Gate | Proj::Up | Proj::Down => true,
                Proj::Q | Proj::K | Proj::V | Proj::O => !linear,
                _ => linear,
            }
            &&& b.attn matches QuantAttn::Full { qk_norm, .. } ==> (qk_norm <==> present(
                src,
                of_layer(i, "self_attn.q_norm.weight"@),
            ) && present(src, of_layer(i, "self_attn.k_norm.weight"@)))
        }),
{
    lemma_full_names(i, tied);
    lemma_common_names(i, tied);
    lemma_linear_names(i, tied);
}

// ---------- the names in a file ----------

/// A part of block `i`, as a file names it.
pub open spec fn of_block(i: usize, rest: Seq<char>) -> Seq<char> {
    "blk."@ + dec(i as nat) + "."@ + rest
}

/// The name of a buffer's tensor in a file.
pub open spec fn file_name(b: Buf, hybrid: bool, tied: bool) -> Option<Seq<char>> {
    match b {
        Buf::Weight(i, Proj::Q) => Some(of_block(i, "attn_q.weight"@)),
        Buf::Bias(i, Proj::Q) => Some(of_block(i, "attn_q.bias"@)),
        Buf::Weight(i, Proj::K) => Some(of_block(i, "attn_k.weight"@)),
        Buf::Bias(i, Proj::K) => Some(of_block(i, "attn_k.bias"@)),
        Buf::Weight(i, Proj::V) => Some(of_block(i, "attn_v.weight"@)),
        Buf::Bias(i, Proj::V) => Some(of_block(i, "attn_v.bias"@)),
        Buf::Weight(i, Proj::O) => Some(of_block(i, "attn_output.weight"@)),
        Buf::Bias(i, Proj::O) => Some(of_block(i, "attn_output.bias"@)),
        Buf::Weight(i, Proj::Gate) => Some(of_block(i, "ffn_gate.weight"@)),
        Buf::Bias(i, Proj::Gate) => Some(of_block(i, "ffn_gate.bias"@)),
        Buf::Weight(i, Proj::Up) => Some(of_block(i, "ffn_up.weight"@)),
        Buf::Bias(i, Proj::Up) => Some(of_block(i, "ffn_up.bias"@)),
        Buf::Weight(i, Proj::Down) => Some(of_block(i, "ffn_down.weight"@)),
        Buf::Bias(i, Proj::Down) => Some(of_block(i, "ffn_down.bias"@)),
        Buf::Weight(i, Proj::DnQkv) => Some(of_block(i, "attn_qkv.weight"@)),
        Buf::Bias(i, Proj::DnQkv) => Some(of_block(i, "attn_qkv.bias"@)),
        Buf::Weight(i, Proj::DnZ) => Some(of_block(i, "attn_gate.weight"@)),
        Buf::Bias(i, Proj::DnZ) => Some(of_block(i, "attn_gate.bias"@)),
        Buf::Weight(i, Proj::DnOut) => Some(of_block(i, "ssm_out.weight"@)),
        Buf::Bias(i, Proj::DnOut) => Some(of_block(i, "ssm_out.bias"@)),
        Buf::Weight(i, Proj::DnAlpha) => Some(of_block(i, "ssm_alpha.weight"@)),
        Buf::Bias(i, Proj::DnAlpha) => Some(of_block(i, "ssm_alpha.bias"@)),
        Buf::Weight(i, Proj::DnBeta) => Some(of_block(i, "ssm_beta.weight"@)),
        Buf::Bias(i, Proj::DnBeta) => Some(of_block(i, "ssm_beta.bias"@)),
        Buf::Norm(i, NormId::Input) => Some(of_block(i, "attn_norm.weight"@)),
        Buf::Norm(i, NormId::QHead) => Some(of_block(i, "attn_q_norm.weight"@)),
        Buf::Norm(i, NormId::KHead) => Some(of_block(i, "attn_k_norm.weight"@)),
        Buf::Small(i, SmallId::Conv1d) => Some(of_block(i, "ssm_conv1d.weight"@)),
        Buf::Small(i, SmallId::DtBias) => Some(of_block(i, "ssm_dt.bias"@)),
        Buf::Small(i, SmallId::SsmNorm) => Some(of_block(i, "ssm_norm.weight"@)),
        Buf::Norm(i, NormId::Post) => Some(
            of_block(
                i,
                if hybrid {
                    "post_attention_norm.weight"@
                } else {
                    "ffn_norm.weight"@
                },
            ),
        ),
        Buf::Small(i, SmallId::A) => Some(of_block(i, "ssm_a"@)),
        Buf::Norm(_, NormId::Final) => Some("output_norm.weight"@),
        Buf::Weight(_, Proj::Head) => Some(
            if tied {
                "token_embd.weight"@
            } else {
                "output.weight"@
            },
        ),
        _ => None,
    }
}

/// The number of a block, read back from its name.
proof fn lemma_block_number(i: usize, rest: Seq<char>)
    ensures
        after_prefix(of_block(i, rest), "blk."@) == Some(dec(i as nat) + "."@ + rest),
        split_once(dec(i as nat) + "."@ + rest, '.') == Some((dec(i as nat), rest)),
        of_block(i, rest) != "token_embd.weight"@,
        of_block(i, rest) != "output_norm.weight"@,
        of_block(i, rest) != "output.weight"@,
        of_block(i, rest) != "rope_freqs.weight"@,
{
    reveal_strlit("blk.");
    reveal_strlit(".");
    reveal_strlit("token_embd.weight");
    reveal_strlit("output_norm.weight");
    reveal_strlit("output.weight");
    reveal_strlit("rope_freqs.weight");
    let name = of_block(i, rest);
    let n = dec(i as nat);
    let tail = n + "."@ + rest;
    assert(name[0] == 'b');
    assert("token_embd.weight"@[0] == 't');
    assert("output_norm.weight"@[0] == 'o');
    assert("output.weight"@[0] == 'o');
    assert("rope_freqs.weight"@[0] == 'r');
    assert(name =~= "blk."@ + tail);
    assert(name.skip(4) =~= tail);
    assert("blk."@.is_prefix_of(name)) by {
        assert(name.take(4) =~= "blk."@);
    }
    lemma_dec_digits(i as nat);
    tail.index_of_first_ensures('.');
    assert(tail[n.len() as int] == '.');
    let k = tail.index_of_first('.')->Some_0;
    if k < n.len() {
        assert(is_digit(n[k]));
        assert(tail[k] == n[k]);
    }
    assert(k == n.len());
    assert(tail.take(k) =~= n);
    assert(tail.skip(k + 1) =~= rest);
}

/// A weight or bias of a block.
proof fn lemma_block_name(i: usize, mid: Seq<char>, kind: Seq<char>, rest: Seq<char>, part: Seq<char>, whole: Seq<char>)
    requires
        kind == "weight"@ || kind == "bias"@,
        rest == mid + "."@ + kind,
        hf_part(mid) == part,
        whole == part + "."@ + kind,
    ensures
        source_name(of_block(i, rest)) == Some(of_layer(i, whole)),
{
    lemma_block_number(i, rest);
    lemma_parse_dec(i as nat, usize::MAX as nat);
    reveal_strlit("weight");
    reveal_strlit("bias");
    reveal_strlit(".");
    rest.index_of_last_ensures('.');
    assert(rest[mid.len() as int] == '.');
    let k = rest.index_of_last('.')->Some_0;
    if k > mid.len() {
        assert(rest[k] == kind[k - mid.len() - 1]);
    }
    assert(k == mid.len());
    assert(rest.take(k) =~= mid);
    assert(rest.skip(k + 1) =~= kind);
    assert(hf_block(i as nat, rest) == Some("model.layers."@ + dec(i as nat) + "."@ + part + "."@ + kind));
    assert("model.layers."@ + dec(i as nat) + "."@ + part + "."@ + kind =~= of_layer(i, whole));
}

/// The one tensor of a block that is neither.
proof fn lemma_bare_name(i: usize)
    ensures
        source_name(of_block(i, "ssm_a"@)) == Some(of_layer(i, "gguf.ssm_a"@)),
{
    let rest = "ssm_a"@;
    lemma_block_number(i, rest);
    lemma_parse_dec(i as nat, usize::MAX as nat);
    reveal_strlit("ssm_a");
    reveal_strlit("gguf.");
    reveal_strlit("gguf.ssm_a");
    rest.index_of_last_ensures('.');
    rest.index_of_first_ensures('.');
    assert(forall|k: int| 0 <= k < rest.len() ==> #[trigger] rest[k] != '.');
    assert(rsplit_once(rest, '.') is None);
    assert(hf(of_block(i, rest)) is None);
    assert("gguf."@ + rest =~= "gguf.ssm_a"@);
}

/// The parts of a block under their names.
proof fn lemma_parts()
    ensures
        hf_part("attn_gate"@) == "gguf.attn_gate"@,
        hf_part("attn_k"@) == "self_attn.k_proj"@,
        hf_part("attn_k_norm"@) == "self_attn.k_norm"@,
        hf_part("attn_norm"@) == "input_layernorm"@,
        hf_part("attn_output"@) == "self_attn.o_proj"@,
        hf_part("attn_q"@) == "self_attn.q_proj"@,
        hf_part("attn_q_norm"@) == "self_attn.q_norm"@,
        hf_part("attn_qkv"@) == "gguf.attn_qkv"@,
        hf_part("attn_v"@) == "self_attn.v_proj"@,
        hf_part("ffn_down"@) == "mlp.down_proj"@,
        hf_part("ffn_gate"@) == "mlp.gate_proj"@,
        hf_part("ffn_norm"@) == "post_attention_layernorm"@,
        hf_part("ffn_up"@) == "mlp.up_proj"@,
        hf_part("post_attention_norm"@) == "gguf.post_attention_norm"@,
        hf_part("ssm_alpha"@) == "gguf.ssm_alpha"@,
        hf_part("ssm_beta"@) == "gguf.ssm_beta"@,
        hf_part("ssm_conv1d"@) == "gguf.ssm_conv1d"@,
        hf_part("ssm_dt"@) == "gguf.ssm_dt"@,
        hf_part("ssm_norm"@) == "gguf.ssm_norm"@,
        hf_part("ssm_out"@) == "gguf.ssm_out"@,
{
    reveal_strlit("gguf.");
    reveal_strlit("attn_gate");
    assert("attn_gate"@.len() == 9 && "attn_gate"@[0] == 'a' && "attn_gate"@[4] == '_' && "attn_gate"@[5] == 'g');
    reveal_strlit("attn_k");
    assert("attn_k"@.len() == 6 && "attn_k"@[0] == 'a' && "attn_k"@[4] == '_' && "attn_k"@[5] == 'k');
    reveal_strlit("attn_k_norm");
    assert("attn_k_norm"@.len() == 11 && "attn_k_norm"@[0] == 'a' && "attn_k_norm"@[4] == '_' && "attn_k_norm"@[5] == 'k');
    reveal_strlit("attn_norm");
    assert("attn_norm"@.len() == 9 && "attn_norm"@[0] == 'a' && "attn_norm"@[4] == '_' && "attn_norm"@[5] == 'n');
    reveal_strlit("attn_output");
    assert("attn_output"@.len() == 11 && "attn_output"@[0] == 'a' && "attn_output"@[4] == '_' && "attn_output"@[5] == 'o');
    reveal_strlit("attn_q");
    assert("attn_q"@.len() == 6 && "attn_q"@[0] == 'a' && "attn_q"@[4] == '_' && "attn_q"@[5] == 'q');
    reveal_strlit("attn_q_norm");
    assert("attn_q_norm"@.len() == 11 && "attn_q_norm"@[0] == 'a' && "attn_q_norm"@[4] == '_' && "attn_q_norm"@[5] == 'q');
    reveal_strlit("attn_qkv");
    assert("attn_qkv"@.len() == 8 && "attn_qkv"@[0] == 'a' && "attn_qkv"@[4] == '_' && "attn_qkv"@[5] == 'q');
    reveal_strlit("attn_v");
    assert("attn_v"@.len() == 6 && "attn_v"@[0] == 'a' && "attn_v"@[4] == '_' && "attn_v"@[5] == 'v');
    reveal_strlit("ffn_down");
    assert("ffn_down"@.len() == 8 && "ffn_down"@[0] == 'f' && "ffn_down"@[4] == 'd' && "ffn_down"@[5] == 'o');
    reveal_strlit("ffn_gate");
    assert("ffn_gate"@.len() == 8 && "ffn_gate"@[0] == 'f' && "ffn_gate"@[4] == 'g' && "ffn_gate"@[5] == 'a');
    reveal_strlit("ffn_norm");
    assert("ffn_norm"@.len() == 8 && "ffn_norm"@[0] == 'f' && "ffn_norm"@[4] == 'n' && "ffn_norm"@[5] == 'o');
    reveal_strlit("ffn_up");
    assert("ffn_up"@.len() == 6 && "ffn_up"@[0] == 'f' && "ffn_up"@[4] == 'u' && "ffn_up"@[5] == 'p');
    reveal_strlit("post_attention_norm");
    assert("post_attention_norm"@.len() == 19 && "post_attention_norm"@[0] == 'p' && "post_attention_norm"@[4] == '_' && "post_attention_norm"@[5] == 'a');
    reveal_strlit("ssm_alpha");
    assert("ssm_alpha"@.len() == 9 && "ssm_alpha"@[0] == 's' && "ssm_alpha"@[4] == 'a' && "ssm_alpha"@[5] == 'l');
    reveal_strlit("ssm_beta");
    assert("ssm_beta"@.len() == 8 && "ssm_beta"@[0] == 's' && "ssm_beta"@[4] == 'b' && "ssm_beta"@[5] == 'e');
    reveal_strlit("ssm_conv1d");
    assert("ssm_conv1d"@.len() == 10 && "ssm_conv1d"@[0] == 's' && "ssm_conv1d"@[4] == 'c' && "ssm_conv1d"@[5] == 'o');
    reveal_strlit("ssm_dt");
    assert("ssm_dt"@.len() == 6 && "ssm_dt"@[0] == 's' && "ssm_dt"@[4] == 'd' && "ssm_dt"@[5] == 't');
    reveal_strlit("ssm_norm");
    assert("ssm_norm"@.len() == 8 && "ssm_norm"@[0] == 's' && "ssm_norm"@[4] == 'n' && "ssm_norm"@[5] == 'o');
    reveal_strlit("ssm_out");
    assert("ssm_out"@.len() == 7 && "ssm_out"@[0] == 's' && "ssm_out"@[4] == 'o' && "ssm_out"@[5] == 'u');
    reveal_strlit("gguf.attn_gate");
    assert("gguf."@ + "attn_gate"@ =~= "gguf.attn_gate"@);
    reveal_strlit("gguf.attn_qkv");
    assert("gguf."@ + "attn_qkv"@ =~= "gguf.attn_qkv"@);
    reveal_strlit("gguf.post_attention_norm");
    assert("gguf."@ + "post_attention_norm"@ =~= "gguf.post_attention_norm"@);
    reveal_strlit("gguf.ssm_alpha");
    assert("gguf."@ + "ssm_alpha"@ =~= "gguf.ssm_alpha"@);
    reveal_strlit("gguf.ssm_beta");
    assert("gguf."@ + "ssm_beta"@ =~= "gguf.ssm_beta"@);
    reveal_strlit("gguf.ssm_conv1d");
    assert("gguf."@ + "ssm_conv1d"@ =~= "gguf.ssm_conv1d"@);
    reveal_strlit("gguf.ssm_dt");
    assert("gguf."@ + "ssm_dt"@ =~= "gguf.ssm_dt"@);
    reveal_strlit("gguf.ssm_norm");
    assert("gguf."@ + "ssm_norm"@ =~= "gguf.ssm_norm"@);
    reveal_strlit("gguf.ssm_out");
    assert("gguf."@ + "ssm_out"@ =~= "gguf.ssm_out"@);
}

proof fn lemma_attn_q_weight(i: usize)
    ensures
        source_name(of_block(i, "attn_q.weight"@)) == Some(of_layer(i, "self_attn.q_proj.weight"@)),
{
    lemma_parts();
    reveal_strlit(".");
    reveal_strlit("weight");
    reveal_strlit("attn_q");
    reveal_strlit("attn_q.weight");
    reveal_strlit("self_attn.q_proj");
    reveal_strlit("self_attn.q_proj.weight");
    assert("attn_q.weight"@ =~= "attn_q"@ + "."@ + "weight"@);
    assert("self_attn.q_proj.weight"@ =~= "self_attn.q_proj"@ + "."@ + "weight"@);
    lemma_block_name(i, "attn_q"@, "weight"@, "attn_q.weight"@, "self_attn.q_proj"@, "self_attn.q_proj.weight"@);
}

proof fn lemma_attn_q_bias(i: usize)
    ensures
        source_name(of_block(i, "attn_q.bias"@)) == Some(of_layer(i, "self_attn.q_proj.bias"@)),
{
    lemma_parts();
    reveal_strlit(".");
    reveal_strlit("bias");
    reveal_strlit("attn_q");
    reveal_strlit("attn_q.bias");
    reveal_strlit("self_attn.q_proj");
    reveal_strlit("self_attn.q_proj.bias");
    assert("attn_q.bias"@ =~= "attn_q"@ + "."@ + "bias"@);
    assert("self_attn.q_proj.bias"@ =~= "self_attn.q_proj"@ + "."@ + "bias"@);
    lemma_block_name(i, "attn_q"@, "bias"@, "attn_q.bias"@, "self_attn.q_proj"@, "self_attn.q_proj.bias"@);
}

proof fn lemma_attn_k_weight(i: usize)
    ensures
        source_name(of_block(i, "attn_k.weight"@)) == Some(of_layer(i, "self_attn.k_proj.weight"@)),
{
    lemma_parts();
    reveal_strlit(".");
    reveal_strlit("weight");
    reveal_strlit("attn_k");
    reveal_strlit("attn_k.weight");
    reveal_strlit("self_attn.k_proj");
    reveal_strlit("self_attn.k_proj.weight");
    assert("attn_k.weight"@ =~= "attn_k"@ + "."@ + "weight"@);
    assert("self_attn.k_proj.weight"@ =~= "self_attn.k_proj"@ + "."@ + "weight"@);
    lemma_block_name(i, "attn_k"@, "weight"@, "attn_k.weight"@, "self_attn.k_proj"@, "self_attn.k_proj.weight"@);
}

proof fn lemma_attn_k_bias(i: usize)
    ensures
        source_name(of_block(i, "attn_k.bias"@)) == Some(of_layer(i, "self_attn.k_proj.bias"@)),
{
    lemma_parts();
    reveal_strlit(".");
    reveal_strlit("bias");
    reveal_strlit("attn_k");
    reveal_strlit("attn_k.bias");
    reveal_strlit("self_attn.k_proj");
    reveal_strlit("self_attn.k_proj.bias");
    assert("attn_k.bias"@ =~= "attn_k"@ + "."@ + "bias"@);
    assert("self_attn.k_proj.bias"@ =~= "self_attn.k_proj"@ + "."@ + "bias"@);
    lemma_block_name(i, "attn_k"@, "bias"@, "attn_k.bias"@, "self_attn.k_proj"@, "self_attn.k_proj.bias"@);
}

proof fn lemma_attn_v_weight(i: usize)
    ensures
        source_name(of_block(i, "attn_v.weight"@)) == Some(of_layer(i, "self_attn.v_proj.weight"@)),
{
    lemma_parts();
    reveal_strlit(".");
    reveal_strlit("weight");
    reveal_strlit("attn_v");
    reveal_strlit("attn_v.weight");
    reveal_strlit("self_attn.v_proj");
    reveal_strlit("self_attn.v_proj.weight");
    assert("attn_v.weight"@ =~= "attn_v"@ + "."@ + "weight"@);
    assert("self_attn.v_proj.weight"@ =~= "self_attn.v_proj"@ + "."@ + "weight"@);
    lemma_block_name(i, "attn_v"@, "weight"@, "attn_v.weight"@, "self_attn.v_proj"@, "self_attn.v_proj.weight"@);
}

proof fn lemma_attn_v_bias(i: usize)
    ensures
        source_name(of_block(i, "attn_v.bias"@)) == Some(of_layer(i, "self_attn.v_proj.bias"@)),
{
    lemma_parts();
    reveal_strlit(".");
    reveal_strlit("bias");
    reveal_strlit("attn_v");
    reveal_strlit("attn_v.bias");
    reveal_strlit("self_attn.v_proj");
    reveal_strlit("self_attn.v_proj.bias");
    assert("attn_v.bias"@ =~= "attn_v"@ + "."@ + "bias"@);
    assert("self_attn.v_proj.bias"@ =~= "self_attn.v_proj"@ + "."@ + "bias"@);
    lemma_block_name(i, "attn_v"@, "bias"@, "attn_v.bias"@, "self_attn.v_proj"@, "self_attn.v_proj.bias"@);
}

proof fn lemma_attn_output_weight(i: usize)
    ensures
        source_name(of_block(i, "attn_output.weight"@)) == Some(of_layer(i, "self_attn.o_proj.weight"@)),
{
    lemma_parts();
    reveal_strlit(".");
    reveal_strlit("weight");
    reveal_strlit("attn_output");
    reveal_strlit("attn_output.weight");
    reveal_strlit("self_attn.o_proj");
    reveal_strlit("self_attn.o_proj.weight");
    assert("attn_output.weight"@ =~= "attn_output"@ + "."@ + "weight"@);
    assert("self_attn.o_proj.weight"@ =~= "self_attn.o_proj"@ + "."@ + "weight"@);
    lemma_block_name(i, "attn_output"@, "weight"@, "attn_output.weight"@, "self_attn.o_proj"@, "self_attn.o_proj.weight"@);
}

proof fn lemma_attn_output_bias(i: usize)
    ensures
        source_name(of_block(i, "attn_output.bias"@)) == Some(of_layer(i, "self_attn.o_proj.bias"@)),
{
    lemma_parts();
    reveal_strlit(".");
    reveal_strlit("bias");
    reveal_strlit("attn_output");
    reveal_strlit("attn_output.bias");
    reveal_strlit("self_attn.o_proj");
    reveal_strlit("self_attn.o_proj.bias");
    assert("attn_output.bias"@ =~= "attn_output"@ + "."@ + "bias"@);
    assert("self_attn.o_proj.bias"@ =~= "self_attn.o_proj"@ + "."@ + "bias"@);
    lemma_block_name(i, "attn_output"@, "bias"@, "attn_output.bias"@, "self_attn.o_proj"@, "self_attn.o_proj.bias"@);
}

proof fn lemma_ffn_gate_weight(i: usize)
    ensures
        source_name(of_block(i, "ffn_gate.weight"@)) == Some(of_layer(i, "mlp.gate_proj.weight"@)),
{
    lemma_parts();
    reveal_strlit(".");
    reveal_strlit("weight");
    reveal_strlit("ffn_gate");
    reveal_strlit("ffn_gate.weight");
    reveal_strlit("mlp.gate_proj");
    reveal_strlit("mlp.gate_proj.weight");
    assert("ffn_gate.weight"@ =~= "ffn_gate"@ + "."@ + "weight"@);
    assert("mlp.gate_proj.weight"@ =~= "mlp.gate_proj"@ + "."@ + "weight"@);
    lemma_block_name(i, "ffn_gate"@, "weight"@, "ffn_gate.weight"@, "mlp.gate_proj"@, "mlp.gate_proj.weight"@);
}

proof fn lemma_ffn_gate_bias(i: usize)
    ensures
        source_name(of_block(i, "ffn_gate.bias"@)) == Some(of_layer(i, "mlp.gate_proj.bias"@)),
{
    lemma_parts();
    reveal_strlit(".");
    reveal_strlit("bias");
    reveal_strlit("ffn_gate");
    reveal_strlit("ffn_gate.bias");
    reveal_strlit("mlp.gate_proj");
    reveal_strlit("mlp.gate_proj.bias");
    assert("ffn_gate.bias"@ =~= "ffn_gate"@ + "."@ + "bias"@);
    assert("mlp.gate_proj.bias"@ =~= "mlp.gate_proj"@ + "."@ + "bias"@);
    lemma_block_name(i, "ffn_gate"@, "bias"@, "ffn_gate.bias"@, "mlp.gate_proj"@, "mlp.gate_proj.bias"@);
}

proof fn lemma_ffn_up_weight(i: usize)
    ensures
        source_name(of_block(i, "ffn_up.weight"@)) == Some(of_layer(i, "mlp.up_proj.weight"@)),
{
    lemma_parts();
    reveal_strlit(".");
    reveal_strlit("weight");
    reveal_strlit("ffn_up");
    reveal_strlit("ffn_up.weight");
    reveal_strlit("mlp.up_proj");
    reveal_strlit("mlp.up_proj.weight");
    assert("ffn_up.weight"@ =~= "ffn_up"@ + "."@ + "weight"@);
    assert("mlp.up_proj.weight"@ =~= "mlp.up_proj"@ + "."@ + "weight"@);
    lemma_block_name(i, "ffn_up"@, "weight"@, "ffn_up.weight"@, "mlp.up_proj"@, "mlp.up_proj.weight"@);
}

proof fn lemma_ffn_up_bias(i: usize)
    ensures
        source_name(of_block(i, "ffn_up.bias"@)) == Some(of_layer(i, "mlp.up_proj.bias"@)),
{
    lemma_parts();
    reveal_strlit(".");
    reveal_strlit("bias");
    reveal_strlit("ffn_up");
    reveal_strlit("ffn_up.bias");
    reveal_strlit("mlp.up_proj");
    reveal_strlit("mlp.up_proj.bias");
    assert("ffn_up.bias"@ =~= "ffn_up"@ + "."@ + "bias"@);
    assert("mlp.up_proj.bias"@ =~= "mlp.up_proj"@ + "."@ + "bias"@);
    lemma_block_name(i, "ffn_up"@, "bias"@, "ffn_up.bias"@, "mlp.up_proj"@, "mlp.up_proj.bias"@);
}

proof fn lemma_ffn_down_weight(i: usize)
    ensures
        source_name(of_block(i, "ffn_down.weight"@)) == Some(of_layer(i, "mlp.down_proj.weight"@)),
{
    lemma_parts();
    reveal_strlit(".");
    reveal_strlit("weight");
    reveal_strlit("ffn_down");
    reveal_strlit("ffn_down.weight");
    reveal_strlit("mlp.down_proj");
    reveal_strlit("mlp.down_proj.weight");
    assert("ffn_down.weight"@ =~= "ffn_down"@ + "."@ + "weight"@);
    assert("mlp.down_proj.weight"@ =~= "mlp.down_proj"@ + "."@ + "weight"@);
    lemma_block_name(i, "ffn_down"@, "weight"@, "ffn_down.weight"@, "mlp.down_proj"@, "mlp.down_proj.weight"@);
}

proof fn lemma_ffn_down_bias(i: usize)
    ensures
        source_name(of_block(i, "ffn_down.bias"@)) == Some(of_layer(i, "mlp.down_proj.bias"@)),
{
    lemma_parts();
    reveal_strlit(".");
    reveal_strlit("bias");
    reveal_strlit("ffn_down");
    reveal_strlit("ffn_down.bias");
    reveal_strlit("mlp.down_proj");
    reveal_strlit("mlp.down_proj.bias");
    assert("ffn_down.bias"@ =~= "ffn_down"@ + "."@ + "bias"@);
    assert("mlp.down_proj.bias"@ =~= "mlp.down_proj"@ + "."@ + "bias"@);
    lemma_block_name(i, "ffn_down"@, "bias"@, "ffn_down.bias"@, "mlp.down_proj"@, "mlp.down_proj.bias"@);
}

proof fn lemma_attn_qkv_weight(i: usize)
    ensures
        source_name(of_block(i, "attn_qkv.weight"@)) == Some(of_layer(i, "gguf.attn_qkv.weight"@)),
{
    lemma_parts();
    reveal_strlit(".");
    reveal_strlit("weight");
    reveal_strlit("attn_qkv");
    reveal_strlit("attn_qkv.weight");
    reveal_strlit("gguf.attn_qkv");
    reveal_strlit("gguf.attn_qkv.weight");
    assert("attn_qkv.weight"@ =~= "attn_qkv"@ + "."@ + "weight"@);
    assert("gguf.attn_qkv.weight"@ =~= "gguf.attn_qkv"@ + "."@ + "weight"@);
    lemma_block_name(i, "attn_qkv"@, "weight"@, "attn_qkv.weight"@, "gguf.attn_qkv"@, "gguf.attn_qkv.weight"@);
}

proof fn lemma_attn_qkv_bias(i: usize)
    ensures
        source_name(of_block(i, "attn_qkv.bias"@)) == Some(of_layer(i, "gguf.attn_qkv.bias"@)),
{
    lemma_parts();
    reveal_strlit(".");
    reveal_strlit("bias");
    reveal_strlit("attn_qkv");
    reveal_strlit("attn_qkv.bias");
    reveal_strlit("gguf.attn_qkv");
    reveal_strlit("gguf.attn_qkv.bias");
    assert("attn_qkv.bias"@ =~= "attn_qkv"@ + "."@ + "bias"@);
    assert("gguf.attn_qkv.bias"@ =~= "gguf.attn_qkv"@ + "."@ + "bias"@);
    lemma_block_name(i, "attn_qkv"@, "bias"@, "attn_qkv.bias"@, "gguf.attn_qkv"@, "gguf.attn_qkv.bias"@);
}

proof fn lemma_attn_gate_weight(i: usize)
    ensures
        source_name(of_block(i, "attn_gate.weight"@)) == Some(of_layer(i, "gguf.attn_gate.weight"@)),
{
    lemma_parts();
    reveal_strlit(".");
    reveal_strlit("weight");
    reveal_strlit("attn_gate");
    reveal_strlit("attn_gate.weight");
    reveal_strlit("gguf.attn_gate");
    reveal_strlit("gguf.attn_gate.weight");
    assert("attn_gate.weight"@ =~= "attn_gate"@ + "."@ + "weight"@);
    assert("gguf.attn_gate.weight"@ =~= "gguf.attn_gate"@ + "."@ + "weight"@);
    lemma_block_name(i, "attn_gate"@, "weight"@, "attn_gate.weight"@, "gguf.attn_gate"@, "gguf.attn_gate.weight"@);
}

proof fn lemma_attn_gate_bias(i: usize)
    ensures
        source_name(of_block(i, "attn_gate.bias"@)) == Some(of_layer(i, "gguf.attn_gate.bias"@)),
{
    lemma_parts();
    reveal_strlit(".");
    reveal_strlit("bias");
    reveal_strlit("attn_gate");
    reveal_strlit("attn_gate.bias");
    reveal_strlit("gguf.attn_gate");
    reveal_strlit("gguf.attn_gate.bias");
    assert("attn_gate.bias"@ =~= "attn_gate"@ + "."@ + "bias"@);
    assert("gguf.attn_gate.bias"@ =~= "gguf.attn_gate"@ + "."@ + "bias"@);
    lemma_block_name(i, "attn_gate"@, "bias"@, "attn_gate.bias"@, "gguf.attn_gate"@, "gguf.attn_gate.bias"@);
}

proof fn lemma_ssm_out_weight(i: usize)
    ensures
        source_name(of_block(i, "ssm_out.weight"@)) == Some(of_layer(i, "gguf.ssm_out.weight"@)),
{
    lemma_parts();
    reveal_strlit(".");
    reveal_strlit("weight");
    reveal_strlit("ssm_out");
    reveal_strlit("ssm_out.weight");
    reveal_strlit("gguf.ssm_out");
    reveal_strlit("gguf.ssm_out.weight");
    assert("ssm_out.weight"@ =~= "ssm_out"@ + "."@ + "weight"@);
    assert("gguf.ssm_out.weight"@ =~= "gguf.ssm_out"@ + "."@ + "weight"@);
    lemma_block_name(i, "ssm_out"@, "weight"@, "ssm_out.weight"@, "gguf.ssm_out"@, "gguf.ssm_out.weight"@);
}

proof fn lemma_ssm_out_bias(i: usize)
    ensures
        source_name(of_block(i, "ssm_out.bias"@)) == Some(of_layer(i, "gguf.ssm_out.bias"@)),
{
    lemma_parts();
    reveal_strlit(".");
    reveal_strlit("bias");
    reveal_strlit("ssm_out");
    reveal_strlit("ssm_out.bias");
    reveal_strlit("gguf.ssm_out");
    reveal_strlit("gguf.ssm_out.bias");
    assert("ssm_out.bias"@ =~= "ssm_out"@ + "."@ + "bias"@);
    assert("gguf.ssm_out.bias"@ =~= "gguf.ssm_out"@ + "."@ + "bias"@);
    lemma_block_name(i, "ssm_out"@, "bias"@, "ssm_out.bias"@, "gguf.ssm_out"@, "gguf.ssm_out.bias"@);
}

proof fn lemma_ssm_alpha_weight(i: usize)
    ensures
        source_name(of_block(i, "ssm_alpha.weight"@)) == Some(of_layer(i, "gguf.ssm_alpha.weight"@)),
{
    lemma_parts();
    reveal_strlit(".");
    reveal_strlit("weight");
    reveal_strlit("ssm_alpha");
    reveal_strlit("ssm_alpha.weight");
    reveal_strlit("gguf.ssm_alpha");
    reveal_strlit("gguf.ssm_alpha.weight");
    assert("ssm_alpha.weight"@ =~= "ssm_alpha"@ + "."@ + "weight"@);
    assert("gguf.ssm_alpha.weight"@ =~= "gguf.ssm_alpha"@ + "."@ + "weight"@);
    lemma_block_name(i, "ssm_alpha"@, "weight"@, "ssm_alpha.weight"@, "gguf.ssm_alpha"@, "gguf.ssm_alpha.weight"@);
}

proof fn lemma_ssm_alpha_bias(i: usize)
    ensures
        source_name(of_block(i, "ssm_alpha.bias"@)) == Some(of_layer(i, "gguf.ssm_alpha.bias"@)),
{
    lemma_parts();
    reveal_strlit(".");
    reveal_strlit("bias");
    reveal_strlit("ssm_alpha");
    reveal_strlit("ssm_alpha.bias");
    reveal_strlit("gguf.ssm_alpha");
    reveal_strlit("gguf.ssm_alpha.bias");
    assert("ssm_alpha.bias"@ =~= "ssm_alpha"@ + "."@ + "bias"@);
    assert("gguf.ssm_alpha.bias"@ =~= "gguf.ssm_alpha"@ + "."@ + "bias"@);
    lemma_block_name(i, "ssm_alpha"@, "bias"@, "ssm_alpha.bias"@, "gguf.ssm_alpha"@, "gguf.ssm_alpha.bias"@);
}

proof fn lemma_ssm_beta_weight(i: usize)
    ensures
        source_name(of_block(i, "ssm_beta.weight"@)) == Some(of_layer(i, "gguf.ssm_beta.weight"@)),
{
    lemma_parts();
    reveal_strlit(".");
    reveal_strlit("weight");
    reveal_strlit("ssm_beta");
    reveal_strlit("ssm_beta.weight");
    reveal_strlit("gguf.ssm_beta");
    reveal_strlit("gguf.ssm_beta.weight");
    assert("ssm_beta.weight"@ =~= "ssm_beta"@ + "."@ + "weight"@);
    assert("gguf.ssm_beta.weight"@ =~= "gguf.ssm_beta"@ + "."@ + "weight"@);
    lemma_block_name(i, "ssm_beta"@, "weight"@, "ssm_beta.weight"@, "gguf.ssm_beta"@, "gguf.ssm_beta.weight"@);
}

proof fn lemma_ssm_beta_bias(i: usize)
    ensures
        source_name(of_block(i, "ssm_beta.bias"@)) == Some(of_layer(i, "gguf.ssm_beta.bias"@)),
{
    lemma_parts();
    reveal_strlit(".");
    reveal_strlit("bias");
    reveal_strlit("ssm_beta");
    reveal_strlit("ssm_beta.bias");
    reveal_strlit("gguf.ssm_beta");
    reveal_strlit("gguf.ssm_beta.bias");
    assert("ssm_beta.bias"@ =~= "ssm_beta"@ + "."@ + "bias"@);
    assert("gguf.ssm_beta.bias"@ =~= "gguf.ssm_beta"@ + "."@ + "bias"@);
    lemma_block_name(i, "ssm_beta"@, "bias"@, "ssm_beta.bias"@, "gguf.ssm_beta"@, "gguf.ssm_beta.bias"@);
}

proof fn lemma_attn_norm_weight(i: usize)
    ensures
        source_name(of_block(i, "attn_norm.weight"@)) == Some(of_layer(i, "input_layernorm.weight"@)),
{
    lemma_parts();
    reveal_strlit(".");
    reveal_strlit("weight");
    reveal_strlit("attn_norm");
    reveal_strlit("attn_norm.weight");
    reveal_strlit("input_layernorm");
    reveal_strlit("input_layernorm.weight");
    assert("attn_norm.weight"@ =~= "attn_norm"@ + "."@ + "weight"@);
    assert("input_layernorm.weight"@ =~= "input_layernorm"@ + "."@ + "weight"@);
    lemma_block_name(i, "attn_norm"@, "weight"@, "attn_norm.weight"@, "input_layernorm"@, "input_layernorm.weight"@);
}

proof fn lemma_attn_q_norm_weight(i: usize)
    ensures
        source_name(of_block(i, "attn_q_norm.weight"@)) == Some(of_layer(i, "self_attn.q_norm.weight"@)),
{
    lemma_parts();
    reveal_strlit(".");
    reveal_strlit("weight");
    reveal_strlit("attn_q_norm");
    reveal_strlit("attn_q_norm.weight");
    reveal_strlit("self_attn.q_norm");
    reveal_strlit("self_attn.q_norm.weight");
    assert("attn_q_norm.weight"@ =~= "attn_q_norm"@ + "."@ + "weight"@);
    assert("self_attn.q_norm.weight"@ =~= "self_attn.q_norm"@ + "."@ + "weight"@);
    lemma_block_name(i, "attn_q_norm"@, "weight"@, "attn_q_norm.weight"@, "self_attn.q_norm"@, "self_attn.q_norm.weight"@);
}

proof fn lemma_attn_k_norm_weight(i: usize)
    ensures
        source_name(of_block(i, "attn_k_norm.weight"@)) == Some(of_layer(i, "self_attn.k_norm.weight"@)),
{
    lemma_parts();
    reveal_strlit(".");
    reveal_strlit("weight");
    reveal_strlit("attn_k_norm");
    reveal_strlit("attn_k_norm.weight");
    reveal_strlit("self_attn.k_norm");
    reveal_strlit("self_attn.k_norm.weight");
    assert("attn_k_norm.weight"@ =~= "attn_k_norm"@ + "."@ + "weight"@);
    assert("self_attn.k_norm.weight"@ =~= "self_attn.k_norm"@ + "."@ + "weight"@);
    lemma_block_name(i, "attn_k_norm"@, "weight"@, "attn_k_norm.weight"@, "self_attn.k_norm"@, "self_attn.k_norm.weight"@);
}

proof fn lemma_ssm_conv1d_weight(i: usize)
    ensures
        source_name(of_block(i, "ssm_conv1d.weight"@)) == Some(of_layer(i, "gguf.ssm_conv1d.weight"@)),
{
    lemma_parts();
    reveal_strlit(".");
    reveal_strlit("weight");
    reveal_strlit("ssm_conv1d");
    reveal_strlit("ssm_conv1d.weight");
    reveal_strlit("gguf.ssm_conv1d");
    reveal_strlit("gguf.ssm_conv1d.weight");
    assert("ssm_conv1d.weight"@ =~= "ssm_conv1d"@ + "."@ + "weight"@);
    assert("gguf.ssm_conv1d.weight"@ =~= "gguf.ssm_conv1d"@ + "."@ + "weight"@);
    lemma_block_name(i, "ssm_conv1d"@, "weight"@, "ssm_conv1d.weight"@, "gguf.ssm_conv1d"@, "gguf.ssm_conv1d.weight"@);
}

proof fn lemma_ssm_dt_bias(i: usize)
    ensures
        source_name(of_block(i, "ssm_dt.bias"@)) == Some(of_layer(i, "gguf.ssm_dt.bias"@)),
{
    lemma_parts();
    reveal_strlit(".");
    reveal_strlit("bias");
    reveal_strlit("ssm_dt");
    reveal_strlit("ssm_dt.bias");
    reveal_strlit("gguf.ssm_dt");
    reveal_strlit("gguf.ssm_dt.bias");
    assert("ssm_dt.bias"@ =~= "ssm_dt"@ + "."@ + "bias"@);
    assert("gguf.ssm_dt.bias"@ =~= "gguf.ssm_dt"@ + "."@ + "bias"@);
    lemma_block_name(i, "ssm_dt"@, "bias"@, "ssm_dt.bias"@, "gguf.ssm_dt"@, "gguf.ssm_dt.bias"@);
}

proof fn lemma_ssm_norm_weight(i: usize)
    ensures
        source_name(of_block(i, "ssm_norm.weight"@)) == Some(of_layer(i, "gguf.ssm_norm.weight"@)),
{
    lemma_parts();
    reveal_strlit(".");
    reveal_strlit("weight");
    reveal_strlit("ssm_norm");
    reveal_strlit("ssm_norm.weight");
    reveal_strlit("gguf.ssm_norm");
    reveal_strlit("gguf.ssm_norm.weight");
    assert("ssm_norm.weight"@ =~= "ssm_norm"@ + "."@ + "weight"@);
    assert("gguf.ssm_norm.weight"@ =~= "gguf.ssm_norm"@ + "."@ + "weight"@);
    lemma_block_name(i, "ssm_norm"@, "weight"@, "ssm_norm.weight"@, "gguf.ssm_norm"@, "gguf.ssm_norm.weight"@);
}

proof fn lemma_post_attention_norm_weight(i: usize)
    ensures
        source_name(of_block(i, "post_attention_norm.weight"@)) == Some(of_layer(i, "gguf.post_attention_norm.weight"@)),
{
    lemma_parts();
    reveal_strlit(".");
    reveal_strlit("weight");
    reveal_strlit("post_attention_norm");
    reveal_strlit("post_attention_norm.weight");
    reveal_strlit("gguf.post_attention_norm");
    reveal_strlit("gguf.post_attention_norm.weight");
    assert("post_attention_norm.weight"@ =~= "post_attention_norm"@ + "."@ + "weight"@);
    assert("gguf.post_attention_norm.weight"@ =~= "gguf.post_attention_norm"@ + "."@ + "weight"@);
    lemma_block_name(i, "post_attention_norm"@, "weight"@, "post_attention_norm.weight"@, "gguf.post_attention_norm"@, "gguf.post_attention_norm.weight"@);
}

proof fn lemma_ffn_norm_weight(i: usize)
    ensures
        source_name(of_block(i, "ffn_norm.weight"@)) == Some(of_layer(i, "post_attention_layernorm.weight"@)),
{
    lemma_parts();
    reveal_strlit(".");
    reveal_strlit("weight");
    reveal_strlit("ffn_norm");
    reveal_strlit("ffn_norm.weight");
    reveal_strlit("post_attention_layernorm");
    reveal_strlit("post_attention_layernorm.weight");
    assert("ffn_norm.weight"@ =~= "ffn_norm"@ + "."@ + "weight"@);
    assert("post_attention_layernorm.weight"@ =~= "post_attention_layernorm"@ + "."@ + "weight"@);
    lemma_block_name(i, "ffn_norm"@, "weight"@, "ffn_norm.weight"@, "post_attention_layernorm"@, "post_attention_layernorm.weight"@);
}

/// A file's name of a buffer's tensor is the name under which it is loaded.
pub proof fn lemma_file_name_reaches_its_buffer(b: Buf, hybrid: bool, tied: bool)
    ensures
        file_name(b, hybrid, tied) matches Some(name) ==> source_name(name) == home_of(b, hybrid, tied),
{
    match b {
        Buf::Weight(i, Proj::Q) => {
            lemma_attn_q_weight(i);
        },
        Buf::Bias(i, Proj::Q) => {
            lemma_attn_q_bias(i);
        },
        Buf::Weight(i, Proj::K) => {
            lemma_attn_k_weight(i);
        },
        Buf::Bias(i, Proj::K) => {
            lemma_attn_k_bias(i);
        },
        Buf::Weight(i, Proj::V) => {
            lemma_attn_v_weight(i);
        },
        Buf::Bias(i, Proj::V) => {
            lemma_attn_v_bias(i);
        },
        Buf::Weight(i, Proj::O) => {
            lemma_attn_output_weight(i);
        },
        Buf::Bias(i, Proj::O) => {
            lemma_attn_output_bias(i);
        },
        Buf::Weight(i, Proj::Gate) => {
            lemma_ffn_gate_weight(i);
        },
        Buf::Bias(i, Proj::Gate) => {
            lemma_ffn_gate_bias(i);
        },
        Buf::Weight(i, Proj::Up) => {
            lemma_ffn_up_weight(i);
        },
        Buf::Bias(i, Proj::Up) => {
            lemma_ffn_up_bias(i);
        },
        Buf::Weight(i, Proj::Down) => {
            lemma_ffn_down_weight(i);
        },
        Buf::Bias(i, Proj::Down) => {
            lemma_ffn_down_bias(i);
        },
        Buf::Weight(i, Proj::DnQkv) => {
            lemma_attn_qkv_weight(i);
        },
        Buf::Bias(i, Proj::DnQkv) => {
            lemma_attn_qkv_bias(i);
        },
        Buf::Weight(i, Proj::DnZ) => {
            lemma_attn_gate_weight(i);
        },
        Buf::Bias(i, Proj::DnZ) => {
            lemma_attn_gate_bias(i);
        },
        Buf::Weight(i, Proj::DnOut) => {
            lemma_ssm_out_weight(i);
        },
        Buf::Bias(i, Proj::DnOut) => {
            lemma_ssm_out_bias(i);
        },
        Buf::Weight(i, Proj::DnAlpha) => {
            lemma_ssm_alpha_weight(i);
        },
        Buf::Bias(i, Proj::DnAlpha) => {
            lemma_ssm_alpha_bias(i);
        },
        Buf::Weight(i, Proj::DnBeta) => {
            lemma_ssm_beta_weight(i);
        },
        Buf::Bias(i, Proj::DnBeta) => {
            lemma_ssm_beta_bias(i);
        },
        Buf::Norm(i, NormId::Input) => {
            lemma_attn_norm_weight(i);
        },
        Buf::Norm(i, NormId::QHead) => {
            lemma_attn_q_norm_weight(i);
        },
        Buf::Norm(i, NormId::KHead) => {
            lemma_attn_k_norm_weight(i);
        },
        Buf::Small(i, SmallId::Conv1d) => {
            lemma_ssm_conv1d_weight(i);
        },
        Buf::Small(i, SmallId::DtBias) => {
            lemma_ssm_dt_bias(i);
        },
        Buf::Small(i, SmallId::SsmNorm) => {
            lemma_ssm_norm_weight(i);
        },
        Buf::Norm(i, NormId::Post) => {
            if hybrid {
                lemma_post_attention_norm_weight(i);
            } else {
                lemma_ffn_norm_weight(i);
            }
        },
        Buf::Small(i, SmallId::A) => {
            lemma_bare_name(i);
        },
        Buf::Norm(_, NormId::Final) => {
            lemma_fixed_names();
        },
        Buf::Weight(_, Proj::Head) => {
            lemma_fixed_names();
        },
        _ => {},
    }
}

proof fn lemma_fixed_names()
    ensures
        source_name("token_embd.weight"@) == Some("model.embed_tokens.weight"@),
        source_name("output_norm.weight"@) == Some("model.norm.weight"@),
        source_name("output.weight"@) == Some("lm_head.weight"@),
{
    reveal_strlit("token_embd.weight");
    reveal_strlit("output_norm.weight");
    reveal_strlit("output.weight");
    assert("token_embd.weight"@.len() == 17);
    assert("output_norm.weight"@.len() == 18);
    assert("output.weight"@.len() == 13);
}

} // verus!
