//! Which tensors of a quantized checkpoint a model takes, what each must look
//! like, and the kernels that read them.
use vstd::prelude::*;
use vstd::string::*;

use crate::gguf::arch::{after_prefix, hf, hf_name, strip};
use crate::gguf::container::GgufFile;
use crate::gguf::ggml_type::GgmlType;
use crate::gguf::layout::TensorView;
use crate::gpu::linear_block::DeltaGeo;
use crate::gpu::ops::{Buf, Geo, NormId, Proj, SmallId};
use crate::gpu::quant::{QuantAttn, QuantBlock, QuantModel};
use crate::gpu::state::{LayerStateKind, schedule};
use crate::gpu::timing::{NO_SELECTOR, SrcType};
use crate::text::{
    chars_of, dec, dec_text, ends, find, join, join_texts, parse_number, parse_usize, push_dec, same, split_once,
    text_of, texts,
};

verus! {

/// A tensor as the checkpoint's header describes it.
pub struct SourceTensor {
    pub name: String,
    pub ty: SrcType,
    pub shape: Vec<u64>,
}

pub struct SourceView {
    pub name: Seq<char>,
    pub ty: SrcType,
    pub shape: Seq<u64>,
}

impl View for SourceTensor {
    type V = SourceView;

    open spec fn view(&self) -> SourceView {
        SourceView { name: self.name@, ty: self.ty, shape: self.shape@ }
    }
}

pub open spec fn sources(v: Seq<SourceTensor>) -> Seq<SourceView> {
    Seq::new(v.len(), |i: int| v[i]@)
}

/// A tensor of this name is there.
pub open spec fn present(src: Seq<SourceView>, name: Seq<char>) -> bool {
    exists|i: int| 0 <= i < src.len() && (#[trigger] src[i]).name == name
}

/// The first tensor of this name.
pub open spec fn found(src: Seq<SourceView>, name: Seq<char>) -> SourceView
    decreases src.len(),
{
    if src.len() <= 1 || src[0].name == name {
        src[0]
    } else {
        found(src.drop_first(), name)
    }
}

// ---------- a file's tensors ----------

/// The type of a tensor as the kernels see it.
pub open spec fn kernel_type(t: GgmlType) -> SrcType {
    match t {
        GgmlType::F16 => SrcType::F16,
        GgmlType::F32 => SrcType::F32,
        other => SrcType::Quant(other),
    }
}

pub fn src_type(t: GgmlType) -> (r: SrcType)
    ensures
        r == kernel_type(t),
{
    match t {
        GgmlType::F16 => SrcType::F16,
        GgmlType::F32 => SrcType::F32,
        other => SrcType::Quant(other),
    }
}

/// The name of a block's tensor that is neither a weight nor a bias: its part's
/// name as it is.
pub open spec fn bare_name(name: Seq<char>) -> Option<Seq<char>> {
    match after_prefix(name, "blk."@) {
        None => None,
        Some(tail) => match split_once(tail, '.') {
            None => None,
            Some((n, part)) => match parse_number(n, usize::MAX as nat) {
                Some(i) if part.index_of_first('.') is None => Some(part_name(i, "gguf."@ + part)),
                _ => None,
            },
        },
    }
}

/// The name that a model uses for a tensor of a file.
pub open spec fn source_name(name: Seq<char>) -> Option<Seq<char>> {
    match hf(name) {
        Some(n) => Some(n),
        None => bare_name(name),
    }
}

pub fn name_of_source(name: &str) -> (r: Option<String>)
    ensures
        match r {
            Some(s) => source_name(name@) == Some(s@),
            None => source_name(name@) is None,
        },
{
    if let Some(n) = hf_name(name) {
        return Some(n);
    }
    let chars = chars_of(name);
    let tail = match strip(chars.as_slice(), "blk.") {
        None => return None,
        Some(t) => t,
    };
    let dot: usize = match find(tail, '.') {
        None => return None,
        Some(i) => i,
    };
    let n = vstd::slice::slice_subrange(tail, 0, dot);
    let part = vstd::slice::slice_subrange(tail, dot + 1, tail.len());
    assert(n@ =~= tail@.take(dot as int));
    assert(part@ =~= tail@.skip(dot + 1));
    match (parse_usize(n), find(part, '.')) {
        (Some(i), None) => {
            let mut rest = "gguf.".to_owned();
            rest.append(text_of(part).as_str());
            Some(name_of_part(i, rest.as_str()))
        },
        _ => None,
    }
}

/// The first `k` tensors of a file under the names that a model uses. A tensor
/// without such a name is left out.
pub open spec fn source_list(ts: Seq<TensorView>, k: nat) -> Seq<SourceView>
    decreases k,
{
    if k == 0 {
        Seq::empty()
    } else {
        let before = source_list(ts, (k - 1) as nat);
        let t = ts[k - 1];
        match source_name(t.name) {
            Some(name) => before.push(SourceView { name, ty: kernel_type(t.ty), shape: t.dims }),
            None => before,
        }
    }
}

/// The tensors of a file under the names that a model uses.
pub fn file_sources(g: &GgufFile) -> (r: Vec<SourceTensor>)
    ensures
        sources(r@) == source_list(g@.tensors, g@.tensors.len()),
{
    let n: usize = g.n_tensors();
    let mut out: Vec<SourceTensor> = Vec::new();
    assert(sources(out@) =~= Seq::<SourceView>::empty());
    let mut i: usize = 0;
    while i < n
        invariant
            n == g@.tensors.len(),
            i <= n,
            sources(out@) == source_list(g@.tensors, i as nat),
        decreases n - i,
    {
        let t = g.tensor_at(i);
        if let Some(name) = name_of_source(t.name.as_str()) {
            let ghost before = sources(out@);
            let one = SourceTensor { name, ty: src_type(t.ty), shape: t.dims };
            let ghost v = one@;
            out.push(one);
            assert(sources(out@) =~= before.push(v));
        }
        i = i + 1;
    }
    out
}

/// The quantized types among the first `k` tensors of a file, each once.
pub open spec fn type_list(ts: Seq<TensorView>, k: nat) -> Seq<GgmlType>
    decreases k,
{
    if k == 0 {
        Seq::empty()
    } else {
        let before = type_list(ts, (k - 1) as nat);
        let t = ts[k - 1].ty;
        if kernel_type(t) is Quant && !before.contains(t) {
            before.push(t)
        } else {
            before
        }
    }
}

fn has_type(v: &Vec<GgmlType>, t: GgmlType) -> (r: bool)
    ensures
        r == v@.contains(t),
{
    let mut i: usize = 0;
    while i < v.len()
        invariant
            i <= v@.len(),
            forall|j: int| 0 <= j < i ==> v@[j] != t,
        decreases v.len() - i,
    {
        if v[i] == t {
            return true;
        }
        i = i + 1;
    }
    false
}

/// The quantized types of a file, each once, in the order of the file.
pub fn file_types(g: &GgufFile) -> (r: Vec<GgmlType>)
    ensures
        r@ == type_list(g@.tensors, g@.tensors.len()),
{
    let n: usize = g.n_tensors();
    let mut out: Vec<GgmlType> = Vec::new();
    let mut i: usize = 0;
    while i < n
        invariant
            n == g@.tensors.len(),
            i <= n,
            out@ == type_list(g@.tensors, i as nat),
        decreases n - i,
    {
        let t = g.tensor_at(i).ty;
        let quant = match src_type(t) {
            SrcType::Quant(_) => true,
            _ => false,
        };
        if quant && !has_type(&out, t) {
            out.push(t);
        }
        i = i + 1;
    }
    out
}

/// Every quantized tensor of a file has its type among the file's types.
pub proof fn lemma_file_types_cover(ts: Seq<TensorView>, k: nat, i: int)
    requires
        k <= ts.len(),
        0 <= i < source_list(ts, k).len(),
    ensures
        source_list(ts, k)[i].ty matches SrcType::Quant(t) ==> type_list(ts, k).contains(t),
    decreases k,
{
    let before = source_list(ts, (k - 1) as nat);
    let types = type_list(ts, (k - 1) as nat);
    let after = type_list(ts, k);
    if i < before.len() {
        lemma_file_types_cover(ts, (k - 1) as nat, i);
        if let SrcType::Quant(t) = before[i].ty {
            let j = choose|j: int| 0 <= j < types.len() && types[j] == t;
            assert(after[j] == t);
        }
    } else {
        let t = ts[k - 1].ty;
        if kernel_type(t) is Quant && !types.contains(t) {
            assert(after.last() == t);
        }
    }
}

/// A file of the Llama family holds the rows of its query and key projections in
/// the order of its own rotation.
pub open spec fn is_permuted(arch: Seq<char>, name: Seq<char>) -> bool {
    arch == "llama"@ && (".q_proj"@.is_suffix_of(name) || ".k_proj"@.is_suffix_of(name))
}

/// Whether the rows of a matrix are to be put back into the model's order.
pub fn stored_permuted(arch: &str, name: &str) -> (r: bool)
    ensures
        r == is_permuted(arch@, name@),
{
    let chars = chars_of(name);
    let (q, k) = (chars_of(".q_proj"), chars_of(".k_proj"));
    same(arch, "llama") && (ends(chars.as_slice(), q.as_slice()) || ends(chars.as_slice(), k.as_slice()))
}

// ---------- pipelines ----------

/// The text that refuses a type without kernels.
pub open spec fn no_pipeline(t: GgmlType) -> Seq<char> {
    "GGUF type "@ + t.label() + " has no metal quant pipeline yet — re-download as Q4_K_M or Q8_0"@
}

/// The selectors to build kernels for: those of the file's types, each once, in
/// order; then the half-precision one where it is not among them.
pub open spec fn selectors(types: Seq<GgmlType>, k: nat) -> Result<Seq<u32>, Seq<char>>
    decreases k,
{
    if k == 0 {
        Ok(Seq::empty())
    } else {
        match selectors(types, (k - 1) as nat) {
            Err(e) => Err(e),
            Ok(s) => {
                let t = types[k - 1];
                let sel = SrcType::Quant(t).selector();
                if sel == NO_SELECTOR {
                    Err(no_pipeline(t))
                } else if s.contains(sel) {
                    Ok(s)
                } else {
                    Ok(s.push(sel))
                }
            },
        }
    }
}

pub open spec fn all_selectors(types: Seq<GgmlType>) -> Result<Seq<u32>, Seq<char>> {
    match selectors(types, types.len()) {
        Err(e) => Err(e),
        Ok(s) => Ok(if s.contains(0) { s } else { s.push(0) }),
    }
}

fn among(v: &Vec<u32>, x: u32) -> (r: bool)
    ensures
        r == v@.contains(x),
{
    let mut i: usize = 0;
    while i < v.len()
        invariant
            i <= v@.len(),
            forall|j: int| 0 <= j < i ==> v@[j] != x,
        decreases v.len() - i,
    {
        if v[i] == x {
            return true;
        }
        i = i + 1;
    }
    false
}

/// The selectors that a file's types need kernels for, or the refusal of the
/// first type that has none.
pub fn quant_pipelines(types: &Vec<GgmlType>) -> (r: Result<Vec<u32>, String>)
    ensures
        match r {
            Ok(v) => all_selectors(types@) == Ok::<Seq<u32>, Seq<char>>(v@),
            Err(e) => all_selectors(types@) == Err::<Seq<u32>, Seq<char>>(e@),
        },
{
    let mut out: Vec<u32> = Vec::new();
    let mut i: usize = 0;
    while i < types.len()
        invariant
            i <= types@.len(),
            selectors(types@, i as nat) == Ok::<Seq<u32>, Seq<char>>(out@),
        decreases types.len() - i,
    {
        let t = types[i];
        let sel: u32 = SrcType::Quant(t).qtype();
        if sel == NO_SELECTOR {
            let mut e = "GGUF type ".to_owned();
            e.append(t.name());
            e.append(" has no metal quant pipeline yet — re-download as Q4_K_M or Q8_0");
            proof {
                lemma_refusal_stays(types@, (i + 1) as nat, types@.len(), e@);
            }
            return Err(e);
        }
        if !among(&out, sel) {
            out.push(sel);
        }
        i = i + 1;
    }
    if !among(&out, 0) {
        out.push(0);
    }
    Ok(out)
}

proof fn lemma_refusal_stays(types: Seq<GgmlType>, i: nat, k: nat, e: Seq<char>)
    requires
        i <= k,
        selectors(types, i) == Err::<Seq<u32>, Seq<char>>(e),
    ensures
        selectors(types, k) == Err::<Seq<u32>, Seq<char>>(e),
    decreases k,
{
    if i < k {
        lemma_refusal_stays(types, i, (k - 1) as nat, e);
    }
}

// ---------- what is loaded ----------

/// What a tensor must be: a matrix, a vector, or a vector that may be absent.
#[derive(Debug, Clone, Copy, PartialEq, Eq, Structural)]
pub enum Want {
    Matrix { in_dim: u32, out_dim: u32 },
    Vector,
    MaybeVector,
}

/// A tensor of the model: where it is in the checkpoint and where it goes. A
/// matrix's name stands without its `.weight`.
pub struct Item {
    pub name: String,
    pub dest: Buf,
    pub want: Want,
}

pub struct ItemView {
    pub name: Seq<char>,
    pub dest: Buf,
    pub want: Want,
}

impl View for Item {
    type V = ItemView;

    open spec fn view(&self) -> ItemView {
        ItemView { name: self.name@, dest: self.dest, want: self.want }
    }
}

pub open spec fn items_of(v: Seq<Item>) -> Seq<ItemView> {
    Seq::new(v.len(), |i: int| v[i]@)
}

/// The name of a part of layer `i`.
pub open spec fn part_name(i: nat, part: Seq<char>) -> Seq<char> {
    "model.layers."@ + dec(i) + "."@ + part
}

/// A matrix, and behind it its bias where the checkpoint has one.
pub open spec fn with_bias(s: Seq<ItemView>, name: Seq<char>, i: usize, proj: Proj, in_dim: u32, out_dim: u32) -> Seq<
    ItemView,
> {
    s.push(ItemView { name, dest: Buf::Weight(i, proj), want: Want::Matrix { in_dim, out_dim } }).push(
        ItemView { name: name + ".bias"@, dest: Buf::Bias(i, proj), want: Want::MaybeVector },
    )
}

pub open spec fn with_matrix(s: Seq<ItemView>, i: usize, part: Seq<char>, proj: Proj, in_dim: u32, out_dim: u32) -> Seq<
    ItemView,
> {
    with_bias(s, part_name(i as nat, part), i, proj, in_dim, out_dim)
}

pub open spec fn with_vector(s: Seq<ItemView>, i: usize, part: Seq<char>, dest: Buf, want: Want) -> Seq<ItemView> {
    s.push(ItemView { name: part_name(i as nat, part), dest, want })
}

/// The tensors of a linear block.
pub open spec fn linear_items(s: Seq<ItemView>, g: Geo, d: DeltaGeo, i: usize) -> Seq<ItemView> {
    let s = with_matrix(s, i, "gguf.attn_qkv"@, Proj::DnQkv, g.hidden, d.channels);
    let s = with_matrix(s, i, "gguf.attn_gate"@, Proj::DnZ, g.hidden, d.inner);
    let s = with_matrix(s, i, "gguf.ssm_out"@, Proj::DnOut, d.inner, g.hidden);
    let s = with_matrix(s, i, "gguf.ssm_alpha"@, Proj::DnAlpha, g.hidden, d.n_v_heads);
    let s = with_matrix(s, i, "gguf.ssm_beta"@, Proj::DnBeta, g.hidden, d.n_v_heads);
    let s = with_vector(s, i, "gguf.ssm_conv1d.weight"@, Buf::Small(i, SmallId::Conv1d), Want::Vector);
    let s = with_vector(s, i, "gguf.ssm_a"@, Buf::Small(i, SmallId::A), Want::Vector);
    let s = with_vector(s, i, "gguf.ssm_dt.bias"@, Buf::Small(i, SmallId::DtBias), Want::Vector);
    with_vector(s, i, "gguf.ssm_norm.weight"@, Buf::Small(i, SmallId::SsmNorm), Want::Vector)
}

/// The tensors of a full-attention block.
pub open spec fn full_items(s: Seq<ItemView>, g: Geo, i: usize) -> Seq<ItemView> {
    let s = with_matrix(s, i, "self_attn.q_proj"@, Proj::Q, g.hidden, g.q_proj_dim);
    let s = with_matrix(s, i, "self_attn.k_proj"@, Proj::K, g.hidden, g.kv_dim);
    let s = with_matrix(s, i, "self_attn.v_proj"@, Proj::V, g.hidden, g.kv_dim);
    let s = with_matrix(s, i, "self_attn.o_proj"@, Proj::O, g.q_dim, g.hidden);
    let s = with_vector(s, i, "self_attn.q_norm.weight"@, Buf::Norm(i, NormId::QHead), Want::MaybeVector);
    with_vector(s, i, "self_attn.k_norm.weight"@, Buf::Norm(i, NormId::KHead), Want::MaybeVector)
}

/// The norms and the feed-forward part of a layer. The second norm is named
/// after the checkpoint's family.
pub open spec fn common_items(s: Seq<ItemView>, g: Geo, hybrid: bool, i: usize) -> Seq<ItemView> {
    let post = if hybrid { "gguf.post_attention_norm.weight"@ } else { "post_attention_layernorm.weight"@ };
    let s = with_vector(s, i, "input_layernorm.weight"@, Buf::Norm(i, NormId::Input), Want::Vector);
    let s = with_vector(s, i, post, Buf::Norm(i, NormId::Post), Want::Vector);
    let s = with_matrix(s, i, "mlp.gate_proj"@, Proj::Gate, g.hidden, g.inter);
    let s = with_matrix(s, i, "mlp.up_proj"@, Proj::Up, g.hidden, g.inter);
    with_matrix(s, i, "mlp.down_proj"@, Proj::Down, g.inter, g.hidden)
}

/// The tensors of layer `i`.
pub open spec fn layer_items(s: Seq<ItemView>, g: Geo, hybrid: Option<(Seq<bool>, DeltaGeo)>, i: usize) -> Seq<ItemView> {
    match hybrid {
        Some((map, d)) => if map[i as int] {
            common_items(linear_items(s, g, d, i), g, true, i)
        } else {
            common_items(full_items(s, g, i), g, true, i)
        },
        None => common_items(full_items(s, g, i), g, false, i),
    }
}

/// The tensors of the first `k` layers.
pub open spec fn trunk_items(g: Geo, hybrid: Option<(Seq<bool>, DeltaGeo)>, k: nat) -> Seq<ItemView>
    decreases k,
{
    if k == 0 {
        Seq::empty()
    } else {
        layer_items(trunk_items(g, hybrid, (k - 1) as nat), g, hybrid, (k - 1) as usize)
    }
}

/// The head's name: its own tensor, else the embedding's.
pub open spec fn head_name(src: Seq<SourceView>) -> Seq<char> {
    if present(src, "lm_head.weight"@) {
        "lm_head"@
    } else {
        "model.embed_tokens"@
    }
}

/// All tensors of a model, in the order in which they are loaded.
pub open spec fn all_items(src: Seq<SourceView>, g: Geo, hybrid: Option<(Seq<bool>, DeltaGeo)>, layers: nat) -> Seq<
    ItemView,
> {
    let s = trunk_items(g, hybrid, layers).push(
        ItemView { name: "model.norm.weight"@, dest: Buf::Norm(layers as usize, NormId::Final), want: Want::Vector },
    );
    with_bias(s, head_name(src), layers as usize, Proj::Head, g.hidden, g.vocab)
}

// ---------- what is wrong with a tensor ----------

pub open spec fn absent(name: Seq<char>) -> Seq<char> {
    "tensor "@ + name + " not in the GGUF file"@
}

/// The selector of a matrix, where its type has kernels.
pub open spec fn matrix_selector(name: Seq<char>, ty: SrcType) -> Result<u32, Seq<char>> {
    match ty {
        SrcType::Quant(t) => if SrcType::Quant(t).selector() == NO_SELECTOR {
            Err(name + ": "@ + t.label() + " has no metal quant pipeline yet"@)
        } else {
            Ok(SrcType::Quant(t).selector())
        },
        SrcType::F16 | SrcType::F32 => Ok(0),
        SrcType::Bf16 => Err(name + ": bf16 inside a GGUF is unsupported"@),
    }
}

/// A shape as it is written.
pub open spec fn shape_text(shape: Seq<u64>) -> Seq<char> {
    "["@ + join(Seq::new(shape.len(), |i: int| dec(shape[i] as nat)), ", "@) + "]"@
}

pub open spec fn shape_error(name: Seq<char>, shape: Seq<u64>, in_dim: u32, out_dim: u32) -> Seq<char> {
    name + ": shape "@ + shape_text(shape) + ", expected ["@ + dec(out_dim as nat) + ", "@ + dec(in_dim as nat) + "]"@
}

/// What keeps an item from being loaded.
pub open spec fn item_error(src: Seq<SourceView>, it: ItemView) -> Option<Seq<char>> {
    match it.want {
        Want::MaybeVector => None,
        Want::Vector => if present(src, it.name) {
            None
        } else {
            Some(absent(it.name))
        },
        Want::Matrix { in_dim, out_dim } => {
            let w = it.name + ".weight"@;
            let t = found(src, w);
            if !present(src, w) {
                Some(absent(w))
            } else {
                match matrix_selector(it.name, t.ty) {
                    Err(e) => Some(e),
                    Ok(_) => if t.shape == seq![out_dim as u64, in_dim as u64] {
                        None
                    } else {
                        Some(shape_error(it.name, t.shape, in_dim, out_dim))
                    },
                }
            }
        },
    }
}

/// The first error among the first `k` items.
pub open spec fn first_error(src: Seq<SourceView>, items: Seq<ItemView>, k: nat) -> Option<Seq<char>>
    decreases k,
{
    if k == 0 {
        None
    } else {
        match first_error(src, items, (k - 1) as nat) {
            Some(e) => Some(e),
            None => item_error(src, items[k - 1]),
        }
    }
}

// ---------- the model that is loaded ----------

/// The selector of the matrix `name`. Where the matrix cannot be loaded, it is
/// the half-precision one.
pub open spec fn name_selector(src: Seq<SourceView>, name: Seq<char>) -> u32 {
    match matrix_selector(name, found(src, name + ".weight"@).ty) {
        Ok(x) if present(src, name + ".weight"@) => x,
        _ => 0,
    }
}

/// The selector of a part of layer `i`.
pub open spec fn part_selector(src: Seq<SourceView>, i: nat, part: Seq<char>) -> u32 {
    name_selector(src, part_name(i, part))
}

/// The block of layer `i`.
pub open spec fn block_of(src: Seq<SourceView>, map: Option<Seq<bool>>, i: nat) -> QuantBlock {
    QuantBlock {
        attn: if map is Some && map->0[i as int] {
            QuantAttn::Linear {
                qkv: part_selector(src, i, "gguf.attn_qkv"@),
                z: part_selector(src, i, "gguf.attn_gate"@),
                alpha: part_selector(src, i, "gguf.ssm_alpha"@),
                beta: part_selector(src, i, "gguf.ssm_beta"@),
                out: part_selector(src, i, "gguf.ssm_out"@),
            }
        } else {
            QuantAttn::Full {
                q: part_selector(src, i, "self_attn.q_proj"@),
                k: part_selector(src, i, "self_attn.k_proj"@),
                v: part_selector(src, i, "self_attn.v_proj"@),
                o: part_selector(src, i, "self_attn.o_proj"@),
                qk_norm: present(src, part_name(i, "self_attn.q_norm.weight"@)) && present(
                    src,
                    part_name(i, "self_attn.k_norm.weight"@),
                ),
            }
        },
        gate: part_selector(src, i, "mlp.gate_proj"@),
        up: part_selector(src, i, "mlp.up_proj"@),
        down: part_selector(src, i, "mlp.down_proj"@),
    }
}

proof fn lemma_found(src: Seq<SourceView>, name: Seq<char>, i: int)
    requires
        0 <= i < src.len(),
        src[i].name == name,
        forall|j: int| 0 <= j < i ==> (#[trigger] src[j]).name != name,
    ensures
        found(src, name) == src[i],
    decreases src.len(),
{
    if i > 0 {
        let rest = src.drop_first();
        assert forall|j: int| 0 <= j < i - 1 implies (#[trigger] rest[j]).name != name by {
            assert(src[j + 1].name != name);
        }
        lemma_found(rest, name, i - 1);
    }
}

/// The first tensor of a name.
fn find_tensor(src: &Vec<SourceTensor>, name: &str) -> (r: Option<usize>)
    ensures
        match r {
            Some(i) => i < src@.len() && present(sources(src@), name@) && src@[i as int]@ == found(
                sources(src@),
                name@,
            ),
            None => !present(sources(src@), name@),
        },
{
    let ghost s = sources(src@);
    let mut i: usize = 0;
    while i < src.len()
        invariant
            s == sources(src@),
            i <= src@.len(),
            forall|j: int| 0 <= j < i ==> (#[trigger] s[j]).name != name@,
        decreases src.len() - i,
    {
        assert(s[i as int] == src@[i as int]@);
        if same(src[i].name.as_str(), name) {
            proof {
                lemma_found(s, name@, i as int);
            }
            return Some(i);
        }
        i = i + 1;
    }
    None
}

fn name_of_part(i: usize, part: &str) -> (r: String)
    ensures
        r@ == part_name(i as nat, part@),
{
    let mut s = "model.layers.".to_owned();
    push_dec(&mut s, i as u64);
    s.append(".");
    s.append(part);
    s
}

fn add_item(out: &mut Vec<Item>, it: Item)
    ensures
        items_of(final(out)@) == items_of(old(out)@).push(it@),
{
    let ghost before = items_of(out@);
    let ghost v = it@;
    out.push(it);
    assert(items_of(out@) =~= before.push(v));
}

fn add_with_bias(out: &mut Vec<Item>, name: String, i: usize, proj: Proj, in_dim: u32, out_dim: u32)
    ensures
        items_of(final(out)@) == with_bias(items_of(old(out)@), name@, i, proj, in_dim, out_dim),
{
    let mut bias = name.clone();
    bias.append(".bias");
    add_item(out, Item { name, dest: Buf::Weight(i, proj), want: Want::Matrix { in_dim, out_dim } });
    add_item(out, Item { name: bias, dest: Buf::Bias(i, proj), want: Want::MaybeVector });
}

fn add_matrix(out: &mut Vec<Item>, i: usize, part: &str, proj: Proj, in_dim: u32, out_dim: u32)
    ensures
        items_of(final(out)@) == with_matrix(items_of(old(out)@), i, part@, proj, in_dim, out_dim),
{
    add_with_bias(out, name_of_part(i, part), i, proj, in_dim, out_dim);
}

fn add_vector(out: &mut Vec<Item>, i: usize, part: &str, dest: Buf, want: Want)
    ensures
        items_of(final(out)@) == with_vector(items_of(old(out)@), i, part@, dest, want),
{
    add_item(out, Item { name: name_of_part(i, part), dest, want });
}

fn add_linear(out: &mut Vec<Item>, g: &Geo, d: &DeltaGeo, i: usize)
    ensures
        items_of(final(out)@) == linear_items(items_of(old(out)@), *g, *d, i),
{
    add_matrix(out, i, "gguf.attn_qkv", Proj::DnQkv, g.hidden, d.channels);
    add_matrix(out, i, "gguf.attn_gate", Proj::DnZ, g.hidden, d.inner);
    add_matrix(out, i, "gguf.ssm_out", Proj::DnOut, d.inner, g.hidden);
    add_matrix(out, i, "gguf.ssm_alpha", Proj::DnAlpha, g.hidden, d.n_v_heads);
    add_matrix(out, i, "gguf.ssm_beta", Proj::DnBeta, g.hidden, d.n_v_heads);
    add_vector(out, i, "gguf.ssm_conv1d.weight", Buf::Small(i, SmallId::Conv1d), Want::Vector);
    add_vector(out, i, "gguf.ssm_a", Buf::Small(i, SmallId::A), Want::Vector);
    add_vector(out, i, "gguf.ssm_dt.bias", Buf::Small(i, SmallId::DtBias), Want::Vector);
    add_vector(out, i, "gguf.ssm_norm.weight", Buf::Small(i, SmallId::SsmNorm), Want::Vector);
}

fn add_full(out: &mut Vec<Item>, g: &Geo, i: usize)
    ensures
        items_of(final(out)@) == full_items(items_of(old(out)@), *g, i),
{
    add_matrix(out, i, "self_attn.q_proj", Proj::Q, g.hidden, g.q_proj_dim);
    add_matrix(out, i, "self_attn.k_proj", Proj::K, g.hidden, g.kv_dim);
    add_matrix(out, i, "self_attn.v_proj", Proj::V, g.hidden, g.kv_dim);
    add_matrix(out, i, "self_attn.o_proj", Proj::O, g.q_dim, g.hidden);
    add_vector(out, i, "self_attn.q_norm.weight", Buf::Norm(i, NormId::QHead), Want::MaybeVector);
    add_vector(out, i, "self_attn.k_norm.weight", Buf::Norm(i, NormId::KHead), Want::MaybeVector);
}

fn add_common(out: &mut Vec<Item>, g: &Geo, hybrid: bool, i: usize)
    ensures
        items_of(final(out)@) == common_items(items_of(old(out)@), *g, hybrid, i),
{
    let post = if hybrid { "gguf.post_attention_norm.weight" } else { "post_attention_layernorm.weight" };
    add_vector(out, i, "input_layernorm.weight", Buf::Norm(i, NormId::Input), Want::Vector);
    add_vector(out, i, post, Buf::Norm(i, NormId::Post), Want::Vector);
    add_matrix(out, i, "mlp.gate_proj", Proj::Gate, g.hidden, g.inter);
    add_matrix(out, i, "mlp.up_proj", Proj::Up, g.hidden, g.inter);
    add_matrix(out, i, "mlp.down_proj", Proj::Down, g.inter, g.hidden);
}

/// A hybrid's map and widths.
pub struct HybridMap {
    pub is_recurrent: Vec<bool>,
    pub delta: DeltaGeo,
}

pub open spec fn hybrid_view(h: Option<HybridMap>) -> Option<(Seq<bool>, DeltaGeo)> {
    match h {
        Some(x) => Some((x.is_recurrent@, x.delta)),
        None => None,
    }
}

pub open spec fn map_view(h: Option<HybridMap>) -> Option<Seq<bool>> {
    match h {
        Some(x) => Some(x.is_recurrent@),
        None => None,
    }
}

/// The tensors of a model, in the order in which they are loaded.
pub fn list_items(src: &Vec<SourceTensor>, g: &Geo, hybrid: &Option<HybridMap>, layers: usize) -> (r: Vec<Item>)
    requires
        hybrid matches Some(h) ==> h.is_recurrent@.len() >= layers,
    ensures
        items_of(r@) == all_items(sources(src@), *g, hybrid_view(*hybrid), layers as nat),
{
    let mut out: Vec<Item> = Vec::new();
    assert(items_of(out@) =~= Seq::<ItemView>::empty());
    let mut i: usize = 0;
    while i < layers
        invariant
            hybrid matches Some(h) ==> h.is_recurrent@.len() >= layers,
            i <= layers,
            items_of(out@) == trunk_items(*g, hybrid_view(*hybrid), i as nat),
        decreases layers - i,
    {
        match hybrid {
            Some(h) => {
                if h.is_recurrent[i] {
                    add_linear(&mut out, g, &h.delta, i);
                } else {
                    add_full(&mut out, g, i);
                }
                add_common(&mut out, g, true, i);
            },
            None => {
                add_full(&mut out, g, i);
                add_common(&mut out, g, false, i);
            },
        }
        i = i + 1;
    }
    add_item(
        &mut out,
        Item { name: "model.norm.weight".to_owned(), dest: Buf::Norm(layers, NormId::Final), want: Want::Vector },
    );
    let head = match find_tensor(src, "lm_head.weight") {
        Some(_) => "lm_head".to_owned(),
        None => "model.embed_tokens".to_owned(),
    };
    add_with_bias(&mut out, head, layers, Proj::Head, g.hidden, g.vocab);
    out
}

fn weight_name(name: &str) -> (r: String)
    ensures
        r@ == name@ + ".weight"@,
{
    let mut s = name.to_owned();
    s.append(".weight");
    s
}

/// The selector of a matrix, or the refusal of its type.
pub fn selector_for(name: &str, ty: SrcType) -> (r: Result<u32, String>)
    ensures
        match r {
            Ok(x) => matrix_selector(name@, ty) == Ok::<u32, Seq<char>>(x),
            Err(e) => matrix_selector(name@, ty) == Err::<u32, Seq<char>>(e@),
        },
{
    match ty {
        SrcType::Quant(t) => {
            let sel: u32 = SrcType::Quant(t).qtype();
            if sel == NO_SELECTOR {
                let mut e = name.to_owned();
                e.append(": ");
                e.append(t.name());
                e.append(" has no metal quant pipeline yet");
                Err(e)
            } else {
                Ok(sel)
            }
        },
        SrcType::F16 | SrcType::F32 => Ok(0),
        SrcType::Bf16 => {
            let mut e = name.to_owned();
            e.append(": bf16 inside a GGUF is unsupported");
            Err(e)
        },
    }
}

fn shape_in_words(shape: &Vec<u64>) -> (r: String)
    ensures
        r@ == shape_text(shape@),
{
    let ghost want = Seq::new(shape@.len(), |i: int| dec(shape@[i] as nat));
    let mut parts: Vec<String> = Vec::new();
    let mut i: usize = 0;
    while i < shape.len()
        invariant
            want == Seq::new(shape@.len(), |i: int| dec(shape@[i] as nat)),
            i <= shape@.len(),
            parts@.len() == i,
            forall|j: int| 0 <= j < i ==> (#[trigger] parts@[j])@ == want[j],
        decreases shape.len() - i,
    {
        parts.push(dec_text(shape[i]));
        i = i + 1;
    }
    assert(texts(parts@) =~= want);
    let mut s = "[".to_owned();
    let inner = join_texts(&parts, ", ");
    s.append(inner.as_str());
    s.append("]");
    s
}

fn absent_text(name: &str) -> (r: String)
    ensures
        r@ == absent(name@),
{
    let mut s = "tensor ".to_owned();
    s.append(name);
    s.append(" not in the GGUF file");
    s
}

/// What keeps a matrix from being loaded; else its selector.
fn check_matrix(src: &Vec<SourceTensor>, name: &str, in_dim: u32, out_dim: u32) -> (r: Result<u32, String>)
    ensures
        ({
            let it = ItemView { name: name@, dest: Buf::X, want: Want::Matrix { in_dim, out_dim } };
            match r {
                Ok(x) => item_error(sources(src@), it) is None && matrix_selector(
                    name@,
                    found(sources(src@), name@ + ".weight"@).ty,
                ) == Ok::<u32, Seq<char>>(x),
                Err(e) => item_error(sources(src@), it) == Some(e@),
            }
        }),
{
    let w = weight_name(name);
    match find_tensor(src, w.as_str()) {
        None => Err(absent_text(w.as_str())),
        Some(k) => match selector_for(name, src[k].ty) {
            Err(e) => Err(e),
            Ok(sel) => {
                let shape = &src[k].shape;
                let good = shape.len() == 2 && shape[0] == out_dim as u64 && shape[1] == in_dim as u64;
                assert(good == (shape@ =~= seq![out_dim as u64, in_dim as u64]));
                if good {
                    Ok(sel)
                } else {
                    let mut e = name.to_owned();
                    e.append(": shape ");
                    let written = shape_in_words(shape);
                    e.append(written.as_str());
                    e.append(", expected [");
                    push_dec(&mut e, out_dim as u64);
                    e.append(", ");
                    push_dec(&mut e, in_dim as u64);
                    e.append("]");
                    Err(e)
                }
            },
        },
    }
}

/// Checks every tensor of a model, in order.
pub fn check_items(src: &Vec<SourceTensor>, items: &Vec<Item>) -> (r: Result<(), String>)
    ensures
        match r {
            Ok(_) => first_error(sources(src@), items_of(items@), items@.len()) is None,
            Err(e) => first_error(sources(src@), items_of(items@), items@.len()) == Some(e@),
        },
{
    let ghost s = sources(src@);
    let ghost want = items_of(items@);
    let mut i: usize = 0;
    while i < items.len()
        invariant
            s == sources(src@),
            want == items_of(items@),
            i <= items@.len(),
            first_error(s, want, i as nat) is None,
        decreases items.len() - i,
    {
        let it = &items[i];
        assert(want[i as int] == it@);
        let bad: Option<String> = match it.want {
            Want::MaybeVector => None,
            Want::Vector => match find_tensor(src, it.name.as_str()) {
                Some(_) => None,
                None => Some(absent_text(it.name.as_str())),
            },
            Want::Matrix { in_dim, out_dim } => match check_matrix(src, it.name.as_str(), in_dim, out_dim) {
                Ok(_) => None,
                Err(e) => Some(e),
            },
        };
        if let Some(e) = bad {
            proof {
                lemma_first_stays(s, want, (i + 1) as nat, want.len(), e@);
            }
            return Err(e);
        }
        i = i + 1;
    }
    Ok(())
}

proof fn lemma_first_stays(src: Seq<SourceView>, items: Seq<ItemView>, i: nat, k: nat, e: Seq<char>)
    requires
        i <= k,
        first_error(src, items, i) == Some(e),
    ensures
        first_error(src, items, k) == Some(e),
    decreases k,
{
    if i < k {
        lemma_first_stays(src, items, i, (k - 1) as nat, e);
    }
}

/// What a checkpoint is loaded as: the selectors to build kernels for, the
/// tensors, and the model that a step is planned over.
pub struct LoadPlan {
    pub pipelines: Vec<u32>,
    pub items: Vec<Item>,
    pub model: QuantModel,
}

fn part_sel(src: &Vec<SourceTensor>, i: usize, part: &str) -> (r: u32)
    ensures
        r == part_selector(sources(src@), i as nat, part@),
{
    sel_of(src, name_of_part(i, part).as_str())
}

fn sel_of(src: &Vec<SourceTensor>, name: &str) -> (r: u32)
    ensures
        r == name_selector(sources(src@), name@),
{
    match find_tensor(src, weight_name(name).as_str()) {
        None => 0,
        Some(k) => match selector_for(name, src[k].ty) {
            Ok(x) => x,
            Err(_) => 0,
        },
    }
}

fn block(src: &Vec<SourceTensor>, hybrid: &Option<HybridMap>, i: usize) -> (r: QuantBlock)
    requires
        hybrid matches Some(h) ==> i < h.is_recurrent@.len(),
    ensures
        r == block_of(sources(src@), map_view(*hybrid), i as nat),
{
    let recurrent = match hybrid {
        Some(h) => h.is_recurrent[i],
        None => false,
    };
    let attn = if recurrent {
        QuantAttn::Linear {
            qkv: part_sel(src, i, "gguf.attn_qkv"),
            z: part_sel(src, i, "gguf.attn_gate"),
            alpha: part_sel(src, i, "gguf.ssm_alpha"),
            beta: part_sel(src, i, "gguf.ssm_beta"),
            out: part_sel(src, i, "gguf.ssm_out"),
        }
    } else {
        let q_norm = find_tensor(src, name_of_part(i, "self_attn.q_norm.weight").as_str()).is_some();
        let k_norm = find_tensor(src, name_of_part(i, "self_attn.k_norm.weight").as_str()).is_some();
        QuantAttn::Full {
            q: part_sel(src, i, "self_attn.q_proj"),
            k: part_sel(src, i, "self_attn.k_proj"),
            v: part_sel(src, i, "self_attn.v_proj"),
            o: part_sel(src, i, "self_attn.o_proj"),
            qk_norm: q_norm && k_norm,
        }
    };
    QuantBlock {
        attn,
        gate: part_sel(src, i, "mlp.gate_proj"),
        up: part_sel(src, i, "mlp.up_proj"),
        down: part_sel(src, i, "mlp.down_proj"),
    }
}

/// The blocks of a model.
pub open spec fn blocks_of(src: Seq<SourceView>, map: Option<Seq<bool>>, layers: nat) -> Seq<QuantBlock> {
    Seq::new(layers, |i: int| block_of(src, map, i as nat))
}

/// Plans the load of a quantized checkpoint whose header lists `src` and whose
/// tensors are of the types `types`.
pub fn plan_load(
    src: &Vec<SourceTensor>,
    types: &Vec<GgmlType>,
    g: Geo,
    hybrid: Option<HybridMap>,
    layers: usize,
) -> (r: Result<LoadPlan, String>)
    requires
        g.ok(),
        hybrid matches Some(h) ==> h.delta.ok() && h.is_recurrent@.len() >= layers,
    ensures
        ({
            let s = sources(src@);
            let items = all_items(s, g, hybrid_view(hybrid), layers as nat);
            match r {
                Ok(p) => {
                    &&& all_selectors(types@) == Ok::<Seq<u32>, Seq<char>>(p.pipelines@)
                    &&& first_error(s, items, items.len()) is None
                    &&& items_of(p.items@) == items
                    &&& p.model.ok()
                    &&& p.model.geo == g
                    &&& p.model.delta == (match hybrid { Some(h) => Some(h.delta), None => None })
                    &&& p.model.blocks@ == blocks_of(s, map_view(hybrid), layers as nat)
                    &&& p.model.head == name_selector(s, head_name(s))
                },
                Err(e) => match all_selectors(types@) {
                    Err(x) => e@ == x,
                    Ok(_) => first_error(s, items, items.len()) == Some(e@),
                },
            }
        }),
{
    let pipelines = match quant_pipelines(types) {
        Ok(p) => p,
        Err(e) => {
            return Err(e);
        },
    };
    let items = list_items(src, &g, &hybrid, layers);
    match check_items(src, &items) {
        Ok(_) => {},
        Err(e) => {
            return Err(e);
        },
    }
    let ghost want = blocks_of(sources(src@), map_view(hybrid), layers as nat);
    let mut blocks: Vec<QuantBlock> = Vec::new();
    let mut i: usize = 0;
    while i < layers
        invariant
            hybrid matches Some(h) ==> h.is_recurrent@.len() >= layers,
            want == blocks_of(sources(src@), map_view(hybrid), layers as nat),
            i <= layers,
            blocks@ =~= want.take(i as int),
        decreases layers - i,
    {
        blocks.push(block(src, &hybrid, i));
        i = i + 1;
    }
    assert(blocks@ =~= want);
    let head = match find_tensor(src, "lm_head.weight") {
        Some(_) => sel_of(src, "lm_head"),
        None => sel_of(src, "model.embed_tokens"),
    };
    let delta = match hybrid {
        Some(h) => Some(h.delta),
        None => None,
    };
    let model = QuantModel { geo: g, delta, blocks, head };
    Ok(LoadPlan { pipelines, items, model })
}

// ---------- laws ----------

/// A block is linear exactly where the state schedule says that its layer is
/// recurrent: no block binds a cache that is only a stub.
pub proof fn lemma_blocks_follow_schedule(src: Seq<SourceView>, map: Option<Seq<bool>>, layers: nat, i: int)
    requires
        0 <= i < layers,
        map matches Some(m) ==> m.len() >= layers,
    ensures
        blocks_of(src, map, layers)[i].attn is Linear <==> schedule(layers, map)[i] == LayerStateKind::Recurrent,
{
}

proof fn lemma_selectors_cover(types: Seq<GgmlType>, k: nat, i: int)
    requires
        0 <= i < k <= types.len(),
        selectors(types, k) is Ok,
    ensures
        selectors(types, k)->Ok_0.contains(SrcType::Quant(types[i]).selector()),
    decreases k,
{
    let sel = SrcType::Quant(types[i]).selector();
    let before = selectors(types, (k - 1) as nat)->Ok_0;
    let after = selectors(types, k)->Ok_0;
    if i < k - 1 {
        lemma_selectors_cover(types, (k - 1) as nat, i);
        let j = choose|j: int| 0 <= j < before.len() && before[j] == sel;
        assert(after[j] == sel);
    } else if !before.contains(sel) {
        assert(after.last() == sel);
    }
}

/// Where the list of types holds every quantized type of the checkpoint, each
/// matrix that can be loaded has kernels built for it.
pub proof fn lemma_every_weight_has_kernels(src: Seq<SourceView>, types: Seq<GgmlType>, name: Seq<char>, i: int)
    requires
        all_selectors(types) is Ok,
        0 <= i < src.len(),
        src[i].ty matches SrcType::Quant(t) ==> types.contains(t),
        matrix_selector(name, src[i].ty) is Ok,
    ensures
        all_selectors(types)->Ok_0.contains(matrix_selector(name, src[i].ty)->Ok_0),
{
    let built = selectors(types, types.len())->Ok_0;
    let all = all_selectors(types)->Ok_0;
    match src[i].ty {
        SrcType::Quant(t) => {
            let k = choose|k: int| 0 <= k < types.len() && types[k] == t;
            lemma_selectors_cover(types, types.len(), k);
            let j = choose|j: int| 0 <= j < built.len() && built[j] == SrcType::Quant(t).selector();
            assert(all[j] == built[j]);
        },
        _ => {
            if !built.contains(0) {
                assert(all.last() == 0);
            }
        },
    }
}

} // verus!
