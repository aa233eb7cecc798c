//! Architecture metadata: GGUF keys to a model configuration, tensor names, the
//! undoing of the q/k row permutation, and the layout of the hybrid trunk.
use vstd::prelude::*;
use vstd::string::*;

use crate::config::{default_max_pos, default_rope_theta, EosIds, ModelConfig, DEFAULT_ROPE_THETA_BITS};
use crate::gguf::container::GgufFile;
use crate::gguf::layout::{float_of, ints_of, str_of, strs_of, usize_of, FileView};
use crate::gguf::reader::{FloatBits, MetaValue};
use crate::text::{
    chars_of, dec, ends, find, has, occurs, parse_number, parse_usize, push_dec, rfind, rsplit_once,
    same, spells, split_once, starts, text_of,
};

verus! {

// ---------- tensor names ----------

/// Everything before the first `c`, or all of `s`.
pub open spec fn first_piece(s: Seq<char>, c: char) -> Seq<char> {
    match s.index_of_first(c) {
        Some(i) => s.take(i),
        None => s,
    }
}

/// What follows the prefix `p`.
pub open spec fn after_prefix(s: Seq<char>, p: Seq<char>) -> Option<Seq<char>> {
    if p.is_prefix_of(s) {
        Some(s.skip(p.len() as int))
    } else {
        None
    }
}

/// A tensor that standard generation ignores: one of the `nextn.` head, or one
/// of a block at or past the trunk.
pub open spec fn is_mtp(name: Seq<char>, trunk: nat) -> bool {
    occurs(name, "nextn."@) || match after_prefix(name, "blk."@) {
        None => false,
        Some(rest) => match parse_number(first_piece(rest, '.'), usize::MAX as nat) {
            None => false,
            Some(i) => i >= trunk,
        },
    }
}

/// The name of a block's part in the Hugging Face layout.
pub open spec fn hf_part(mid: Seq<char>) -> Seq<char> {
    if mid == "attn_norm"@ {
        "input_layernorm"@
    } else if mid == "ffn_norm"@ {
        "post_attention_layernorm"@
    } else if mid == "attn_q"@ {
        "self_attn.q_proj"@
    } else if mid == "attn_k"@ {
        "self_attn.k_proj"@
    } else if mid == "attn_v"@ {
        "self_attn.v_proj"@
    } else if mid == "attn_output"@ {
        "self_attn.o_proj"@
    } else if mid == "attn_q_norm"@ {
        "self_attn.q_norm"@
    } else if mid == "attn_k_norm"@ {
        "self_attn.k_norm"@
    } else if mid == "ffn_gate"@ {
        "mlp.gate_proj"@
    } else if mid == "ffn_up"@ {
        "mlp.up_proj"@
    } else if mid == "ffn_down"@ {
        "mlp.down_proj"@
    } else {
        "gguf."@ + mid
    }
}

/// The Hugging Face name of part `rest` of block `i`.
pub open spec fn hf_block(i: nat, rest: Seq<char>) -> Option<Seq<char>> {
    match rsplit_once(rest, '.') {
        None => None,
        Some((mid, kind)) => if kind == "weight"@ || kind == "bias"@ {
            Some("model.layers."@ + dec(i) + "."@ + hf_part(mid) + "."@ + kind)
        } else {
            None
        },
    }
}

/// The Hugging Face name of a tensor, or `None` for one that the forward pass
/// does not consume.
pub open spec fn hf(name: Seq<char>) -> Option<Seq<char>> {
    if name == "token_embd.weight"@ {
        Some("model.embed_tokens.weight"@)
    } else if name == "output_norm.weight"@ {
        Some("model.norm.weight"@)
    } else if name == "output.weight"@ {
        Some("lm_head.weight"@)
    } else if name == "rope_freqs.weight"@ {
        None
    } else {
        match after_prefix(name, "blk."@) {
            None => None,
            Some(tail) => match split_once(tail, '.') {
                None => None,
                Some((n, rest)) => match parse_number(n, usize::MAX as nat) {
                    None => None,
                    Some(i) => hf_block(i, rest),
                },
            },
        }
    }
}

fn hf_part_text(mid: &[char]) -> (r: String)
    ensures
        r@ == hf_part(mid@),
{
    if spells(mid, "attn_norm") {
        "input_layernorm".to_owned()
    } else if spells(mid, "ffn_norm") {
        "post_attention_layernorm".to_owned()
    } else if spells(mid, "attn_q") {
        "self_attn.q_proj".to_owned()
    } else if spells(mid, "attn_k") {
        "self_attn.k_proj".to_owned()
    } else if spells(mid, "attn_v") {
        "self_attn.v_proj".to_owned()
    } else if spells(mid, "attn_output") {
        "self_attn.o_proj".to_owned()
    } else if spells(mid, "attn_q_norm") {
        "self_attn.q_norm".to_owned()
    } else if spells(mid, "attn_k_norm") {
        "self_attn.k_norm".to_owned()
    } else if spells(mid, "ffn_gate") {
        "mlp.gate_proj".to_owned()
    } else if spells(mid, "ffn_up") {
        "mlp.up_proj".to_owned()
    } else if spells(mid, "ffn_down") {
        "mlp.down_proj".to_owned()
    } else {
        let mut s = "gguf.".to_owned();
        let m = text_of(mid);
        s.append(m.as_str());
        s
    }
}

/// Drops the prefix `p`.
pub(crate) fn strip<'v>(v: &'v [char], p: &str) -> (r: Option<&'v [char]>)
    ensures
        match r {
            Some(t) => after_prefix(v@, p@) == Some(t@),
            None => after_prefix(v@, p@) is None,
        },
{
    let pc = chars_of(p);
    if starts(v, pc.as_slice()) {
        let t = vstd::slice::slice_subrange(v, pc.len(), v.len());
        assert(t@ =~= v@.skip(pc@.len() as int));
        Some(t)
    } else {
        None
    }
}

/// Maps one GGUF tensor name to its Hugging Face name. `None` for a tensor that
/// the forward pass does not consume.
pub fn hf_name(gguf: &str) -> (r: Option<String>)
    ensures
        match r {
            Some(s) => hf(gguf@) == Some(s@),
            None => hf(gguf@) is None,
        },
{
    if same(gguf, "token_embd.weight") {
        return Some("model.embed_tokens.weight".to_owned());
    }
    if same(gguf, "output_norm.weight") {
        return Some("model.norm.weight".to_owned());
    }
    if same(gguf, "output.weight") {
        return Some("lm_head.weight".to_owned());
    }
    if same(gguf, "rope_freqs.weight") {
        return None;
    }
    let name = chars_of(gguf);
    let tail = match strip(name.as_slice(), "blk.") {
        None => return None,
        Some(t) => t,
    };
    let dot: usize = match find(tail, '.') {
        None => return None,
        Some(i) => i,
    };
    let n = vstd::slice::slice_subrange(tail, 0, dot);
    let rest = vstd::slice::slice_subrange(tail, dot + 1, tail.len());
    assert(n@ =~= tail@.take(dot as int));
    assert(rest@ =~= tail@.skip(dot + 1));
    let i: usize = match parse_usize(n) {
        None => return None,
        Some(i) => i,
    };
    let dot: usize = match rfind(rest, '.') {
        None => return None,
        Some(i) => i,
    };
    let mid = vstd::slice::slice_subrange(rest, 0, dot);
    let kind = vstd::slice::slice_subrange(rest, dot + 1, rest.len());
    assert(mid@ =~= rest@.take(dot as int));
    assert(kind@ =~= rest@.skip(dot + 1));
    if !spells(kind, "weight") && !spells(kind, "bias") {
        return None;
    }
    let mut s = "model.layers.".to_owned();
    push_dec(&mut s, i as u64);
    s.append(".");
    let part = hf_part_text(mid);
    s.append(part.as_str());
    s.append(".");
    let k = text_of(kind);
    s.append(k.as_str());
    Some(s)
}

// ---------- the hybrid trunk ----------

/// The layout of a hybrid trunk: which layers are recurrent, and the sizes of
/// their states.
#[derive(Debug, Clone)]
pub struct Qwen35Meta {
    /// Depth of the generating stack, without the appended prediction blocks.
    pub trunk_layers: usize,
    /// Prediction blocks appended after the trunk.
    pub nextn_layers: usize,
    pub full_attention_interval: usize,
    /// Per trunk layer: true for a linear block, false for full attention.
    pub is_recurrent: Vec<bool>,
    pub d_conv: usize,
    pub d_state: usize,
    pub n_group: usize,
    pub dt_rank: usize,
    /// `dt_rank` times `d_state`.
    pub d_inner: usize,
    /// Frequency sections of the rotary embedding.
    pub rope_sections: [u64; 4],
    /// Convolution state of one linear layer, in elements.
    pub conv_state_elems: usize,
    /// Delta state of one linear layer, in elements.
    pub delta_state_elems: usize,
}

/// What a hybrid layout says.
pub struct Hybrid {
    pub trunk: nat,
    pub nextn: nat,
    pub interval: nat,
    pub recurrent: Seq<bool>,
    pub d_conv: nat,
    pub d_state: nat,
    pub n_group: nat,
    pub dt_rank: nat,
    pub d_inner: nat,
    pub sections: Seq<u64>,
    pub conv_elems: nat,
    pub delta_elems: nat,
}

impl View for Qwen35Meta {
    type V = Hybrid;

    open spec fn view(&self) -> Hybrid {
        Hybrid {
            trunk: self.trunk_layers as nat,
            nextn: self.nextn_layers as nat,
            interval: self.full_attention_interval as nat,
            recurrent: self.is_recurrent@,
            d_conv: self.d_conv as nat,
            d_state: self.d_state as nat,
            n_group: self.n_group as nat,
            dt_rank: self.dt_rank as nat,
            d_inner: self.d_inner as nat,
            sections: self.rope_sections@,
            conv_elems: self.conv_state_elems as nat,
            delta_elems: self.delta_state_elems as nat,
        }
    }
}

/// The state sizes follow from the other numbers, and every trunk layer has its
/// kind.
pub open spec fn hybrid_ok(h: Hybrid) -> bool {
    &&& h.trunk > 0
    &&& h.recurrent.len() == h.trunk
    &&& h.d_conv > 0
    &&& h.d_inner == h.dt_rank * h.d_state
    &&& h.sections.len() == 4
    &&& h.conv_elems == (h.d_conv - 1) * (h.d_inner + 2 * h.n_group * h.d_state)
    &&& h.delta_elems == h.d_state * h.d_inner
}

/// The verdict on the rotary sections: a fourth section is a vision layout, and
/// sections that are all empty rotate nothing.
pub open spec fn sections_error(sections: Seq<u64>) -> Option<Seq<char>> {
    if sections[3] != 0 {
        Some(
            "qwen35: rope.dimension_sections carry a fourth section of "@ + dec(sections[3] as nat)
                + " — a vision layout, which a text rotation would silently get wrong"@,
        )
    } else if sections[0] == 0 && sections[1] == 0 && sections[2] == 0 {
        Some("qwen35: rope.dimension_sections are all zero"@)
    } else {
        None
    }
}

impl Qwen35Meta {
    /// Whether standard generation must ignore the tensor: the `nextn.` head
    /// and every block at or past the trunk.
    pub fn is_mtp_tensor(&self, gguf_name: &str) -> (r: bool)
        ensures
            r == is_mtp(gguf_name@, self.trunk_layers as nat),
    {
        let name = chars_of(gguf_name);
        let nextn = chars_of("nextn.");
        if has(name.as_slice(), nextn.as_slice()) {
            return true;
        }
        let rest = match strip(name.as_slice(), "blk.") {
            None => return false,
            Some(t) => t,
        };
        let stop: usize = match find(rest, '.') {
            None => rest.len(),
            Some(i) => i,
        };
        let n = vstd::slice::slice_subrange(rest, 0, stop);
        assert(n@ =~= first_piece(rest@, '.'));
        match parse_usize(n) {
            None => false,
            Some(i) => i >= self.trunk_layers,
        }
    }

    /// Refuses rotary sections that a text rotation cannot stand for.
    pub fn check_rope_sections(&self) -> (r: Result<(), String>)
        ensures
            match r {
                Ok(_) => sections_error(self.rope_sections@) is None,
                Err(e) => sections_error(self.rope_sections@) == Some(e@),
            },
    {
        if self.rope_sections[3] != 0 {
            let mut e = "qwen35: rope.dimension_sections carry a fourth section of ".to_owned();
            push_dec(&mut e, self.rope_sections[3]);
            e.append(" — a vision layout, which a text rotation would silently get wrong");
            return Err(e);
        }
        if self.rope_sections[0] == 0 && self.rope_sections[1] == 0 && self.rope_sections[2] == 0 {
            return Err("qwen35: rope.dimension_sections are all zero".to_owned());
        }
        Ok(())
    }
}

/// Layer `i` is recurrent unless it closes an interval.
pub open spec fn interval_rule(trunk: nat, interval: nat) -> Seq<bool> {
    Seq::new(trunk, |i: int| (i + 1) % interval as int != 0)
}

/// The kinds of the trunk layers: from the explicit list where there is one,
/// else by the interval.
pub open spec fn recurrent_layers(
    list: Result<Seq<i64>, Seq<char>>,
    trunk: nat,
    interval: nat,
) -> Result<Seq<bool>, Seq<char>> {
    match list {
        Ok(arr) => if arr.len() < trunk {
            Err("qwen35: recurrent_layers array shorter than the trunk"@)
        } else {
            Ok(Seq::new(trunk, |i: int| arr[i] != 0))
        },
        Err(_) => if interval == 0 {
            Err("qwen35: full_attention_interval is 0"@)
        } else {
            Ok(interval_rule(trunk, interval))
        },
    }
}

/// A signed number as unsigned, two's complement.
pub open spec fn wrap_u64(x: i64) -> u64 {
    if x >= 0 {
        x as u64
    } else {
        (x + 0x1_0000_0000_0000_0000) as u64
    }
}

/// The layout from its numbers, once all of them are read.
pub open spec fn hybrid_of(
    trunk: nat,
    nextn: nat,
    interval: nat,
    recurrent: Seq<bool>,
    d_conv: nat,
    d_state: nat,
    n_group: nat,
    dt_rank: nat,
    d_inner: nat,
    sec: Seq<i64>,
) -> Result<Hybrid, Seq<char>> {
    let width = d_inner + 2 * n_group * d_state;
    if sec.len() < 4 {
        Err("qwen35: rope.dimension_sections needs 4 entries"@)
    } else if d_conv == 0 {
        Err("qwen35: ssm.conv_kernel is 0"@)
    } else if width > usize::MAX || (d_conv - 1) * width > usize::MAX || d_state * d_inner > usize::MAX {
        Err("qwen35: the state sizes overflow"@)
    } else {
        Ok(
            Hybrid {
                trunk,
                nextn,
                interval,
                recurrent,
                d_conv,
                d_state,
                n_group,
                dt_rank,
                d_inner,
                sections: seq![wrap_u64(sec[0]), wrap_u64(sec[1]), wrap_u64(sec[2]), wrap_u64(sec[3])],
                conv_elems: ((d_conv - 1) * width) as nat,
                delta_elems: d_state * d_inner,
            },
        )
    }
}

/// `x`, or `d` where it is an error.
pub open spec fn or_else<T>(x: Result<T, Seq<char>>, d: T) -> T {
    match x {
        Ok(v) => v,
        Err(_) => d,
    }
}

/// The hybrid layout that the metadata describes.
pub open spec fn hybrid(m: Map<Seq<char>, MetaValue>) -> Result<Hybrid, Seq<char>> {
    let nextn = or_else(usize_of(m, "qwen35.nextn_predict_layers"@), 0);
    let interval = or_else(usize_of(m, "qwen35.full_attention_interval"@), 4);
    match usize_of(m, "qwen35.block_count"@) {
        Err(e) => Err(e),
        Ok(blocks) => if nextn >= blocks {
            Err("qwen35: nextn_predict_layers "@ + dec(nextn) + " >= block_count "@ + dec(blocks))
        } else {
            let trunk = (blocks - nextn) as nat;
            match recurrent_layers(ints_of(m, "qwen35.attention.recurrent_layers"@), trunk, interval) {
                Err(e) => Err(e),
                Ok(recurrent) => match usize_of(m, "qwen35.ssm.conv_kernel"@) {
                    Err(e) => Err(e),
                    Ok(d_conv) => match usize_of(m, "qwen35.ssm.state_size"@) {
                        Err(e) => Err(e),
                        Ok(d_state) => match usize_of(m, "qwen35.ssm.group_count"@) {
                            Err(e) => Err(e),
                            Ok(n_group) => match usize_of(m, "qwen35.ssm.time_step_rank"@) {
                                Err(e) => Err(e),
                                Ok(dt_rank) => match usize_of(m, "qwen35.ssm.inner_size"@) {
                                    Err(e) => Err(e),
                                    Ok(d_inner) => if d_inner != dt_rank * d_state {
                                        Err(
                                            "qwen35: ssm.inner_size "@ + dec(d_inner)
                                                + " != time_step_rank "@ + dec(dt_rank)
                                                + " x state_size "@ + dec(d_state),
                                        )
                                    } else {
                                        match ints_of(m, "qwen35.rope.dimension_sections"@) {
                                            Err(e) => Err(e),
                                            Ok(sec) => hybrid_of(
                                                trunk,
                                                nextn,
                                                interval,
                                                recurrent,
                                                d_conv,
                                                d_state,
                                                n_group,
                                                dt_rank,
                                                d_inner,
                                                sec,
                                            ),
                                        }
                                    },
                                },
                            },
                        },
                    },
                },
            }
        },
    }
}

fn wrap_bits(x: i64) -> (r: u64)
    ensures
        r == wrap_u64(x),
{
    if x >= 0 {
        x as u64
    } else {
        u64::MAX - (-(x + 1)) as u64
    }
}

/// The kinds of the trunk layers.
fn read_kinds(list: Result<&[i64], String>, trunk: usize, interval: usize) -> (r: Result<Vec<bool>, String>)
    ensures
        ({
            let want = recurrent_layers(
                match list { Ok(a) => Ok(a@), Err(e) => Err(e@) },
                trunk as nat,
                interval as nat,
            );
            match r {
                Ok(v) => want == Ok::<Seq<bool>, Seq<char>>(v@),
                Err(e) => want == Err::<Seq<bool>, Seq<char>>(e@),
            }
        }),
{
    let mut v: Vec<bool> = Vec::new();
    let mut i: usize = 0;
    match list {
        Ok(arr) => {
            if arr.len() < trunk {
                return Err("qwen35: recurrent_layers array shorter than the trunk".to_owned());
            }
            while i < trunk
                invariant
                    i <= trunk <= arr@.len(),
                    v@.len() == i,
                    forall|j: int| 0 <= j < i ==> v@[j] == (arr@[j] != 0),
                decreases trunk - i,
            {
                v.push(arr[i] != 0);
                i = i + 1;
            }
            assert(v@ =~= Seq::new(trunk as nat, |i: int| arr@[i] != 0));
        },
        Err(_) => {
            if interval == 0 {
                return Err("qwen35: full_attention_interval is 0".to_owned());
            }
            let mut left: usize = interval;
            while i < trunk
                invariant
                    i <= trunk,
                    interval > 0,
                    1 <= left <= interval,
                    (i + left) % interval as int == 0,
                    v@.len() == i,
                    forall|j: int| 0 <= j < i ==> v@[j] == ((j + 1) % interval as int != 0),
                decreases trunk - i,
            {
                proof {
                    lemma_interval_step(i as int, left as int, interval as int);
                }
                v.push(left != 1);
                left = if left == 1 { interval } else { left - 1 };
                i = i + 1;
            }
            assert(v@ =~= interval_rule(trunk as nat, interval as nat));
        },
    }
    Ok(v)
}

proof fn lemma_interval_step(i: int, left: int, n: int)
    requires
        n > 0,
        1 <= left <= n,
        i >= 0,
        (i + left) % n == 0,
    ensures
        ((i + 1) % n == 0) == (left == 1),
        left == 1 ==> (i + 1 + n) % n == 0,
        left != 1 ==> (i + 1 + (left - 1)) % n == 0,
{
    if left == 1 {
        vstd::arithmetic::div_mod::lemma_mod_add_multiples_vanish(i + 1, n);
    } else if (i + 1) % n == 0 {
        vstd::arithmetic::div_mod::lemma_fundamental_div_mod(i + 1, n);
        vstd::arithmetic::div_mod::lemma_fundamental_div_mod(i + left, n);
        let a = (i + 1) / n;
        let b = (i + left) / n;
        assert(n * (b - a) == left - 1) by (nonlinear_arith)
            requires
                i + 1 == n * a,
                i + left == n * b,
        ;
        assert(false) by (nonlinear_arith)
            requires
                n * (b - a) == left - 1,
                0 < left - 1 < n,
        ;
    }
}

/// Parses the hybrid layout from the metadata.
pub fn qwen35_meta(g: &GgufFile) -> (r: Result<Qwen35Meta, String>)
    ensures
        match r {
            Ok(m) => hybrid(g@.meta) == Ok::<Hybrid, Seq<char>>(m@) && hybrid_ok(m@),
            Err(e) => hybrid(g@.meta) == Err::<Hybrid, Seq<char>>(e@),
        },
{
    let blocks: usize = match g.get_usize("qwen35.block_count") {
        Err(e) => return Err(e),
        Ok(x) => x,
    };
    let nextn: usize = match g.get_usize("qwen35.nextn_predict_layers") {
        Err(_) => 0,
        Ok(x) => x,
    };
    if nextn >= blocks {
        let mut e = "qwen35: nextn_predict_layers ".to_owned();
        push_dec(&mut e, nextn as u64);
        e.append(" >= block_count ");
        push_dec(&mut e, blocks as u64);
        return Err(e);
    }
    let trunk: usize = blocks - nextn;
    let interval: usize = match g.get_usize("qwen35.full_attention_interval") {
        Err(_) => 4,
        Ok(x) => x,
    };
    let is_recurrent = match read_kinds(g.get_arr_i64("qwen35.attention.recurrent_layers"), trunk, interval) {
        Err(e) => return Err(e),
        Ok(v) => v,
    };
    let d_conv: usize = match g.get_usize("qwen35.ssm.conv_kernel") {
        Err(e) => return Err(e),
        Ok(x) => x,
    };
    let d_state: usize = match g.get_usize("qwen35.ssm.state_size") {
        Err(e) => return Err(e),
        Ok(x) => x,
    };
    let n_group: usize = match g.get_usize("qwen35.ssm.group_count") {
        Err(e) => return Err(e),
        Ok(x) => x,
    };
    let dt_rank: usize = match g.get_usize("qwen35.ssm.time_step_rank") {
        Err(e) => return Err(e),
        Ok(x) => x,
    };
    let d_inner: usize = match g.get_usize("qwen35.ssm.inner_size") {
        Err(e) => return Err(e),
        Ok(x) => x,
    };
    if dt_rank.checked_mul(d_state) != Some(d_inner) {
        let mut e = "qwen35: ssm.inner_size ".to_owned();
        push_dec(&mut e, d_inner as u64);
        e.append(" != time_step_rank ");
        push_dec(&mut e, dt_rank as u64);
        e.append(" x state_size ");
        push_dec(&mut e, d_state as u64);
        return Err(e);
    }
    let sec = match g.get_arr_i64("qwen35.rope.dimension_sections") {
        Err(e) => return Err(e),
        Ok(s) => s,
    };
    if sec.len() < 4 {
        return Err("qwen35: rope.dimension_sections needs 4 entries".to_owned());
    }
    if d_conv == 0 {
        return Err("qwen35: ssm.conv_kernel is 0".to_owned());
    }
    let (conv_state_elems, delta_state_elems) = match state_sizes(d_conv, d_state, n_group, d_inner) {
        None => return Err("qwen35: the state sizes overflow".to_owned()),
        Some(p) => p,
    };
    let rope_sections = [wrap_bits(sec[0]), wrap_bits(sec[1]), wrap_bits(sec[2]), wrap_bits(sec[3])];
    assert(rope_sections@ =~= seq![wrap_u64(sec@[0]), wrap_u64(sec@[1]), wrap_u64(sec@[2]), wrap_u64(sec@[3])]);
    Ok(
        Qwen35Meta {
            trunk_layers: trunk,
            nextn_layers: nextn,
            full_attention_interval: interval,
            is_recurrent,
            d_conv,
            d_state,
            n_group,
            dt_rank,
            d_inner,
            rope_sections,
            conv_state_elems,
            delta_state_elems,
        },
    )
}

/// The elements of the two states of a linear layer, if they fit in a word.
fn state_sizes(d_conv: usize, d_state: usize, n_group: usize, d_inner: usize) -> (r: Option<(usize, usize)>)
    requires
        d_conv > 0,
    ensures
        ({
            let width = d_inner + 2 * n_group * d_state;
            match r {
                Some((c, d)) => {
                    &&& width <= usize::MAX
                    &&& c == (d_conv - 1) * width
                    &&& d == d_state * d_inner
                },
                None => width > usize::MAX || (d_conv - 1) * width > usize::MAX || d_state * d_inner > usize::MAX,
            }
        }),
{
    proof {
        assert(2 * n_group * d_state == 2 * (n_group * d_state)) by (nonlinear_arith);
    }
    let g: usize = match n_group.checked_mul(d_state) {
        None => return None,
        Some(x) => x,
    };
    let keys: usize = match g.checked_mul(2) {
        None => return None,
        Some(x) => x,
    };
    let width: usize = match d_inner.checked_add(keys) {
        None => return None,
        Some(x) => x,
    };
    let conv: usize = match (d_conv - 1).checked_mul(width) {
        None => return None,
        Some(x) => x,
    };
    match d_state.checked_mul(d_inner) {
        None => None,
        Some(delta) => Some((conv, delta)),
    }
}

// ---------- the model configuration ----------

/// What the runtime needs to know about a GGUF model beyond its configuration.
#[derive(Debug, Clone)]
pub struct GgufArch {
    pub arch: String,
    /// Queries and keys are normalised per head.
    pub qk_norm: bool,
    /// Width of a head, from the metadata where it states one.
    pub head_dim: usize,
}

/// What a GGUF model's configuration says.
pub struct ConfigView {
    pub arch: Seq<char>,
    pub hidden: nat,
    pub ffn: nat,
    pub layers: nat,
    pub heads: nat,
    pub kv_heads: nat,
    pub vocab: nat,
    pub eps: FloatBits,
    pub theta: FloatBits,
    pub max_pos: nat,
    pub eos: Set<u32>,
    pub qk_norm: bool,
    pub head_dim: nat,
}

/// The configuration and the architecture facts say what `v` says.
pub open spec fn config_is(cfg: ModelConfig, a: GgufArch, v: ConfigView) -> bool {
    &&& cfg.architectures@.len() == 1
    &&& cfg.architectures@[0]@ == "gguf:"@ + v.arch
    &&& cfg.hidden_size == v.hidden
    &&& cfg.intermediate_size == v.ffn
    &&& cfg.num_hidden_layers == v.layers
    &&& cfg.num_attention_heads == v.heads
    &&& cfg.num_key_value_heads == v.kv_heads
    &&& cfg.vocab_size == v.vocab
    &&& cfg.rms_norm_eps == v.eps
    &&& cfg.rope_theta == v.theta
    &&& cfg.max_position_embeddings == v.max_pos
    &&& cfg.eos_token_id@ == v.eos
    &&& a.arch@ == v.arch
    &&& a.qk_norm == v.qk_norm
    &&& a.head_dim == v.head_dim
}

/// The metadata key of `arch` with the given suffix.
pub open spec fn arch_key(arch: Seq<char>, suffix: Seq<char>) -> Seq<char> {
    arch + "."@ + suffix
}

/// A tensor's name ends in `attn_q_norm.weight`.
pub open spec fn has_q_norm(f: FileView) -> bool {
    exists|i: int|
        0 <= i < f.tensors.len() && "attn_q_norm.weight"@.is_suffix_of((#[trigger] f.tensors[i]).name)
}

/// The head width: what the metadata states, else the hidden width over the
/// number of heads.
pub open spec fn head_width(
    stated: Result<nat, Seq<char>>,
    arch: Seq<char>,
    hidden: nat,
    heads: nat,
) -> Result<nat, Seq<char>> {
    match stated {
        Ok(x) => Ok(x),
        Err(_) => if heads == 0 {
            Err("GGUF key "@ + arch_key(arch, "attention.head_count"@) + " is 0"@)
        } else {
            Ok(hidden / heads)
        },
    }
}

/// The depth: the block count, without the prediction blocks of a hybrid.
pub open spec fn depth(m: Map<Seq<char>, MetaValue>, arch: Seq<char>) -> Result<nat, Seq<char>> {
    match usize_of(m, arch_key(arch, "block_count"@)) {
        Err(e) => Err(e),
        Ok(blocks) => {
            let nextn = or_else(usize_of(m, arch_key(arch, "nextn_predict_layers"@)), 0);
            if arch != "qwen35"@ {
                Ok(blocks)
            } else if nextn > blocks {
                Err("qwen35: nextn_predict_layers "@ + dec(nextn) + " > block_count "@ + dec(blocks))
            } else {
                Ok((blocks - nextn) as nat)
            }
        },
    }
}

/// The id that ends a text, if the metadata states one, taken to 32 bits.
pub open spec fn eos_of(m: Map<Seq<char>, MetaValue>) -> Set<u32> {
    match usize_of(m, "tokenizer.ggml.eos_token_id"@) {
        Ok(id) => Set::empty().insert((id % 0x1_0000_0000) as u32),
        Err(_) => Set::empty(),
    }
}

/// The vocabulary size: the length of the token list, else the explicit key.
pub open spec fn vocab_of(m: Map<Seq<char>, MetaValue>, arch: Seq<char>) -> Result<nat, Seq<char>> {
    match strs_of(m, "tokenizer.ggml.tokens"@) {
        Ok(t) => Ok(t.len()),
        Err(_) => usize_of(m, arch_key(arch, "vocab_size"@)),
    }
}

/// The configuration of a file whose architecture is `arch`.
pub open spec fn config_for(f: FileView, arch: Seq<char>) -> Result<ConfigView, Seq<char>> {
    let m = f.meta;
    match usize_of(m, arch_key(arch, "attention.head_count"@)) {
        Err(e) => Err(e),
        Ok(heads) => match usize_of(m, arch_key(arch, "embedding_length"@)) {
            Err(e) => Err(e),
            Ok(hidden) => match vocab_of(m, arch) {
                Err(e) => Err(e),
                Ok(vocab) => match head_width(
                    usize_of(m, arch_key(arch, "attention.key_length"@)),
                    arch,
                    hidden,
                    heads,
                ) {
                    Err(e) => Err(e),
                    Ok(head_dim) => match depth(m, arch) {
                        Err(e) => Err(e),
                        Ok(layers) => match usize_of(m, arch_key(arch, "feed_forward_length"@)) {
                            Err(e) => Err(e),
                            Ok(ffn) => match usize_of(m, arch_key(arch, "attention.head_count_kv"@)) {
                                Err(e) => Err(e),
                                Ok(kv_heads) => match float_of(
                                    m,
                                    arch_key(arch, "attention.layer_norm_rms_epsilon"@),
                                ) {
                                    Err(e) => Err(e),
                                    Ok(eps) => Ok(
                                        ConfigView {
                                            arch,
                                            hidden,
                                            ffn,
                                            layers,
                                            heads,
                                            kv_heads,
                                            vocab,
                                            eps,
                                            theta: or_else(
                                                float_of(m, arch_key(arch, "rope.freq_base"@)),
                                                FloatBits::Single(DEFAULT_ROPE_THETA_BITS),
                                            ),
                                            max_pos: or_else(
                                                usize_of(m, arch_key(arch, "context_length"@)),
                                                4096,
                                            ),
                                            eos: eos_of(m),
                                            qk_norm: (m.dom().contains("tokenizer.ggml.tokens"@) && arch
                                                == "qwen3"@) || has_q_norm(f),
                                            head_dim,
                                        },
                                    ),
                                },
                            },
                        },
                    },
                },
            },
        },
    }
}

/// The configuration that a file describes.
pub open spec fn config_of(f: FileView) -> Result<ConfigView, Seq<char>> {
    match str_of(f.meta, "general.architecture"@) {
        Err(e) => Err(e),
        Ok(arch) => if arch != "llama"@ && arch != "qwen2"@ && arch != "qwen3"@ && arch != "qwen35"@ {
            Err(
                "GGUF architecture \""@ + arch
                    + "\" is not supported (llama, qwen2, qwen3, qwen35 are)"@,
            )
        } else if arch == "qwen35"@ && !f.meta.dom().contains("tokenizer.ggml.tokens"@) {
            Err(
                "this qwen35 file looks like an MTP-only companion (no trunk) — download the full checkpoint"@,
            )
        } else {
            config_for(f, arch)
        },
    }
}

fn key(arch: &str, suffix: &str) -> (r: String)
    ensures
        r@ == arch_key(arch@, suffix@),
{
    let mut s = arch.to_owned();
    s.append(".");
    s.append(suffix);
    s
}

fn any_q_norm(g: &GgufFile) -> (r: bool)
    ensures
        r == has_q_norm(g@),
{
    let suffix = chars_of("attn_q_norm.weight");
    let n: usize = g.n_tensors();
    let mut i: usize = 0;
    while i < n
        invariant
            n == g@.tensors.len(),
            i <= n,
            suffix@ == "attn_q_norm.weight"@,
            forall|j: int| 0 <= j < i ==> !suffix@.is_suffix_of((#[trigger] g@.tensors[j]).name),
        decreases n - i,
    {
        let name = chars_of(g.tensor_at(i).name.as_str());
        if ends(name.as_slice(), suffix.as_slice()) {
            assert(suffix@.is_suffix_of(g@.tensors[i as int].name));
            return true;
        }
        i = i + 1;
    }
    false
}

fn read_head_width(stated: Result<usize, String>, arch: &str, hidden: usize, heads: usize) -> (r: Result<usize, String>)
    ensures
        ({
            let want = head_width(
                match stated { Ok(x) => Ok(x as nat), Err(e) => Err(e@) },
                arch@,
                hidden as nat,
                heads as nat,
            );
            match r {
                Ok(x) => want == Ok::<nat, Seq<char>>(x as nat),
                Err(e) => want == Err::<nat, Seq<char>>(e@),
            }
        }),
{
    match stated {
        Ok(x) => Ok(x),
        Err(_) => {
            if heads == 0 {
                let mut e = "GGUF key ".to_owned();
                e.append(key(arch, "attention.head_count").as_str());
                e.append(" is 0");
                Err(e)
            } else {
                Ok(hidden / heads)
            }
        },
    }
}

fn read_depth(g: &GgufFile, arch: &str) -> (r: Result<usize, String>)
    ensures
        match r {
            Ok(x) => depth(g@.meta, arch@) == Ok::<nat, Seq<char>>(x as nat),
            Err(e) => depth(g@.meta, arch@) == Err::<nat, Seq<char>>(e@),
        },
{
    let blocks: usize = match g.get_usize(key(arch, "block_count").as_str()) {
        Err(e) => return Err(e),
        Ok(x) => x,
    };
    if !same(arch, "qwen35") {
        return Ok(blocks);
    }
    let nextn: usize = match g.get_usize(key(arch, "nextn_predict_layers").as_str()) {
        Err(_) => 0,
        Ok(x) => x,
    };
    if nextn > blocks {
        let mut e = "qwen35: nextn_predict_layers ".to_owned();
        push_dec(&mut e, nextn as u64);
        e.append(" > block_count ");
        push_dec(&mut e, blocks as u64);
        return Err(e);
    }
    Ok(blocks - nextn)
}

fn read_vocab(g: &GgufFile, arch: &str) -> (r: Result<usize, String>)
    ensures
        match r {
            Ok(x) => vocab_of(g@.meta, arch@) == Ok::<nat, Seq<char>>(x as nat),
            Err(e) => vocab_of(g@.meta, arch@) == Err::<nat, Seq<char>>(e@),
        },
{
    match g.get_arr_str("tokenizer.ggml.tokens") {
        Ok(t) => Ok(t.len()),
        Err(_) => g.get_usize(key(arch, "vocab_size").as_str()),
    }
}

fn read_eos(g: &GgufFile) -> (r: EosIds)
    ensures
        r@ == eos_of(g@.meta),
{
    match g.get_usize("tokenizer.ggml.eos_token_id") {
        Ok(id) => EosIds::One((id as u64 % 0x1_0000_0000) as u32),
        Err(_) => EosIds::default(),
    }
}

/// The configuration that the metadata describes, keyed on the architecture.
pub fn model_config(g: &GgufFile) -> (r: Result<(ModelConfig, GgufArch), String>)
    ensures
        match r {
            Ok((cfg, a)) => config_of(g@) matches Ok(v) && config_is(cfg, a, v),
            Err(e) => config_of(g@) == Err::<ConfigView, Seq<char>>(e@),
        },
{
    let arch = match g.get_str("general.architecture") {
        Err(e) => return Err(e),
        Ok(s) => s.to_owned(),
    };
    let a = arch.as_str();
    if !same(a, "llama") && !same(a, "qwen2") && !same(a, "qwen3") && !same(a, "qwen35") {
        let mut e = "GGUF architecture \"".to_owned();
        e.append(a);
        e.append("\" is not supported (llama, qwen2, qwen3, qwen35 are)");
        return Err(e);
    }
    let has_tokens = g.has_key("tokenizer.ggml.tokens");
    if same(a, "qwen35") && !has_tokens {
        return Err(
            "this qwen35 file looks like an MTP-only companion (no trunk) — download the full checkpoint".to_owned(),
        );
    }
    let heads: usize = match g.get_usize(key(a, "attention.head_count").as_str()) {
        Err(e) => return Err(e),
        Ok(x) => x,
    };
    let hidden: usize = match g.get_usize(key(a, "embedding_length").as_str()) {
        Err(e) => return Err(e),
        Ok(x) => x,
    };
    let vocab_size: usize = match read_vocab(g, a) {
        Err(e) => return Err(e),
        Ok(x) => x,
    };
    let stated = g.get_usize(key(a, "attention.key_length").as_str());
    let head_dim: usize = match read_head_width(stated, a, hidden, heads) {
        Err(e) => return Err(e),
        Ok(x) => x,
    };
    let qk_norm = (has_tokens && same(a, "qwen3")) || any_q_norm(g);
    let num_hidden_layers: usize = match read_depth(g, a) {
        Err(e) => return Err(e),
        Ok(x) => x,
    };
    let intermediate_size: usize = match g.get_usize(key(a, "feed_forward_length").as_str()) {
        Err(e) => return Err(e),
        Ok(x) => x,
    };
    let num_key_value_heads: usize = match g.get_usize(key(a, "attention.head_count_kv").as_str()) {
        Err(e) => return Err(e),
        Ok(x) => x,
    };
    let rms_norm_eps = match g.get_f32(key(a, "attention.layer_norm_rms_epsilon").as_str()) {
        Err(e) => return Err(e),
        Ok(x) => x,
    };
    let rope_theta = match g.get_f32(key(a, "rope.freq_base").as_str()) {
        Err(_) => default_rope_theta(),
        Ok(x) => x,
    };
    let max_position_embeddings: usize = match g.get_usize(key(a, "context_length").as_str()) {
        Err(_) => default_max_pos(),
        Ok(x) => x,
    };
    let mut name = "gguf:".to_owned();
    name.append(a);
    let mut architectures: Vec<String> = Vec::new();
    architectures.push(name);
    let cfg = ModelConfig {
        architectures,
        hidden_size: hidden,
        intermediate_size,
        num_hidden_layers,
        num_attention_heads: heads,
        num_key_value_heads,
        vocab_size,
        rms_norm_eps,
        rope_theta,
        max_position_embeddings,
        eos_token_id: read_eos(g),
    };
    Ok((cfg, GgufArch { arch, qk_norm, head_dim }))
}

// ---------- the q/k row permutation ----------

/// The row of the stored weight that belongs at row `r`, for heads of `hd`
/// rows: the two halves of a head are stored interleaved.
pub open spec fn stored_row(r: int, hd: int) -> int {
    let j = r % hd;
    (r / hd) * hd + (j % (hd / 2)) * 2 + j / (hd / 2)
}

/// `out` is `data` with the interleaving of each head's halves undone.
pub open spec fn unpermuted<T>(data: Seq<T>, out: Seq<T>, cols: int, hd: int) -> bool {
    out.len() == data.len() && forall|k: int|
        0 <= k < out.len() ==> #[trigger] out[k] == data[stored_row(k / cols, hd) * cols + k % cols]
}

/// `g` is `x` with each head's halves interleaved: row `d * 2 + a` of a head is
/// its row `a * (hd / 2) + d`.
pub open spec fn permuted<T>(x: Seq<T>, g: Seq<T>, cols: int, hd: int) -> bool {
    g.len() == x.len() && forall|h: int, a: int, d: int, c: int|
        0 <= h && 0 <= a < 2 && 0 <= d < hd / 2 && 0 <= c < cols && (h * hd + d * 2 + a) * cols + c < g.len()
            ==> #[trigger] g[(h * hd + d * 2 + a) * cols + c] == x[(h * hd + a * (hd / 2) + d) * cols + c]
}

proof fn lemma_stored_row_bound(r: int, hd: int, rows: int)
    requires
        0 <= r < rows,
        hd >= 2,
        rows % hd == 0,
    ensures
        0 <= stored_row(r, hd) < rows,
{
    let j = r % hd;
    let half = hd / 2;
    vstd::arithmetic::div_mod::lemma_fundamental_div_mod(r, hd);
    vstd::arithmetic::div_mod::lemma_fundamental_div_mod(rows, hd);
    vstd::arithmetic::div_mod::lemma_fundamental_div_mod(j, half);
    let h = r / hd;
    let n = rows / hd;
    let a = j / half;
    let d = j % half;
    assert(h < n) by (nonlinear_arith)
        requires
            r == hd * h + j,
            rows == hd * n,
            0 <= j,
            r < rows,
            hd >= 2,
    ;
    assert(h >= 0) by (nonlinear_arith)
        requires
            r == hd * h + j,
            j < hd,
            r >= 0,
            hd >= 2,
    ;
    assert(0 <= a <= 3) by (nonlinear_arith)
        requires
            j == half * a + d,
            0 <= d < half,
            0 <= j < hd,
            hd <= 2 * half + 1,
            half >= 1,
    ;
    assert(d * 2 + a < hd) by (nonlinear_arith)
        requires
            j == half * a + d,
            0 <= d < half,
            0 <= j < hd,
            2 * half <= hd <= 2 * half + 1,
            half >= 1,
            0 <= a <= 3,
    ;
    assert(h * hd + hd <= rows) by (nonlinear_arith)
        requires
            rows == hd * n,
            h + 1 <= n,
            hd >= 2,
    ;
    assert(h * hd >= 0) by (nonlinear_arith)
        requires
            h >= 0,
            hd >= 2,
    ;
}

proof fn lemma_row_index(r: int, c: int, cols: int, rows: int)
    requires
        0 <= r < rows,
        0 <= c < cols,
    ensures
        0 <= r * cols + c < rows * cols,
        (r * cols + c) / cols == r,
        (r * cols + c) % cols == c,
{
    vstd::arithmetic::div_mod::lemma_fundamental_div_mod_converse(r * cols + c, cols, r, c);
    assert(0 <= r * cols + c < rows * cols) by (nonlinear_arith)
        requires
            0 <= r < rows,
            0 <= c < cols,
    ;
}

/// Undoes the row permutation of a q or k projection of `rows` by `cols`
/// elements whose heads have `head_dim` rows.
pub fn unpermute_llama_qk<T: Copy>(data: &mut Vec<T>, rows: usize, cols: usize, head_dim: usize)
    requires
        head_dim >= 2,
        rows % head_dim == 0,
        old(data)@.len() == rows * cols,
    ensures
        unpermuted(old(data)@, final(data)@, cols as int, head_dim as int),
{
    let half: usize = head_dim / 2;
    let mut out: Vec<T> = Vec::new();
    let mut r: usize = 0;
    let len: usize = data.len();
    while r < rows
        invariant
            *data == *old(data),
            len == data@.len(),
            data@.len() == rows * cols,
            head_dim >= 2,
            half == head_dim / 2,
            rows % head_dim == 0,
            r <= rows,
            out@.len() == r * cols,
            forall|k: int| 0 <= k < out@.len() ==> #[trigger] out@[k]
                == data@[stored_row(k / cols as int, head_dim as int) * cols + k % cols as int],
        decreases rows - r,
    {
        proof {
            lemma_stored_row_bound(r as int, head_dim as int, rows as int);
            vstd::arithmetic::div_mod::lemma_fundamental_div_mod(r as int, head_dim as int);
            let (h, hd) = (r as int / head_dim as int, head_dim as int);
            assert(hd * h == h * hd) by (nonlinear_arith);
        }
        let j: usize = r % head_dim;
        proof {
            let (a, d) = (j as int / half as int, j as int % half as int);
            vstd::arithmetic::div_mod::lemma_fundamental_div_mod(j as int, half as int);
            assert(a >= 0) by (nonlinear_arith)
                requires
                    j == half * a + d,
                    d < half,
                    j >= 0,
                    half >= 1,
            ;
        }
        let src: usize = (r - j) + (j % half) * 2 + j / half;
        assert(src == stored_row(r as int, head_dim as int));
        let mut c: usize = 0;
        while c < cols
            invariant
                *data == *old(data),
                len == data@.len(),
                data@.len() == rows * cols,
                r < rows,
                c <= cols,
                src == stored_row(r as int, head_dim as int),
                0 <= src < rows,
                out@.len() == r * cols + c,
                forall|k: int| 0 <= k < out@.len() ==> #[trigger] out@[k]
                    == data@[stored_row(k / cols as int, head_dim as int) * cols + k % cols as int],
            decreases cols - c,
        {
            proof {
                lemma_row_index(src as int, c as int, cols as int, rows as int);
                lemma_row_index(r as int, c as int, cols as int, rows as int);
                assert(src * cols <= src * cols + c);
            }
            out.push(data[src * cols + c]);
            c = c + 1;
        }
        proof {
            assert((r + 1) * cols == r * cols + cols) by (nonlinear_arith);
        }
        r = r + 1;
    }
    *data = out;
}

/// Undoing the permutation gives back the weight that was permuted.
pub proof fn lemma_unpermute_inverts_permute<T>(
    x: Seq<T>,
    g: Seq<T>,
    out: Seq<T>,
    rows: int,
    cols: int,
    hd: int,
)
    requires
        hd >= 2,
        hd % 2 == 0,
        rows >= 0,
        cols >= 0,
        rows % hd == 0,
        x.len() == rows * cols,
        permuted(x, g, cols, hd),
        unpermuted(g, out, cols, hd),
    ensures
        out == x,
{
    let half = hd / 2;
    assert forall|k: int| 0 <= k < out.len() implies out[k] == x[k] by {
        assert(cols > 0) by (nonlinear_arith)
            requires
                0 <= k < rows * cols,
                rows >= 0,
                cols >= 0,
        ;
        vstd::arithmetic::div_mod::lemma_fundamental_div_mod(k, cols);
        let (r, c) = (k / cols, k % cols);
        assert(0 <= r < rows) by (nonlinear_arith)
            requires
                k == cols * r + c,
                0 <= c < cols,
                0 <= k < rows * cols,
        ;
        vstd::arithmetic::div_mod::lemma_fundamental_div_mod(r, hd);
        let (h, j) = (r / hd, r % hd);
        vstd::arithmetic::div_mod::lemma_fundamental_div_mod(j, half);
        let (a, d) = (j / half, j % half);
        assert(0 <= h) by (nonlinear_arith)
            requires
                r == hd * h + j,
                j < hd,
                r >= 0,
                hd >= 2,
        ;
        assert(0 <= a < 2) by (nonlinear_arith)
            requires
                j == half * a + d,
                0 <= d < half,
                0 <= j < 2 * half,
        ;
        lemma_stored_row_bound(r, hd, rows);
        lemma_row_index(stored_row(r, hd), c, cols, rows);
        assert(stored_row(r, hd) == h * hd + d * 2 + a);
        assert(g[(h * hd + d * 2 + a) * cols + c] == x[(h * hd + a * half + d) * cols + c]);
        assert(h * hd + a * half + d == r) by (nonlinear_arith)
            requires
                r == hd * h + j,
                j == half * a + d,
        ;
        assert(r * cols == cols * r) by (nonlinear_arith);
    }
    assert(out =~= x);
}

} // verus!
