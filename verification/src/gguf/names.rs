//! The mapping of tensor names keeps tensors apart: no two names of a file are
//! mapped to one.
use vstd::prelude::*;
use vstd::string::*;

use crate::gguf::arch::{after_prefix, hf, hf_block, hf_part};
use crate::text::{dec, is_digit, lemma_dec_digits, parse_number, rsplit_once, split_once};

verus! {

/// A name whose block number, if it has one, is written without a sign or
/// leading zeros.
pub open spec fn plainly_numbered(name: Seq<char>) -> bool {
    match after_prefix(name, "blk."@) {
        None => true,
        Some(tail) => match split_once(tail, '.') {
            None => true,
            Some((n, _)) => parse_number(n, usize::MAX as nat) matches Some(i) ==> n == dec(i),
        },
    }
}

/// Two texts with one `c` each in between, before which neither part has one,
/// have the same parts.
proof fn lemma_first_parts(x: Seq<char>, r: Seq<char>, y: Seq<char>, t: Seq<char>, c: char)
    requires
        x.push(c) + r == y.push(c) + t,
        forall|i: int| 0 <= i < x.len() ==> x[i] != c,
        forall|i: int| 0 <= i < y.len() ==> y[i] != c,
    ensures
        x == y,
        r == t,
{
    let (a, b) = (x.push(c) + r, y.push(c) + t);
    assert(a[x.len() as int] == c);
    assert(b[y.len() as int] == c);
    if x.len() < y.len() {
        assert(b[x.len() as int] == y[x.len() as int]);
    }
    if y.len() < x.len() {
        assert(a[y.len() as int] == x[y.len() as int]);
    }
    assert forall|i: int| 0 <= i < x.len() implies x[i] == y[i] by {
        assert(a[i] == b[i]);
    }
    assert(x =~= y);
    assert(a.skip(x.len() as int + 1) =~= r);
    assert(b.skip(y.len() as int + 1) =~= t);
}

/// The same where the parts behind the `c` have none.
proof fn lemma_last_parts(x: Seq<char>, r: Seq<char>, y: Seq<char>, t: Seq<char>, c: char)
    requires
        x.push(c) + r == y.push(c) + t,
        forall|i: int| 0 <= i < r.len() ==> r[i] != c,
        forall|i: int| 0 <= i < t.len() ==> t[i] != c,
    ensures
        x == y,
        r == t,
{
    let (a, b) = (x.push(c) + r, y.push(c) + t);
    assert(a.len() == x.len() + 1 + r.len());
    assert(b.len() == y.len() + 1 + t.len());
    assert(a[x.len() as int] == c);
    assert(b[y.len() as int] == c);
    if x.len() < y.len() {
        assert(a[y.len() as int] == r[y.len() - x.len() - 1]);
    }
    if y.len() < x.len() {
        assert(b[x.len() as int] == t[x.len() - y.len() - 1]);
    }
    assert forall|i: int| 0 <= i < x.len() implies x[i] == y[i] by {
        assert(a[i] == b[i]);
    }
    assert(x =~= y);
    assert(a.skip(x.len() as int + 1) =~= r);
    assert(b.skip(y.len() as int + 1) =~= t);
}

proof fn lemma_split_once(s: Seq<char>, c: char, a: Seq<char>, b: Seq<char>)
    requires
        split_once(s, c) == Some((a, b)),
    ensures
        s == a.push(c) + b,
{
    s.index_of_first_ensures(c);
    assert(s =~= a.push(c) + b);
}

proof fn lemma_rsplit_once(s: Seq<char>, c: char, a: Seq<char>, b: Seq<char>)
    requires
        rsplit_once(s, c) == Some((a, b)),
    ensures
        s == a.push(c) + b,
{
    s.index_of_last_ensures(c);
    assert(s =~= a.push(c) + b);
}

proof fn lemma_part_marks(m: Seq<char>)
    ensures
        ({
            let p = hf_part(m);
            ||| m == "attn_norm"@ && p.len() == 15 && p[0] == 'i'
            ||| m == "ffn_norm"@ && p.len() == 24 && p[0] == 'p'
            ||| m == "attn_q"@ && p.len() == 16 && p[0] == 's' && p[10] == 'q' && p[12] == 'p'
            ||| m == "attn_k"@ && p.len() == 16 && p[0] == 's' && p[10] == 'k' && p[12] == 'p'
            ||| m == "attn_v"@ && p.len() == 16 && p[0] == 's' && p[10] == 'v' && p[12] == 'p'
            ||| m == "attn_output"@ && p.len() == 16 && p[0] == 's' && p[10] == 'o' && p[12] == 'p'
            ||| m == "attn_q_norm"@ && p.len() == 16 && p[0] == 's' && p[10] == 'q' && p[12] == 'n'
            ||| m == "attn_k_norm"@ && p.len() == 16 && p[0] == 's' && p[10] == 'k' && p[12] == 'n'
            ||| m == "ffn_gate"@ && p.len() == 13 && p[0] == 'm' && p[4] == 'g'
            ||| m == "ffn_up"@ && p.len() == 11 && p[0] == 'm'
            ||| m == "ffn_down"@ && p.len() == 13 && p[0] == 'm' && p[4] == 'd'
            ||| p.len() == m.len() + 5 && p[0] == 'g' && m == p.skip(5)
        }),
{
    reveal_strlit("input_layernorm");
    reveal_strlit("post_attention_layernorm");
    reveal_strlit("self_attn.q_proj");
    reveal_strlit("self_attn.k_proj");
    reveal_strlit("self_attn.v_proj");
    reveal_strlit("self_attn.o_proj");
    reveal_strlit("self_attn.q_norm");
    reveal_strlit("self_attn.k_norm");
    reveal_strlit("mlp.gate_proj");
    reveal_strlit("mlp.up_proj");
    reveal_strlit("mlp.down_proj");
    reveal_strlit("gguf.");
    assert(("gguf."@ + m).skip(5) =~= m);
}

proof fn lemma_parts_differ(a: Seq<char>, b: Seq<char>)
    requires
        hf_part(a) == hf_part(b),
    ensures
        a == b,
{
    lemma_part_marks(a);
    lemma_part_marks(b);
}

/// The pieces of a block tensor's name.
spec fn is_block(name: Seq<char>, i: nat, mid: Seq<char>, kind: Seq<char>) -> bool {
    &&& name == "blk."@ + (dec(i).push('.') + (mid.push('.') + kind))
    &&& kind == "weight"@ || kind == "bias"@
}

/// The mapped name of a block tensor.
spec fn block_name(i: nat, mid: Seq<char>, kind: Seq<char>) -> Seq<char> {
    "model.layers."@ + (dec(i).push('.') + (hf_part(mid).push('.') + kind))
}

spec fn is_fixed(name: Seq<char>) -> bool {
    name == "token_embd.weight"@ || name == "output_norm.weight"@ || name == "output.weight"@
}

proof fn lemma_block_pieces(name: Seq<char>) -> (r: (nat, Seq<char>, Seq<char>))
    requires
        hf(name) is Some,
        plainly_numbered(name),
        !is_fixed(name),
    ensures
        is_block(name, r.0, r.1, r.2),
        hf(name) == Some(block_name(r.0, r.1, r.2)),
{
    let tail = after_prefix(name, "blk."@)->Some_0;
    let (n, rest) = split_once(tail, '.')->Some_0;
    lemma_split_once(tail, '.', n, rest);
    let i = parse_number(n, usize::MAX as nat)->Some_0;
    let (mid, kind) = rsplit_once(rest, '.')->Some_0;
    lemma_rsplit_once(rest, '.', mid, kind);
    reveal_strlit("blk.");
    assert(name =~= "blk."@ + tail);
    reveal_strlit(".");
    assert("model.layers."@ + dec(i) + "."@ + hf_part(mid) + "."@ + kind =~= block_name(i, mid, kind));
    assert(hf_block(i, rest) is Some);
    (i, mid, kind)
}

proof fn lemma_kind_has_no_dot(kind: Seq<char>)
    requires
        kind == "weight"@ || kind == "bias"@,
    ensures
        forall|i: int| 0 <= i < kind.len() ==> kind[i] != '.',
{
    reveal_strlit("weight");
    reveal_strlit("bias");
}

proof fn lemma_dec_has_no_dot(n: nat)
    ensures
        forall|i: int| 0 <= i < dec(n).len() ==> dec(n)[i] != '.',
{
    lemma_dec_digits(n);
    assert forall|i: int| 0 <= i < dec(n).len() implies dec(n)[i] != '.' by {
        assert(is_digit(dec(n)[i]));
    }
}

proof fn lemma_blocks_differ(
    i: nat,
    mid: Seq<char>,
    kind: Seq<char>,
    j: nat,
    mid2: Seq<char>,
    kind2: Seq<char>,
)
    requires
        block_name(i, mid, kind) == block_name(j, mid2, kind2),
        kind == "weight"@ || kind == "bias"@,
        kind2 == "weight"@ || kind2 == "bias"@,
    ensures
        dec(i) == dec(j),
        mid == mid2,
        kind == kind2,
{
    let (x, y) = (hf_part(mid).push('.') + kind, hf_part(mid2).push('.') + kind2);
    let (p, q) = (dec(i).push('.') + x, dec(j).push('.') + y);
    let h = "model.layers."@.len() as int;
    assert(block_name(i, mid, kind).skip(h) =~= p);
    assert(block_name(j, mid2, kind2).skip(h) =~= q);
    lemma_dec_has_no_dot(i);
    lemma_dec_has_no_dot(j);
    lemma_first_parts(dec(i), x, dec(j), y, '.');
    lemma_kind_has_no_dot(kind);
    lemma_kind_has_no_dot(kind2);
    lemma_last_parts(hf_part(mid), kind, hf_part(mid2), kind2, '.');
    lemma_parts_differ(mid, mid2);
}

/// No two names are mapped to one, as long as their block numbers are written
/// plainly.
pub proof fn lemma_names_stay_apart(a: Seq<char>, b: Seq<char>)
    requires
        a != b,
        plainly_numbered(a),
        plainly_numbered(b),
        hf(a) is Some,
        hf(b) is Some,
    ensures
        hf(a) != hf(b),
{
    reveal_strlit("model.embed_tokens.weight");
    reveal_strlit("model.norm.weight");
    reveal_strlit("lm_head.weight");
    reveal_strlit("model.layers.");
    if !is_fixed(a) && !is_fixed(b) {
        let (i, mid, kind) = lemma_block_pieces(a);
        let (j, mid2, kind2) = lemma_block_pieces(b);
        if hf(a) == hf(b) {
            lemma_blocks_differ(i, mid, kind, j, mid2, kind2);
        }
    } else if !is_fixed(a) {
        let (i, mid, kind) = lemma_block_pieces(a);
        assert(block_name(i, mid, kind)[0] == 'm');
        assert(block_name(i, mid, kind)[6] == 'l');
    } else if !is_fixed(b) {
        let (i, mid, kind) = lemma_block_pieces(b);
        assert(block_name(i, mid, kind)[0] == 'm');
        assert(block_name(i, mid, kind)[6] == 'l');
    } else {
        assert("model.embed_tokens.weight"@[6] == 'e');
        assert("model.norm.weight"@[6] == 'n');
        assert("lm_head.weight"@[0] == 'l');
    }
}

} // verus!
