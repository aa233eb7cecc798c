//! The storage formats as they are laid out: what the bytes of a block are for, and
//! the numbers under which files name the formats.
use vstd::prelude::*;
use vstd::string::*;

use crate::gguf::ggml_type::{GgmlType, type_of_id};

verus! {

/// The bits of one number.
pub open spec fn bits_of(t: GgmlType) -> nat {
    match t {
        GgmlType::F32 => 32,
        GgmlType::F16 => 16,
        GgmlType::Q8_0 => 8,
        GgmlType::Q6_K => 6,
        GgmlType::Q5_0 | GgmlType::Q5_K => 5,
        GgmlType::Q4_0 | GgmlType::Q4_K | GgmlType::IQ4_NL | GgmlType::IQ4_XS => 4,
        GgmlType::Q3_K | GgmlType::IQ3_XXS | GgmlType::IQ3_S => 3,
        GgmlType::Q2_K | GgmlType::IQ2_XXS | GgmlType::IQ2_XS | GgmlType::IQ2_S => 2,
        GgmlType::IQ1_S | GgmlType::IQ1_M => 1,
    }
}

/// The numbers that share a block: none where there is nothing to share, 32 under one
/// scale, 256 under scales of their own.
pub open spec fn is_super(t: GgmlType) -> bool {
    !(t is F32) && !(t is F16) && !is_small(t)
}

pub open spec fn is_small(t: GgmlType) -> bool {
    t is Q4_0 || t is Q5_0 || t is Q8_0 || t is IQ4_NL
}

/// The bytes of a block beside its numbers: a half-precision scale, the scales of
/// its parts, and what else the format keeps.
pub open spec fn side_bytes(t: GgmlType) -> nat {
    match t {
        GgmlType::F32 | GgmlType::F16 => 0,
        GgmlType::Q4_0 | GgmlType::Q5_0 | GgmlType::Q8_0 | GgmlType::IQ4_NL => 2,
        // A scale and a minimum, and both for sixteen parts.
        GgmlType::Q2_K => 2 + 2 + 16,
        // A scale, and six bits for sixteen parts.
        GgmlType::Q3_K => 2 + 12,
        // A scale and a minimum, and six bits of both for eight parts.
        GgmlType::Q4_K | GgmlType::Q5_K => 2 + 2 + 12,
        // A scale, and a byte for sixteen parts.
        GgmlType::Q6_K => 2 + 16,
        GgmlType::IQ2_XXS | GgmlType::IQ3_XXS => 2,
        // A scale, and four bits for sixteen parts.
        GgmlType::IQ2_XS => 2 + 8,
        // The same, and two more bits for each group of eight numbers.
        GgmlType::IQ2_S => 2 + 8 + 8,
        // A scale, four bits for eight parts, and one more bit for each group of four.
        GgmlType::IQ3_S => 2 + 4 + 8,
        // A scale, and two bytes for eight parts.
        GgmlType::IQ1_S => 2 + 16,
        // Eight bytes of scales, and four bits for each group of eight numbers.
        GgmlType::IQ1_M => 8 + 16,
        // A scale, and six bits for eight parts.
        GgmlType::IQ4_XS => 2 + 6,
    }
}

/// A block holds its numbers, and beside them what its format keeps.
pub proof fn lemma_blocks_hold_their_numbers(t: GgmlType)
    ensures
        t.block_len() == (if is_super(t) { 256nat } else if is_small(t) { 32 } else { 1 }),
        t.block_size() * 8 == t.block_len() * bits_of(t) + 8 * side_bytes(t),
{
}

/// The bytes of whole blocks grow with their number: those of two stretches are
/// those of both together.
pub proof fn lemma_bytes_add_up(t: GgmlType, a: nat, b: nat)
    requires
        a % t.block_len() == 0,
        b % t.block_len() == 0,
    ensures
        t.bytes_of(a + b) == t.bytes_of(a) + t.bytes_of(b),
        t.bytes_of(t.block_len()) == t.block_size(),
        t.bytes_of(0) == 0,
{
    let (n, z) = (t.block_len() as int, t.block_size() as int);
    let (x, y) = (a as int / n, b as int / n);
    assert((a + b) as int / n == x + y) by {
        vstd::arithmetic::div_mod::lemma_fundamental_div_mod(a as int, n);
        vstd::arithmetic::div_mod::lemma_fundamental_div_mod(b as int, n);
        assert(a + b == (x + y) * n) by (nonlinear_arith)
            requires
                a == n * x,
                b == n * y,
        ;
        vstd::arithmetic::div_mod::lemma_fundamental_div_mod_converse((a + b) as int, n, x + y, 0);
    }
    assert((x + y) * z == x * z + y * z) by (nonlinear_arith);
    assert(n / n == 1 && 0int / n == 0);
}

/// The number under which a file names a format.
pub open spec fn id_of(t: GgmlType) -> u32 {
    match t {
        GgmlType::F32 => 0,
        GgmlType::F16 => 1,
        GgmlType::Q4_0 => 2,
        GgmlType::Q5_0 => 6,
        GgmlType::Q8_0 => 8,
        GgmlType::Q2_K => 10,
        GgmlType::Q3_K => 11,
        GgmlType::Q4_K => 12,
        GgmlType::Q5_K => 13,
        GgmlType::Q6_K => 14,
        GgmlType::IQ2_XXS => 16,
        GgmlType::IQ2_XS => 17,
        GgmlType::IQ3_XXS => 18,
        GgmlType::IQ1_S => 19,
        GgmlType::IQ4_NL => 20,
        GgmlType::IQ3_S => 21,
        GgmlType::IQ2_S => 22,
        GgmlType::IQ4_XS => 23,
        GgmlType::IQ1_M => 29,
    }
}

/// A number names a format if and only if it is that format's own.
pub proof fn lemma_ids_name_their_formats(id: u32, t: GgmlType)
    ensures
        type_of_id(id) == Ok::<GgmlType, crate::gguf::ggml_type::RefusedType>(t) <==> id == id_of(t),
{
}

} // verus!
