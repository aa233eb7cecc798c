//! A synthetic weight for timing a kernel on a type that no file at hand
//! carries: its request, its bytes, and the middle one of several timings.
use vstd::prelude::*;
use vstd::string::*;

use crate::gguf::arch::first_piece;
use crate::text::{
    chars_of, dec, find, numeral_digits, parse_number, parse_usize, push_dec, split_once,
};

verus! {

/// A request for a synthetic weight.
#[derive(Debug, Clone, Copy, PartialEq, Eq, Structural)]
pub struct Probe {
    pub sel: u32,
    pub in_dim: usize,
    pub out_dim: usize,
}

/// The `k`-th of the pieces between colons; empty past the last one.
pub open spec fn field(s: Seq<char>, k: nat) -> Seq<char>
    decreases k,
{
    if k == 0 {
        first_piece(s, ':')
    } else {
        match split_once(s, ':') {
            Some((_, rest)) => field(rest, (k - 1) as nat),
            None => Seq::empty(),
        }
    }
}

/// The bytes of one block of a selector that has a synthetic form.
pub open spec fn synth_block(sel: u32) -> Option<nat> {
    match sel {
        5u32 => Some(210),
        17u32 => Some(50),
        18u32 => Some(56),
        _ => None,
    }
}

/// What a request `<sel>:<in_dim>:<out_dim>` asks for.
pub open spec fn probe_of(spec_text: Seq<char>) -> Result<Probe, Seq<char>> {
    match (
        parse_number(field(spec_text, 0), u32::MAX as nat),
        parse_number(field(spec_text, 1), usize::MAX as nat),
        parse_number(field(spec_text, 2), usize::MAX as nat),
    ) {
        (Some(s), Some(i), Some(o)) => if synth_block(s as u32) is Some {
            Ok(Probe { sel: s as u32, in_dim: i as usize, out_dim: o as usize })
        } else {
            Err("probe fail stage=selector sel="@ + dec(s) + " has no synthetic block rule"@)
        },
        _ => Err("probe fail stage=spec want=synth:<sel>:<in_dim>:<out_dim> got="@ + spec_text),
    }
}

/// Up to the first colon, and what follows it.
fn cut(v: &[char]) -> (r: (&[char], Option<&[char]>))
    ensures
        r.0@ == first_piece(v@, ':'),
        match r.1 {
            Some(rest) => split_once(v@, ':') == Some((r.0@, rest@)),
            None => split_once(v@, ':') is None,
        },
{
    let n: usize = v.len();
    match find(v, ':') {
        Some(i) => {
            let head = vstd::slice::slice_subrange(v, 0, i);
            let rest = vstd::slice::slice_subrange(v, i + 1, n);
            assert(head@ =~= v@.take(i as int));
            assert(rest@ =~= v@.skip(i as int + 1));
            (head, Some(rest))
        },
        None => (v, None),
    }
}

fn number_at(v: Option<&[char]>) -> (r: (Option<usize>, Option<&[char]>))
    ensures
        ({
            let s = match v { Some(x) => x@, None => Seq::<char>::empty() };
            &&& match r.0 {
                Some(n) => parse_number(first_piece(s, ':'), usize::MAX as nat) == Some(n as nat),
                None => parse_number(first_piece(s, ':'), usize::MAX as nat) is None,
            }
            &&& match r.1 {
                Some(rest) => split_once(s, ':') matches Some((_, x)) && x == rest@,
                None => split_once(s, ':') is None,
            }
        }),
{
    match v {
        Some(x) => {
            let (head, rest) = cut(x);
            (parse_usize(head), rest)
        },
        None => {
            proof {
                let e = Seq::<char>::empty();
                e.index_of_first_ensures(':');
                assert(first_piece(e, ':') =~= e);
                assert(numeral_digits(e) =~= e);
            }
            (None, None)
        },
    }
}

/// Reads a request.
pub fn parse_probe(spec_text: &str) -> (r: Result<Probe, String>)
    ensures
        match r {
            Ok(p) => probe_of(spec_text@) == Ok::<Probe, Seq<char>>(p),
            Err(e) => probe_of(spec_text@) == Err::<Probe, Seq<char>>(e@),
        },
{
    let chars = chars_of(spec_text);
    let (a, rest1) = number_at(Some(chars.as_slice()));
    let (b, rest2) = number_at(rest1);
    let (c, _rest) = number_at(rest2);
    proof {
        lemma_fields(spec_text@);
    }
    match (a, b, c) {
        (Some(s), Some(in_dim), Some(out_dim)) if s <= 0xFFFF_FFFF => {
            let sel: u32 = s as u32;
            if sel == 5 || sel == 17 || sel == 18 {
                Ok(Probe { sel, in_dim, out_dim })
            } else {
                let mut e = "probe fail stage=selector sel=".to_owned();
                push_dec(&mut e, sel as u64);
                e.append(" has no synthetic block rule");
                Err(e)
            }
        },
        _ => {
            let mut e = "probe fail stage=spec want=synth:<sel>:<in_dim>:<out_dim> got=".to_owned();
            e.append(spec_text);
            Err(e)
        },
    }
}

proof fn lemma_fields(s: Seq<char>)
    ensures
        field(s, 0) == first_piece(s, ':'),
        field(s, 1) == (match split_once(s, ':') {
            Some((_, rest)) => first_piece(rest, ':'),
            None => Seq::empty(),
        }),
        field(s, 2) == (match split_once(s, ':') {
            Some((_, rest)) => match split_once(rest, ':') {
                Some((_, r2)) => first_piece(r2, ':'),
                None => Seq::empty(),
            },
            None => Seq::empty(),
        }),
        first_piece(Seq::<char>::empty(), ':') == Seq::<char>::empty(),
        split_once(Seq::<char>::empty(), ':') is None,
{
    let e = Seq::<char>::empty();
    e.index_of_first_ensures(':');
    match split_once(s, ':') {
        Some((_, rest)) => {
            assert(field(rest, 0) == first_piece(rest, ':'));
            match split_once(rest, ':') {
                Some((_, r2)) => {
                    assert(field(r2, 0) == first_piece(r2, ':'));
                    assert(field(rest, 1) == field(r2, 0));
                },
                None => {
                    assert(field(rest, 1) == e);
                },
            }
        },
        None => {},
    }
}

// ---------- the bytes ----------

/// One step of the generator.
pub open spec fn scrambled(x: u64) -> u64 {
    let a = x ^ (x << 13);
    let b = a ^ (a >> 7);
    b ^ (b << 17)
}

/// The generator after `k` draws.
pub open spec fn drawn(k: nat) -> u64
    decreases k,
{
    if k == 0 {
        0x2545_F491_4F6C_DD1D
    } else {
        scrambled(drawn((k - 1) as nat))
    }
}

/// The scale of block `q`, in half precision: a number from one up to two.
pub open spec fn scale_bits(q: nat, blk: nat) -> u16 {
    0x3C00u16 | (((drawn((q + 1) * (blk + 1)) >> 20) as u16) & 0x03FF)
}

/// Byte `i` of block `q`: drawn, but for those that make the block valid.
pub open spec fn synth_byte(sel: u32, blk: nat, q: nat, i: nat) -> u8 {
    let raw = (drawn(q * (blk + 1) + i + 1) >> 24) as u8;
    let d = scale_bits(q, blk);
    if (sel == 5 && i == 208) || (sel == 17 && i == 0) {
        (d & 0xFF) as u8
    } else if (sel == 5 && i == 209) || (sel == 17 && i == 1) {
        (d >> 8) as u8
    } else if sel == 18 && i == 55 {
        (raw & 0x0F) | 0x30
    } else {
        raw
    }
}

impl Probe {
    /// The blocks of the weight, row after row.
    pub open spec fn blocks(self) -> nat {
        self.out_dim as nat * (self.in_dim as nat / 256)
    }

    pub open spec fn block(self) -> nat {
        synth_block(self.sel)->0
    }

    /// The weight's bytes.
    pub open spec fn bytes(self) -> Seq<u8> {
        Seq::new(
            self.blocks() * self.block(),
            |j: int| synth_byte(self.sel, self.block(), j as nat / self.block(), j as nat % self.block()),
        )
    }
}

fn draw(x: u64) -> (r: u64)
    ensures
        r == scrambled(x),
{
    let a: u64 = x ^ (x << 13);
    let b: u64 = a ^ (a >> 7);
    b ^ (b << 17)
}

/// One block of the weight.
fn fill_block(sel: u32, blk: usize, st: u64, Ghost(q): Ghost<nat>) -> (r: (Vec<u8>, u64))
    requires
        synth_block(sel) == Some(blk as nat),
        st == drawn(q * (blk as nat + 1)),
    ensures
        r.0@ == Seq::new(blk as nat, |i: int| synth_byte(sel, blk as nat, q, i as nat)),
        r.1 == drawn((q + 1) * (blk as nat + 1)),
{
    let mut w: Vec<u8> = Vec::new();
    let mut x: u64 = st;
    let mut i: usize = 0;
    while i < blk
        invariant
            i <= blk,
            w@.len() == i,
            x == drawn(q * (blk as nat + 1) + i as nat),
            forall|j: int| 0 <= j < i ==> #[trigger] w@[j] == (drawn(q * (blk as nat + 1) + j as nat + 1) >> 24) as u8,
        decreases blk - i,
    {
        x = draw(x);
        w.push((x >> 24) as u8);
        i = i + 1;
    }
    x = draw(x);
    proof {
        assert((q + 1) * (blk as nat + 1) == q * (blk as nat + 1) + blk as nat + 1) by (nonlinear_arith);
    }
    let d: u16 = 0x3C00u16 | (((x >> 20) as u16) & 0x03FF);
    let ghost raw = w@;
    if sel == 5 {
        w.set(208, (d & 0xFF) as u8);
        w.set(209, (d >> 8) as u8);
    } else if sel == 17 {
        w.set(0, (d & 0xFF) as u8);
        w.set(1, (d >> 8) as u8);
    } else {
        let last: u8 = w[55];
        w.set(55, (last & 0x0F) | 0x30);
    }
    assert(w@ =~= Seq::new(blk as nat, |i: int| synth_byte(sel, blk as nat, q, i as nat)));
    (w, x)
}

/// The bytes of a synthetic weight.
pub fn synth_weight(p: Probe) -> (r: Vec<u8>)
    requires
        synth_block(p.sel) is Some,
        p.blocks() * p.block() <= usize::MAX,
    ensures
        r@ == p.bytes(),
{
    let blk: usize = match p.sel {
        5 => 210,
        17 => 50,
        _ => 56,
    };
    let per_row: usize = p.in_dim / 256;
    proof {
        let (b, k) = (p.blocks() as int, blk as int);
        assert(b <= b * k) by (nonlinear_arith)
            requires
                b >= 0,
                k >= 1,
        ;
    }
    let blocks: usize = p.out_dim * per_row;
    let mut w: Vec<u8> = Vec::new();
    let mut st: u64 = 0x2545_F491_4F6C_DD1D;
    let mut q: usize = 0;
    assert(0 * (blk as nat + 1) == 0) by (nonlinear_arith);
    while q < blocks
        invariant
            q <= blocks,
            synth_block(p.sel) == Some(blk as nat),
            blocks as nat == p.blocks(),
            blocks * blk <= usize::MAX,
            w@.len() == q * blk,
            st == drawn(q as nat * (blk as nat + 1)),
            forall|j: int| 0 <= j < w@.len() ==> #[trigger] w@[j] == p.bytes()[j],
        decreases blocks - q,
    {
        let (mut one, next) = fill_block(p.sel, blk, st, Ghost(q as nat));
        let ghost before = w@;
        let ghost block = one@;
        w.append(&mut one);
        proof {
            let (n, k, m) = (q as int, blk as int, blocks as int);
            assert((n + 1) * k == n * k + k) by (nonlinear_arith);
            assert((n + 1) * k <= m * k) by (nonlinear_arith)
                requires
                    n + 1 <= m,
                    k >= 0,
            ;
            assert forall|j: int| 0 <= j < w@.len() implies #[trigger] w@[j] == p.bytes()[j] by {
                if j < n * k {
                    assert(w@[j] == before[j]);
                } else {
                    let i = j - n * k;
                    assert(w@[j] == block[i]);
                    lemma_place(n, k, i);
                    assert(j as nat / blk as nat == q as nat);
                    assert(j as nat % blk as nat == i as nat);
                }
            }
        }
        st = next;
        q = q + 1;
    }
    assert(w@ =~= p.bytes());
    w
}

proof fn lemma_place(q: int, k: int, i: int)
    requires
        0 <= q,
        0 <= i < k,
    ensures
        (q * k + i) / k == q,
        (q * k + i) % k == i,
{
    assert((q * k + i) / k == q && (q * k + i) % k == i) by (nonlinear_arith)
        requires
            0 <= q,
            0 <= i < k,
    ;
}

// ---------- timings ----------

/// `s` is `v` in ascending order.
pub open spec fn sorted_form(v: Seq<u128>, s: Seq<u128>) -> bool {
    &&& s.to_multiset() == v.to_multiset()
    &&& forall|i: int, j: int| 0 <= i <= j < s.len() ==> s[i] <= s[j]
}

fn sort_times(v: Vec<u128>) -> (r: Vec<u128>)
    ensures
        sorted_form(v@, r@),
        r@.len() == v@.len(),
{
    broadcast use vstd::seq_lib::group_to_multiset_ensures;

    let mut out: Vec<u128> = Vec::new();
    let mut i: usize = 0;
    assert(v@.take(0) =~= out@);
    while i < v.len()
        invariant
            i <= v@.len(),
            out@.len() == i,
            sorted_form(v@.take(i as int), out@),
        decreases v.len() - i,
    {
        let x = v[i];
        let mut k: usize = 0;
        while k < out.len() && out[k] <= x
            invariant
                k <= out@.len(),
                forall|j: int| 0 <= j < k ==> out@[j] <= x,
            decreases out.len() - k,
        {
            k = k + 1;
        }
        let ghost before = out@;
        out.insert(k, x);
        proof {
            vstd::seq_lib::to_multiset_insert(before, k as int, x);
            assert(v@.take(i as int + 1) =~= v@.take(i as int).push(x));
            vstd::seq_lib::to_multiset_build(v@.take(i as int), x);
            assert(out@ =~= before.insert(k as int, x));
            assert forall|a: int, b: int| 0 <= a <= b < out@.len() implies out@[a] <= out@[b] by {
                let (pa, pb) = (if a > k { a - 1 } else { a }, if b > k { b - 1 } else { b });
                if a != k && b != k {
                    assert(before[pa] <= before[pb]);
                } else if a == k && b > k {
                    assert(before[k as int] <= before[pb]);
                }
            }
            assert(out@.to_multiset() =~= v@.take(i as int + 1).to_multiset());
        }
        i = i + 1;
    }
    assert(v@.take(i as int) =~= v@);
    out
}

/// The middle one of several timings; of two, the later.
pub fn median(v: Vec<u128>) -> (r: u128)
    requires
        v@.len() > 0,
    ensures
        exists|s: Seq<u128>| #[trigger] sorted_form(v@, s) && s.len() == v@.len() && r == s[v@.len() as int / 2],
{
    let n: usize = v.len();
    let s = sort_times(v);
    s[n / 2]
}

} // verus!
