//! The linear layers of a hybrid trunk: the sizes of their states, the two
//! orientations of the delta state, and the rotation of their neighbours.
use vstd::prelude::*;

use crate::gguf::arch::{hybrid_ok, Qwen35Meta};

verus! {

/// The geometry of a linear layer.
#[derive(Debug, Clone, Copy, PartialEq, Eq, Structural)]
pub struct DeltaDims {
    pub d_state: usize,
    pub n_v_heads: usize,
    pub n_k_heads: usize,
    pub d_conv: usize,
}

impl DeltaDims {
    /// Width of all value heads.
    pub open spec fn inner(self) -> int {
        self.n_v_heads * self.d_state
    }

    /// Width of all key heads.
    pub open spec fn keys(self) -> int {
        self.n_k_heads * self.d_state
    }

    /// Channels of the convolution: queries, keys and values.
    pub open spec fn channels(self) -> int {
        2 * self.keys() + self.inner()
    }

    /// Elements of the convolution's history.
    pub open spec fn conv_state(self) -> int {
        (self.d_conv - 1) * self.channels()
    }

    /// Elements of the delta state: a square per value head.
    pub open spec fn delta_state(self) -> int {
        self.n_v_heads * (self.d_state * self.d_state)
    }

    /// Every size fits in a machine word.
    pub open spec fn fits(self) -> bool {
        &&& self.d_conv > 0
        &&& self.channels() <= usize::MAX
        &&& self.conv_state() <= usize::MAX
        &&& self.d_state * self.d_state <= usize::MAX
        &&& self.delta_state() <= usize::MAX
    }

    proof fn lemma_parts(self)
        ensures
            0 <= self.inner() <= self.channels(),
            0 <= self.keys() <= 2 * self.keys() <= self.channels(),
    {
        let d = self;
        assert(d.n_v_heads * d.d_state >= 0) by (nonlinear_arith);
        assert(d.n_k_heads * d.d_state >= 0) by (nonlinear_arith);
    }

    pub fn d_inner(&self) -> (r: usize)
        requires
            self.fits(),
        ensures
            r == self.inner(),
    {
        proof {
            self.lemma_parts();
        }
        self.n_v_heads * self.d_state
    }

    pub fn key_dim(&self) -> (r: usize)
        requires
            self.fits(),
        ensures
            r == self.keys(),
    {
        proof {
            self.lemma_parts();
        }
        self.n_k_heads * self.d_state
    }

    pub fn conv_channels(&self) -> (r: usize)
        requires
            self.fits(),
        ensures
            r == self.channels(),
    {
        proof {
            self.lemma_parts();
        }
        2 * self.key_dim() + self.d_inner()
    }

    pub fn conv_state_elems(&self) -> (r: usize)
        requires
            self.fits(),
        ensures
            r == self.conv_state(),
    {
        (self.d_conv - 1) * self.conv_channels()
    }

    pub fn delta_state_elems(&self) -> (r: usize)
        requires
            self.fits(),
        ensures
            r == self.delta_state(),
    {
        self.n_v_heads * (self.d_state * self.d_state)
    }

    /// The geometry that a hybrid layout describes.
    pub fn from_meta(m: &Qwen35Meta) -> (r: DeltaDims)
        ensures
            r == (DeltaDims {
                d_state: m.d_state,
                n_v_heads: m.dt_rank,
                n_k_heads: m.n_group,
                d_conv: m.d_conv,
            }),
    {
        DeltaDims { d_state: m.d_state, n_v_heads: m.dt_rank, n_k_heads: m.n_group, d_conv: m.d_conv }
    }
}

/// The sizes that a hybrid layout records are those of its geometry, and fit.
pub proof fn lemma_meta_sizes(m: Qwen35Meta)
    requires
        hybrid_ok(m@),
        m.d_state > 0,
        m.dt_rank > 0,
        m.d_conv > 1,
    ensures
        ({
            let d = DeltaDims {
                d_state: m.d_state,
                n_v_heads: m.dt_rank,
                n_k_heads: m.n_group,
                d_conv: m.d_conv,
            };
            &&& d.inner() == m.d_inner
            &&& d.conv_state() == m.conv_state_elems
            &&& d.delta_state() == m.delta_state_elems
            &&& d.fits()
        }),
{
    let (s, v, k, c) = (m.d_state as int, m.dt_rank as int, m.n_group as int, m.d_conv as int);
    let ch = 2 * (k * s) + v * s;
    assert(m.d_inner + 2 * k * s == ch) by (nonlinear_arith)
        requires
            m.d_inner == v * s,
            ch == 2 * (k * s) + v * s,
    ;
    assert(v * (s * s) == s * (v * s)) by (nonlinear_arith);
    assert(ch <= (c - 1) * ch) by (nonlinear_arith)
        requires
            c > 1,
            ch >= 0,
    ;
    assert(s * s <= v * (s * s)) by (nonlinear_arith)
        requires
            v >= 1,
            s >= 0,
    ;
    assert(k * s >= 0 && v * s >= 0) by (nonlinear_arith)
        requires
            k >= 0,
            v >= 0,
            s >= 0,
    ;
}

// ---------- the orientation of the delta state ----------

/// Where element `k` of the state stands once each head's square is transposed.
pub open spec fn transposed(s: int, k: int) -> int {
    let (h, r) = (k / (s * s), k % (s * s));
    h * (s * s) + (r % s) * s + r / s
}

proof fn lemma_square_index(h: int, i: int, j: int, s: int, heads: int)
    requires
        0 <= h < heads,
        0 <= i < s,
        0 <= j < s,
    ensures
        0 <= i * s + j < s * s,
        0 <= h * (s * s) + i * s + j < heads * (s * s),
        (h * (s * s) + i * s + j) / (s * s) == h,
        (h * (s * s) + i * s + j) % (s * s) == i * s + j,
        (i * s + j) / s == i,
        (i * s + j) % s == j,
{
    let q = s * s;
    assert(0 <= i * s + j < q) by (nonlinear_arith)
        requires
            q == s * s,
            0 <= i < s,
            0 <= j < s,
    ;
    assert(0 <= h * q + (i * s + j) < heads * q) by (nonlinear_arith)
        requires
            0 <= h < heads,
            0 <= i * s + j < q,
    ;
    vstd::arithmetic::div_mod::lemma_fundamental_div_mod_converse(h * q + (i * s + j), q, h, i * s + j);
    vstd::arithmetic::div_mod::lemma_fundamental_div_mod_converse(i * s + j, s, i, j);
}

proof fn lemma_transposed_in_range(s: int, heads: int, k: int)
    requires
        s > 0,
        0 <= k < heads * (s * s),
    ensures
        0 <= transposed(s, k) < heads * (s * s),
        transposed(s, transposed(s, k)) == k,
{
    let q = s * s;
    assert(q > 0) by (nonlinear_arith)
        requires
            q == s * s,
            s > 0,
    ;
    vstd::arithmetic::div_mod::lemma_fundamental_div_mod(k, q);
    let (h, r) = (k / q, k % q);
    assert(0 <= h < heads) by (nonlinear_arith)
        requires
            k == q * h + r,
            0 <= r < q,
            0 <= k < heads * q,
    ;
    vstd::arithmetic::div_mod::lemma_fundamental_div_mod(r, s);
    let (i, j) = (r / s, r % s);
    assert(0 <= i < s) by (nonlinear_arith)
        requires
            r == s * i + j,
            0 <= j < s,
            0 <= r < s * s,
            s > 0,
    ;
    assert(s * i == i * s) by (nonlinear_arith);
    assert(q * h == h * q) by (nonlinear_arith);
    lemma_square_index(h, j, i, s, heads);
    lemma_square_index(h, i, j, s, heads);
}

/// Swaps the two axes of every head's square: the device reads the state in the
/// other orientation than the reference does.
pub fn permute_delta_state<T: Copy>(d: DeltaDims, src: &[T]) -> (r: Vec<T>)
    requires
        src@.len() == d.delta_state(),
    ensures
        r@.len() == src@.len(),
        forall|k: int| 0 <= k < r@.len() ==> #[trigger] r@[k] == src@[transposed(d.d_state as int, k)],
{
    let s: usize = d.d_state;
    let len: usize = src.len();
    let mut out: Vec<T> = Vec::new();
    if s == 0 {
        assert(src@.len() == 0) by (nonlinear_arith)
            requires
                src@.len() == d.n_v_heads * (s * s),
                s == 0,
        ;
        return out;
    }
    let mut h: usize = 0;
    let mut base: usize = 0;
    assert(0 * (s * s) == 0) by (nonlinear_arith);
    while h < d.n_v_heads
        invariant
            s == d.d_state,
            s > 0,
            len == src@.len(),
            src@.len() == d.n_v_heads * (s * s),
            h <= d.n_v_heads,
            base == h * (s * s),
            out@.len() == base,
            forall|k: int| 0 <= k < out@.len() ==> #[trigger] out@[k] == src@[transposed(s as int, k)],
        decreases d.n_v_heads - h,
    {
        let mut i: usize = 0;
        assert(0 * s as int == 0) by (nonlinear_arith);
        while i < s
            invariant
                s == d.d_state,
                s > 0,
                len == src@.len(),
                src@.len() == d.n_v_heads * (s * s),
                h < d.n_v_heads,
                base == h * (s * s),
                i <= s,
                out@.len() == base + i * s,
                forall|k: int| 0 <= k < out@.len() ==> #[trigger] out@[k] == src@[transposed(s as int, k)],
            decreases s - i,
        {
            let mut j: usize = 0;
            while j < s
                invariant
                    s == d.d_state,
                    s > 0,
                    len == src@.len(),
                    src@.len() == d.n_v_heads * (s * s),
                    h < d.n_v_heads,
                    base == h * (s * s),
                    i < s,
                    j <= s,
                    out@.len() == base + i * s + j,
                    forall|k: int| 0 <= k < out@.len() ==> #[trigger] out@[k] == src@[transposed(s as int, k)],
                decreases s - j,
            {
                proof {
                    lemma_square_index(h as int, i as int, j as int, s as int, d.n_v_heads as int);
                    lemma_square_index(h as int, j as int, i as int, s as int, d.n_v_heads as int);
                    assert(j * s <= base + j * s + i);
                }
                out.push(src[base + j * s + i]);
                j = j + 1;
            }
            proof {
                assert((i + 1) * s == i * s + s) by (nonlinear_arith);
            }
            i = i + 1;
        }
        proof {
            let hn = h as int;
            let q = s * s;
            assert((hn + 1) * q == hn * q + q) by (nonlinear_arith);
            assert((hn + 1) * q <= d.n_v_heads * q) by (nonlinear_arith)
                requires
                    hn + 1 <= d.n_v_heads,
                    q >= 0,
            ;
            assert(q >= 0) by (nonlinear_arith)
                requires
                    q == s * s,
            ;
            assert(out@.len() == base + s * s);
        }
        base = out.len();
        h = h + 1;
    }
    out
}

/// Swapping the axes twice gives the state back: one function serves both
/// directions.
pub proof fn lemma_permute_is_its_own_inverse<T>(d: DeltaDims, x: Seq<T>, y: Seq<T>, z: Seq<T>)
    requires
        x.len() == d.delta_state(),
        y.len() == x.len(),
        z.len() == y.len(),
        forall|k: int| 0 <= k < y.len() ==> #[trigger] y[k] == x[transposed(d.d_state as int, k)],
        forall|k: int| 0 <= k < z.len() ==> #[trigger] z[k] == y[transposed(d.d_state as int, k)],
    ensures
        z == x,
{
    let s = d.d_state as int;
    assert forall|k: int| 0 <= k < z.len() implies z[k] == x[k] by {
        if s == 0 {
            assert(false) by (nonlinear_arith)
                requires
                    0 <= k < d.n_v_heads * (s * s),
                    s == 0,
            ;
        }
        lemma_transposed_in_range(s, d.n_v_heads as int, k);
        assert(z[k] == y[transposed(s, k)]);
        assert(y[transposed(s, k)] == x[transposed(s, transposed(s, k))]);
    }
    assert(z =~= x);
}

// ---------- sectioned rotation ----------

/// The position component that pair `pair` of a sectioned rotation uses:
/// sections in blocks, or interleaved by threes.
pub open spec fn component(sections: Seq<u64>, pair: int, interleaved: bool) -> int {
    let (a, b, c) = (sections[0] as int, sections[1] as int, sections[2] as int);
    let sector = pair % (a + b + c + sections[3]);
    if interleaved {
        if sector % 3 == 1 && sector < 3 * b {
            1
        } else if sector % 3 == 2 && sector < 3 * c {
            2
        } else if sector % 3 == 0 && sector < 3 * a {
            0
        } else {
            3
        }
    } else if a <= sector < a + b {
        1
    } else if a + b <= sector < a + b + c {
        2
    } else if sector >= a + b + c {
        3
    } else {
        0
    }
}

/// The component of pair `pair`.
pub fn mrope_component(sections: &[u64; 4], pair: u64, interleaved: bool) -> (r: usize)
    requires
        sections@[0] + sections@[1] + sections@[2] + sections@[3] > 0,
    ensures
        r == component(sections@, pair as int, interleaved),
        r < 4,
{
    let (a, b, c) = (sections[0] as u128, sections[1] as u128, sections[2] as u128);
    let sector: u128 = pair as u128 % (a + b + c + sections[3] as u128);
    if interleaved {
        if sector % 3 == 1 && sector < 3 * b {
            1
        } else if sector % 3 == 2 && sector < 3 * c {
            2
        } else if sector % 3 == 0 && sector < 3 * a {
            0
        } else {
            3
        }
    } else if a <= sector && sector < a + b {
        1
    } else if a + b <= sector && sector < a + b + c {
        2
    } else if sector >= a + b + c {
        3
    } else {
        0
    }
}

/// `x` after `step` was applied `n` times.
pub open spec fn iterate<T>(step: spec_fn(T) -> T, x: T, n: nat) -> T
    decreases n,
{
    if n == 0 {
        x
    } else {
        step(iterate(step, x, (n - 1) as nat))
    }
}

/// The angle of pair `pair` of a sectioned rotation: each component's angle
/// starts at its base and takes a step per pair, and the pair uses that of its
/// component.
pub open spec fn sectioned_angle<T>(
    step: spec_fn(T) -> T,
    bases: Seq<T>,
    sections: Seq<u64>,
    pair: nat,
    interleaved: bool,
) -> T {
    iterate(step, bases[component(sections, pair as int, interleaved)], pair)
}

/// For a text all four components carry one position, and then a sectioned
/// rotation is the plain one, whatever the sections and however an angle steps:
/// no sectioned kernel is needed.
pub proof fn lemma_text_rotation_is_plain<T>(
    step: spec_fn(T) -> T,
    base: T,
    sections: Seq<u64>,
    pair: nat,
    interleaved: bool,
)
    ensures
        sectioned_angle(step, seq![base, base, base, base], sections, pair, interleaved) == iterate(step, base, pair),
{
    let c = component(sections, pair as int, interleaved);
    assert(0 <= c < 4);
    assert(seq![base, base, base, base][c] == base);
}

} // verus!
