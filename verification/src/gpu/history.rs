//! The rolling history of a linear block's convolution: per channel the last
//! inputs, oldest first. Rolling it past a chunk at once is rolling it token by
//! token.
use vstd::prelude::*;

verus! {

/// The history after one token: every channel drops its oldest input and takes
/// the token's.
pub open spec fn rolled_once<T>(hist: Seq<T>, x: Seq<T>, keep: int) -> Seq<T> {
    Seq::new(hist.len(), |i: int| if i % keep + 1 < keep { hist[i + 1] } else { x[i / keep] })
}

/// Token `t` of a chunk whose tokens stand one after the other.
pub open spec fn token_at<T>(xs: Seq<T>, channels: int, t: int) -> Seq<T> {
    xs.subrange(t * channels, (t + 1) * channels)
}

/// The history after the first `n` tokens, one at a time.
pub open spec fn rolled_by_token<T>(hist: Seq<T>, xs: Seq<T>, channels: int, keep: int, n: nat) -> Seq<T>
    decreases n,
{
    if n == 0 {
        hist
    } else {
        rolled_once(
            rolled_by_token(hist, xs, channels, keep, (n - 1) as nat),
            token_at(xs, channels, n - 1),
            keep,
        )
    }
}

/// The history after `n` tokens at once: the last inputs of the old history and
/// the chunk together.
pub open spec fn rolled<T>(hist: Seq<T>, xs: Seq<T>, channels: int, keep: int, n: int) -> Seq<T> {
    Seq::new(
        hist.len(),
        |i: int|
            {
                let (c, t) = (i / keep, i % keep + n);
                if t < keep {
                    hist[c * keep + t]
                } else {
                    xs[(t - keep) * channels + c]
                }
            },
    )
}

proof fn lemma_index(i: int, keep: int, channels: int)
    requires
        keep > 0,
        0 <= i < channels * keep,
    ensures
        0 <= i / keep < channels,
        0 <= i % keep < keep,
        i == (i / keep) * keep + i % keep,
{
    vstd::arithmetic::div_mod::lemma_fundamental_div_mod(i, keep);
    let (c, t) = (i / keep, i % keep);
    assert(keep * c == c * keep) by (nonlinear_arith);
    assert(0 <= c < channels) by (nonlinear_arith)
        requires
            i == keep * c + t,
            0 <= t < keep,
            0 <= i < channels * keep,
    ;
}

proof fn lemma_place(c: int, t: int, keep: int, channels: int)
    requires
        0 <= c < channels,
        0 <= t < keep,
    ensures
        0 <= c * keep + t < channels * keep,
        (c * keep + t) / keep == c,
        (c * keep + t) % keep == t,
{
    assert(0 <= c * keep + t < channels * keep) by (nonlinear_arith)
        requires
            0 <= c < channels,
            0 <= t < keep,
    ;
    vstd::arithmetic::div_mod::lemma_fundamental_div_mod_converse(c * keep + t, keep, c, t);
}

/// Rolling past a whole chunk at once leaves the same history as rolling token
/// by token.
pub proof fn lemma_chunk_rolls_like_its_tokens<T>(hist: Seq<T>, xs: Seq<T>, channels: int, keep: int, n: nat)
    requires
        keep > 0,
        channels >= 0,
        hist.len() == channels * keep,
        xs.len() >= n * channels,
    ensures
        rolled(hist, xs, channels, keep, n as int) == rolled_by_token(hist, xs, channels, keep, n),
    decreases n,
{
    let whole = rolled(hist, xs, channels, keep, n as int);
    let single = rolled_by_token(hist, xs, channels, keep, n);
    if n == 0 {
        assert forall|i: int| 0 <= i < whole.len() implies whole[i] == hist[i] by {
            lemma_index(i, keep, channels);
        }
    } else {
        let m = (n - 1) as nat;
        assert(xs.len() >= m * channels) by (nonlinear_arith)
            requires
                xs.len() >= n * channels,
                m == n - 1,
                channels >= 0,
        ;
        lemma_chunk_rolls_like_its_tokens(hist, xs, channels, keep, m);
        let before = rolled(hist, xs, channels, keep, m as int);
        let x = token_at(xs, channels, m as int);
        assert((m + 1) * channels == m * channels + channels) by (nonlinear_arith);
        assert(m * channels >= 0) by (nonlinear_arith)
            requires
                channels >= 0,
        ;
        assert forall|i: int| 0 <= i < whole.len() implies whole[i] == single[i] by {
            lemma_index(i, keep, channels);
            let (c, t) = (i / keep, i % keep);
            if t + 1 < keep {
                lemma_place(c, t + 1, keep, channels);
                assert(single[i] == before[i + 1]);
                assert(i + 1 == c * keep + (t + 1));
            } else {
                assert(x[c] == xs[m * channels + c]);
                assert(t + n - keep == m);
            }
        }
    }
    assert(whole =~= single);
}

/// Rolls a history of `keep` inputs per channel past `n` tokens.
pub fn roll_history<T: Copy>(hist: &[T], xs: &[T], channels: usize, keep: usize, n: usize) -> (r: Vec<T>)
    requires
        hist@.len() == channels * keep,
        xs@.len() >= n * channels,
        keep + n <= usize::MAX,
    ensures
        r@ == rolled(hist@, xs@, channels as int, keep as int, n as int),
{
    let len: usize = hist.len();
    let many: usize = xs.len();
    let ghost want = rolled(hist@, xs@, channels as int, keep as int, n as int);
    let mut out: Vec<T> = Vec::new();
    let mut i: usize = 0;
    while i < len
        invariant
            len == hist@.len(),
            many == xs@.len(),
            hist@.len() == channels * keep,
            xs@.len() >= n * channels,
            keep + n <= usize::MAX,
            want == rolled(hist@, xs@, channels as int, keep as int, n as int),
            i <= len,
            out@ =~= want.take(i as int),
        decreases len - i,
    {
        proof {
            if keep == 0 {
                assert(channels * keep == 0) by (nonlinear_arith)
                    requires
                        keep == 0,
                ;
            }
            lemma_index(i as int, keep as int, channels as int);
        }
        let c: usize = i / keep;
        let t: usize = i % keep + n;
        if t < keep {
            proof {
                lemma_place(c as int, t as int, keep as int, channels as int);
                assert(c * keep <= c * keep + t);
            }
            out.push(hist[c * keep + t]);
        } else {
            proof {
                let (a, b) = (t - keep, channels as int);
                assert(0 <= a * b + c < n * b) by (nonlinear_arith)
                    requires
                        0 <= a < n,
                        0 <= c < b,
                ;
                assert(a * b >= 0) by (nonlinear_arith)
                    requires
                        a >= 0,
                        b >= 0,
                ;
            }
            out.push(xs[(t - keep) * channels + c]);
        }
        i = i + 1;
    }
    assert(out@ =~= want);
    out
}

// ---------- what the convolution sees ----------

/// What the convolution of channel `c` sees at token `t` of a chunk: the last
/// `keep` inputs before it, oldest first, and its own.
pub open spec fn seen<T>(hist: Seq<T>, xs: Seq<T>, channels: int, keep: int, t: int, c: int) -> Seq<T> {
    Seq::new(
        (keep + 1) as nat,
        |j: int|
            if t + j < keep {
                hist[c * keep + (t + j)]
            } else {
                xs[(t + j - keep) * channels + c]
            },
    )
}

/// A token of a chunk sees what it would see alone, behind the history rolled
/// past the tokens before it.
pub proof fn lemma_chunk_sees_like_its_tokens<T>(
    hist: Seq<T>,
    xs: Seq<T>,
    channels: int,
    keep: int,
    t: int,
    c: int,
)
    requires
        keep > 0,
        0 <= c < channels,
        0 <= t,
        hist.len() == channels * keep,
        xs.len() >= (t + 1) * channels,
    ensures
        seen(hist, xs, channels, keep, t, c) == seen(
            rolled(hist, xs, channels, keep, t),
            token_at(xs, channels, t),
            channels,
            keep,
            0,
            c,
        ),
{
    let h = rolled(hist, xs, channels, keep, t);
    let x = token_at(xs, channels, t);
    let (a, b) = (seen(hist, xs, channels, keep, t, c), seen(h, x, channels, keep, 0, c));
    assert((t + 1) * channels == t * channels + channels) by (nonlinear_arith);
    assert(t * channels >= 0) by (nonlinear_arith)
        requires
            t >= 0,
            channels >= 0,
    ;
    assert forall|j: int| 0 <= j < a.len() implies a[j] == b[j] by {
        if j < keep {
            lemma_place(c, j, keep, channels);
            assert(b[j] == h[c * keep + j]);
        } else {
            assert(b[j] == x[(j - keep) * channels + c]);
            assert((j - keep) * channels == 0) by (nonlinear_arith)
                requires
                    j == keep,
            ;
        }
    }
    assert(a =~= b);
}

/// The inputs that the convolution of channel `c` sees at token `t` of a chunk.
pub fn conv_window<T: Copy>(hist: &[T], xs: &[T], channels: usize, keep: usize, t: usize, c: usize) -> (r: Vec<T>)
    requires
        hist@.len() == channels * keep,
        xs@.len() >= (t + 1) * channels,
        c < channels,
        keep + t < usize::MAX,
    ensures
        r@ == seen(hist@, xs@, channels as int, keep as int, t as int, c as int),
{
    let (len, many): (usize, usize) = (hist.len(), xs.len());
    let ghost want = seen(hist@, xs@, channels as int, keep as int, t as int, c as int);
    let mut out: Vec<T> = Vec::new();
    let mut j: usize = 0;
    while j <= keep
        invariant
            len == hist@.len(),
            many == xs@.len(),
            hist@.len() == channels * keep,
            xs@.len() >= (t + 1) * channels,
            c < channels,
            keep + t < usize::MAX,
            want == seen(hist@, xs@, channels as int, keep as int, t as int, c as int),
            j <= keep + 1,
            out@ =~= want.take(j as int),
        decreases keep + 1 - j,
    {
        if t + j < keep {
            proof {
                lemma_place(c as int, t + j, keep as int, channels as int);
                assert(c * keep >= 0) by (nonlinear_arith)
                    requires
                        c >= 0,
                        keep >= 0,
                ;
            }
            out.push(hist[c * keep + (t + j)]);
        } else {
            proof {
                let (a, b) = (t + j - keep, channels as int);
                assert(0 <= a * b && a * b + c < (t + 1) * b) by (nonlinear_arith)
                    requires
                        0 <= a <= t,
                        0 <= c < b,
                ;
            }
            out.push(xs[(t + j - keep) * channels + c]);
        }
        j = j + 1;
    }
    assert(out@ =~= want);
    out
}

} // verus!
