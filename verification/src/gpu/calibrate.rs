//! What an encoder boundary costs: one encoder with many dispatches against as
//! many encoders with one dispatch each. And the name of a timing mode.
use vstd::prelude::*;
use vstd::string::*;

use crate::gpu::timing::{COUNTER_ERROR, filter_view};
use crate::text::{join, join_texts};

verus! {

/// How long encoder `i` of a round ran. Encoder 0 has all the dispatches; the
/// ones behind it have one each.
pub open spec fn ran(ts: Seq<u64>, i: int) -> int {
    let (from, to) = (ts[2 * i] as int, ts[2 * i + 1] as int);
    if to >= from {
        to - from
    } else {
        0
    }
}

/// How long the first `k` single encoders ran, together.
pub open spec fn ran_single(ts: Seq<u64>, k: nat) -> int
    decreases k,
{
    if k == 0 {
        0
    } else {
        ran_single(ts, (k - 1) as nat) + ran(ts, k as int)
    }
}

/// From the first single encoder's start to the last one's end.
pub open spec fn span(ts: Seq<u64>, n: nat) -> int {
    let (from, to) = (ts[2] as int, ts[2 * n as int + 1] as int);
    if to >= from {
        to - from
    } else {
        0
    }
}

/// Every timestamp of a round of `n` single encoders is there and none failed.
pub open spec fn round_ok(ts: Seq<u64>, n: nat) -> bool {
    &&& ts.len() >= 2 + 2 * n
    &&& forall|i: int| 0 <= i < ts.len() ==> #[trigger] ts[i] != COUNTER_ERROR
}

/// What one round measured: the time that the boundaries added inside the
/// encoders, and the time between them. Divided by the number of encoders, and
/// of gaps, these are the cost of one.
#[derive(Debug, Clone, Copy, PartialEq, Eq, Structural)]
pub struct Round {
    pub inside: i128,
    pub gap: i128,
}

fn ran_at(ts: &[u64], i: usize) -> (r: u64)
    requires
        2 * i + 1 < ts@.len(),
        ts@.len() <= usize::MAX,
    ensures
        r == ran(ts@, i as int),
{
    if ts[2 * i + 1] >= ts[2 * i] {
        ts[2 * i + 1] - ts[2 * i]
    } else {
        0
    }
}

/// Evaluates one round of `n` single encoders.
pub fn calibrate(ts: &[u64], n: u32) -> (r: Option<Round>)
    requires
        n > 0,
    ensures
        match r {
            Some(c) => {
                &&& round_ok(ts@, n as nat)
                &&& c.inside == ran_single(ts@, n as nat) - ran(ts@, 0)
                &&& c.gap == span(ts@, n as nat) - ran_single(ts@, n as nat)
            },
            None => !round_ok(ts@, n as nat),
        },
{
    let len: usize = ts.len();
    if (len as u64) < 2 + 2 * n as u64 {
        return None;
    }
    let mut i: usize = 0;
    while i < len
        invariant
            len == ts@.len(),
            i <= len,
            forall|j: int| 0 <= j < i ==> #[trigger] ts@[j] != COUNTER_ERROR,
        decreases len - i,
    {
        if ts[i] == COUNTER_ERROR {
            return None;
        }
        i = i + 1;
    }
    let count: usize = n as usize;
    let mut sum: i128 = 0;
    let mut k: usize = 0;
    while k < count
        invariant
            count == n,
            len == ts@.len(),
            len >= 2 + 2 * n,
            k <= count,
            sum == ran_single(ts@, k as nat),
            0 <= sum <= k * 0xFFFF_FFFF_FFFF_FFFF,
        decreases count - k,
    {
        let one: u64 = ran_at(ts, k + 1);
        assert((k + 1) * 0xFFFF_FFFF_FFFF_FFFF <= 0xFFFF_FFFF * 0xFFFF_FFFF_FFFF_FFFF);
        sum = sum + one as i128;
        k = k + 1;
    }
    assert(count * 0xFFFF_FFFF_FFFF_FFFF <= 0xFFFF_FFFF * 0xFFFF_FFFF_FFFF_FFFF);
    let all: u64 = ran_at(ts, 0);
    let (from, to) = (ts[2], ts[2 * count + 1]);
    let across: u64 = if to >= from {
        to - from
    } else {
        0
    };
    Some(Round { inside: sum - all as i128, gap: across as i128 - sum })
}

/// The name of a timing mode: every phase, none, or those listed.
pub open spec fn mode_label(filter: Option<Seq<Seq<char>>>) -> Seq<char> {
    match filter {
        None => "full"@,
        Some(v) => if v.len() == 0 {
            "total"@
        } else {
            "isolate:"@ + join(v, "+"@)
        },
    }
}

pub fn mode_name(filter: &Option<Vec<String>>) -> (r: String)
    ensures
        r@ == mode_label(filter_view(*filter)),
{
    match filter {
        None => "full".to_owned(),
        Some(v) => if v.len() == 0 {
            "total".to_owned()
        } else {
            let mut s = "isolate:".to_owned();
            let names = join_texts(v, "+");
            s.append(names.as_str());
            s
        },
    }
}

} // verus!
