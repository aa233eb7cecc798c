//! The lines that a timed step reports.
use vstd::prelude::*;
use vstd::string::*;

use crate::gpu::timing::{PhaseRow, StepReport};
use crate::text::{dec, push_wide};

verus! {

/// How long a step took on the host, and how long the host waited, in
/// nanoseconds.
#[derive(Debug, Clone, Copy, PartialEq, Eq, Structural)]
pub struct StepTimes {
    pub wall: u128,
    pub cpu_pre: u128,
    pub cpu_encode: u128,
    pub gpu_wait: u128,
    pub cpu_post: u128,
}

/// Which step is reported.
#[derive(Debug, Clone, Copy, PartialEq, Eq, Structural)]
pub struct StepId {
    pub seq: u32,
    pub n: usize,
    pub pos0: usize,
}

/// One token is a decode step, more are a prefill step.
pub open spec fn kind_of(n: usize) -> Seq<char> {
    if n == 1 {
        "decode"@
    } else {
        "prefill"@
    }
}

fn kind(n: usize) -> (r: &'static str)
    ensures
        r@ == kind_of(n),
{
    if n == 1 {
        "decode"
    } else {
        "prefill"
    }
}

/// A name and its number.
pub open spec fn entry(name: Seq<char>, n: nat) -> Seq<char> {
    name + dec(n)
}

fn push_entry(out: &mut String, name: &str, n: u128)
    ensures
        final(out)@ == old(out)@ + entry(name@, n as nat),
{
    let ghost before = out@;
    out.append(name);
    push_wide(out, n);
    assert(out@ =~= before + entry(name@, n as nat));
}

/// What a line starts with: which step it is about.
pub open spec fn step_head(id: StepId) -> Seq<char> {
    "gputime step kind="@ + kind_of(id.n) + entry(" seq="@, id.seq as nat) + entry(" n="@, id.n as nat) + entry(
        " pos0="@,
        id.pos0 as nat,
    )
}

/// The line of a step.
pub open spec fn step_text(id: StepId, encoders: usize, overflow: bool, r: StepReport, t: StepTimes) -> Seq<char> {
    step_head(id) + entry(" enc="@, encoders as nat) + entry(" bad="@, r.bad as nat) + entry(" empty="@, r.empty as nat)
        + entry(" overflow="@, if overflow { 1 } else { 0 }) + entry(" wall_ns="@, t.wall as nat) + entry(
        " cpu_pre_ns="@,
        t.cpu_pre as nat,
    ) + entry(" cpu_encode_ns="@, t.cpu_encode as nat) + entry(" gpu_wait_ns="@, t.gpu_wait as nat) + entry(
        " cpu_post_ns="@,
        t.cpu_post as nat,
    ) + entry(" gpu_sum_ns="@, r.total_ns as nat) + entry(" gpu_span_ns="@, r.span_ns as nat)
}

/// Writes the line of a step.
pub fn step_line(id: StepId, encoders: usize, overflow: bool, r: &StepReport, t: StepTimes) -> (s: String)
    ensures
        s@ == step_text(id, encoders, overflow, *r, t),
{
    let mut s = "gputime step kind=".to_owned();
    s.append(kind(id.n));
    push_entry(&mut s, " seq=", id.seq as u128);
    push_entry(&mut s, " n=", id.n as u128);
    push_entry(&mut s, " pos0=", id.pos0 as u128);
    push_entry(&mut s, " enc=", encoders as u128);
    push_entry(&mut s, " bad=", r.bad as u128);
    push_entry(&mut s, " empty=", r.empty as u128);
    push_entry(&mut s, " overflow=", if overflow { 1 } else { 0 });
    push_entry(&mut s, " wall_ns=", t.wall);
    push_entry(&mut s, " cpu_pre_ns=", t.cpu_pre);
    push_entry(&mut s, " cpu_encode_ns=", t.cpu_encode);
    push_entry(&mut s, " gpu_wait_ns=", t.gpu_wait);
    push_entry(&mut s, " cpu_post_ns=", t.cpu_post);
    push_entry(&mut s, " gpu_sum_ns=", r.total_ns);
    push_entry(&mut s, " gpu_span_ns=", r.span_ns as u128);
    s
}

/// The line of one phase of a step.
pub open spec fn phase_text(n: usize, seq: u32, row: PhaseRow) -> Seq<char> {
    "gputime phase kind="@ + kind_of(n) + entry(" seq="@, seq as nat) + " name="@ + row.phase.label() + entry(
        " ns="@,
        row.ns as nat,
    ) + entry(" enc="@, row.encoders as nat) + entry(" disp="@, row.dispatches as nat)
}

/// Writes the line of one phase of a step.
pub fn phase_line(n: usize, seq: u32, row: &PhaseRow) -> (s: String)
    ensures
        s@ == phase_text(n, seq, *row),
{
    let mut s = "gputime phase kind=".to_owned();
    s.append(kind(n));
    push_entry(&mut s, " seq=", seq as u128);
    s.append(" name=");
    let name = row.phase.name();
    s.append(name.as_str());
    push_entry(&mut s, " ns=", row.ns);
    push_entry(&mut s, " enc=", row.encoders as u128);
    push_entry(&mut s, " disp=", row.dispatches);
    s
}

} // verus!
