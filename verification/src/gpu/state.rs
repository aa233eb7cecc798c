//! The state a trunk layer keeps between steps: a cache of keys and values, or
//! the two states of a linear layer.
use vstd::prelude::*;

use crate::gguf::arch::Qwen35Meta;

verus! {

/// What a trunk layer keeps: it owns exactly one kind of state.
#[derive(Debug, Clone, Copy, PartialEq, Eq, Structural)]
pub enum LayerStateKind {
    Kv,
    Recurrent,
}

/// Which trunk layers are recurrent, and the sizes of their two states.
#[derive(Debug, Clone)]
pub struct DeltaNetLayout {
    pub is_recurrent: Vec<bool>,
    pub conv_elems: usize,
    pub delta_elems: usize,
}

impl DeltaNetLayout {
    /// The layout of a hybrid trunk: exactly the trunk's map, with its sizes.
    pub fn from_meta(m: &Qwen35Meta) -> (r: DeltaNetLayout)
        ensures
            r.is_recurrent@ == m.is_recurrent@,
            r.conv_elems == m.conv_state_elems,
            r.delta_elems == m.delta_state_elems,
    {
        let mut map: Vec<bool> = Vec::new();
        map.extend_from_slice(m.is_recurrent.as_slice());
        assert(map@ =~= m.is_recurrent@);
        DeltaNetLayout {
            is_recurrent: map,
            conv_elems: m.conv_state_elems,
            delta_elems: m.delta_state_elems,
        }
    }
}

/// Layer `l` of a trunk with the given map is recurrent. A trunk without a map
/// has no recurrent layer, nor has a layer past the map.
pub open spec fn recurrent_at(map: Option<Seq<bool>>, l: int) -> bool {
    match map {
        Some(m) => 0 <= l < m.len() && m[l],
        None => false,
    }
}

/// The map of an optional layout.
pub open spec fn map_of(layout: Option<&DeltaNetLayout>) -> Option<Seq<bool>> {
    match layout {
        Some(q) => Some(q.is_recurrent@),
        None => None,
    }
}

/// The kinds of all layers of a trunk.
pub open spec fn schedule(n_layers: nat, map: Option<Seq<bool>>) -> Seq<LayerStateKind> {
    Seq::new(
        n_layers,
        |l: int| if recurrent_at(map, l) { LayerStateKind::Recurrent } else { LayerStateKind::Kv },
    )
}

/// The state kinds of a trunk: a dense one keeps a cache on every layer, a
/// hybrid follows its map.
pub fn state_schedule(n_layers: usize, layout: Option<&DeltaNetLayout>) -> (r: Vec<LayerStateKind>)
    ensures
        r@ == schedule(n_layers as nat, map_of(layout)),
{
    let mut out: Vec<LayerStateKind> = Vec::new();
    let mut l: usize = 0;
    while l < n_layers
        invariant
            l <= n_layers,
            out@.len() == l,
            forall|j: int| 0 <= j < l ==> #[trigger] out@[j] == schedule(n_layers as nat, map_of(layout))[j],
        decreases n_layers - l,
    {
        let kind = match layout {
            Some(q) => if l < q.is_recurrent.len() && q.is_recurrent[l] {
                LayerStateKind::Recurrent
            } else {
                LayerStateKind::Kv
            },
            None => LayerStateKind::Kv,
        };
        out.push(kind);
        l = l + 1;
    }
    assert(out@ =~= schedule(n_layers as nat, map_of(layout)));
    out
}

/// The cache lengths of all layers, in elements: the full cache on a layer that
/// has one, a stub of one element on a recurrent layer.
pub open spec fn cache_elems(sched: Seq<LayerStateKind>, kv_slots: nat, kv_dim: nat) -> Seq<nat> {
    Seq::new(
        sched.len(),
        |l: int| if sched[l] == LayerStateKind::Recurrent { 1nat } else { kv_slots * kv_dim },
    )
}

/// Sizes the caches of all layers. The list is never compacted: entry `l` is
/// layer `l`.
pub fn kv_cache_elems(sched: &[LayerStateKind], kv_slots: usize, kv_dim: usize) -> (r: Vec<usize>)
    requires
        kv_slots * kv_dim <= usize::MAX,
    ensures
        r@.len() == sched@.len(),
        forall|l: int| 0 <= l < r@.len() ==> #[trigger] r@[l] == cache_elems(sched@, kv_slots as nat, kv_dim as nat)[l],
{
    let full: usize = kv_slots * kv_dim;
    let mut out: Vec<usize> = Vec::new();
    let mut l: usize = 0;
    while l < sched.len()
        invariant
            full == kv_slots * kv_dim,
            l <= sched@.len(),
            out@.len() == l,
            forall|j: int| 0 <= j < l ==> #[trigger] out@[j] == cache_elems(sched@, kv_slots as nat, kv_dim as nat)[j],
        decreases sched.len() - l,
    {
        out.push(match sched[l] {
            LayerStateKind::Recurrent => 1,
            LayerStateKind::Kv => full,
        });
        l = l + 1;
    }
    out
}

/// Whether the kinds of the blocks of a graph are those of the schedule, layer
/// by layer. A stubbed cache is sound only where they are.
pub fn schedule_matches(blocks: &[LayerStateKind], sched: &[LayerStateKind]) -> (r: bool)
    ensures
        r == (blocks@ == sched@),
{
    if blocks.len() != sched.len() {
        return false;
    }
    let mut l: usize = 0;
    while l < blocks.len()
        invariant
            blocks@.len() == sched@.len(),
            l <= blocks@.len(),
            forall|j: int| 0 <= j < l ==> blocks@[j] == sched@[j],
        decreases blocks.len() - l,
    {
        if blocks[l] != sched[l] {
            return false;
        }
        l = l + 1;
    }
    assert(blocks@ =~= sched@);
    true
}

// ---------- recurrent states ----------

/// The two states of a linear layer, as the bits of single-precision numbers:
/// the convolution's history, oldest first per channel, and the delta state.
#[derive(Debug, Clone)]
pub struct DeltaNetLayerState {
    pub conv: Vec<u32>,
    pub delta: Vec<u32>,
}

/// The states of all trunk layers; a layer of full attention has none.
#[derive(Debug, Clone)]
pub struct DeltaNetStates {
    pub layers: Vec<Option<DeltaNetLayerState>>,
    pub conv_elems: usize,
    pub delta_elems: usize,
}

/// All bits zero, `n` times.
pub open spec fn silence(n: nat) -> Seq<u32> {
    Seq::new(n, |i: int| 0u32)
}

fn zeros(n: usize) -> (r: Vec<u32>)
    ensures
        r@ == silence(n as nat),
{
    let mut v: Vec<u32> = Vec::new();
    let mut i: usize = 0;
    while i < n
        invariant
            i <= n,
            v@.len() == i,
            forall|j: int| 0 <= j < i ==> v@[j] == 0,
        decreases n - i,
    {
        v.push(0);
        i = i + 1;
    }
    assert(v@ =~= silence(n as nat));
    v
}

/// How many of the first `k` layers have states.
pub open spec fn live_layers(layers: Seq<Option<DeltaNetLayerState>>, k: nat) -> nat
    decreases k,
{
    if k == 0 {
        0
    } else {
        live_layers(layers, (k - 1) as nat) + if layers[k - 1] is Some { 1nat } else { 0nat }
    }
}

impl DeltaNetStates {
    /// The states have the recorded sizes.
    pub open spec fn wf(&self) -> bool {
        forall|l: int|
            0 <= l < self.layers@.len() ==> match #[trigger] self.layers@[l] {
                Some(s) => s.conv@.len() == self.conv_elems && s.delta@.len() == self.delta_elems,
                None => true,
            }
    }

    /// Every state is at the start of a sequence.
    pub open spec fn fresh(&self) -> bool {
        forall|l: int|
            0 <= l < self.layers@.len() ==> match #[trigger] self.layers@[l] {
                Some(s) => s.conv@ == silence(self.conv_elems as nat) && s.delta@ == silence(
                    self.delta_elems as nat,
                ),
                None => true,
            }
    }

    /// The states of a trunk at the start of a sequence, all zero: an empty
    /// history is silence, and an empty delta state attends to nothing.
    pub fn new(layout: &DeltaNetLayout) -> (r: DeltaNetStates)
        ensures
            r.wf(),
            r.fresh(),
            r.conv_elems == layout.conv_elems,
            r.delta_elems == layout.delta_elems,
            r.layers@.len() == layout.is_recurrent@.len(),
            forall|l: int| 0 <= l < r.layers@.len() ==> (#[trigger] r.layers@[l] is Some) == layout.is_recurrent@[l],
    {
        let mut layers: Vec<Option<DeltaNetLayerState>> = Vec::new();
        let mut l: usize = 0;
        while l < layout.is_recurrent.len()
            invariant
                l <= layout.is_recurrent@.len(),
                layers@.len() == l,
                forall|j: int| 0 <= j < l ==> (#[trigger] layers@[j] is Some) == layout.is_recurrent@[j],
                forall|j: int|
                    0 <= j < l ==> match #[trigger] layers@[j] {
                        Some(s) => s.conv@ == silence(layout.conv_elems as nat) && s.delta@ == silence(
                            layout.delta_elems as nat,
                        ),
                        None => true,
                    },
            decreases layout.is_recurrent.len() - l,
        {
            if layout.is_recurrent[l] {
                layers.push(
                    Some(DeltaNetLayerState { conv: zeros(layout.conv_elems), delta: zeros(layout.delta_elems) }),
                );
            } else {
                layers.push(None);
            }
            l = l + 1;
        }
        DeltaNetStates { layers, conv_elems: layout.conv_elems, delta_elems: layout.delta_elems }
    }

    /// Back to the start of a sequence.
    pub fn reset(&mut self)
        requires
            old(self).wf(),
        ensures
            final(self).wf(),
            final(self).fresh(),
            final(self).conv_elems == old(self).conv_elems,
            final(self).delta_elems == old(self).delta_elems,
            final(self).layers@.len() == old(self).layers@.len(),
            forall|l: int| 0 <= l < final(self).layers@.len() ==> (#[trigger] final(self).layers@[l] is Some)
                == (old(self).layers@[l] is Some),
    {
        let mut layers: Vec<Option<DeltaNetLayerState>> = Vec::new();
        let mut l: usize = 0;
        while l < self.layers.len()
            invariant
                *self == *old(self),
                l <= self.layers@.len(),
                layers@.len() == l,
                forall|j: int| 0 <= j < l ==> (#[trigger] layers@[j] is Some) == (self.layers@[j] is Some),
                forall|j: int|
                    0 <= j < l ==> match #[trigger] layers@[j] {
                        Some(s) => s.conv@ == silence(self.conv_elems as nat) && s.delta@ == silence(
                            self.delta_elems as nat,
                        ),
                        None => true,
                    },
            decreases self.layers.len() - l,
        {
            if self.layers[l].is_some() {
                layers.push(
                    Some(DeltaNetLayerState { conv: zeros(self.conv_elems), delta: zeros(self.delta_elems) }),
                );
            } else {
                layers.push(None);
            }
            l = l + 1;
        }
        self.layers = layers;
    }

    /// The bytes of all states, in the integers.
    pub open spec fn bytes(&self) -> int {
        live_layers(self.layers@, self.layers@.len()) * (self.conv_elems + self.delta_elems) * 4
    }

    /// The bytes of all states.
    pub fn total_bytes(&self) -> (r: usize)
        requires
            self.bytes() <= usize::MAX,
            self.conv_elems + self.delta_elems <= usize::MAX,
        ensures
            r == self.bytes(),
    {
        let mut n: usize = 0;
        let mut l: usize = 0;
        while l < self.layers.len()
            invariant
                l <= self.layers@.len(),
                n <= l,
                n == live_layers(self.layers@, l as nat),
            decreases self.layers.len() - l,
        {
            if self.layers[l].is_some() {
                n = n + 1;
            }
            l = l + 1;
        }
        let per: usize = self.conv_elems + self.delta_elems;
        proof {
            assert(n * per * 4 == self.bytes());
            assert(n * per >= 0) by (nonlinear_arith);
            assert(n * per <= n * per * 4);
        }
        n * per * 4
    }
}

/// The states of a trunk agree with its schedule, layer by layer.
pub proof fn lemma_states_follow_schedule(states: DeltaNetStates, layout: DeltaNetLayout, l: int)
    requires
        states.layers@.len() == layout.is_recurrent@.len(),
        forall|i: int| 0 <= i < states.layers@.len() ==> (#[trigger] states.layers@[i] is Some)
            == layout.is_recurrent@[i],
        0 <= l < layout.is_recurrent@.len(),
    ensures
        (states.layers@[l] is Some) == (schedule(layout.is_recurrent@.len(), Some(layout.is_recurrent@))[l]
            == LayerStateKind::Recurrent),
{
    assert(states.layers@[l] is Some == layout.is_recurrent@[l]);
}

} // verus!
