//! Where a step's time goes: the phases of a step, how its one encoder is cut
//! into one per run of equal phases, and what the recorded samples add up to.
use vstd::prelude::*;
use vstd::string::*;

use crate::gguf::ggml_type::GgmlType;
use crate::text::{chars_of, dec, find, push_dec, spells, starts, text_of, texts};

verus! {

// ---------- names ----------

/// Which weight a multiplication reads.
#[derive(Debug, Clone, Copy, PartialEq, Eq, Structural)]
pub enum MmRole {
    /// The projections of a full-attention block.
    Attn,
    /// The projections of a linear block.
    Dn,
    /// Gate, up and down.
    Mlp,
    /// The vocabulary head.
    Head,
}

/// What a run of dispatches does.
#[derive(Debug, Clone, Copy, PartialEq, Eq, Structural)]
pub enum Phase {
    Norm,
    Rope,
    Attn,
    Delta,
    Elem,
    KvStage,
    /// A weight multiplication: which weight, and its type's selector.
    Mm(MmRole, u32),
    /// Everything that is not being isolated.
    Other,
}

/// The type of a weight in a checkpoint.
#[derive(Debug, Clone, Copy, PartialEq, Eq, Structural)]
pub enum SrcType {
    F16,
    Bf16,
    F32,
    Quant(GgmlType),
}

/// The selector of a type that no pipeline reads.
pub const NO_SELECTOR: u32 = 0xFFFF_FFFF;

impl SrcType {
    /// The kernel selector of the type.
    pub open spec fn selector(self) -> u32 {
        match self {
            SrcType::F16 => 0,
            SrcType::Bf16 => 1,
            SrcType::F32 => NO_SELECTOR,
            SrcType::Quant(t) => match t {
                GgmlType::F32 => NO_SELECTOR,
                GgmlType::F16 => 0,
                GgmlType::Q8_0 => 2,
                GgmlType::Q4_0 => 3,
                GgmlType::Q4_K => 4,
                GgmlType::Q6_K => 5,
                GgmlType::Q5_K => 6,
                GgmlType::Q5_0 => 7,
                GgmlType::Q2_K => 8,
                GgmlType::Q3_K => 9,
                GgmlType::IQ4_NL => 10,
                GgmlType::IQ4_XS => 11,
                GgmlType::IQ3_XXS => 12,
                GgmlType::IQ3_S => 13,
                GgmlType::IQ2_XXS => 14,
                GgmlType::IQ2_XS => 15,
                GgmlType::IQ2_S => 16,
                GgmlType::IQ1_S => 17,
                GgmlType::IQ1_M => 18,
            },
        }
    }

    pub fn qtype(&self) -> (r: u32)
        ensures
            r == self.selector(),
    {
        match self {
            SrcType::F16 => 0,
            SrcType::Bf16 => 1,
            SrcType::F32 => NO_SELECTOR,
            SrcType::Quant(t) => match t {
                GgmlType::F32 => NO_SELECTOR,
                GgmlType::F16 => 0,
                GgmlType::Q8_0 => 2,
                GgmlType::Q4_0 => 3,
                GgmlType::Q4_K => 4,
                GgmlType::Q6_K => 5,
                GgmlType::Q5_K => 6,
                GgmlType::Q5_0 => 7,
                GgmlType::Q2_K => 8,
                GgmlType::Q3_K => 9,
                GgmlType::IQ4_NL => 10,
                GgmlType::IQ4_XS => 11,
                GgmlType::IQ3_XXS => 12,
                GgmlType::IQ3_S => 13,
                GgmlType::IQ2_XXS => 14,
                GgmlType::IQ2_XS => 15,
                GgmlType::IQ2_S => 16,
                GgmlType::IQ1_S => 17,
                GgmlType::IQ1_M => 18,
            },
        }
    }
}

/// The label of a selector; an unknown one is visible as its number.
pub open spec fn sel_label(sel: u32) -> Seq<char> {
    match sel {
        0u32 => "f16"@,
        1u32 => "bf16"@,
        2u32 => "q8_0"@,
        3u32 => "q4_0"@,
        4u32 => "q4_k"@,
        5u32 => "q6_k"@,
        6u32 => "q5_k"@,
        7u32 => "q5_0"@,
        8u32 => "q2_k"@,
        9u32 => "q3_k"@,
        10u32 => "iq4_nl"@,
        11u32 => "iq4_xs"@,
        12u32 => "iq3_xxs"@,
        13u32 => "iq3_s"@,
        14u32 => "iq2_xxs"@,
        15u32 => "iq2_xs"@,
        16u32 => "iq2_s"@,
        17u32 => "iq1_s"@,
        18u32 => "iq1_m"@,
        _ => "sel"@ + dec(sel as nat),
    }
}

pub fn sel_name(sel: u32) -> (r: String)
    ensures
        r@ == sel_label(sel),
{
    let s = match sel {
        0 => "f16",
        1 => "bf16",
        2 => "q8_0",
        3 => "q4_0",
        4 => "q4_k",
        5 => "q6_k",
        6 => "q5_k",
        7 => "q5_0",
        8 => "q2_k",
        9 => "q3_k",
        10 => "iq4_nl",
        11 => "iq4_xs",
        12 => "iq3_xxs",
        13 => "iq3_s",
        14 => "iq2_xxs",
        15 => "iq2_xs",
        16 => "iq2_s",
        17 => "iq1_s",
        18 => "iq1_m",
        _ => {
            let mut s = "sel".to_owned();
            push_dec(&mut s, sel as u64);
            return s;
        },
    };
    s.to_owned()
}

impl MmRole {
    pub open spec fn label(self) -> Seq<char> {
        match self {
            MmRole::Attn => "attn"@,
            MmRole::Dn => "dn"@,
            MmRole::Mlp => "mlp"@,
            MmRole::Head => "head"@,
        }
    }

    pub fn name(self) -> (r: &'static str)
        ensures
            r@ == self.label(),
    {
        match self {
            MmRole::Attn => "attn",
            MmRole::Dn => "dn",
            MmRole::Mlp => "mlp",
            MmRole::Head => "head",
        }
    }
}

impl Phase {
    pub open spec fn label(self) -> Seq<char> {
        match self {
            Phase::Norm => "norm"@,
            Phase::Rope => "rope"@,
            Phase::Attn => "attn"@,
            Phase::Delta => "delta"@,
            Phase::Elem => "elem"@,
            Phase::KvStage => "kvstage"@,
            Phase::Other => "other"@,
            Phase::Mm(r, sel) => "mm:"@ + r.label() + ":"@ + sel_label(sel),
        }
    }

    pub fn name(self) -> (r: String)
        ensures
            r@ == self.label(),
    {
        match self {
            Phase::Norm => "norm".to_owned(),
            Phase::Rope => "rope".to_owned(),
            Phase::Attn => "attn".to_owned(),
            Phase::Delta => "delta".to_owned(),
            Phase::Elem => "elem".to_owned(),
            Phase::KvStage => "kvstage".to_owned(),
            Phase::Other => "other".to_owned(),
            Phase::Mm(r, sel) => {
                let mut s = "mm:".to_owned();
                s.append(r.name());
                s.append(":");
                s.append(sel_name(sel).as_str());
                s
            },
        }
    }
}

// ---------- the setting ----------

/// A white-space character.
pub open spec fn is_white(c: char) -> bool {
    ||| '\u{9}' <= c <= '\u{D}'
    ||| c == ' '
    ||| c == '\u{85}'
    ||| c == '\u{A0}'
    ||| c == '\u{1680}'
    ||| '\u{2000}' <= c <= '\u{200A}'
    ||| c == '\u{2028}'
    ||| c == '\u{2029}'
    ||| c == '\u{202F}'
    ||| c == '\u{205F}'
    ||| c == '\u{3000}'
}

/// `s` without the white space at its ends.
pub open spec fn trimmed(s: Seq<char>) -> Seq<char>
    decreases s.len(),
{
    if s.len() == 0 {
        s
    } else if is_white(s[0]) {
        trimmed(s.drop_first())
    } else if is_white(s.last()) {
        trimmed(s.drop_last())
    } else {
        s
    }
}

fn white(c: char) -> (r: bool)
    ensures
        r == is_white(c),
{
    ('\u{9}' <= c && c <= '\u{D}') || c == ' ' || c == '\u{85}' || c == '\u{A0}' || c == '\u{1680}' || ('\u{2000}'
        <= c && c <= '\u{200A}') || c == '\u{2028}' || c == '\u{2029}' || c == '\u{202F}' || c == '\u{205F}' || c
        == '\u{3000}'
}

fn trim(v: &[char]) -> (r: &[char])
    ensures
        r@ == trimmed(v@),
{
    let mut a: usize = 0;
    let mut b: usize = v.len();
    assert(v@.subrange(0, b as int) =~= v@);
    while a < b && white(v[a])
        invariant
            a <= b <= v@.len(),
            trimmed(v@) == trimmed(v@.subrange(a as int, b as int)),
        decreases b - a,
    {
        assert(v@.subrange(a as int, b as int).drop_first() =~= v@.subrange(a as int + 1, b as int));
        a = a + 1;
    }
    while a < b && white(v[b - 1])
        invariant
            a <= b <= v@.len(),
            a < b ==> !is_white(v@[a as int]),
            trimmed(v@) == trimmed(v@.subrange(a as int, b as int)),
        decreases b - a,
    {
        assert(v@.subrange(a as int, b as int).drop_last() =~= v@.subrange(a as int, b - 1));
        b = b - 1;
    }
    let r = vstd::slice::slice_subrange(v, a, b);
    assert(r@ =~= v@.subrange(a as int, b as int));
    r
}

/// The non-empty items of a comma-separated list, trimmed.
pub open spec fn items(s: Seq<char>) -> Seq<Seq<char>>
    decreases s.len(),
{
    match s.index_of_first(',') {
        None => if trimmed(s).len() > 0 { seq![trimmed(s)] } else { Seq::empty() },
        Some(i) => if 0 <= i < s.len() {
            let rest = items(s.skip(i + 1));
            let head = trimmed(s.take(i));
            if head.len() > 0 { seq![head] + rest } else { rest }
        } else {
            Seq::empty()
        },
    }
}

/// `s` spells `off` in any case.
pub open spec fn is_off(s: Seq<char>) -> bool {
    s.len() == 3 && (s[0] == 'o' || s[0] == 'O') && (s[1] == 'f' || s[1] == 'F') && (s[2] == 'f' || s[2] == 'F')
}

/// What the setting asks for: `None` is no timing; else the phases to isolate,
/// where `None` is all of them.
pub open spec fn timing_mode(setting: Option<Seq<char>>) -> Option<Option<Seq<Seq<char>>>> {
    match setting {
        None => None,
        Some(raw) => {
            let v = trimmed(raw);
            if v.len() == 0 || v == "0"@ || is_off(v) {
                None
            } else if v == "1"@ || v == "full"@ || v == "all"@ {
                Some(None)
            } else if v == "total"@ || v == "none"@ {
                Some(Some(Seq::empty()))
            } else {
                Some(Some(items(v)))
            }
        },
    }
}

/// The view of an optional list of names.
pub open spec fn filter_view(f: Option<Vec<String>>) -> Option<Seq<Seq<char>>> {
    match f {
        None => None,
        Some(v) => Some(texts(v@)),
    }
}

fn split_items(v: &[char]) -> (r: Vec<String>)
    ensures
        texts(r@) == items(v@),
    decreases v@.len(),
{
    proof {
        v@.index_of_first_ensures(',');
    }
    let n: usize = v.len();
    let mut out: Vec<String> = Vec::new();
    match find(v, ',') {
        None => {
            let t = trim(v);
            if t.len() > 0 {
                out.push(text_of(t));
            }
            assert(texts(out@) =~= items(v@));
        },
        Some(i) => {
            let head = vstd::slice::slice_subrange(v, 0, i);
            let tail = vstd::slice::slice_subrange(v, i + 1, n);
            assert(head@ =~= v@.take(i as int));
            assert(tail@ =~= v@.skip(i + 1));
            let t = trim(head);
            if t.len() > 0 {
                out.push(text_of(t));
            }
            let mut rest = split_items(tail);
            let ghost rt = texts(rest@);
            let ghost ot = texts(out@);
            out.append(&mut rest);
            assert(texts(out@) =~= ot + rt);
            assert(texts(out@) =~= items(v@));
        },
    }
    out
}

/// Reads the setting.
pub fn timing_filter(setting: Option<&str>) -> (r: Option<Option<Vec<String>>>)
    ensures
        (match r { None => None, Some(f) => Some(filter_view(f)) }) == timing_mode(match setting {
            Some(s) => Some(s@),
            None => None,
        }),
{
    let raw = match setting {
        None => return None,
        Some(s) => chars_of(s),
    };
    let v = trim(raw.as_slice());
    let off = v.len() == 3 && (v[0] == 'o' || v[0] == 'O') && (v[1] == 'f' || v[1] == 'F') && (v[2] == 'f' || v[2]
        == 'F');
    if v.len() == 0 || spells(v, "0") || off {
        return None;
    }
    if spells(v, "1") || spells(v, "full") || spells(v, "all") {
        return Some(None);
    }
    if spells(v, "total") || spells(v, "none") {
        let none: Vec<String> = Vec::new();
        assert(texts(none@) =~= Seq::<Seq<char>>::empty());
        return Some(Some(none));
    }
    Some(Some(split_items(v)))
}

// ---------- the ledger of a step ----------

/// The encoders of the step in flight, and what is isolated.
pub struct GpuTiming {
    /// How many encoders can be sampled in one step.
    pub cap_enc: usize,
    /// The prefixes of the phases to isolate; `None` isolates every phase.
    pub filter: Option<Vec<String>>,
    /// The phase of each sampled encoder.
    pub tags: Vec<Phase>,
    /// How many dispatches each sampled encoder holds.
    pub disp: Vec<u64>,
    /// The step ran out of samples.
    pub overflow: bool,
    pub dec_seq: u32,
    pub pre_seq: u32,
}

/// The name starts with one of the prefixes.
pub open spec fn selected(filter: Seq<Seq<char>>, name: Seq<char>) -> bool {
    exists|i: int| 0 <= i < filter.len() && (#[trigger] filter[i]).is_prefix_of(name)
}

/// The tag that dispatches of phase `p` are recorded under.
pub open spec fn key_for(filter: Option<Seq<Seq<char>>>, p: Phase) -> Phase {
    match filter {
        None => p,
        Some(f) => if selected(f, p.label()) { p } else { Phase::Other },
    }
}

/// The counts with `n` more for the last encoder, at most what a count holds.
pub open spec fn counted(disp: Seq<u64>, n: u32) -> Seq<u64> {
    if disp.len() == 0 {
        disp
    } else {
        let sum = disp.last() + n;
        disp.update(disp.len() - 1, (if sum > u64::MAX { u64::MAX as int } else { sum }) as u64)
    }
}

impl GpuTiming {
    /// Every sampled encoder has a count, there are no more than can be sampled,
    /// and no two in a row have one tag.
    pub open spec fn wf(&self) -> bool {
        &&& self.tags@.len() == self.disp@.len()
        &&& self.tags@.len() <= self.cap_enc
        &&& 0 < self.cap_enc
        &&& 2 * self.cap_enc <= usize::MAX
        &&& forall|i: int| 0 <= i < self.tags@.len() - 1 ==> #[trigger] self.tags@[i] != self.tags@[i + 1]
    }

    /// The settings and counters are those of `before`.
    pub open spec fn same_setup(&self, before: GpuTiming) -> bool {
        &&& self.cap_enc == before.cap_enc
        &&& self.filter == before.filter
        &&& self.dec_seq == before.dec_seq
        &&& self.pre_seq == before.pre_seq
    }

    pub fn new(cap_enc: usize, filter: Option<Vec<String>>) -> (r: GpuTiming)
        requires
            0 < cap_enc,
            2 * cap_enc <= usize::MAX,
        ensures
            r.wf(),
            r.cap_enc == cap_enc,
            r.filter == filter,
            r.tags@.len() == 0,
            !r.overflow,
            r.dec_seq == 0,
            r.pre_seq == 0,
    {
        GpuTiming {
            cap_enc,
            filter,
            tags: Vec::new(),
            disp: Vec::new(),
            overflow: false,
            dec_seq: 0,
            pre_seq: 0,
        }
    }

    /// The tag an encoder is opened under: the phase where it is isolated.
    pub fn key_of(&self, p: Phase) -> (r: Phase)
        ensures
            r == key_for(filter_view(self.filter), p),
    {
        let names = match &self.filter {
            None => return p,
            Some(v) => v,
        };
        let label = p.name();
        let name = chars_of(label.as_str());
        let mut i: usize = 0;
        while i < names.len()
            invariant
                i <= names@.len(),
                name@ == p.label(),
                filter_view(self.filter) == Some(texts(names@)),
                forall|j: int| 0 <= j < i ==> !(#[trigger] texts(names@)[j]).is_prefix_of(p.label()),
            decreases names.len() - i,
        {
            let f = chars_of(names[i].as_str());
            assert(f@ == texts(names@)[i as int]);
            if starts(name.as_slice(), f.as_slice()) {
                return p;
            }
            i = i + 1;
        }
        Phase::Other
    }

    /// Starts a step with an empty ledger.
    pub fn begin_step(&mut self)
        requires
            old(self).wf(),
        ensures
            final(self).wf(),
            final(self).same_setup(*old(self)),
            final(self).tags@.len() == 0,
            !final(self).overflow,
    {
        self.tags.truncate(0);
        self.disp.truncate(0);
        self.overflow = false;
    }

    /// Records an encoder under `tag` and returns the index of its first sample,
    /// or `None` where no samples are left.
    pub fn attach(&mut self, tag: Phase) -> (r: Option<usize>)
        requires
            old(self).wf(),
            old(self).tags@.len() > 0 ==> old(self).tags@.last() != tag,
        ensures
            final(self).wf(),
            final(self).same_setup(*old(self)),
            match r {
                Some(i) => {
                    &&& old(self).tags@.len() < old(self).cap_enc
                    &&& i == 2 * old(self).tags@.len()
                    &&& final(self).tags@ == old(self).tags@.push(tag)
                    &&& final(self).disp@ == old(self).disp@.push(0)
                    &&& final(self).overflow == old(self).overflow
                },
                None => {
                    &&& old(self).tags@.len() == old(self).cap_enc
                    &&& final(self).tags@ == old(self).tags@
                    &&& final(self).disp@ == old(self).disp@
                    &&& final(self).overflow
                },
            },
    {
        let i: usize = self.tags.len();
        if i >= self.cap_enc {
            self.overflow = true;
            return None;
        }
        self.tags.push(tag);
        self.disp.push(0);
        Some(2 * i)
    }

    /// Counts `n` dispatches for the encoder recorded last.
    pub fn add_dispatches(&mut self, n: u32)
        requires
            old(self).wf(),
        ensures
            final(self).wf(),
            final(self).same_setup(*old(self)),
            final(self).tags@ == old(self).tags@,
            final(self).overflow == old(self).overflow,
            final(self).disp@ == counted(old(self).disp@, n),
    {
        let k: usize = self.disp.len();
        if k > 0 {
            let d: u64 = self.disp[k - 1];
            self.disp.set(k - 1, d.saturating_add(n as u64));
        }
    }
}

// ---------- cutting the encoder ----------

/// What to do with the encoder before the next dispatches.
#[derive(Debug, Clone, Copy, PartialEq, Eq, Structural)]
pub enum EncAction {
    /// Go on with the one that is open.
    Keep,
    /// Open another, after ending the one that is open where there is one. With
    /// a sample, its start and end are recorded there and right behind.
    Open { end: bool, sample: Option<usize> },
}

/// The encoder in flight, and where to cut the next one.
pub struct PhaseEnc {
    pub timed: bool,
    pub is_open: bool,
    pub key: Phase,
    /// No samples are left: the encoder is cut no more.
    pub stopped: bool,
}

impl PhaseEnc {
    /// How the encoder and the ledger fit together: before the first encoder the
    /// ledger is empty, and an encoder that can still be cut is the one that was
    /// recorded last.
    pub open spec fn fits(&self, t: GpuTiming) -> bool {
        &&& t.wf()
        &&& !self.timed ==> self.is_open && self.stopped
        &&& self.timed && !self.is_open ==> !self.stopped && t.tags@.len() == 0
        &&& self.timed && self.is_open && !self.stopped ==> t.tags@.len() > 0 && t.tags@.last() == self.key
    }

    /// Without timing one encoder is opened at once and serves the whole step.
    pub fn untimed() -> (r: PhaseEnc)
        ensures
            !r.timed,
            r.is_open,
            r.stopped,
            r.key == Phase::Other,
    {
        PhaseEnc { timed: false, is_open: true, key: Phase::Other, stopped: true }
    }

    /// With timing the first encoder is opened at the first dispatch.
    pub fn new(t: &mut GpuTiming) -> (r: PhaseEnc)
        requires
            old(t).wf(),
        ensures
            final(t).wf(),
            final(t).same_setup(*old(t)),
            final(t).tags@.len() == 0,
            !final(t).overflow,
            r.timed,
            !r.is_open,
            !r.stopped,
            r.key == Phase::Other,
            r.fits(*final(t)),
    {
        t.begin_step();
        PhaseEnc { timed: true, is_open: false, key: Phase::Other, stopped: false }
    }

    /// Opens an encoder under `tag`.
    fn open(&mut self, t: &mut GpuTiming, tag: Phase) -> (r: EncAction)
        requires
            old(self).fits(*old(t)),
            old(self).timed,
            !old(self).stopped,
            old(self).is_open ==> tag != old(self).key,
        ensures
            final(self).fits(*final(t)),
            final(t).same_setup(*old(t)),
            final(self).timed,
            final(self).is_open,
            final(self).key == tag,
            r == (EncAction::Open {
                end: old(self).is_open,
                sample: if old(t).tags@.len() < old(t).cap_enc {
                    Some((2 * old(t).tags@.len()) as usize)
                } else {
                    None
                },
            }),
            old(t).tags@.len() < old(t).cap_enc ==> {
                &&& !final(self).stopped
                &&& final(t).tags@ == old(t).tags@.push(tag)
                &&& final(t).disp@ == old(t).disp@.push(0)
                &&& final(t).overflow == old(t).overflow
            },
            old(t).tags@.len() == old(t).cap_enc ==> {
                &&& final(self).stopped
                &&& final(t).tags@ == old(t).tags@
                &&& final(t).disp@ == old(t).disp@
                &&& final(t).overflow
            },
    {
        let end = self.is_open;
        let sample = t.attach(tag);
        self.stopped = sample.is_none();
        self.key = tag;
        self.is_open = true;
        EncAction::Open { end, sample }
    }

    /// Marks the next `nd` dispatches as phase `p`. The encoder is cut where the
    /// phase changes; a mark without dispatches never cuts one that is open.
    pub fn at(&mut self, t: &mut GpuTiming, p: Phase, nd: u32) -> (r: EncAction)
        requires
            old(self).fits(*old(t)),
        ensures
            final(self).fits(*final(t)),
            final(t).same_setup(*old(t)),
            ({
                let k = key_for(filter_view(old(t).filter), p);
                let cut = old(self).timed && !(nd == 0 && old(self).is_open) && !old(self).stopped && (k
                    != old(self).key || !old(self).is_open);
                let full = old(t).tags@.len() == old(t).cap_enc;
                let counts = old(self).timed && !(nd == 0 && old(self).is_open);
                let disp = if cut && !full { old(t).disp@.push(0) } else { old(t).disp@ };
                &&& final(t).disp@ == (if counts { counted(disp, nd) } else { disp })
                &&& final(t).overflow == (old(t).overflow || (cut && full))
                &&& final(self).timed == old(self).timed
                &&& final(self).is_open
                &&& r == (if cut {
                    EncAction::Open {
                        end: old(self).is_open,
                        sample: if full { None } else { Some((2 * old(t).tags@.len()) as usize) },
                    }
                } else {
                    EncAction::Keep
                })
                &&& final(self).key == (if cut { k } else { old(self).key })
                &&& final(self).stopped == (old(self).stopped || (cut && full))
                &&& final(t).tags@ == (if cut && !full { old(t).tags@.push(k) } else { old(t).tags@ })
            }),
    {
        if !self.timed {
            return EncAction::Keep;
        }
        if nd == 0 && self.is_open {
            return EncAction::Keep;
        }
        let mut r = EncAction::Keep;
        if !self.stopped {
            let k = t.key_of(p);
            if k != self.key || !self.is_open {
                r = self.open(t, k);
            }
        }
        t.add_dispatches(nd);
        r
    }

    /// The encoder for a barrier, opened where there is none yet.
    pub fn cur(&mut self, t: &mut GpuTiming) -> (r: EncAction)
        requires
            old(self).fits(*old(t)),
        ensures
            final(self).fits(*final(t)),
            final(t).same_setup(*old(t)),
            final(self).is_open,
            final(self).key == old(self).key,
            final(self).timed == old(self).timed,
            final(self).stopped == old(self).stopped,
            final(t).overflow == old(t).overflow,
            old(self).is_open ==> {
                &&& r == EncAction::Keep
                &&& final(t).tags@ == old(t).tags@
                &&& final(t).disp@ == old(t).disp@
            },
            !old(self).is_open ==> {
                &&& r == (EncAction::Open { end: false, sample: Some(0usize) })
                &&& final(t).tags@ == seq![old(self).key]
                &&& final(t).disp@ == seq![0u64]
            },
    {
        if self.is_open {
            return EncAction::Keep;
        }
        let key = self.key;
        self.open(t, key)
    }
}

// ---------- what the samples add up to ----------

/// The value of a sample that could not be taken.
pub const COUNTER_ERROR: u64 = 0xFFFF_FFFF_FFFF_FFFF;

/// One phase of a report.
#[derive(Debug, Clone, Copy, PartialEq, Eq, Structural)]
pub struct PhaseRow {
    pub phase: Phase,
    pub ns: u128,
    pub encoders: u64,
    pub dispatches: u128,
}

/// What a step's samples add up to.
pub struct StepReport {
    pub bad: usize,
    pub empty: usize,
    pub total_ns: u128,
    pub span_ns: u64,
    pub rows: Vec<PhaseRow>,
}

/// The sums over the first encoders of a step.
pub struct Sums {
    pub bad: nat,
    pub empty: nat,
    pub total: nat,
    /// The first start and the last end, of the encoders that count.
    pub first: Option<(u64, u64)>,
    pub rows: Seq<PhaseRow>,
}

/// The sample pair of encoder `i` says nothing.
pub open spec fn is_bad(ts: Seq<u64>, i: int) -> bool {
    ts[2 * i] == COUNTER_ERROR || ts[2 * i + 1] == COUNTER_ERROR || ts[2 * i + 1] < ts[2 * i]
}

/// `rows` with an encoder of phase `p` added, in the row of its phase.
pub open spec fn add_row(rows: Seq<PhaseRow>, p: Phase, ns: nat, disp: nat, i: int) -> Seq<PhaseRow>
    decreases rows.len() - i,
{
    if i < 0 || i >= rows.len() {
        rows.push(PhaseRow { phase: p, ns: ns as u128, encoders: 1, dispatches: disp as u128 })
    } else if rows[i].phase == p {
        rows.update(
            i,
            PhaseRow {
                phase: p,
                ns: (rows[i].ns + ns) as u128,
                encoders: (rows[i].encoders + 1) as u64,
                dispatches: (rows[i].dispatches + disp) as u128,
            },
        )
    } else {
        add_row(rows, p, ns, disp, i + 1)
    }
}

/// The sums over the first `k` encoders. An encoder without dispatches has no
/// samples of its own and is skipped; a bad pair is counted and skipped.
pub open spec fn sums(tags: Seq<Phase>, disp: Seq<u64>, ts: Seq<u64>, k: nat) -> Sums
    decreases k,
{
    if k == 0 {
        Sums { bad: 0, empty: 0, total: 0, first: None, rows: Seq::empty() }
    } else {
        let s = sums(tags, disp, ts, (k - 1) as nat);
        let i = k - 1;
        if disp[i] == 0 {
            Sums { empty: s.empty + 1, ..s }
        } else if is_bad(ts, i) {
            Sums { bad: s.bad + 1, ..s }
        } else {
            let ns = (ts[2 * i + 1] - ts[2 * i]) as nat;
            Sums {
                total: s.total + ns,
                first: Some(match s.first {
                    None => (ts[2 * i], ts[2 * i + 1]),
                    Some((a, b)) => (
                        if ts[2 * i] < a { ts[2 * i] } else { a },
                        if ts[2 * i + 1] > b { ts[2 * i + 1] } else { b },
                    ),
                }),
                rows: add_row(s.rows, tags[i], ns, disp[i] as nat, 0),
                ..s
            }
        }
    }
}

/// Every row's numbers are bounded by what `k` encoders can add up to.
spec fn rows_bounded(rows: Seq<PhaseRow>, k: nat) -> bool {
    forall|i: int| 0 <= i < rows.len() ==> {
        let r = #[trigger] rows[i];
        &&& r.ns <= k * u64::MAX
        &&& r.encoders <= k
        &&& r.dispatches <= k * u64::MAX
    }
}

fn bump(rows: &mut Vec<PhaseRow>, p: Phase, ns: u64, disp: u64, Ghost(k): Ghost<nat>)
    requires
        rows_bounded(old(rows)@, k),
        k < u64::MAX,
    ensures
        final(rows)@ == add_row(old(rows)@, p, ns as nat, disp as nat, 0),
        rows_bounded(final(rows)@, k + 1),
{
    proof {
        assert((k + 1) * u64::MAX == k * u64::MAX + u64::MAX) by (nonlinear_arith);
        assert((k + 1) * u64::MAX <= u128::MAX) by (nonlinear_arith)
            requires
                k < u64::MAX,
        ;
    }
    let mut i: usize = 0;
    while i < rows.len()
        invariant
            *rows == *old(rows),
            rows_bounded(rows@, k),
            k < u64::MAX,
            (k + 1) * u64::MAX == k * u64::MAX + u64::MAX,
            (k + 1) * u64::MAX <= u128::MAX,
            i <= rows@.len(),
            add_row(rows@, p, ns as nat, disp as nat, 0) == add_row(rows@, p, ns as nat, disp as nat, i as int),
        decreases rows.len() - i,
    {
        let row = rows[i];
        assert(rows@[i as int] == row);
        if row.phase == p {
            let ghost before = rows@;
            rows.set(
                i,
                PhaseRow {
                    phase: p,
                    ns: row.ns + ns as u128,
                    encoders: row.encoders + 1,
                    dispatches: row.dispatches + disp as u128,
                },
            );
            assert forall|j: int| 0 <= j < rows@.len() implies {
                let r = #[trigger] rows@[j];
                &&& r.ns <= (k + 1) * u64::MAX
                &&& r.encoders <= k + 1
                &&& r.dispatches <= (k + 1) * u64::MAX
            } by {
                if j != i {
                    assert(rows@[j] == before[j]);
                }
            }
            return;
        }
        i = i + 1;
    }
    let ghost before = rows@;
    rows.push(PhaseRow { phase: p, ns: ns as u128, encoders: 1, dispatches: disp as u128 });
    assert forall|j: int| 0 <= j < rows@.len() implies {
        let r = #[trigger] rows@[j];
        &&& r.ns <= (k + 1) * u64::MAX
        &&& r.encoders <= k + 1
        &&& r.dispatches <= (k + 1) * u64::MAX
    } by {
        if j < before.len() {
            assert(rows@[j] == before[j]);
        } else {
            assert(u64::MAX <= (k + 1) * u64::MAX) by (nonlinear_arith);
        }
    }
}

/// `v`, largest first, with `x` behind those that are no smaller.
pub open spec fn insert_row(v: Seq<PhaseRow>, x: PhaseRow) -> Seq<PhaseRow>
    decreases v.len(),
{
    if v.len() == 0 || v.last().ns >= x.ns {
        v.push(x)
    } else {
        insert_row(v.drop_last(), x).push(v.last())
    }
}

/// The first `k` rows, the longest time first; equal ones in their first order.
pub open spec fn by_time(v: Seq<PhaseRow>, k: nat) -> Seq<PhaseRow>
    decreases k,
{
    if k == 0 {
        Seq::empty()
    } else {
        insert_row(by_time(v, (k - 1) as nat), v[k - 1])
    }
}

proof fn lemma_insert_row_at(v: Seq<PhaseRow>, x: PhaseRow, i: int)
    requires
        0 <= i <= v.len(),
        forall|j: int| i <= j < v.len() ==> (#[trigger] v[j]).ns < x.ns,
        i > 0 ==> v[i - 1].ns >= x.ns,
    ensures
        insert_row(v, x) == v.insert(i, x),
    decreases v.len(),
{
    if i == v.len() {
        assert(v.insert(i, x) =~= v.push(x));
    } else {
        assert(v[v.len() - 1].ns < x.ns);
        lemma_insert_row_at(v.drop_last(), x, i);
        assert(v.insert(i, x) =~= v.drop_last().insert(i, x).push(v.last()));
    }
}

fn sort_rows(v: &Vec<PhaseRow>) -> (r: Vec<PhaseRow>)
    ensures
        r@ == by_time(v@, v@.len()),
{
    let mut out: Vec<PhaseRow> = Vec::new();
    let mut k: usize = 0;
    while k < v.len()
        invariant
            k <= v@.len(),
            out@ == by_time(v@, k as nat),
        decreases v.len() - k,
    {
        let x = v[k];
        let mut i: usize = out.len();
        while i > 0 && out[i - 1].ns < x.ns
            invariant
                k < v@.len(),
                out@ == by_time(v@, k as nat),
                i <= out@.len(),
                forall|j: int| i <= j < out@.len() ==> (#[trigger] out@[j]).ns < x.ns,
            decreases i,
        {
            i = i - 1;
        }
        proof {
            lemma_insert_row_at(out@, x, i as int);
        }
        out.insert(i, x);
        k = k + 1;
    }
    out
}

impl GpuTiming {
    /// Adds up the samples of the step: `ts` holds a start and an end for every
    /// encoder recorded. Where it does not, every encoder counts as bad.
    pub fn report(&self, ts: &[u64]) -> (r: StepReport)
        requires
            self.wf(),
        ensures
            ts@.len() == 2 * self.tags@.len() ==> ({
                let s = sums(self.tags@, self.disp@, ts@, self.tags@.len());
                &&& r.bad == s.bad
                &&& r.empty == s.empty
                &&& r.total_ns == s.total
                &&& r.span_ns == (match s.first { Some((a, b)) => b - a, None => 0 })
                &&& r.rows@ == by_time(s.rows, s.rows.len())
            }),
            ts@.len() != 2 * self.tags@.len() ==> {
                &&& r.bad == self.tags@.len()
                &&& r.empty == 0
                &&& r.total_ns == 0
                &&& r.span_ns == 0
                &&& r.rows@.len() == 0
            },
    {
        let n: usize = self.tags.len();
        if ts.len() != 2 * n {
            return StepReport { bad: n, empty: 0, total_ns: 0, span_ns: 0, rows: Vec::new() };
        }
        let mut rows: Vec<PhaseRow> = Vec::new();
        let (mut bad, mut empty): (usize, usize) = (0, 0);
        let mut total: u128 = 0;
        let mut seen = false;
        let (mut first, mut last): (u64, u64) = (0, 0);
        let mut i: usize = 0;
        while i < n
            invariant
                self.wf(),
                n == self.tags@.len(),
                2 * n <= usize::MAX,
                ts@.len() == 2 * n,
                i <= n,
                bad + empty <= i,
                total <= i * u64::MAX,
                rows_bounded(rows@, i as nat),
                ({
                    let s = sums(self.tags@, self.disp@, ts@, i as nat);
                    &&& bad == s.bad
                    &&& empty == s.empty
                    &&& total == s.total
                    &&& rows@ == s.rows
                    &&& seen == (s.first is Some)
                    &&& seen ==> s.first == Some((first, last)) && first <= last
                }),
            decreases n - i,
        {
            proof {
                assert((i + 1) * u64::MAX == i * u64::MAX + u64::MAX) by (nonlinear_arith);
                assert((i + 1) * u64::MAX <= u128::MAX) by (nonlinear_arith)
                    requires
                        i < u64::MAX,
                ;
                assert forall|j: int| 0 <= j < rows@.len() implies {
                    let r = #[trigger] rows@[j];
                    &&& r.ns <= (i + 1) * u64::MAX
                    &&& r.encoders <= i + 1
                    &&& r.dispatches <= (i + 1) * u64::MAX
                } by {}
            }
            let (s, e) = (ts[2 * i], ts[2 * i + 1]);
            if self.disp[i] == 0 {
                empty = empty + 1;
            } else if s == COUNTER_ERROR || e == COUNTER_ERROR || e < s {
                bad = bad + 1;
            } else {
                if !seen || s < first {
                    first = s;
                }
                if !seen || e > last {
                    last = e;
                }
                seen = true;
                let d: u64 = e - s;
                total = total + d as u128;
                bump(&mut rows, self.tags[i], d, self.disp[i], Ghost(i as nat));
            }
            i = i + 1;
        }
        let span_ns: u64 = if seen { last - first } else { 0 };
        StepReport { bad, empty, total_ns: total, span_ns, rows: sort_rows(&rows) }
    }

    /// The number of this step among the decode or the prefill steps.
    pub fn next_seq(&mut self, decode: bool) -> (r: u32)
        requires
            old(self).wf(),
        ensures
            final(self).wf(),
            r == (if decode { old(self).dec_seq } else { old(self).pre_seq }),
            decode ==> final(self).pre_seq == old(self).pre_seq && final(self).dec_seq == (if old(self).dec_seq
                == u32::MAX {
                u32::MAX as int
            } else {
                old(self).dec_seq + 1
            }),
            !decode ==> final(self).dec_seq == old(self).dec_seq && final(self).pre_seq == (if old(self).pre_seq
                == u32::MAX {
                u32::MAX as int
            } else {
                old(self).pre_seq + 1
            }),
            final(self).tags@ == old(self).tags@,
            final(self).disp@ == old(self).disp@,
            final(self).cap_enc == old(self).cap_enc,
            final(self).filter == old(self).filter,
            final(self).overflow == old(self).overflow,
    {
        if decode {
            let s: u32 = self.dec_seq;
            self.dec_seq = s.saturating_add(1);
            s
        } else {
            let s: u32 = self.pre_seq;
            self.pre_seq = s.saturating_add(1);
            s
        }
    }
}

} // verus!
