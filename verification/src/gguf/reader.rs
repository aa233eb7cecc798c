//! A bounds-checked little-endian cursor over the bytes of a GGUF file, and
//! the metadata values it reads. What each read yields is a function of the
//! bytes and the offset alone; a failed read is the text of its error.
use vstd::prelude::*;
use vstd::string::*;
use vstd::utf8::*;

use crate::text::{dec, push_dec, texts};

verus! {

// ---------- little-endian integers ----------

/// The number that `s` writes down, least significant byte first.
pub open spec fn le(s: Seq<u8>) -> nat
    decreases s.len(),
{
    if s.len() == 0 {
        0
    } else {
        s[0] as nat + 256 * le(s.drop_first())
    }
}

/// 256 to the power `n`.
pub open spec fn pow256(n: nat) -> nat
    decreases n,
{
    if n == 0 {
        1
    } else {
        256 * pow256((n - 1) as nat)
    }
}

proof fn lemma_le_bound(s: Seq<u8>)
    ensures
        le(s) < pow256(s.len()),
    decreases s.len(),
{
    if s.len() > 0 {
        lemma_le_bound(s.drop_first());
    }
}

proof fn lemma_pow256_values()
    ensures
        pow256(1) == 0x100,
        pow256(2) == 0x1_0000,
        pow256(4) == 0x1_0000_0000,
        pow256(8) == 0x1_0000_0000_0000_0000,
{
    reveal_with_fuel(pow256, 9);
}

proof fn lemma_pow256_monotone(a: nat, b: nat)
    requires
        a <= b,
    ensures
        pow256(a) <= pow256(b),
    decreases b,
{
    if a < b {
        lemma_pow256_monotone(a, (b - 1) as nat);
    }
}

/// The two's complement reading of an `n`-byte number.
pub open spec fn signed(v: nat, n: nat) -> int {
    if 2 * v >= pow256(n) {
        v - pow256(n)
    } else {
        v as int
    }
}

/// Decodes at most eight little-endian bytes.
fn le_value(s: &[u8]) -> (r: u64)
    requires
        s@.len() <= 8,
    ensures
        r == le(s@),
        r < pow256(s@.len()),
{
    let mut acc: u64 = 0;
    let mut i: usize = s.len();
    assert(s@.skip(i as int) =~= Seq::<u8>::empty());
    while i > 0
        invariant
            i <= s@.len() <= 8,
            acc == le(s@.skip(i as int)),
        decreases i,
    {
        i = i - 1;
        proof {
            assert(s@.skip(i as int).drop_first() =~= s@.skip(i as int + 1));
            lemma_le_bound(s@.skip(i as int));
            lemma_pow256_monotone(s@.skip(i as int).len(), 8);
            lemma_pow256_values();
        }
        acc = acc * 256 + s[i] as u64;
    }
    proof {
        assert(s@.skip(0) =~= s@);
        lemma_le_bound(s@);
    }
    acc
}

/// Reinterprets an unsigned 64-bit number as a signed one.
fn signed_u64(v: u64) -> (r: i64)
    ensures
        r == signed(v as nat, 8),
{
    proof {
        lemma_pow256_values();
    }
    if v >= 0x8000_0000_0000_0000 {
        -((u64::MAX - v) as i64) - 1
    } else {
        v as i64
    }
}

// ---------- lossy text ----------

/// The text that decoding `bytes` as UTF-8 gives when each malformed sequence
/// becomes U+FFFD.
pub uninterp spec fn utf8_lossy(bytes: Seq<u8>) -> Seq<char>;

/// `String::from_utf8_lossy`, owned. Its result depends on the bytes alone, and
/// well-formed UTF-8 comes back as the text that it encodes. Which malformed
/// sequences become how many replacement characters is left unsaid.
#[verifier::external_body]
fn lossy(bytes: &[u8]) -> (r: String)
    ensures
        r@ == utf8_lossy(bytes@),
        valid_utf8(bytes@) ==> r@ == decode_utf8(bytes@),
{
    String::from_utf8_lossy(bytes).into_owned()
}

/// The text of bytes: what they encode where they are UTF-8, else what is left
/// of them.
pub open spec fn text_at(bytes: Seq<u8>) -> Seq<char> {
    if valid_utf8(bytes) {
        decode_utf8(bytes)
    } else {
        utf8_lossy(bytes)
    }
}

// ---------- metadata values ----------

/// A floating-point number as its IEEE 754 bits.
#[derive(Clone, Copy, Debug, PartialEq, Eq, Structural)]
pub enum FloatBits {
    Single(u32),
    Double(u64),
}

/// One metadata value. Integers are widened to 64 bits; arrays are typed.
#[derive(Debug)]
pub enum GgufValue {
    U64(u64),
    I64(i64),
    F64(FloatBits),
    Bool(bool),
    Str(String),
    ArrStr(Vec<String>),
    ArrI64(Vec<i64>),
    ArrF64(Vec<FloatBits>),
}

/// What a metadata value holds.
pub enum MetaValue {
    U64(u64),
    I64(i64),
    F64(FloatBits),
    Bool(bool),
    Str(Seq<char>),
    ArrStr(Seq<Seq<char>>),
    ArrI64(Seq<i64>),
    ArrF64(Seq<FloatBits>),
}

impl View for GgufValue {
    type V = MetaValue;

    open spec fn view(&self) -> MetaValue {
        match self {
            GgufValue::U64(x) => MetaValue::U64(*x),
            GgufValue::I64(x) => MetaValue::I64(*x),
            GgufValue::F64(x) => MetaValue::F64(*x),
            GgufValue::Bool(x) => MetaValue::Bool(*x),
            GgufValue::Str(s) => MetaValue::Str(s@),
            GgufValue::ArrStr(v) => MetaValue::ArrStr(texts(v@)),
            GgufValue::ArrI64(v) => MetaValue::ArrI64(v@),
            GgufValue::ArrF64(v) => MetaValue::ArrF64(v@),
        }
    }
}

impl MetaValue {
    /// What error messages call a value of this shape.
    pub open spec fn kind(self) -> Seq<char> {
        match self {
            MetaValue::U64(_) => "uint"@,
            MetaValue::I64(_) => "int"@,
            MetaValue::F64(_) => "float"@,
            MetaValue::Bool(_) => "bool"@,
            MetaValue::Str(_) => "string"@,
            MetaValue::ArrStr(_) => "string array"@,
            MetaValue::ArrI64(_) => "int array"@,
            MetaValue::ArrF64(_) => "float array"@,
        }
    }
}

impl GgufValue {
    /// What error messages call this value.
    pub fn kind(&self) -> (r: &'static str)
        ensures
            r@ == self@.kind(),
    {
        match self {
            GgufValue::U64(_) => "uint",
            GgufValue::I64(_) => "int",
            GgufValue::F64(_) => "float",
            GgufValue::Bool(_) => "bool",
            GgufValue::Str(_) => "string",
            GgufValue::ArrStr(_) => "string array",
            GgufValue::ArrI64(_) => "int array",
            GgufValue::ArrF64(_) => "float array",
        }
    }
}

// ---------- what a read yields ----------

/// A value and the offset behind it, or the text of an error.
pub type Read<T> = Result<(T, nat), Seq<char>>;

/// The longest string a file may hold, in bytes.
pub const MAX_STR: u64 = 0x100_0000;

/// The longest array a file may hold, in entries.
pub const MAX_ARR: u64 = 0x400_0000;

/// The next `n` bytes.
pub open spec fn take_at(b: Seq<u8>, p: nat, n: nat) -> Read<Seq<u8>> {
    if p + n <= b.len() {
        Ok((b.subrange(p as int, (p + n) as int), p + n))
    } else {
        Err(
            "GGUF truncated: need "@ + dec(n) + " bytes at offset "@ + dec(p) + ", file has "@
                + dec(b.len()),
        )
    }
}

/// The next `n`-byte unsigned number.
pub open spec fn uint_at(b: Seq<u8>, p: nat, n: nat) -> Read<nat> {
    match take_at(b, p, n) {
        Ok((s, q)) => Ok((le(s), q)),
        Err(e) => Err(e),
    }
}

/// The next string: an 8-byte length, then that many bytes of UTF-8.
pub open spec fn str_at(b: Seq<u8>, p: nat) -> Read<Seq<char>> {
    match uint_at(b, p, 8) {
        Err(e) => Err(e),
        Ok((n, q)) => if n > MAX_STR {
            Err("GGUF string of "@ + dec(n) + " bytes at offset "@ + dec(q) + " — corrupt length"@)
        } else {
            match take_at(b, q, n) {
                Ok((s, r)) => Ok((text_at(s), r)),
                Err(e) => Err(e),
            }
        },
    }
}

/// How many bytes a scalar of type `ty` takes, for the types of fixed width.
pub open spec fn scalar_width(ty: u32) -> nat {
    match ty {
        0u32 | 1u32 | 7u32 => 1,
        2u32 | 3u32 => 2,
        4u32 | 5u32 | 6u32 => 4,
        _ => 8,
    }
}

/// The scalar of type `ty` whose bytes are the number `x`.
pub open spec fn scalar_of(ty: u32, x: nat) -> MetaValue {
    match ty {
        0u32 | 2u32 | 4u32 | 10u32 => MetaValue::U64(x as u64),
        1u32 => MetaValue::I64(signed(x, 1) as i64),
        3u32 => MetaValue::I64(signed(x, 2) as i64),
        5u32 => MetaValue::I64(signed(x, 4) as i64),
        11u32 => MetaValue::I64(signed(x, 8) as i64),
        6u32 => MetaValue::F64(FloatBits::Single(x as u32)),
        12u32 => MetaValue::F64(FloatBits::Double(x as u64)),
        _ => MetaValue::Bool(x != 0),
    }
}

/// The next value of type `ty`, which is no array.
pub open spec fn scalar_at(b: Seq<u8>, p: nat, ty: u32, key: Seq<char>) -> Read<MetaValue> {
    if ty == 8 {
        match str_at(b, p) {
            Ok((s, q)) => Ok((MetaValue::Str(s), q)),
            Err(e) => Err(e),
        }
    } else if ty > 12 || ty == 9 {
        Err("GGUF key "@ + key + ": value type "@ + dec(ty as nat) + " unsupported"@)
    } else {
        match uint_at(b, p, scalar_width(ty)) {
            Ok((x, q)) => Ok((scalar_of(ty, x), q)),
            Err(e) => Err(e),
        }
    }
}

/// The next `n` strings.
pub open spec fn strs_at(b: Seq<u8>, p: nat, n: nat) -> Read<Seq<Seq<char>>>
    decreases n,
{
    if n == 0 {
        Ok((Seq::empty(), p))
    } else {
        match strs_at(b, p, (n - 1) as nat) {
            Err(e) => Err(e),
            Ok((v, q)) => match str_at(b, q) {
                Err(e) => Err(e),
                Ok((s, r)) => Ok((v.push(s), r)),
            },
        }
    }
}

/// The next `n` scalars of type `ty`.
pub open spec fn scalars_at(b: Seq<u8>, p: nat, ty: u32, n: nat, key: Seq<char>) -> Read<Seq<MetaValue>>
    decreases n,
{
    if n == 0 {
        Ok((Seq::empty(), p))
    } else {
        match scalars_at(b, p, ty, (n - 1) as nat, key) {
            Err(e) => Err(e),
            Ok((v, q)) => match scalar_at(b, q, ty, key) {
                Err(e) => Err(e),
                Ok((x, r)) => Ok((v.push(x), r)),
            },
        }
    }
}

/// An array entry on the integer rail: numbers as signed 64-bit, bools as 0/1.
pub open spec fn int_entry(v: MetaValue) -> i64 {
    match v {
        MetaValue::U64(x) => signed(x as nat, 8) as i64,
        MetaValue::I64(x) => x,
        MetaValue::Bool(x) => if x { 1 } else { 0 },
        _ => 0,
    }
}

/// An array entry on the float rail.
pub open spec fn float_entry(v: MetaValue) -> FloatBits {
    match v {
        MetaValue::F64(x) => x,
        _ => FloatBits::Single(0),
    }
}

/// The next array: its element type, its length, its entries. Arrays of arrays
/// are refused.
pub open spec fn array_at(b: Seq<u8>, p: nat, key: Seq<char>) -> Read<MetaValue> {
    match uint_at(b, p, 4) {
        Err(e) => Err(e),
        Ok((et, q)) => match uint_at(b, q, 8) {
            Err(e) => Err(e),
            Ok((n, r)) => if n > MAX_ARR {
                Err("GGUF array "@ + key + ": "@ + dec(n) + " entries — corrupt length"@)
            } else if et == 8 {
                match strs_at(b, r, n) {
                    Ok((v, s)) => Ok((MetaValue::ArrStr(v), s)),
                    Err(e) => Err(e),
                }
            } else if et > 12 || et == 9 {
                Err("GGUF array "@ + key + ": element type "@ + dec(et) + " unsupported"@)
            } else {
                match scalars_at(b, r, et as u32, n, key) {
                    Err(e) => Err(e),
                    Ok((v, s)) => if et == 6 || et == 12 {
                        Ok((MetaValue::ArrF64(Seq::new(v.len(), |i: int| float_entry(v[i]))), s))
                    } else {
                        Ok((MetaValue::ArrI64(Seq::new(v.len(), |i: int| int_entry(v[i]))), s))
                    },
                }
            },
        },
    }
}

/// The next value of type `ty`.
pub open spec fn value_at(b: Seq<u8>, p: nat, ty: u32, key: Seq<char>) -> Read<MetaValue> {
    if ty == 9 {
        array_at(b, p, key)
    } else {
        scalar_at(b, p, ty, key)
    }
}

proof fn lemma_strs_error(b: Seq<u8>, p: nat, k: nat, n: nat)
    requires
        k <= n,
        strs_at(b, p, k) is Err,
    ensures
        strs_at(b, p, n) == strs_at(b, p, k),
    decreases n,
{
    if k < n {
        lemma_strs_error(b, p, k, (n - 1) as nat);
    }
}

proof fn lemma_scalars_error(b: Seq<u8>, p: nat, ty: u32, k: nat, n: nat, key: Seq<char>)
    requires
        k <= n,
        scalars_at(b, p, ty, k, key) is Err,
    ensures
        scalars_at(b, p, ty, n, key) == scalars_at(b, p, ty, k, key),
    decreases n,
{
    if k < n {
        lemma_scalars_error(b, p, ty, k, (n - 1) as nat, key);
    }
}

// ---------- the cursor ----------

/// A cursor at offset `p` of the bytes `b`.
pub struct Rd<'a> {
    pub b: &'a [u8],
    pub p: usize,
}

impl<'a> Rd<'a> {
    /// The cursor stands inside the bytes, or right behind them.
    pub open spec fn wf(&self) -> bool {
        self.p <= self.b@.len()
    }

    /// `r` is what the read `want` yields, and `self` stands behind it.
    pub open spec fn yields<T>(&self, before: Rd<'a>, want: Read<T>, r: Result<T, Seq<char>>) -> bool {
        &&& self.wf()
        &&& self.b == before.b
        &&& match r {
            Ok(v) => want == Ok::<(T, nat), Seq<char>>((v, self.p as nat)),
            Err(e) => want == Err::<(T, nat), Seq<char>>(e),
        }
    }

    pub fn take(&mut self, n: usize) -> (r: Result<&'a [u8], String>)
        requires
            old(self).wf(),
        ensures
            final(self).yields(*old(self), take_at(old(self).b@, old(self).p as nat, n as nat),
                match r { Ok(s) => Ok(s@), Err(e) => Err(e@) }),
            r is Err ==> final(self).p == old(self).p,
    {
        let have: usize = self.b.len();
        if n > have - self.p {
            let mut e = "GGUF truncated: need ".to_owned();
            push_dec(&mut e, n as u64);
            e.append(" bytes at offset ");
            push_dec(&mut e, self.p as u64);
            e.append(", file has ");
            push_dec(&mut e, have as u64);
            return Err(e);
        }
        let s = vstd::slice::slice_subrange(self.b, self.p, self.p + n);
        self.p = self.p + n;
        Ok(s)
    }

    pub fn u32(&mut self) -> (r: Result<u32, String>)
        requires
            old(self).wf(),
        ensures
            final(self).yields(*old(self), uint_at(old(self).b@, old(self).p as nat, 4),
                match r { Ok(x) => Ok(x as nat), Err(e) => Err(e@) }),
    {
        match self.take(4) {
            Err(e) => Err(e),
            Ok(s) => {
                proof {
                    lemma_pow256_values();
                }
                Ok(le_value(s) as u32)
            },
        }
    }

    pub fn u64(&mut self) -> (r: Result<u64, String>)
        requires
            old(self).wf(),
        ensures
            final(self).yields(*old(self), uint_at(old(self).b@, old(self).p as nat, 8),
                match r { Ok(x) => Ok(x as nat), Err(e) => Err(e@) }),
    {
        match self.take(8) {
            Err(e) => Err(e),
            Ok(s) => Ok(le_value(s)),
        }
    }

    /// A string: its length in eight bytes, then its bytes.
    pub fn str(&mut self) -> (r: Result<String, String>)
        requires
            old(self).wf(),
        ensures
            final(self).yields(*old(self), str_at(old(self).b@, old(self).p as nat),
                match r { Ok(s) => Ok(s@), Err(e) => Err(e@) }),
    {
        let n: u64 = match self.u64() {
            Err(e) => return Err(e),
            Ok(n) => n,
        };
        if n > MAX_STR {
            let mut e = "GGUF string of ".to_owned();
            push_dec(&mut e, n);
            e.append(" bytes at offset ");
            push_dec(&mut e, self.p as u64);
            e.append(" — corrupt length");
            return Err(e);
        }
        match self.take(n as usize) {
            Err(e) => Err(e),
            Ok(s) => Ok(lossy(s)),
        }
    }

    /// One number of `n` bytes.
    fn uint(&mut self, n: usize) -> (r: Result<u64, String>)
        requires
            old(self).wf(),
            n <= 8,
        ensures
            final(self).yields(*old(self), uint_at(old(self).b@, old(self).p as nat, n as nat),
                match r { Ok(x) => Ok(x as nat), Err(e) => Err(e@) }),
            r matches Ok(x) ==> x < pow256(n as nat),
    {
        match self.take(n) {
            Err(e) => Err(e),
            Ok(s) => Ok(le_value(s)),
        }
    }

    /// One metadata value of type `ty` that is no array.
    fn scalar(&mut self, ty: u32, key: &str) -> (r: Result<GgufValue, String>)
        requires
            old(self).wf(),
        ensures
            final(self).yields(*old(self), scalar_at(old(self).b@, old(self).p as nat, ty, key@),
                match r { Ok(v) => Ok(v@), Err(e) => Err(e@) }),
    {
        if ty == 8 {
            return match self.str() {
                Err(e) => Err(e),
                Ok(s) => Ok(GgufValue::Str(s)),
            };
        }
        if ty > 12 || ty == 9 {
            let mut e = "GGUF key ".to_owned();
            e.append(key);
            e.append(": value type ");
            push_dec(&mut e, ty as u64);
            e.append(" unsupported");
            return Err(e);
        }
        let width: usize = match ty {
            0 | 1 | 7 => 1,
            2 | 3 => 2,
            4 | 5 | 6 => 4,
            _ => 8,
        };
        let x: u64 = match self.uint(width) {
            Err(e) => return Err(e),
            Ok(x) => x,
        };
        proof {
            lemma_pow256_values();
        }
        Ok(match ty {
            0 | 2 | 4 | 10 => GgufValue::U64(x),
            1 => GgufValue::I64(if x >= 0x80 { x as i64 - 0x100 } else { x as i64 }),
            3 => GgufValue::I64(if x >= 0x8000 { x as i64 - 0x1_0000 } else { x as i64 }),
            5 => GgufValue::I64(if x >= 0x8000_0000 { x as i64 - 0x1_0000_0000 } else { x as i64 }),
            11 => GgufValue::I64(signed_u64(x)),
            6 => GgufValue::F64(FloatBits::Single(x as u32)),
            12 => GgufValue::F64(FloatBits::Double(x)),
            _ => GgufValue::Bool(x != 0),
        })
    }

    /// The `n` strings of an array.
    fn strs(&mut self, n: u64) -> (r: Result<Vec<String>, String>)
        requires
            old(self).wf(),
        ensures
            final(self).yields(*old(self), strs_at(old(self).b@, old(self).p as nat, n as nat),
                match r { Ok(v) => Ok(texts(v@)), Err(e) => Err(e@) }),
    {
        let ghost b = self.b@;
        let ghost p0 = self.p as nat;
        let mut v: Vec<String> = Vec::new();
        let mut i: u64 = 0;
        assert(texts(v@) =~= Seq::<Seq<char>>::empty());
        while i < n
            invariant
                self.wf(),
                self.b == old(self).b,
                b == self.b@,
                i <= n,
                strs_at(b, p0, i as nat) == Ok::<(Seq<Seq<char>>, nat), Seq<char>>((texts(v@), self.p as nat)),
                p0 == old(self).p,
            decreases n - i,
        {
            let ghost done = texts(v@);
            let s = match self.str() {
                Err(e) => {
                    proof {
                        lemma_strs_error(b, p0, (i + 1) as nat, n as nat);
                    }
                    return Err(e);
                },
                Ok(s) => s,
            };
            v.push(s);
            assert(texts(v@) =~= done.push(s@));
            i = i + 1;
        }
        Ok(v)
    }

    /// The `n` numbers of an array on the integer rail.
    fn ints(&mut self, et: u32, n: u64, key: &str) -> (r: Result<Vec<i64>, String>)
        requires
            old(self).wf(),
            et <= 11,
            et != 6 && et != 8 && et != 9,
        ensures
            final(self).wf(),
            final(self).b == old(self).b,
            match (r, scalars_at(old(self).b@, old(self).p as nat, et, n as nat, key@)) {
                (Ok(v), Ok((w, q))) => v@ =~= Seq::new(w.len(), |i: int| int_entry(w[i])) && q == final(self).p,
                (Err(e), Err(f)) => e@ == f,
                _ => false,
            },
    {
        let ghost b = self.b@;
        let ghost p0 = self.p as nat;
        let mut v: Vec<i64> = Vec::new();
        let mut i: u64 = 0;
        while i < n
            invariant
                self.wf(),
                self.b == old(self).b,
                b == self.b@,
                i <= n,
                et <= 11,
                et != 6 && et != 8 && et != 9,
                p0 == old(self).p,
                match scalars_at(b, p0, et, i as nat, key@) {
                    Ok((w, q)) => q == self.p && w.len() == v@.len() && forall|j: int|
                        0 <= j < w.len() ==> #[trigger] v@[j] == int_entry(w[j]),
                    Err(_) => false,
                },
            decreases n - i,
        {
            let x = match self.scalar(et, key) {
                Err(e) => {
                    proof {
                        lemma_scalars_error(b, p0, et, (i + 1) as nat, n as nat, key@);
                    }
                    return Err(e);
                },
                Ok(x) => x,
            };
            v.push(match x {
                GgufValue::U64(x) => signed_u64(x),
                GgufValue::I64(x) => x,
                GgufValue::Bool(x) => if x { 1 } else { 0 },
                _ => 0,
            });
            i = i + 1;
        }
        Ok(v)
    }

    /// The `n` numbers of an array on the float rail.
    fn floats(&mut self, et: u32, n: u64, key: &str) -> (r: Result<Vec<FloatBits>, String>)
        requires
            old(self).wf(),
            et == 6 || et == 12,
        ensures
            final(self).wf(),
            final(self).b == old(self).b,
            match (r, scalars_at(old(self).b@, old(self).p as nat, et, n as nat, key@)) {
                (Ok(v), Ok((w, q))) => v@ =~= Seq::new(w.len(), |i: int| float_entry(w[i])) && q == final(self).p,
                (Err(e), Err(f)) => e@ == f,
                _ => false,
            },
    {
        let ghost b = self.b@;
        let ghost p0 = self.p as nat;
        let mut v: Vec<FloatBits> = Vec::new();
        let mut i: u64 = 0;
        while i < n
            invariant
                self.wf(),
                self.b == old(self).b,
                b == self.b@,
                i <= n,
                et == 6 || et == 12,
                p0 == old(self).p,
                match scalars_at(b, p0, et, i as nat, key@) {
                    Ok((w, q)) => q == self.p && w.len() == v@.len() && forall|j: int|
                        0 <= j < w.len() ==> #[trigger] v@[j] == float_entry(w[j]),
                    Err(_) => false,
                },
            decreases n - i,
        {
            let x = match self.scalar(et, key) {
                Err(e) => {
                    proof {
                        lemma_scalars_error(b, p0, et, (i + 1) as nat, n as nat, key@);
                    }
                    return Err(e);
                },
                Ok(x) => x,
            };
            v.push(match x {
                GgufValue::F64(x) => x,
                _ => FloatBits::Single(0),
            });
            i = i + 1;
        }
        Ok(v)
    }

    /// One metadata value of type `ty`. Scalars widen to 64 bits; nested arrays
    /// are refused.
    pub fn value(&mut self, ty: u32, key: &str) -> (r: Result<GgufValue, String>)
        requires
            old(self).wf(),
        ensures
            final(self).yields(*old(self), value_at(old(self).b@, old(self).p as nat, ty, key@),
                match r { Ok(v) => Ok(v@), Err(e) => Err(e@) }),
    {
        if ty != 9 {
            return self.scalar(ty, key);
        }
        let et: u32 = match self.u32() {
            Err(e) => return Err(e),
            Ok(x) => x,
        };
        let n: u64 = match self.u64() {
            Err(e) => return Err(e),
            Ok(x) => x,
        };
        if n > MAX_ARR {
            let mut e = "GGUF array ".to_owned();
            e.append(key);
            e.append(": ");
            push_dec(&mut e, n);
            e.append(" entries — corrupt length");
            return Err(e);
        }
        if et == 8 {
            return match self.strs(n) {
                Err(e) => Err(e),
                Ok(v) => Ok(GgufValue::ArrStr(v)),
            };
        }
        if et > 12 || et == 9 {
            let mut e = "GGUF array ".to_owned();
            e.append(key);
            e.append(": element type ");
            push_dec(&mut e, et as u64);
            e.append(" unsupported");
            return Err(e);
        }
        if et == 6 || et == 12 {
            return match self.floats(et, n, key) {
                Err(e) => Err(e),
                Ok(v) => Ok(GgufValue::ArrF64(v)),
            };
        }
        match self.ints(et, n, key) {
            Err(e) => Err(e),
            Ok(v) => Ok(GgufValue::ArrI64(v)),
        }
    }
}

} // verus!
