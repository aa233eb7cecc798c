//! Reading gives back what was written: the header of a file, laid out by the
//! format's own rules, parses to the entries and the tensors that it was made of.
use vstd::prelude::*;
use vstd::string::*;
use vstd::utf8::*;

use crate::gguf::layout::{TensorRow, assemble, dims_at, entry_at, meta_at, parse, row_at, rows_at, whole_blocks};
use crate::gguf::reader::{
    FloatBits, MAX_ARR, MAX_STR, MetaValue, float_entry, int_entry, le, pow256, scalar_of, scalars_at, signed, str_at,
    strs_at, take_at, uint_at, value_at,
};

verus! {

// ---------- numbers and texts ----------

/// A number in `w` bytes, the lowest first.
pub open spec fn le_bytes(n: nat, w: nat) -> Seq<u8>
    decreases w,
{
    if w == 0 {
        Seq::empty()
    } else {
        seq![(n % 256) as u8] + le_bytes(n / 256, (w - 1) as nat)
    }
}

/// A text: its length in bytes, and its bytes.
pub open spec fn str_bytes(t: Seq<char>) -> Seq<u8> {
    le_bytes(encode_utf8(t).len(), 8) + encode_utf8(t)
}

/// The bytes stand at `p`.
pub open spec fn stands(b: Seq<u8>, p: nat, s: Seq<u8>) -> bool {
    p + s.len() <= b.len() && b.subrange(p as int, (p + s.len()) as int) == s
}

proof fn lemma_stands_parts(b: Seq<u8>, p: nat, x: Seq<u8>, y: Seq<u8>)
    requires
        stands(b, p, x + y),
    ensures
        stands(b, p, x),
        stands(b, p + x.len(), y),
{
    let s = b.subrange(p as int, (p + x.len() + y.len()) as int);
    assert(s == x + y);
    assert(b.subrange(p as int, (p + x.len()) as int) =~= x) by {
        assert forall|i: int| 0 <= i < x.len() implies b[p + i] == x[i] by {
            assert(s[i] == (x + y)[i]);
        }
    }
    assert(b.subrange((p + x.len()) as int, (p + x.len() + y.len()) as int) =~= y) by {
        assert forall|i: int| 0 <= i < y.len() implies b[p + x.len() + i] == y[i] by {
            assert(s[x.len() + i] == (x + y)[x.len() + i]);
        }
    }
}

proof fn lemma_le_bytes(n: nat, w: nat)
    requires
        n < pow256(w),
    ensures
        le_bytes(n, w).len() == w,
        le(le_bytes(n, w)) == n,
    decreases w,
{
    if w > 0 {
        assert(n / 256 < pow256((w - 1) as nat));
        lemma_le_bytes(n / 256, (w - 1) as nat);
        let s = le_bytes(n, w);
        assert(s.drop_first() =~= le_bytes(n / 256, (w - 1) as nat));
        assert(s[0] == (n % 256) as u8);
    }
}

proof fn lemma_pows()
    ensures
        pow256(1) == 0x100,
        pow256(2) == 0x1_0000,
        pow256(4) == 0x1_0000_0000,
        pow256(8) == 0x1_0000_0000_0000_0000,
{
    reveal_with_fuel(pow256, 9);
}

/// A number comes back.
pub proof fn lemma_number_comes_back(b: Seq<u8>, p: nat, n: nat, w: nat)
    requires
        n < pow256(w),
        stands(b, p, le_bytes(n, w)),
    ensures
        uint_at(b, p, w) == Ok::<(nat, nat), Seq<char>>((n, p + w)),
{
    lemma_le_bytes(n, w);
}

/// A text comes back.
pub proof fn lemma_text_comes_back(b: Seq<u8>, p: nat, t: Seq<char>)
    requires
        encode_utf8(t).len() <= MAX_STR,
        stands(b, p, str_bytes(t)),
    ensures
        str_at(b, p) == Ok::<(Seq<char>, nat), Seq<char>>((t, p + str_bytes(t).len())),
        str_bytes(t).len() == 8 + encode_utf8(t).len(),
{
    let u = encode_utf8(t);
    lemma_pows();
    lemma_le_bytes(u.len(), 8);
    lemma_stands_parts(b, p, le_bytes(u.len(), 8), u);
    lemma_number_comes_back(b, p, u.len(), 8);
    encode_utf8_valid_utf8(t);
    encode_utf8_decode_utf8(t);
}

// ---------- values ----------

/// A value as a file stores it: the type by which it is read, and what it is.
pub enum Stored {
    /// An unsigned number of one, two, four or eight bytes.
    Unsigned(u32, nat),
    /// A signed one.
    Signed(u32, int),
    Flag(bool),
    Single(u32),
    Double(u64),
    Text(Seq<char>),
    Texts(Seq<Seq<char>>),
    /// Signed numbers of four bytes.
    Ints(Seq<i32>),
    Singles(Seq<u32>),
}

/// The widths of the whole-number types.
pub open spec fn width_of(ty: u32) -> Option<nat> {
    if ty == 0 || ty == 1 {
        Some(1)
    } else if ty == 2 || ty == 3 {
        Some(2)
    } else if ty == 4 || ty == 5 {
        Some(4)
    } else if ty == 10 || ty == 11 {
        Some(8)
    } else {
        None
    }
}

/// A signed number as its two's complement.
pub open spec fn complement(x: int, w: nat) -> nat {
    (if x < 0 {
        x + pow256(w)
    } else {
        x
    }) as nat
}

/// The value is one that its type can hold, and a file can.
pub open spec fn storable(v: Stored) -> bool {
    match v {
        Stored::Unsigned(ty, n) => (ty == 0 || ty == 2 || ty == 4 || ty == 10) && n < pow256(width_of(ty)->Some_0),
        Stored::Signed(ty, x) => (ty == 1 || ty == 3 || ty == 5 || ty == 11) && -(pow256(width_of(ty)->Some_0) as int)
            <= 2 * x < pow256(width_of(ty)->Some_0),
        Stored::Text(t) => encode_utf8(t).len() <= MAX_STR,
        Stored::Texts(v) => v.len() <= MAX_ARR && forall|i: int|
            0 <= i < v.len() ==> encode_utf8(#[trigger] v[i]).len() <= MAX_STR,
        Stored::Ints(v) => v.len() <= MAX_ARR,
        Stored::Singles(v) => v.len() <= MAX_ARR,
        _ => true,
    }
}

/// The number of a value's type.
pub open spec fn type_no(v: Stored) -> u32 {
    match v {
        Stored::Unsigned(ty, _) | Stored::Signed(ty, _) => ty,
        Stored::Single(_) => 6,
        Stored::Flag(_) => 7,
        Stored::Text(_) => 8,
        Stored::Texts(_) | Stored::Ints(_) | Stored::Singles(_) => 9,
        Stored::Double(_) => 12,
    }
}

pub open spec fn texts_bytes(v: Seq<Seq<char>>, k: nat) -> Seq<u8>
    decreases k,
{
    if k == 0 {
        Seq::empty()
    } else {
        texts_bytes(v, (k - 1) as nat) + str_bytes(v[k - 1])
    }
}

/// Numbers of four bytes each.
pub open spec fn words_bytes(v: Seq<nat>, k: nat) -> Seq<u8>
    decreases k,
{
    if k == 0 {
        Seq::empty()
    } else {
        words_bytes(v, (k - 1) as nat) + le_bytes(v[k - 1], 4)
    }
}

pub open spec fn int_words(v: Seq<i32>) -> Seq<nat> {
    Seq::new(v.len(), |i: int| complement(v[i] as int, 4))
}

pub open spec fn single_words(v: Seq<u32>) -> Seq<nat> {
    Seq::new(v.len(), |i: int| v[i] as nat)
}

/// The bytes of a value.
pub open spec fn value_bytes(v: Stored) -> Seq<u8> {
    match v {
        Stored::Unsigned(ty, n) => le_bytes(n, width_of(ty)->Some_0),
        Stored::Signed(ty, x) => le_bytes(complement(x, width_of(ty)->Some_0), width_of(ty)->Some_0),
        Stored::Flag(f) => le_bytes(if f { 1 } else { 0 }, 1),
        Stored::Single(x) => le_bytes(x as nat, 4),
        Stored::Double(x) => le_bytes(x as nat, 8),
        Stored::Text(t) => str_bytes(t),
        Stored::Texts(v) => le_bytes(8, 4) + (le_bytes(v.len(), 8) + texts_bytes(v, v.len())),
        Stored::Ints(v) => le_bytes(5, 4) + (le_bytes(v.len(), 8) + words_bytes(int_words(v), v.len())),
        Stored::Singles(v) => le_bytes(6, 4) + (le_bytes(v.len(), 8) + words_bytes(single_words(v), v.len())),
    }
}

/// The value that a reader finds.
pub open spec fn as_read(v: Stored) -> MetaValue {
    match v {
        Stored::Unsigned(_, n) => MetaValue::U64(n as u64),
        Stored::Signed(_, x) => MetaValue::I64(x as i64),
        Stored::Flag(f) => MetaValue::Bool(f),
        Stored::Single(x) => MetaValue::F64(FloatBits::Single(x)),
        Stored::Double(x) => MetaValue::F64(FloatBits::Double(x)),
        Stored::Text(t) => MetaValue::Str(t),
        Stored::Texts(v) => MetaValue::ArrStr(v),
        Stored::Ints(v) => MetaValue::ArrI64(Seq::new(v.len(), |i: int| v[i] as i64)),
        Stored::Singles(v) => MetaValue::ArrF64(Seq::new(v.len(), |i: int| FloatBits::Single(v[i]))),
    }
}

proof fn lemma_texts_come_back(b: Seq<u8>, p: nat, v: Seq<Seq<char>>, k: nat)
    requires
        k <= v.len(),
        forall|i: int| 0 <= i < v.len() ==> encode_utf8(#[trigger] v[i]).len() <= MAX_STR,
        stands(b, p, texts_bytes(v, k)),
    ensures
        strs_at(b, p, k) == Ok::<(Seq<Seq<char>>, nat), Seq<char>>((v.take(k as int), p + texts_bytes(v, k).len())),
    decreases k,
{
    if k > 0 {
        let x = texts_bytes(v, (k - 1) as nat);
        lemma_stands_parts(b, p, x, str_bytes(v[k - 1]));
        lemma_texts_come_back(b, p, v, (k - 1) as nat);
        lemma_text_comes_back(b, p + x.len(), v[k - 1]);
        assert(v.take(k as int) =~= v.take(k - 1).push(v[k - 1]));
    } else {
        assert(v.take(0) =~= Seq::<Seq<char>>::empty());
    }
}

proof fn lemma_words_come_back(b: Seq<u8>, p: nat, ty: u32, v: Seq<nat>, k: nat, key: Seq<char>)
    requires
        k <= v.len(),
        ty == 5 || ty == 6,
        forall|i: int| 0 <= i < v.len() ==> #[trigger] v[i] < 0x1_0000_0000,
        stands(b, p, words_bytes(v, k)),
    ensures
        words_bytes(v, k).len() == 4 * k,
        scalars_at(b, p, ty, k, key) == Ok::<(Seq<MetaValue>, nat), Seq<char>>(
            (Seq::new(k, |i: int| scalar_of(ty, v[i])), p + 4 * k),
        ),
    decreases k,
{
    lemma_pows();
    let now = Seq::new(k, |i: int| scalar_of(ty, v[i]));
    if k > 0 {
        let x = words_bytes(v, (k - 1) as nat);
        lemma_stands_parts(b, p, x, le_bytes(v[k - 1], 4));
        lemma_words_come_back(b, p, ty, v, (k - 1) as nat, key);
        lemma_le_bytes(v[k - 1], 4);
        lemma_number_comes_back(b, p + x.len(), v[k - 1], 4);
        let before = Seq::new((k - 1) as nat, |i: int| scalar_of(ty, v[i]));
        assert(now =~= before.push(scalar_of(ty, v[k - 1])));
    } else {
        assert(now =~= Seq::<MetaValue>::empty());
    }
}

/// A value comes back.
pub proof fn lemma_value_comes_back(b: Seq<u8>, p: nat, v: Stored, key: Seq<char>)
    requires
        storable(v),
        stands(b, p, value_bytes(v)),
    ensures
        value_at(b, p, type_no(v), key) == Ok::<(MetaValue, nat), Seq<char>>((as_read(v), p + value_bytes(v).len())),
{
    lemma_pows();
    match v {
        Stored::Unsigned(ty, n) => {
            lemma_le_bytes(n, width_of(ty)->Some_0);
            lemma_number_comes_back(b, p, n, width_of(ty)->Some_0);
        },
        Stored::Signed(ty, x) => {
            let w = width_of(ty)->Some_0;
            lemma_le_bytes(complement(x, w), w);
            lemma_number_comes_back(b, p, complement(x, w), w);
            assert(signed(complement(x, w), w) == x);
        },
        Stored::Flag(f) => {
            let n: nat = if f { 1 } else { 0 };
            lemma_le_bytes(n, 1);
            lemma_number_comes_back(b, p, n, 1);
        },
        Stored::Single(x) => {
            lemma_le_bytes(x as nat, 4);
            lemma_number_comes_back(b, p, x as nat, 4);
        },
        Stored::Double(x) => {
            lemma_le_bytes(x as nat, 8);
            lemma_number_comes_back(b, p, x as nat, 8);
        },
        Stored::Text(t) => {
            lemma_text_comes_back(b, p, t);
        },
        Stored::Texts(ts) => {
            lemma_array_head(b, p, 8, ts.len(), texts_bytes(ts, ts.len()));
            lemma_texts_come_back(b, p + 12, ts, ts.len());
            assert(ts.take(ts.len() as int) =~= ts);
        },
        Stored::Ints(xs) => {
            let ws = int_words(xs);
            assert forall|i: int| 0 <= i < ws.len() implies #[trigger] ws[i] < 0x1_0000_0000 by {}
            lemma_array_head(b, p, 5, xs.len(), words_bytes(ws, xs.len()));
            lemma_words_come_back(b, p + 12, 5, ws, xs.len(), key);
            let got = Seq::new(xs.len(), |i: int| scalar_of(5, ws[i]));
            let want = Seq::new(xs.len(), |i: int| xs[i] as i64);
            assert forall|i: int| 0 <= i < xs.len() implies int_entry(got[i]) == #[trigger] want[i] by {
                assert(signed(complement(xs[i] as int, 4), 4) == xs[i]);
            }
            assert(Seq::new(got.len(), |i: int| int_entry(got[i])) =~= want);
        },
        Stored::Singles(xs) => {
            let ws = single_words(xs);
            assert forall|i: int| 0 <= i < ws.len() implies #[trigger] ws[i] < 0x1_0000_0000 by {}
            lemma_array_head(b, p, 6, xs.len(), words_bytes(ws, xs.len()));
            lemma_words_come_back(b, p + 12, 6, ws, xs.len(), key);
            let got = Seq::new(xs.len(), |i: int| scalar_of(6, ws[i]));
            let want = Seq::new(xs.len(), |i: int| FloatBits::Single(xs[i]));
            assert forall|i: int| 0 <= i < xs.len() implies float_entry(got[i]) == #[trigger] want[i] by {}
            assert(Seq::new(got.len(), |i: int| float_entry(got[i])) =~= want);
        },
    }
}

/// The head of an array: the type and the number of its elements.
proof fn lemma_array_head(b: Seq<u8>, p: nat, ty: nat, n: nat, rest: Seq<u8>)
    requires
        ty < 13,
        n <= MAX_ARR,
        stands(b, p, le_bytes(ty, 4) + (le_bytes(n, 8) + rest)),
    ensures
        uint_at(b, p, 4) == Ok::<(nat, nat), Seq<char>>((ty, p + 4)),
        uint_at(b, p + 4, 8) == Ok::<(nat, nat), Seq<char>>((n, p + 12)),
        stands(b, p + 12, rest),
        (le_bytes(ty, 4) + (le_bytes(n, 8) + rest)).len() == 12 + rest.len(),
{
    lemma_pows();
    lemma_le_bytes(ty, 4);
    lemma_le_bytes(n, 8);
    lemma_stands_parts(b, p, le_bytes(ty, 4), le_bytes(n, 8) + rest);
    lemma_stands_parts(b, p + 4, le_bytes(n, 8), rest);
    lemma_number_comes_back(b, p, ty, 4);
    lemma_number_comes_back(b, p + 4, n, 8);
}

// ---------- the header ----------

/// A metadata entry: key, type, value.
pub open spec fn entry_bytes(key: Seq<char>, v: Stored) -> Seq<u8> {
    str_bytes(key) + (le_bytes(type_no(v) as nat, 4) + value_bytes(v))
}

/// An entry comes back.
pub proof fn lemma_entry_comes_back(b: Seq<u8>, p: nat, key: Seq<char>, v: Stored)
    requires
        storable(v),
        encode_utf8(key).len() <= MAX_STR,
        stands(b, p, entry_bytes(key, v)),
    ensures
        entry_at(b, p) == Ok::<((Seq<char>, MetaValue), nat), Seq<char>>(
            ((key, as_read(v)), p + entry_bytes(key, v).len()),
        ),
{
    lemma_pows();
    let (x, y, z) = (str_bytes(key), le_bytes(type_no(v) as nat, 4), value_bytes(v));
    lemma_stands_parts(b, p, x, y + z);
    lemma_stands_parts(b, p + x.len(), y, z);
    lemma_text_comes_back(b, p, key);
    lemma_le_bytes(type_no(v) as nat, 4);
    lemma_number_comes_back(b, p + x.len(), type_no(v) as nat, 4);
    lemma_value_comes_back(b, p + x.len() + y.len(), v, key);
}

pub open spec fn entries_bytes(es: Seq<(Seq<char>, Stored)>, k: nat) -> Seq<u8>
    decreases k,
{
    if k == 0 {
        Seq::empty()
    } else {
        entries_bytes(es, (k - 1) as nat) + entry_bytes(es[k - 1].0, es[k - 1].1)
    }
}

/// The entries as a map: of two entries with one key the later stands.
pub open spec fn entries_map(es: Seq<(Seq<char>, Stored)>, k: nat) -> Map<Seq<char>, MetaValue>
    decreases k,
{
    if k == 0 {
        Map::empty()
    } else {
        entries_map(es, (k - 1) as nat).insert(es[k - 1].0, as_read(es[k - 1].1))
    }
}

pub open spec fn entries_ok(es: Seq<(Seq<char>, Stored)>) -> bool {
    forall|i: int| 0 <= i < es.len() ==> storable((#[trigger] es[i]).1) && encode_utf8(es[i].0).len() <= MAX_STR
}

proof fn lemma_entries_come_back(b: Seq<u8>, p: nat, es: Seq<(Seq<char>, Stored)>, k: nat)
    requires
        entries_ok(es),
        k <= es.len(),
        stands(b, p, entries_bytes(es, k)),
    ensures
        meta_at(b, p, k) == Ok::<(Map<Seq<char>, MetaValue>, nat), Seq<char>>(
            (entries_map(es, k), p + entries_bytes(es, k).len()),
        ),
    decreases k,
{
    if k > 0 {
        let x = entries_bytes(es, (k - 1) as nat);
        lemma_stands_parts(b, p, x, entry_bytes(es[k - 1].0, es[k - 1].1));
        lemma_entries_come_back(b, p, es, (k - 1) as nat);
        lemma_entry_comes_back(b, p + x.len(), es[k - 1].0, es[k - 1].1);
    }
}

pub open spec fn dims_bytes(ne: Seq<u64>, k: nat) -> Seq<u8>
    decreases k,
{
    if k == 0 {
        Seq::empty()
    } else {
        dims_bytes(ne, (k - 1) as nat) + le_bytes(ne[k - 1] as nat, 8)
    }
}

proof fn lemma_dims_come_back(b: Seq<u8>, p: nat, ne: Seq<u64>, k: nat)
    requires
        k <= ne.len(),
        stands(b, p, dims_bytes(ne, k)),
    ensures
        dims_at(b, p, k) == Ok::<(Seq<u64>, nat), Seq<char>>((ne.take(k as int), p + dims_bytes(ne, k).len())),
    decreases k,
{
    lemma_pows();
    if k > 0 {
        let x = dims_bytes(ne, (k - 1) as nat);
        lemma_stands_parts(b, p, x, le_bytes(ne[k - 1] as nat, 8));
        lemma_dims_come_back(b, p, ne, (k - 1) as nat);
        lemma_le_bytes(ne[k - 1] as nat, 8);
        lemma_number_comes_back(b, p + x.len(), ne[k - 1] as nat, 8);
        assert(ne.take(k as int) =~= ne.take(k - 1).push(ne[k - 1]));
    } else {
        assert(ne.take(0) =~= Seq::<u64>::empty());
    }
}

/// A line of the tensor table: name, dimensions from the fastest on, type, offset.
pub open spec fn row_bytes(t: TensorRow) -> Seq<u8> {
    str_bytes(t.name) + (le_bytes(t.ne.len(), 4) + (dims_bytes(t.ne, t.ne.len()) + (le_bytes(t.id as nat, 4) + le_bytes(
        t.offset as nat,
        8,
    ))))
}

pub open spec fn row_storable(t: TensorRow) -> bool {
    &&& encode_utf8(t.name).len() <= MAX_STR
    &&& 1 <= t.ne.len() <= 4
    &&& whole_blocks(t)
}

/// A line of the tensor table comes back.
pub proof fn lemma_row_comes_back(b: Seq<u8>, p: nat, t: TensorRow)
    requires
        row_storable(t),
        stands(b, p, row_bytes(t)),
    ensures
        row_at(b, p) == Ok::<(TensorRow, nat), Seq<char>>((t, p + row_bytes(t).len())),
{
    lemma_pows();
    let (x, y, z, u, v) = (
        str_bytes(t.name),
        le_bytes(t.ne.len(), 4),
        dims_bytes(t.ne, t.ne.len()),
        le_bytes(t.id as nat, 4),
        le_bytes(t.offset as nat, 8),
    );
    lemma_le_bytes(t.ne.len(), 4);
    lemma_le_bytes(t.id as nat, 4);
    lemma_le_bytes(t.offset as nat, 8);
    lemma_stands_parts(b, p, x, y + (z + (u + v)));
    lemma_stands_parts(b, p + x.len(), y, z + (u + v));
    lemma_stands_parts(b, p + x.len() + 4, z, u + v);
    lemma_stands_parts(b, p + x.len() + 4 + z.len(), u, v);
    lemma_text_comes_back(b, p, t.name);
    lemma_number_comes_back(b, p + x.len(), t.ne.len(), 4);
    lemma_dims_come_back(b, p + x.len() + 4, t.ne, t.ne.len());
    lemma_number_comes_back(b, p + x.len() + 4 + z.len(), t.id as nat, 4);
    lemma_number_comes_back(b, p + x.len() + 8 + z.len(), t.offset as nat, 8);
    assert(t.ne.take(t.ne.len() as int) =~= t.ne);
}

pub open spec fn table_bytes(ts: Seq<TensorRow>, k: nat) -> Seq<u8>
    decreases k,
{
    if k == 0 {
        Seq::empty()
    } else {
        table_bytes(ts, (k - 1) as nat) + row_bytes(ts[k - 1])
    }
}

proof fn lemma_table_comes_back(b: Seq<u8>, p: nat, ts: Seq<TensorRow>, k: nat)
    requires
        forall|i: int| 0 <= i < ts.len() ==> row_storable(#[trigger] ts[i]),
        k <= ts.len(),
        stands(b, p, table_bytes(ts, k)),
    ensures
        rows_at(b, p, k) == Ok::<(Seq<TensorRow>, nat), Seq<char>>((ts.take(k as int), p + table_bytes(ts, k).len())),
    decreases k,
{
    if k > 0 {
        let x = table_bytes(ts, (k - 1) as nat);
        lemma_stands_parts(b, p, x, row_bytes(ts[k - 1]));
        lemma_table_comes_back(b, p, ts, (k - 1) as nat);
        lemma_row_comes_back(b, p + x.len(), ts[k - 1]);
        assert(ts.take(k as int) =~= ts.take(k - 1).push(ts[k - 1]));
    } else {
        assert(ts.take(0) =~= Seq::<TensorRow>::empty());
    }
}

/// The header of a file: the four bytes that open it, the version, how many tensors
/// and how many entries; the entries; the tensor table.
pub open spec fn head_bytes(version: nat, es: Seq<(Seq<char>, Stored)>, ts: Seq<TensorRow>) -> Seq<u8> {
    seq![0x47u8, 0x47u8, 0x55u8, 0x46u8] + (le_bytes(version, 4) + (le_bytes(ts.len(), 8) + (le_bytes(es.len(), 8) + (
    entries_bytes(es, es.len()) + table_bytes(ts, ts.len())))))
}

/// A file whose header was written by the format's rules is read as the entries and
/// the tensor table that it was made of, whatever data follow.
pub proof fn lemma_header_comes_back(
    path: Seq<char>,
    b: Seq<u8>,
    version: nat,
    es: Seq<(Seq<char>, Stored)>,
    ts: Seq<TensorRow>,
)
    requires
        version == 2 || version == 3,
        entries_ok(es),
        forall|i: int| 0 <= i < ts.len() ==> row_storable(#[trigger] ts[i]),
        es.len() <= u64::MAX,
        ts.len() <= u64::MAX,
        stands(b, 0, head_bytes(version, es, ts)),
    ensures
        parse(path, b) == assemble(
            b,
            version,
            entries_map(es, es.len()),
            ts,
            head_bytes(version, es, ts).len(),
        ),
{
    lemma_pows();
    let (w, x, y, z, u, v) = (
        seq![0x47u8, 0x47u8, 0x55u8, 0x46u8],
        le_bytes(version, 4),
        le_bytes(ts.len(), 8),
        le_bytes(es.len(), 8),
        entries_bytes(es, es.len()),
        table_bytes(ts, ts.len()),
    );
    lemma_le_bytes(version, 4);
    lemma_le_bytes(ts.len(), 8);
    lemma_le_bytes(es.len(), 8);
    lemma_stands_parts(b, 0, w, x + (y + (z + (u + v))));
    lemma_stands_parts(b, 4, x, y + (z + (u + v)));
    lemma_stands_parts(b, 8, y, z + (u + v));
    lemma_stands_parts(b, 16, z, u + v);
    lemma_stands_parts(b, 24, u, v);
    lemma_number_comes_back(b, 4, version, 4);
    lemma_number_comes_back(b, 8, ts.len(), 8);
    lemma_number_comes_back(b, 16, es.len(), 8);
    lemma_entries_come_back(b, 24, es, es.len());
    lemma_table_comes_back(b, 24 + u.len(), ts, ts.len());
    assert(ts.take(ts.len() as int) =~= ts);
    assert(take_at(b, 0, 4) == Ok::<(Seq<u8>, nat), Seq<char>>((w, 4)));
}

} // verus!
