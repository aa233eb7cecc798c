//! What a GGUF v2/v3 file holds. `parse` says what the bytes of a file mean, as
//! a parsed file or as the text of a refusal; `file_ok` is what every parsed file
//! satisfies.
use vstd::prelude::*;

use crate::gguf::ggml_type::{type_of_id, GgmlType, RefusedType, REFUSED_TYPES};
use crate::gguf::reader::{str_at, take_at, uint_at, value_at, FloatBits, MetaValue, Read};
use crate::text::{dec, join};

verus! {

// ---------- what a file holds ----------

/// One line of the tensor table as it is written: dimensions fastest first.
pub struct TensorRow {
    pub name: Seq<char>,
    pub ne: Seq<u64>,
    pub id: u32,
    pub offset: u64,
}

/// One tensor of a parsed file: row-major dimensions and the byte range of its
/// data in the file.
pub struct TensorView {
    pub name: Seq<char>,
    pub dims: Seq<u64>,
    pub ty: GgmlType,
    pub start: nat,
    pub end: nat,
}

/// A parsed file.
pub struct FileView {
    pub bytes: Seq<u8>,
    pub version: nat,
    pub meta: Map<Seq<char>, MetaValue>,
    pub tensors: Seq<TensorView>,
    pub data_start: nat,
}

// ---------- the header walk ----------

/// The next metadata entry: key, value type, value.
pub open spec fn entry_at(b: Seq<u8>, p: nat) -> Read<(Seq<char>, MetaValue)> {
    match str_at(b, p) {
        Err(e) => Err(e),
        Ok((key, q)) => match uint_at(b, q, 4) {
            Err(e) => Err(e),
            Ok((ty, r)) => match value_at(b, r, ty as u32, key) {
                Err(e) => Err(e),
                Ok((v, s)) => Ok(((key, v), s)),
            },
        },
    }
}

/// The next `n` metadata entries, as a map: of two entries with one key the
/// later stands.
pub open spec fn meta_at(b: Seq<u8>, p: nat, n: nat) -> Read<Map<Seq<char>, MetaValue>>
    decreases n,
{
    if n == 0 {
        Ok((Map::empty(), p))
    } else {
        match meta_at(b, p, (n - 1) as nat) {
            Err(e) => Err(e),
            Ok((m, q)) => match entry_at(b, q) {
                Err(e) => Err(e),
                Ok(((k, v), r)) => Ok((m.insert(k, v), r)),
            },
        }
    }
}

/// The next `n` dimensions.
pub open spec fn dims_at(b: Seq<u8>, p: nat, n: nat) -> Read<Seq<u64>>
    decreases n,
{
    if n == 0 {
        Ok((Seq::empty(), p))
    } else {
        match dims_at(b, p, (n - 1) as nat) {
            Err(e) => Err(e),
            Ok((v, q)) => match uint_at(b, q, 8) {
                Err(e) => Err(e),
                Ok((x, r)) => Ok((v.push(x as u64), r)),
            },
        }
    }
}

/// The row of a supported type is a whole number of blocks.
pub open spec fn whole_blocks(row: TensorRow) -> bool {
    match type_of_id(row.id) {
        Ok(ty) => row.ne[0] as nat % ty.block_len() == 0,
        Err(_) => true,
    }
}

pub open spec fn blocks_error(row: TensorRow) -> Seq<char> {
    "tensor "@ + row.name + ": row length "@ + dec(row.ne[0] as nat)
        + " is not a whole number of "@ + type_of_id(row.id)->Ok_0.label() + " blocks"@
}

/// The next line of the tensor table.
pub open spec fn row_at(b: Seq<u8>, p: nat) -> Read<TensorRow> {
    match str_at(b, p) {
        Err(e) => Err(e),
        Ok((name, q)) => match uint_at(b, q, 4) {
            Err(e) => Err(e),
            Ok((n, r)) => if n == 0 || n > 4 {
                Err("tensor "@ + name + ": "@ + dec(n) + " dimensions"@)
            } else {
                match dims_at(b, r, n) {
                    Err(e) => Err(e),
                    Ok((ne, s)) => match uint_at(b, s, 4) {
                        Err(e) => Err(e),
                        Ok((id, t)) => match uint_at(b, t, 8) {
                            Err(e) => Err(e),
                            Ok((off, u)) => {
                                let row = TensorRow { name, ne, id: id as u32, offset: off as u64 };
                                if whole_blocks(row) {
                                    Ok((row, u))
                                } else {
                                    Err(blocks_error(row))
                                }
                            },
                        },
                    },
                }
            },
        },
    }
}

/// The next `n` lines of the tensor table.
pub open spec fn rows_at(b: Seq<u8>, p: nat, n: nat) -> Read<Seq<TensorRow>>
    decreases n,
{
    if n == 0 {
        Ok((Seq::empty(), p))
    } else {
        match rows_at(b, p, (n - 1) as nat) {
            Err(e) => Err(e),
            Ok((v, q)) => match row_at(b, q) {
                Err(e) => Err(e),
                Ok((x, r)) => Ok((v.push(x), r)),
            },
        }
    }
}

pub(crate) proof fn lemma_meta_error(b: Seq<u8>, p: nat, k: nat, n: nat)
    requires
        k <= n,
        meta_at(b, p, k) is Err,
    ensures
        meta_at(b, p, n) == meta_at(b, p, k),
    decreases n,
{
    if k < n {
        lemma_meta_error(b, p, k, (n - 1) as nat);
    }
}

pub(crate) proof fn lemma_dims_error(b: Seq<u8>, p: nat, k: nat, n: nat)
    requires
        k <= n,
        dims_at(b, p, k) is Err,
    ensures
        dims_at(b, p, n) == dims_at(b, p, k),
    decreases n,
{
    if k < n {
        lemma_dims_error(b, p, k, (n - 1) as nat);
    }
}

pub(crate) proof fn lemma_rows_error(b: Seq<u8>, p: nat, k: nat, n: nat)
    requires
        k <= n,
        rows_at(b, p, k) is Err,
    ensures
        rows_at(b, p, n) == rows_at(b, p, k),
    decreases n,
{
    if k < n {
        lemma_rows_error(b, p, k, (n - 1) as nat);
    }
}

// ---------- the refusal of unsupported types ----------

/// How many rows have the refused type `t`.
pub open spec fn refused_count(rows: Seq<TensorRow>, t: RefusedType) -> nat
    decreases rows.len(),
{
    if rows.len() == 0 {
        0
    } else {
        refused_count(rows.drop_last(), t) + if type_of_id(rows.last().id) == Err::<GgmlType, RefusedType>(t) {
            1nat
        } else {
            0nat
        }
    }
}

/// The name of the first row with the refused type `t`.
pub open spec fn refused_example(rows: Seq<TensorRow>, t: RefusedType) -> Seq<char>
    decreases rows.len(),
{
    if rows.len() == 0 {
        Seq::empty()
    } else if refused_count(rows.drop_last(), t) > 0 {
        refused_example(rows.drop_last(), t)
    } else {
        rows.last().name
    }
}

/// How many rows have a refused type.
pub open spec fn refused_total(rows: Seq<TensorRow>) -> nat
    decreases rows.len(),
{
    if rows.len() == 0 {
        0
    } else {
        refused_total(rows.drop_last()) + if type_of_id(rows.last().id) is Err { 1nat } else { 0nat }
    }
}

/// One refused type with its count and an example.
pub open spec fn refused_item(rows: Seq<TensorRow>, t: RefusedType) -> Seq<char> {
    t.label() + " ("@ + dec(refused_count(rows, t)) + (if refused_count(rows, t) == 1 {
        " tensor"@
    } else {
        " tensors"@
    }) + ", e.g. "@ + refused_example(rows, t) + ")"@
}

/// How many of the first `k` refused types occur.
pub open spec fn refused_kinds(rows: Seq<TensorRow>, k: nat) -> nat
    decreases k,
{
    if k == 0 {
        0
    } else {
        refused_kinds(rows, (k - 1) as nat) + if refused_count(rows, RefusedType::at((k - 1) as usize)) > 0 {
            1nat
        } else {
            0nat
        }
    }
}

/// The items of those of the first `k` refused types that occur, in the order
/// of their names, with commas between.
pub open spec fn refused_detail(rows: Seq<TensorRow>, k: nat) -> Seq<char>
    decreases k,
{
    if k == 0 {
        Seq::empty()
    } else {
        let before = refused_detail(rows, (k - 1) as nat);
        let t = RefusedType::at((k - 1) as usize);
        if refused_count(rows, t) == 0 {
            before
        } else if refused_kinds(rows, (k - 1) as nat) == 0 {
            before + refused_item(rows, t)
        } else {
            before + ", "@ + refused_item(rows, t)
        }
    }
}

/// The refusal of a file with unsupported types: every one of them at once.
pub open spec fn refusal(rows: Seq<TensorRow>) -> Seq<char> {
    "this checkpoint uses "@ + dec(refused_kinds(rows, REFUSED_TYPES as nat))
        + " quantization type(s) lokal does not run, across "@ + dec(refused_total(rows)) + " of "@
        + dec(rows.len()) + " tensors: "@ + refused_detail(rows, REFUSED_TYPES as nat)
        + ". Re-download the model as Q4_K_M or Q8_0."@
}

// ---------- the data section ----------

/// `n` is a power of two.
pub open spec fn is_pow2(n: nat) -> bool
    decreases n,
{
    n == 1 || (n > 1 && n % 2 == 0 && is_pow2(n / 2))
}

/// The alignment of the data section: the metadata's, or 32.
pub open spec fn alignment(meta: Map<Seq<char>, MetaValue>) -> Result<nat, Seq<char>> {
    if !meta.dom().contains("general.alignment"@) {
        Ok(32)
    } else {
        match meta["general.alignment"@] {
            MetaValue::U64(a) if is_pow2(a as nat) => Ok(a as nat),
            v => Err("general.alignment is invalid ("@ + v.kind() + ")"@),
        }
    }
}

/// The smallest multiple of `a` that is at least `p`.
pub open spec fn round_up(p: nat, a: nat) -> nat {
    if p % a == 0 {
        p
    } else {
        (p + (a - p % a)) as nat
    }
}

/// The product of all dimensions.
pub open spec fn product(ne: Seq<u64>) -> nat
    decreases ne.len(),
{
    if ne.len() == 0 {
        1
    } else {
        product(ne.drop_last()) * ne.last() as nat
    }
}

/// The product, taken dimension by dimension, stays within 64 bits.
pub open spec fn product_fits(ne: Seq<u64>) -> bool
    decreases ne.len(),
{
    ne.len() == 0 || (product_fits(ne.drop_last()) && product(ne) <= u64::MAX)
}

/// The tensor of a row with supported type `ty`, in a file of `len` bytes whose
/// data section starts at `data_start`.
pub open spec fn place(row: TensorRow, ty: GgmlType, data_start: nat, len: nat) -> Result<TensorView, Seq<char>> {
    let size = ty.bytes_of(product(row.ne));
    let start = data_start + row.offset as nat;
    if !product_fits(row.ne) || size > u64::MAX {
        Err("tensor "@ + row.name + ": size overflow"@)
    } else if start > u64::MAX {
        Err("tensor "@ + row.name + ": offset overflow"@)
    } else if start + size > len {
        Err(
            "tensor "@ + row.name + ": "@ + dec(size) + " bytes at data offset "@
                + dec(row.offset as nat) + " run past the file"@,
        )
    } else {
        Ok(TensorView { name: row.name, dims: row.ne.reverse(), ty, start, end: start + size })
    }
}

/// A tensor of `ts` is called `name`.
pub open spec fn named(ts: Seq<TensorView>, name: Seq<char>) -> bool {
    exists|i: int| 0 <= i < ts.len() && (#[trigger] ts[i]).name == name
}

/// The tensors of the first `k` rows. No two may share a name.
pub open spec fn tensors_of(rows: Seq<TensorRow>, k: nat, data_start: nat, len: nat) -> Result<Seq<TensorView>, Seq<char>>
    decreases k,
{
    if k == 0 {
        Ok(Seq::empty())
    } else {
        let row = rows[k - 1];
        match tensors_of(rows, (k - 1) as nat, data_start, len) {
            Err(e) => Err(e),
            Ok(ts) => match place(row, type_of_id(row.id)->Ok_0, data_start, len) {
                Err(e) => Err(e),
                Ok(t) => if named(ts, row.name) {
                    Err("tensor "@ + row.name + " appears twice"@)
                } else {
                    Ok(ts.push(t))
                },
            },
        }
    }
}

pub(crate) proof fn lemma_tensors_error(rows: Seq<TensorRow>, k: nat, n: nat, data_start: nat, len: nat)
    requires
        k <= n,
        tensors_of(rows, k, data_start, len) is Err,
    ensures
        tensors_of(rows, n, data_start, len) == tensors_of(rows, k, data_start, len),
    decreases n,
{
    if k < n {
        lemma_tensors_error(rows, k, (n - 1) as nat, data_start, len);
    }
}

/// The bytes `GGUF` that open every file.
pub open spec fn magic() -> Seq<u8> {
    seq![0x47u8, 0x47u8, 0x55u8, 0x46u8]
}

/// The verdict on a version number.
pub open spec fn version_error(version: nat) -> Option<Seq<char>> {
    if version == 0x0200_0000 || version == 0x0300_0000 {
        Some("big-endian GGUF files are not supported — re-export little-endian"@)
    } else if version != 2 && version != 3 {
        Some("GGUF version "@ + dec(version) + " unsupported (v2 and v3 only)"@)
    } else {
        None
    }
}

/// What remains of a file once its header is read: the type verdict, the data
/// section, the tensors.
pub open spec fn assemble(
    b: Seq<u8>,
    version: nat,
    meta: Map<Seq<char>, MetaValue>,
    rows: Seq<TensorRow>,
    p: nat,
) -> Result<FileView, Seq<char>> {
    if refused_total(rows) > 0 {
        Err(refusal(rows))
    } else {
        match alignment(meta) {
            Err(e) => Err(e),
            Ok(a) => {
                let data_start = round_up(p, a);
                if data_start > u64::MAX {
                    Err("GGUF data section: offset overflow"@)
                } else {
                    match tensors_of(rows, rows.len(), data_start, b.len()) {
                        Err(e) => Err(e),
                        Ok(tensors) => Ok(FileView { bytes: b, version, meta, tensors, data_start }),
                    }
                }
            },
        }
    }
}

/// The fixed part of a file: version, number of tensors, number of metadata
/// entries.
pub open spec fn header_at(path: Seq<char>, b: Seq<u8>) -> Read<(nat, nat, nat)> {
    match take_at(b, 0, 4) {
        Err(e) => Err(e),
        Ok((head, p0)) => if head != magic() {
            Err(path + " is not a GGUF file (bad magic)"@)
        } else {
            match uint_at(b, p0, 4) {
                Err(e) => Err(e),
                Ok((version, p1)) => match version_error(version) {
                    Some(e) => Err(e),
                    None => match uint_at(b, p1, 8) {
                        Err(e) => Err(e),
                        Ok((n_tensors, p2)) => match uint_at(b, p2, 8) {
                            Err(e) => Err(e),
                            Ok((n_kv, p3)) => Ok(((version, n_tensors, n_kv), p3)),
                        },
                    },
                },
            }
        },
    }
}

/// What the file at `path` with the bytes `b` parses to.
pub open spec fn parse(path: Seq<char>, b: Seq<u8>) -> Result<FileView, Seq<char>> {
    match header_at(path, b) {
        Err(e) => Err(e),
        Ok(((version, n_tensors, n_kv), p)) => match meta_at(b, p, n_kv) {
            Err(e) => Err(e),
            Ok((meta, q)) => match rows_at(b, q, n_tensors) {
                Err(e) => Err(e),
                Ok((rows, r)) => assemble(b, version, meta, rows, r),
            },
        },
    }
}

// ---------- what every parsed file satisfies ----------

/// The data of `t` is a range of the data section, of the size that its shape
/// and type give, in whole blocks per row.
pub open spec fn tensor_ok(t: TensorView, data_start: nat, len: nat) -> bool {
    &&& data_start <= t.start <= t.end <= len
    &&& t.end - t.start == t.ty.bytes_of(product(t.dims))
    &&& 1 <= t.dims.len() <= 4
    &&& t.dims.last() as nat % t.ty.block_len() == 0
}

/// The invariant of a parsed file.
pub open spec fn file_ok(f: FileView) -> bool {
    &&& f.version == 2 || f.version == 3
    &&& alignment(f.meta) matches Ok(a) && f.data_start % a == 0
    &&& forall|i: int| 0 <= i < f.tensors.len() ==> tensor_ok(#[trigger] f.tensors[i], f.data_start, f.bytes.len())
    &&& forall|i: int, j: int|
        0 <= i < j < f.tensors.len() ==> (#[trigger] f.tensors[i]).name != (#[trigger] f.tensors[j]).name
}

pub(crate) proof fn lemma_product_push_front(x: u64, ne: Seq<u64>)
    ensures
        product(seq![x] + ne) == x * product(ne),
    decreases ne.len(),
{
    let s = seq![x] + ne;
    if ne.len() == 0 {
        assert(product(ne) == 1);
        assert(s.drop_last() =~= ne);
        assert(s.last() == x);
        assert(product(s) == product(ne) * x as nat);
    } else {
        lemma_product_push_front(x, ne.drop_last());
        assert(s.drop_last() =~= seq![x] + ne.drop_last());
        let (p, l) = (product(ne.drop_last()), ne.last() as nat);
        assert(product(s) == (x * p) * l);
        assert(product(ne) == p * l);
        assert((x * p) * l == x * (p * l)) by (nonlinear_arith);
    }
}

/// The number of elements does not depend on the order of the dimensions.
pub proof fn lemma_product_reverse(ne: Seq<u64>)
    ensures
        product(ne.reverse()) == product(ne),
    decreases ne.len(),
{
    if ne.len() > 0 {
        lemma_product_reverse(ne.drop_last());
        assert(ne.reverse() =~= seq![ne.last()] + ne.drop_last().reverse());
        lemma_product_push_front(ne.last(), ne.drop_last().reverse());
        assert(ne.last() * product(ne.drop_last()) == product(ne.drop_last()) * ne.last()) by (nonlinear_arith);
    } else {
        assert(ne.reverse() =~= ne);
    }
}

pub(crate) proof fn lemma_round_up(p: nat, a: nat)
    requires
        a > 0,
    ensures
        round_up(p, a) % a == 0,
        round_up(p, a) >= p,
        round_up(p, a) < p + a,
{
    if p % a != 0 {
        vstd::arithmetic::div_mod::lemma_fundamental_div_mod(p as int, a as int);
        let q = p as int / a as int;
        assert(p + (a - p % a) == a * (q + 1)) by (nonlinear_arith)
            requires
                p == a * q + p % a,
        ;
        vstd::arithmetic::div_mod::lemma_mod_multiples_basic(q + 1, a as int);
        assert(a * (q + 1) == (q + 1) * a) by (nonlinear_arith);
    }
}

/// Rows as the header walk yields them.
pub open spec fn row_ok(row: TensorRow) -> bool {
    1 <= row.ne.len() <= 4 && whole_blocks(row)
}

pub(crate) proof fn lemma_dims_len(b: Seq<u8>, p: nat, n: nat)
    ensures
        dims_at(b, p, n) matches Ok((v, _)) ==> v.len() == n,
    decreases n,
{
    if n > 0 {
        lemma_dims_len(b, p, (n - 1) as nat);
    }
}

pub(crate) proof fn lemma_rows_ok(b: Seq<u8>, p: nat, n: nat)
    ensures
        rows_at(b, p, n) matches Ok((v, _)) ==> v.len() == n && forall|i: int|
            0 <= i < v.len() ==> row_ok(#[trigger] v[i]),
    decreases n,
{
    if n > 0 {
        lemma_rows_ok(b, p, (n - 1) as nat);
        if let Ok((v, q)) = rows_at(b, p, (n - 1) as nat) {
            if let Ok((name, q1)) = str_at(b, q) {
                if let Ok((k, q2)) = uint_at(b, q1, 4) {
                    lemma_dims_len(b, q2, k);
                }
            }
        }
    }
}

pub(crate) proof fn lemma_none_refused(rows: Seq<TensorRow>, i: int)
    requires
        refused_total(rows) == 0,
        0 <= i < rows.len(),
    ensures
        type_of_id(rows[i].id) is Ok,
    decreases rows.len(),
{
    if i < rows.len() - 1 {
        lemma_none_refused(rows.drop_last(), i);
    }
}

pub(crate) proof fn lemma_tensors_ok(rows: Seq<TensorRow>, k: nat, data_start: nat, len: nat)
    requires
        k <= rows.len(),
        refused_total(rows) == 0,
        forall|i: int| 0 <= i < rows.len() ==> row_ok(#[trigger] rows[i]),
    ensures
        tensors_of(rows, k, data_start, len) matches Ok(ts) ==> {
            &&& ts.len() == k
            &&& forall|i: int| 0 <= i < k ==> (#[trigger] ts[i]).name == rows[i].name
            &&& forall|i: int| 0 <= i < k ==> tensor_ok(#[trigger] ts[i], data_start, len)
            &&& forall|i: int, j: int| 0 <= i < j < k ==> (#[trigger] ts[i]).name != (#[trigger] ts[j]).name
        },
    decreases k,
{
    if k > 0 {
        lemma_tensors_ok(rows, (k - 1) as nat, data_start, len);
        lemma_none_refused(rows, k - 1);
        lemma_product_reverse(rows[k - 1].ne);
        if let Ok(ts) = tensors_of(rows, k, data_start, len) {
            let row = rows[k - 1];
            assert(row_ok(row));
            assert(row.ne.reverse().last() == row.ne[0]);
            let before = tensors_of(rows, (k - 1) as nat, data_start, len)->Ok_0;
            assert(!named(before, row.name));
            assert forall|i: int, j: int| 0 <= i < j < k implies (#[trigger] ts[i]).name != (#[trigger] ts[j]).name by {
                assert(ts[i] == before[i]);
            }
        }
    }
}

/// What `assemble` accepts satisfies the invariant.
pub proof fn lemma_assembled_ok(
    b: Seq<u8>,
    version: nat,
    meta: Map<Seq<char>, MetaValue>,
    rows: Seq<TensorRow>,
    p: nat,
)
    requires
        version == 2 || version == 3,
        forall|i: int| 0 <= i < rows.len() ==> row_ok(#[trigger] rows[i]),
    ensures
        assemble(b, version, meta, rows, p) matches Ok(f) ==> file_ok(f) && f.bytes == b,
{
    if let Ok(f) = assemble(b, version, meta, rows, p) {
        lemma_tensors_ok(rows, rows.len(), f.data_start, b.len());
        lemma_round_up(p, alignment(meta)->Ok_0);
    }
}

/// Every tensor of a parsed file lies inside the file and behind the header, on
/// the data section that the alignment gives; its size is that of its shape and
/// type; and no two tensors share a name.
pub proof fn lemma_parsed_file_ok(path: Seq<char>, b: Seq<u8>)
    ensures
        parse(path, b) matches Ok(f) ==> file_ok(f) && f.bytes == b,
{
    if let Ok(((version, n_tensors, n_kv), p)) = header_at(path, b) {
        if let Ok((meta, q)) = meta_at(b, p, n_kv) {
            if let Ok((rows, r)) = rows_at(b, q, n_tensors) {
                lemma_rows_ok(b, q, n_tensors);
                lemma_assembled_ok(b, version, meta, rows, r);
            }
        }
    }
}

// ---------- typed metadata ----------

/// The value of `key`.
pub open spec fn meta_get(meta: Map<Seq<char>, MetaValue>, key: Seq<char>) -> Result<MetaValue, Seq<char>> {
    if meta.dom().contains(key) {
        Ok(meta[key])
    } else {
        Err("GGUF metadata key "@ + key + " is missing"@)
    }
}

pub open spec fn wrong_kind(key: Seq<char>, v: MetaValue, want: Seq<char>) -> Seq<char> {
    "GGUF key "@ + key + " is a "@ + v.kind() + ", expected "@ + want
}

/// The value of `key` as a machine-size number.
pub open spec fn usize_of(meta: Map<Seq<char>, MetaValue>, key: Seq<char>) -> Result<nat, Seq<char>> {
    match meta_get(meta, key) {
        Err(e) => Err(e),
        Ok(MetaValue::U64(x)) if x <= usize::MAX => Ok(x as nat),
        Ok(MetaValue::I64(x)) if 0 <= x <= usize::MAX => Ok(x as nat),
        Ok(v) => Err(wrong_kind(key, v, "an integer"@)),
    }
}

/// The value of `key` as a floating-point number.
pub open spec fn float_of(meta: Map<Seq<char>, MetaValue>, key: Seq<char>) -> Result<FloatBits, Seq<char>> {
    match meta_get(meta, key) {
        Err(e) => Err(e),
        Ok(MetaValue::F64(x)) => Ok(x),
        Ok(v) => Err(wrong_kind(key, v, "a float"@)),
    }
}

/// The value of `key` as a string.
pub open spec fn str_of(meta: Map<Seq<char>, MetaValue>, key: Seq<char>) -> Result<Seq<char>, Seq<char>> {
    match meta_get(meta, key) {
        Err(e) => Err(e),
        Ok(MetaValue::Str(x)) => Ok(x),
        Ok(v) => Err(wrong_kind(key, v, "a string"@)),
    }
}

/// The value of `key` as an array of strings.
pub open spec fn strs_of(meta: Map<Seq<char>, MetaValue>, key: Seq<char>) -> Result<Seq<Seq<char>>, Seq<char>> {
    match meta_get(meta, key) {
        Err(e) => Err(e),
        Ok(MetaValue::ArrStr(x)) => Ok(x),
        Ok(v) => Err(wrong_kind(key, v, "a string array"@)),
    }
}

/// The value of `key` as an array of integers.
pub open spec fn ints_of(meta: Map<Seq<char>, MetaValue>, key: Seq<char>) -> Result<Seq<i64>, Seq<char>> {
    match meta_get(meta, key) {
        Err(e) => Err(e),
        Ok(MetaValue::ArrI64(x)) => Ok(x),
        Ok(v) => Err(wrong_kind(key, v, "an int array"@)),
    }
}

// ---------- accounting ----------

/// The bytes of the first `k` tensors, each expanded to four bytes an element.
pub open spec fn expanded_bytes(ts: Seq<TensorView>, k: nat) -> nat
    decreases k,
{
    if k == 0 {
        0
    } else {
        expanded_bytes(ts, (k - 1) as nat) + product(ts[k - 1].dims) * 4
    }
}

/// The bytes that the first `k` tensors take in the file.
pub open spec fn stored_bytes(ts: Seq<TensorView>, k: nat) -> nat
    decreases k,
{
    if k == 0 {
        0
    } else {
        (stored_bytes(ts, (k - 1) as nat) + (ts[k - 1].end - ts[k - 1].start)) as nat
    }
}

pub(crate) proof fn lemma_expanded_monotone(ts: Seq<TensorView>, j: nat, k: nat)
    requires
        j <= k,
    ensures
        expanded_bytes(ts, j) <= expanded_bytes(ts, k),
    decreases k,
{
    if j < k {
        lemma_expanded_monotone(ts, j, (k - 1) as nat);
    }
}

pub(crate) proof fn lemma_stored_monotone(f: FileView, j: nat, k: nat)
    requires
        file_ok(f),
        j <= k <= f.tensors.len(),
    ensures
        stored_bytes(f.tensors, j) <= stored_bytes(f.tensors, k),
    decreases k,
{
    if j < k {
        lemma_stored_monotone(f, j, (k - 1) as nat);
        assert(tensor_ok(f.tensors[k - 1], f.data_start, f.bytes.len()));
    }
}

pub(crate) proof fn lemma_product_zero(ne: Seq<u64>, k: int)
    requires
        0 <= k <= ne.len(),
        product(ne.take(k)) == 0,
    ensures
        product(ne) == 0,
    decreases ne.len() - k,
{
    if k == ne.len() {
        assert(ne.take(k) =~= ne);
    } else {
        assert(ne.take(k + 1).drop_last() =~= ne.take(k));
        assert(product(ne.take(k + 1)) == 0);
        lemma_product_zero(ne, k + 1);
    }
}

pub(crate) proof fn lemma_product_overflow(ne: Seq<u64>, k: int)
    requires
        0 <= k <= ne.len(),
        !product_fits(ne.take(k)),
    ensures
        !product_fits(ne),
    decreases ne.len() - k,
{
    if k == ne.len() {
        assert(ne.take(k) =~= ne);
    } else {
        assert(ne.take(k + 1).drop_last() =~= ne.take(k));
        lemma_product_overflow(ne, k + 1);
    }
}

pub(crate) proof fn lemma_product_exceeds(ne: Seq<u64>)
    requires
        forall|j: int| 0 <= j < ne.len() ==> #[trigger] ne[j] > 0,
        !product_fits(ne),
    ensures
        product(ne) > u64::MAX,
    decreases ne.len(),
{
    if !product_fits(ne.drop_last()) {
        let (p, l) = (product(ne.drop_last()), ne.last() as nat);
        assert forall|j: int| 0 <= j < ne.drop_last().len() implies #[trigger] ne.drop_last()[j] > 0 by {
            assert(ne[j] > 0);
        }
        lemma_product_exceeds(ne.drop_last());
        assert(ne[ne.len() - 1] > 0);
        assert(p * l >= p) by (nonlinear_arith)
            requires
                l >= 1,
        ;
    }
}

/// The line of the tensor listing for `t`: name, shape, type, size, and offset
/// in the data section.
pub open spec fn tsv_line(t: TensorView, data_start: nat) -> Seq<char> {
    t.name + "\t"@ + join(Seq::new(t.dims.len(), |i: int| dec(t.dims[i] as nat)), "x"@) + "\t"@
        + t.ty.label() + "\t"@ + dec((t.end - t.start) as nat) + "\t"@
        + dec((t.start - data_start) as nat) + "\n"@
}

/// The listing of the first `k` tensors.
pub open spec fn tsv(f: FileView, k: nat) -> Seq<char>
    decreases k,
{
    if k == 0 {
        Seq::empty()
    } else {
        tsv(f, (k - 1) as nat) + tsv_line(f.tensors[k - 1], f.data_start)
    }
}

/// How many of the first `k` tensors have type `ty`.
pub open spec fn type_count(ts: Seq<TensorView>, ty: GgmlType, k: nat) -> nat
    decreases k,
{
    if k == 0 {
        0
    } else {
        type_count(ts, ty, (k - 1) as nat) + if ts[k - 1].ty == ty { 1nat } else { 0nat }
    }
}

/// One item for each of the first `k` supported types that occur.
pub open spec fn type_items(ts: Seq<TensorView>, k: nat) -> Seq<Seq<char>>
    decreases k,
{
    if k == 0 {
        Seq::empty()
    } else {
        let ty = GgmlType::at((k - 1) as usize);
        let n = type_count(ts, ty, ts.len());
        let before = type_items(ts, (k - 1) as nat);
        if n == 0 {
            before
        } else {
            before.push(dec(n) + " "@ + ty.label())
        }
    }
}

} // verus!
