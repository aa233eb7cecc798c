//! The GGUF container: parses the bytes of a file, and answers what the file
//! holds.
use vstd::prelude::*;
use vstd::string::*;

use crate::gguf::ggml_type::{GgmlType, RefusedType, REFUSED_TYPES, SUPPORTED_TYPES};
use crate::gguf::layout::{
    FileView, TensorRow, TensorView, alignment, assemble, dims_at, entry_at, expanded_bytes,
    file_ok, float_of, header_at, ints_of, is_pow2, lemma_assembled_ok, lemma_dims_error,
    lemma_expanded_monotone, lemma_meta_error, lemma_none_refused, lemma_product_exceeds,
    lemma_product_overflow, lemma_product_zero, lemma_rows_error, lemma_rows_ok,
    lemma_stored_monotone, lemma_tensors_error, magic, meta_at, meta_get, named, parse, place,
    product, product_fits, refusal, refused_count, refused_detail, refused_example,
    refused_item, refused_kinds, refused_total, round_up, row_at, row_ok, rows_at, stored_bytes,
    str_of, strs_of, tensor_ok, tensors_of, tsv, tsv_line, type_count, type_items, usize_of,
    wrong_kind,
};
use crate::gguf::reader::{FloatBits, GgufValue, MetaValue, Rd};
use crate::text::{
    chars_of, dec, dec_text, join, join_texts, parse_number, parse_usize, push_dec, same, sort_strings, sorted_texts,
    texts,
};

verus! {

// ---------- the parsed file ----------

/// A metadata entry.
struct Entry {
    key: String,
    val: GgufValue,
}

/// The map that a list of entries stands for: later entries win.
closed spec fn meta_of(kv: Seq<Entry>) -> Map<Seq<char>, MetaValue>
    decreases kv.len(),
{
    if kv.len() == 0 {
        Map::empty()
    } else {
        meta_of(kv.drop_last()).insert(kv.last().key@, kv.last().val@)
    }
}

/// A line of the tensor table.
struct RawInfo {
    name: String,
    ne: Vec<u64>,
    id: u32,
    offset: u64,
}

impl View for RawInfo {
    type V = TensorRow;

    closed spec fn view(&self) -> TensorRow {
        TensorRow { name: self.name@, ne: self.ne@, id: self.id, offset: self.offset }
    }
}

closed spec fn rows_of(raw: Seq<RawInfo>) -> Seq<TensorRow> {
    Seq::new(raw.len(), |i: int| raw[i]@)
}

/// A tensor of the file, by name, shape, type and byte range.
struct TensorInfo {
    name: String,
    dims: Vec<u64>,
    ty: GgmlType,
    start: usize,
    end: usize,
}

impl View for TensorInfo {
    type V = TensorView;

    closed spec fn view(&self) -> TensorView {
        TensorView {
            name: self.name@,
            dims: self.dims@,
            ty: self.ty,
            start: self.start as nat,
            end: self.end as nat,
        }
    }
}

closed spec fn infos_of(infos: Seq<TensorInfo>) -> Seq<TensorView> {
    Seq::new(infos.len(), |i: int| infos[i]@)
}

/// One tensor of a file over its bytes.
pub struct GgufTensor<'a> {
    pub name: String,
    pub dims: Vec<u64>,
    pub ty: GgmlType,
    pub data: &'a [u8],
}

impl<'a> GgufTensor<'a> {
    /// This is tensor `i` of the file `f`.
    pub open spec fn is_of(&self, f: FileView, i: int) -> bool {
        let t = f.tensors[i];
        &&& self.name@ == t.name
        &&& self.dims@ == t.dims
        &&& self.ty == t.ty
        &&& self.data@ == f.bytes.subrange(t.start as int, t.end as int)
    }
}

/// A parsed GGUF file over the bytes that it was read from.
pub struct GgufFile<'a> {
    data: &'a [u8],
    pub version: u32,
    kv: Vec<Entry>,
    infos: Vec<TensorInfo>,
    data_start: u64,
}

impl<'a> View for GgufFile<'a> {
    type V = FileView;

    closed spec fn view(&self) -> FileView {
        FileView {
            bytes: self.data@,
            version: self.version as nat,
            meta: meta_of(self.kv@),
            tensors: infos_of(self.infos@),
            data_start: self.data_start as nat,
        }
    }
}

fn tensor_error(name: &str, what: &str) -> (r: String)
    ensures
        r@ == "tensor "@ + name@ + what@,
{
    let mut e = "tensor ".to_owned();
    e.append(name);
    e.append(what);
    e
}

/// Reads `n` dimensions.
fn read_dims(rd: &mut Rd, n: u32) -> (r: Result<Vec<u64>, String>)
    requires
        old(rd).wf(),
    ensures
        final(rd).yields(*old(rd), dims_at(old(rd).b@, old(rd).p as nat, n as nat),
            match r { Ok(v) => Ok(v@), Err(e) => Err(e@) }),
        r matches Ok(v) ==> v@.len() == n,
{
    let ghost b = rd.b@;
    let ghost p0 = rd.p as nat;
    let mut ne: Vec<u64> = Vec::new();
    let mut i: u32 = 0;
    while i < n
        invariant
            rd.wf(),
            rd.b == old(rd).b,
            b == rd.b@,
            p0 == old(rd).p,
            i <= n,
            ne@.len() == i,
            dims_at(b, p0, i as nat) == Ok::<(Seq<u64>, nat), Seq<char>>((ne@, rd.p as nat)),
        decreases n - i,
    {
        match rd.u64() {
            Err(e) => {
                proof {
                    lemma_dims_error(b, p0, (i + 1) as nat, n as nat);
                }
                return Err(e);
            },
            Ok(x) => { ne.push(x); },
        }
        i = i + 1;
    }
    Ok(ne)
}

/// Reads one line of the tensor table.
fn read_row(rd: &mut Rd) -> (r: Result<RawInfo, String>)
    requires
        old(rd).wf(),
    ensures
        final(rd).yields(*old(rd), row_at(old(rd).b@, old(rd).p as nat),
            match r { Ok(x) => Ok(x@), Err(e) => Err(e@) }),
{
    let name = match rd.str() {
        Err(e) => return Err(e),
        Ok(s) => s,
    };
    let n: u32 = match rd.u32() {
        Err(e) => return Err(e),
        Ok(n) => n,
    };
    if n == 0 || n > 4 {
        let mut e = tensor_error(name.as_str(), ": ");
        push_dec(&mut e, n as u64);
        e.append(" dimensions");
        return Err(e);
    }
    let ne = match read_dims(rd, n) {
        Err(e) => return Err(e),
        Ok(v) => v,
    };
    let id: u32 = match rd.u32() {
        Err(e) => return Err(e),
        Ok(x) => x,
    };
    let offset: u64 = match rd.u64() {
        Err(e) => return Err(e),
        Ok(x) => x,
    };
    if let Ok(ty) = GgmlType::from_gguf(id) {
        if ne[0] % ty.blk_elems() != 0 {
            let mut e = tensor_error(name.as_str(), ": row length ");
            push_dec(&mut e, ne[0]);
            e.append(" is not a whole number of ");
            e.append(ty.name());
            e.append(" blocks");
            return Err(e);
        }
    }
    Ok(RawInfo { name, ne, id, offset })
}

/// Reads `n` metadata entries.
fn read_meta(rd: &mut Rd, n: u64) -> (r: Result<Vec<Entry>, String>)
    requires
        old(rd).wf(),
    ensures
        final(rd).yields(*old(rd), meta_at(old(rd).b@, old(rd).p as nat, n as nat),
            match r { Ok(v) => Ok(meta_of(v@)), Err(e) => Err(e@) }),
{
    let ghost b = rd.b@;
    let ghost p0 = rd.p as nat;
    let mut kv: Vec<Entry> = Vec::new();
    let mut i: u64 = 0;
    while i < n
        invariant
            rd.wf(),
            rd.b == old(rd).b,
            b == rd.b@,
            p0 == old(rd).p,
            i <= n,
            meta_at(b, p0, i as nat) == Ok::<(Map<Seq<char>, MetaValue>, nat), Seq<char>>(
                (meta_of(kv@), rd.p as nat),
            ),
        decreases n - i,
    {
        let ghost before = kv@;
        match read_entry(rd) {
            Err(e) => {
                proof {
                    lemma_meta_error(b, p0, (i + 1) as nat, n as nat);
                }
                return Err(e);
            },
            Ok(x) => {
                kv.push(x);
                assert(kv@.drop_last() =~= before);
            },
        }
        i = i + 1;
    }
    Ok(kv)
}

/// Reads one metadata entry.
fn read_entry(rd: &mut Rd) -> (r: Result<Entry, String>)
    requires
        old(rd).wf(),
    ensures
        final(rd).yields(*old(rd), entry_at(old(rd).b@, old(rd).p as nat),
            match r { Ok(x) => Ok((x.key@, x.val@)), Err(e) => Err(e@) }),
{
    let key = match rd.str() {
        Err(e) => return Err(e),
        Ok(s) => s,
    };
    let ty: u32 = match rd.u32() {
        Err(e) => return Err(e),
        Ok(x) => x,
    };
    match rd.value(ty, key.as_str()) {
        Err(e) => Err(e),
        Ok(val) => Ok(Entry { key, val }),
    }
}

/// Reads the `n` lines of the tensor table.
fn read_rows(rd: &mut Rd, n: u64) -> (r: Result<Vec<RawInfo>, String>)
    requires
        old(rd).wf(),
    ensures
        final(rd).yields(*old(rd), rows_at(old(rd).b@, old(rd).p as nat, n as nat),
            match r { Ok(v) => Ok(rows_of(v@)), Err(e) => Err(e@) }),
{
    let ghost b = rd.b@;
    let ghost p0 = rd.p as nat;
    let mut raw: Vec<RawInfo> = Vec::new();
    let mut i: u64 = 0;
    assert(rows_of(raw@) =~= Seq::<TensorRow>::empty());
    while i < n
        invariant
            rd.wf(),
            rd.b == old(rd).b,
            b == rd.b@,
            p0 == old(rd).p,
            i <= n,
            rows_at(b, p0, i as nat) == Ok::<(Seq<TensorRow>, nat), Seq<char>>(
                (rows_of(raw@), rd.p as nat),
            ),
        decreases n - i,
    {
        let ghost before = rows_of(raw@);
        match read_row(rd) {
            Err(e) => {
                proof {
                    lemma_rows_error(b, p0, (i + 1) as nat, n as nat);
                }
                return Err(e);
            },
            Ok(x) => {
                raw.push(x);
                assert(rows_of(raw@) =~= before.push(x@));
            },
        }
        i = i + 1;
    }
    Ok(raw)
}

/// How many lines have the refused type `t`, and the name of the first.
fn tally<'r>(raw: &'r Vec<RawInfo>, t: RefusedType) -> (r: (usize, &'r str))
    ensures
        r.0 == refused_count(rows_of(raw@), t),
        r.0 > 0 ==> r.1@ == refused_example(rows_of(raw@), t),
{
    let ghost rows = rows_of(raw@);
    let mut count: usize = 0;
    let mut example: &'r str = "";
    let mut i: usize = 0;
    while i < raw.len()
        invariant
            rows == rows_of(raw@),
            i <= raw@.len(),
            count <= i,
            count == refused_count(rows.take(i as int), t),
            count > 0 ==> example@ == refused_example(rows.take(i as int), t),
        decreases raw.len() - i,
    {
        assert(rows.take(i as int + 1).drop_last() =~= rows.take(i as int));
        if let Err(u) = GgmlType::from_gguf(raw[i].id) {
            if u == t {
                if count == 0 {
                    example = raw[i].name.as_str();
                }
                count = count + 1;
            }
        }
        i = i + 1;
    }
    assert(rows.take(i as int) =~= rows);
    (count, example)
}

/// How many lines have a refused type.
fn tally_all(raw: &Vec<RawInfo>) -> (r: usize)
    ensures
        r == refused_total(rows_of(raw@)),
{
    let ghost rows = rows_of(raw@);
    let mut count: usize = 0;
    let mut i: usize = 0;
    while i < raw.len()
        invariant
            rows == rows_of(raw@),
            i <= raw@.len(),
            count <= i,
            count == refused_total(rows.take(i as int)),
        decreases raw.len() - i,
    {
        assert(rows.take(i as int + 1).drop_last() =~= rows.take(i as int));
        if let Err(_) = GgmlType::from_gguf(raw[i].id) {
            count = count + 1;
        }
        i = i + 1;
    }
    assert(rows.take(i as int) =~= rows);
    count
}

/// The refusal of a file with `total` tensors of unsupported types.
fn refusal_text(raw: &Vec<RawInfo>, total: usize) -> (r: String)
    requires
        total == refused_total(rows_of(raw@)),
    ensures
        r@ == refusal(rows_of(raw@)),
{
    let ghost rows = rows_of(raw@);
    let mut detail = String::new();
    let mut kinds: usize = 0;
    let mut k: usize = 0;
    while k < REFUSED_TYPES
        invariant
            rows == rows_of(raw@),
            k <= REFUSED_TYPES,
            kinds <= k,
            kinds == refused_kinds(rows, k as nat),
            detail@ == refused_detail(rows, k as nat),
        decreases REFUSED_TYPES - k,
    {
        let t = RefusedType::of_rank(k);
        let (count, example) = tally(raw, t);
        if count > 0 {
            if kinds > 0 {
                detail.append(", ");
            }
            let item = refused_text(t, count, example);
            detail.append(item.as_str());
            assert(item@ == refused_item(rows, t));
            kinds = kinds + 1;
        }
        k = k + 1;
    }
    let mut e = "this checkpoint uses ".to_owned();
    push_dec(&mut e, kinds as u64);
    e.append(" quantization type(s) lokal does not run, across ");
    push_dec(&mut e, total as u64);
    e.append(" of ");
    push_dec(&mut e, raw.len() as u64);
    e.append(" tensors: ");
    e.append(detail.as_str());
    e.append(". Re-download the model as Q4_K_M or Q8_0.");
    e
}

/// One refused type, its count and an example.
fn refused_text(t: RefusedType, count: usize, example: &str) -> (r: String)
    ensures
        r@ == t.label() + " ("@ + dec(count as nat) + (if count == 1 { " tensor"@ } else { " tensors"@ })
            + ", e.g. "@ + example@ + ")"@,
{
    let mut s = t.name().to_owned();
    s.append(" (");
    push_dec(&mut s, count as u64);
    s.append(if count == 1 { " tensor" } else { " tensors" });
    s.append(", e.g. ");
    s.append(example);
    s.append(")");
    s
}

/// The value of `key` in a list of entries.
fn lookup<'r>(kv: &'r Vec<Entry>, key: &str) -> (r: Option<&'r GgufValue>)
    ensures
        match r {
            Some(v) => meta_of(kv@).dom().contains(key@) && meta_of(kv@)[key@] == v@,
            None => !meta_of(kv@).dom().contains(key@),
        },
{
    let mut i: usize = kv.len();
    assert(kv@.take(i as int) =~= kv@);
    while i > 0
        invariant
            i <= kv@.len(),
            meta_of(kv@).dom().contains(key@) == meta_of(kv@.take(i as int)).dom().contains(key@),
            meta_of(kv@).dom().contains(key@) ==> meta_of(kv@)[key@] == meta_of(kv@.take(i as int))[key@],
        decreases i,
    {
        i = i - 1;
        assert(kv@.take(i as int + 1).drop_last() =~= kv@.take(i as int));
        if same(kv[i].key.as_str(), key) {
            return Some(&kv[i].val);
        }
    }
    None
}

/// Whether `n` is a power of two.
fn power_of_two(n: u64) -> (r: bool)
    ensures
        r == is_pow2(n as nat),
    decreases n,
{
    if n <= 1 {
        n == 1
    } else {
        n % 2 == 0 && power_of_two(n / 2)
    }
}

/// The alignment that the metadata asks for.
fn read_alignment(kv: &Vec<Entry>) -> (r: Result<u64, String>)
    ensures
        match r {
            Ok(a) => alignment(meta_of(kv@)) == Ok::<nat, Seq<char>>(a as nat) && a > 0,
            Err(e) => alignment(meta_of(kv@)) == Err::<nat, Seq<char>>(e@),
        },
{
    match lookup(kv, "general.alignment") {
        None => Ok(32),
        Some(v) => {
            if let GgufValue::U64(a) = v {
                if power_of_two(*a) {
                    return Ok(*a);
                }
            }
            let mut e = "general.alignment is invalid (".to_owned();
            e.append(v.kind());
            e.append(")");
            Err(e)
        },
    }
}

/// The first multiple of `a` from `p` on, if it fits in 64 bits.
fn align_up(p: u64, a: u64) -> (r: Option<u64>)
    requires
        a > 0,
    ensures
        match r {
            Some(x) => x == round_up(p as nat, a as nat),
            None => round_up(p as nat, a as nat) > u64::MAX,
        },
{
    let m: u64 = p % a;
    if m == 0 {
        Some(p)
    } else {
        p.checked_add(a - m)
    }
}

/// The product of the dimensions, if every step fits in 64 bits.
fn count_elems(ne: &Vec<u64>) -> (r: Option<u64>)
    ensures
        match r {
            Some(n) => product_fits(ne@) && n == product(ne@),
            None => !product_fits(ne@),
        },
{
    let mut n: u64 = 1;
    let mut i: usize = 0;
    assert(ne@.take(0) =~= Seq::<u64>::empty());
    while i < ne.len()
        invariant
            i <= ne@.len(),
            product_fits(ne@.take(i as int)),
            n == product(ne@.take(i as int)),
        decreases ne.len() - i,
    {
        assert(ne@.take(i as int + 1).drop_last() =~= ne@.take(i as int));
        match n.checked_mul(ne[i]) {
            Some(m) => { n = m; },
            None => {
                proof {
                    lemma_product_overflow(ne@, i as int + 1);
                }
                return None;
            },
        }
        i = i + 1;
    }
    assert(ne@.take(i as int) =~= ne@);
    Some(n)
}

/// The dimensions, slowest first.
fn reversed(ne: &Vec<u64>) -> (r: Vec<u64>)
    ensures
        r@ == ne@.reverse(),
{
    let mut v: Vec<u64> = Vec::new();
    let mut i: usize = ne.len();
    while i > 0
        invariant
            i <= ne@.len(),
            v@.len() == ne@.len() - i,
            forall|j: int| 0 <= j < v@.len() ==> #[trigger] v@[j] == ne@[ne@.len() - 1 - j],
        decreases i,
    {
        i = i - 1;
        v.push(ne[i]);
    }
    assert(v@ =~= ne@.reverse());
    v
}

/// Places one tensor in a file of `len` bytes.
fn place_row(raw: &RawInfo, ty: GgmlType, data_start: u64, len: usize) -> (r: Result<TensorInfo, String>)
    ensures
        match r {
            Ok(t) => place(raw@, ty, data_start as nat, len as nat) == Ok::<TensorView, Seq<char>>(t@),
            Err(e) => place(raw@, ty, data_start as nat, len as nat) == Err::<TensorView, Seq<char>>(e@),
        },
{
    let size: u64 = match count_elems(&raw.ne) {
        None => return Err(tensor_error(raw.name.as_str(), ": size overflow")),
        Some(n) => match ty.row_bytes(n) {
            None => return Err(tensor_error(raw.name.as_str(), ": size overflow")),
            Some(size) => size,
        },
    };
    let start: u64 = match data_start.checked_add(raw.offset) {
        None => return Err(tensor_error(raw.name.as_str(), ": offset overflow")),
        Some(start) => start,
    };
    if start > len as u64 || size > len as u64 - start {
        let mut e = tensor_error(raw.name.as_str(), ": ");
        push_dec(&mut e, size);
        e.append(" bytes at data offset ");
        push_dec(&mut e, raw.offset);
        e.append(" run past the file");
        return Err(e);
    }
    Ok(TensorInfo {
        name: raw.name.clone(),
        dims: reversed(&raw.ne),
        ty,
        start: start as usize,
        end: (start + size) as usize,
    })
}

/// The index of the tensor called `name`.
fn position(infos: &Vec<TensorInfo>, name: &str) -> (r: Option<usize>)
    ensures
        match r {
            Some(i) => i < infos@.len() && infos@[i as int]@.name == name@,
            None => !named(infos_of(infos@), name@),
        },
{
    let mut i: usize = 0;
    while i < infos.len()
        invariant
            i <= infos@.len(),
            forall|j: int| 0 <= j < i ==> (#[trigger] infos@[j])@.name != name@,
        decreases infos.len() - i,
    {
        if same(infos[i].name.as_str(), name) {
            return Some(i);
        }
        i = i + 1;
    }
    None
}

/// Places all tensors of a file of `len` bytes.
fn place_rows(raw: &Vec<RawInfo>, data_start: u64, len: usize) -> (r: Result<Vec<TensorInfo>, String>)
    requires
        refused_total(rows_of(raw@)) == 0,
    ensures
        match r {
            Ok(v) => tensors_of(rows_of(raw@), raw@.len(), data_start as nat, len as nat)
                == Ok::<Seq<TensorView>, Seq<char>>(infos_of(v@)),
            Err(e) => tensors_of(rows_of(raw@), raw@.len(), data_start as nat, len as nat)
                == Err::<Seq<TensorView>, Seq<char>>(e@),
        },
{
    let ghost rows = rows_of(raw@);
    let mut infos: Vec<TensorInfo> = Vec::new();
    let mut i: usize = 0;
    assert(infos_of(infos@) =~= Seq::<TensorView>::empty());
    while i < raw.len()
        invariant
            rows == rows_of(raw@),
            refused_total(rows) == 0,
            i <= raw@.len(),
            tensors_of(rows, i as nat, data_start as nat, len as nat) == Ok::<Seq<TensorView>, Seq<char>>(
                infos_of(infos@),
            ),
        decreases raw.len() - i,
    {
        let ghost before = infos_of(infos@);
        proof {
            lemma_none_refused(rows, i as int);
        }
        let ty = match GgmlType::from_gguf(raw[i].id) {
            Ok(ty) => ty,
            Err(_) => return Err(String::new()),
        };
        let t = match place_row(&raw[i], ty, data_start, len) {
            Ok(t) => t,
            Err(e) => {
                proof {
                    lemma_tensors_error(rows, (i + 1) as nat, rows.len(), data_start as nat, len as nat);
                }
                return Err(e);
            },
        };
        if let Some(at) = position(&infos, raw[i].name.as_str()) {
            assert(before[at as int].name == rows[i as int].name);
            proof {
                lemma_tensors_error(rows, (i + 1) as nat, rows.len(), data_start as nat, len as nat);
            }
            return Err(tensor_error(raw[i].name.as_str(), " appears twice"));
        }
        infos.push(t);
        assert(infos_of(infos@) =~= before.push(t@));
        i = i + 1;
    }
    Ok(infos)
}

/// Reads the fixed part of a file.
fn read_header(path: &str, rd: &mut Rd) -> (r: Result<(u32, u64, u64), String>)
    requires
        old(rd).p == 0,
    ensures
        final(rd).yields(*old(rd), header_at(path@, old(rd).b@),
            match r { Ok((v, t, k)) => Ok((v as nat, t as nat, k as nat)), Err(e) => Err(e@) }),
        r matches Ok((v, _, _)) ==> v == 2 || v == 3,
{
    let head = match rd.take(4) {
        Err(e) => return Err(e),
        Ok(s) => s,
    };
    if head[0] != 0x47 || head[1] != 0x47 || head[2] != 0x55 || head[3] != 0x46 {
        assert(head@ != magic());
        let mut e = path.to_owned();
        e.append(" is not a GGUF file (bad magic)");
        return Err(e);
    }
    assert(head@ =~= magic());
    let version: u32 = match rd.u32() {
        Err(e) => return Err(e),
        Ok(x) => x,
    };
    if version == 0x0200_0000 || version == 0x0300_0000 {
        return Err("big-endian GGUF files are not supported — re-export little-endian".to_owned());
    }
    if version != 2 && version != 3 {
        let mut e = "GGUF version ".to_owned();
        push_dec(&mut e, version as u64);
        e.append(" unsupported (v2 and v3 only)");
        return Err(e);
    }
    let n_tensors: u64 = match rd.u64() {
        Err(e) => return Err(e),
        Ok(x) => x,
    };
    match rd.u64() {
        Err(e) => Err(e),
        Ok(n_kv) => Ok((version, n_tensors, n_kv)),
    }
}

impl<'a> GgufFile<'a> {
    #[verifier::type_invariant]
    closed spec fn inv(&self) -> bool {
        file_ok(self@)
    }

    /// Parses the bytes of the file at `path`.
    pub fn open(path: &str, data: &'a [u8]) -> (r: Result<GgufFile<'a>, String>)
        ensures
            match r {
                Ok(f) => parse(path@, data@) == Ok::<FileView, Seq<char>>(f@) && file_ok(f@),
                Err(e) => parse(path@, data@) == Err::<FileView, Seq<char>>(e@),
            },
    {
        let mut rd = Rd { b: data, p: 0 };
        let (version, n_tensors, n_kv) = match read_header(path, &mut rd) {
            Err(e) => return Err(e),
            Ok(h) => h,
        };
        let kv = match read_meta(&mut rd, n_kv) {
            Err(e) => return Err(e),
            Ok(v) => v,
        };
        let ghost q = rd.p as nat;
        let raw = match read_rows(&mut rd, n_tensors) {
            Err(e) => return Err(e),
            Ok(v) => v,
        };
        proof {
            lemma_rows_ok(data@, q, n_tensors as nat);
        }
        GgufFile::assemble(data, version, kv, raw, rd.p)
    }

    /// Builds the file from its header, whose end is at `p`.
    fn assemble(data: &'a [u8], version: u32, kv: Vec<Entry>, raw: Vec<RawInfo>, p: usize) -> (r: Result<
        GgufFile<'a>,
        String,
    >)
        requires
            version == 2 || version == 3,
            forall|i: int| 0 <= i < raw@.len() ==> row_ok(#[trigger] rows_of(raw@)[i]),
        ensures
            ({
                let want = assemble(data@, version as nat, meta_of(kv@), rows_of(raw@), p as nat);
                match r {
                    Ok(f) => want == Ok::<FileView, Seq<char>>(f@) && file_ok(f@),
                    Err(e) => want == Err::<FileView, Seq<char>>(e@),
                }
            }),
    {
        let total: usize = tally_all(&raw);
        if total > 0 {
            return Err(refusal_text(&raw, total));
        }
        let align: u64 = match read_alignment(&kv) {
            Err(e) => return Err(e),
            Ok(a) => a,
        };
        let data_start: u64 = match align_up(p as u64, align) {
            None => return Err("GGUF data section: offset overflow".to_owned()),
            Some(x) => x,
        };
        match place_rows(&raw, data_start, data.len()) {
            Err(e) => Err(e),
            Ok(infos) => {
                proof {
                    lemma_assembled_ok(data@, version as nat, meta_of(kv@), rows_of(raw@), p as nat);
                }
                Ok(GgufFile { data, version, kv, infos, data_start })
            },
        }
    }

    pub fn n_tensors(&self) -> (r: usize)
        ensures
            r == self@.tensors.len(),
    {
        self.infos.len()
    }

    /// The tensor at index `i` of the table, over its bytes.
    pub fn tensor_at(&self, i: usize) -> (r: GgufTensor<'a>)
        requires
            i < self@.tensors.len(),
        ensures
            r.is_of(self@, i as int),
    {
        proof {
            use_type_invariant(self);
            assert(tensor_ok(self@.tensors[i as int], self@.data_start, self@.bytes.len()));
        }
        let t = &self.infos[i];
        GgufTensor {
            name: t.name.clone(),
            dims: copy_dims(&t.dims),
            ty: t.ty,
            data: vstd::slice::slice_subrange(self.data, t.start, t.end),
        }
    }

    /// All tensors, in the order of the table.
    pub fn tensors(&self) -> (r: Vec<GgufTensor<'a>>)
        ensures
            r@.len() == self@.tensors.len(),
            forall|i: int| 0 <= i < r@.len() ==> (#[trigger] r@[i]).is_of(self@, i),
    {
        let mut out: Vec<GgufTensor<'a>> = Vec::new();
        let mut i: usize = 0;
        while i < self.infos.len()
            invariant
                i <= self@.tensors.len(),
                self@.tensors.len() == self.infos@.len(),
                out@.len() == i,
                forall|j: int| 0 <= j < i ==> (#[trigger] out@[j]).is_of(self@, j),
            decreases self.infos.len() - i,
        {
            out.push(self.tensor_at(i));
            i = i + 1;
        }
        out
    }

    /// The tensor called `name`.
    pub fn tensor(&self, name: &str) -> (r: Result<GgufTensor<'a>, String>)
        ensures
            match r {
                Ok(t) => t.name@ == name@ && exists|i: int|
                    0 <= i < self@.tensors.len() && #[trigger] t.is_of(self@, i),
                Err(e) => !named(self@.tensors, name@) && e@ == "tensor "@ + name@ + " not in the GGUF file"@,
            },
    {
        match position(&self.infos, name) {
            Some(i) => {
                let t = self.tensor_at(i);
                assert(t.is_of(self@, i as int));
                Ok(t)
            },
            None => Err(tensor_error(name, " not in the GGUF file")),
        }
    }

    // -- typed metadata accessors; errors name the key and what was found --

    fn kv(&self, key: &str) -> (r: Result<&GgufValue, String>)
        ensures
            match r {
                Ok(v) => meta_get(self@.meta, key@) == Ok::<MetaValue, Seq<char>>(v@),
                Err(e) => meta_get(self@.meta, key@) == Err::<MetaValue, Seq<char>>(e@),
            },
    {
        match lookup(&self.kv, key) {
            Some(v) => Ok(v),
            None => {
                let mut e = "GGUF metadata key ".to_owned();
                e.append(key);
                e.append(" is missing");
                Err(e)
            },
        }
    }

    pub fn get_usize(&self, key: &str) -> (r: Result<usize, String>)
        ensures
            match r {
                Ok(x) => usize_of(self@.meta, key@) == Ok::<nat, Seq<char>>(x as nat),
                Err(e) => usize_of(self@.meta, key@) == Err::<nat, Seq<char>>(e@),
            },
    {
        let v = match self.kv(key) {
            Err(e) => return Err(e),
            Ok(v) => v,
        };
        match v {
            GgufValue::U64(x) => if *x <= usize::MAX as u64 {
                return Ok(*x as usize);
            },
            GgufValue::I64(x) => if *x >= 0 && *x as u64 <= usize::MAX as u64 {
                return Ok(*x as usize);
            },
            _ => {},
        }
        Err(kind_text(key, v, "an integer"))
    }

    pub fn get_f32(&self, key: &str) -> (r: Result<FloatBits, String>)
        ensures
            match r {
                Ok(x) => float_of(self@.meta, key@) == Ok::<FloatBits, Seq<char>>(x),
                Err(e) => float_of(self@.meta, key@) == Err::<FloatBits, Seq<char>>(e@),
            },
    {
        match self.kv(key) {
            Err(e) => Err(e),
            Ok(GgufValue::F64(x)) => Ok(*x),
            Ok(v) => Err(kind_text(key, v, "a float")),
        }
    }

    pub fn get_str(&self, key: &str) -> (r: Result<&str, String>)
        ensures
            match r {
                Ok(x) => str_of(self@.meta, key@) == Ok::<Seq<char>, Seq<char>>(x@),
                Err(e) => str_of(self@.meta, key@) == Err::<Seq<char>, Seq<char>>(e@),
            },
    {
        match self.kv(key) {
            Err(e) => Err(e),
            Ok(GgufValue::Str(x)) => Ok(x.as_str()),
            Ok(v) => Err(kind_text(key, v, "a string")),
        }
    }

    pub fn get_arr_str(&self, key: &str) -> (r: Result<&[String], String>)
        ensures
            match r {
                Ok(x) => strs_of(self@.meta, key@) == Ok::<Seq<Seq<char>>, Seq<char>>(texts(x@)),
                Err(e) => strs_of(self@.meta, key@) == Err::<Seq<Seq<char>>, Seq<char>>(e@),
            },
    {
        match self.kv(key) {
            Err(e) => Err(e),
            Ok(GgufValue::ArrStr(x)) => Ok(x.as_slice()),
            Ok(v) => Err(kind_text(key, v, "a string array")),
        }
    }

    pub fn get_arr_i64(&self, key: &str) -> (r: Result<&[i64], String>)
        ensures
            match r {
                Ok(x) => ints_of(self@.meta, key@) == Ok::<Seq<i64>, Seq<char>>(x@),
                Err(e) => ints_of(self@.meta, key@) == Err::<Seq<i64>, Seq<char>>(e@),
            },
    {
        match self.kv(key) {
            Err(e) => Err(e),
            Ok(GgufValue::ArrI64(x)) => Ok(x.as_slice()),
            Ok(v) => Err(kind_text(key, v, "an int array")),
        }
    }

    pub fn has_key(&self, key: &str) -> (r: bool)
        ensures
            r == self@.meta.dom().contains(key@),
    {
        lookup(&self.kv, key).is_some()
    }
}

fn copy_dims(v: &Vec<u64>) -> (r: Vec<u64>)
    ensures
        r@ == v@,
{
    let mut out: Vec<u64> = Vec::new();
    out.extend_from_slice(v.as_slice());
    assert(out@ =~= v@);
    out
}

fn kind_text(key: &str, v: &GgufValue, want: &str) -> (r: String)
    ensures
        r@ == wrong_kind(key@, v@, want@),
{
    let mut e = "GGUF key ".to_owned();
    e.append(key);
    e.append(" is a ");
    e.append(v.kind());
    e.append(", expected ");
    e.append(want);
    e
}

// ---------- accounting ----------

/// Every tensor expanded to f32, summed, where the sum fits in a machine word.
pub fn checked_expanded_f32_bytes(g: &GgufFile) -> (r: Option<usize>)
    ensures
        match r {
            Some(n) => n == expanded_bytes(g@.tensors, g@.tensors.len()),
            None => expanded_bytes(g@.tensors, g@.tensors.len()) > usize::MAX,
        },
{
    let ghost ts = g@.tensors;
    let mut sum: usize = 0;
    let mut i: usize = 0;
    while i < g.infos.len()
        invariant
            ts == g@.tensors,
            ts.len() == g.infos@.len(),
            i <= ts.len(),
            sum == expanded_bytes(ts, i as nat),
        decreases g.infos.len() - i,
    {
        proof {
            lemma_expanded_monotone(ts, (i + 1) as nat, ts.len());
            assert(ts[i as int].dims == g.infos@[i as int].dims@);
        }
        let bytes: u64 = match elems_of(&g.infos[i].dims) {
            None => return None,
            Some(n) => match n.checked_mul(4) {
                None => return None,
                Some(b) => b,
            },
        };
        if bytes > usize::MAX as u64 {
            return None;
        }
        match sum.checked_add(bytes as usize) {
            None => return None,
            Some(s) => { sum = s; },
        }
        i = i + 1;
    }
    Some(sum)
}

/// The product of the dimensions, if it fits in 64 bits.
fn elems_of(dims: &Vec<u64>) -> (r: Option<u64>)
    ensures
        match r {
            Some(n) => n == product(dims@),
            None => product(dims@) > u64::MAX,
        },
{
    let mut i: usize = 0;
    while i < dims.len()
        invariant
            i <= dims@.len(),
            forall|j: int| 0 <= j < i ==> #[trigger] dims@[j] > 0,
        decreases dims.len() - i,
    {
        if dims[i] == 0 {
            proof {
                assert(dims@.take(i as int + 1).drop_last() =~= dims@.take(i as int));
                assert(product(dims@.take(i as int + 1)) == product(dims@.take(i as int)) * 0);
                lemma_product_zero(dims@, i as int + 1);
            }
            return Some(0);
        }
        i = i + 1;
    }
    match count_elems(dims) {
        Some(n) => Some(n),
        None => {
            proof {
                lemma_product_exceeds(dims@);
            }
            None
        },
    }
}

/// Every tensor expanded to f32, summed: what a file costs on a backend that
/// holds all its weights in f32.
pub fn expanded_f32_bytes(g: &GgufFile) -> (r: usize)
    requires
        expanded_bytes(g@.tensors, g@.tensors.len()) <= usize::MAX,
    ensures
        r == expanded_bytes(g@.tensors, g@.tensors.len()),
{
    match checked_expanded_f32_bytes(g) {
        Some(n) => n,
        None => 0,
    }
}

/// The bytes of the file that hold tensor data, where their sum fits in a
/// machine word.
pub fn checked_quant_bytes(g: &GgufFile) -> (r: Option<usize>)
    ensures
        match r {
            Some(n) => n == stored_bytes(g@.tensors, g@.tensors.len()),
            None => stored_bytes(g@.tensors, g@.tensors.len()) > usize::MAX,
        },
{
    proof {
        use_type_invariant(g);
    }
    let ghost ts = g@.tensors;
    let mut sum: usize = 0;
    let mut i: usize = 0;
    while i < g.infos.len()
        invariant
            file_ok(g@),
            ts == g@.tensors,
            ts.len() == g.infos@.len(),
            i <= ts.len(),
            sum == stored_bytes(ts, i as nat),
        decreases g.infos.len() - i,
    {
        proof {
            lemma_stored_monotone(g@, (i + 1) as nat, ts.len());
            assert(tensor_ok(ts[i as int], g@.data_start, g@.bytes.len()));
        }
        match sum.checked_add(g.infos[i].end - g.infos[i].start) {
            None => return None,
            Some(s) => { sum = s; },
        }
        i = i + 1;
    }
    Some(sum)
}

/// The bytes of the file that hold tensor data.
pub fn quant_bytes(g: &GgufFile) -> (r: usize)
    requires
        stored_bytes(g@.tensors, g@.tensors.len()) <= usize::MAX,
    ensures
        r == stored_bytes(g@.tensors, g@.tensors.len()),
{
    match checked_quant_bytes(g) {
        Some(n) => n,
        None => 0,
    }
}

/// The numerals of the dimensions.
fn dim_texts(dims: &Vec<u64>) -> (r: Vec<String>)
    ensures
        texts(r@) == Seq::new(dims@.len(), |i: int| dec(dims@[i] as nat)),
{
    let mut out: Vec<String> = Vec::new();
    let mut i: usize = 0;
    while i < dims.len()
        invariant
            i <= dims@.len(),
            out@.len() == i,
            forall|j: int| 0 <= j < i ==> (#[trigger] out@[j])@ == dec(dims@[j] as nat),
        decreases dims.len() - i,
    {
        out.push(dec_text(dims[i]));
        i = i + 1;
    }
    assert(texts(out@) =~= Seq::new(dims@.len(), |i: int| dec(dims@[i] as nat)));
    out
}

fn line_text(t: &TensorInfo, data_start: u64) -> (r: String)
    requires
        data_start <= t.start <= t.end,
    ensures
        r@ == tsv_line(t@, data_start as nat),
{
    let mut s = t.name.clone();
    s.append("\t");
    s.append(join_texts(&dim_texts(&t.dims), "x").as_str());
    s.append("\t");
    s.append(t.ty.name());
    s.append("\t");
    push_dec(&mut s, (t.end - t.start) as u64);
    s.append("\t");
    push_dec(&mut s, t.start as u64 - data_start);
    s.append("\n");
    s
}

fn count_type(g: &GgufFile, ty: GgmlType) -> (r: usize)
    ensures
        r == type_count(g@.tensors, ty, g@.tensors.len()),
{
    let ghost ts = g@.tensors;
    let mut n: usize = 0;
    let mut i: usize = 0;
    while i < g.infos.len()
        invariant
            ts == g@.tensors,
            ts.len() == g.infos@.len(),
            i <= ts.len(),
            n <= i,
            n == type_count(ts, ty, i as nat),
        decreases g.infos.len() - i,
    {
        assert(ts[i as int].ty == g.infos@[i as int].ty);
        if g.infos[i].ty == ty {
            n = n + 1;
        }
        i = i + 1;
    }
    n
}

/// Physical memory: what the setting assumes, in units of 2^20 bytes; else what
/// was measured; else 16 times 2^30, so that a failed measurement refuses no
/// load.
pub open spec fn ram_bytes(setting: Option<Seq<char>>, measured: Option<u64>) -> u64 {
    let assumed = match setting {
        Some(s) => parse_number(s, usize::MAX as nat),
        None => None,
    };
    match assumed {
        Some(mb) => (mb as u64) << 20u64,
        None => match measured {
            Some(v) if v > 0 => v,
            _ => 17_179_869_184,
        },
    }
}

pub fn phys_ram_bytes(setting: Option<&str>, measured: Option<u64>) -> (r: u64)
    ensures
        r == ram_bytes(match setting { Some(s) => Some(s@), None => None }, measured),
{
    let assumed: Option<usize> = match setting {
        Some(s) => parse_usize(chars_of(s).as_slice()),
        None => None,
    };
    match assumed {
        Some(mb) => (mb as u64) << 20u64,
        None => match measured {
            Some(v) if v > 0 => v,
            _ => 17_179_869_184,
        },
    }
}

/// One line on the file: its version, how many tensors it has, and how many of
/// each type.
pub fn summary(g: &GgufFile) -> (r: String)
    ensures
        exists|parts: Seq<Seq<char>>|
            {
                &&& sorted_texts(parts)
                &&& parts.to_multiset() == type_items(g@.tensors, SUPPORTED_TYPES as nat).to_multiset()
                &&& r@ == "GGUF v"@ + dec(g@.version) + ": "@ + dec(g@.tensors.len()) + " tensors ("@
                    + #[trigger] join(parts, ", "@) + ")"@
            },
{
    let ghost ts = g@.tensors;
    let mut items: Vec<String> = Vec::new();
    let mut k: usize = 0;
    assert(texts(items@) =~= type_items(ts, 0));
    while k < SUPPORTED_TYPES
        invariant
            ts == g@.tensors,
            k <= SUPPORTED_TYPES,
            texts(items@) == type_items(ts, k as nat),
        decreases SUPPORTED_TYPES - k,
    {
        let ty = GgmlType::of_rank(k);
        let n: usize = count_type(g, ty);
        if n > 0 {
            let ghost before = texts(items@);
            let mut s = dec_text(n as u64);
            s.append(" ");
            s.append(ty.name());
            items.push(s);
            assert(texts(items@) =~= before.push(s@));
        }
        k = k + 1;
    }
    let parts = sort_strings(items);
    let mut out = "GGUF v".to_owned();
    push_dec(&mut out, g.version as u64);
    out.append(": ");
    push_dec(&mut out, g.infos.len() as u64);
    out.append(" tensors (");
    out.append(join_texts(&parts, ", ").as_str());
    out.append(")");
    proof {
        let p = texts(parts@);
        assert(join(p, ", "@) == join(texts(parts@), ", "@));
    }
    out
}

impl<'a> GgufFile<'a> {
    /// One line per tensor: name, row-major shape, type, size, and offset in
    /// the data section, separated by tabs.
    pub fn dump_tsv(&self) -> (r: String)
        ensures
            r@ == tsv(self@, self@.tensors.len()),
    {
        proof {
            use_type_invariant(self);
        }
        let mut out = String::new();
        let mut i: usize = 0;
        while i < self.infos.len()
            invariant
                file_ok(self@),
                self@.tensors.len() == self.infos@.len(),
                i <= self.infos@.len(),
                out@ == tsv(self@, i as nat),
            decreases self.infos.len() - i,
        {
            proof {
                assert(tensor_ok(self@.tensors[i as int], self@.data_start, self@.bytes.len()));
                assert(self@.tensors[i as int] == self.infos@[i as int]@);
            }
            out.append(line_text(&self.infos[i], self.data_start).as_str());
            i = i + 1;
        }
        out
    }
}

} // verus!
