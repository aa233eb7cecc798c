//! Model specs and graph directories: what a spec names in a repository, which
//! file of a repository a tag names, and where a model's graphs live.
use vstd::prelude::*;
use vstd::string::*;

use crate::text::{
    chars_of, ends, find, has, join, join_texts, occurs, same, spells, split_once, starts, text_of, texts,
};

verus! {

// ---------- the path hash ----------

/// The 64-bit FNV-1a hash of `data`.
pub open spec fn fnv1a(data: Seq<u8>) -> u64
    decreases data.len(),
{
    if data.len() == 0 {
        0xcbf2_9ce4_8422_2325
    } else {
        (((fnv1a(data.drop_last()) ^ data.last() as u64) * 0x100_0000_01b3) % 0x1_0000_0000_0000_0000) as u64
    }
}

/// A lower-case hexadecimal digit.
pub open spec fn hex_digit(d: nat) -> char {
    if d < 10 {
        (48 + d) as u8 as char
    } else {
        (87 + d) as u8 as char
    }
}

/// The last `n` hexadecimal digits of `x`.
pub open spec fn hex(x: nat, n: nat) -> Seq<char>
    decreases n,
{
    if n == 0 {
        Seq::empty()
    } else {
        hex(x / 16, (n - 1) as nat).push(hex_digit(x % 16))
    }
}

fn push_hex(out: &mut String, x: u64, n: u32)
    ensures
        final(out)@ == old(out)@ + hex(x as nat, n as nat),
    decreases n,
{
    if n > 0 {
        push_hex(out, x / 16, n - 1);
        let d: u8 = (x % 16) as u8;
        out.push(if d < 10 { (48 + d) as char } else { (87 + d) as char });
    }
    assert(out@ =~= old(out)@ + hex(x as nat, n as nat));
}

/// The low 32 bits of the FNV-1a hash of `data`, as eight hexadecimal digits: a
/// stable name, the same on every machine and in every release.
pub fn path_hash_hex(data: &[u8]) -> (r: String)
    ensures
        r@ == hex(fnv1a(data@) as nat, 8),
{
    let mut h: u64 = 0xcbf2_9ce4_8422_2325;
    let mut i: usize = 0;
    assert(data@.take(0) =~= Seq::<u8>::empty());
    while i < data.len()
        invariant
            i <= data@.len(),
            h == fnv1a(data@.take(i as int)),
        decreases data.len() - i,
    {
        assert(data@.take(i as int + 1).drop_last() =~= data@.take(i as int));
        h = (h ^ data[i] as u64).wrapping_mul(0x100_0000_01b3);
        i = i + 1;
    }
    assert(data@.take(i as int) =~= data@);
    let mut out = String::new();
    push_hex(&mut out, h, 8);
    assert(Seq::<char>::empty() + hex(h as nat, 8) =~= hex(h as nat, 8));
    out
}

// ---------- paths ----------

/// The pieces of `s` between slashes.
pub open spec fn pieces(s: Seq<char>) -> Seq<Seq<char>>
    decreases s.len(),
{
    if s.len() == 0 {
        seq![Seq::empty()]
    } else {
        let before = pieces(s.drop_last());
        if s.last() == '/' {
            before.push(Seq::empty())
        } else {
            before.drop_last().push(before.last().push(s.last()))
        }
    }
}

/// A piece that names something: neither empty nor the current directory.
pub open spec fn is_step(p: Seq<char>) -> bool {
    p.len() > 0 && p != "."@
}

/// The steps of a path: its pieces that name something.
pub open spec fn steps(s: Seq<char>) -> Seq<Seq<char>> {
    pieces(s).filter(|p: Seq<char>| is_step(p))
}

/// The name of the directory `up` levels above the path's last step, `None`
/// where there is none or it is a parent reference.
pub open spec fn name_at(path: Seq<char>, up: int) -> Option<Seq<char>> {
    let st = steps(path);
    if st.len() <= up || st[st.len() - 1 - up] == ".."@ {
        None
    } else {
        Some(st[st.len() - 1 - up])
    }
}

proof fn lemma_pieces_nonempty(s: Seq<char>)
    ensures
        pieces(s).len() > 0,
    decreases s.len(),
{
    if s.len() > 0 {
        lemma_pieces_nonempty(s.drop_last());
    }
}

fn split_pieces(v: &Vec<char>) -> (r: Vec<Vec<char>>)
    ensures
        r@.len() == pieces(v@).len(),
        forall|i: int| 0 <= i < r@.len() ==> (#[trigger] r@[i])@ == pieces(v@)[i],
{
    let mut done: Vec<Vec<char>> = Vec::new();
    let mut cur: Vec<char> = Vec::new();
    let mut i: usize = 0;
    assert(v@.take(0) =~= Seq::<char>::empty());
    assert(cur@ =~= Seq::<char>::empty());
    while i < v.len()
        invariant
            i <= v@.len(),
            done@.len() + 1 == pieces(v@.take(i as int)).len(),
            forall|j: int| 0 <= j < done@.len() ==> (#[trigger] done@[j])@ == pieces(v@.take(i as int))[j],
            cur@ == pieces(v@.take(i as int)).last(),
        decreases v.len() - i,
    {
        assert(v@.take(i as int + 1).drop_last() =~= v@.take(i as int));
        proof {
            lemma_pieces_nonempty(v@.take(i as int));
        }
        if v[i] == '/' {
            done.push(cur);
            cur = Vec::new();
            assert(cur@ =~= Seq::<char>::empty());
        } else {
            cur.push(v[i]);
        }
        i = i + 1;
    }
    assert(v@.take(i as int) =~= v@);
    done.push(cur);
    done
}

/// The views of a list of lists.
pub open spec fn views(v: Seq<Vec<char>>) -> Seq<Seq<char>> {
    Seq::new(v.len(), |i: int| v[i]@)
}

fn split_steps(path: &str) -> (r: Vec<Vec<char>>)
    ensures
        views(r@) == steps(path@),
{
    let v = chars_of(path);
    let all = split_pieces(&v);
    let ghost ps = pieces(path@);
    let ghost keep = |p: Seq<char>| is_step(p);
    assert(views(all@) =~= ps);
    let mut out: Vec<Vec<char>> = Vec::new();
    let mut i: usize = 0;
    assert(ps.take(0) =~= Seq::<Seq<char>>::empty());
    assert(views(out@) =~= ps.take(0).filter(keep));
    while i < all.len()
        invariant
            keep == (|p: Seq<char>| is_step(p)),
            views(all@) == ps,
            i <= all@.len(),
            views(out@) == ps.take(i as int).filter(keep),
        decreases all.len() - i,
    {
        proof {
            assert(ps[i as int] == all@[i as int]@);
            assert(ps.take(i as int + 1) =~= ps.take(i as int).push(ps[i as int]));
            ps.take(i as int).lemma_filter_push(ps[i as int], keep);
        }
        if all[i].len() > 0 && !spells(all[i].as_slice(), ".") {
            let ghost before = views(out@);
            let mut copy: Vec<char> = Vec::new();
            copy.extend_from_slice(all[i].as_slice());
            assert(copy@ =~= all@[i as int]@);
            out.push(copy);
            assert(views(out@) =~= before.push(all@[i as int]@));
        }
        i = i + 1;
    }
    assert(ps.take(i as int) =~= ps);
    out
}

/// The step `up` levels above the last, as a name.
fn step_name(st: &Vec<Vec<char>>, up: usize, Ghost(path): Ghost<Seq<char>>) -> (r: Option<String>)
    requires
        views(st@) == steps(path),
    ensures
        match r {
            Some(s) => name_at(path, up as int) == Some(s@),
            None => name_at(path, up as int) is None,
        },
{
    if st.len() <= up {
        return None;
    }
    let at: usize = st.len() - 1 - up;
    assert(steps(path)[at as int] == st@[at as int]@);
    if spells(st[at].as_slice(), "..") {
        return None;
    }
    Some(text_of(st[at].as_slice()))
}

/// `base` with `leaf` below it.
pub open spec fn below(base: Seq<char>, leaf: Seq<char>) -> Seq<char> {
    if base.len() == 0 || base.last() == '/' {
        base + leaf
    } else {
        base + "/"@ + leaf
    }
}

fn join_path(base: &str, leaf: &str) -> (r: String)
    ensures
        r@ == below(base@, leaf@),
{
    let v = chars_of(base);
    let mut s = base.to_owned();
    if v.len() > 0 && v[v.len() - 1] != '/' {
        s.append("/");
    }
    s.append(leaf);
    s
}

// ---------- graph directories ----------

/// Where a model's graphs live.
#[derive(Debug, Clone)]
pub struct GraphLocation {
    /// The graph directory. Not necessarily created yet.
    pub dir: String,
    /// `owner/name` for a model of the Hub, the path for a local one.
    pub model: String,
    /// The snapshot that the model resolved to, for a model of the Hub.
    pub revision: Option<String>,
}

/// `s` from `i` on with the first `--` replaced by `/`.
pub open spec fn slash_first(s: Seq<char>, i: int) -> Seq<char>
    decreases s.len() - i,
{
    if i < 0 || i + 2 > s.len() {
        s
    } else if s[i] == '-' && s[i + 1] == '-' {
        s.take(i) + "/"@ + s.skip(i + 2)
    } else {
        slash_first(s, i + 1)
    }
}

/// The repository directory and the revision of a Hub snapshot: a path of the
/// shape `models--<owner>--<name>/snapshots/<revision>`.
pub open spec fn hub_snapshot(path: Seq<char>) -> Option<(Seq<char>, Seq<char>)> {
    match (name_at(path, 0), name_at(path, 1), name_at(path, 2)) {
        (Some(rev), Some(snapshots), Some(repo)) => if snapshots == "snapshots"@ && "models--"@.is_prefix_of(repo) {
            Some((repo.skip("models--"@.len() as int), rev))
        } else {
            None
        },
        _ => None,
    }
}

/// The directory name of a local model: its own name and the hash of its path.
pub open spec fn local_slug(path: Seq<char>) -> Seq<char> {
    (match name_at(path, 0) {
        Some(n) => n,
        None => "model"@,
    }) + "-"@ + hex(fnv1a(vstd::utf8::encode_utf8(path)) as nat, 8)
}

/// The directory name of the model at `path`.
pub open spec fn slug(path: Seq<char>) -> Seq<char> {
    match hub_snapshot(path) {
        Some((repo, _)) => repo,
        None => local_slug(path),
    }
}

/// What messages call the model at `path`.
pub open spec fn model_label(path: Seq<char>) -> Seq<char> {
    match hub_snapshot(path) {
        Some((repo, _)) => slash_first(repo, 0),
        None => path,
    }
}

/// The optional text of a setting, where it is set and not empty.
pub open spec fn setting(s: Option<Seq<char>>) -> Option<Seq<char>> {
    match s {
        Some(t) => if t.len() > 0 { Some(t) } else { None },
        None => None,
    }
}

/// The view of an optional string.
pub open spec fn opt(s: Option<&str>) -> Option<Seq<char>> {
    match s {
        Some(t) => Some(t@),
        None => None,
    }
}

/// The parent of every model's graph directory.
pub open spec fn cache_base(xdg: Option<Seq<char>>, home: Option<Seq<char>>) -> Seq<char> {
    let root = match setting(xdg) {
        Some(x) => x,
        None => below(match home { Some(h) => h, None => Seq::empty() }, ".cache"@),
    };
    below(below(root, "lokal"@), "coreml"@)
}

fn replace_first(v: &Vec<char>) -> (r: String)
    ensures
        r@ == slash_first(v@, 0),
{
    let n: usize = v.len();
    let mut i: usize = 0;
    while n >= 2 && i <= n - 2
        invariant
            n == v@.len(),
            i <= n,
            slash_first(v@, i as int) == slash_first(v@, 0),
        decreases n - i,
    {
        if v[i] == '-' && v[i + 1] == '-' {
            let head = vstd::slice::slice_subrange(v.as_slice(), 0, i);
            let tail = vstd::slice::slice_subrange(v.as_slice(), i + 2, n);
            assert(head@ =~= v@.take(i as int));
            assert(tail@ =~= v@.skip(i + 2));
            let mut s = text_of(head);
            s.append("/");
            s.append(text_of(tail).as_str());
            return s;
        }
        i = i + 1;
    }
    text_of(v.as_slice())
}

/// `${XDG_CACHE_HOME:-~/.cache}/lokal/coreml`, from the values of the two
/// settings.
pub fn graph_cache_base(xdg: Option<&str>, home: Option<&str>) -> (r: String)
    ensures
        r@ == cache_base(opt(xdg), opt(home)),
{
    let root = match xdg {
        Some(x) => if x.is_empty() { default_root(home) } else { x.to_owned() },
        None => default_root(home),
    };
    join_path(join_path(root.as_str(), "lokal").as_str(), "coreml")
}

fn default_root(home: Option<&str>) -> (r: String)
    ensures
        r@ == below(match opt(home) { Some(h) => h, None => Seq::empty() }, ".cache"@),
{
    match home {
        Some(h) => join_path(h, ".cache"),
        None => join_path(String::new().as_str(), ".cache"),
    }
}

/// Where the graphs of the model at `path` live: in the directory `graph_dir`
/// where that is set, else in the model's own directory below `base`.
pub fn graph_location(path: &str, graph_dir: Option<&str>, base: &str) -> (r: GraphLocation)
    ensures
        r.dir@ == (match setting(opt(graph_dir)) {
            Some(d) => d,
            None => below(base@, slug(path@)),
        }),
        r.model@ == model_label(path@),
        match r.revision {
            Some(rev) => hub_snapshot(path@) matches Some((_, want)) && rev@ == want,
            None => hub_snapshot(path@) is None,
        },
{
    let (slug, model, revision) = match snapshot_parts(path) {
        Some((repo, rev)) => {
            let v = chars_of(repo.as_str());
            let model = replace_first(&v);
            (repo, model, Some(rev))
        },
        None => (local_name(path), path.to_owned(), None),
    };
    let dir = match graph_dir {
        Some(d) => if d.is_empty() { join_path(base, slug.as_str()) } else { d.to_owned() },
        None => join_path(base, slug.as_str()),
    };
    GraphLocation { dir, model, revision }
}

fn local_name(path: &str) -> (r: String)
    ensures
        r@ == local_slug(path@),
{
    let st = split_steps(path);
    let mut s = match step_name(&st, 0, Ghost(path@)) {
        Some(n) => n,
        None => "model".to_owned(),
    };
    s.append("-");
    s.append(path_hash_hex(path.as_bytes()).as_str());
    s
}

fn snapshot_parts(path: &str) -> (r: Option<(String, String)>)
    ensures
        match r {
            Some((repo, rev)) => hub_snapshot(path@) == Some((repo@, rev@)),
            None => hub_snapshot(path@) is None,
        },
{
    let st = split_steps(path);
    let rev = match step_name(&st, 0, Ghost(path@)) {
        None => return None,
        Some(s) => s,
    };
    let snapshots = match step_name(&st, 1, Ghost(path@)) {
        None => return None,
        Some(s) => s,
    };
    let repo = match step_name(&st, 2, Ghost(path@)) {
        None => return None,
        Some(s) => s,
    };
    let name = chars_of(repo.as_str());
    let prefix = chars_of("models--");
    if same(snapshots.as_str(), "snapshots") && starts(name.as_slice(), prefix.as_slice()) {
        let rest = vstd::slice::slice_subrange(name.as_slice(), prefix.len(), name.len());
        assert(rest@ =~= repo@.skip(prefix@.len() as int));
        Some((text_of(rest), rev))
    } else {
        None
    }
}

// ---------- model specs ----------

/// What a model spec that is no local path names.
#[derive(Debug, Clone)]
pub enum ModelSpec {
    /// A repository of weights.
    Repo(String, String),
    /// One file of a repository.
    File(String, String, String),
    /// The file of a repository that a quantization tag names.
    Tagged(String, String, String),
}

/// What a model spec says.
pub enum SpecView {
    Repo(Seq<char>, Seq<char>),
    File(Seq<char>, Seq<char>, Seq<char>),
    Tagged(Seq<char>, Seq<char>, Seq<char>),
}

impl View for ModelSpec {
    type V = SpecView;

    open spec fn view(&self) -> SpecView {
        match self {
            ModelSpec::Repo(o, n) => SpecView::Repo(o@, n@),
            ModelSpec::File(o, n, f) => SpecView::File(o@, n@, f@),
            ModelSpec::Tagged(o, n, t) => SpecView::Tagged(o@, n@, t@),
        }
    }
}

/// A character in ASCII lower case.
pub open spec fn lower(c: char) -> char {
    if 'A' <= c <= 'Z' {
        (c as u8 + 32) as u8 as char
    } else {
        c
    }
}

/// A text in ASCII lower case.
pub open spec fn lowered(s: Seq<char>) -> Seq<char> {
    Seq::new(s.len(), |i: int| lower(s[i]))
}

/// The name of a GGUF file.
pub open spec fn is_gguf(file: Seq<char>) -> bool {
    ".gguf"@.is_suffix_of(lowered(file))
}

/// What the spec names: `owner/repo/FILE.gguf` a file, `owner/repo:TAG` the file
/// with that tag, a bare repository whose name ends in `-GGUF` its `Q4_K_M`
/// file, and any other `owner/name` a repository of weights.
pub open spec fn spec_of(spec: Seq<char>) -> Result<SpecView, Seq<char>> {
    match split_once(spec, '/') {
        None => Err(
            "model spec \""@ + spec + "\" is neither a local path nor an owner/name repo id"@,
        ),
        Some((owner, name)) => match split_once(name, '/') {
            Some((repo, file)) => if is_gguf(file) {
                Ok(SpecView::File(owner, repo, file))
            } else {
                Err(
                    "model spec \""@ + spec
                        + "\" names a file inside a repo — only .gguf files resolve that way"@,
                )
            },
            None => match split_once(name, ':') {
                Some((repo, tag)) => Ok(SpecView::Tagged(owner, repo, tag)),
                None => if "-GGUF"@.is_suffix_of(name) {
                    Ok(SpecView::Tagged(owner, name, "Q4_K_M"@))
                } else {
                    Ok(SpecView::Repo(owner, name))
                },
            },
        },
    }
}

fn to_lower(v: &[char]) -> (r: Vec<char>)
    ensures
        r@ == lowered(v@),
{
    let mut out: Vec<char> = Vec::new();
    let mut i: usize = 0;
    while i < v.len()
        invariant
            i <= v@.len(),
            out@.len() == i,
            forall|j: int| 0 <= j < i ==> #[trigger] out@[j] == lower(v@[j]),
        decreases v.len() - i,
    {
        let c = v[i];
        out.push(if 'A' <= c && c <= 'Z' { (c as u8 + 32) as char } else { c });
        i = i + 1;
    }
    assert(out@ =~= lowered(v@));
    out
}

fn gguf_name(file: &[char]) -> (r: bool)
    ensures
        r == is_gguf(file@),
{
    let low = to_lower(file);
    let suffix = chars_of(".gguf");
    ends(low.as_slice(), suffix.as_slice())
}

/// The parts around the first `c`.
fn split_at_first<'v>(v: &'v [char], c: char) -> (r: Option<(&'v [char], &'v [char])>)
    ensures
        match r {
            Some((a, b)) => split_once(v@, c) == Some((a@, b@)),
            None => split_once(v@, c) is None,
        },
{
    let n: usize = v.len();
    match find(v, c) {
        None => None,
        Some(at) => {
            let a = vstd::slice::slice_subrange(v, 0, at);
            let b = vstd::slice::slice_subrange(v, at + 1, n);
            assert(a@ =~= v@.take(at as int));
            assert(b@ =~= v@.skip(at + 1));
            Some((a, b))
        },
    }
}

/// Reads a model spec that is no local path.
pub fn parse_spec(spec: &str) -> (r: Result<ModelSpec, String>)
    ensures
        match r {
            Ok(m) => spec_of(spec@) == Ok::<SpecView, Seq<char>>(m@),
            Err(e) => spec_of(spec@) == Err::<SpecView, Seq<char>>(e@),
        },
{
    let v = chars_of(spec);
    let (owner, name) = match split_at_first(v.as_slice(), '/') {
        None => {
            let mut e = "model spec \"".to_owned();
            e.append(spec);
            e.append("\" is neither a local path nor an owner/name repo id");
            return Err(e);
        },
        Some(p) => p,
    };
    if let Some((repo, file)) = split_at_first(name, '/') {
        if gguf_name(file) {
            return Ok(ModelSpec::File(text_of(owner), text_of(repo), text_of(file)));
        }
        let mut e = "model spec \"".to_owned();
        e.append(spec);
        e.append("\" names a file inside a repo — only .gguf files resolve that way");
        return Err(e);
    }
    if let Some((repo, tag)) = split_at_first(name, ':') {
        return Ok(ModelSpec::Tagged(text_of(owner), text_of(repo), text_of(tag)));
    }
    let suffix = chars_of("-GGUF");
    if ends(name, suffix.as_slice()) {
        Ok(ModelSpec::Tagged(text_of(owner), text_of(name), "Q4_K_M".to_owned()))
    } else {
        Ok(ModelSpec::Repo(text_of(owner), text_of(name)))
    }
}

/// How a model spec is turned into files.
#[derive(Debug, Clone)]
pub enum Resolution {
    /// The spec is a path of this machine.
    Local,
    /// Fetch the files of `owner/repo` that match the patterns.
    Fetch { owner: String, repo: String, patterns: Vec<String> },
    /// Fetch one file of `owner/repo`.
    FetchFile { owner: String, repo: String, file: String },
    /// Ask what files `owner/repo` has, and fetch the one that the tag names.
    Pick { owner: String, repo: String, tag: String },
}

/// The files that inference needs of a repository of weights.
pub open spec fn weight_patterns() -> Seq<Seq<char>> {
    seq![
        "config.json"@,
        "tokenizer.json"@,
        "model*.safetensors"@,
        "model.safetensors.index.json"@,
    ]
}

impl Resolution {
    /// The resolution of a spec that names `v`.
    pub open spec fn is(&self, v: SpecView) -> bool {
        match (self, v) {
            (Resolution::Fetch { owner, repo, patterns }, SpecView::Repo(o, n)) => owner@ == o && repo@ == n
                && texts(patterns@) == weight_patterns(),
            (Resolution::FetchFile { owner, repo, file }, SpecView::File(o, n, f)) => owner@ == o && repo@ == n
                && file@ == f,
            (Resolution::Pick { owner, repo, tag }, SpecView::Tagged(o, n, t)) => owner@ == o && repo@ == n
                && tag@ == t,
            _ => false,
        }
    }
}

/// Decides how a model spec becomes files. A path that exists stands for
/// itself.
pub fn resolve_model(spec: &str, exists: bool) -> (r: Result<Resolution, String>)
    ensures
        match r {
            Ok(res) => if exists { res is Local } else { spec_of(spec@) matches Ok(v) && res.is(v) },
            Err(e) => !exists && spec_of(spec@) == Err::<SpecView, Seq<char>>(e@),
        },
{
    if exists {
        return Ok(Resolution::Local);
    }
    match parse_spec(spec) {
        Err(e) => Err(e),
        Ok(ModelSpec::File(owner, repo, file)) => Ok(Resolution::FetchFile { owner, repo, file }),
        Ok(ModelSpec::Tagged(owner, repo, tag)) => Ok(Resolution::Pick { owner, repo, tag }),
        Ok(ModelSpec::Repo(owner, repo)) => {
            let mut patterns: Vec<String> = Vec::new();
            patterns.push("config.json".to_owned());
            patterns.push("tokenizer.json".to_owned());
            patterns.push("model*.safetensors".to_owned());
            patterns.push("model.safetensors.index.json".to_owned());
            assert(texts(patterns@) =~= weight_patterns());
            Ok(Resolution::Fetch { owner, repo, patterns })
        },
    }
}

/// The verdict on a fetched snapshot: it holds the file that was asked for, or
/// the error that says it does not.
pub fn check_fetched(owner: &str, repo: &str, file: &str, present: bool) -> (r: Result<(), String>)
    ensures
        match r {
            Ok(_) => present,
            Err(e) => !present && e@ == owner@ + "/"@ + repo@ + " has no file named "@ + file@,
        },
{
    if present {
        return Ok(());
    }
    let mut e = owner.to_owned();
    e.append("/");
    e.append(repo);
    e.append(" has no file named ");
    e.append(file);
    Err(e)
}

/// A GGUF file whose name holds the tag, in any case.
pub open spec fn carries(file: Seq<char>, tag: Seq<char>) -> bool {
    is_gguf(file) && occurs(lowered(file), lowered(tag))
}

/// The GGUF files among the first `k`.
pub open spec fn ggufs(files: Seq<Seq<char>>, k: nat) -> Seq<Seq<char>>
    decreases k,
{
    if k == 0 {
        Seq::empty()
    } else {
        let before = ggufs(files, (k - 1) as nat);
        if is_gguf(files[k - 1]) {
            before.push(files[k - 1])
        } else {
            before
        }
    }
}

/// The files among the first `k` that carry the tag.
pub open spec fn carriers(files: Seq<Seq<char>>, tag: Seq<char>, k: nat) -> Seq<Seq<char>>
    decreases k,
{
    if k == 0 {
        Seq::empty()
    } else {
        let before = carriers(files, tag, (k - 1) as nat);
        if carries(files[k - 1], tag) {
            before.push(files[k - 1])
        } else {
            before
        }
    }
}

/// The file that a tag names: the only one that carries it. A miss and an
/// ambiguity list what there is.
pub open spec fn pick(repo: Seq<char>, files: Seq<Seq<char>>, tag: Seq<char>) -> Result<Seq<char>, Seq<char>> {
    let found = carriers(files, tag, files.len());
    if found.len() == 1 {
        Ok(found[0])
    } else if found.len() == 0 {
        Err(repo + " has no "@ + tag + " file — it has: "@ + join(ggufs(files, files.len()), ", "@))
    } else {
        Err(repo + " has several "@ + tag + " files: "@ + join(found, ", "@))
    }
}

fn list_carriers(files: &Vec<String>, tag: Option<&str>) -> (r: Vec<String>)
    ensures
        texts(r@) == (match tag {
            Some(t) => carriers(texts(files@), t@, files@.len()),
            None => ggufs(texts(files@), files@.len()),
        }),
{
    let ghost t = texts(files@);
    let low = match tag {
        Some(tag) => to_lower(chars_of(tag).as_slice()),
        None => Vec::new(),
    };
    let mut out: Vec<String> = Vec::new();
    let mut i: usize = 0;
    assert(texts(out@) =~= Seq::<Seq<char>>::empty());
    while i < files.len()
        invariant
            t == texts(files@),
            i <= files@.len(),
            tag matches Some(s) ==> low@ == lowered(s@),
            texts(out@) == (match tag {
                Some(s) => carriers(t, s@, i as nat),
                None => ggufs(t, i as nat),
            }),
        decreases files.len() - i,
    {
        let name = chars_of(files[i].as_str());
        let name_low = to_lower(name.as_slice());
        let wanted = gguf_name(name.as_slice()) && (tag.is_none() || has(name_low.as_slice(), low.as_slice()));
        if wanted {
            let ghost before = texts(out@);
            out.push(files[i].clone());
            assert(texts(out@) =~= before.push(t[i as int]));
        }
        i = i + 1;
    }
    out
}

/// The file of a repository that a quantization tag names.
pub fn pick_quant(repo: &str, files: &Vec<String>, tag: &str) -> (r: Result<String, String>)
    ensures
        match r {
            Ok(f) => pick(repo@, texts(files@), tag@) == Ok::<Seq<char>, Seq<char>>(f@),
            Err(e) => pick(repo@, texts(files@), tag@) == Err::<Seq<char>, Seq<char>>(e@),
        },
{
    let found = list_carriers(files, Some(tag));
    assert(texts(found@).len() == found@.len());
    if found.len() == 1 {
        assert(texts(found@)[0] == found@[0]@);
        return Ok(found[0].clone());
    }
    let mut e = repo.to_owned();
    if found.len() == 0 {
        e.append(" has no ");
        e.append(tag);
        e.append(" file — it has: ");
        e.append(join_texts(&list_carriers(files, None), ", ").as_str());
    } else {
        e.append(" has several ");
        e.append(tag);
        e.append(" files: ");
        e.append(join_texts(&found, ", ").as_str());
    }
    Err(e)
}

/// 16 to the power `n`.
pub open spec fn pow16(n: nat) -> nat
    decreases n,
{
    if n == 0 {
        1
    } else {
        16 * pow16((n - 1) as nat)
    }
}

proof fn lemma_hex_len(x: nat, n: nat)
    ensures
        hex(x, n).len() == n,
    decreases n,
{
    if n > 0 {
        lemma_hex_len(x / 16, (n - 1) as nat);
    }
}

/// Numbers whose last `n` hexadecimal digits are the same are the same but for
/// a multiple of 16 to the power `n`.
proof fn lemma_hex_injective(x: nat, y: nat, n: nat)
    requires
        hex(x, n) == hex(y, n),
    ensures
        x % pow16(n) == y % pow16(n),
        pow16(n) > 0,
    decreases n,
{
    if n > 0 {
        let m = (n - 1) as nat;
        lemma_hex_len(x / 16, m);
        lemma_hex_len(y / 16, m);
        assert(hex(x, n).drop_last() =~= hex(x / 16, m));
        assert(hex(y, n).drop_last() =~= hex(y / 16, m));
        assert(hex(x, n).last() == hex_digit(x % 16));
        assert(hex(y, n).last() == hex_digit(y % 16));
        lemma_hex_injective(x / 16, y / 16, m);
        lemma_low_digits(x, m);
        lemma_low_digits(y, m);
    }
}

proof fn lemma_low_digits(x: nat, m: nat)
    requires
        pow16(m) > 0,
    ensures
        x % pow16(m + 1) == 16 * ((x / 16) % pow16(m)) + x % 16,
{
    let p = pow16(m) as int;
    let q = x as int / 16;
    vstd::arithmetic::div_mod::lemma_fundamental_div_mod(q, p);
    let (a, b) = (q / p, q % p);
    let r = x as int % 16;
    assert(x == (16 * p) * a + (16 * b + r)) by (nonlinear_arith)
        requires
            x == 16 * q + r,
            q == p * a + b,
    ;
    assert((16 * p) * a == a * (16 * p)) by (nonlinear_arith);
    vstd::arithmetic::div_mod::lemma_fundamental_div_mod_converse(x as int, 16 * p, a, 16 * b + r);
    assert(pow16(m + 1) == 16 * p);
}

/// Two local models whose path hashes differ in their low 32 bits have different
/// directories, whatever their names.
pub proof fn lemma_local_slugs_differ(a: Seq<char>, b: Seq<char>)
    requires
        hub_snapshot(a) is None,
        hub_snapshot(b) is None,
        fnv1a(vstd::utf8::encode_utf8(a)) % 0x1_0000_0000 != fnv1a(vstd::utf8::encode_utf8(b)) % 0x1_0000_0000,
    ensures
        slug(a) != slug(b),
{
    let x = fnv1a(vstd::utf8::encode_utf8(a)) as nat;
    let y = fnv1a(vstd::utf8::encode_utf8(b)) as nat;
    lemma_hex_len(x, 8);
    lemma_hex_len(y, 8);
    if slug(a) == slug(b) {
        assert(slug(a).skip(slug(a).len() - 8) =~= hex(x, 8));
        assert(slug(b).skip(slug(b).len() - 8) =~= hex(y, 8));
        lemma_hex_injective(x, y, 8);
        reveal_with_fuel(pow16, 9);
    }
}

/// Multiplying by the hash's prime keeps different low halves different.
proof fn lemma_prime_keeps_apart(x: u64, y: u64)
    requires
        (x * 0x100_0000_01b3) % 0x1_0000_0000 == (y * 0x100_0000_01b3) % 0x1_0000_0000,
    ensures
        x % 0x1_0000_0000 == y % 0x1_0000_0000,
{
    let n = 0x1_0000_0000int;
    let (a, b) = (x * 0x100_0000_01b3, y * 0x100_0000_01b3);
    let m = a / n - b / n;
    assert(a - b == m * n);
    // The prime times its inverse modulo `n`.
    assert(0x100_0000_01b3 * 0xaff6957b == 1 + 0xaff6957c2b * n);
    let k = m * 0xaff6957b - 0xaff6957c2b * (x - y);
    assert(x as int == y as int + n * k);
}

proof fn lemma_low_half(u: int)
    ensures
        (u % 0x1_0000_0000_0000_0000) % 0x1_0000_0000 == u % 0x1_0000_0000,
{
    vstd::arithmetic::div_mod::lemma_mod_mod(u, 0x1_0000_0000, 0x1_0000_0000);
}

proof fn lemma_xor_keeps_apart(g: u64, h: u64, b: u8, c: u8)
    requires
        g % 0x1_0000_0000 == h % 0x1_0000_0000 && b != c || g % 0x1_0000_0000 != h % 0x1_0000_0000 && b == c,
    ensures
        (g ^ b as u64) % 0x1_0000_0000 != (h ^ c as u64) % 0x1_0000_0000,
{
    assert((g ^ b as u64) % 0x1_0000_0000 != (h ^ c as u64) % 0x1_0000_0000) by (bit_vector)
        requires
            g % 0x1_0000_0000 == h % 0x1_0000_0000 && b != c || g % 0x1_0000_0000 != h % 0x1_0000_0000 && b == c,
    ;
}

/// One step of the hash, on the low halves: different bytes after the same, or
/// the same byte after different ones, give different low halves.
proof fn lemma_hash_step(g: u64, h: u64, b: u8, c: u8)
    requires
        g % 0x1_0000_0000 == h % 0x1_0000_0000 && b != c || g % 0x1_0000_0000 != h % 0x1_0000_0000 && b == c,
    ensures
        (((g ^ b as u64) * 0x100_0000_01b3) % 0x1_0000_0000_0000_0000) % 0x1_0000_0000 != (((h ^ c as u64)
            * 0x100_0000_01b3) % 0x1_0000_0000_0000_0000) % 0x1_0000_0000,
{
    let (x, y) = (g ^ b as u64, h ^ c as u64);
    lemma_xor_keeps_apart(g, h, b, c);
    lemma_low_half(x * 0x100_0000_01b3);
    lemma_low_half(y * 0x100_0000_01b3);
    if (x * 0x100_0000_01b3) % 0x1_0000_0000 == (y * 0x100_0000_01b3) % 0x1_0000_0000 {
        lemma_prime_keeps_apart(x, y);
    }
}

/// `a` and `b` differ in one place only.
pub open spec fn one_apart<T>(a: Seq<T>, b: Seq<T>, k: int) -> bool {
    &&& a.len() == b.len()
    &&& 0 <= k < a.len()
    &&& a[k] != b[k]
    &&& forall|j: int| 0 <= j < a.len() && j != k ==> a[j] == b[j]
}

/// Two texts that differ in one byte only have different path hashes.
pub proof fn lemma_one_byte_changes_the_hash(a: Seq<u8>, b: Seq<u8>, k: int)
    requires
        one_apart(a, b, k),
    ensures
        fnv1a(a) % 0x1_0000_0000 != fnv1a(b) % 0x1_0000_0000,
    decreases a.len(),
{
    let (p, q) = (a.drop_last(), b.drop_last());
    if k == a.len() - 1 {
        assert(p =~= q);
    } else {
        assert(one_apart(p, q, k));
        lemma_one_byte_changes_the_hash(p, q, k);
    }
    lemma_hash_step(fnv1a(p), fnv1a(q), a.last(), b.last());
}

/// Two local models whose ASCII paths differ in one character only, as two
/// checkouts of one name do, have different directories.
pub proof fn lemma_near_paths_have_different_slugs(a: Seq<char>, b: Seq<char>, k: int)
    requires
        hub_snapshot(a) is None,
        hub_snapshot(b) is None,
        vstd::utf8::is_ascii_chars(a),
        vstd::utf8::is_ascii_chars(b),
        one_apart(a, b, k),
    ensures
        slug(a) != slug(b),
{
    vstd::utf8::is_ascii_chars_encode_utf8(a);
    vstd::utf8::is_ascii_chars_encode_utf8(b);
    let (x, y) = (vstd::utf8::encode_utf8(a), vstd::utf8::encode_utf8(b));
    assert forall|j: int| 0 <= j < x.len() && j != k implies x[j] == y[j] by {
        assert(a[j] == b[j]);
    }
    assert('\0' <= a[k] <= '\u{7f}' && '\0' <= b[k] <= '\u{7f}');
    assert(x[k] == a[k] as u8 && y[k] == b[k] as u8);
    lemma_one_byte_changes_the_hash(x, y, k);
    lemma_local_slugs_differ(a, b);
}

} // verus!
