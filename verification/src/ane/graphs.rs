//! The prefill graphs of a model: what a graph's file name says, which of the
//! files found are used, and whether recorded graphs still fit the model.
use vstd::prelude::*;
use vstd::string::*;

use crate::hub::GraphLocation;
use crate::text::{
    chars_of, ends, find, join, join_texts, parse_number, parse_usize, same, split_once, starts, texts,
};

verus! {

/// What a graph computes: a plain prompt of fixed length, a chunk over a past of
/// fixed length, or such a chunk through the first layers only.
#[derive(Debug, Clone, Copy, PartialEq, Eq, Structural)]
pub enum GraphShape {
    Plain { seq: usize },
    Windowed { s: usize, p: usize },
    Front { s: usize, p: usize, layers: usize },
}

/// What stands between `prefill-` and `.mlmodelc` in a file name.
pub open spec fn graph_stem(name: Seq<char>) -> Option<Seq<char>> {
    if !"prefill-"@.is_prefix_of(name) {
        None
    } else {
        let rest = name.skip("prefill-"@.len() as int);
        if !".mlmodelc"@.is_suffix_of(rest) {
            None
        } else {
            Some(rest.take(rest.len() - ".mlmodelc"@.len()))
        }
    }
}

/// A machine-size number.
pub open spec fn number(s: Seq<char>) -> Option<nat> {
    parse_number(s, usize::MAX as nat)
}

/// Two numbers with a `w` between.
pub open spec fn window_of(s: Seq<char>) -> Option<(nat, nat)> {
    match split_once(s, 'w') {
        None => None,
        Some((a, b)) => match (number(a), number(b)) {
            (Some(x), Some(y)) => Some((x, y)),
            _ => None,
        },
    }
}

/// The parts of a front graph's stem: what follows the `f` up to a dash, and the
/// rest.
pub open spec fn front_parts(stem: Seq<char>) -> Option<(Seq<char>, Seq<char>)> {
    if stem.len() > 0 && stem[0] == 'f' {
        split_once(stem.skip(1), '-')
    } else {
        None
    }
}

/// The shape that a stem writes down: `<seq>`, `<s>w<p>` or `f<layers>-<s>w<p>`.
pub open spec fn shape_of(stem: Seq<char>) -> Option<GraphShape> {
    match front_parts(stem) {
        Some((layers, rest)) => match (number(layers), window_of(rest)) {
            (Some(a), Some((s, p))) => Some(
                GraphShape::Front { s: s as usize, p: p as usize, layers: a as usize },
            ),
            _ => None,
        },
        None => if split_once(stem, 'w') is Some {
            match window_of(stem) {
                Some((s, p)) => Some(GraphShape::Windowed { s: s as usize, p: p as usize }),
                None => None,
            }
        } else {
            match number(stem) {
                Some(n) => Some(GraphShape::Plain { seq: n as usize }),
                None => None,
            }
        },
    }
}

fn stem_of(name: &Vec<char>) -> (r: Option<Vec<char>>)
    ensures
        match r {
            Some(v) => graph_stem(name@) == Some(v@),
            None => graph_stem(name@) is None,
        },
{
    let prefix = chars_of("prefill-");
    let suffix = chars_of(".mlmodelc");
    if !starts(name.as_slice(), prefix.as_slice()) {
        return None;
    }
    let rest = vstd::slice::slice_subrange(name.as_slice(), prefix.len(), name.len());
    assert(rest@ =~= name@.skip(prefix@.len() as int));
    if !ends(rest, suffix.as_slice()) {
        return None;
    }
    let stem = vstd::slice::slice_subrange(rest, 0, rest.len() - suffix.len());
    assert(stem@ =~= rest@.take(rest@.len() - suffix@.len()));
    let mut out: Vec<char> = Vec::new();
    out.extend_from_slice(stem);
    assert(out@ =~= stem@);
    Some(out)
}

/// Whether a file name is that of a prefill graph.
pub fn is_graph_file(name: &str) -> (r: bool)
    ensures
        r == (graph_stem(name@) is Some),
{
    let v = chars_of(name);
    stem_of(&v).is_some()
}

/// The parts around the first `c`.
fn cut<'v>(v: &'v [char], c: char) -> (r: Option<(&'v [char], &'v [char])>)
    ensures
        match r {
            Some((a, b)) => split_once(v@, c) == Some((a@, b@)),
            None => split_once(v@, c) is None,
        },
{
    let n: usize = v.len();
    match find(v, c) {
        None => None,
        Some(at) => {
            let a = vstd::slice::slice_subrange(v, 0, at);
            let b = vstd::slice::slice_subrange(v, at + 1, n);
            assert(a@ =~= v@.take(at as int));
            assert(b@ =~= v@.skip(at + 1));
            Some((a, b))
        },
    }
}

fn read_window(v: &[char]) -> (r: Option<(usize, usize)>)
    ensures
        match r {
            Some((s, p)) => window_of(v@) == Some((s as nat, p as nat)),
            None => window_of(v@) is None,
        },
{
    match cut(v, 'w') {
        None => None,
        Some((a, b)) => match (parse_usize(a), parse_usize(b)) {
            (Some(s), Some(p)) => Some((s, p)),
            _ => None,
        },
    }
}

fn read_shape(stem: &[char]) -> (r: Option<GraphShape>)
    ensures
        r == shape_of(stem@),
{
    if stem.len() > 0 && stem[0] == 'f' {
        let tail = vstd::slice::slice_subrange(stem, 1, stem.len());
        assert(tail@ =~= stem@.skip(1));
        if let Some((layers, rest)) = cut(tail, '-') {
            return match (parse_usize(layers), read_window(rest)) {
                (Some(a), Some((s, p))) => Some(GraphShape::Front { s, p, layers: a }),
                _ => None,
            };
        }
    }
    if cut(stem, 'w').is_some() {
        return match read_window(stem) {
            Some((s, p)) => Some(GraphShape::Windowed { s, p }),
            None => None,
        };
    }
    match parse_usize(stem) {
        Some(seq) => Some(GraphShape::Plain { seq }),
        None => None,
    }
}

/// What the name of a file says about the graph in it; `None` for a file that is
/// no graph or whose name writes down no shape.
pub fn graph_shape(name: &str) -> (r: Option<GraphShape>)
    ensures
        r == (match graph_stem(name@) {
            Some(stem) => shape_of(stem),
            None => None,
        }),
{
    let v = chars_of(name);
    match stem_of(&v) {
        None => None,
        Some(stem) => read_shape(stem.as_slice()),
    }
}

// ---------- the catalogue ----------

/// A graph that was found: in which of the directories searched, under which
/// name, with which shape.
pub struct GraphFile {
    pub dir: usize,
    pub name: String,
    pub shape: GraphShape,
}

/// What a graph file says.
pub struct FileFacts {
    pub dir: nat,
    pub name: Seq<char>,
    pub shape: GraphShape,
}

impl View for GraphFile {
    type V = FileFacts;

    open spec fn view(&self) -> FileFacts {
        FileFacts { dir: self.dir as nat, name: self.name@, shape: self.shape }
    }
}

/// The files among the first `k` of a listing that are graphs of a known shape
/// and whose name no earlier file has. Each file is given by its directory and
/// its name.
pub open spec fn catalogue(files: Seq<(nat, Seq<char>)>, k: nat) -> Seq<FileFacts>
    decreases k,
{
    if k == 0 {
        Seq::empty()
    } else {
        let before = catalogue(files, (k - 1) as nat);
        let (dir, name) = files[k - 1];
        match graph_stem(name) {
            None => before,
            Some(stem) => match shape_of(stem) {
                None => before,
                Some(shape) => if seen(files, (k - 1) as nat, name) {
                    before
                } else {
                    before.push(FileFacts { dir, name, shape })
                },
            },
        }
    }
}

/// One of the first `k` files is called `name`.
pub open spec fn seen(files: Seq<(nat, Seq<char>)>, k: nat, name: Seq<char>) -> bool {
    exists|i: int| 0 <= i < k && (#[trigger] files[i]).1 == name
}

/// The view of a listing.
pub open spec fn listing(files: Seq<(usize, String)>) -> Seq<(nat, Seq<char>)> {
    Seq::new(files.len(), |i: int| (files[i].0 as nat, files[i].1@))
}

/// The views of graph files.
pub open spec fn facts(v: Seq<GraphFile>) -> Seq<FileFacts> {
    Seq::new(v.len(), |i: int| v[i]@)
}

/// Collects the graphs of a listing: directories in the order in which they were
/// searched, so the first directory with a name provides it.
pub fn collect_graphs(files: &Vec<(usize, String)>) -> (r: Vec<GraphFile>)
    ensures
        facts(r@) == catalogue(listing(files@), files@.len()),
{
    let ghost all = listing(files@);
    let mut out: Vec<GraphFile> = Vec::new();
    let mut i: usize = 0;
    assert(facts(out@) =~= Seq::<FileFacts>::empty());
    while i < files.len()
        invariant
            all == listing(files@),
            i <= files@.len(),
            facts(out@) == catalogue(all, i as nat),
        decreases files.len() - i,
    {
        assert(all[i as int] == (files@[i as int].0 as nat, files@[i as int].1@));
        if let Some(shape) = graph_shape(files[i].1.as_str()) {
            let mut fresh = true;
            let mut j: usize = 0;
            while j < i && fresh
                invariant
                    all == listing(files@),
                    i < files@.len(),
                    j <= i,
                    fresh == !seen(all, j as nat, files@[i as int].1@),
                decreases i - j + (if fresh { 1int } else { 0int }),
            {
                if same(files[j].1.as_str(), files[i].1.as_str()) {
                    fresh = false;
                    assert(all[j as int].1 == files@[i as int].1@);
                } else {
                    assert forall|x: int| 0 <= x < j + 1 implies (#[trigger] all[x]).1 != files@[i as int].1@ by {
                        if x < j {
                            assert(!seen(all, j as nat, files@[i as int].1@));
                        }
                    }
                }
                j = j + 1;
            }
            proof {
                if !fresh {
                    let x = choose|x: int| 0 <= x < j && (#[trigger] all[x]).1 == files@[i as int].1@;
                    assert(0 <= x < i && all[x].1 == files@[i as int].1@);
                }
            }
            if fresh {
                let ghost before = facts(out@);
                out.push(GraphFile { dir: files[i].0, name: files[i].1.clone(), shape });
                assert(facts(out@) =~= before.push(out@.last()@));
            }
        }
        i = i + 1;
    }
    out
}

// ---------- the graphs in use ----------

/// How many positions a graph reaches.
pub open spec fn reach(shape: GraphShape) -> nat {
    match shape {
        GraphShape::Plain { seq } => seq as nat,
        GraphShape::Windowed { s, p } => (s + p) as nat,
        GraphShape::Front { s, p, layers } => (s + p) as nat,
    }
}

/// `v`, whose graphs stand by reach, with `x` behind those that reach no
/// further.
pub open spec fn insert_by_reach(v: Seq<FileFacts>, x: FileFacts) -> Seq<FileFacts>
    decreases v.len(),
{
    if v.len() == 0 || reach(v.last().shape) <= reach(x.shape) {
        v.push(x)
    } else {
        insert_by_reach(v.drop_last(), x).push(v.last())
    }
}

/// The graphs among the first `k` that `keep` picks, by reach; equal ones in
/// their first order.
pub open spec fn by_reach(v: Seq<FileFacts>, keep: spec_fn(GraphShape) -> bool, k: nat) -> Seq<FileFacts>
    decreases k,
{
    if k == 0 {
        Seq::empty()
    } else {
        let before = by_reach(v, keep, (k - 1) as nat);
        if keep(v[k - 1].shape) {
            insert_by_reach(before, v[k - 1])
        } else {
            before
        }
    }
}

/// Every graph reaches at most as far as the later ones.
pub open spec fn ascending(v: Seq<FileFacts>) -> bool {
    forall|i: int, j: int| 0 <= i < j < v.len() ==> reach((#[trigger] v[i]).shape) <= reach((#[trigger] v[j]).shape)
}

proof fn lemma_insert_keeps_order(v: Seq<FileFacts>, x: FileFacts)
    requires
        ascending(v),
    ensures
        ascending(insert_by_reach(v, x)),
        insert_by_reach(v, x).len() == v.len() + 1,
        forall|i: int| 0 <= i <= v.len() ==> (#[trigger] insert_by_reach(v, x)[i]) == x || v.contains(
            insert_by_reach(v, x)[i],
        ),
    decreases v.len(),
{
    if v.len() > 0 && reach(v.last().shape) > reach(x.shape) {
        let init = v.drop_last();
        lemma_insert_keeps_order(init, x);
        let r = insert_by_reach(v, x);
        let ri = insert_by_reach(init, x);
        assert(r.drop_last() =~= ri);
        assert forall|i: int| 0 <= i <= v.len() implies (#[trigger] r[i]) == x || v.contains(r[i]) by {
            if i < v.len() {
                assert(r[i] == ri[i]);
                if ri[i] != x {
                    let j = choose|j: int| 0 <= j < init.len() && init[j] == ri[i];
                    assert(v[j] == r[i]);
                }
            } else {
                assert(v[v.len() - 1] == r[i]);
            }
        }
        assert forall|i: int, j: int| 0 <= i < j < r.len() implies reach((#[trigger] r[i]).shape) <= reach(
            (#[trigger] r[j]).shape,
        ) by {
            if j < v.len() {
                assert(r[i] == ri[i] && r[j] == ri[j]);
            } else {
                assert(r[i] == ri[i]);
                if ri[i] != x {
                    let t = choose|t: int| 0 <= t < init.len() && init[t] == ri[i];
                    assert(v[t] == ri[i]);
                    assert(reach(v[t].shape) <= reach(v[v.len() - 1].shape));
                }
            }
        }
    } else {
        assert forall|i: int| 0 <= i <= v.len() implies (#[trigger] v.push(x)[i]) == x || v.contains(v.push(x)[i]) by {
            if i < v.len() {
                assert(v[i] == v.push(x)[i]);
            }
        }
        assert forall|i: int, j: int| 0 <= i < j < v.len() + 1 implies reach((#[trigger] v.push(x)[i]).shape)
            <= reach((#[trigger] v.push(x)[j]).shape) by {
            if j == v.len() && i < v.len() - 1 {
                assert(reach(v[i].shape) <= reach(v[v.len() - 1].shape));
            }
        }
    }
}

/// The graphs in use stand by reach.
pub proof fn lemma_by_reach_ascends(v: Seq<FileFacts>, keep: spec_fn(GraphShape) -> bool, k: nat)
    ensures
        ascending(by_reach(v, keep, k)),
    decreases k,
{
    if k > 0 {
        lemma_by_reach_ascends(v, keep, (k - 1) as nat);
        lemma_insert_keeps_order(by_reach(v, keep, (k - 1) as nat), v[k - 1]);
    }
}

proof fn lemma_insert_at(v: Seq<FileFacts>, x: FileFacts, i: int)
    requires
        0 <= i <= v.len(),
        forall|j: int| i <= j < v.len() ==> reach((#[trigger] v[j]).shape) > reach(x.shape),
        i > 0 ==> reach(v[i - 1].shape) <= reach(x.shape),
    ensures
        insert_by_reach(v, x) == v.insert(i, x),
    decreases v.len(),
{
    if i == v.len() {
        assert(v.insert(i, x) =~= v.push(x));
    } else {
        assert(reach(v[v.len() - 1].shape) > reach(x.shape));
        lemma_insert_at(v.drop_last(), x, i);
        assert(v.insert(i, x) =~= v.drop_last().insert(i, x).push(v.last()));
    }
}

fn reach_of(shape: GraphShape) -> (r: u128)
    ensures
        r == reach(shape),
{
    match shape {
        GraphShape::Plain { seq } => seq as u128,
        GraphShape::Windowed { s, p } => s as u128 + p as u128,
        GraphShape::Front { s, p, layers } => s as u128 + p as u128,
    }
}

/// A copy of a graph file.
fn copy_file(g: &GraphFile) -> (r: GraphFile)
    ensures
        r@ == g@,
{
    GraphFile { dir: g.dir, name: g.name.clone(), shape: g.shape }
}

fn insert_file(v: &mut Vec<GraphFile>, x: GraphFile)
    ensures
        facts(final(v)@) == insert_by_reach(facts(old(v)@), x@),
{
    let ghost before = facts(v@);
    let ghost xf = x@;
    let mut i: usize = v.len();
    let key: u128 = reach_of(x.shape);
    while i > 0 && reach_of(v[i - 1].shape) > key
        invariant
            *v == *old(v),
            before == facts(v@),
            xf == x@,
            key == reach(xf.shape),
            i <= v@.len(),
            forall|j: int| i <= j < v@.len() ==> reach((#[trigger] before[j]).shape) > reach(xf.shape),
        decreases i,
    {
        i = i - 1;
    }
    proof {
        if i > 0 {
            assert(before[i - 1] == v@[i - 1]@);
        }
        lemma_insert_at(before, xf, i as int);
    }
    v.insert(i, x);
    assert(facts(v@) =~= before.insert(i as int, xf));
}

/// A plain graph.
pub open spec fn is_plain(shape: GraphShape) -> bool {
    shape is Plain
}

/// A front graph.
pub open spec fn is_front(shape: GraphShape) -> bool {
    shape is Front
}

/// The first windowed graph among the first `k`.
pub open spec fn first_windowed(v: Seq<FileFacts>, k: nat) -> Option<FileFacts>
    decreases k,
{
    if k == 0 {
        None
    } else {
        match first_windowed(v, (k - 1) as nat) {
            Some(f) => Some(f),
            None => if v[k - 1].shape is Windowed { Some(v[k - 1]) } else { None },
        }
    }
}

/// The graphs in use, each family by reach.
pub struct GraphSet {
    pub plain: Vec<GraphFile>,
    pub windowed: Option<GraphFile>,
    pub front: Vec<GraphFile>,
}

/// Sorts the graphs that were found into families.
pub fn sort_graphs(found: &Vec<GraphFile>) -> (r: GraphSet)
    ensures
        facts(r.plain@) == by_reach(facts(found@), |s: GraphShape| is_plain(s), found@.len()),
        facts(r.front@) == by_reach(facts(found@), |s: GraphShape| is_front(s), found@.len()),
        (match r.windowed { Some(w) => Some(w@), None => None }) == first_windowed(facts(found@), found@.len()),
        ascending(facts(r.plain@)),
        ascending(facts(r.front@)),
{
    let ghost all = facts(found@);
    let ghost pk = |s: GraphShape| is_plain(s);
    let ghost fk = |s: GraphShape| is_front(s);
    let mut plain: Vec<GraphFile> = Vec::new();
    let mut front: Vec<GraphFile> = Vec::new();
    let mut windowed: Option<GraphFile> = None;
    let mut i: usize = 0;
    assert(facts(plain@) =~= Seq::<FileFacts>::empty());
    assert(facts(front@) =~= Seq::<FileFacts>::empty());
    while i < found.len()
        invariant
            all == facts(found@),
            pk == (|s: GraphShape| is_plain(s)),
            fk == (|s: GraphShape| is_front(s)),
            i <= found@.len(),
            facts(plain@) == by_reach(all, pk, i as nat),
            facts(front@) == by_reach(all, fk, i as nat),
            (match windowed { Some(w) => Some(w@), None => None }) == first_windowed(all, i as nat),
        decreases found.len() - i,
    {
        assert(all[i as int] == found@[i as int]@);
        match found[i].shape {
            GraphShape::Plain { seq } => {
                insert_file(&mut plain, copy_file(&found[i]));
            },
            GraphShape::Front { s, p, layers } => {
                insert_file(&mut front, copy_file(&found[i]));
            },
            GraphShape::Windowed { s, p } => {
                if windowed.is_none() {
                    windowed = Some(copy_file(&found[i]));
                }
            },
        }
        i = i + 1;
    }
    proof {
        lemma_by_reach_ascends(all, pk, all.len());
        lemma_by_reach_ascends(all, fk, all.len());
    }
    GraphSet { plain, windowed, front }
}

// ---------- what to do about them ----------

/// Graphs built from another revision than the model's are stale. Without a
/// recorded revision, or for a model without one, nothing is enforced.
pub open spec fn is_stale(built: Option<Seq<char>>, now: Option<Seq<char>>) -> bool {
    built is Some && now is Some && built != now
}

fn view_opt(s: &Option<String>) -> (r: Option<&str>)
    ensures
        (match r { Some(t) => Some(t@), None => None }) == (match *s { Some(t) => Some(t@), None => None }),
{
    match s {
        Some(t) => Some(t.as_str()),
        None => None,
    }
}

/// Refuses stale graphs: `None` where the recorded graphs may be used, else the
/// notice that says why not.
pub fn stale_notice(built: &Option<String>, loc: &GraphLocation) -> (r: Option<String>)
    ensures
        ({
            let b = match *built { Some(t) => Some(t@), None => None };
            let n = match loc.revision { Some(t) => Some(t@), None => None };
            match r {
                None => !is_stale(b, n),
                Some(e) => is_stale(b, n) && e@ == "ANE: graphs in "@ + loc.dir@ + " were built from revision "@
                    + b->Some_0 + ", but "@ + loc.model@ + " now resolves to "@ + n->Some_0
                    + " — refusing them (re-export: ./run.sh export-hybrid "@ + loc.model@ + ")"@,
            }
        }),
{
    match (view_opt(built), view_opt(&loc.revision)) {
        (Some(b), Some(n)) => {
            if same(b, n) {
                return None;
            }
            let mut e = "ANE: graphs in ".to_owned();
            e.append(loc.dir.as_str());
            e.append(" were built from revision ");
            e.append(b);
            e.append(", but ");
            e.append(loc.model.as_str());
            e.append(" now resolves to ");
            e.append(n);
            e.append(" — refusing them (re-export: ./run.sh export-hybrid ");
            e.append(loc.model.as_str());
            e.append(")");
            Some(e)
        },
        _ => None,
    }
}

/// What a start without graphs says: what was searched, for which model, how to
/// build them, and which other models have some (the first three).
pub open spec fn missing_text(loc_dir: Seq<char>, model: Seq<char>, model_dir: Seq<char>, others: Seq<Seq<char>>) -> Seq<char> {
    let head = "the hybrid backend has no prefill graphs for "@ + model + "\n  searched: "@ + loc_dir
        + "  (lokal graph cache)\n            "@ + model_dir
        + "  (model directory)\n  build them once with:  ./run.sh export-hybrid "@ + model;
    let shown = if others.len() > 3 { others.take(3) } else { others };
    if others.len() == 0 {
        head
    } else {
        head + "\n  graphs exist for: "@ + join(shown, ", "@)
    }
}

fn missing_graphs_error(loc: &GraphLocation, model_dir: &str, others: &Vec<String>) -> (r: String)
    ensures
        r@ == missing_text(loc.dir@, loc.model@, model_dir@, texts(others@)),
{
    let mut msg = "the hybrid backend has no prefill graphs for ".to_owned();
    msg.append(loc.model.as_str());
    msg.append("\n  searched: ");
    msg.append(loc.dir.as_str());
    msg.append("  (lokal graph cache)\n            ");
    msg.append(model_dir);
    msg.append("  (model directory)\n  build them once with:  ./run.sh export-hybrid ");
    msg.append(loc.model.as_str());
    if others.len() > 0 {
        let mut shown: Vec<String> = Vec::new();
        let mut i: usize = 0;
        assert(texts(shown@) =~= texts(others@).take(0));
        while i < others.len() && i < 3
            invariant
                i <= others@.len(),
                i <= 3,
                texts(shown@) == texts(others@).take(i as int),
            decreases others.len() - i,
        {
            let ghost before = texts(shown@);
            shown.push(others[i].clone());
            assert(texts(shown@) =~= before.push(others@[i as int]@));
            assert(texts(others@).take(i as int + 1) =~= texts(others@).take(i as int).push(others@[i as int]@));
            i = i + 1;
        }
        assert(texts(others@).take(texts(others@).len() as int) =~= texts(others@));
        msg.append("\n  graphs exist for: ");
        msg.append(join_texts(&shown, ", ").as_str());
    }
    msg
}

/// Whether the hybrid backend starts with the plain graphs found. Without any it
/// starts only where graphs were refused as stale, and then runs everything on
/// Metal; else it fails.
pub fn check_graphs(
    set: &GraphSet,
    refused_stale: bool,
    loc: &GraphLocation,
    model_dir: &str,
    others: &Vec<String>,
) -> (r: Result<(), String>)
    ensures
        match r {
            Ok(_) => set.plain@.len() > 0 || refused_stale,
            Err(e) => {
                &&& set.plain@.len() == 0
                &&& !refused_stale
                &&& e@ == missing_text(loc.dir@, loc.model@, model_dir@, texts(others@))
            },
        },
{
    if set.plain.len() == 0 && !refused_stale {
        Err(missing_graphs_error(loc, model_dir, others))
    } else {
        Ok(())
    }
}

/// Whether split prefill is on: only the value `0` switches it off.
pub fn split_enabled(setting: Option<&str>) -> (r: bool)
    ensures
        r == !(setting matches Some(v) && v@ == "0"@),
{
    match setting {
        None => true,
        Some(v) => !same(v, "0"),
    }
}

/// Whether the windowed graph is loaded: only where its setting has a value
/// other than `0`.
pub fn windowed_enabled(setting: Option<&str>) -> (r: bool)
    ensures
        r == (setting matches Some(v) && v@ != "0"@ && v@.len() > 0),
{
    match setting {
        None => false,
        Some(v) => !same(v, "0") && !v.is_empty(),
    }
}

/// Whether graphs beside the weights are moved to the graph directory: where
/// there are some and the directory has none.
pub fn should_migrate(legacy: usize, current: usize) -> (r: bool)
    ensures
        r == (legacy > 0 && current == 0),
{
    legacy > 0 && current == 0
}

} // verus!
