//! The names of graph files: every shape has a name, and the name gives the shape
//! back.
use vstd::prelude::*;
use vstd::string::*;

use crate::ane::graphs::{GraphShape, front_parts, graph_stem, number, shape_of, window_of};
use crate::text::{dec, is_digit, lemma_dec_digits, lemma_not_parted, lemma_parse_dec, lemma_parted};

verus! {

/// The stem of a graph's file name.
pub open spec fn stem_of(shape: GraphShape) -> Seq<char> {
    match shape {
        GraphShape::Plain { seq } => dec(seq as nat),
        GraphShape::Windowed { s, p } => dec(s as nat).push('w') + dec(p as nat),
        GraphShape::Front { s, p, layers } => seq!['f'] + (dec(layers as nat).push('-') + (dec(s as nat).push('w')
            + dec(p as nat))),
    }
}

/// The name of a graph's file.
pub open spec fn file_of(shape: GraphShape) -> Seq<char> {
    "prefill-"@ + stem_of(shape) + ".mlmodelc"@
}

/// Printed numbers are made of digits alone.
proof fn lemma_digits_only(n: usize, c: char)
    requires
        !is_digit(c),
    ensures
        !dec(n as nat).contains(c),
        number(dec(n as nat)) == Some(n as nat),
        dec(n as nat).len() > 0,
        is_digit(dec(n as nat)[0]),
{
    lemma_dec_digits(n as nat);
    lemma_parse_dec(n as nat, usize::MAX as nat);
    let d = dec(n as nat);
    assert forall|i: int| 0 <= i < d.len() implies d[i] != c by {
        assert(is_digit(d[i]));
    }
}

proof fn lemma_window(s: usize, p: usize)
    ensures
        window_of(dec(s as nat).push('w') + dec(p as nat)) == Some((s as nat, p as nat)),
{
    lemma_digits_only(s, 'w');
    lemma_digits_only(p, 'w');
    lemma_parted(dec(s as nat), 'w', dec(p as nat));
}

proof fn lemma_stem(stem: Seq<char>)
    ensures
        graph_stem("prefill-"@ + stem + ".mlmodelc"@) == Some(stem),
{
    reveal_strlit("prefill-");
    reveal_strlit(".mlmodelc");
    let name = "prefill-"@ + stem + ".mlmodelc"@;
    let rest = stem + ".mlmodelc"@;
    assert("prefill-"@.is_prefix_of(name)) by {
        assert(name.take(8) =~= "prefill-"@);
    }
    assert(name.skip(8) =~= rest);
    assert(".mlmodelc"@.is_suffix_of(rest)) by {
        assert(rest.skip(rest.len() - 9) =~= ".mlmodelc"@);
    }
    assert(rest.take(rest.len() - 9) =~= stem);
}

/// The name of a graph's file gives its shape back.
pub proof fn lemma_names_give_shapes_back(shape: GraphShape)
    ensures
        graph_stem(file_of(shape)) == Some(stem_of(shape)),
        shape_of(stem_of(shape)) == Some(shape),
{
    let stem = stem_of(shape);
    lemma_stem(stem);
    match shape {
        GraphShape::Plain { seq } => {
            lemma_digits_only(seq, 'w');
            lemma_digits_only(seq, 'f');
            lemma_not_parted(stem, 'w');
            assert(stem[0] != 'f');
            assert(front_parts(stem) is None);
        },
        GraphShape::Windowed { s, p } => {
            lemma_window(s, p);
            lemma_digits_only(s, 'w');
            lemma_digits_only(s, 'f');
            lemma_parted(dec(s as nat), 'w', dec(p as nat));
            assert(stem[0] == dec(s as nat)[0]);
            assert(front_parts(stem) is None);
        },
        GraphShape::Front { s, p, layers } => {
            lemma_window(s, p);
            lemma_digits_only(layers, '-');
            let rest = dec(s as nat).push('w') + dec(p as nat);
            lemma_parted(dec(layers as nat), '-', rest);
            assert(stem.skip(1) =~= dec(layers as nat).push('-') + rest);
        },
    }
}

} // verus!
