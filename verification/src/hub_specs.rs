//! Model specs and the files they name: what a spec is made of is what it is read
//! as, and a tag picks the one file that carries it.
use vstd::prelude::*;
use vstd::string::*;

use crate::hub::{SpecView, carriers, carries, is_gguf, pick, spec_of};
use crate::text::{lemma_not_parted, lemma_parted};

verus! {

/// A spec is read as what it is made of: a file of a repo, a repo with a tag, or a
/// repo alone, whose tag is the usual one where its name says that it holds GGUF
/// files. A text without a slash names none of these.
pub proof fn lemma_specs_read_back(owner: Seq<char>, repo: Seq<char>, rest: Seq<char>)
    requires
        !owner.contains('/'),
        !repo.contains('/'),
    ensures
        is_gguf(rest) ==> spec_of(owner.push('/') + (repo.push('/') + rest)) == Ok::<SpecView, Seq<char>>(
            SpecView::File(owner, repo, rest),
        ),
        !is_gguf(rest) ==> spec_of(owner.push('/') + (repo.push('/') + rest)) is Err,
        !repo.contains(':') && !rest.contains('/') ==> spec_of(owner.push('/') + (repo.push(':') + rest)) == Ok::<
            SpecView,
            Seq<char>,
        >(SpecView::Tagged(owner, repo, rest)),
        !repo.contains(':') ==> spec_of(owner.push('/') + repo) == Ok::<SpecView, Seq<char>>(
            if "-GGUF"@.is_suffix_of(repo) {
                SpecView::Tagged(owner, repo, "Q4_K_M"@)
            } else {
                SpecView::Repo(owner, repo)
            },
        ),
        spec_of(owner) is Err,
{
    lemma_parted(owner, '/', repo.push('/') + rest);
    lemma_parted(repo, '/', rest);
    lemma_parted(owner, '/', repo);
    lemma_not_parted(owner, '/');
    lemma_not_parted(repo, '/');
    if !repo.contains(':') {
        lemma_not_parted(repo, ':');
        lemma_parted(owner, '/', repo.push(':') + rest);
        lemma_parted(repo, ':', rest);
        if !rest.contains('/') {
            let name = repo.push(':') + rest;
            assert(!name.contains('/')) by {
                if name.contains('/') {
                    let i = choose|i: int| 0 <= i < name.len() && name[i] == '/';
                    if i < repo.len() {
                        assert(repo[i] == '/');
                    } else if i > repo.len() {
                        assert(rest[i - repo.len() - 1] == '/');
                    }
                }
            }
            lemma_not_parted(name, '/');
        }
    }
}

/// The carriers of a tag: none, one or more, in the order of the files.
proof fn lemma_carriers(files: Seq<Seq<char>>, tag: Seq<char>, k: nat)
    requires
        k <= files.len(),
    ensures
        forall|i: int| 0 <= i < k && carries(#[trigger] files[i], tag) ==> carriers(files, tag, k).contains(files[i]),
        forall|j: int|
            0 <= j < carriers(files, tag, k).len() ==> exists|i: int|
                0 <= i < k && carries(#[trigger] files[i], tag) && files[i] == #[trigger] carriers(files, tag, k)[j],
        carriers(files, tag, k).len() <= 1 ==> forall|i: int, j: int|
            0 <= i < k && 0 <= j < k && carries(#[trigger] files[i], tag) && carries(#[trigger] files[j], tag) ==> i == j,
        carriers(files, tag, k).len() >= 2 ==> exists|i: int, j: int|
            0 <= i < j < k && carries(#[trigger] files[i], tag) && carries(#[trigger] files[j], tag),
    decreases k,
{
    if k > 0 {
        let before = carriers(files, tag, (k - 1) as nat);
        let now = carriers(files, tag, k);
        lemma_carriers(files, tag, (k - 1) as nat);
        assert forall|i: int| 0 <= i < k && carries(#[trigger] files[i], tag) implies now.contains(files[i]) by {
            if i < k - 1 {
                let j = choose|j: int| 0 <= j < before.len() && before[j] == files[i];
                assert(now[j] == files[i]);
            } else {
                assert(now.last() == files[i]);
            }
        }
        assert forall|j: int| 0 <= j < now.len() implies exists|i: int|
            0 <= i < k && carries(#[trigger] files[i], tag) && files[i] == #[trigger] now[j] by {
            if j < before.len() {
                assert(now[j] == before[j]);
                let i = choose|i: int|
                    0 <= i < k - 1 && carries(#[trigger] files[i], tag) && files[i] == before[j];
                assert(carries(files[i], tag));
            } else {
                assert(carries(files[k - 1], tag));
            }
        }
        if now.len() <= 1 && carries(files[k - 1], tag) {
            assert(before.len() == 0);
        }
        if now.len() >= 2 && before.len() < 2 {
            assert(carries(files[k - 1], tag));
            assert(before[0] == before[0]);
            let i = choose|i: int| 0 <= i < k - 1 && carries(#[trigger] files[i], tag) && files[i] == before[0];
            assert(carries(files[i], tag) && i < k - 1);
        }
    }
}

/// A tag picks a file if and only if that file alone carries it.
pub proof fn lemma_picked_is_the_only_carrier(repo: Seq<char>, files: Seq<Seq<char>>, tag: Seq<char>, i: int)
    requires
        0 <= i < files.len(),
        carries(files[i], tag),
    ensures
        (forall|j: int| 0 <= j < files.len() && carries(#[trigger] files[j], tag) ==> j == i) ==> pick(repo, files, tag)
            == Ok::<Seq<char>, Seq<char>>(files[i]),
        (exists|j: int| 0 <= j < files.len() && carries(#[trigger] files[j], tag) && j != i) ==> pick(repo, files, tag) is Err,
{
    let found = carriers(files, tag, files.len());
    lemma_carriers(files, tag, files.len());
    assert(found.contains(files[i]));
    if forall|j: int| 0 <= j < files.len() && carries(#[trigger] files[j], tag) ==> j == i {
        assert(found.len() < 2);
        assert(found.len() == 1);
        assert(found[0] == files[i]);
    }
}

/// A tag that no file carries picks none.
pub proof fn lemma_nothing_picked_without_a_carrier(repo: Seq<char>, files: Seq<Seq<char>>, tag: Seq<char>)
    requires
        forall|j: int| 0 <= j < files.len() ==> !carries(#[trigger] files[j], tag),
    ensures
        pick(repo, files, tag) is Err,
{
    let found = carriers(files, tag, files.len());
    lemma_carriers(files, tag, files.len());
    if found.len() > 0 {
        assert(found[0] == found[0]);
    }
}

} // verus!
