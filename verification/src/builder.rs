//! Reconstruction of the cleartext tree from the enciphered filesystem, and
//! search over one directory's entries.
//!
//! The filesystem itself is handed in as plain values (`RawTree`, a snapshot
//! of blob names); this module deciphers every segment name and rebuilds the
//! cleartext namespace. The failure policy is all-or-nothing: one
//! undecipherable segment anywhere aborts the whole build with its error, and
//! no partial tree is ever returned.

use crate::errors::ErrorKind;
use crate::text::{contains_seq, str_contains, str_eq};
use crate::transform::{det_decipher, retransform_entry, EncryptionParams};
use crate::tree::{forest_view, lemma_forest_view, tree_view, TreeNode, TreeShape};
use vstd::prelude::*;

verus! {

/// The enciphered filesystem as plain values: each name is the blob standing
/// on disk for one path segment; a directory carries its children in the
/// order the filesystem enumerated them (unspecified, not guaranteed sorted).
pub enum RawTree {
    Dir(String, Vec<RawTree>),
    File(String),
}

/// The shape of a raw tree: blob names as character sequences.
pub open spec fn raw_view(t: RawTree) -> TreeShape
    decreases t,
{
    match t {
        RawTree::File(s) => TreeShape::Leaf(s@),
        RawTree::Dir(s, children) => TreeShape::Node(s@, raw_forest_view(children@)),
    }
}

/// The shapes of a list of raw trees, in order.
pub open spec fn raw_forest_view(children: Seq<RawTree>) -> Seq<TreeShape>
    decreases children,
{
    if children.len() == 0 {
        Seq::empty()
    } else {
        seq![raw_view(children[0])] + raw_forest_view(
            children.subrange(1, children.len() as int),
        )
    }
}

/// `raw_forest_view` maps `raw_view` over the list, element by element.
pub proof fn lemma_raw_forest_view(children: Seq<RawTree>)
    ensures
        raw_forest_view(children).len() == children.len(),
        forall|i: int|
            0 <= i < children.len() ==> #[trigger] raw_forest_view(children)[i] == raw_view(
                children[i],
            ),
    decreases children,
{
    if children.len() > 0 {
        lemma_raw_forest_view(children.subrange(1, children.len() as int));
        assert(forall|i: int|
            1 <= i < children.len() ==> #[trigger] children[i] == children.subrange(
                1,
                children.len() as int,
            )[i - 1]);
    }
}

/// What building the cleartext tree from a raw shape returns. A file's blob
/// name is deciphered into a leaf. A directory's children are built first, in
/// order, the first failure aborting everything; then the directory's own
/// name is deciphered — unless `is_root` is set, in which case the root keeps
/// the display name the caller gave it, since it has no ciphertext name of
/// its own.
pub open spec fn build_model(raw: TreeShape, is_root: bool, key: Seq<u8>, iv: Seq<u8>) -> Result<
    TreeShape,
    ErrorKind,
>
    decreases raw,
{
    match raw {
        TreeShape::Leaf(blob) => match det_decipher(key, iv, blob) {
            Ok(name) => Ok(TreeShape::Leaf(name)),
            Err(e) => Err(e),
        },
        TreeShape::Node(blob, children) => match build_forest_model(children, key, iv) {
            Ok(built) => if is_root {
                Ok(TreeShape::Node(blob, built))
            } else {
                match det_decipher(key, iv, blob) {
                    Ok(name) => Ok(TreeShape::Node(name, built)),
                    Err(e) => Err(e),
                }
            },
            Err(e) => Err(e),
        },
    }
}

/// Building a forest of raw shapes: every child in order, the first failure
/// aborting the whole forest.
pub open spec fn build_forest_model(children: Seq<TreeShape>, key: Seq<u8>, iv: Seq<u8>) -> Result<
    Seq<TreeShape>,
    ErrorKind,
>
    decreases children,
{
    if children.len() == 0 {
        Ok(Seq::empty())
    } else {
        match build_model(children[0], false, key, iv) {
            Ok(t) => match build_forest_model(children.drop_first(), key, iv) {
                Ok(rest) => Ok(seq![t] + rest),
                Err(e) => Err(e),
            },
            Err(e) => Err(e),
        }
    }
}

proof fn lemma_build_forest_skip(children: Seq<TreeShape>, key: Seq<u8>, iv: Seq<u8>, i: int)
    requires
        0 <= i < children.len(),
    ensures
        build_forest_model(children.skip(i), key, iv) == (match build_model(
            children[i],
            false,
            key,
            iv,
        ) {
            Ok(t) => match build_forest_model(children.skip(i + 1), key, iv) {
                Ok(rest) => Ok::<Seq<TreeShape>, ErrorKind>(seq![t] + rest),
                Err(e) => Err(e),
            },
            Err(e) => Err(e),
        }),
{
    assert(children.skip(i).len() > 0);
    assert(children.skip(i)[0] == children[i]);
    assert(children.skip(i).drop_first() =~= children.skip(i + 1));
}

/// Build the cleartext tree from a snapshot of the enciphered filesystem,
/// deciphering every segment name; all-or-nothing, exactly as `build_model`
/// says.
#[verifier::loop_isolation(false)]
pub fn build_tree(raw: &RawTree, is_root: bool, enc_params: &EncryptionParams) -> (r: Result<
    TreeNode,
    ErrorKind,
>)
    requires
        enc_params.wf(),
    ensures
        match build_model(raw_view(*raw), is_root, enc_params.key@, enc_params.iv@) {
            Ok(shape) => r is Ok && tree_view(r->Ok_0) == shape,
            Err(e) => r is Err && r->Err_0 == e,
        },
    decreases *raw,
{
    match raw {
        RawTree::File(blob) => match retransform_entry(enc_params, blob.as_str()) {
            Ok(name) => Ok(TreeNode::Leaf(name)),
            Err(e) => Err(e),
        },
        RawTree::Dir(blob, children) => {
            let ghost key = enc_params.key@;
            let ghost iv = enc_params.iv@;
            let ghost rcs = raw_view(*raw)->Node_1;
            proof {
                lemma_raw_forest_view(children@);
                assert(rcs.skip(0) =~= rcs);
            }
            let mut built: Vec<TreeNode> = Vec::new();
            let mut i: usize = 0;
            while i < children.len()
                invariant
                    0 <= i <= children@.len(),
                    built@.len() == i,
                    build_forest_model(rcs, key, iv) == (match build_forest_model(
                        rcs.skip(i as int),
                        key,
                        iv,
                    ) {
                        Ok(rest) => Ok::<Seq<TreeShape>, ErrorKind>(forest_view(built@) + rest),
                        Err(e) => Err(e),
                    }),
                decreases children@.len() - i,
            {
                proof {
                    assert(decreases_to!(*raw => (*raw)->Dir_1));
                    assert(decreases_to!((*raw)->Dir_1 => (*raw)->Dir_1@));
                    assert((*raw)->Dir_1@ == children@);
                    assert(decreases_to!(children@ => children@[i as int]));
                }
                let ghost built0 = built@;
                match build_tree(&children[i], false, enc_params) {
                    Ok(t) => {
                        proof {
                            lemma_build_forest_skip(rcs, key, iv, i as int);
                        }
                        built.push(t);
                        proof {
                            lemma_forest_view(built0);
                            lemma_forest_view(built@);
                            assert(forest_view(built@) =~= forest_view(built0).push(tree_view(t)));
                            if build_forest_model(rcs.skip(i as int + 1), key, iv) is Ok {
                                let rest = build_forest_model(
                                    rcs.skip(i as int + 1),
                                    key,
                                    iv,
                                )->Ok_0;
                                assert(forest_view(built0) + (seq![tree_view(t)] + rest)
                                    =~= forest_view(built@) + rest);
                            }
                        }
                    },
                    Err(e) => {
                        proof {
                            lemma_build_forest_skip(rcs, key, iv, i as int);
                        }
                        return Err(e);
                    },
                }
                i += 1;
            }
            proof {
                assert(rcs.skip(rcs.len() as int) =~= Seq::<TreeShape>::empty());
                assert(forest_view(built@) + Seq::<TreeShape>::empty() =~= forest_view(built@));
            }
            if is_root {
                let r = TreeNode::Node(blob.clone(), built);
                proof {
                    assert(tree_view(r) == TreeShape::Node(blob@, forest_view(built@)));
                }
                Ok(r)
            } else {
                match retransform_entry(enc_params, blob.as_str()) {
                    Ok(name) => {
                        let r = TreeNode::Node(name, built);
                        Ok(r)
                    },
                    Err(e) => Err(e),
                }
            }
        },
    }
}

/// The views of a listing's entries: each blob name as characters, with its
/// directory flag.
pub open spec fn entry_views(s: Seq<(String, bool)>) -> Seq<(Seq<char>, bool)> {
    Seq::new(s.len(), |i: int| (s[i].0@, s[i].1))
}

/// What searching a directory listing returns: each blob name deciphered in
/// order — the first failure aborting the search — and the cleartext names
/// kept exactly when they contain the pattern as a substring or equal it.
pub open spec fn search_model(
    key: Seq<u8>,
    iv: Seq<u8>,
    entries: Seq<(Seq<char>, bool)>,
    pat: Seq<char>,
) -> Result<Seq<(Seq<char>, bool)>, ErrorKind>
    decreases entries,
{
    if entries.len() == 0 {
        Ok(Seq::empty())
    } else {
        match det_decipher(key, iv, entries[0].0) {
            Ok(clear) => match search_model(key, iv, entries.drop_first(), pat) {
                Ok(rest) => if contains_seq(clear, pat) || clear == pat {
                    Ok(seq![(clear, entries[0].1)] + rest)
                } else {
                    Ok(rest)
                },
                Err(e) => Err(e),
            },
            Err(e) => Err(e),
        }
    }
}

proof fn lemma_search_model_skip(
    key: Seq<u8>,
    iv: Seq<u8>,
    entries: Seq<(Seq<char>, bool)>,
    pat: Seq<char>,
    i: int,
)
    requires
        0 <= i < entries.len(),
    ensures
        search_model(key, iv, entries.skip(i), pat) == (match det_decipher(
            key,
            iv,
            entries[i].0,
        ) {
            Ok(clear) => match search_model(key, iv, entries.skip(i + 1), pat) {
                Ok(rest) => if contains_seq(clear, pat) || clear == pat {
                    Ok::<Seq<(Seq<char>, bool)>, ErrorKind>(seq![(clear, entries[i].1)] + rest)
                } else {
                    Ok(rest)
                },
                Err(e) => Err(e),
            },
            Err(e) => Err(e),
        }),
{
    assert(entries.skip(i).len() > 0);
    assert(entries.skip(i)[0] == entries[i]);
    assert(entries.skip(i).drop_first() =~= entries.skip(i + 1));
}

/// Search one directory's entries: decipher every name — aborting on the
/// first failure — and keep those whose cleartext contains the pattern as a
/// substring or equals it, with their directory flags, in listing order.
#[verifier::loop_isolation(false)]
pub fn search_entries(
    enc_params: &EncryptionParams,
    entries: &Vec<(String, bool)>,
    pattern: &str,
) -> (r: Result<Vec<(String, bool)>, ErrorKind>)
    requires
        enc_params.wf(),
    ensures
        match search_model(enc_params.key@, enc_params.iv@, entry_views(entries@), pattern@) {
            Ok(list) => r is Ok && entry_views(r->Ok_0@) == list,
            Err(e) => r is Err && r->Err_0 == e,
        },
{
    let ghost key = enc_params.key@;
    let ghost iv = enc_params.iv@;
    let ghost evs = entry_views(entries@);
    let mut filtered: Vec<(String, bool)> = Vec::new();
    let mut i: usize = 0;
    proof {
        assert(evs.skip(0) =~= evs);
        assert(entry_views(filtered@) =~= Seq::<(Seq<char>, bool)>::empty());
    }
    while i < entries.len()
        invariant
            0 <= i <= entries@.len(),
            evs.len() == entries@.len(),
            search_model(key, iv, evs, pattern@) == (match search_model(
                key,
                iv,
                evs.skip(i as int),
                pattern@,
            ) {
                Ok(rest) => Ok::<Seq<(Seq<char>, bool)>, ErrorKind>(
                    entry_views(filtered@) + rest,
                ),
                Err(e) => Err(e),
            }),
        decreases entries@.len() - i,
    {
        let clear = match retransform_entry(enc_params, entries[i].0.as_str()) {
            Ok(c) => c,
            Err(e) => {
                proof {
                    lemma_search_model_skip(key, iv, evs, pattern@, i as int);
                }
                return Err(e);
            },
        };
        proof {
            lemma_search_model_skip(key, iv, evs, pattern@, i as int);
        }
        let ghost f0 = filtered@;
        let ghost cv = clear@;
        if str_contains(clear.as_str(), pattern) || str_eq(clear.as_str(), pattern) {
            let keep_dir = entries[i].1;
            filtered.push((clear, keep_dir));
            proof {
                assert(entry_views(filtered@) =~= entry_views(f0).push((cv, keep_dir)));
                if search_model(key, iv, evs.skip(i as int + 1), pattern@) is Ok {
                    let rest = search_model(key, iv, evs.skip(i as int + 1), pattern@)->Ok_0;
                    assert(entry_views(f0) + (seq![(cv, keep_dir)] + rest) =~= entry_views(
                        filtered@,
                    ) + rest);
                }
            }
        }
        i += 1;
    }
    proof {
        assert(evs.skip(evs.len() as int) =~= Seq::<(Seq<char>, bool)>::empty());
        assert(entry_views(filtered@) + Seq::<(Seq<char>, bool)>::empty() =~= entry_views(
            filtered@,
        ));
    }
    Ok(filtered)
}

} // verus!
