//! The import tree and its flattening: a depth-first traversal that
//! accumulates a path prefix and emits one record per leaf.

use vstd::prelude::*;

use crate::import::{seg_views, import_views, import_record, Import, ImportView};

verus! {

/// The path of an import-tree node.
pub enum UsePath {
    /// The path is the bare keyword `self`: it denotes the accumulated
    /// prefix, bound under the prefix's own last name.
    SelfRef,
    /// The named segments of the path, innermost first (leaf to root, as a
    /// qualifier chain is walked); flattening reverses them.
    Segments(Vec<String>),
}

/// One node of a parsed import statement: an optional path, then at most one
/// of a nested group of children, a rename target (a name, or the discard
/// marker `_`), or the wildcard marker `*`; a node with none of the three is
/// a plain leaf bound under its path's last segment.
pub struct UseTree {
    pub path: Option<UsePath>,
    pub children: Option<Vec<UseTree>>,
    pub rename: Option<String>,
    pub star: bool,
}

/// The prefix a node with path segments `segs` (innermost first) hands down:
/// the incoming prefix extended with the segments in root-to-leaf order.
pub open spec fn extended_prefix(prefix: Seq<Seq<char>>, segs: Seq<String>) -> Seq<Seq<char>> {
    prefix + seg_views(segs).reverse()
}

/// The records that flattening node `t` under `prefix` emits, in source
/// order: a group concatenates its children's records left to right; a
/// self-reference, a rename, a wildcard and a plain leaf emit one record
/// each; a self-reference under an empty prefix, and a node without a path,
/// emit nothing.
pub open spec fn flatten_tree(t: UseTree, prefix: Seq<Seq<char>>) -> Seq<ImportView>
    decreases t,
{
    match t.path {
        None => Seq::empty(),
        Some(UsePath::SelfRef) => {
            if prefix.len() > 0 {
                seq![import_record(prefix.last(), prefix)]
            } else {
                Seq::empty()
            }
        },
        Some(UsePath::Segments(segs)) => {
            let new_prefix = extended_prefix(prefix, segs@);
            match t.children {
                Some(cs) => flatten_children(cs@, new_prefix),
                None => {
                    match t.rename {
                        Some(name) => seq![import_record(name@, new_prefix)],
                        None => {
                            if t.star {
                                seq![import_record("*"@, new_prefix.push("*"@))]
                            } else if new_prefix.len() > 0 {
                                seq![import_record(new_prefix.last(), new_prefix)]
                            } else {
                                Seq::empty()
                            }
                        },
                    }
                },
            }
        },
    }
}

/// The records of a group's children, all sharing one prefix, concatenated
/// in order.
pub open spec fn flatten_children(cs: Seq<UseTree>, prefix: Seq<Seq<char>>) -> Seq<ImportView>
    decreases cs,
{
    if cs.len() == 0 {
        Seq::empty()
    } else {
        flatten_children(cs.subrange(0, cs.len() - 1), prefix) + flatten_tree(
            cs[cs.len() - 1],
            prefix,
        )
    }
}

/// A tree is well formed under a (non-)empty prefix when no plain leaf —
/// a node with a path of segments but no children, no rename and no wildcard
/// — is reached with nothing accumulated: such a leaf denotes no name and
/// cannot come from a well-formed import statement.
pub open spec fn tree_ok(t: UseTree, have_prefix: bool) -> bool
    decreases t,
{
    match t.path {
        None => true,
        Some(UsePath::SelfRef) => true,
        Some(UsePath::Segments(segs)) => {
            let have = have_prefix || segs@.len() > 0;
            match t.children {
                Some(cs) => children_ok(cs@, have),
                None => t.rename is Some || t.star || have,
            }
        },
    }
}

/// Every child of a group is well formed under the group's prefix.
pub open spec fn children_ok(cs: Seq<UseTree>, have_prefix: bool) -> bool
    decreases cs,
{
    forall|i: int| 0 <= i < cs.len() ==> tree_ok(#[trigger] cs[i], have_prefix)
}

/// Flattens `tree` into import records, in depth-first source order.
pub fn use_tree_names(tree: &UseTree) -> (out: Vec<Import>)
    requires
        tree_ok(*tree, false),
    ensures
        import_views(out@) == flatten_tree(*tree, Seq::empty()),
{
    let mut out: Vec<Import> = Vec::new();
    let prefix: Vec<String> = Vec::new();
    process_use_tree(tree, &prefix, &mut out);
    proof {
        assert(seg_views(prefix@) =~= Seq::<Seq<char>>::empty());
        assert(import_views(out@) =~= flatten_tree(*tree, Seq::empty()));
    }
    out
}

/// Walks one node: extends the prefix with the node's own path segments and
/// either recurses into a group or emits the node's single record.
fn process_use_tree(tree: &UseTree, prefix: &Vec<String>, out: &mut Vec<Import>)
    requires
        tree_ok(*tree, prefix@.len() > 0),
    ensures
        import_views(final(out)@) == import_views(old(out)@) + flatten_tree(
            *tree,
            seg_views(prefix@),
        ),
    decreases *tree,
{
    match &tree.path {
        None => {
            proof {
                assert(import_views(out@) =~= import_views(old(out)@) + flatten_tree(
                    *tree,
                    seg_views(prefix@),
                ));
            }
        },
        Some(UsePath::SelfRef) => {
            if prefix.len() > 0 {
                let imp = Import::format(&prefix[prefix.len() - 1], prefix);
                out.push(imp);
                proof {
                    assert(seg_views(prefix@).last() == prefix@.last()@);
                    assert(import_views(out@) =~= import_views(old(out)@) + flatten_tree(
                        *tree,
                        seg_views(prefix@),
                    ));
                }
            } else {
                proof {
                    assert(import_views(out@) =~= import_views(old(out)@) + flatten_tree(
                        *tree,
                        seg_views(prefix@),
                    ));
                }
            }
        },
        Some(UsePath::Segments(segs)) => {
            // Combine the existing prefix with the node's own segments,
            // reversed into root-to-leaf order.
            let mut new_prefix: Vec<String> = Vec::new();
            let mut i: usize = 0;
            while i < prefix.len()
                invariant
                    i <= prefix.len(),
                    new_prefix@ == prefix@.take(i as int),
                decreases prefix.len() - i,
            {
                new_prefix.push(prefix[i].clone());
                proof {
                    assert(prefix@.take(i + 1) =~= prefix@.take(i as int).push(prefix@[i as int]));
                }
                i += 1;
            }
            proof {
                assert(prefix@.take(prefix@.len() as int) =~= prefix@);
                assert(prefix@ + segs@.skip(segs@.len() as int).reverse() =~= prefix@);
            }
            let mut j: usize = segs.len();
            while j > 0
                invariant
                    j <= segs.len(),
                    new_prefix@ == prefix@ + segs@.skip(j as int).reverse(),
                decreases j,
            {
                j -= 1;
                new_prefix.push(segs[j].clone());
                proof {
                    assert(segs@.skip(j as int).reverse() =~= segs@.skip(j + 1).reverse().push(
                        segs@[j as int],
                    ));
                }
            }
            proof {
                assert(segs@.skip(0).reverse() =~= segs@.reverse());
                assert(new_prefix@ == prefix@ + segs@.reverse());
                assert(seg_views(new_prefix@) =~= extended_prefix(seg_views(prefix@), segs@));
            }
            let ghost np: Seq<Seq<char>> = extended_prefix(seg_views(prefix@), segs@);
            let ghost have: bool = new_prefix@.len() > 0;
            proof {
                assert(have == (prefix@.len() > 0 || segs@.len() > 0));
            }
            // Recurse into any subtree.
            if let Some(cs) = &tree.children {
                let mut k: usize = 0;
                while k < cs.len()
                    invariant
                        k <= cs.len(),
                        tree.children == Some(*cs),
                        seg_views(new_prefix@) == np,
                        (new_prefix@.len() > 0) == have,
                        children_ok(cs@, have),
                        import_views(out@) == import_views(old(out)@) + flatten_children(
                            cs@.take(k as int),
                            np,
                        ),
                    decreases cs.len() - k,
                {
                    proof {
                        assert(decreases_to!(tree.children->0@ => tree.children->0@[k as int]));
                        assert(decreases_to!(*tree => cs@[k as int]));
                    }
                    process_use_tree(&cs[k], &new_prefix, out);
                    proof {
                        assert(cs@.take(k + 1).subrange(0, k as int) =~= cs@.take(k as int));
                        assert(cs@.take(k + 1)[k as int] == cs@[k as int]);
                        assert(import_views(out@) =~= import_views(old(out)@) + flatten_children(
                            cs@.take(k + 1),
                            np,
                        ));
                    }
                    k += 1;
                }
                proof {
                    assert(cs@.take(cs@.len() as int) =~= cs@);
                    assert(import_views(out@) =~= import_views(old(out)@) + flatten_tree(
                        *tree,
                        seg_views(prefix@),
                    ));
                }
            } else if let Some(name) = &tree.rename {
                let imp = Import::format(name, &new_prefix);
                out.push(imp);
                proof {
                    assert(import_views(out@) =~= import_views(old(out)@) + flatten_tree(
                        *tree,
                        seg_views(prefix@),
                    ));
                }
            } else if tree.star {
                // Append the wildcard marker itself, so the regenerated path
                // ends in `::*`, and bind the record to the marker.
                new_prefix.push(String::from_str("*"));
                let imp = Import::format(&new_prefix[new_prefix.len() - 1], &new_prefix);
                out.push(imp);
                proof {
                    assert(seg_views(new_prefix@) =~= np.push("*"@));
                    assert(seg_views(new_prefix@).last() == "*"@);
                    assert(import_views(out@) =~= import_views(old(out)@) + flatten_tree(
                        *tree,
                        seg_views(prefix@),
                    ));
                }
            } else {
                // A plain leaf: bound under the last segment of the combined
                // path, which well-formedness makes non-empty.
                let imp = Import::format(&new_prefix[new_prefix.len() - 1], &new_prefix);
                out.push(imp);
                proof {
                    assert(seg_views(new_prefix@).last() == new_prefix@.last()@);
                    assert(import_views(out@) =~= import_views(old(out)@) + flatten_tree(
                        *tree,
                        seg_views(prefix@),
                    ));
                }
            }
        },
    }
}

/// Tests the condition under which flattening is defined: no plain leaf of
/// `tree` is reached with an empty accumulated path.
pub fn is_well_formed(tree: &UseTree) -> (b: bool)
    ensures
        b == tree_ok(*tree, false),
{
    tree_ok_exec(tree, false)
}

/// Recursively tests well-formedness under a known prefix state.
fn tree_ok_exec(tree: &UseTree, have_prefix: bool) -> (b: bool)
    ensures
        b == tree_ok(*tree, have_prefix),
    decreases *tree,
{
    match &tree.path {
        None => true,
        Some(UsePath::SelfRef) => true,
        Some(UsePath::Segments(segs)) => {
            let have = have_prefix || segs.len() > 0;
            if let Some(cs) = &tree.children {
                let mut ok = true;
                let mut k: usize = 0;
                while k < cs.len()
                    invariant
                        k <= cs.len(),
                        tree.children == Some(*cs),
                        ok == children_ok(cs@.take(k as int), have),
                    decreases cs.len() - k,
                {
                    proof {
                        assert(decreases_to!(tree.children->0@ => tree.children->0@[k as int]));
                        assert(decreases_to!(*tree => cs@[k as int]));
                    }
                    let c_ok = tree_ok_exec(&cs[k], have);
                    proof {
                        if ok && c_ok {
                            assert forall|i: int| 0 <= i < k + 1 implies tree_ok(
                                #[trigger] cs@.take(k + 1)[i],
                                have,
                            ) by {
                                if i < k {
                                    assert(tree_ok(cs@.take(k as int)[i], have));
                                }
                            }
                        } else if !c_ok {
                            assert(cs@.take(k + 1)[k as int] == cs@[k as int]);
                            assert(!children_ok(cs@.take(k + 1), have));
                        } else {
                            let w: int = choose|i: int|
                                0 <= i < k && !tree_ok(#[trigger] cs@.take(k as int)[i], have);
                            assert(!tree_ok(cs@.take(k + 1)[w], have));
                            assert(!children_ok(cs@.take(k + 1), have));
                        }
                    }
                    ok = ok && c_ok;
                    k += 1;
                }
                proof {
                    assert(cs@.take(cs@.len() as int) =~= cs@);
                }
                ok
            } else if tree.rename.is_some() {
                true
            } else if tree.star {
                true
            } else {
                have
            }
        },
    }
}

} // verus!
