//! Laws of the flattening: determinism, order preservation, prefix
//! correctness, self-elision, rename formatting and record classification.

use vstd::prelude::*;

use crate::flatten::{
    extended_prefix, flatten_children, flatten_tree, UsePath, UseTree,
};
use crate::import::{code_of, import_code, import_record, import_views, join_path, seg_views,
    Import, ImportView};

verus! {

/// Flattening the same tree twice yields identical, identically-ordered
/// records: the output is a function of the tree alone.
pub proof fn lemma_determinism(t: UseTree, a: Seq<Import>, b: Seq<Import>)
    requires
        import_views(a) == flatten_tree(t, Seq::empty()),
        import_views(b) == flatten_tree(t, Seq::empty()),
    ensures
        import_views(a) == import_views(b),
{
}

/// A node with a group of children flattens to exactly its children's
/// records, all sharing the node's extended prefix.
pub proof fn lemma_group_children(t: UseTree, prefix: Seq<Seq<char>>, segs: Vec<String>, cs: Vec<
    UseTree,
>)
    requires
        t.path == Some(UsePath::Segments(segs)),
        t.children == Some(cs),
    ensures
        flatten_tree(t, prefix) == flatten_children(cs@, extended_prefix(prefix, segs@)),
{
}

/// The records of a group's children split around any position `i`: children
/// before `i` come first, children from `i` on come after, every child under
/// the same shared prefix.
pub proof fn lemma_children_split(cs: Seq<UseTree>, prefix: Seq<Seq<char>>, i: int)
    requires
        0 <= i <= cs.len(),
    ensures
        flatten_children(cs, prefix) == flatten_children(cs.take(i), prefix) + flatten_children(
            cs.skip(i),
            prefix,
        ),
    decreases cs.len(),
{
    if i == cs.len() {
        assert(cs.take(i) =~= cs);
        assert(cs.skip(i) =~= Seq::<UseTree>::empty());
        assert(flatten_children(cs.take(i), prefix) + flatten_children(cs.skip(i), prefix)
            =~= flatten_children(cs, prefix));
    } else {
        let front = cs.subrange(0, cs.len() - 1);
        lemma_children_split(front, prefix, i);
        assert(front.take(i) =~= cs.take(i));
        assert(cs.skip(i).subrange(0, cs.len() - i - 1) =~= front.skip(i));
        assert(cs.skip(i)[cs.len() - i - 1] == cs[cs.len() - 1]);
        assert(cs.skip(i).len() == cs.len() - i);
        assert(flatten_children(cs.take(i), prefix) + flatten_children(cs.skip(i), prefix)
            =~= flatten_children(cs, prefix));
    }
}

/// For a group `{A, B, C}`, the output records appear in the order of the
/// children: everything the `i`-th child emits stands after its left
/// siblings' records and before its right siblings', and each child is
/// flattened under the group's shared prefix, untouched by its siblings.
pub proof fn lemma_order_preservation(cs: Seq<UseTree>, prefix: Seq<Seq<char>>, i: int)
    requires
        0 <= i < cs.len(),
    ensures
        flatten_children(cs, prefix) == flatten_children(cs.take(i), prefix) + flatten_tree(
            cs[i],
            prefix,
        ) + flatten_children(cs.skip(i + 1), prefix),
{
    lemma_children_split(cs, prefix, i + 1);
    lemma_children_split(cs.take(i + 1), prefix, i);
    assert(cs.take(i + 1).take(i) =~= cs.take(i));
    assert(cs.take(i + 1).skip(i) =~= seq![cs[i]]);
    assert(seq![cs[i]].subrange(0, 0) =~= Seq::<UseTree>::empty());
    assert(flatten_children(seq![cs[i]], prefix) =~= flatten_tree(cs[i], prefix));
    assert(flatten_children(cs, prefix) =~= flatten_children(cs.take(i), prefix) + flatten_tree(
        cs[i],
        prefix,
    ) + flatten_children(cs.skip(i + 1), prefix));
}

/// Joining distributes over the concatenation of two non-empty paths, with
/// one separator between the halves.
pub proof fn lemma_join_path_concat(a: Seq<Seq<char>>, b: Seq<Seq<char>>)
    requires
        a.len() > 0,
        b.len() > 0,
    ensures
        join_path(a + b) == join_path(a) + "::"@ + join_path(b),
    decreases b.len(),
{
    if b.len() == 1 {
        assert((a + b).drop_last() =~= a);
        assert((a + b).last() == b[0]);
    } else {
        lemma_join_path_concat(a, b.drop_last());
        assert((a + b).drop_last() =~= a + b.drop_last());
        assert((a + b).last() == b.last());
        assert(join_path(a + b) =~= join_path(a) + "::"@ + join_path(b));
    }
}

/// A sequence that starts a second one also starts any extension of it.
proof fn lemma_prefix_transitive(a: Seq<char>, b: Seq<char>, c: Seq<char>)
    requires
        a.is_prefix_of(b),
        b.is_prefix_of(c),
    ensures
        a.is_prefix_of(c),
{
    assert(a =~= c.subrange(0, a.len() as int));
}

/// Every record a node emits keeps the node's whole starting prefix: its
/// code begins with `use ` followed by the joined prefix; and when the node
/// has path segments of its own, the separator `::` follows.
#[verifier::rlimit(50)]
pub proof fn lemma_records_extend_prefix(t: UseTree, prefix: Seq<Seq<char>>, i: int)
    requires
        prefix.len() > 0,
        0 <= i < flatten_tree(t, prefix).len(),
    ensures
        ("use "@ + join_path(prefix)).is_prefix_of(code_of(flatten_tree(t, prefix)[i])),
        (t.path matches Some(UsePath::Segments(segs)) && segs@.len() > 0) ==> ("use "@ + join_path(
            prefix,
        ) + "::"@).is_prefix_of(code_of(flatten_tree(t, prefix)[i])),
    decreases t,
{
    match t.path {
        None => {},
        Some(UsePath::SelfRef) => {
            let code = code_of(flatten_tree(t, prefix)[i]);
            assert(code == import_code(prefix.last(), prefix));
            assert(("use "@ + join_path(prefix)).is_prefix_of(code));
        },
        Some(UsePath::Segments(segs)) => {
            let ext = seg_views(segs@).reverse();
            let np = extended_prefix(prefix, segs@);
            if segs@.len() > 0 {
                lemma_join_path_concat(prefix, ext);
            } else {
                assert(np =~= prefix);
            }
            match t.children {
                Some(cs) => {
                    assert(decreases_to!(t.children->0 => t.children->0@));
                    assert(decreases_to!(t => cs@));
                    lemma_children_records_extend_prefix(cs@, np, i);
                    let code = code_of(flatten_tree(t, prefix)[i]);
                    assert(("use "@ + join_path(np)).is_prefix_of(code));
                    if segs@.len() > 0 {
                        assert(("use "@ + join_path(prefix) + "::"@).is_prefix_of(
                            "use "@ + join_path(np),
                        ));
                        lemma_prefix_transitive(
                            "use "@ + join_path(prefix) + "::"@,
                            "use "@ + join_path(np),
                            code,
                        );
                        assert(("use "@ + join_path(prefix)).is_prefix_of(
                            "use "@ + join_path(prefix) + "::"@,
                        ));
                        lemma_prefix_transitive(
                            "use "@ + join_path(prefix),
                            "use "@ + join_path(prefix) + "::"@,
                            code,
                        );
                    }
                },
                None => {
                    let code = code_of(flatten_tree(t, prefix)[i]);
                    match t.rename {
                        Some(name) => {
                            assert(code == import_code(name@, np));
                        },
                        None => {
                            if t.star {
                                let starred = np.push("*"@);
                                assert(starred =~= prefix + ext.push("*"@));
                                lemma_join_path_concat(prefix, ext.push("*"@));
                                assert(code == import_code("*"@, starred));
                            } else {
                                assert(code == import_code(np.last(), np));
                            }
                        },
                    }
                    assert(("use "@ + join_path(prefix)).is_prefix_of(code));
                    if segs@.len() > 0 {
                        assert(("use "@ + join_path(prefix) + "::"@).is_prefix_of(code));
                    }
                },
            }
        },
    }
}

/// Every record a group's children emit keeps the group's prefix.
pub proof fn lemma_children_records_extend_prefix(cs: Seq<UseTree>, prefix: Seq<Seq<char>>, i: int)
    requires
        prefix.len() > 0,
        0 <= i < flatten_children(cs, prefix).len(),
    ensures
        ("use "@ + join_path(prefix)).is_prefix_of(code_of(flatten_children(cs, prefix)[i])),
    decreases cs,
{
    let front = cs.subrange(0, cs.len() - 1);
    if i < flatten_children(front, prefix).len() {
        lemma_children_records_extend_prefix(front, prefix, i);
    } else {
        lemma_records_extend_prefix(
            cs[cs.len() - 1],
            prefix,
            i - flatten_children(front, prefix).len(),
        );
    }
}

/// For `use p::q::{r, s};`: a child of a group that carries path segments of
/// its own emits only records whose code begins with `use p::q::` — the
/// group's joined path followed by the separator.
pub proof fn lemma_prefix_correctness(c: UseTree, group_path: Seq<Seq<char>>, segs: Vec<String>, i: int)
    requires
        group_path.len() > 0,
        c.path == Some(UsePath::Segments(segs)),
        segs@.len() > 0,
        0 <= i < flatten_tree(c, group_path).len(),
    ensures
        ("use "@ + join_path(group_path) + "::"@).is_prefix_of(
            code_of(flatten_tree(c, group_path)[i]),
        ),
{
    lemma_records_extend_prefix(c, group_path, i);
}

/// Absorbing a lone `self` child: a node `p::q::{self}` emits exactly one
/// record, bound to the path's own last name, with code `use p::q;` — no
/// rename marker.
pub proof fn lemma_self_elision(
    t: UseTree,
    prefix: Seq<Seq<char>>,
    segs: Vec<String>,
    cs: Vec<UseTree>,
)
    requires
        t.path == Some(UsePath::Segments(segs)),
        t.children == Some(cs),
        cs@.len() == 1,
        cs@[0].path == Some(UsePath::SelfRef),
        prefix.len() + segs@.len() > 0,
    ensures
        flatten_tree(t, prefix) == seq![
            import_record(
                extended_prefix(prefix, segs@).last(),
                extended_prefix(prefix, segs@),
            ),
        ],
        import_code(extended_prefix(prefix, segs@).last(), extended_prefix(prefix, segs@))
            == "use "@ + join_path(extended_prefix(prefix, segs@)) + ";"@,
{
    let np = extended_prefix(prefix, segs@);
    assert(np.len() > 0);
    assert(cs@.subrange(0, 0) =~= Seq::<UseTree>::empty());
    assert(cs@[cs@.len() - 1] == cs@[0]);
    assert(flatten_children(Seq::<UseTree>::empty(), np) =~= Seq::<ImportView>::empty());
    assert(flatten_tree(cs@[0], np) == seq![import_record(np.last(), np)]);
    assert(flatten_tree(t, prefix) =~= seq![import_record(np.last(), np)]);
}

/// `needle` occurs contiguously somewhere in `hay`.
pub open spec fn contains_seq(hay: Seq<char>, needle: Seq<char>) -> bool {
    exists|k: int|
        0 <= k && k + needle.len() <= hay.len() && #[trigger] hay.subrange(
            k,
            k + needle.len() as int,
        ) == needle
}

/// No space character occurs in `s`.
pub open spec fn space_free(s: Seq<char>) -> bool {
    forall|j: int| 0 <= j < s.len() ==> s[j] != ' '
}

/// A join of space-free segments is space-free.
proof fn lemma_join_path_space_free(path: Seq<Seq<char>>)
    requires
        forall|i: int| 0 <= i < path.len() ==> space_free(#[trigger] path[i]),
    ensures
        space_free(join_path(path)),
    decreases path.len(),
{
    reveal_strlit("::");
    if path.len() <= 1 {
    } else {
        lemma_join_path_space_free(path.drop_last());
        assert(space_free(path.last()));
    }
}

/// A binding whose name equals its path's last segment is formatted without
/// a rename: when no segment holds a space, the marker ` as ` occurs nowhere
/// in its code.
pub proof fn lemma_no_rename_no_as(name: Seq<char>, path: Seq<Seq<char>>)
    requires
        path.len() > 0,
        path.last() == name,
        forall|i: int| 0 <= i < path.len() ==> space_free(#[trigger] path[i]),
    ensures
        !contains_seq(import_code(name, path), " as "@),
{
    reveal_strlit("use ");
    reveal_strlit(";");
    reveal_strlit(" as ");
    lemma_join_path_space_free(path);
    let code = import_code(name, path);
    let joined = join_path(path);
    assert(code == "use "@ + joined + ";"@);
    assert forall|p: int| 0 <= p < code.len() && #[trigger] code[p] == ' ' implies p == 3 by {
        if 4 <= p < 4 + joined.len() {
            assert(code[p] == joined[p - 4]);
        } else if p >= 4 + joined.len() {
            assert(code[p] == ';');
        }
    }
    if contains_seq(code, " as "@) {
        let k: int = choose|k: int|
            0 <= k && k + " as "@.len() <= code.len() && #[trigger] code.subrange(
                k,
                k + " as "@.len() as int,
            ) == " as "@;
        assert(code.subrange(k, k + 4)[0] == code[k]);
        assert(code.subrange(k, k + 4)[3] == code[k + 3]);
        assert(code[k] == ' ' && code[k + 3] == ' ');
        assert(false);
    }
}

/// A binding whose name differs from its path's last segment is formatted
/// with a rename: the marker ` as ` always occurs in its code.
pub proof fn lemma_rename_has_as(name: Seq<char>, path: Seq<Seq<char>>)
    requires
        !(path.len() > 0 && path.last() == name),
    ensures
        contains_seq(import_code(name, path), " as "@),
{
    reveal_strlit("use ");
    reveal_strlit(" as ");
    let code = import_code(name, path);
    let joined = join_path(path);
    let k: int = 4 + joined.len() as int;
    assert(code == "use "@ + joined + " as "@ + name + ";"@);
    assert(code.subrange(k, k + " as "@.len() as int) =~= " as "@);
    assert(0 <= k && k + " as "@.len() <= code.len());
}

/// Classification: the discard marker `_` and the wildcard marker `*` yield
/// `Unnamed`; every other name yields `Named` carrying that exact name.
pub proof fn lemma_classification(name: Seq<char>, path: Seq<Seq<char>>)
    ensures
        (name == "_"@ || name == "*"@) ==> import_record(name, path) == ImportView::Unnamed(
            import_code(name, path),
        ),
        !(name == "_"@ || name == "*"@) ==> import_record(name, path) == (ImportView::Named {
            name: name,
            code: import_code(name, path),
        }),
{
}

} // verus!
