use use_trees::flatten::{is_well_formed, use_tree_names, UsePath, UseTree};
use use_trees::import::Import;

fn strings(segs: &[&str]) -> Vec<String> {
    segs.iter().map(|s| s.to_string()).collect()
}

/// A node with the named path segments, given innermost first (leaf to
/// root), as a qualifier chain is walked.
fn node(segs: &[&str]) -> UseTree {
    UseTree { path: Some(UsePath::Segments(strings(segs))), children: None, rename: None, star: false }
}

fn group(segs: &[&str], children: Vec<UseTree>) -> UseTree {
    UseTree { children: Some(children), ..node(segs) }
}

fn renamed(segs: &[&str], name: &str) -> UseTree {
    UseTree { rename: Some(name.to_string()), ..node(segs) }
}

fn wildcard(segs: &[&str]) -> UseTree {
    UseTree { star: true, ..node(segs) }
}

fn self_ref() -> UseTree {
    UseTree { path: Some(UsePath::SelfRef), children: None, rename: None, star: false }
}

fn unnamed(code: &str) -> Import {
    Import::Unnamed(code.to_owned())
}

fn named(name: &str, code: &str) -> Import {
    Import::Named { name: name.to_owned(), code: code.to_owned() }
}

#[test]
fn test_complex_tree() {
    // use std::collections::{self, hash_map::{HashMap}, HashSet as MyHashSet};
    let tree = group(
        &["collections", "std"],
        vec![
            self_ref(),
            group(&["hash_map"], vec![node(&["HashMap"])]),
            renamed(&["HashSet"], "MyHashSet"),
        ],
    );
    assert_eq!(
        use_tree_names(&tree),
        vec![
            named("collections", "use std::collections;"),
            named("HashMap", "use std::collections::hash_map::HashMap;"),
            named("MyHashSet", "use std::collections::HashSet as MyHashSet;")
        ]
    );
}

#[test]
fn test_underscore() {
    // use foo::bar::MyTrait as _;
    let tree = renamed(&["MyTrait", "bar", "foo"], "_");
    assert_eq!(use_tree_names(&tree), vec![unnamed("use foo::bar::MyTrait as _;")]);
}

#[test]
fn test_glob() {
    // use foo::bar::*;
    let tree = wildcard(&["bar", "foo"]);
    assert_eq!(use_tree_names(&tree), vec![unnamed("use foo::bar::*;")]);
}

#[test]
fn test_plain_leaf() {
    // use std::mem::swap;
    let tree = node(&["swap", "mem", "std"]);
    assert_eq!(use_tree_names(&tree), vec![named("swap", "use std::mem::swap;")]);
}

#[test]
fn test_determinism() {
    let tree = group(
        &["b", "a"],
        vec![node(&["c"]), renamed(&["d"], "e"), wildcard(&["f"])],
    );
    let first = use_tree_names(&tree);
    let second = use_tree_names(&tree);
    assert_eq!(first, second);
}

#[test]
fn test_order_preservation() {
    // use p::{a, b::{c}, d}; records come in source order a, c, d.
    let tree = group(
        &["p"],
        vec![node(&["a"]), group(&["b"], vec![node(&["c"])]), node(&["d"])],
    );
    assert_eq!(
        use_tree_names(&tree),
        vec![
            named("a", "use p::a;"),
            named("c", "use p::b::c;"),
            named("d", "use p::d;")
        ]
    );
}

#[test]
fn test_prefix_correctness() {
    // use p::q::{r, s}; both codes begin with "use p::q::".
    let tree = group(&["q", "p"], vec![node(&["r"]), node(&["s"])]);
    let out = use_tree_names(&tree);
    assert_eq!(out.len(), 2);
    for record in &out {
        match record {
            Import::Named { name: _, code } => assert!(code.starts_with("use p::q::")),
            Import::Unnamed(_) => panic!("expected named records"),
        }
    }
}

#[test]
fn test_self_elision() {
    // use p::q::{self}; one record, bound under the path's own tail.
    let tree = group(&["q", "p"], vec![self_ref()]);
    assert_eq!(use_tree_names(&tree), vec![named("q", "use p::q;")]);
}

#[test]
fn test_self_under_single_segment() {
    // use a::{self};
    let tree = group(&["a"], vec![self_ref()]);
    assert_eq!(use_tree_names(&tree), vec![named("a", "use a;")]);
}

#[test]
fn test_degenerate_self_skipped() {
    // A bare self reference with nothing accumulated denotes nothing.
    let tree = self_ref();
    assert_eq!(use_tree_names(&tree), Vec::<Import>::new());
}

#[test]
fn test_no_path_emits_nothing() {
    let tree = UseTree { path: None, children: None, rename: None, star: false };
    assert_eq!(use_tree_names(&tree), Vec::<Import>::new());
}

#[test]
fn test_empty_group() {
    // use a::{};
    let tree = group(&["a"], vec![]);
    assert_eq!(use_tree_names(&tree), Vec::<Import>::new());
}

#[test]
fn test_rename_formatting() {
    // A binding named like its path's tail carries no " as "; a renamed one
    // always does.
    let plain = use_tree_names(&node(&["c", "b", "a"]));
    match &plain[0] {
        Import::Named { name: _, code } => assert!(!code.contains(" as ")),
        Import::Unnamed(_) => panic!("expected a named record"),
    }
    let renamed_out = use_tree_names(&renamed(&["c", "b", "a"], "z"));
    match &renamed_out[0] {
        Import::Named { name, code } => {
            assert_eq!(name, "z");
            assert!(code.contains(" as "));
        },
        Import::Unnamed(_) => panic!("expected a named record"),
    }
}

#[test]
fn test_classification() {
    let path = strings(&["a", "b"]);
    assert_eq!(
        Import::format(&"_".to_string(), &path),
        unnamed("use a::b as _;")
    );
    assert_eq!(
        Import::format(&"*".to_string(), &path),
        unnamed("use a::b as *;")
    );
    assert_eq!(
        Import::format(&"b".to_string(), &path),
        named("b", "use a::b;")
    );
    assert_eq!(
        Import::format(&"c".to_string(), &path),
        named("c", "use a::b as c;")
    );
}

#[test]
fn test_sibling_isolation() {
    // use a::{b::{c}, d}; the second sibling does not see the first one's
    // extension of the prefix.
    let tree = group(&["a"], vec![group(&["b"], vec![node(&["c"])]), node(&["d"])]);
    assert_eq!(
        use_tree_names(&tree),
        vec![named("c", "use a::b::c;"), named("d", "use a::d;")]
    );
}

#[test]
fn test_wildcard_in_group() {
    // use a::b::{c, d as e, f::*};
    let tree = group(
        &["b", "a"],
        vec![node(&["c"]), renamed(&["d"], "e"), wildcard(&["f"])],
    );
    assert_eq!(
        use_tree_names(&tree),
        vec![
            named("c", "use a::b::c;"),
            named("e", "use a::b::d as e;"),
            unnamed("use a::b::f::*;")
        ]
    );
}

#[test]
fn test_underscore_in_group() {
    // use a::{b as _};
    let tree = group(&["a"], vec![renamed(&["b"], "_")]);
    assert_eq!(use_tree_names(&tree), vec![unnamed("use a::b as _;")]);
}

#[test]
fn test_well_formed() {
    assert!(is_well_formed(&node(&["a"])));
    assert!(is_well_formed(&group(&["a"], vec![self_ref(), node(&["b"])])));
    assert!(is_well_formed(&self_ref()));
    assert!(is_well_formed(&UseTree { path: None, children: None, rename: None, star: false }));
    // A plain leaf whose path collected no named segment binds nothing.
    let bare = UseTree {
        path: Some(UsePath::Segments(vec![])),
        children: None,
        rename: None,
        star: false,
    };
    assert!(!is_well_formed(&bare));
    // The same leaf is fine once a group has accumulated a prefix above it.
    let sheltered = group(
        &["a"],
        vec![UseTree {
            path: Some(UsePath::Segments(vec![])),
            children: None,
            rename: None,
            star: false,
        }],
    );
    assert!(is_well_formed(&sheltered));
    // But not under a group that itself accumulated nothing.
    let unsheltered = UseTree {
        path: Some(UsePath::Segments(vec![])),
        children: Some(vec![UseTree {
            path: Some(UsePath::Segments(vec![])),
            children: None,
            rename: None,
            star: false,
        }]),
        rename: None,
        star: false,
    };
    assert!(!is_well_formed(&unsheltered));
}

#[test]
fn test_sheltered_empty_path_leaf() {
    // A leaf whose own path collected no named segments is bound under the
    // group's accumulated prefix.
    let tree = group(
        &["a"],
        vec![UseTree {
            path: Some(UsePath::Segments(vec![])),
            children: None,
            rename: None,
            star: false,
        }],
    );
    assert_eq!(use_tree_names(&tree), vec![named("a", "use a;")]);
}
