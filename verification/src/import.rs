//! The output record of flattening, and the formatting of one record from a
//! bound name and a fully-qualified path.

use vstd::prelude::*;

verus! {

/// One binding produced by flattening an import tree, together with the
/// source text of an equivalent standalone `use` statement.
#[derive(Debug, PartialEq, Eq)]
pub enum Import {
    /// A binding that introduces no usable name: a wildcard import
    /// (`use x::*;`) or a rename to the discard marker (`use x as _;`).
    Unnamed(String),
    /// A binding that brings `name` into scope; `code` is the statement text.
    Named { name: String, code: String },
}

/// The mathematical model of an [`Import`]: the same shape over character
/// sequences.
pub enum ImportView {
    Unnamed(Seq<char>),
    Named { name: Seq<char>, code: Seq<char> },
}

impl View for Import {
    type V = ImportView;

    open spec fn view(&self) -> ImportView {
        match self {
            Import::Unnamed(code) => ImportView::Unnamed(code@),
            Import::Named { name, code } => ImportView::Named { name: name@, code: code@ },
        }
    }
}

/// The statement text carried by a record.
pub open spec fn code_of(r: ImportView) -> Seq<char> {
    match r {
        ImportView::Unnamed(code) => code,
        ImportView::Named { name: _, code } => code,
    }
}

/// The views of a sequence of path segments.
pub open spec fn seg_views(segs: Seq<String>) -> Seq<Seq<char>> {
    segs.map_values(|s: String| s@)
}

/// The views of a sequence of records.
pub open spec fn import_views(imports: Seq<Import>) -> Seq<ImportView> {
    imports.map_values(|i: Import| i@)
}

/// The segments of `path` joined with the separator `::`.
pub open spec fn join_path(path: Seq<Seq<char>>) -> Seq<char>
    decreases path.len(),
{
    if path.len() == 0 {
        Seq::empty()
    } else if path.len() == 1 {
        path[0]
    } else {
        join_path(path.drop_last()) + "::"@ + path.last()
    }
}

/// The regenerated statement text for a binding of `name` at `path`:
/// `use <path>;` when `name` is the path's own last segment (no rename
/// occurred), and `use <path> as <name>;` otherwise.
pub open spec fn import_code(name: Seq<char>, path: Seq<Seq<char>>) -> Seq<char> {
    if path.len() > 0 && path.last() == name {
        "use "@ + join_path(path) + ";"@
    } else {
        "use "@ + join_path(path) + " as "@ + name + ";"@
    }
}

/// The record for a binding of `name` at `path`: `Unnamed` exactly when the
/// name is the discard marker `_` or the wildcard marker `*`, and `Named`
/// carrying that exact name otherwise.
pub open spec fn import_record(name: Seq<char>, path: Seq<Seq<char>>) -> ImportView {
    if name == "_"@ || name == "*"@ {
        ImportView::Unnamed(import_code(name, path))
    } else {
        ImportView::Named { name: name, code: import_code(name, path) }
    }
}

/// Joins the segments of `path` with `::`.
fn join_segments(path: &Vec<String>) -> (r: String)
    ensures
        r@ == join_path(seg_views(path@)),
{
    let mut r = String::new();
    let mut i: usize = 0;
    while i < path.len()
        invariant
            i <= path.len(),
            r@ == join_path(seg_views(path@).take(i as int)),
        decreases path.len() - i,
    {
        if i > 0 {
            r.append("::");
        }
        r.append(path[i].as_str());
        proof {
            let s = seg_views(path@);
            assert(s.take(i + 1).drop_last() =~= s.take(i as int));
            assert(s.take(i + 1).last() == s[i as int]);
            if i == 0 {
                assert(r@ =~= join_path(s.take(1)));
            } else {
                assert(r@ =~= join_path(s.take(i + 1)));
            }
        }
        i += 1;
    }
    proof {
        assert(seg_views(path@).take(path@.len() as int) =~= seg_views(path@));
    }
    r
}

impl Import {
    /// Formats the record for a binding of `name` at `path`.
    pub fn format(name: &String, path: &Vec<String>) -> (r: Import)
        ensures
            r@ == import_record(name@, seg_views(path@)),
    {
        let joined = join_segments(path);
        let mut code = String::new();
        code.append("use ");
        code.append(joined.as_str());
        let renamed = if path.len() > 0 {
            !(path[path.len() - 1] == *name)
        } else {
            true
        };
        if renamed {
            code.append(" as ");
            code.append(name.as_str());
        }
        code.append(";");
        proof {
            assert(code@ =~= import_code(name@, seg_views(path@)));
        }
        let discard = *name == String::from_str("_");
        let wildcard = *name == String::from_str("*");
        if discard || wildcard {
            Import::Unnamed(code)
        } else {
            Import::Named { name: name.clone(), code }
        }
    }
}

} // verus!
