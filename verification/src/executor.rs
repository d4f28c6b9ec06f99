//! The pure decisions of a build run: when a change forces every document to
//! be treated as stale, and the marking itself.
//!
//! Reading sources, rendering and writing output are outside concerns; they
//! surround these decisions.

use vstd::prelude::*;

verus! {

use crate::document::{Document, DocumentS};
use crate::strings::{match_at, contains_sub};

/// The text that marks a template file.
pub open spec fn html_marker() -> Seq<char> {
    seq!['h', 't', 'm', 'l']
}

/// Whether the path that triggered a rebuild forces every document stale: a
/// change to a template — a path through the public folder naming an HTML
/// file — must re-render everything even where content hashes still match.
pub fn should_force_all(triggered_by: Option<&str>, public_folder: &str) -> (r: bool)
    ensures
        match triggered_by {
            Some(p) => r == ((exists|j: int| match_at(p@, public_folder@, j)) && (exists|j: int|
                match_at(p@, html_marker(), j))),
            None => !r,
        },
{
    proof {
        reveal_strlit("html");
        assert("html"@ =~= html_marker());
    }
    match triggered_by {
        Some(p) => contains_sub(p, public_folder) && contains_sub(p, "html"),
        None => false,
    }
}

/// A document unchanged but for its staleness mark.
pub open spec fn marked_updated(d: DocumentS) -> DocumentS {
    DocumentS { updated: true, ..d }
}

/// Mark every document as updated, so the whole collection is re-rendered.
pub fn mark_all_updated(documents: &mut Vec<Document>)
    ensures
        final(documents)@.len() == old(documents)@.len(),
        forall|i: int|
            0 <= i < old(documents)@.len() ==> final(documents).deep_view()[i] == marked_updated(
                old(documents).deep_view()[i],
            ),
{
    let ghost orig = documents.deep_view();
    let n = documents.len();
    let mut out: Vec<Document> = Vec::new();
    let mut i: usize = 0;
    while i < n
        invariant
            n == documents@.len(),
            orig == documents.deep_view(),
            0 <= i <= n,
            out@.len() == i as int,
            forall|k: int| 0 <= k < i ==> out.deep_view()[k] == marked_updated(orig[k]),
        decreases n - i,
    {
        let mut d = documents[i].duplicate();
        d.updated = true;
        proof {
            assert(documents.deep_view()[i as int] == documents@[i as int].deep_view());
            assert(d.deep_view() == marked_updated(orig[i as int]));
        }
        let ghost dv = d.deep_view();
        let ghost pre = out@;
        let ghost pre_deep = out.deep_view();
        out.push(d);
        proof {
            assert(out@[i as int] == d);
            assert(out.deep_view()[i as int] == dv);
            assert forall|k: int| 0 <= k < i + 1 implies out.deep_view()[k] == marked_updated(
                orig[k],
            ) by {
                if k < i {
                    assert(out@[k] == pre[k]);
                    assert(out.deep_view()[k] == pre[k].deep_view());
                    assert(pre_deep[k] == pre[k].deep_view());
                    assert(pre_deep[k] == marked_updated(orig[k]));
                } else {
                    assert(out.deep_view()[k] == dv);
                }
            }
        }
        i = i + 1;
    }
    *documents = out;
}

} // verus!
