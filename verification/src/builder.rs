//! What the builder decides before any page is written: where a document's
//! output lands under the output root, and how a post collection is cut into
//! index pages with their pagination.

use vstd::prelude::*;

verus! {

use vstd::string::StrSliceExecFns;
use crate::strings::{join_path, join_path_spec};
use crate::list::{Page, Pagination};

/// A slug joined under a base folder: a leading separator on the slug is
/// dropped so the slug always lands inside the base.
pub open spec fn non_adjoined_spec(base: Seq<char>, path: Seq<char>) -> Seq<char> {
    if path.len() > 0 && path[0] == '/' {
        join_path_spec(base, path.drop_first())
    } else {
        join_path_spec(base, path)
    }
}

pub fn non_adjoined_join(base: &str, path: &str) -> (r: String)
    ensures
        r@ == non_adjoined_spec(base@, path@),
{
    let n: usize = path.unicode_len();
    if n > 0 && path.get_char(0) == '/' {
        let stripped = path.substring_char(1, n);
        assert(stripped@ =~= path@.drop_first());
        join_path(base, stripped)
    } else {
        join_path(base, path)
    }
}

/// Cut `n` posts into pages of `per` posts: each entry is the start and the
/// length of one page. Pages are full except the last, which takes what is
/// left; together they cover the collection in order.
pub fn chunk_bounds(n: usize, per: usize) -> (r: Vec<(usize, usize)>)
    requires
        per > 0,
    ensures
        (r@.len() == 0) == (n == 0),
        r@.len() > 0 ==> (#[trigger] r@[0]).0 == 0,
        forall|i: int|
            0 <= i < r@.len() ==> (#[trigger] r@[i]).1 == (if r@[i].0 + per <= n {
                per as int
            } else {
                n - r@[i].0
            }),
        forall|i: int| 0 <= i < r@.len() ==> (#[trigger] r@[i]).0 < n,
        forall|i: int|
            0 < i < r@.len() ==> (#[trigger] r@[i]).0 == r@[i - 1].0 + per,
        r@.len() > 0 ==> r@[r@.len() - 1].0 + r@[r@.len() - 1].1 == n,
{
    let mut out: Vec<(usize, usize)> = Vec::new();
    let mut start: usize = 0;
    while start < n
        invariant
            per > 0,
            0 <= start,
            start <= n,
            (out@.len() == 0) ==> start == 0,
            out@.len() > 0 ==> start == out@[out@.len() - 1].0 + out@[out@.len() - 1].1,
            out@.len() > 0 ==> (#[trigger] out@[0]).0 == 0,
            forall|i: int|
                0 <= i < out@.len() ==> (#[trigger] out@[i]).1 == (if out@[i].0 + per <= n {
                    per as int
                } else {
                    n - out@[i].0
                }),
            forall|i: int| 0 <= i < out@.len() ==> (#[trigger] out@[i]).0 < n,
            forall|i: int|
                0 < i < out@.len() ==> (#[trigger] out@[i]).0 == out@[i - 1].0 + per,
            out@.len() > 0 ==> out@[out@.len() - 1].1 == per as int || start == n,
            forall|i: int|
                0 <= i < out@.len() - 1 ==> (#[trigger] out@[i]).1 == per as int,
        decreases n - start,
    {
        let len: usize = if n - start >= per {
            per
        } else {
            n - start
        };
        out.push((start, len));
        start = start + len;
    }
    out
}

/// The index pages of a paged front index, one per chunk: the first page is
/// the plain index file, every later page carries its number in both the
/// file name and the title.
pub fn index_pages(bounds: &Vec<(usize, usize)>) -> (r: Vec<Page>)
    ensures
        r@.len() == bounds@.len(),
        forall|i: int|
            0 <= i < r@.len() ==> (#[trigger] r@[i]).index == i && r@[i].items == bounds@[i].1,
        r@.len() > 0 ==> r@[0].path@ == "index.html"@ && r@[0].title@ == "Index"@,
        forall|i: int|
            0 < i < r@.len() ==> (#[trigger] r@[i]).path@ == "index-"@ + crate::strings::dec_str(i)
                + ".html"@ && r@[i].title@ == "Index - Page "@ + crate::strings::dec_str(i),
{
    let mut out: Vec<Page> = Vec::new();
    let n = bounds.len();
    let mut i: usize = 0;
    while i < n
        invariant
            n == bounds@.len(),
            0 <= i <= n,
            out@.len() == i as int,
            forall|k: int|
                0 <= k < i ==> (#[trigger] out@[k]).index == k && out@[k].items == bounds@[k].1,
            i > 0 ==> out@[0].path@ == "index.html"@ && out@[0].title@ == "Index"@,
            forall|k: int|
                0 < k < i ==> (#[trigger] out@[k]).path@ == "index-"@ + crate::strings::dec_str(k)
                    + ".html"@ && out@[k].title@ == "Index - Page "@ + crate::strings::dec_str(k),
        decreases n - i,
    {
        let page = if i == 0 {
            Page {
                index: 0,
                title: String::from_str("Index"),
                items: bounds[0].1,
                path: String::from_str("index.html"),
            }
        } else {
            let number = crate::strings::u64_to_string(i as u64);
            let mut path = String::from_str("index-");
            path.append(number.as_str());
            path.append(".html");
            let mut title = String::from_str("Index - Page ");
            title.append(number.as_str());
            proof {
                assert(number@ == crate::strings::dec_str(i as int));
            }
            Page { index: i, title, items: bounds[i].1, path }
        };
        out.push(page);
        i = i + 1;
    }
    out
}

impl Page {
    /// A value equal to this one in every field.
    pub fn duplicate(&self) -> (r: Page)
        ensures
            r.index == self.index,
            r.title@ == self.title@,
            r.items == self.items,
            r.path@ == self.path@,
    {
        Page {
            index: self.index,
            title: self.title.clone(),
            items: self.items,
            path: self.path.clone(),
        }
    }
}

/// The pagination of page `i` in a paged index: its neighbors, where they
/// exist.
pub fn pagination_at(pages: &Vec<Page>, i: usize) -> (r: Pagination)
    requires
        i < pages@.len(),
    ensures
        r.current == i,
        i + 1 < pages@.len() ==> (r.next matches Some(p) && p.index == pages@[i + 1].index
            && p.title@ == pages@[i + 1].title@ && p.items == pages@[i + 1].items && p.path@
            == pages@[i + 1].path@),
        i + 1 == pages@.len() ==> r.next is None,
        i > 0 ==> (r.previous matches Some(p) && p.index == pages@[i - 1].index && p.title@
            == pages@[i - 1].title@ && p.items == pages@[i - 1].items && p.path@ == pages@[i
            - 1].path@),
        i == 0 ==> r.previous is None,
{
    let total = pages.len();
    let next: Option<Page> = if i < total - 1 {
        Some(pages[i + 1].duplicate())
    } else {
        None
    };
    let previous: Option<Page> = if i > 0 {
        Some(pages[i - 1].duplicate())
    } else {
        None
    };
    Pagination { current: i, next, previous }
}

} // verus!
